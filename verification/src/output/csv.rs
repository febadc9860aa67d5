//! The report: one line of comma separated values for each file.
use crate::pipeline::{bool_spec, bool_text};
use crate::scan::{PhotoEntry, PhotoView};
use vstd::prelude::*;
use vstd::utf8::encode_utf8;

verus! {

/// A field needs quotes: it holds a comma, a quote or the end of a line.
pub open spec fn needs_quotes(field: Seq<char>) -> bool {
    field.contains(',') || field.contains('"') || field.contains('\n') || field.contains('\r')
}

/// A text with every quote doubled.
pub open spec fn doubled(s: Seq<char>) -> Seq<char>
    decreases s.len(),
{
    if s.len() == 0 {
        s
    } else if s.last() == '"' {
        doubled(s.drop_last()) + seq!['"', '"']
    } else {
        doubled(s.drop_last()).push(s.last())
    }
}

/// A field as it is written.
pub open spec fn csv_field(field: Seq<char>) -> Seq<char> {
    if needs_quotes(field) {
        seq!['"'] + doubled(field) + seq!['"']
    } else {
        field
    }
}

/// The first `k` fields with commas between them.
pub open spec fn csv_fields(fields: Seq<Seq<char>>, k: int) -> Seq<char>
    decreases k,
{
    if k <= 0 {
        Seq::empty()
    } else if k == 1 {
        csv_field(fields[0])
    } else {
        csv_fields(fields, k - 1) + seq![','] + csv_field(fields[k - 1])
    }
}

/// One line of comma separated values with its line end, in UTF-8.
pub open spec fn csv_line(fields: Seq<Seq<char>>) -> Seq<u8> {
    encode_utf8(csv_fields(fields, fields.len() as int).push('\n'))
}

/// The texts of a list.
pub open spec fn field_texts(fields: Seq<String>) -> Seq<Seq<char>> {
    fields.map_values(|s: String| s@)
}

/// Writes one record with `csv::Writer::write_record` into memory, with the settings that
/// `csv::WriterBuilder::new` gives: commas between the fields, a line feed at the end, and quotes
/// round a field that holds a comma, a quote or the end of a line, with the quotes in it doubled.
/// Less than two fields are left out, as a single empty one is written with quotes.
#[verifier::external_body]
fn write_line(fields: &Vec<String>) -> (r: Vec<u8>)
    requires
        fields.len() >= 2,
    ensures
        r@ == csv_line(field_texts(fields@)),
{
    let mut w = csv::WriterBuilder::new().from_writer(Vec::new());
    let _ = w.write_record(fields);
    w.into_inner().unwrap_or_default()
}

/// The names of the columns.
pub open spec fn column_names() -> Seq<Seq<char>> {
    seq![
        "path"@,
        "filename"@,
        "extension"@,
        "is_raw"@,
        "has_pair"@,
        "date_time_original"@,
        "camera_make"@,
        "camera_model"@,
        "lens_model"@,
        "iso"@,
        "f_number"@,
        "shutter_speed"@,
        "focal_length"@,
        "sharpness_score"@,
        "exposure_score"@,
        "noise_score"@,
        "composition_score"@,
        "aesthetic_score"@,
        "total_score"@,
        "suggested_ev"@,
        "stars"@,
        "faces"@,
        "analysis_ok"@,
        "burst_group"@,
        "burst_size"@,
        "burst_rank"@,
        "burst_keep"@,
        "burst_pose"@,
    ]
}

/// The fields of a row, in the order of the columns.
pub open spec fn record_of(v: PhotoView) -> Seq<Seq<char>> {
    seq![
        v.path,
        v.filename,
        v.extension,
        bool_spec(v.is_raw),
        bool_spec(v.has_pair),
        v.date_time_original,
        v.camera_make,
        v.camera_model,
        v.lens_model,
        v.iso,
        v.f_number,
        v.shutter_speed,
        v.focal_length,
        v.sharpness_score,
        v.exposure_score,
        v.noise_score,
        v.composition_score,
        v.aesthetic_score,
        v.total_score,
        v.suggested_ev,
        v.stars,
        v.faces,
        v.analysis_ok,
        v.burst_group,
        v.burst_size,
        v.burst_rank,
        v.burst_keep,
        v.burst_pose,
    ]
}

/// The names of the columns.
fn columns() -> (r: Vec<String>)
    ensures
        field_texts(r@) == column_names(),
        r.len() == 28,
{
    let mut v: Vec<String> = Vec::new();
    v.push(String::from_str("path"));
    v.push(String::from_str("filename"));
    v.push(String::from_str("extension"));
    v.push(String::from_str("is_raw"));
    v.push(String::from_str("has_pair"));
    v.push(String::from_str("date_time_original"));
    v.push(String::from_str("camera_make"));
    v.push(String::from_str("camera_model"));
    v.push(String::from_str("lens_model"));
    v.push(String::from_str("iso"));
    v.push(String::from_str("f_number"));
    v.push(String::from_str("shutter_speed"));
    v.push(String::from_str("focal_length"));
    v.push(String::from_str("sharpness_score"));
    v.push(String::from_str("exposure_score"));
    v.push(String::from_str("noise_score"));
    v.push(String::from_str("composition_score"));
    v.push(String::from_str("aesthetic_score"));
    v.push(String::from_str("total_score"));
    v.push(String::from_str("suggested_ev"));
    v.push(String::from_str("stars"));
    v.push(String::from_str("faces"));
    v.push(String::from_str("analysis_ok"));
    v.push(String::from_str("burst_group"));
    v.push(String::from_str("burst_size"));
    v.push(String::from_str("burst_rank"));
    v.push(String::from_str("burst_keep"));
    v.push(String::from_str("burst_pose"));
    assert(field_texts(v@) =~= column_names());
    v
}

/// The fields of a row, in the order of the columns.
fn record(e: &PhotoEntry) -> (r: Vec<String>)
    ensures
        field_texts(r@) == record_of(e@),
        r.len() == 28,
{
    let mut v: Vec<String> = Vec::new();
    v.push(e.path.clone());
    v.push(e.filename.clone());
    v.push(e.extension.clone());
    v.push(bool_text(e.is_raw));
    v.push(bool_text(e.has_pair));
    v.push(e.date_time_original.clone());
    v.push(e.camera_make.clone());
    v.push(e.camera_model.clone());
    v.push(e.lens_model.clone());
    v.push(e.iso.clone());
    v.push(e.f_number.clone());
    v.push(e.shutter_speed.clone());
    v.push(e.focal_length.clone());
    v.push(e.sharpness_score.clone());
    v.push(e.exposure_score.clone());
    v.push(e.noise_score.clone());
    v.push(e.composition_score.clone());
    v.push(e.aesthetic_score.clone());
    v.push(e.total_score.clone());
    v.push(e.suggested_ev.clone());
    v.push(e.stars.clone());
    v.push(e.faces.clone());
    v.push(e.analysis_ok.clone());
    v.push(e.burst_group.clone());
    v.push(e.burst_size.clone());
    v.push(e.burst_rank.clone());
    v.push(e.burst_keep.clone());
    v.push(e.burst_pose.clone());
    assert(field_texts(v@) =~= record_of(e@));
    v
}

/// The lines of the first `k` rows.
pub open spec fn report_lines(rows: Seq<PhotoEntry>, k: int) -> Seq<u8>
    decreases k,
{
    if k <= 0 {
        Seq::empty()
    } else {
        report_lines(rows, k - 1) + csv_line(record_of(rows[k - 1]@))
    }
}

/// The report: the names of the columns, then a line for each row.
pub open spec fn report_of(rows: Seq<PhotoEntry>) -> Seq<u8> {
    csv_line(column_names()) + report_lines(rows, rows.len() as int)
}

/// The bytes of the report.
pub fn write_csv(entries: &Vec<PhotoEntry>) -> (r: Vec<u8>)
    ensures
        r@ == report_of(entries@),
{
    let mut head = write_line(&columns());
    let ghost first = head@;
    let mut body: Vec<u8> = Vec::new();
    let mut i: usize = 0;
    assert(body@ =~= report_lines(entries@, 0));
    while i < entries.len()
        invariant
            i <= entries.len(),
            body@ == report_lines(entries@, i as int),
        decreases entries.len() - i,
    {
        let mut line = write_line(&record(&entries[i]));
        let ghost l = line@;
        let ghost before = body@;
        body.append(&mut line);
        assert(body@ =~= before + l);
        i += 1;
    }
    let ghost rest = body@;
    head.append(&mut body);
    assert(head@ =~= first + rest);
    head
}

/// The line of a row holds `text` in the column of the given name.
pub open spec fn in_column(v: PhotoView, name: Seq<char>, text: Seq<char>) -> bool {
    exists|k: int|
        0 <= k < column_names().len() && #[trigger] column_names()[k] == name && record_of(v)[k]
            == text
}

/// Every field of a row stands under its own name, and a line has as many fields as there are names.
pub proof fn fields_stand_under_their_names(v: PhotoView)
    ensures
        record_of(v).len() == column_names().len(),
        in_column(v, "path"@, v.path),
        in_column(v, "filename"@, v.filename),
        in_column(v, "extension"@, v.extension),
        in_column(v, "is_raw"@, bool_spec(v.is_raw)),
        in_column(v, "has_pair"@, bool_spec(v.has_pair)),
        in_column(v, "date_time_original"@, v.date_time_original),
        in_column(v, "camera_make"@, v.camera_make),
        in_column(v, "camera_model"@, v.camera_model),
        in_column(v, "lens_model"@, v.lens_model),
        in_column(v, "iso"@, v.iso),
        in_column(v, "f_number"@, v.f_number),
        in_column(v, "shutter_speed"@, v.shutter_speed),
        in_column(v, "focal_length"@, v.focal_length),
        in_column(v, "sharpness_score"@, v.sharpness_score),
        in_column(v, "exposure_score"@, v.exposure_score),
        in_column(v, "noise_score"@, v.noise_score),
        in_column(v, "composition_score"@, v.composition_score),
        in_column(v, "aesthetic_score"@, v.aesthetic_score),
        in_column(v, "total_score"@, v.total_score),
        in_column(v, "suggested_ev"@, v.suggested_ev),
        in_column(v, "stars"@, v.stars),
        in_column(v, "faces"@, v.faces),
        in_column(v, "analysis_ok"@, v.analysis_ok),
        in_column(v, "burst_group"@, v.burst_group),
        in_column(v, "burst_size"@, v.burst_size),
        in_column(v, "burst_rank"@, v.burst_rank),
        in_column(v, "burst_keep"@, v.burst_keep),
        in_column(v, "burst_pose"@, v.burst_pose),
{
    assert(column_names()[0] == "path"@ && record_of(v)[0] == v.path);
    assert(column_names()[1] == "filename"@ && record_of(v)[1] == v.filename);
    assert(column_names()[2] == "extension"@ && record_of(v)[2] == v.extension);
    assert(column_names()[3] == "is_raw"@ && record_of(v)[3] == bool_spec(v.is_raw));
    assert(column_names()[4] == "has_pair"@ && record_of(v)[4] == bool_spec(v.has_pair));
    assert(column_names()[5] == "date_time_original"@ && record_of(v)[5] == v.date_time_original);
    assert(column_names()[6] == "camera_make"@ && record_of(v)[6] == v.camera_make);
    assert(column_names()[7] == "camera_model"@ && record_of(v)[7] == v.camera_model);
    assert(column_names()[8] == "lens_model"@ && record_of(v)[8] == v.lens_model);
    assert(column_names()[9] == "iso"@ && record_of(v)[9] == v.iso);
    assert(column_names()[10] == "f_number"@ && record_of(v)[10] == v.f_number);
    assert(column_names()[11] == "shutter_speed"@ && record_of(v)[11] == v.shutter_speed);
    assert(column_names()[12] == "focal_length"@ && record_of(v)[12] == v.focal_length);
    assert(column_names()[13] == "sharpness_score"@ && record_of(v)[13] == v.sharpness_score);
    assert(column_names()[14] == "exposure_score"@ && record_of(v)[14] == v.exposure_score);
    assert(column_names()[15] == "noise_score"@ && record_of(v)[15] == v.noise_score);
    assert(column_names()[16] == "composition_score"@ && record_of(v)[16] == v.composition_score);
    assert(column_names()[17] == "aesthetic_score"@ && record_of(v)[17] == v.aesthetic_score);
    assert(column_names()[18] == "total_score"@ && record_of(v)[18] == v.total_score);
    assert(column_names()[19] == "suggested_ev"@ && record_of(v)[19] == v.suggested_ev);
    assert(column_names()[20] == "stars"@ && record_of(v)[20] == v.stars);
    assert(column_names()[21] == "faces"@ && record_of(v)[21] == v.faces);
    assert(column_names()[22] == "analysis_ok"@ && record_of(v)[22] == v.analysis_ok);
    assert(column_names()[23] == "burst_group"@ && record_of(v)[23] == v.burst_group);
    assert(column_names()[24] == "burst_size"@ && record_of(v)[24] == v.burst_size);
    assert(column_names()[25] == "burst_rank"@ && record_of(v)[25] == v.burst_rank);
    assert(column_names()[26] == "burst_keep"@ && record_of(v)[26] == v.burst_keep);
    assert(column_names()[27] == "burst_pose"@ && record_of(v)[27] == v.burst_pose);
}

} // verus!
