//! Sessions of a model that take turns, and the files of the models.
use vstd::prelude::*;

verus! {

/// Directory of the models.
pub const MODELS_DIR: &'static str = "models";

/// The error text of the inference library, with its source in front.
pub fn ort_err(e: &str) -> (r: String)
    ensures
        r@ == "onnxruntime: "@ + e@,
{
    let mut s = String::from_str("onnxruntime: ");
    s.append(e);
    s
}

/// Sessions that take turns.
pub struct SessionPool<T> {
    sessions: Vec<T>,
    next: usize,
}

impl<T> SessionPool<T> {
    /// The sessions.
    pub closed spec fn sessions(&self) -> Seq<T> {
        self.sessions@
    }

    /// How many times a session was taken, as far as the counter goes before it starts again.
    pub closed spec fn taken(&self) -> usize {
        self.next
    }

    /// A pool of the given sessions, none of which was taken yet.
    pub fn new(sessions: Vec<T>) -> (r: Self)
        ensures
            r.sessions() == sessions@,
            r.taken() == 0,
    {
        SessionPool { sessions, next: 0 }
    }

    /// Takes the session whose turn it is.
    pub fn acquire(&mut self) -> (r: &mut T)
        requires
            old(self).sessions().len() > 0,
        ensures
            *r == old(self).sessions()[old(self).taken() as int % old(self).sessions().len() as int],
            final(self).sessions() == old(self).sessions().update(
                old(self).taken() as int % old(self).sessions().len() as int,
                *final(r),
            ),
            final(self).taken() == if old(self).taken() == usize::MAX {
                0
            } else {
                (old(self).taken() + 1) as usize
            },
    {
        let i: usize = self.next % self.sessions.len();
        self.next = if self.next == usize::MAX { 0 } else { self.next + 1 };
        &mut self.sessions[i]
    }

    /// The number of sessions.
    pub fn len(&self) -> (r: usize)
        ensures
            r == self.sessions().len(),
    {
        self.sessions.len()
    }
}

/// The sessions of a pool are taken one after the other: no session is taken again before all
/// others were.
pub proof fn sessions_take_turns(n: int, taken: int, i: int, j: int)
    requires
        n > 0,
        taken >= 0,
        0 <= i < j < n,
    ensures
        (taken + i) % n != (taken + j) % n,
{
    if (taken + i) % n == (taken + j) % n {
        vstd::arithmetic::div_mod::lemma_fundamental_div_mod(taken + i, n);
        vstd::arithmetic::div_mod::lemma_fundamental_div_mod(taken + j, n);
        let a = (taken + i) / n;
        let b = (taken + j) / n;
        assert(n * b - n * a == j - i);
        assert(n * b - n * a == n * (b - a)) by (nonlinear_arith);
        assert(false) by (nonlinear_arith)
            requires
                n * (b - a) == j - i,
                0 < j - i < n,
                n > 0,
        ;
    }
}

/// The names of the model files.
pub open spec fn model_files() -> Seq<Seq<char>> {
    seq![
        "clipiqa_model.onnx"@,
        "clipiqa_model.onnx.data"@,
        "scrfd_10g_bnkps.onnx"@,
        "yolov8n_pose.onnx"@,
    ]
}

/// The names of the model files.
pub fn model_names() -> (r: [&'static str; 4])
    ensures
        forall|i: int| 0 <= i < 4 ==> (#[trigger] r@[i])@ == model_files()[i],
{
    ["clipiqa_model.onnx", "clipiqa_model.onnx.data", "scrfd_10g_bnkps.onnx", "yolov8n_pose.onnx"]
}

/// Where models can be had.
pub const MODEL_HINT: &'static str = "\n\
    请先下载（模型列表见 README.md）：\n\
    - CLIPIQA+: hf-mirror.com/86Cao/IQA-ONNX-Models\n\
    - SCRFD:    hf-mirror.com/RuteNL/SCRFD-face-detection-ONNX\n\
    - YOLOv8n-pose: hf-mirror.com/Xenova/yolov8n-pose";

/// What is said of a missing model.
pub open spec fn missing_model(name: Seq<char>) -> Seq<char> {
    "缺少模型文件 models/"@ + name + MODEL_HINT@
}

/// Checks that all model files are there: `present` says so of each, in the order of
/// `model_names`. The first that is missing is named in the error.
pub fn ensure_models(present: &[bool; 4]) -> (r: Result<(), String>)
    ensures
        match r {
            Ok(()) => forall|i: int| 0 <= i < 4 ==> #[trigger] present@[i],
            Err(e) => exists|i: int|
                #![trigger present@[i]]
                0 <= i < 4 && !present@[i] && (forall|j: int| 0 <= j < i ==> present@[j]) && e@
                    == missing_model(model_files()[i]),
        },
{
    let names = model_names();
    let mut i: usize = 0;
    while i < 4
        invariant
            i <= 4,
            forall|i: int| 0 <= i < 4 ==> (#[trigger] names@[i])@ == model_files()[i],
            forall|j: int| 0 <= j < i ==> #[trigger] present@[j],
        decreases 4 - i,
    {
        if !present[i] {
            let mut s = String::from_str("缺少模型文件 models/");
            s.append(names[i]);
            s.append(MODEL_HINT);
            assert(!present@[i as int]);
            return Err(s);
        }
        i += 1;
    }
    Ok(())
}

} // verus!
