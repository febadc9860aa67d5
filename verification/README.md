# pic_process

First cut of a batch of photos: it measures sharpness, exposure, noise, composition and aesthetics,
finds bursts and picks their best frames, gives stars, and writes a report and XMP sidecars.

- `src/` is the library, verified with Verus: which files are photos, their EXIF fields and pictures
  from their bytes, the measures on pixels, what the models' outputs mean, bursts, pairs of JPG and
  RAW, scores, stars, reports, sidecars, settings, stored results and the rules of the review page.
- `app/` is the program around it: command line, files, models, database, web server, and the
  curves that need floating point.
- `tests/` runs the library on concrete values.

Decimal numbers in the library are integers that count millionths: a score of 87.5 is 87 500 000.
Each contract is stated over the module's own spec functions; what holds of several functions at
once is stated by the public proof functions next to them.

The library calls `jpeg-decoder`, `image`, `kamadak-exif`, `csv` and `toml_edit` through small
functions whose contracts are trusted. Where what a call returns has no short description it is
named by a spec function without a body, and the contracts of the callers speak of that name.
