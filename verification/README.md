# cropgun

Finds rectangular photographs in scanned images and saves each one as a
file of its own.

- `src/` is the verified library (Verus):
  - `config` — log levels, the verbosity setting, which log lines are
    printed, preprocessing modes and the processing options;
  - `geometry` — pixel rectangles and the merging of overlapping or nearby
    boxes, with its full specification and the proof that it singles out
    one result;
  - `detection` — the two detectors' integer steps: inversion, contour
    tracing and the area filter for dark objects on a light scan; closing
    of an edge image, tracing of outer contours and the size and shape
    tests; contour bounding boxes (through `geo`) and tracing (through
    `imageproc`);
  - `image_processor` — output file names and the crop bounds check;
  - `daemon` — the folder watcher's bookkeeping and retry policy;
  - `layout` — geometry of the debug preview (outlines, stage labels, grid)
    and grey-to-colour conversion;
  - `paths`, `text` — path questions asked of `std::path`, decimal
    rendering and prefix tests.
- `app/` is the command-line program: argument parsing (`clap`), image
  reading, blurring, edge finding and drawing (`image`, `imageproc`),
  floating-point scoring and scaling, folder watching (`notify`) and printing.
- By default the program finds dark objects (blur, invert, trace at a low
  threshold, keep boxes of at least 5% of the image); `--closing-detector`
  selects the Canny-and-closing detector with box merging.
- `tests/` runs the library on concrete values.
