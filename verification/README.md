# sovereign

The verified core of a local, private screen-history recorder.

`src/` is the library, proved with Verus:

- `capture`: perceptual hashing and the frame deduplicator, which records a
  frame only when its hash differs from the last recorded one.
- `frame`: captured images: combining monitors side by side, scaling down,
  conversion to RGB.
- `layout`: side-by-side canvas layout for multi-monitor captures, the
  capture size limit, and image file names.
- `indexing`: what becomes of the text read off a frame, and the stored
  byte layout of embedding vectors, written and read back.
- `model`: which local copy of the embedding model is used.
- `privacy`: the window-title blacklist of the privacy guard.
- `text`: white-space trimming.
- `search`: query validation, similarity order keys, the top matches of a
  search and the order of the fetched results.
- `ranking`: stable ranking by descending score.
- `retention`: which frames are past the retention period.
- `stats`: row counts of the store.

`app/` holds the desktop program around it: screen capture, OCR, the
embedding model, the SQLite store and the commands of the user interface.
