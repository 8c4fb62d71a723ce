# lmmp

A music library indexer. It walks a directory, reads the tags of the audio
files below it (ID3 for `.mp3`, MP4 metadata for `.m4a`, container metadata
through libavformat for `.ogg`, `.flac` and `.opus`), and files each track by
artist, album and track number.

- `src/` is the verified library: turning tag fields into tracks, reading
  Vorbis comments, reading track numbers, choosing a reader by extension, and
  the library's catalog with its laws (read after write, no other entry
  changes, filing twice is filing once, independent tracks commute, no key
  carries a disc number), and what the window's event loop does with each
  event (`ui`).
- `app/` reads the files: the directory walk, the tag readers of the outside
  crates, the libvorbisfile bindings, and the optional window.
- `tests/` runs the library on concrete values.
