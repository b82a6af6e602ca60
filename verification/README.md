# cbz_converter

Turns folders of comic page images into CBZ archives with a ComicInfo.xml
document. The library under `src/` holds the logic, each function with a
contract proved by Verus:

- `text` — trimming, search, replacement, splitting, joining, XML escaping
  and decimal numbers over character sequences, with their models.
- `models` — ComicInfo fields and page types, per-folder metadata, preset
  rows and page rules (positions counted from either end, clamped ranges).
- `parser` — folder-name templates such as `[{author}] {series} ({tags})`:
  compiling, reading names, formatting names.
- `metadata` — the ComicInfo.xml document, stated exactly as a function of
  the metadata, the preset rows and the page rules.
- `comicinfo_import` — reading a ComicInfo.xml back into preset rows
  (parsing itself is done by roxmltree).
- `settings`, `library` — persistent settings, manual edits surviving a
  re-parse, the tag and genre libraries and preset row editing.
- `converter`, `natural`, `dropped` — which files are pages, their natural
  order (natord), archive and entry names, and `file://` percent-decoding.

`app/` is the egui desktop program around it: windows, file dialogs,
settings file, walking folders and writing the archives.
