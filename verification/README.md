# Clippet

A clipboard manager for Windows 11 that lives in the notification area. It keeps
what is copied — text, code, rich text, HTML, tables, images, files — and gives
it back on Ctrl+Shift+V: type to search, Enter to paste, pin what should stay.

## Layout

- `src/` is the library. Every decision and every conversion of the program is
  here, with its contract, proved by Verus.
  - capturing and pasting: `capture`, `paste`
  - formats: `dib`, `png_io`, `thumb`, `html`, `rtf`, `wide`, `lossy`, `b64`,
    `bytes`, `text`, `preview`, `hash`
  - the history: `item`, `history`, `storage`, `filter`, `fuzzy`, `session`
  - the window: `message`, `popup`, `list`, `row`, `chrome`, `icons`,
    `geometry`, `settings`
- `tests/` runs the library on concrete values.
- `app/` is the program around it: windows, the clipboard, the registry, files
  and drawing.

Public proof functions named `law_*` state what holds of several functions
together, such as that a captured image is pasted with the same pixels, or that
a stored history is loaded as it was.

What the library takes on trust is what it calls in other crates: base64, PNG
coding, fuzzy matching, and three functions of the standard library. Each such
function stands behind one item whose comment says what is relied on.
