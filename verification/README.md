# cosmic_toys

The verified core of a PowerToys-style tool box for the COSMIC desktop: a
colour picker with a magnifier, an OCR text grabber, a find-mouse spotlight
and the settings that bind their hotkeys.

`src/` is the library, written in Verus; every function there carries a
contract that Verus proves:

| module | what it holds |
|---|---|
| `canvas`, `font` | BGRA canvas drawing and the 5x7 pixel font, with pixel-exact contracts; bytes past a canvas's pixels are never touched |
| `picker` | the captured screenshot, the rendered output slice, the magnifier lens, the hex label, picking a colour |
| `history` | the pick history file: parsing, writing, recording a pick |
| `shortcut`, `keys` | COSMIC's shortcut file (read, bind, clear our entry) and turning a captured key press into a combo |
| `ocr`, `ocr_draw` | tesseract's TSV output as words, reading order, the click-drag selection, the copied text, the overlay rendering |
| `ipc` | the daemon's socket protocol |
| `daemon_cli`, `gui_cli` | the two command lines |
| `paths` | where the files and the socket live |
| `picker_page` | the Color Picker page's state: the pick in flight, the colour shown, the recents |
| `config`, `applet` | the settings and the updates the settings page makes |
| `text` | string helpers over `Seq<char>` |

Laws that span functions are public proof functions (`law_*`, and the
selection and history lemmas).

`app/` is the `cosmic-toysd` daemon around the library: the command line,
the socket server, the files, `grim` and `tesseract`, the clipboard and
notifications, and the layer-shell overlays.

`tests/` exercises the library on concrete values.
