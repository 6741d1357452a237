# Photo Grid Print

Arranges photos into multi-page, print-ready grid sheets and writes them as a
300 DPI PDF, from the command line or from a desktop window with a live preview.

## Layout

- `src/` is the library, verified with Verus:
  - `paper.rs`: sheet formats and their exact sizes in tenths of a millimetre.
  - `layout.rs`: pixel size of a sheet, and where the cells of the grid stand on it
    (centred between the margins, never overlapping).
  - `queue.rs`: the print queue (each photo repeated by its copy count) and how it is
    split into sheets.
  - `canvas.rs`: an RGB raster and the drawing operations that compose a sheet.
  - `imaging.rs`: the operations the `image` crate performs (resampling, luminance,
    grey-to-RGB, JPEG encoding), each behind a trusted wrapper with its contract.
  - `grid.rs`: preparing a photo's cell (tone filter, fit, border) and composing the
    print and preview sheets.
  - `pdf.rs`: a minimal PDF writer, one JPEG image per page.
  - `clock.rs`: the local clock (through `chrono`) and the time stamp written into
    output file names.
  - `theme.rs`, `config.rs`, `files.rs`, `session.rs`: the interface's colours, the
    stored settings and output names, choosing input photos, and the editing session.
- `app/` is the program around the library: command-line arguments, file and
  folder access, the settings file, printing, and the `eframe` window.
- `tests/` exercises the library on concrete inputs.
