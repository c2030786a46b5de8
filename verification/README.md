# torn

A retained-mode UI toolkit whose core is verified with Verus.

## Layout

- `src/` is the verified library `torn`:
  - `id`, `input`, `diagnostic`: generational widget identifiers, keyboard
    and pointer input data, diagnostics.
  - `runtime`: the widget tree of the UI runtime (a generational arena),
    pointer capture and hover maps, event routes and delivery order, focus
    and tab navigation, layout bookkeeping, and retained diagnostics.
  - `ui`, `button`: event status, key chords, themes and palettes, container
    and widget data, the button's pointer state machine.
  - `geometry`, `binary32`: validation of sizes and constraints and the
    normalization of split ratios, over the binary32 encodings of `f32`
    values.
  - `dock_ids`, `dock_tree`, `workspace`, `workspace_laws`: the persisted
    docking workspace, its transactions, validation and decoding, and the
    laws they keep.
  - `dock_projection`: what a dock area shows of a workspace tree.
  - `text`: font faces parsed with `fontdue`, line-break normalization and
    the choice of a face for every character.
  - `pixel_buffer`, `png`, `render`, `presenter`: pixel buffers and their PNG
    encoding, renderer results and scissor rectangles, frame pacing.
- `tests/` exercises the library on concrete values.
- `app/` holds what works on `f32` geometry, threads, files and JSON: the
  widget trait and the runtime that drives widgets, painting and the software
  renderer, text shaping, the widgets themselves, and workspace persistence.

## How the two halves meet

- The runtime API that widgets and applications call (`Runtime` in
  `app/runtime.rs`) keeps its widgets in the verified arena `UiRuntime<W>`
  of `src/runtime.rs`: the arena decides every handle, link, route, focus
  move and retained diagnostic, and `Runtime` adds the `f32` layout, painting
  and panic handling around it.
- The software renderer in `app/renderer.rs` walks a display list on `f32`
  geometry, but every save, restore and clip is first applied to the verified
  `StateStack` of `src/render.rs`, which decides the stack errors.
- A glyph is rasterized by the free function `rasterize` in `app/text.rs`,
  which takes a `FontFace` of the library.

## Not included

- The native event loop (`run` and `RunError`) and the GPU renderer
  (`GpuRenderer`, `GpuError`): they need `winit` and `wgpu`, which this crate
  does not depend on.
- The bundled face (`FontFace::ubuntu_light`, `FontdueTextShaper::ubuntu_light`):
  the font file it embeds is not part of these sources. A face is built from
  bytes with `FontFace::from_bytes` instead.
