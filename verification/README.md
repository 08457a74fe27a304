# gpui_primitives

Text-editing primitives for GPUI components — text inputs, selectable text and
selectable layouts of several text children — with their logic verified by Verus.

Every offset is a UTF-8 byte offset into the text; contracts speak of a text as a
`Seq<char>` and of byte offsets through `byte_offset` / `is_char_boundary_of`
(`src/text.rs`).

## Layout

- `src/text.rs` — the text model: UTF-8 and UTF-16 widths, char boundaries, offset tables
  and conversions between UTF-8 and UTF-16 offsets.
- `src/navigation.rs` — lines and columns: line counts, line starts and ends, line/column
  conversion, moving a line up or down.
- `src/words.rs` — grapheme and word boundaries (graphemes come from
  `unicode-segmentation`).
- `src/selection.rs` — a selection as a range with a direction.
- `src/input_state.rs` — an editable input: selection, editing, IME composition, undo and
  redo, UTF-16 ranges for platform text input, mouse selection and focus.
- `src/selectable_text_state.rs` — read-only text with keyboard and mouse selection.
- `src/selectable_layout_state.rs` — selection over the concatenated text of several
  children, with double-click word ranges and drag selection.
- `src/layout_groups.rs` — which children are shaped together and how a layout's text is
  cut into pieces at visual lines.
- `src/rendering.rs` — visual (wrapped) lines, scroll targets and text-run slicing.
- `src/decoration.rs` — the decoration-display and concave-corner options.
- `src/display_text.rs`, `src/text_transforms.rs`, `src/cursor_blink.rs` — what a line
  displays, the password transform and the cursor blink state.
- `app/lib.rs` — the pixel arithmetic of layout and scrolling (floating point) and the
  text-map hook of an input, around the library.
- `tests/` — tests of the library on concrete values.

Each module states its operations' results in `ensures` over a mathematical model (a
`View` of each state type), and states the properties that span operations as `law_*`
proof functions.
