//! Text-editing primitives: navigation, selection and editing state for text inputs.
pub mod text;
pub mod navigation;
pub mod words;
pub mod selection;
pub mod input_state;
pub mod cursor_blink;
pub mod text_transforms;
pub mod rendering;
pub mod selectable_text_state;
pub mod selectable_layout_state;
pub mod display_text;
pub mod layout_groups;
pub mod decoration;
