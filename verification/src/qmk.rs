//! QMK-facing pieces: the token classifier, the raw keymap assembler, the
//! keycode display-name table, and the keycode-definition overlay resolver.

pub mod constants;
pub mod keycodes;
pub mod parser;
