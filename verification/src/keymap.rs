//! Key inputs, the binding trie, and the mode-aware dispatch state machine.

pub mod input;
pub mod map;
pub mod tree;
