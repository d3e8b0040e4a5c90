//! Keybinding-resolution engine of a modal terminal text editor.
//!
//! Ordered sequences of key presses ("chords") are mapped to lists of
//! executable commands, scoped per editor mode. A trie of key edges
//! ([`keymap::tree::KeymapTree`]) holds the bindings; [`keymap::map::Keymap`]
//! tracks progress through multi-key chords across successive key events and
//! resolves each event to the commands bound to it.

pub mod commands;
pub mod keymap;
