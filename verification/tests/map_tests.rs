use kk_keymap::commands::KCommand;
use kk_keymap::keymap::input::KeyInput;
use kk_keymap::keymap::map::DocumentMode;
use kk_keymap::keymap::map::Keymap;
use kk_keymap::keymap::tree::KeyInputTypes;
use kk_keymap::keymap::tree::KeymapNode;
use kk_keymap::keymap::tree::KeymapTree;

fn setup() -> KeymapTree {
    let mut k = KeymapTree::new();
    let space = KeyInputTypes::MATCH(KeyInput::parse("space").unwrap());
    let a = KeyInputTypes::MATCH(KeyInput::parse("a").unwrap());
    let b = KeyInputTypes::MATCH(KeyInput::parse("b").unwrap());
    let c = KeyInputTypes::MATCH(KeyInput::parse("c").unwrap());
    let d = KeyInputTypes::MATCH(KeyInput::parse("d").unwrap());

    k.insert_chain(vec![space.clone(), a.clone()], vec![KCommand::escape()]);
    k.insert_chain(vec![space.clone(), b.clone()], vec![KCommand::nop()]);
    k.insert_chain(vec![c.clone()], vec![KCommand::nop()]);
    k.insert_chain(vec![d.clone()], vec![KCommand::nop()]);
    k.insert_single(KeymapNode::new_with_commands(
        KeyInputTypes::MATCH_ALL,
        vec![KCommand::error()],
    ));
    k
}

#[test]
fn touch_one_key_success() {
    let mut keymap = Keymap::new();
    keymap.load_keymap_tree(DocumentMode::Normal, setup());
    let cmds = keymap.get(KeyInput::parse("c").unwrap());
    assert_eq!(cmds.len(), 1);
    assert_eq!(cmds[0].name(), "nop");
}

#[test]
fn touch_one_key_notmapped() {
    let mut keymap = Keymap::new();
    keymap.load_keymap_tree(DocumentMode::Normal, setup());
    let cmds = keymap.get(KeyInput::parse("9").unwrap());
    assert_eq!(cmds.len(), 1);
    assert_eq!(cmds[0].name(), "error");
}

#[test]
fn touch_key_combination_success() {
    let mut keymap = Keymap::new();
    keymap.load_keymap_tree(DocumentMode::Normal, setup());
    let cmds = keymap.get(KeyInput::parse("space").unwrap());
    assert_eq!(cmds.len(), 0);
    let cmds = keymap.get(KeyInput::parse("a").unwrap());
    assert_eq!(cmds.len(), 1);
    assert_eq!(cmds[0].name(), "escape");
}

#[test]
fn touch_key_independent_sequence_success() {
    let mut keymap = Keymap::new();
    keymap.load_keymap_tree(DocumentMode::Normal, setup());
    let cmds = keymap.get(KeyInput::parse("d").unwrap());
    assert_eq!(cmds.len(), 1);
    assert_eq!(cmds[0].name(), "nop");
    let cmds = keymap.get(KeyInput::parse("c").unwrap());
    assert_eq!(cmds.len(), 1);
    assert_eq!(cmds[0].name(), "nop");
}

#[test]
fn touch_key_independent_sequence_with_combination_success() {
    let mut keymap = Keymap::new();
    keymap.load_keymap_tree(DocumentMode::Normal, setup());
    let cmds = keymap.get(KeyInput::parse("d").unwrap());
    assert_eq!(cmds.len(), 1);
    assert_eq!(cmds[0].name(), "nop");
    let cmds = keymap.get(KeyInput::parse("space").unwrap());
    assert_eq!(cmds.len(), 0);
    let cmds = keymap.get(KeyInput::parse("a").unwrap());
    assert_eq!(cmds.len(), 1);
    assert_eq!(cmds[0].name(), "escape");
    let cmds = keymap.get(KeyInput::parse("d").unwrap());
    assert_eq!(cmds.len(), 1);
    assert_eq!(cmds[0].name(), "nop");
    let cmds = keymap.get(KeyInput::parse("c").unwrap());
    assert_eq!(cmds.len(), 1);
    assert_eq!(cmds[0].name(), "nop");
}

#[test]
fn touch_key_independent_sequence_some_fail() {
    let mut keymap = Keymap::new();
    keymap.load_keymap_tree(DocumentMode::Normal, setup());
    let cmds = keymap.get(KeyInput::parse("d").unwrap());
    assert_eq!(cmds.len(), 1);
    assert_eq!(cmds[0].name(), "nop");
    let cmds = keymap.get(KeyInput::parse("0").unwrap());
    assert_eq!(cmds.len(), 1);
    assert_eq!(cmds[0].name(), "error");
    let cmds = keymap.get(KeyInput::parse("k").unwrap());
    assert_eq!(cmds.len(), 1);
    assert_eq!(cmds[0].name(), "error");
}

#[test]
fn idle_relookup_is_idempotent() {
    let mut keymap = Keymap::new();
    keymap.load_keymap_tree(DocumentMode::Normal, setup());
    let first = keymap.get(KeyInput::parse("c").unwrap());
    let second = keymap.get(KeyInput::parse("c").unwrap());
    assert_eq!(first.len(), 1);
    assert_eq!(second.len(), 1);
    assert_eq!(first[0].name(), "nop");
    assert_eq!(second[0].name(), "nop");
}

#[test]
fn chord_progression() {
    let mut keymap = Keymap::new();
    keymap.load_keymap_tree(DocumentMode::Normal, setup());
    let cmds = keymap.get(KeyInput::parse("space").unwrap());
    assert_eq!(cmds.len(), 0);
    let cmds = keymap.get(KeyInput::parse("a").unwrap());
    assert_eq!(cmds.len(), 1);
    assert_eq!(cmds[0].name(), "escape");
    let cmds = keymap.get(KeyInput::parse("space").unwrap());
    assert_eq!(cmds.len(), 0);
    let cmds = keymap.get(KeyInput::parse("b").unwrap());
    assert_eq!(cmds.len(), 1);
    assert_eq!(cmds[0].name(), "nop");
}

#[test]
fn miss_after_partial_chord_abandons_chord() {
    let mut keymap = Keymap::new();
    keymap.load_keymap_tree(DocumentMode::Normal, setup());
    // Enter the pending state.
    let cmds = keymap.get(KeyInput::parse("space").unwrap());
    assert_eq!(cmds.len(), 0);
    // "9" has no exact, wildcard or no-match edge in the pending subtree:
    // the chord is abandoned with no commands, not retried against the
    // root (whose wildcard would have yielded "error").
    let cmds = keymap.get(KeyInput::parse("9").unwrap());
    assert_eq!(cmds.len(), 0);
    // Back in the idle state the root wildcard applies again.
    let cmds = keymap.get(KeyInput::parse("9").unwrap());
    assert_eq!(cmds.len(), 1);
    assert_eq!(cmds[0].name(), "error");
}

#[test]
fn aborted_chord_does_not_contaminate_single_keys() {
    let mut keymap = Keymap::new();
    keymap.load_keymap_tree(DocumentMode::Normal, setup());
    let cmds = keymap.get(KeyInput::parse("d").unwrap());
    assert_eq!(cmds.len(), 1);
    assert_eq!(cmds[0].name(), "nop");
    // Abort a chord half way.
    let cmds = keymap.get(KeyInput::parse("space").unwrap());
    assert_eq!(cmds.len(), 0);
    let cmds = keymap.get(KeyInput::parse("9").unwrap());
    assert_eq!(cmds.len(), 0);
    // Single-key bindings still resolve exactly as before.
    let cmds = keymap.get(KeyInput::parse("c").unwrap());
    assert_eq!(cmds.len(), 1);
    assert_eq!(cmds[0].name(), "nop");
    let cmds = keymap.get(KeyInput::parse("d").unwrap());
    assert_eq!(cmds.len(), 1);
    assert_eq!(cmds[0].name(), "nop");
}

#[test]
fn rebinding_a_chain_terminal_replaces_commands() {
    let mut keymap = Keymap::new();
    let mut k = KeymapTree::new();
    let space = KeyInputTypes::MATCH(KeyInput::parse("space").unwrap());
    let a = KeyInputTypes::MATCH(KeyInput::parse("a").unwrap());
    k.insert_chain(vec![space.clone(), a.clone()], vec![KCommand::escape()]);
    k.insert_chain(vec![space.clone(), a.clone()], vec![KCommand::nop()]);
    keymap.load_keymap_tree(DocumentMode::Normal, k);
    let cmds = keymap.get(KeyInput::parse("space").unwrap());
    assert_eq!(cmds.len(), 0);
    let cmds = keymap.get(KeyInput::parse("a").unwrap());
    assert_eq!(cmds.len(), 1);
    assert_eq!(cmds[0].name(), "nop");
}

#[test]
fn insert_single_overwrites_prior_binding() {
    let mut keymap = Keymap::new();
    let mut k = KeymapTree::new();
    let c = KeyInputTypes::MATCH(KeyInput::parse("c").unwrap());
    k.insert_single(KeymapNode::new_with_commands(c.clone(), vec![KCommand::escape()]));
    k.insert_single(KeymapNode::new_with_commands(c.clone(), vec![KCommand::nop()]));
    assert_eq!(k.len(), 1);
    keymap.load_keymap_tree(DocumentMode::Normal, k);
    let cmds = keymap.get(KeyInput::parse("c").unwrap());
    assert_eq!(cmds.len(), 1);
    assert_eq!(cmds[0].name(), "nop");
}

#[test]
fn merge_replaces_mode_trees() {
    let mut keymap = Keymap::new();
    let mut empty = KeymapTree::new();
    let c = KeyInputTypes::MATCH(KeyInput::parse("c").unwrap());
    empty.insert_single(KeymapNode::new_with_commands(c.clone(), vec![KCommand::error()]));
    keymap.load_keymap_tree(DocumentMode::Normal, empty);
    keymap.merge(vec![(DocumentMode::Normal, setup()), (DocumentMode::Insert, KeymapTree::new())]);
    let cmds = keymap.get(KeyInput::parse("c").unwrap());
    assert_eq!(cmds.len(), 1);
    assert_eq!(cmds[0].name(), "nop");
}
