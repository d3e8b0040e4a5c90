use kk_keymap::keymap::input::KeyInput;
use kk_keymap::keymap::tree::KeyInputTypes;
use kk_keymap::keymap::tree::KeymapNode;
use kk_keymap::keymap::tree::KeymapTree;

#[test]
fn insert_single() {
    let mut k = KeymapTree::new();
    let n = KeymapNode::new(KeyInputTypes::MATCH_ALL);
    k.insert_single(n);

    assert!(k.contains_key(&KeymapNode::new(KeyInputTypes::MATCH_ALL)));
}

#[test]
fn insert_chain() {
    let mut k = KeymapTree::new();
    let space = KeyInputTypes::MATCH(KeyInput::parse("space").unwrap());
    let a = KeyInputTypes::MATCH(KeyInput::parse("a").unwrap());
    let b = KeyInputTypes::MATCH(KeyInput::parse("b").unwrap());
    let c = KeyInputTypes::MATCH(KeyInput::parse("c").unwrap());

    k.insert_chain(vec![space.clone(), a.clone()], vec![]);
    k.insert_chain(vec![space.clone(), b.clone()], vec![]);
    k.insert_chain(vec![c.clone()], vec![]);

    assert_eq!(k.len(), 2);
    assert!(k.contains_key(&KeymapNode::new(space.clone())));
    assert!(k.contains_key(&KeymapNode::new(c)));

    let spaced = k.get_fun(&KeymapNode::new(space)).unwrap().1.unwrap();

    assert_eq!(spaced.len(), 2);
    assert!(spaced.contains_key(&KeymapNode::new(a.clone())));
    assert!(spaced.contains_key(&KeymapNode::new(b.clone())));
}

#[test]
fn insert_chain_twice() {
    let mut k = KeymapTree::new();
    let space = KeyInputTypes::MATCH(KeyInput::parse("space").unwrap());
    let a = KeyInputTypes::MATCH(KeyInput::parse("a").unwrap());

    k.insert_chain(vec![space.clone(), a.clone()], vec![]);
    k.insert_chain(vec![space.clone(), a.clone()], vec![]);

    assert_eq!(k.len(), 1);
    assert!(k.contains_key(&KeymapNode::new(space.clone())));

    let spaced = k.get_fun(&KeymapNode::new(space)).unwrap().1.unwrap();
    assert_eq!(spaced.len(), 1);
    assert!(spaced.contains_key(&KeymapNode::new(a.clone())));
}

#[test]
fn insert_chain_extend() {
    let mut k = KeymapTree::new();
    let space = KeyInputTypes::MATCH(KeyInput::parse("space").unwrap());
    let a = KeyInputTypes::MATCH(KeyInput::parse("a").unwrap());
    let b = KeyInputTypes::MATCH(KeyInput::parse("b").unwrap());
    k.insert_chain(vec![space.clone(), a.clone()], vec![]);
    k.insert_chain(vec![space.clone(), a.clone(), b.clone()], vec![]);

    assert_eq!(k.len(), 1);
    assert!(k.contains_key(&KeymapNode::new(space.clone())));

    let spaced = k.get_fun(&KeymapNode::new(space.clone())).unwrap().1.unwrap();
    assert_eq!(spaced.len(), 1);
    assert!(spaced.contains_key(&KeymapNode::new(a.clone())));

    let ad = spaced.get_fun(&KeymapNode::new(a.clone())).unwrap().1.unwrap();
    assert_eq!(ad.len(), 1);
    assert!(ad.contains_key(&KeymapNode::new(b.clone())));
}
