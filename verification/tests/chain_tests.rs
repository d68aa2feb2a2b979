use nbez::BevError;
use nbez::chain::BezCubeChain;
use nbez::chain::BezNode;
use nbez::rat::Rat;

fn rat(num: i64, den: i64) -> Rat {
    Rat { num, den }
}

fn anchor(x: i64, y: i64) -> BezNode {
    BezNode::new_point(rat(x, 1), rat(y, 1))
}

fn control(x: i64, y: i64) -> BezNode {
    BezNode::new_control(rat(x, 1), rat(y, 1))
}

#[test]
fn chain_of_two_segments_validates() {
    let nodes = vec![
        anchor(0, 0),
        control(1, 1),
        control(2, 1),
        anchor(3, 0),
        control(4, -1),
        control(5, -1),
        anchor(6, 0),
    ];
    let chain = BezCubeChain::from_container(nodes).unwrap();
    assert_eq!(chain.len(), 7);
    let back = chain.unwrap();
    assert_eq!(back.len(), 7);
    assert!(back[0].is_point());
    assert!(back[1].is_control());
}

#[test]
fn chain_of_length_six_is_invalid_length() {
    let nodes = vec![
        anchor(0, 0),
        control(1, 1),
        control(2, 1),
        anchor(3, 0),
        control(4, -1),
        control(5, -1),
    ];
    match BezCubeChain::from_container(nodes) {
        Err(BevError::InvalidLength) => (),
        _ => panic!("expected InvalidLength"),
    }
}

#[test]
fn chain_with_anchor_in_control_slot_is_bad_pattern() {
    let nodes = vec![
        anchor(0, 0),
        anchor(1, 1),
        control(2, 1),
        anchor(3, 0),
        control(4, -1),
        control(5, -1),
        anchor(6, 0),
    ];
    match BezCubeChain::from_container(nodes) {
        Err(BevError::BadNodePattern) => (),
        _ => panic!("expected BadNodePattern"),
    }
}

#[test]
fn chain_of_one_anchor_is_a_valid_empty_chain() {
    let nodes = vec![anchor(0, 0)];
    assert!(BezCubeChain::from_container(nodes).is_ok());
}

#[test]
fn empty_chain_is_invalid_length() {
    match BezCubeChain::from_container(Vec::new()) {
        Err(BevError::InvalidLength) => (),
        _ => panic!("expected InvalidLength"),
    }
}

#[test]
fn chain_with_control_in_last_anchor_slot_is_bad_pattern() {
    let nodes = vec![anchor(0, 0), control(1, 1), control(2, 1), control(3, 0)];
    match BezCubeChain::from_container(nodes) {
        Err(BevError::BadNodePattern) => (),
        _ => panic!("expected BadNodePattern"),
    }
}

#[test]
fn unchecked_construction_wraps_unchanged() {
    let nodes = vec![anchor(0, 0), control(1, 1), control(2, 1), anchor(3, 0)];
    let chain = BezCubeChain::from_container_unchecked(nodes);
    assert_eq!(chain.len(), 4);
    assert_eq!(chain.get(3).x(), rat(3, 1));
}

#[test]
fn node_accessors() {
    let p = BezNode::new_point(rat(1, 2), rat(3, 4));
    let c = BezNode::new_control(rat(-1, 2), rat(0, 1));
    assert!(p.is_point());
    assert!(!p.is_control());
    assert!(c.is_control());
    assert!(!c.is_point());
    assert_eq!(p.x(), rat(1, 2));
    assert_eq!(p.y(), rat(3, 4));
    assert_eq!(c.x(), rat(-1, 2));
    assert_eq!(c.y(), rat(0, 1));
}
