use alpha_tak::search::{pick_move, Node};

#[test]
fn exploitation_picks_the_most_visited() {
    assert_eq!(pick_move(&vec![3, 9, 1, 4], true), 1);
}

#[test]
fn exploitation_picks_the_last_of_equals() {
    assert_eq!(pick_move(&vec![1, 5, 5, 2], true), 2);
}

#[test]
fn exploration_never_picks_an_unvisited_move() {
    for _ in 0..200 {
        assert_eq!(pick_move(&vec![0, 7, 0], false), 1);
        let i = pick_move(&vec![0, 2, 0, 5], false);
        assert!(i == 1 || i == 3);
    }
}

fn leaf(visits: u32) -> Node {
    Node { visits, virtual_visits: 0, children: vec![] }
}

fn tree() -> Node {
    // a1 (4) -> [e5 (3) -> [b2 (2)], e4 (1)]; c3 (4) -> [d4 (1)]; c3 again (2)
    let a1 = Node {
        visits: 4,
        virtual_visits: 0,
        children: vec![
            ("e5".to_string(), Node { visits: 3, virtual_visits: 0, children: vec![("b2".to_string(), leaf(2))] }),
            ("e4".to_string(), leaf(1)),
        ],
    };
    let c3 = Node { visits: 4, virtual_visits: 0, children: vec![("d4".to_string(), leaf(1))] };
    Node {
        visits: 10,
        virtual_visits: 0,
        children: vec![("a1".to_string(), a1), ("c3".to_string(), c3), ("c3".to_string(), leaf(2))],
    }
}

#[test]
fn continuation_follows_the_last_most_visited_child() {
    let line = tree().continuation(10);
    assert_eq!(line, vec![("c3".to_string(), 4), ("d4".to_string(), 1)]);
    assert_eq!(tree().continuation(1), vec![("c3".to_string(), 4)]);
    assert_eq!(tree().continuation(0), vec![]);
    assert_eq!(leaf(5).continuation(3), vec![]);
}

#[test]
fn improved_policy_is_the_visits_by_move() {
    assert_eq!(
        tree().improved_policy(),
        vec![("a1".to_string(), 4), ("c3".to_string(), 4), ("c3".to_string(), 2)]
    );
}

#[test]
fn node_picks_moves_by_visits() {
    assert_eq!(tree().pick_move(true), "c3");
    let mut only_a1 = tree();
    only_a1.children[1].1.visits = 0;
    only_a1.children[2].1.visits = 0;
    for _ in 0..100 {
        assert_eq!(only_a1.pick_move(false), "a1");
    }
}

#[test]
fn playing_a_move_keeps_its_sub_tree() {
    let after = tree().play("a1");
    assert_eq!(after.visits, 4);
    assert_eq!(after.continuation(5), vec![("e5".to_string(), 3), ("b2".to_string(), 2)]);
    let first_c3 = tree().play("c3");
    assert_eq!(first_c3.visits, 4);
    assert_eq!(first_c3.children.len(), 1);
}

#[test]
fn initialized_after_a_visit() {
    assert!(leaf(1).is_initialized());
    assert!(!leaf(0).is_initialized());
    assert!(Node { visits: 0, virtual_visits: 2, children: vec![] }.is_initialized());
}

#[test]
fn moves_by_visits_most_visited_first() {
    let node = Node {
        visits: 20,
        virtual_visits: 0,
        children: vec![
            ("a1".to_string(), leaf(2)),
            ("b1".to_string(), leaf(9)),
            ("c1".to_string(), leaf(0)),
            ("d1".to_string(), leaf(5)),
        ],
    };
    assert_eq!(node.moves_by_visits(), vec![1, 3, 0, 2]);
    let order = tree().moves_by_visits();
    assert_eq!(order.len(), 3);
    assert_eq!(order[2], 2);
    let mut sorted = order.clone();
    sorted.sort();
    assert_eq!(sorted, vec![0, 1, 2]);
    assert!(leaf(3).moves_by_visits().is_empty());
}

#[test]
fn a_rollout_counts_virtually_then_for_real() {
    let mut node = tree();
    let path = vec![0, 0];
    node.virtualize_path(&path, 0);
    assert_eq!((node.visits, node.virtual_visits), (10, 1));
    let a1 = &node.children[0].1;
    assert_eq!((a1.visits, a1.virtual_visits), (4, 1));
    assert_eq!((a1.children[0].1.visits, a1.children[0].1.virtual_visits), (3, 1));
    assert_eq!(a1.children[0].1.children[0].1.virtual_visits, 0);
    assert_eq!(node.children[1].1.virtual_visits, 0);
    node.devirtualize_path(&path, 0);
    assert_eq!((node.visits, node.virtual_visits), (11, 0));
    let a1 = &node.children[0].1;
    assert_eq!((a1.visits, a1.virtual_visits), (5, 0));
    assert_eq!((a1.children[0].1.visits, a1.children[0].1.virtual_visits), (4, 0));
    assert_eq!(a1.children[1].1.visits, 1);
    assert_eq!(node.children[1].0, "c3");
    assert_eq!(node.children[1].1.visits, 4);
}
