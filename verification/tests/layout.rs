use bootty_app::layout::{MuxPaneLayout, Node, PaneLayout, Ratio, SplitDirection};
use bootty_app::mux::command::MuxPaneSplitDirection;

fn names(list: &[&str]) -> Vec<String> {
    list.iter().map(|name| name.to_string()).collect()
}

fn three() -> PaneLayout {
    let mut layout = PaneLayout::single("a".to_owned());
    layout.split_focused("b".to_owned(), SplitDirection::Right);
    layout.split_focused("c".to_owned(), SplitDirection::Down);
    layout
}

#[test]
fn splitting_puts_the_new_pane_behind_the_focused_one() {
    let mut layout = three();
    assert_eq!(layout.panes(), names(&["a", "b", "c"]));
    assert_eq!(layout.focused(), "c");
    assert!(layout.set_focus("a"));
    assert!(!layout.set_focus("missing"));
    layout.split_focused("d".to_owned(), SplitDirection::Down);
    assert_eq!(layout.panes(), names(&["a", "d", "b", "c"]));
    assert!(!layout.is_single());
}

#[test]
fn removing_a_pane_undoes_its_split() {
    let mut layout = three();
    let before = format!("{:?}", layout.root);
    layout.split_focused("d".to_owned(), SplitDirection::Right);
    assert!(layout.remove("d"));
    assert_eq!(format!("{:?}", layout.root), before);
    assert_eq!(layout.focused(), "c");
    assert!(layout.remove("a"));
    assert!(layout.remove("b"));
    assert!(!layout.remove("c"));
    assert!(!layout.remove("missing"));
    assert!(layout.is_single());
}

#[test]
fn layouts_follow_the_list_of_panes() {
    let mut layout = three();
    layout.reconcile(&names(&["c", "x", "a", "y"]));
    let mut panes = layout.panes();
    panes.sort();
    assert_eq!(panes, names(&["a", "c", "x", "y"]));
    let before = format!("{:?}", layout);
    layout.reconcile(&names(&["y", "x", "c", "a"]));
    assert_eq!(format!("{:?}", layout), before);
}

#[test]
fn the_focus_moves_to_the_surviving_neighbour() {
    let mut layout = PaneLayout::single("a".to_owned());
    layout.split_focused("b".to_owned(), SplitDirection::Right);
    layout.split_focused("c".to_owned(), SplitDirection::Right);
    assert!(layout.remove("c"));
    assert_eq!(layout.panes(), names(&["a", "b"]));
    assert_eq!(layout.focused(), "b");

    let mut layout = three();
    assert!(layout.set_focus("a"));
    assert!(layout.remove("a"));
    assert_eq!(layout.focused(), "b");

    let mut layout = three();
    assert!(layout.remove("a"));
    assert_eq!(layout.focused(), "c");
}

#[test]
fn panes_that_are_all_gone_give_way_to_new_ones() {
    let mut layout = PaneLayout::single("a".to_owned());
    layout.reconcile(&names(&["b"]));
    assert_eq!(layout.panes(), names(&["b"]));
    assert_eq!(layout.focused(), "b");

    let mut layout = three();
    layout.reconcile(&names(&["x", "y"]));
    assert_eq!(layout.panes(), names(&["x", "y"]));
    assert_eq!(layout.focused(), "y");

    let mut layout = three();
    layout.reconcile(&[]);
    assert_eq!(layout.panes(), names(&["c"]));
}

#[test]
fn panes_that_stay_keep_their_order() {
    let mut layout = three();
    assert!(layout.set_focus("a"));
    layout.reconcile(&names(&["c", "x", "a"]));
    assert_eq!(layout.panes(), names(&["a", "x", "c"]));
    assert_eq!(layout.divider_paths().len(), 2);
}

#[test]
fn windows_are_large_enough_for_their_panes() {
    let layout = three();
    let sizes = vec![
        ("a".to_owned(), (80u16, 24u16)),
        ("b".to_owned(), (40, 10)),
        ("c".to_owned(), (50, 12)),
    ];
    assert_eq!(layout.terminal_window_size(&sizes), Some((131, 24)));
    assert_eq!(layout.terminal_window_size(&sizes[..2]), None);
    let huge = vec![
        ("a".to_owned(), (u16::MAX, 1u16)),
        ("b".to_owned(), (1, 1)),
        ("c".to_owned(), (1, 1)),
    ];
    assert_eq!(layout.terminal_window_size(&huge), Some((u16::MAX, 3)));
}

#[test]
fn ratios_are_set_by_path() {
    let mut layout = three();
    let paths = layout.divider_paths();
    assert_eq!(
        paths,
        vec![(vec![], SplitDirection::Right), (vec![1], SplitDirection::Down)]
    );
    layout.set_ratio_at(&[1], Ratio::Float(0.25f32.to_bits()));
    let Node::Split { ratio, second, .. } = &layout.root else {
        panic!("the root is a split");
    };
    assert_eq!(*ratio, Ratio::Thousandths(500));
    let Node::Split { ratio, .. } = &**second else {
        panic!("the second child is a split");
    };
    assert_eq!(*ratio, Ratio::Float(0.25f32.to_bits()));
    let before = format!("{:?}", layout);
    layout.set_ratio_at(&[0, 0], Ratio::Thousandths(100));
    assert_eq!(format!("{:?}", layout), before);
}

#[test]
fn multiplexers_describe_layouts() {
    let described = MuxPaneLayout::Split {
        direction: MuxPaneSplitDirection::Down,
        ratio_millis: 10,
        first: Box::new(MuxPaneLayout::Pane("top".to_owned())),
        second: Box::new(MuxPaneLayout::Pane("bottom".to_owned())),
    };
    let layout = PaneLayout::from_mux_layout(&described).unwrap();
    assert_eq!(layout.panes(), names(&["top", "bottom"]));
    assert_eq!(layout.focused(), "top");
    let Node::Split { direction, ratio, .. } = &layout.root else {
        panic!("the root is a split");
    };
    assert_eq!(*direction, SplitDirection::Down);
    assert_eq!(*ratio, Ratio::Thousandths(50));
}
