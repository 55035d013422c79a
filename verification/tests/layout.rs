use vivida::layout::{compute_rects, Axis, Node};
use vivida::model::PaneId;
use vivida::rect::PhysicalRect;

fn halve(weight: f32) -> f32 {
    weight / 2.0
}

fn normalize(sizes: &Vec<f32>) -> Vec<f32> {
    let total: f32 = sizes.iter().copied().sum();
    if total <= f32::EPSILON {
        let equal = 1.0 / sizes.len().max(1) as f32;
        return vec![equal; sizes.len()];
    }
    sizes.iter().map(|size| size / total).collect()
}

fn share(available: u32, sizes: &Vec<f32>, index: usize) -> u32 {
    let total = sizes.iter().copied().sum::<f32>().max(f32::EPSILON);
    ((available as f32) * sizes[index] / total).round() as u32
}

#[test]
fn same_axis_split_merges_and_cross_axis_wraps() {
    let mut root: Node<f32> = Node::Leaf(PaneId(1));
    assert!(root.split(PaneId(1), PaneId(2), Axis::Horizontal, 0.5, &halve));
    assert!(root.split(PaneId(2), PaneId(3), Axis::Horizontal, 0.5, &halve));
    let Node::Split { children, .. } = &root else {
        panic!("expected split")
    };
    assert_eq!(children.len(), 3);

    assert!(root.split(PaneId(2), PaneId(4), Axis::Vertical, 0.5, &halve));
    let Node::Split { children, .. } = &root else {
        panic!("expected split")
    };
    assert!(matches!(
        children[1],
        Node::Split {
            axis: Axis::Vertical,
            ..
        }
    ));
}

#[test]
fn removal_collapses_a_single_child_split() {
    let mut root: Node<f32> = Node::Leaf(PaneId(1));
    root.split(PaneId(1), PaneId(2), Axis::Horizontal, 0.5, &halve);
    assert!(root.remove(PaneId(2), &normalize));
    assert_eq!(root, Node::Leaf(PaneId(1)));
}

#[test]
fn computed_rects_leave_one_physical_handle_gap() {
    let mut root: Node<f32> = Node::Leaf(PaneId(1));
    root.split(PaneId(1), PaneId(2), Axis::Horizontal, 0.5, &halve);
    let rects = compute_rects(
        &root,
        PhysicalRect {
            x: 10,
            y: 20,
            width: 204,
            height: 80,
        },
        4,
        &share,
    );
    assert_eq!(
        rects.get(PaneId(1)),
        Some(PhysicalRect {
            x: 10,
            y: 20,
            width: 100,
            height: 80
        })
    );
    assert_eq!(
        rects.get(PaneId(2)),
        Some(PhysicalRect {
            x: 114,
            y: 20,
            width: 100,
            height: 80
        })
    );
}

#[test]
fn closing_a_pane_just_split_off_restores_the_panes() {
    let mut root: Node<f32> = Node::Leaf(PaneId(1));
    root.split(PaneId(1), PaneId(2), Axis::Horizontal, 0.5, &halve);
    root.split(PaneId(2), PaneId(3), Axis::Vertical, 0.5, &halve);
    let before = root.clone();
    assert!(root.split(PaneId(1), PaneId(4), Axis::Vertical, 0.5, &halve));
    assert_eq!(root.pane_path(PaneId(4)), Some(vec![1, 2]));
    assert!(root.remove(PaneId(4), &normalize));
    assert_eq!(root.pane_path(PaneId(1)), before.pane_path(PaneId(1)));
    assert_eq!(root.pane_path(PaneId(3)), Some(vec![2, 2]));
    assert!(!root.contains(PaneId(4)));
    assert_eq!(root.first_pane(), PaneId(1));
}

#[test]
fn split_paths_are_one_based_child_positions() {
    let mut root: Node<f32> = Node::Leaf(PaneId(1));
    assert_eq!(root.pane_path(PaneId(1)), Some(vec![]));
    root.split(PaneId(1), PaneId(2), Axis::Horizontal, 0.5, &halve);
    root.split(PaneId(2), PaneId(3), Axis::Vertical, 0.5, &halve);
    assert_eq!(root.pane_path(PaneId(1)), Some(vec![1]));
    assert_eq!(root.pane_path(PaneId(2)), Some(vec![2, 1]));
    assert_eq!(root.pane_path(PaneId(3)), Some(vec![2, 2]));
    assert_eq!(root.pane_path(PaneId(9)), None);
}

#[test]
fn nested_pane_rects_stay_inside_the_area_and_apart() {
    let mut root: Node<f32> = Node::Leaf(PaneId(1));
    root.split(PaneId(1), PaneId(2), Axis::Horizontal, 0.5, &halve);
    root.split(PaneId(2), PaneId(3), Axis::Vertical, 0.5, &halve);
    root.split(PaneId(1), PaneId(4), Axis::Vertical, 0.5, &halve);
    let area = PhysicalRect { x: 5, y: 7, width: 301, height: 203 };
    let rects = compute_rects(&root, area, 3, &share);
    let all: Vec<PhysicalRect> = (1..=4).map(|p| rects.get(PaneId(p)).unwrap()).collect();
    for r in &all {
        assert!(r.x >= area.x && r.x + r.width as i32 <= area.x + area.width as i32);
        assert!(r.y >= area.y && r.y + r.height as i32 <= area.y + area.height as i32);
    }
    for (i, a) in all.iter().enumerate() {
        for b in &all[i + 1..] {
            let apart = a.x + a.width as i32 <= b.x
                || b.x + b.width as i32 <= a.x
                || a.y + a.height as i32 <= b.y
                || b.y + b.height as i32 <= a.y;
            assert!(apart, "{a:?} and {b:?} overlap");
        }
    }
}
