use mecha_launcher::layout::{
    AlignItems, AvailableSpace, Builder, Dimension, Display, FlexDirection, Layout, NodeId, Rect,
    Size, Style,
};
use taffy::TaffyTree;

/// The intrinsic size of a node.
#[derive(Clone, Copy, Debug, PartialEq)]
struct Content {
    width: f32,
    height: f32,
}

const NONE: Content = Content { width: 0.0, height: 0.0 };

fn fixed(width: f32, height: f32) -> Style {
    Style {
        size: Size { width: Dimension::length(width), height: Dimension::length(height) },
        ..Default::default()
    }
}

fn column() -> Style {
    Style {
        display: Display::Flex,
        flex_direction: FlexDirection::Column,
        ..Default::default()
    }
}

fn row() -> Style {
    Style { display: Display::Flex, flex_direction: FlexDirection::Row, ..Default::default() }
}

fn local(tree: &TaffyTree<usize>, id: NodeId) -> Rect<f32> {
    let layout = tree.layout(id.raw.into()).unwrap();
    Rect {
        x: layout.location.x,
        y: layout.location.y,
        w: layout.size.width,
        h: layout.size.height,
    }
}

fn compute(layout: &mut Layout<Content, f32>, available: Rect<f32>) {
    layout.compute(
        available,
        |tree: &mut TaffyTree<usize>, root: NodeId, data: &Vec<Content>, available: Rect<f32>| {
            tree.compute_layout_with_measure(
                root.raw.into(),
                Size {
                    width: AvailableSpace::Definite(available.w),
                    height: AvailableSpace::Definite(available.h),
                },
                |_, _, _, slot, _| match slot {
                    Some(slot) => Size { width: data[*slot].width, height: data[*slot].height },
                    None => Size::ZERO,
                },
            )
            .unwrap();
        },
        local,
        |a, b| a + b,
    );
}

fn corners(rect: Rect<f32>) -> (f32, f32, f32, f32) {
    (rect.x, rect.y, rect.w, rect.h)
}

#[test]
fn rectangles_are_absolute() {
    let (mut layout, (top, (middle, (left, right)))) =
        Layout::new(column(), NONE, |b: &mut Builder<Content>| {
            let top = b.leaf(fixed(100.0, 20.0), NONE);
            let middle = b.child(row(), NONE, |b: &mut Builder<Content>| {
                let left = b.leaf(fixed(30.0, 40.0), NONE);
                let right = b.leaf(fixed(50.0, 40.0), NONE);
                (left, right)
            });
            (top, middle)
        });
    compute(&mut layout, Rect { x: 5.0, y: 7.0, w: 200.0, h: 300.0 });
    assert_eq!(corners(layout.rect(top)), (5.0, 7.0, 100.0, 20.0));
    assert_eq!(layout.rect(middle).y, 27.0);
    assert_eq!(corners(layout.rect(left)), (5.0, 27.0, 30.0, 40.0));
    assert_eq!(corners(layout.rect(right)), (35.0, 27.0, 50.0, 40.0));
}

#[test]
fn nested_corners_add_up() {
    let (mut layout, (outer, (inner, leaf))) =
        Layout::new(column(), NONE, |b: &mut Builder<Content>| {
            b.leaf(fixed(10.0, 1.0), NONE);
            b.child(column(), NONE, |b: &mut Builder<Content>| {
                b.leaf(fixed(10.0, 2.0), NONE);
                b.child(column(), NONE, |b: &mut Builder<Content>| {
                    b.leaf(fixed(10.0, 4.0), NONE);
                    b.leaf(fixed(10.0, 8.0), NONE)
                })
            })
        });
    compute(&mut layout, Rect { x: 0.0, y: 100.0, w: 50.0, h: 50.0 });
    assert_eq!(layout.rect(outer).y, 101.0);
    assert_eq!(layout.rect(inner).y, 103.0);
    assert_eq!(corners(layout.rect(leaf)), (0.0, 107.0, 10.0, 8.0));
}

#[test]
fn content_gives_a_leaf_its_size() {
    let (mut layout, leaf) = Layout::new(
        Style { align_items: Some(AlignItems::Start), ..row() },
        NONE,
        |b: &mut Builder<Content>| {
            b.leaf(Style::default(), Content { width: 33.0, height: 12.0 })
        },
    );
    compute(&mut layout, Rect { x: 0.0, y: 0.0, w: 200.0, h: 100.0 });
    assert_eq!(corners(layout.rect(leaf)), (0.0, 0.0, 33.0, 12.0));
}

#[test]
fn a_style_takes_effect_with_the_next_pass() {
    let available = Rect { x: 0.0, y: 0.0, w: 200.0, h: 100.0 };
    let (mut layout, (left, right)) = Layout::new(row(), NONE, |b: &mut Builder<Content>| {
        (b.leaf(fixed(30.0, 40.0), NONE), b.leaf(fixed(30.0, 40.0), NONE))
    });
    compute(&mut layout, available);
    layout.set_style(left, fixed(60.0, 40.0));
    assert_eq!(layout.rect(left).w, 30.0);
    assert_eq!(layout.rect(right).x, 30.0);
    compute(&mut layout, available);
    assert_eq!(layout.rect(left).w, 60.0);
    assert_eq!(corners(layout.rect(right)), (60.0, 0.0, 30.0, 40.0));
}

#[test]
fn a_changed_content_takes_effect_with_the_next_pass() {
    let available = Rect { x: 0.0, y: 0.0, w: 200.0, h: 100.0 };
    let (mut layout, (first, second)) = Layout::new(
        Style { align_items: Some(AlignItems::Start), ..row() },
        NONE,
        |b: &mut Builder<Content>| {
            (
                b.leaf(Style::default(), Content { width: 10.0, height: 10.0 }),
                b.leaf(Style::default(), Content { width: 20.0, height: 20.0 }),
            )
        },
    );
    compute(&mut layout, available);
    assert_eq!(layout.rect(second).x, 10.0);
    *layout.data_mut(first) = Content { width: 15.0, height: 10.0 };
    assert_eq!(*layout.data(first), Content { width: 15.0, height: 10.0 });
    assert_eq!(*layout.data(second), Content { width: 20.0, height: 20.0 });
    layout.set_style(first, Style::default());
    compute(&mut layout, available);
    assert_eq!(layout.rect(second).x, 15.0);
}

#[test]
fn every_node_keeps_its_own_data() {
    let (layout, (ids, (inner, deep))) =
        Layout::<u32, f32>::new(Style::default(), 1, |b: &mut Builder<u32>| {
            let mut ids = vec![];
            for i in 0..40 {
                ids.push(b.leaf(Style::default(), 100 + i));
            }
            let inner = b.child(Style::default(), 2, |b: &mut Builder<u32>| {
                b.leaf(Style::default(), 3)
            });
            (ids, inner)
        });
    for i in 0..40 {
        assert_eq!(*layout.data(ids[i]), 100 + i as u32);
        for j in 0..i {
            assert_ne!(ids[i], ids[j]);
        }
    }
    assert_eq!(*layout.data(inner), 2);
    assert_eq!(*layout.data(deep), 3);
}

#[test]
fn adding_goes_on_under_the_parent_after_a_child() {
    let (mut layout, (first, last)) = Layout::new(column(), NONE, |b: &mut Builder<Content>| {
        let (first, _) = b.child(column(), NONE, |b: &mut Builder<Content>| {
            b.leaf(fixed(10.0, 30.0), NONE)
        });
        (first, b.leaf(fixed(10.0, 5.0), NONE))
    });
    compute(&mut layout, Rect { x: 0.0, y: 0.0, w: 100.0, h: 100.0 });
    assert_eq!(layout.rect(first).h, 30.0);
    assert_eq!(corners(layout.rect(last)), (0.0, 30.0, 10.0, 5.0));
}

#[test]
fn the_corner_of_the_root_moves_everything() {
    let (mut layout, leaf) = Layout::new(column(), NONE, |b: &mut Builder<Content>| {
        b.leaf(fixed(10.0, 10.0), NONE)
    });
    compute(&mut layout, Rect { x: 0.0, y: 0.0, w: 100.0, h: 100.0 });
    assert_eq!(corners(layout.rect(leaf)), (0.0, 0.0, 10.0, 10.0));
    compute(&mut layout, Rect { x: -3.5, y: 2.25, w: 100.0, h: 100.0 });
    assert_eq!(corners(layout.rect(leaf)), (-3.5, 2.25, 10.0, 10.0));
    compute(&mut layout, Rect { x: -3.5, y: 2.25, w: 100.0, h: 100.0 });
    assert_eq!(corners(layout.rect(leaf)), (-3.5, 2.25, 10.0, 10.0));
}

#[test]
fn a_rectangle_can_hold_any_coordinates() {
    let (mut layout, (one, two)) = Layout::new(row(), NONE, |b: &mut Builder<Content>| {
        b.child(row(), NONE, |b: &mut Builder<Content>| b.leaf(row(), NONE))
    });
    layout.compute(
        Rect { x: 100i64, y: 200, w: 7, h: 8 },
        |_tree: &mut TaffyTree<usize>, _root: NodeId, data: &Vec<Content>, available: Rect<i64>| {
            assert_eq!(data.len(), 3);
            assert_eq!((available.x, available.w), (100, 7));
        },
        |_tree: &TaffyTree<usize>, _id: NodeId| Rect { x: 1, y: 2, w: 3, h: 4 },
        |a, b| a + b,
    );
    let corner = |id: NodeId| (layout.rect(id).x, layout.rect(id).y);
    assert_eq!(corner(one), (102, 204));
    assert_eq!(corner(two), (103, 206));
}
