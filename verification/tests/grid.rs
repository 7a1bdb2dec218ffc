use mecha_launcher::grid::{
    build_grid, cell_at, cell_rects, flat_index, restyle_cells, GridNode, ANIM_COLS, COLS, ROWS,
};
use mecha_launcher::layout::{
    AvailableSpace, Dimension, Display, FlexDirection, Layout, LengthPercentage, NodeId, Rect,
    Size, Style,
};
use taffy::TaffyTree;

const HEADER: f32 = 70.0;
const ROW: f32 = 330.0;
const GAP: f32 = 10.0;

fn cell(width: f32) -> Style {
    Style {
        size: Size { width: Dimension::length(width), height: Dimension::length(ROW) },
        ..Default::default()
    }
}

fn make(place: GridNode) -> (Style, GridNode) {
    let style = match place {
        GridNode::Root => Style {
            display: Display::Flex,
            flex_direction: FlexDirection::Column,
            gap: Size {
                width: LengthPercentage::length(GAP),
                height: LengthPercentage::length(GAP),
            },
            size: Size { width: Dimension::percent(1.0), height: Dimension::percent(1.0) },
            ..Default::default()
        },
        GridNode::Header => Style {
            size: Size { width: Dimension::percent(1.0), height: Dimension::length(HEADER) },
            ..Default::default()
        },
        GridNode::Row { .. } => Style {
            display: Display::Flex,
            flex_direction: FlexDirection::Row,
            gap: Size {
                width: LengthPercentage::length(GAP),
                height: LengthPercentage::length(0.0),
            },
            ..Default::default()
        },
        GridNode::Cell { .. } => cell(180.0),
        GridNode::LastCell { .. } => Style {
            flex_grow: 1.0,
            size: Size { width: Dimension::auto(), height: Dimension::length(ROW) },
            ..Default::default()
        },
    };
    (style, place)
}

fn compute(layout: &mut Layout<GridNode, f32>) {
    layout.compute(
        Rect { x: 0.0, y: 0.0, w: 1000.0, h: 1090.0 },
        |tree: &mut TaffyTree<usize>, root: NodeId, _data: &Vec<GridNode>, available: Rect<f32>| {
            tree.compute_layout(
                root.raw.into(),
                Size {
                    width: AvailableSpace::Definite(available.w),
                    height: AvailableSpace::Definite(available.h),
                },
            )
            .unwrap();
        },
        |tree: &TaffyTree<usize>, id: NodeId| {
            let layout = tree.layout(id.raw.into()).unwrap();
            Rect {
                x: layout.location.x,
                y: layout.location.y,
                w: layout.size.width,
                h: layout.size.height,
            }
        },
        |a, b| a + b,
    );
}

fn all(rect: Rect<f32>) -> (f32, f32, f32, f32) {
    (rect.x, rect.y, rect.w, rect.h)
}

#[test]
fn the_grid_has_a_header_and_twelve_cells() {
    let (layout, header, cells) = build_grid::<GridNode, f32, _>(make);
    assert_eq!(*layout.data(header), GridNode::Header);
    assert_eq!(cells.len(), 12);
    for row in 0..ROWS {
        for col in 0..COLS {
            let id = cells[flat_index(row, col)];
            if col < ANIM_COLS {
                assert_eq!(*layout.data(id), GridNode::Cell { row, col });
            } else {
                assert_eq!(*layout.data(id), GridNode::LastCell { row });
            }
        }
    }
}

#[test]
fn the_grid_is_laid_out_row_by_row() {
    let (mut layout, header, cells) = build_grid(make);
    compute(&mut layout);
    assert_eq!(all(layout.rect(header)), (0.0, 0.0, 1000.0, 70.0));
    let rects = cell_rects(&layout, &cells);
    assert_eq!(rects.len(), 12);
    assert_eq!(all(rects[0]), (0.0, 80.0, 180.0, 330.0));
    assert_eq!(all(rects[1]), (190.0, 80.0, 180.0, 330.0));
    assert_eq!(all(rects[3]), (570.0, 80.0, 430.0, 330.0));
    assert_eq!(all(rects[4]), (0.0, 420.0, 180.0, 330.0));
    assert_eq!(all(rects[11]), (570.0, 760.0, 430.0, 330.0));
}

#[test]
fn only_cells_with_a_width_of_their_own_are_restyled() {
    let (mut layout, header, cells) = build_grid(make);
    compute(&mut layout);
    let before = cell_rects(&layout, &cells);
    let asked = std::cell::RefCell::new(vec![]);
    restyle_cells(&mut layout, &cells, |flat| {
        asked.borrow_mut().push(flat);
        cell(100.0 + 10.0 * flat as f32)
    });
    assert_eq!(asked.into_inner(), vec![0, 1, 2, 4, 5, 6, 8, 9, 10]);
    assert_eq!(cell_rects(&layout, &cells)[0].w, before[0].w);
    compute(&mut layout);
    let after = cell_rects(&layout, &cells);
    assert_eq!(after[0].w, 100.0);
    assert_eq!(after[2].w, 120.0);
    assert_eq!(after[5].w, 150.0);
    assert_eq!(after[10].w, 200.0);
    assert_eq!(after[3].w, 1000.0 - 330.0 - 30.0);
    assert_eq!(after[11].w, 1000.0 - 570.0 - 30.0);
    assert_eq!(layout.rect(header).h, 70.0);
}

#[test]
fn positions_and_cells_correspond() {
    assert_eq!(flat_index(0, 0), 0);
    assert_eq!(flat_index(1, 2), 6);
    assert_eq!(flat_index(2, 3), 11);
    assert_eq!(cell_at(1), (0, 1));
    assert_eq!(cell_at(5), (1, 1));
    assert_eq!(cell_at(9), (2, 1));
    for flat in 0..ROWS * COLS {
        let (row, col) = cell_at(flat);
        assert_eq!(flat_index(row, col), flat);
    }
}
