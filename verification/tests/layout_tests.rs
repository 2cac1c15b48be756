use ptymux::geometry::Rect;
use ptymux::layout::{compute, is_well_formed, Child, LayoutError, LayoutTree, Orientation};

fn rect(x: u16, y: u16, width: u16, height: u16) -> Rect {
    Rect { x, y, width, height }
}

fn two_pane_vertical() -> LayoutTree {
    LayoutTree::Split {
        orientation: Orientation::Vertical,
        children: vec![
            Child { weight: 1, tree: LayoutTree::Pane { id: 1 } },
            Child { weight: 1, tree: LayoutTree::Pane { id: 2 } },
        ],
    }
}

#[test]
fn two_equal_panes_on_80x24() {
    // 80 columns split with equal weights: adjacent rectangles, no gap
    // column reserved; each pane draws its own border edge.
    let tree = two_pane_vertical();
    let panes = compute(&tree, rect(0, 0, 80, 24)).unwrap();
    assert_eq!(panes, vec![(1, rect(0, 0, 40, 24)), (2, rect(40, 0, 40, 24))]);
}

#[test]
fn nested_split_exact_rectangles() {
    let tree = LayoutTree::Split {
        orientation: Orientation::Vertical,
        children: vec![
            Child { weight: 1, tree: LayoutTree::Pane { id: 1 } },
            Child {
                weight: 2,
                tree: LayoutTree::Split {
                    orientation: Orientation::Horizontal,
                    children: vec![
                        Child { weight: 1, tree: LayoutTree::Pane { id: 2 } },
                        Child { weight: 1, tree: LayoutTree::Pane { id: 3 } },
                    ],
                },
            },
        ],
    };
    let panes = compute(&tree, rect(0, 0, 80, 24)).unwrap();
    assert_eq!(
        panes,
        vec![
            (1, rect(0, 0, 26, 24)),
            (2, rect(26, 0, 54, 12)),
            (3, rect(26, 12, 54, 12)),
        ]
    );
}

#[test]
fn computed_panes_partition_bounds() {
    // Every cell of the bounds is covered by exactly one pane.
    let tree = LayoutTree::Split {
        orientation: Orientation::Horizontal,
        children: vec![
            Child { weight: 2, tree: two_pane_vertical() },
            Child { weight: 1, tree: LayoutTree::Pane { id: 3 } },
        ],
    };
    let bounds = rect(3, 5, 61, 17);
    let panes = compute(&tree, bounds).unwrap();
    for cy in 5..22u32 {
        for cx in 3..64u32 {
            let mut owners = 0;
            for (_, r) in &panes {
                if cx >= r.x as u32
                    && cx < r.x as u32 + r.width as u32
                    && cy >= r.y as u32
                    && cy < r.y as u32 + r.height as u32
                {
                    owners += 1;
                }
            }
            assert_eq!(owners, 1);
        }
    }
}

#[test]
fn compute_is_deterministic() {
    let tree = two_pane_vertical();
    let a = compute(&tree, rect(0, 0, 79, 23)).unwrap();
    let b = compute(&tree, rect(0, 0, 79, 23)).unwrap();
    assert_eq!(a, b);
}

#[test]
fn remainder_goes_to_the_last_pane() {
    let tree = two_pane_vertical();
    let panes = compute(&tree, rect(0, 0, 81, 24)).unwrap();
    assert_eq!(panes, vec![(1, rect(0, 0, 40, 24)), (2, rect(40, 0, 41, 24))]);
}

#[test]
fn pane_below_minimum_size_is_rejected() {
    let tree = two_pane_vertical();
    // 3 columns for two panes: the left pane would get 1 column.
    assert_eq!(compute(&tree, rect(0, 0, 3, 24)), Err(LayoutError::TooSmall));
    // A single pane needs at least 2x2.
    let single = LayoutTree::Pane { id: 9 };
    assert_eq!(compute(&single, rect(0, 0, 1, 1)), Err(LayoutError::TooSmall));
    assert!(compute(&single, rect(0, 0, 2, 2)).is_ok());
}

#[test]
fn weighted_split_is_proportional() {
    let tree = LayoutTree::Split {
        orientation: Orientation::Vertical,
        children: vec![
            Child { weight: 3, tree: LayoutTree::Pane { id: 1 } },
            Child { weight: 1, tree: LayoutTree::Pane { id: 2 } },
        ],
    };
    let panes = compute(&tree, rect(0, 0, 80, 24)).unwrap();
    assert_eq!(panes, vec![(1, rect(0, 0, 60, 24)), (2, rect(60, 0, 20, 24))]);
}

#[test]
fn coordinates_near_the_representable_limit() {
    let single = LayoutTree::Pane { id: 1 };
    let bounds = rect(65000, 65000, 535, 535);
    assert_eq!(compute(&single, bounds).unwrap(), vec![(1, bounds)]);

    let wide = compute(&two_pane_vertical(), rect(0, 0, 65535, 24)).unwrap();
    assert_eq!(
        wide,
        vec![(1, rect(0, 0, 32767, 24)), (2, rect(32767, 0, 32768, 24))]
    );
}

#[test]
fn well_formedness_checker() {
    assert!(is_well_formed(&two_pane_vertical()));
    assert!(is_well_formed(&LayoutTree::Pane { id: 0 }));
    let zero_weight = LayoutTree::Split {
        orientation: Orientation::Vertical,
        children: vec![Child { weight: 0, tree: LayoutTree::Pane { id: 1 } }],
    };
    assert!(!is_well_formed(&zero_weight));
    let empty_split = LayoutTree::Split {
        orientation: Orientation::Horizontal,
        children: vec![],
    };
    assert!(!is_well_formed(&empty_split));
}
