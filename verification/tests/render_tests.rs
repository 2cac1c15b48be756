use ptymux::geometry::Rect;
use ptymux::layout::{compute, Child, LayoutTree, Orientation};
use ptymux::render::{render_frame, restore_cursor_bytes, split_lines, PaneDraw};

fn rect(x: u16, y: u16, width: u16, height: u16) -> Rect {
    Rect { x, y, width, height }
}

fn find(haystack: &[u8], needle: &[u8]) -> Option<usize> {
    if needle.len() > haystack.len() {
        return None;
    }
    for start in 0..=(haystack.len() - needle.len()) {
        if &haystack[start..start + needle.len()] == needle {
            return Some(start);
        }
    }
    None
}

#[test]
fn one_pane_frame_byte_for_byte() {
    let pane = PaneDraw {
        rect: rect(0, 0, 4, 3),
        title: Vec::new(),
        lines: vec![b"hi".to_vec()],
    };
    let frame = render_frame(&vec![pane]);
    let expected = b"\x1b[?25l\x1b[2J\x1b[1;1H+--+\x1b[2;1H|hi|\x1b[3;1H+--+".to_vec();
    assert_eq!(frame, expected);
}

#[test]
fn content_is_clipped_never_wrapped() {
    let pane = PaneDraw {
        rect: rect(0, 0, 4, 3),
        title: Vec::new(),
        lines: vec![b"hello".to_vec()],
    };
    let frame = render_frame(&vec![pane]);
    assert!(find(&frame, b"|he|").is_some());
    assert!(find(&frame, b"llo").is_none());
}

#[test]
fn short_content_is_padded_with_spaces() {
    let pane = PaneDraw {
        rect: rect(0, 0, 5, 4),
        title: Vec::new(),
        lines: vec![b"a".to_vec()],
    };
    let frame = render_frame(&vec![pane]);
    // Row programs: content "a" padded to 3, then a blank interior row.
    assert!(find(&frame, b"|a  |").is_some());
    assert!(find(&frame, b"|   |").is_some());
}

#[test]
fn title_is_drawn_into_the_top_border() {
    let pane = PaneDraw {
        rect: rect(0, 0, 6, 3),
        title: b"sh".to_vec(),
        lines: Vec::new(),
    };
    let frame = render_frame(&vec![pane]);
    assert!(find(&frame, b"+sh--+").is_some());
}

#[test]
fn rendered_positions_match_computed_rectangles() {
    // The round trip: lay out two panes, render them, and check that the
    // frame addresses each pane at exactly its rectangle's top-left cell
    // (1-based), byte for byte, in pane order.
    let tree = LayoutTree::Split {
        orientation: Orientation::Vertical,
        children: vec![
            Child { weight: 1, tree: LayoutTree::Pane { id: 1 } },
            Child { weight: 1, tree: LayoutTree::Pane { id: 2 } },
        ],
    };
    let panes = compute(&tree, rect(0, 0, 80, 24)).unwrap();
    assert_eq!(panes[0].1, rect(0, 0, 40, 24));
    assert_eq!(panes[1].1, rect(40, 0, 40, 24));
    let draws: Vec<PaneDraw> = panes
        .iter()
        .map(|(_, r)| PaneDraw { rect: *r, title: Vec::new(), lines: Vec::new() })
        .collect();
    let frame = render_frame(&draws);
    let first = find(&frame, b"\x1b[1;1H").expect("first pane cursor address");
    let second = find(&frame, b"\x1b[1;41H").expect("second pane cursor address");
    assert_eq!(first, 10); // right after hide-cursor and clear-screen
    assert!(second > first);
}

#[test]
fn frame_starts_hidden_and_restore_shows_cursor() {
    let frame = render_frame(&Vec::new());
    assert_eq!(frame, b"\x1b[?25l\x1b[2J".to_vec());
    assert_eq!(restore_cursor_bytes(), b"\x1b[?25h".to_vec());
}

#[test]
fn split_lines_on_newlines() {
    let lines = split_lines(&b"one\ntwo\n\nthree".to_vec());
    assert_eq!(
        lines,
        vec![b"one".to_vec(), b"two".to_vec(), b"".to_vec(), b"three".to_vec()]
    );
    assert_eq!(split_lines(&Vec::new()), vec![b"".to_vec()]);
    assert_eq!(split_lines(&b"x\n".to_vec()), vec![b"x".to_vec(), b"".to_vec()]);
}
