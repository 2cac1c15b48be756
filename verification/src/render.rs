//! The frame renderer. One render cycle produces a single byte program:
//! hide the cursor, clear the screen, then for each pane an absolute
//! cursor move to its top-left cell followed by an ASCII border (`+`
//! corners, `-` and `|` edges — one consistent strategy, no line-drawing
//! escape toggle) and the pane's content rows, clipped to the interior
//! `width-2 x height-2` and padded with spaces, never wrapped. The whole
//! frame is accumulated in one buffer so the caller can flush it once.
//! Cursor addressing uses the xterm-compatible `ESC [ row ; col H`
//! sequence with 1-based decimal coordinates.

use vstd::prelude::*;
use crate::geometry::Rect;
use crate::layout::min_fits;

verus! {

/// The decimal digits of `n`, most significant first.
pub open spec fn dec_rep(n: nat) -> Seq<u8>
    decreases n,
{
    if n < 10 {
        seq![(48 + n) as u8]
    } else {
        dec_rep(n / 10) + seq![(48 + n % 10) as u8]
    }
}

/// The cursor-positioning sequence `ESC [ row ; col H`.
pub open spec fn csi_goto(row: nat, col: nat) -> Seq<u8> {
    seq![27u8, 91u8] + dec_rep(row) + seq![59u8] + dec_rep(col) + seq![72u8]
}

/// The sequence that hides the cursor, `ESC [ ? 2 5 l`.
pub open spec fn hide_cursor_seq() -> Seq<u8> {
    seq![27u8, 91u8, 63u8, 50u8, 53u8, 108u8]
}

/// The sequence that shows the cursor again, `ESC [ ? 2 5 h`.
pub open spec fn show_cursor_seq() -> Seq<u8> {
    seq![27u8, 91u8, 63u8, 50u8, 53u8, 104u8]
}

/// The clear-screen sequence `ESC [ 2 J`.
pub open spec fn clear_seq() -> Seq<u8> {
    seq![27u8, 91u8, 50u8, 74u8]
}

/// `line` clipped to `w` bytes, padded with `fill` if shorter.
pub open spec fn fit_with(line: Seq<u8>, w: int, fill: u8) -> Seq<u8> {
    if line.len() >= w {
        line.subrange(0, w)
    } else {
        line + Seq::new((w - line.len()) as nat, |i: int| fill)
    }
}

/// The content line drawn on interior row `r`, or blank past the end.
pub open spec fn line_at(lines: Seq<Seq<u8>>, r: int) -> Seq<u8> {
    if 0 <= r < lines.len() {
        lines[r]
    } else {
        Seq::empty()
    }
}

/// The top border: a cursor move and `+`, the title clipped into the
/// edge and padded with `-`, then `+`.
pub open spec fn top_border(rect: Rect, title: Seq<u8>) -> Seq<u8> {
    csi_goto((rect.y + 1) as nat, (rect.x + 1) as nat) + seq![43u8] + fit_with(
        title,
        rect.width - 2,
        45u8,
    ) + seq![43u8]
}

/// The bottom border: a cursor move and `+ - ... - +`.
pub open spec fn bottom_border(rect: Rect) -> Seq<u8> {
    csi_goto((rect.y + rect.height) as nat, (rect.x + 1) as nat) + seq![43u8] + fit_with(
        Seq::empty(),
        rect.width - 2,
        45u8,
    ) + seq![43u8]
}

/// Interior row `r`: a cursor move, `|`, the clipped content, `|`.
pub open spec fn row_program(rect: Rect, line: Seq<u8>, r: int) -> Seq<u8> {
    csi_goto((rect.y + 2 + r) as nat, (rect.x + 1) as nat) + seq![124u8] + fit_with(
        line,
        rect.width - 2,
        32u8,
    ) + seq![124u8]
}

/// The interior rows `r .. nrows` of a pane, in order.
pub open spec fn rows_program(rect: Rect, lines: Seq<Seq<u8>>, r: int, nrows: int) -> Seq<u8>
    decreases nrows - r,
{
    if r >= nrows {
        Seq::empty()
    } else {
        row_program(rect, line_at(lines, r), r) + rows_program(rect, lines, r + 1, nrows)
    }
}

/// One pane to draw: its rectangle, its title, its content lines.
#[derive(Debug)]
pub struct PaneDraw {
    pub rect: Rect,
    pub title: Vec<u8>,
    pub lines: Vec<Vec<u8>>,
}

impl PaneDraw {
    /// The content lines as plain sequences.
    pub open spec fn lines_view(self) -> Seq<Seq<u8>> {
        self.lines@.map_values(|l: Vec<u8>| l@)
    }

    /// A drawable pane: a representable rectangle of at least the
    /// minimum pane size.
    pub open spec fn wf(self) -> bool {
        self.rect.wf() && min_fits(self.rect)
    }
}

/// The whole byte program of one pane.
pub open spec fn pane_program(p: PaneDraw) -> Seq<u8> {
    top_border(p.rect, p.title@) + rows_program(p.rect, p.lines_view(), 0, p.rect.height - 2)
        + bottom_border(p.rect)
}

/// The concatenated programs of `panes[i..]`.
pub open spec fn programs(panes: Seq<PaneDraw>, i: int) -> Seq<u8>
    decreases panes.len() - i,
{
    if i < 0 || i >= panes.len() {
        Seq::empty()
    } else {
        pane_program(panes[i]) + programs(panes, i + 1)
    }
}

/// A full frame: hide the cursor, clear the screen, draw every pane.
pub open spec fn spec_frame(panes: Seq<PaneDraw>) -> Seq<u8> {
    hide_cursor_seq() + clear_seq() + programs(panes, 0)
}

/// Append the decimal digits of `n`.
fn push_decimal(buf: &mut Vec<u8>, n: u16)
    ensures
        final(buf)@ == old(buf)@ + dec_rep(n as nat),
    decreases n,
{
    if n < 10 {
        buf.push(48 + n as u8);
        proof {
            assert(buf@ =~= old(buf)@ + dec_rep(n as nat));
        }
    } else {
        push_decimal(buf, n / 10);
        buf.push(48 + (n % 10) as u8);
        proof {
            assert(buf@ =~= old(buf)@ + dec_rep(n as nat));
        }
    }
}

/// Append the cursor move to 1-based `row`, `col`.
fn push_goto(buf: &mut Vec<u8>, row: u16, col: u16)
    ensures
        final(buf)@ == old(buf)@ + csi_goto(row as nat, col as nat),
{
    buf.push(27u8);
    buf.push(91u8);
    push_decimal(buf, row);
    buf.push(59u8);
    push_decimal(buf, col);
    buf.push(72u8);
    proof {
        assert(buf@ =~= old(buf)@ + csi_goto(row as nat, col as nat));
    }
}

/// Append `line` clipped to `w` bytes, padded with `fill`.
#[verifier::loop_isolation(false)]
fn push_fitted(buf: &mut Vec<u8>, line: &Vec<u8>, w: u16, fill: u8)
    ensures
        final(buf)@ == old(buf)@ + fit_with(line@, w as int, fill),
{
    let copy_n: usize = if line.len() < w as usize {
        line.len()
    } else {
        w as usize
    };
    let mut j: usize = 0;
    while j < copy_n
        invariant
            j <= copy_n,
            buf@ == old(buf)@ + line@.subrange(0, j as int),
        decreases copy_n - j,
    {
        buf.push(line[j]);
        proof {
            assert(buf@ =~= old(buf)@ + line@.subrange(0, j + 1));
        }
        j += 1;
    }
    let mut f: usize = copy_n;
    while f < w as usize
        invariant
            copy_n <= f <= w as usize,
            buf@ == old(buf)@ + line@.subrange(0, copy_n as int) + Seq::new(
                (f - copy_n) as nat,
                |i: int| fill,
            ),
        decreases w as usize - f,
    {
        buf.push(fill);
        proof {
            assert(buf@ =~= old(buf)@ + line@.subrange(0, copy_n as int) + Seq::new(
                (f + 1 - copy_n) as nat,
                |i: int| fill,
            ));
        }
        f += 1;
    }
    proof {
        assert(buf@ =~= old(buf)@ + fit_with(line@, w as int, fill));
    }
}

/// Interior rows grow one at a time at the end of the program.
proof fn lemma_rows_snoc(rect: Rect, lines: Seq<Seq<u8>>, a: int, b: int)
    requires
        a <= b,
    ensures
        rows_program(rect, lines, a, b + 1) == rows_program(rect, lines, a, b) + row_program(
            rect,
            line_at(lines, b),
            b,
        ),
    decreases b - a,
{
    if a == b {
        reveal_with_fuel(rows_program, 2);
        assert(rows_program(rect, lines, a, b + 1) =~= rows_program(rect, lines, a, b)
            + row_program(rect, line_at(lines, b), b));
    } else {
        lemma_rows_snoc(rect, lines, a + 1, b);
        assert(rows_program(rect, lines, a, b + 1) =~= rows_program(rect, lines, a, b)
            + row_program(rect, line_at(lines, b), b));
    }
}

/// Append the whole byte program of one pane.
#[verifier::loop_isolation(false)]
#[verifier::rlimit(60)]
pub fn render_pane(buf: &mut Vec<u8>, p: &PaneDraw)
    requires
        p.wf(),
    ensures
        final(buf)@ == old(buf)@ + pane_program(*p),
{
    let rect = p.rect;
    let interior = rect.width - 2;
    push_goto(buf, rect.y + 1, rect.x + 1);
    buf.push(43u8);
    push_fitted(buf, &p.title, interior, 45u8);
    buf.push(43u8);
    let ghost base = old(buf)@ + top_border(rect, p.title@);
    proof {
        assert(buf@ =~= base);
    }
    let empty_line: Vec<u8> = Vec::new();
    let nrows = rect.height - 2;
    let mut r: u16 = 0;
    while r < nrows
        invariant
            r <= nrows,
            buf@ == base + rows_program(rect, p.lines_view(), 0, r as int),
        decreases nrows - r,
    {
        let ghost before_row = buf@;
        push_goto(buf, rect.y + 2 + r, rect.x + 1);
        buf.push(124u8);
        if (r as usize) < p.lines.len() {
            push_fitted(buf, &p.lines[r as usize], interior, 32u8);
        } else {
            push_fitted(buf, &empty_line, interior, 32u8);
        }
        buf.push(124u8);
        proof {
            assert(line_at(p.lines_view(), r as int) == (if (r as int) < p.lines@.len() {
                p.lines@[r as int]@
            } else {
                Seq::<u8>::empty()
            }));
            assert(buf@ =~= before_row + row_program(rect, line_at(p.lines_view(), r as int),
                r as int));
            lemma_rows_snoc(rect, p.lines_view(), 0, r as int);
            assert(buf@ =~= base + rows_program(rect, p.lines_view(), 0, r as int + 1));
        }
        r += 1;
    }
    push_goto(buf, rect.y + rect.height, rect.x + 1);
    buf.push(43u8);
    push_fitted(buf, &empty_line, interior, 45u8);
    buf.push(43u8);
    proof {
        assert(buf@ =~= old(buf)@ + pane_program(*p));
    }
}

/// The programs of `panes[i..]`, concatenated.
fn render_panes_from(panes: &Vec<PaneDraw>, i: usize) -> (out: Vec<u8>)
    requires
        i <= panes@.len(),
        forall|k: int| 0 <= k < panes@.len() ==> (#[trigger] panes@[k]).wf(),
    ensures
        out@ == programs(panes@, i as int),
    decreases panes@.len() - i,
{
    if i == panes.len() {
        Vec::new()
    } else {
        let mut head: Vec<u8> = Vec::new();
        render_pane(&mut head, &panes[i]);
        let mut rest = render_panes_from(panes, i + 1);
        head.append(&mut rest);
        proof {
            assert(head@ =~= programs(panes@, i as int));
        }
        head
    }
}

/// Build one whole frame: hide the cursor, clear the screen, draw every
/// pane. The result is exactly `spec_frame` of the panes, accumulated in
/// one buffer so one flush paints the frame without flicker.
pub fn render_frame(panes: &Vec<PaneDraw>) -> (frame: Vec<u8>)
    requires
        forall|k: int| 0 <= k < panes@.len() ==> (#[trigger] panes@[k]).wf(),
    ensures
        frame@ == spec_frame(panes@),
{
    let mut frame: Vec<u8> = Vec::new();
    frame.push(27u8);
    frame.push(91u8);
    frame.push(63u8);
    frame.push(50u8);
    frame.push(53u8);
    frame.push(108u8);
    frame.push(27u8);
    frame.push(91u8);
    frame.push(50u8);
    frame.push(74u8);
    let mut body = render_panes_from(panes, 0);
    frame.append(&mut body);
    proof {
        assert(frame@ =~= spec_frame(panes@));
    }
    frame
}

/// The byte offset of pane `k`'s program within the concatenated
/// programs of `panes[i..]`.
pub open spec fn programs_len(panes: Seq<PaneDraw>, i: int, k: int) -> int
    decreases k - i,
{
    if i < 0 || k <= i || k > panes.len() {
        0
    } else {
        pane_program(panes[i]).len() + programs_len(panes, i + 1, k)
    }
}

/// Within the concatenation of `panes[i..]`, pane `k`'s program stands
/// whole at its offset.
proof fn lemma_programs_index(panes: Seq<PaneDraw>, i: int, k: int)
    requires
        0 <= i <= k < panes.len(),
    ensures
        ({
            let off = programs_len(panes, i, k);
            let prog = pane_program(panes[k]);
            &&& 0 <= off
            &&& off + prog.len() <= programs(panes, i).len()
            &&& programs(panes, i).subrange(off, off + prog.len() as int) == prog
        }),
    decreases k - i,
{
    let off = programs_len(panes, i, k);
    let prog = pane_program(panes[k]);
    if i == k {
        assert(programs(panes, i).subrange(0, prog.len() as int) =~= prog);
    } else {
        lemma_programs_index(panes, i + 1, k);
        let off1 = programs_len(panes, i + 1, k);
        assert(programs(panes, i).subrange(off, off + prog.len() as int) =~= programs(
            panes,
            i + 1,
        ).subrange(off1, off1 + prog.len() as int));
    }
}

/// The round-trip guarantee for one pane: within a full frame, pane `k`'s
/// bytes begin with the cursor move to exactly its rectangle's top-left
/// cell, in 1-based coordinates, byte for byte.
pub proof fn lemma_frame_addresses(panes: Seq<PaneDraw>, k: int)
    requires
        0 <= k < panes.len(),
    ensures
        ({
            let goto = csi_goto((panes[k].rect.y + 1) as nat, (panes[k].rect.x + 1) as nat);
            let off = hide_cursor_seq().len() + clear_seq().len() + programs_len(panes, 0, k);
            &&& off + goto.len() <= spec_frame(panes).len()
            &&& spec_frame(panes).subrange(off as int, off + goto.len()) == goto
        }),
{
    lemma_programs_index(panes, 0, k);
    let goto = csi_goto((panes[k].rect.y + 1) as nat, (panes[k].rect.x + 1) as nat);
    let prog = pane_program(panes[k]);
    let po = programs_len(panes, 0, k);
    assert(prog.subrange(0, goto.len() as int) =~= goto);
    let body = programs(panes, 0);
    assert(body.subrange(po, po + prog.len() as int) == prog);
    assert forall|j: int| 0 <= j < goto.len() implies body[po + j] == goto[j] by {
        assert(body.subrange(po, po + prog.len() as int)[j] == body[po + j]);
        assert(prog.subrange(0, goto.len() as int)[j] == prog[j]);
    }
    let off = hide_cursor_seq().len() + clear_seq().len() + po;
    assert(spec_frame(panes).subrange(off as int, off + goto.len()) =~= goto);
}

/// The round trip from the layout engine to the screen: rendering panes
/// whose rectangles came from `spec_compute` produces a frame whose
/// cursor-addressing coordinates match the computed rectangles, byte for
/// byte, pane by pane.
pub proof fn lemma_render_matches_layout(
    tree: crate::layout::LayoutTree,
    bounds: Rect,
    panes: Seq<PaneDraw>,
)
    requires
        crate::layout::spec_compute(tree, bounds) is Some,
        panes.len() == crate::layout::spec_compute(tree, bounds).unwrap().len(),
        forall|k: int| 0 <= k < panes.len() ==> (#[trigger] panes[k]).rect
            == crate::layout::spec_compute(tree, bounds).unwrap()[k].1,
    ensures
        forall|k: int|
            #![trigger programs_len(panes, 0, k)]
            0 <= k < panes.len() ==> {
            let rect = crate::layout::spec_compute(tree, bounds).unwrap()[k].1;
            let goto = csi_goto((rect.y + 1) as nat, (rect.x + 1) as nat);
            let off = hide_cursor_seq().len() + clear_seq().len() + programs_len(panes, 0, k);
            spec_frame(panes).subrange(off as int, off + goto.len()) == goto
        },
{
    assert forall|k: int|
        #![trigger programs_len(panes, 0, k)]
        0 <= k < panes.len() implies {
        let rect = crate::layout::spec_compute(tree, bounds).unwrap()[k].1;
        let goto = csi_goto((rect.y + 1) as nat, (rect.x + 1) as nat);
        let off = hide_cursor_seq().len() + clear_seq().len() + programs_len(panes, 0, k);
        spec_frame(panes).subrange(off as int, off + goto.len()) == goto
    } by {
        lemma_frame_addresses(panes, k);
    }
}

/// The lines of `bytes[i..]` when the line so far is `cur`: split on
/// newline (10), the final line unterminated.
pub open spec fn split_acc(bytes: Seq<u8>, i: int, cur: Seq<u8>) -> Seq<Seq<u8>>
    decreases bytes.len() - i,
{
    if i < 0 || i >= bytes.len() {
        seq![cur]
    } else if bytes[i] == 10u8 {
        seq![cur] + split_acc(bytes, i + 1, Seq::empty())
    } else {
        split_acc(bytes, i + 1, cur.push(bytes[i]))
    }
}

/// The content lines of a pane buffer: its bytes split on newline.
pub open spec fn spec_lines(bytes: Seq<u8>) -> Seq<Seq<u8>> {
    split_acc(bytes, 0, Seq::empty())
}

/// Split buffered bytes into content lines on newline bytes, for
/// rendering: exactly `spec_lines` of the input.
#[verifier::loop_isolation(false)]
pub fn split_lines(bytes: &Vec<u8>) -> (out: Vec<Vec<u8>>)
    ensures
        out@.map_values(|l: Vec<u8>| l@) == spec_lines(bytes@),
{
    let mut out: Vec<Vec<u8>> = Vec::new();
    let mut cur: Vec<u8> = Vec::new();
    let mut i: usize = 0;
    while i < bytes.len()
        invariant
            i <= bytes@.len(),
            spec_lines(bytes@) == out@.map_values(|l: Vec<u8>| l@) + split_acc(
                bytes@,
                i as int,
                cur@,
            ),
        decreases bytes@.len() - i,
    {
        let b = bytes[i];
        if b == 10u8 {
            let ghost out_pre = out@;
            let ghost cur_pre = cur@;
            out.push(cur);
            cur = Vec::new();
            proof {
                assert(out@.map_values(|l: Vec<u8>| l@) =~= out_pre.map_values(|l: Vec<u8>| l@)
                    + seq![cur_pre]);
            }
        } else {
            cur.push(b);
        }
        i += 1;
    }
    let ghost out_pre = out@;
    let ghost cur_pre = cur@;
    out.push(cur);
    proof {
        assert(out@.map_values(|l: Vec<u8>| l@) =~= out_pre.map_values(|l: Vec<u8>| l@) + seq![
            cur_pre,
        ]);
        assert(out@.map_values(|l: Vec<u8>| l@) =~= spec_lines(bytes@));
    }
    out
}

/// The bytes that restore the cursor on shutdown.
pub fn restore_cursor_bytes() -> (r: Vec<u8>)
    ensures
        r@ == show_cursor_seq(),
{
    let mut v: Vec<u8> = Vec::new();
    v.push(27u8);
    v.push(91u8);
    v.push(63u8);
    v.push(50u8);
    v.push(53u8);
    v.push(104u8);
    proof {
        assert(v@ =~= show_cursor_seq());
    }
    v
}

} // verus!
