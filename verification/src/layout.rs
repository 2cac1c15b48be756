//! The layout engine: a weighted split tree is partitioned into one
//! rectangle per pane, deterministically, by pure integer arithmetic.
//!
//! A split divides its bounds along one axis proportionally to its child
//! weights. Child boundaries are placed at the rounded cumulative-weight
//! offsets `len * prefix_weight / total_weight`, so the division rounds
//! toward equal integer sizes and the last child absorbs whatever cells
//! floor rounding leaves over; the same inputs always give the same
//! rectangles. A pane narrower than `MIN_PANE_WIDTH` columns or shorter
//! than `MIN_PANE_HEIGHT` rows is rejected with `LayoutError::TooSmall`
//! rather than silently clipped. Rectangles are adjacent: no gap column is
//! reserved between siblings, each pane draws its own border.

use vstd::prelude::*;
use vstd::arithmetic::div_mod::{lemma_div_is_ordered, lemma_div_multiples_vanish,
    lemma_div_pos_is_pos};
use vstd::arithmetic::mul::lemma_mul_inequality;
use crate::geometry::Rect;

verus! {

/// The narrowest pane the engine will produce (border plus no content).
pub const MIN_PANE_WIDTH: u16 = 2;

/// The shortest pane the engine will produce (border plus no content).
pub const MIN_PANE_HEIGHT: u16 = 2;

/// The axis a split divides: `Vertical` places children side by side
/// (divides columns), `Horizontal` stacks them (divides rows).
#[derive(Clone, Copy, Debug, PartialEq, Eq, Structural)]
pub enum Orientation {
    Horizontal,
    Vertical,
}

/// A layout tree: a single pane, or a split into weighted children.
#[derive(Debug)]
pub enum LayoutTree {
    Pane { id: u32 },
    Split { orientation: Orientation, children: Vec<Child> },
}

/// One child of a split and its share of the split axis.
#[derive(Debug)]
pub struct Child {
    pub weight: u16,
    pub tree: LayoutTree,
}

/// Why a layout could not be computed.
#[derive(Clone, Copy, Debug, PartialEq, Eq, Structural)]
pub enum LayoutError {
    TooSmall,
}

impl LayoutTree {
    /// A valid tree: every split has between 1 and 65535 children and
    /// every weight is at least 1.
    pub open spec fn wf(self) -> bool
        decreases self,
    {
        match self {
            LayoutTree::Pane { .. } => true,
            LayoutTree::Split { children, .. } => {
                &&& 1 <= children@.len() <= 0xFFFF
                &&& forall|j: int| 0 <= j < children@.len() ==> (#[trigger] children@[j]).wf()
            },
        }
    }
}

impl Child {
    /// A valid child: positive weight, valid subtree.
    pub open spec fn wf(self) -> bool
        decreases self,
    {
        self.weight >= 1 && self.tree.wf()
    }
}

/// Does a rectangle meet the minimum pane size?
pub open spec fn min_fits(r: Rect) -> bool {
    r.width >= MIN_PANE_WIDTH && r.height >= MIN_PANE_HEIGHT
}

/// The sum of the child weights of `cs`.
pub open spec fn weight_sum(cs: Seq<Child>) -> int
    decreases cs.len(),
{
    if cs.len() == 0 {
        0
    } else {
        cs[0].weight + weight_sum(cs.subrange(1, cs.len() as int))
    }
}

/// The rounded boundary offset for cumulative weight `c` out of `total`
/// along an axis of length `len`.
pub open spec fn axis_off(len: int, total: int, c: int) -> int {
    len * c / total
}

/// The sub-rectangle of `bounds` between cumulative weights `c0` and `c1`.
pub open spec fn spec_slice(bounds: Rect, o: Orientation, total: int, c0: int, c1: int) -> Rect {
    match o {
        Orientation::Vertical => Rect {
            x: (bounds.x + axis_off(bounds.width as int, total, c0)) as u16,
            y: bounds.y,
            width: (axis_off(bounds.width as int, total, c1)
                - axis_off(bounds.width as int, total, c0)) as u16,
            height: bounds.height,
        },
        Orientation::Horizontal => Rect {
            x: bounds.x,
            y: (bounds.y + axis_off(bounds.height as int, total, c0)) as u16,
            width: bounds.width,
            height: (axis_off(bounds.height as int, total, c1)
                - axis_off(bounds.height as int, total, c0)) as u16,
        },
    }
}

/// The layout of `tree` inside `bounds`: `Some` sequence of
/// (pane id, rectangle) in tree order, or `None` when some pane would
/// fall below the minimum size.
pub open spec fn spec_compute(tree: LayoutTree, bounds: Rect) -> Option<Seq<(u32, Rect)>>
    decreases tree,
{
    match tree {
        LayoutTree::Pane { id } => if min_fits(bounds) {
            Some(seq![(id, bounds)])
        } else {
            None
        },
        LayoutTree::Split { orientation, children } => spec_compute_children(
            children@,
            orientation,
            bounds,
            weight_sum(children@),
            0,
        ),
    }
}

/// The layout of the children `rest` of a split of `bounds`, given the
/// split's total weight and the weight already consumed by earlier
/// siblings.
pub open spec fn spec_compute_children(
    rest: Seq<Child>,
    o: Orientation,
    bounds: Rect,
    total: int,
    consumed: int,
) -> Option<Seq<(u32, Rect)>>
    decreases rest,
{
    if rest.len() == 0 {
        Some(Seq::empty())
    } else {
        let head = rest[0];
        let slice = spec_slice(bounds, o, total, consumed, consumed + head.weight);
        let h = spec_compute(head.tree, slice);
        let t = spec_compute_children(
            rest.subrange(1, rest.len() as int),
            o,
            bounds,
            total,
            consumed + head.weight,
        );
        if h is Some && t is Some {
            Some(h.unwrap() + t.unwrap())
        } else {
            None
        }
    }
}

/// Weight sums are never negative.
pub proof fn lemma_weight_sum_nonneg(cs: Seq<Child>)
    ensures
        weight_sum(cs) >= 0,
    decreases cs.len(),
{
    if cs.len() != 0 {
        lemma_weight_sum_nonneg(cs.subrange(1, cs.len() as int));
    }
}

/// In a valid split the weight sum is at least the number of children.
pub proof fn lemma_weight_sum_lower(cs: Seq<Child>)
    requires
        forall|j: int| 0 <= j < cs.len() ==> (#[trigger] cs[j]).weight >= 1,
    ensures
        weight_sum(cs) >= cs.len(),
    decreases cs.len(),
{
    if cs.len() != 0 {
        let tail = cs.subrange(1, cs.len() as int);
        assert(forall|j: int| 0 <= j < tail.len() ==> (#[trigger] tail[j]).weight >= 1);
        lemma_weight_sum_lower(tail);
    }
}

/// Boundary offsets are monotone, start at 0, and end exactly at `len`.
pub proof fn lemma_off_props(len: int, total: int, c0: int, c1: int)
    requires
        0 <= len,
        1 <= total,
        0 <= c0 <= c1 <= total,
    ensures
        0 <= axis_off(len, total, c0),
        axis_off(len, total, c0) <= axis_off(len, total, c1),
        axis_off(len, total, c1) <= len,
        axis_off(len, total, total) == len,
        axis_off(len, total, 0) == 0,
{
    assert(len * 0 == 0);
    lemma_mul_inequality(0, c0, len);
    assert(0 * len == 0);
    assert(c0 * len == len * c0) by (nonlinear_arith);
    lemma_div_pos_is_pos(len * c0, total);
    lemma_mul_inequality(c0, c1, len);
    assert(c1 * len == len * c1) by (nonlinear_arith);
    lemma_div_is_ordered(len * c0, len * c1, total);
    lemma_mul_inequality(c1, total, len);
    assert(total * len == len * total) by (nonlinear_arith);
    lemma_div_is_ordered(len * c1, len * total, total);
    lemma_div_multiples_vanish(len, total);
}

/// Sum the weights of `children[i..]`; the running total fits in `u64`.
fn total_weight(children: &Vec<Child>, i: usize) -> (t: u64)
    requires
        i <= children@.len(),
        children@.len() <= 0xFFFF,
    ensures
        t == weight_sum(children@.subrange(i as int, children@.len() as int)),
        t <= (children@.len() - i) * 0xFFFF,
    decreases children@.len() - i,
{
    if i == children.len() {
        proof {
            assert(children@.subrange(i as int, i as int) =~= Seq::<Child>::empty());
        }
        0
    } else {
        let w = children[i].weight;
        let rest = total_weight(children, i + 1);
        proof {
            let s = children@.subrange(i as int, children@.len() as int);
            assert(s[0] == children@[i as int]);
            assert(s.subrange(1, s.len() as int) =~= children@.subrange(
                i as int + 1,
                children@.len() as int,
            ));
        }
        w as u64 + rest
    }
}

/// The boundary offset for cumulative weight `c` of `total` on an axis of
/// `len` cells; never exceeds `len`.
fn axis_offset(len: u16, total: u64, c: u64) -> (r: u16)
    requires
        1 <= total <= 0xFFFF_FFFF,
        c <= total,
    ensures
        r == axis_off(len as int, total as int, c as int),
        r <= len,
{
    proof {
        assert((len as int) * (c as int) <= 0xFFFF * 0xFFFF_FFFFu64) by (nonlinear_arith)
            requires len <= 0xFFFF, 0 <= c <= 0xFFFF_FFFFu64;
    }
    let prod: u64 = (len as u64) * c;
    let q: u64 = prod / total;
    proof {
        lemma_mul_inequality(0, c as int, len as int);
        assert(0 * (len as int) == 0);
        assert((c as int) * (len as int) == (len as int) * (c as int)) by (nonlinear_arith);
        lemma_div_pos_is_pos((len as int) * (c as int), total as int);
        lemma_mul_inequality(c as int, total as int, len as int);
        assert((total as int) * (len as int) == (len as int) * (total as int))
            by (nonlinear_arith);
        lemma_div_is_ordered((len as int) * (c as int), (len as int) * (total as int),
            total as int);
        lemma_div_multiples_vanish(len as int, total as int);
    }
    q as u16
}

/// The sub-rectangle of `bounds` between cumulative weights `c0` and `c1`.
fn make_slice(bounds: Rect, o: Orientation, total: u64, c0: u64, c1: u64) -> (s: Rect)
    requires
        bounds.wf(),
        1 <= total <= 0xFFFF_FFFF,
        c0 <= c1 <= total,
    ensures
        s == spec_slice(bounds, o, total as int, c0 as int, c1 as int),
        s.wf(),
{
    match o {
        Orientation::Vertical => {
            let lo = axis_offset(bounds.width, total, c0);
            let hi = axis_offset(bounds.width, total, c1);
            proof {
                lemma_off_props(bounds.width as int, total as int, c0 as int, c1 as int);
            }
            Rect { x: bounds.x + lo, y: bounds.y, width: hi - lo, height: bounds.height }
        },
        Orientation::Horizontal => {
            let lo = axis_offset(bounds.height, total, c0);
            let hi = axis_offset(bounds.height, total, c1);
            proof {
                lemma_off_props(bounds.height as int, total as int, c0 as int, c1 as int);
            }
            Rect { x: bounds.x, y: bounds.y + lo, width: bounds.width, height: hi - lo }
        },
    }
}

/// Lay out the children `children[i..]` of a split of `bounds`.
fn compute_children(
    children: &Vec<Child>,
    i: usize,
    o: Orientation,
    bounds: Rect,
    total: u64,
    consumed: u64,
) -> (r: Result<Vec<(u32, Rect)>, LayoutError>)
    requires
        children@.len() <= 0xFFFF,
        i <= children@.len(),
        forall|j: int| 0 <= j < children@.len() ==> (#[trigger] children@[j]).wf(),
        bounds.wf(),
        1 <= total <= 0xFFFF_FFFF,
        consumed + weight_sum(children@.subrange(i as int, children@.len() as int)) == total,
    ensures
        match r {
            Ok(panes) => spec_compute_children(
                children@.subrange(i as int, children@.len() as int),
                o,
                bounds,
                total as int,
                consumed as int,
            ) == Some(panes@),
            Err(e) => spec_compute_children(
                children@.subrange(i as int, children@.len() as int),
                o,
                bounds,
                total as int,
                consumed as int,
            ) is None && e == LayoutError::TooSmall,
        },
    decreases children@.subrange(i as int, children@.len() as int),
{
    let ghost sub = children@.subrange(i as int, children@.len() as int);
    if i == children.len() {
        proof {
            assert(sub =~= Seq::<Child>::empty());
        }
        Ok(Vec::new())
    } else {
        let w = children[i].weight as u64;
        let ghost tail = children@.subrange(i as int + 1, children@.len() as int);
        proof {
            assert(sub[0] == children@[i as int]);
            assert(sub.subrange(1, sub.len() as int) =~= tail);
            lemma_weight_sum_nonneg(tail);
            assert(decreases_to!(sub => sub[0].tree));
            assert(decreases_to!(sub => sub.subrange(1, sub.len() as int)));
        }
        let slice = make_slice(bounds, o, total, consumed, consumed + w);
        match compute(&children[i].tree, slice) {
            Err(e) => Err(e),
            Ok(mut head_panes) => {
                match compute_children(children, i + 1, o, bounds, total, consumed + w) {
                    Err(e) => Err(e),
                    Ok(mut tail_panes) => {
                        head_panes.append(&mut tail_panes);
                        Ok(head_panes)
                    },
                }
            },
        }
    }
}

/// Compute the rectangle of every pane of `tree` inside `bounds`.
///
/// The result is pinned to `spec_compute`, a pure function of the two
/// arguments: equal inputs always give equal layouts. `Err(TooSmall)` is
/// returned exactly when `spec_compute` yields no layout, that is when
/// some pane would fall below the minimum pane size.
pub fn compute(tree: &LayoutTree, bounds: Rect) -> (r: Result<Vec<(u32, Rect)>, LayoutError>)
    requires
        tree.wf(),
        bounds.wf(),
    ensures
        match r {
            Ok(panes) => spec_compute(*tree, bounds) == Some(panes@),
            Err(e) => spec_compute(*tree, bounds) is None && e == LayoutError::TooSmall,
        },
    decreases *tree,
{
    match tree {
        LayoutTree::Pane { id } => {
            if bounds.width >= MIN_PANE_WIDTH && bounds.height >= MIN_PANE_HEIGHT {
                let mut v: Vec<(u32, Rect)> = Vec::new();
                v.push((*id, bounds));
                proof {
                    assert(v@ =~= seq![(*id, bounds)]);
                }
                Ok(v)
            } else {
                Err(LayoutError::TooSmall)
            }
        },
        LayoutTree::Split { orientation, children } => {
            let total = total_weight(children, 0);
            proof {
                assert(children@.subrange(0, children@.len() as int) =~= children@);
                assert(forall|j: int| 0 <= j < children@.len()
                    ==> (#[trigger] children@[j]).weight >= 1);
                lemma_weight_sum_lower(children@);
                assert(total <= children@.len() * 0xFFFF);
                assert(children@.len() * 0xFFFF <= 0xFFFF * 0xFFFF) by (nonlinear_arith)
                    requires children@.len() <= 0xFFFF;
            }
            compute_children(children, 0, *orientation, bounds, total, 0)
        },
    }
}

/// A pane list partitions `region`: every rectangle lies inside it, every
/// cell of it is covered, and no two rectangles share a cell.
pub open spec fn panes_partition(panes: Seq<(u32, Rect)>, region: Rect) -> bool {
    &&& forall|k: int| 0 <= k < panes.len() ==> (#[trigger] panes[k]).1.inside(region)
    &&& forall|cx: int, cy: int| #[trigger] region.contains(cx, cy)
        ==> exists|k: int| 0 <= k < panes.len() && (#[trigger] panes[k]).1.contains(cx, cy)
    &&& forall|k1: int, k2: int|
        0 <= k1 < panes.len() && 0 <= k2 < panes.len() && k1 != k2
            ==> (#[trigger] panes[k1]).1.disjoint((#[trigger] panes[k2]).1)
}

/// A slice's edges sit at the rounded offsets of its cumulative weights,
/// and the slice is a representable sub-rectangle of its bounds.
pub proof fn lemma_slice_bounds(bounds: Rect, o: Orientation, total: int, c0: int, c1: int)
    requires
        bounds.wf(),
        1 <= total,
        0 <= c0 <= c1 <= total,
    ensures
        ({
            let s = spec_slice(bounds, o, total, c0, c1);
            &&& s.wf()
            &&& s.inside(bounds)
            &&& match o {
                Orientation::Vertical => {
                    &&& s.x == bounds.x + axis_off(bounds.width as int, total, c0)
                    &&& s.x + s.width == bounds.x + axis_off(bounds.width as int, total, c1)
                    &&& s.y == bounds.y
                    &&& s.height == bounds.height
                },
                Orientation::Horizontal => {
                    &&& s.y == bounds.y + axis_off(bounds.height as int, total, c0)
                    &&& s.y + s.height == bounds.y + axis_off(bounds.height as int, total, c1)
                    &&& s.x == bounds.x
                    &&& s.width == bounds.width
                },
            }
        }),
{
    match o {
        Orientation::Vertical => {
            lemma_off_props(bounds.width as int, total, c0, c1);
        },
        Orientation::Horizontal => {
            lemma_off_props(bounds.height as int, total, c0, c1);
        },
    }
}

/// Two adjacent slices of the same bounds are disjoint, lie inside the
/// enclosing slice, and together cover it.
pub proof fn lemma_slice_adjacent(
    bounds: Rect,
    o: Orientation,
    total: int,
    c0: int,
    c1: int,
    c2: int,
)
    requires
        bounds.wf(),
        1 <= total,
        0 <= c0 <= c1 <= c2 <= total,
    ensures
        ({
            let s01 = spec_slice(bounds, o, total, c0, c1);
            let s12 = spec_slice(bounds, o, total, c1, c2);
            let s02 = spec_slice(bounds, o, total, c0, c2);
            &&& s01.inside(s02)
            &&& s12.inside(s02)
            &&& s01.disjoint(s12)
            &&& forall|cx: int, cy: int| #[trigger] s02.contains(cx, cy)
                ==> s01.contains(cx, cy) || s12.contains(cx, cy)
        }),
{
    lemma_slice_bounds(bounds, o, total, c0, c1);
    lemma_slice_bounds(bounds, o, total, c1, c2);
    lemma_slice_bounds(bounds, o, total, c0, c2);
    let s01 = spec_slice(bounds, o, total, c0, c1);
    let s12 = spec_slice(bounds, o, total, c1, c2);
    let s02 = spec_slice(bounds, o, total, c0, c2);
    assert forall|cx: int, cy: int| !(s01.contains(cx, cy) && s12.contains(cx, cy)) by {}
    assert(s01.disjoint(s12));
}

/// A computed layout exactly partitions its bounds: the rectangles lie
/// inside the bounds, cover every cell of them, and are pairwise
/// disjoint.
pub proof fn lemma_compute_partitions(tree: LayoutTree, bounds: Rect)
    requires
        tree.wf(),
        bounds.wf(),
        spec_compute(tree, bounds) is Some,
    ensures
        panes_partition(spec_compute(tree, bounds).unwrap(), bounds),
    decreases tree,
{
    match tree {
        LayoutTree::Pane { id } => {
            let panes = spec_compute(tree, bounds).unwrap();
            assert(panes =~= seq![(id, bounds)]);
            assert forall|cx: int, cy: int| #[trigger] bounds.contains(cx, cy)
                implies exists|k: int|
                    0 <= k < panes.len() && (#[trigger] panes[k]).1.contains(cx, cy) by {
                assert(panes[0].1.contains(cx, cy));
            }
        },
        LayoutTree::Split { orientation, children } => {
            let total = weight_sum(children@);
            assert forall|j: int| 0 <= j < children@.len()
                implies (#[trigger] children@[j]).weight >= 1 by {
                assert(children@[j].wf());
            }
            lemma_weight_sum_lower(children@);
            lemma_children_partition(children@, orientation, bounds, total, 0);
            match orientation {
                Orientation::Vertical => {
                    lemma_off_props(bounds.width as int, total, 0, total);
                },
                Orientation::Horizontal => {
                    lemma_off_props(bounds.height as int, total, 0, total);
                },
            }
            assert(spec_slice(bounds, orientation, total, 0, total) == bounds);
        },
    }
}

/// The children of a split exactly partition the slice between the weight
/// already consumed and the split's total weight.
pub proof fn lemma_children_partition(
    rest: Seq<Child>,
    o: Orientation,
    bounds: Rect,
    total: int,
    consumed: int,
)
    requires
        forall|j: int| 0 <= j < rest.len() ==> (#[trigger] rest[j]).wf(),
        bounds.wf(),
        1 <= total,
        0 <= consumed,
        consumed + weight_sum(rest) == total,
        spec_compute_children(rest, o, bounds, total, consumed) is Some,
    ensures
        panes_partition(
            spec_compute_children(rest, o, bounds, total, consumed).unwrap(),
            spec_slice(bounds, o, total, consumed, total),
        ),
    decreases rest,
{
    let region = spec_slice(bounds, o, total, consumed, total);
    lemma_weight_sum_nonneg(rest);
    lemma_slice_bounds(bounds, o, total, consumed, total);
    if rest.len() == 0 {
        assert(consumed == total);
        assert forall|cx: int, cy: int| !region.contains(cx, cy) by {
            match o {
                Orientation::Vertical => {
                    assert(region.width == 0);
                },
                Orientation::Horizontal => {
                    assert(region.height == 0);
                },
            }
        }
    } else {
        let head = rest[0];
        let w = head.weight as int;
        let tail = rest.subrange(1, rest.len() as int);
        assert(head.wf());
        lemma_weight_sum_nonneg(tail);
        let s1 = spec_slice(bounds, o, total, consumed, consumed + w);
        let region2 = spec_slice(bounds, o, total, consumed + w, total);
        lemma_slice_bounds(bounds, o, total, consumed, consumed + w);
        lemma_slice_bounds(bounds, o, total, consumed + w, total);
        lemma_slice_adjacent(bounds, o, total, consumed, consumed + w, total);
        let hs = spec_compute(head.tree, s1).unwrap();
        let ts = spec_compute_children(tail, o, bounds, total, consumed + w).unwrap();
        lemma_compute_partitions(head.tree, s1);
        assert forall|j: int| 0 <= j < tail.len() implies (#[trigger] tail[j]).wf() by {
            assert(tail[j] == rest[j + 1]);
        }
        lemma_children_partition(tail, o, bounds, total, consumed + w);
        let panes = spec_compute_children(rest, o, bounds, total, consumed).unwrap();
        assert(panes == hs + ts);

        assert forall|k: int| 0 <= k < panes.len()
            implies (#[trigger] panes[k]).1.inside(region) by {
            if k < hs.len() {
                assert(panes[k] == hs[k]);
            } else {
                assert(panes[k] == ts[k - hs.len()]);
            }
        }

        assert forall|cx: int, cy: int| #[trigger] region.contains(cx, cy)
            implies exists|k: int|
                0 <= k < panes.len() && (#[trigger] panes[k]).1.contains(cx, cy) by {
            if s1.contains(cx, cy) {
                let k0 = choose|k: int| 0 <= k < hs.len() && (#[trigger] hs[k]).1.contains(cx, cy);
                assert(panes[k0] == hs[k0]);
                assert(0 <= k0 < panes.len() && panes[k0].1.contains(cx, cy));
            } else {
                assert(region2.contains(cx, cy));
                let k1 = choose|k: int| 0 <= k < ts.len() && (#[trigger] ts[k]).1.contains(cx, cy);
                assert(panes[k1 + hs.len()] == ts[k1]);
                assert(0 <= k1 + hs.len() < panes.len() && panes[k1 + hs.len()].1.contains(
                    cx,
                    cy,
                ));
            }
        }

        assert forall|k1: int, k2: int|
            0 <= k1 < panes.len() && 0 <= k2 < panes.len() && k1 != k2
                implies (#[trigger] panes[k1]).1.disjoint((#[trigger] panes[k2]).1) by {
            let r1 = panes[k1].1;
            let r2 = panes[k2].1;
            if k1 < hs.len() && k2 < hs.len() {
                assert(panes[k1] == hs[k1]);
                assert(panes[k2] == hs[k2]);
            } else if k1 >= hs.len() && k2 >= hs.len() {
                assert(panes[k1] == ts[k1 - hs.len()]);
                assert(panes[k2] == ts[k2 - hs.len()]);
            } else if k1 < hs.len() {
                assert(panes[k1] == hs[k1]);
                assert(panes[k2] == ts[k2 - hs.len()]);
                assert(r1.inside(s1) && r2.inside(region2));
                assert forall|cx: int, cy: int| !(r1.contains(cx, cy) && r2.contains(cx, cy)) by {
                    if r1.contains(cx, cy) && r2.contains(cx, cy) {
                        assert(s1.contains(cx, cy));
                        assert(region2.contains(cx, cy));
                    }
                }
                assert(r1.disjoint(r2));
            } else {
                assert(panes[k1] == ts[k1 - hs.len()]);
                assert(panes[k2] == hs[k2]);
                assert(r2.inside(s1) && r1.inside(region2));
                assert forall|cx: int, cy: int| !(r1.contains(cx, cy) && r2.contains(cx, cy)) by {
                    if r1.contains(cx, cy) && r2.contains(cx, cy) {
                        assert(s1.contains(cx, cy));
                        assert(region2.contains(cx, cy));
                    }
                }
                assert(r1.disjoint(r2));
            }
        }
    }
}

/// The layout engine is deterministic: the computed layout is a pure
/// function of the tree and the bounds, so equal inputs always give equal
/// rectangle sequences.
pub proof fn lemma_compute_deterministic(t1: LayoutTree, b1: Rect, t2: LayoutTree, b2: Rect)
    requires
        t1 == t2,
        b1 == b2,
    ensures
        spec_compute(t1, b1) == spec_compute(t2, b2),
{
}

/// Check a tree for validity: the executable mirror of `LayoutTree::wf`,
/// for callers that receive a tree from outside.
#[verifier::loop_isolation(false)]
pub fn is_well_formed(tree: &LayoutTree) -> (r: bool)
    ensures
        r == tree.wf(),
    decreases *tree,
{
    match tree {
        LayoutTree::Pane { .. } => true,
        LayoutTree::Split { children, .. } => {
            if children.len() < 1 || children.len() > 0xFFFF {
                return false;
            }
            let mut j: usize = 0;
            while j < children.len()
                invariant
                    j <= children@.len(),
                    1 <= children@.len() <= 0xFFFF,
                    forall|k: int| 0 <= k < j ==> (#[trigger] children@[k]).wf(),
                decreases children@.len() - j,
            {
                if children[j].weight < 1 {
                    proof {
                        assert(!children@[j as int].wf());
                    }
                    return false;
                }
                proof {
                    assert(decreases_to!(children@ => children@[j as int]));
                    assert(decreases_to!(children@[j as int] => children@[j as int].tree));
                }
                if !is_well_formed(&children[j].tree) {
                    proof {
                        assert(!children@[j as int].wf());
                    }
                    return false;
                }
                j += 1;
            }
            true
        },
    }
}

} // verus!
