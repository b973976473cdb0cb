//! Mines built from groups of patches, and their batching by scanning in
//! bands across the map from the base's edge.

use vstd::prelude::*;
use crate::surface::vpatch::VPatch;
use crate::surface::varea::{VArea, area_contains, area_wf};
use crate::surface::vpoint::{VPoint, vpoint_at};
use crate::surface::direction::RailDirection;

verus! {

/// A mine: the patches it covers, by index into the surface's patches, and
/// the area around them.
pub struct MineBase {
    pub patch_indexes: Vec<usize>,
    pub area: VArea,
}

impl MineBase {
    /// The patches of this mine, in order.
    pub fn get_vpatches(&self, patches: &Vec<VPatch>) -> (r: Vec<VPatch>)
        requires
            forall|i: int| 0 <= i < self.patch_indexes@.len() ==> #[trigger] self.patch_indexes@[i] < patches@.len(),
        ensures
            r@.len() == self.patch_indexes@.len(),
            forall|i: int| 0 <= i < r@.len() ==> #[trigger] r@[i] == patches@[self.patch_indexes@[i] as int],
    {
        let mut r: Vec<VPatch> = Vec::new();
        let mut i: usize = 0;
        while i < self.patch_indexes.len()
            invariant
                i <= self.patch_indexes@.len(),
                forall|k: int| 0 <= k < self.patch_indexes@.len() ==> #[trigger] self.patch_indexes@[k] < patches@.len(),
                r@.len() == i,
                forall|k: int| 0 <= k < r@.len() ==> #[trigger] r@[k] == patches@[self.patch_indexes@[k] as int],
            decreases self.patch_indexes@.len() - i,
        {
            r.push(patches[self.patch_indexes[i]]);
            i += 1;
        }
        r
    }
}

/// Rail grid steps a scan band is wide.
pub const PERPENDICULAR_SCAN_WIDTH: u32 = 20;

/// Tiles a scan band is wide: 20 steps of 16 tiles.
pub const SCAN_BAND_TILES: i64 = 320;

/// Largest coordinate the scan works with. Bands and their search areas
/// reach a few band widths beyond the mines' bounding area and are computed
/// in `i64`, so a limit of 2^29 keeps every band coordinate well inside
/// `i32`. A surface reaching that far would hold 2^60 tiles, far beyond
/// what any machine can allocate, so no real map is left out.
pub const SCAN_COORDINATE_LIMIT: i64 = 536870912;

/// A batch of mines found in one scan band: the mines, ordered by their
/// left edge, whether the positive eighth of the base serves them, the
/// direction rails leave the base, and the area their paths may use.
pub struct MineBaseBatch {
    pub mines: Vec<MineBase>,
    pub positive_side: bool,
    pub base_direction: RailDirection,
    pub batch_search_area: VArea,
}

/// The scan band of scan `t`: bands 1, -1, 2, -2 and so on, positive bands
/// going up from the base's edge line and negative ones down.
pub open spec fn scan_index(t: int) -> int {
    if t % 2 == 0 { t / 2 + 1 } else { -(t / 2 + 1) }
}

/// Row where band `s` starts.
pub open spec fn scan_start_y(s: int) -> int {
    if s > 0 { -SCAN_BAND_TILES * (s - 1) } else { SCAN_BAND_TILES * (-s - 1) }
}

/// Row where band `s` ends, one band width further.
pub open spec fn scan_end_y(s: int) -> int {
    if s > 0 { scan_start_y(s) - SCAN_BAND_TILES } else { scan_start_y(s) + SCAN_BAND_TILES }
}

/// Column where every band ends: in grid steps of 16 tiles from the edge
/// line, one step past the first outside the bounding area, and one more.
pub open spec fn scan_end_x(bound: VArea, edge: int) -> int {
    edge + 16 * ((bound.end.x - edge) / 16 + 1) + 16
}

/// Whether a column and row lie in the area.
pub open spec fn contains_xy(a: VArea, x: int, y: int) -> bool {
    a.start.x <= x <= a.end.x && a.start.y <= y <= a.end.y
}

/// Whether band `s` starts and ends inside the bounding area.
pub open spec fn scan_ok(bound: VArea, edge: int, s: int) -> bool {
    contains_xy(bound, edge, scan_start_y(s)) && contains_xy(bound, edge, scan_end_y(s))
}

pub open spec fn min2(a: int, b: int) -> int { if a <= b { a } else { b } }

pub open spec fn max2(a: int, b: int) -> int { if a >= b { a } else { b } }

/// The area of band `s`: from its start on the edge line to its end.
pub open spec fn scan_area(bound: VArea, edge: int, s: int) -> VArea {
    VArea {
        start: vpoint_at(edge, min2(scan_start_y(s), scan_end_y(s))),
        end: vpoint_at(scan_end_x(bound, edge), max2(scan_start_y(s), scan_end_y(s))),
    }
}

/// The area the paths of band `s` may use: the band's corners widened by
/// three band widths up and down, and the base's next start `origin`.
pub open spec fn batch_area(bound: VArea, edge: int, s: int, origin: VPoint) -> VArea {
    let lo = min2(scan_start_y(s), scan_end_y(s)) - 3 * SCAN_BAND_TILES;
    let hi = max2(scan_start_y(s), scan_end_y(s)) + 3 * SCAN_BAND_TILES;
    VArea {
        start: vpoint_at(min2(edge, origin.x as int), min2(lo, origin.y as int)),
        end: vpoint_at(max2(scan_end_x(bound, edge), origin.x as int), max2(hi, origin.y as int)),
    }
}

/// The center of a mine's area.
pub open spec fn mine_center(m: MineBase) -> VPoint {
    vpoint_at(m.area.start.x + (m.area.end.x - m.area.start.x) / 2, m.area.start.y + (m.area.end.y - m.area.start.y) / 2)
}

/// Whether a mine's center lies in the area.
pub open spec fn mine_in(m: MineBase, a: VArea) -> bool {
    area_contains(a, mine_center(m))
}

/// The mines whose center lies in the area, in order.
pub open spec fn mines_taken(ms: Seq<MineBase>, a: VArea) -> Seq<MineBase>
    decreases ms.len(),
{
    if ms.len() == 0 {
        Seq::empty()
    } else if mine_in(ms.last(), a) {
        mines_taken(ms.drop_last(), a).push(ms.last())
    } else {
        mines_taken(ms.drop_last(), a)
    }
}

/// The mines whose center lies outside the area, in order.
pub open spec fn mines_kept(ms: Seq<MineBase>, a: VArea) -> Seq<MineBase>
    decreases ms.len(),
{
    if ms.len() == 0 {
        Seq::empty()
    } else if mine_in(ms.last(), a) {
        mines_kept(ms.drop_last(), a)
    } else {
        mines_kept(ms.drop_last(), a).push(ms.last())
    }
}

/// The area bounding every mine's area.
pub open spec fn mines_bound(ms: Seq<MineBase>) -> VArea
    decreases ms.len(),
{
    if ms.len() <= 1 {
        ms[0].area
    } else {
        let b = mines_bound(ms.drop_last());
        let a = ms.last().area;
        VArea {
            start: vpoint_at(min2(b.start.x as int, a.start.x as int), min2(b.start.y as int, a.start.y as int)),
            end: vpoint_at(max2(b.end.x as int, a.end.x as int), max2(b.end.y as int, a.end.y as int)),
        }
    }
}

/// The mines left after the first `t` bands took theirs.
pub open spec fn mines_left(ms: Seq<MineBase>, bound: VArea, edge: int, t: nat) -> Seq<MineBase>
    decreases t,
{
    if t == 0 {
        ms
    } else {
        mines_kept(mines_left(ms, bound, edge, (t - 1) as nat), scan_area(bound, edge, scan_index(t - 1)))
    }
}

/// The mines band `t` takes.
pub open spec fn mines_of_scan(ms: Seq<MineBase>, bound: VArea, edge: int, t: nat) -> Seq<MineBase> {
    mines_taken(mines_left(ms, bound, edge, t), scan_area(bound, edge, scan_index(t as int)))
}

/// Whether every coordinate stays well inside the `i32` range.
pub open spec fn small(v: int) -> bool {
    -SCAN_COORDINATE_LIMIT <= v <= SCAN_COORDINATE_LIMIT
}

/// Whether a mine's area is ordered and small.
pub open spec fn mine_ok(m: MineBase) -> bool {
    area_wf(m.area) && small(m.area.start.x as int) && small(m.area.start.y as int)
        && small(m.area.end.x as int) && small(m.area.end.y as int)
}

fn take_and_keep(ms: Vec<MineBase>, a: &VArea) -> (r: (Vec<MineBase>, Vec<MineBase>))
    requires
        forall|i: int| 0 <= i < ms@.len() ==> mine_ok(#[trigger] ms@[i]),
    ensures
        r.0@ == mines_taken(ms@, *a),
        r.1@ == mines_kept(ms@, *a),
        forall|i: int| 0 <= i < r.1@.len() ==> mine_ok(#[trigger] r.1@[i]),
{
    let ghost all = ms@;
    let mut taken: Vec<MineBase> = Vec::new();
    let mut kept: Vec<MineBase> = Vec::new();
    for m in it: ms
        invariant
            it.seq() == all,
            forall|i: int| 0 <= i < all.len() ==> mine_ok(#[trigger] all[i]),
            taken@ == mines_taken(all.take(it.index() as int), *a),
            kept@ == mines_kept(all.take(it.index() as int), *a),
            forall|i: int| 0 <= i < kept@.len() ==> mine_ok(#[trigger] kept@[i]),
    {
        let ghost idx = it.index() as int;
        proof {
            assert(all.take(idx + 1).drop_last() =~= all.take(idx));
            assert(all.take(idx + 1).last() == all[idx]);
            assert(m == all[idx]);
            assert(mine_ok(m));
        }
        let center = m.area.point_center();
        if a.contains_point(&center) {
            proof { assert(center == mine_center(m)); }
            taken.push(m);
        } else {
            proof { assert(center == mine_center(m)); }
            let ghost before = kept@;
            kept.push(m);
            proof {
                assert forall|i: int| 0 <= i < kept@.len() implies mine_ok(#[trigger] kept@[i]) by {
                    if i < before.len() { assert(kept@[i] == before[i]); }
                }
            }
        }
    }
    proof {
        assert(all.take(all.len() as int) =~= all);
    }
    (taken, kept)
}

/// Whether the mines are ordered by the left edge of their area.
pub open spec fn sorted_by_left(ms: Seq<MineBase>) -> bool {
    forall|a: int, b: int| 0 <= a < b < ms.len() ==> (#[trigger] ms[a]).area.start.x <= (#[trigger] ms[b]).area.start.x
}

/// The mines whose area has left edge `k`, in order.
pub open spec fn with_left(ms: Seq<MineBase>, k: i32) -> Seq<MineBase> {
    ms.filter(|m: MineBase| m.area.start.x == k)
}

/// Whether mines with equal left edges come in the same order in both.
pub open spec fn same_order_by_left(a: Seq<MineBase>, b: Seq<MineBase>) -> bool {
    forall|k: i32| #[trigger] with_left(a, k) == with_left(b, k)
}

proof fn lemma_with_left_empty(k: i32)
    ensures
        with_left(Seq::<MineBase>::empty(), k) == Seq::<MineBase>::empty(),
{
    Seq::<MineBase>::empty().lemma_filter_len(|m: MineBase| m.area.start.x == k);
}

/// Putting `m` in after every mine whose left edge is at most its own, and
/// before every mine whose left edge is larger, adds it at the end of the
/// mines with its left edge.
proof fn lemma_with_left_insert(before: Seq<MineBase>, q: int, m: MineBase)
    requires
        0 <= q <= before.len(),
        forall|a: int| 0 <= a < q ==> (#[trigger] before[a]).area.start.x <= m.area.start.x,
        forall|a: int| q <= a < before.len() ==> m.area.start.x < (#[trigger] before[a]).area.start.x,
    ensures
        forall|k: i32| #[trigger] with_left(before.insert(q, m), k)
            == if k == m.area.start.x { with_left(before, k).push(m) } else { with_left(before, k) },
{
    assert forall|k: i32| #[trigger] with_left(before.insert(q, m), k)
        == if k == m.area.start.x { with_left(before, k).push(m) } else { with_left(before, k) } by {
        let head = before.take(q);
        let tail = before.skip(q);
        let p = |x: MineBase| x.area.start.x == k;
        assert(before =~= head + tail);
        assert(before.insert(q, m) =~= head.push(m) + tail);
        lemma_with_left_empty(k);
        Seq::filter_distributes_over_add(head, tail, p);
        Seq::filter_distributes_over_add(head.push(m), tail, p);
        head.lemma_filter_push(m, p);
        if k == m.area.start.x {
            tail.lemma_all_neg_filter_empty(p);
            assert(tail.filter(p) =~= Seq::<MineBase>::empty());
            assert(with_left(before, k) =~= head.filter(p));
        }
    }
}

fn sort_by_left(ms: Vec<MineBase>) -> (r: Vec<MineBase>)
    ensures
        r@.to_multiset() == ms@.to_multiset(),
        sorted_by_left(r@),
        same_order_by_left(r@, ms@),
{
    broadcast use vstd::seq_lib::group_to_multiset_ensures;
    let ghost all = ms@;
    let mut out: Vec<MineBase> = Vec::new();
    proof {
        assert(all.take(0) =~= Seq::<MineBase>::empty());
        assert forall|k: i32| #[trigger] with_left(out@, k) == with_left(all.take(0), k) by {
            lemma_with_left_empty(k);
            assert(out@ =~= Seq::<MineBase>::empty());
        }
    }
    for m in it: ms
        invariant
            it.seq() == all,
            out@.to_multiset() == all.take(it.index() as int).to_multiset(),
            sorted_by_left(out@),
            same_order_by_left(out@, all.take(it.index() as int)),
    {
        let ghost idx = it.index() as int;
        let x = m.area.start.x;
        let mut q: usize = 0;
        while q < out.len() && out[q].area.start.x <= x
            invariant
                q <= out@.len(),
                forall|a: int| 0 <= a < q ==> (#[trigger] out@[a]).area.start.x <= x,
            decreases out@.len() - q,
        {
            q += 1;
        }
        let ghost before = out@;
        proof {
            assert forall|a: int| q <= a < before.len() implies x < (#[trigger] before[a]).area.start.x by {
                assert(before[q as int].area.start.x > x);
                if a > q {
                    assert(before[q as int].area.start.x <= before[a].area.start.x);
                }
            }
        }
        out.insert(q, m);
        proof {
            let now = out@;
            assert(now == before.insert(q as int, m));
            vstd::seq_lib::to_multiset_insert(before, q as int, m);
            assert(all.take(idx + 1) =~= all.take(idx).push(all[idx]));
            assert(m == all[idx]);
            vstd::seq_lib::to_multiset_build(all.take(idx), m);
            lemma_with_left_insert(before, q as int, m);
            assert forall|k: i32| #[trigger] with_left(now, k) == with_left(all.take(idx + 1), k) by {
                all.take(idx).lemma_filter_push(m, |x: MineBase| x.area.start.x == k);
                assert(with_left(before, k) == with_left(all.take(idx), k));
            }
            assert forall|a: int, b: int| 0 <= a < b < now.len() implies
                (#[trigger] now[a]).area.start.x <= (#[trigger] now[b]).area.start.x by {
                if b < q {
                    assert(now[a] == before[a] && now[b] == before[b]);
                } else if b == q {
                    assert(now[a] == before[a]);
                } else if a < q {
                    assert(now[a] == before[a] && now[b] == before[b - 1]);
                } else if a == q {
                    assert(now[b] == before[b - 1]);
                } else {
                    assert(now[a] == before[a - 1] && now[b] == before[b - 1]);
                }
            }
        }
    }
    proof {
        assert(all.take(all.len() as int) =~= all);
    }
    out
}

fn bound_of(ms: &Vec<MineBase>) -> (r: VArea)
    requires
        ms@.len() > 0,
        forall|i: int| 0 <= i < ms@.len() ==> mine_ok(#[trigger] ms@[i]),
    ensures
        r == mines_bound(ms@),
        area_wf(r),
        small(r.start.x as int) && small(r.start.y as int) && small(r.end.x as int) && small(r.end.y as int),
{
    let mut b = ms[0].area;
    let mut i: usize = 1;
    proof { assert(mine_ok(ms@[0])); }
    while i < ms.len()
        invariant
            1 <= i <= ms@.len(),
            forall|k: int| 0 <= k < ms@.len() ==> mine_ok(#[trigger] ms@[k]),
            b == mines_bound(ms@.take(i as int)),
            area_wf(b),
            small(b.start.x as int) && small(b.start.y as int) && small(b.end.x as int) && small(b.end.y as int),
        decreases ms@.len() - i,
    {
        let a = ms[i].area;
        proof {
            assert(mine_ok(ms@[i as int]));
            assert(ms@.take(i + 1).drop_last() =~= ms@.take(i as int));
            assert(ms@.take(i + 1).last() == ms@[i as int]);
        }
        b = VArea {
            start: VPoint::new(
                if a.start.x < b.start.x { a.start.x } else { b.start.x },
                if a.start.y < b.start.y { a.start.y } else { b.start.y },
            ),
            end: VPoint::new(
                if a.end.x > b.end.x { a.end.x } else { b.end.x },
                if a.end.y > b.end.y { a.end.y } else { b.end.y },
            ),
        };
        i = i + 1;
    }
    proof {
        assert(ms@.take(ms@.len() as int) =~= ms@);
        assert(ms@.take(1).len() == 1);
    }
    b
}

/// Splitting mines by an area loses none and makes none up: the mines
/// taken lie in the area, the mines kept lie outside it, and together they
/// are the mines given.
pub proof fn law_take_keep_partition(ms: Seq<MineBase>, a: VArea)
    ensures
        forall|i: int| 0 <= i < mines_taken(ms, a).len() ==> mine_in(#[trigger] mines_taken(ms, a)[i], a),
        forall|i: int| 0 <= i < mines_kept(ms, a).len() ==> !mine_in(#[trigger] mines_kept(ms, a)[i], a),
        mines_taken(ms, a).to_multiset().add(mines_kept(ms, a).to_multiset()) == ms.to_multiset(),
    decreases ms.len(),
{
    broadcast use vstd::seq_lib::group_to_multiset_ensures;
    broadcast use vstd::multiset::group_multiset_axioms;
    if ms.len() > 0 {
        let rest = ms.drop_last();
        law_take_keep_partition(rest, a);
        assert(ms =~= rest.push(ms.last()));
        vstd::seq_lib::to_multiset_build(rest, ms.last());
        if mine_in(ms.last(), a) {
            vstd::seq_lib::to_multiset_build(mines_taken(rest, a), ms.last());
        } else {
            vstd::seq_lib::to_multiset_build(mines_kept(rest, a), ms.last());
        }
        assert(mines_taken(ms, a).to_multiset().add(mines_kept(ms, a).to_multiset()) =~= ms.to_multiset());
    } else {
        assert(ms.to_multiset() =~= vstd::multiset::Multiset::empty());
        assert(mines_taken(ms, a).to_multiset() =~= vstd::multiset::Multiset::empty());
        assert(mines_kept(ms, a).to_multiset() =~= vstd::multiset::Multiset::empty());
    }
}

/// Whether `r` are the scan bands over `mines` from the base's edge line at
/// column `edge`: the bands in scan order up to the first that starts or
/// ends outside the mines' bounding area, each with the mines left whose
/// center lies in it, ordered by left edge (equal left edges in their
/// order), its side, direction and search area.
pub open spec fn scanned_bands(mines: Seq<MineBase>, edge: int, positive_origin: VPoint, negative_origin: VPoint, r: Seq<MineBaseBatch>) -> bool {
    let bound = mines_bound(mines);
    &&& forall|t: int| 0 <= t < r.len() ==> #[trigger] scan_ok(bound, edge, scan_index(t))
    &&& !scan_ok(bound, edge, scan_index(r.len() as int))
    &&& forall|t: int| 0 <= t < r.len() ==> {
        &&& (#[trigger] r[t]).mines@.to_multiset() == mines_of_scan(mines, bound, edge, t as nat).to_multiset()
        &&& sorted_by_left(r[t].mines@)
        &&& same_order_by_left(r[t].mines@, mines_of_scan(mines, bound, edge, t as nat))
        &&& r[t].positive_side == (scan_index(t) < 0)
        &&& r[t].base_direction == RailDirection::Right
        &&& r[t].batch_search_area == batch_area(bound, edge, scan_index(t),
            if scan_index(t) < 0 { positive_origin } else { negative_origin })
    }
}

/// Batches of mines by scanning bands across the map: band 1 upwards from
/// the base's edge line at column `base_edge`, then band -1 downwards, then
/// 2, -2 and so on, each 20 grid steps wide and reaching one step past the
/// mines' bounding area, until a band starts or ends outside that area.
/// Each band takes the mines left whose center lies in it, ordered by their
/// left edge; mines with the same left edge keep their order. Bands going
/// up are served by the negative eighth of the base, whose next start is
/// `negative_origin`; bands going down by the positive one, at
/// `positive_origin`.
#[verifier::spinoff_prover]
#[verifier::rlimit(40)]
pub fn patches_by_cross_sign_expanding(
    mines: Vec<MineBase>,
    base_edge: i32,
    positive_origin: VPoint,
    negative_origin: VPoint,
) -> (r: Vec<MineBaseBatch>)
    requires
        mines@.len() > 0,
        forall|i: int| 0 <= i < mines@.len() ==> mine_ok(#[trigger] mines@[i]),
        small(base_edge as int),
        small(positive_origin.x as int) && small(positive_origin.y as int),
        small(negative_origin.x as int) && small(negative_origin.y as int),
    ensures
        scanned_bands(mines@, base_edge as int, positive_origin, negative_origin, r@),
{
    let bound = bound_of(&mines);
    let ghost all = mines@;
    let ghost edge = base_edge as int;
    let e: i64 = base_edge as i64;
    let mut remaining = mines;
    let mut batches: Vec<MineBaseBatch> = Vec::new();
    let mut t: u64 = 0;
    loop
        invariant
            bound == mines_bound(all),
            area_wf(bound),
            small(bound.start.x as int) && small(bound.start.y as int) && small(bound.end.x as int) && small(bound.end.y as int),
            e == base_edge as int,
            edge == base_edge as int,
            small(e as int),
            small(positive_origin.x as int) && small(positive_origin.y as int),
            small(negative_origin.x as int) && small(negative_origin.y as int),
            t <= 4000000,
            batches@.len() == t,
            remaining@ == mines_left(all, bound, edge, t as nat),
            forall|i: int| 0 <= i < remaining@.len() ==> mine_ok(#[trigger] remaining@[i]),
            forall|k: int| 0 <= k < t ==> #[trigger] scan_ok(bound, edge, scan_index(k)),
            forall|k: int| 0 <= k < t ==> {
                &&& (#[trigger] batches@[k]).mines@.to_multiset() == mines_of_scan(all, bound, edge, k as nat).to_multiset()
                &&& sorted_by_left(batches@[k].mines@)
                &&& same_order_by_left(batches@[k].mines@, mines_of_scan(all, bound, edge, k as nat))
                &&& batches@[k].positive_side == (scan_index(k) < 0)
                &&& batches@[k].base_direction == RailDirection::Right
                &&& batches@[k].batch_search_area == batch_area(bound, edge, scan_index(k),
                    if scan_index(k) < 0 { positive_origin } else { negative_origin })
            },
        ensures
            !scan_ok(bound, edge, scan_index(batches@.len() as int)),
            forall|k: int| 0 <= k < batches@.len() ==> #[trigger] scan_ok(bound, edge, scan_index(k)),
            forall|k: int| 0 <= k < batches@.len() ==> {
                &&& (#[trigger] batches@[k]).mines@.to_multiset() == mines_of_scan(all, bound, edge, k as nat).to_multiset()
                &&& sorted_by_left(batches@[k].mines@)
                &&& same_order_by_left(batches@[k].mines@, mines_of_scan(all, bound, edge, k as nat))
                &&& batches@[k].positive_side == (scan_index(k) < 0)
                &&& batches@[k].base_direction == RailDirection::Right
                &&& batches@[k].batch_search_area == batch_area(bound, edge, scan_index(k),
                    if scan_index(k) < 0 { positive_origin } else { negative_origin })
            },
        decreases 4000000 - t,
    {
        let half: i64 = (t / 2) as i64;
        assert(0 <= half <= 2000000);
        let upwards = t % 2 == 0;
        let band: i64 = SCAN_BAND_TILES * half;
        assert(0 <= band <= 640000000) by (nonlinear_arith)
            requires band == 320 * half, 0 <= half <= 2000000;
        let start_y: i64 = if upwards { 0 - band } else { band };
        let end_y: i64 = if upwards { start_y - SCAN_BAND_TILES } else { start_y + SCAN_BAND_TILES };
        proof {
            assert(scan_start_y(scan_index(t as int)) == start_y);
            assert(scan_end_y(scan_index(t as int)) == end_y);
        }
        let inside_start = bound.start.x as i64 <= e && e <= bound.end.x as i64
            && bound.start.y as i64 <= start_y && start_y <= bound.end.y as i64;
        let inside_end = bound.start.x as i64 <= e && e <= bound.end.x as i64
            && bound.start.y as i64 <= end_y && end_y <= bound.end.y as i64;
        if !(inside_start && inside_end) {
            break;
        }
        proof {
            assert(half <= 1677721);
        }
        let end_x: i64 = e + 16 * ((bound.end.x as i64 - e) / 16 + 1) + 16;
        proof {
            assert(end_x == scan_end_x(bound, edge));
        }
        let lo: i64 = if start_y <= end_y { start_y } else { end_y };
        let hi: i64 = if start_y >= end_y { start_y } else { end_y };
        let area = VArea { start: VPoint::new(base_edge, lo as i32), end: VPoint::new(end_x as i32, hi as i32) };
        proof {
            assert(area == scan_area(bound, edge, scan_index(t as int)));
        }
        let ghost left = remaining@;
        let (taken, kept) = take_and_keep(remaining, &area);
        remaining = kept;
        let sorted = sort_by_left(taken);
        let origin = if upwards { negative_origin } else { positive_origin };
        let wide_lo: i64 = lo - 3 * SCAN_BAND_TILES;
        let wide_hi: i64 = hi + 3 * SCAN_BAND_TILES;
        let batch_search_area = VArea {
            start: VPoint::new(
                if e <= origin.x as i64 { base_edge } else { origin.x },
                if wide_lo <= origin.y as i64 { wide_lo as i32 } else { origin.y },
            ),
            end: VPoint::new(
                if end_x >= origin.x as i64 { end_x as i32 } else { origin.x },
                if wide_hi >= origin.y as i64 { wide_hi as i32 } else { origin.y },
            ),
        };
        proof {
            assert(batch_search_area == batch_area(bound, edge, scan_index(t as int),
                if scan_index(t as int) < 0 { positive_origin } else { negative_origin }));
            assert(mines_left(all, bound, edge, (t + 1) as nat) == mines_kept(left, area));
            assert(mines_of_scan(all, bound, edge, t as nat) == mines_taken(left, area));
        }
        let ghost before = batches@;
        batches.push(MineBaseBatch {
            mines: sorted,
            positive_side: !upwards,
            base_direction: RailDirection::Right,
            batch_search_area,
        });
        proof {
            assert forall|k: int| 0 <= k < t + 1 implies #[trigger] scan_ok(bound, edge, scan_index(k)) by {
                if k == t {
                } else {
                    assert(scan_ok(bound, edge, scan_index(k)));
                }
            }
            assert forall|k: int| 0 <= k < t + 1 implies {
                &&& (#[trigger] batches@[k]).mines@.to_multiset() == mines_of_scan(all, bound, edge, k as nat).to_multiset()
                &&& sorted_by_left(batches@[k].mines@)
                &&& same_order_by_left(batches@[k].mines@, mines_of_scan(all, bound, edge, k as nat))
                &&& batches@[k].positive_side == (scan_index(k) < 0)
                &&& batches@[k].base_direction == RailDirection::Right
                &&& batches@[k].batch_search_area == batch_area(bound, edge, scan_index(k),
                    if scan_index(k) < 0 { positive_origin } else { negative_origin })
            } by {
                if k < t {
                    assert(batches@[k] == before[k]);
                }
            }
        }
        t = t + 1;
    }
    batches
}


/// Most mines in one batch: every order of a batch is tried, and 6! = 720
/// orders already take long.
pub const MAXIMUM_MINE_COUNT_PER_BATCH: usize = 5;

/// What grouping mines into batches gives: the batches, or the first scan
/// band that found no mine.
pub enum MineBaseBatchResult {
    Success { batches: Vec<MineBaseBatch> },
    EmptyBatch { batch: MineBaseBatch },
}

impl MineBaseBatchResult {
    /// The batches, if there was no empty band.
    pub fn into_success(self) -> (r: Option<Vec<MineBaseBatch>>)
        ensures
            self matches MineBaseBatchResult::Success { batches } ==> r == Some(batches),
            self is EmptyBatch ==> r is None,
    {
        match self {
            MineBaseBatchResult::Success { batches } => Some(batches),
            MineBaseBatchResult::EmptyBatch { .. } => None,
        }
    }
}

/// A batch as plain values: its mines, side, direction and search area.
pub open spec fn batch_view(b: MineBaseBatch) -> (Seq<MineBase>, bool, RailDirection, VArea) {
    (b.mines@, b.positive_side, b.base_direction, b.batch_search_area)
}

/// The batches as plain values.
pub open spec fn batches_view(bs: Seq<MineBaseBatch>) -> Seq<(Seq<MineBase>, bool, RailDirection, VArea)> {
    bs.map_values(|b: MineBaseBatch| batch_view(b))
}

/// Number of pieces of at most five that `n` mines make.
pub open spec fn piece_count(n: int) -> int {
    (n + 4) / 5
}

/// The batch cut into consecutive pieces of five mines, the last one
/// holding what is left; each piece keeps the batch's side, direction and
/// search area.
pub open spec fn batch_pieces(b: (Seq<MineBase>, bool, RailDirection, VArea)) -> Seq<(Seq<MineBase>, bool, RailDirection, VArea)> {
    Seq::new(piece_count(b.0.len() as int) as nat, |p: int| {
        let end = if 5 * p + 5 <= b.0.len() { 5 * p + 5 } else { b.0.len() as int };
        (b.0.subrange(5 * p, end), b.1, b.2, b.3)
    })
}

/// All batches cut into pieces, in order.
pub open spec fn split_batches_spec(bs: Seq<(Seq<MineBase>, bool, RailDirection, VArea)>) -> Seq<(Seq<MineBase>, bool, RailDirection, VArea)>
    decreases bs.len(),
{
    if bs.len() == 0 {
        Seq::empty()
    } else {
        split_batches_spec(bs.drop_last()) + batch_pieces(bs.last())
    }
}

/// The batch cut into pieces of at most five mines.
fn cut_batch(batch: MineBaseBatch) -> (r: Vec<MineBaseBatch>)
    requires
        batch.mines@.len() > 0,
    ensures
        batches_view(r@) == batch_pieces(batch_view(batch)),
{
    let ghost all = batch.mines@;
    let ghost want = batch_pieces(batch_view(batch));
    let positive_side = batch.positive_side;
    let base_direction = batch.base_direction;
    let batch_search_area = batch.batch_search_area;
    let mut out: Vec<MineBaseBatch> = Vec::new();
    let mut cur: Vec<MineBase> = Vec::new();
    for m in it: batch.mines
        invariant
            it.seq() == all,
            all.len() > 0,
            want == batch_pieces(batch_view(batch)),
            positive_side == batch.positive_side,
            base_direction == batch.base_direction,
            batch_search_area == batch.batch_search_area,
            it.index() == 5 * out@.len() + cur@.len(),
            cur@.len() < 5,
            cur@ == all.subrange(5 * out@.len() as int, it.index() as int),
            forall|p: int| 0 <= p < out@.len() ==> #[trigger] batch_view(out@[p]) == want[p],
            out@.len() <= piece_count(all.len() as int),
            it.index() < all.len() ==> out@.len() < piece_count(all.len() as int),
    {
        let ghost i = it.index() as int;
        cur.push(m);
        proof {
            assert(cur@ =~= all.subrange(5 * out@.len() as int, i + 1));
        }
        if cur.len() == 5 {
            let ghost p = out@.len() as int;
            let mut piece: Vec<MineBase> = Vec::new();
            std::mem::swap(&mut piece, &mut cur);
            let ghost before = out@;
            out.push(MineBaseBatch { mines: piece, positive_side, base_direction, batch_search_area });
            proof {
                assert(5 * p + 5 <= all.len());
                assert(batch_view(out@[p]) == want[p]);
                assert forall|q: int| 0 <= q < out@.len() implies #[trigger] batch_view(out@[q]) == want[q] by {
                    if q < p {
                        assert(out@[q] == before[q]);
                    }
                }
            }
        }
    }
    if cur.len() > 0 {
        let ghost p = out@.len() as int;
        let ghost before = out@;
        out.push(MineBaseBatch { mines: cur, positive_side, base_direction, batch_search_area });
        proof {
            assert(batch_view(out@[p]) == want[p]);
            assert forall|q: int| 0 <= q < out@.len() implies #[trigger] batch_view(out@[q]) == want[q] by {
                if q < p {
                    assert(out@[q] == before[q]);
                }
            }
        }
    }
    proof {
        assert(out@.len() == piece_count(all.len() as int));
        assert(batches_view(out@) =~= want);
    }
    out
}

/// Cuts each batch with more than five mines into pieces of five (the last
/// piece holding the rest), keeping the order; stops at the first batch
/// with no mine and gives that one back.
pub fn split_batches(batches: Vec<MineBaseBatch>) -> (r: MineBaseBatchResult)
    ensures
        r is Success <==> forall|i: int| 0 <= i < batches@.len() ==> (#[trigger] batches@[i]).mines@.len() > 0,
        r matches MineBaseBatchResult::Success { batches: out } ==> batches_view(out@) == split_batches_spec(batches_view(batches@)),
        r matches MineBaseBatchResult::EmptyBatch { batch } ==> exists|j: int| #![trigger batches@[j]] {
            &&& 0 <= j < batches@.len()
            &&& batch_view(batch) == batch_view(batches@[j])
            &&& batch.mines@.len() == 0
            &&& forall|i: int| 0 <= i < j ==> (#[trigger] batches@[i]).mines@.len() > 0
        },
{
    let ghost all = batches@;
    let mut out: Vec<MineBaseBatch> = Vec::new();
    for b in it: batches
        invariant
            it.seq() == all,
            forall|i: int| 0 <= i < it.index() ==> (#[trigger] all[i]).mines@.len() > 0,
            batches_view(out@) == split_batches_spec(batches_view(all.take(it.index() as int))),
    {
        let ghost i = it.index() as int;
        if b.mines.len() == 0 {
            proof {
                assert(all[i] == b);
            }
            return MineBaseBatchResult::EmptyBatch { batch: b };
        }
        let ghost prev = out@;
        let ghost vb = batch_view(b);
        let pieces = cut_batch(b);
        let mut pieces = pieces;
        out.append(&mut pieces);
        proof {
            let vs = batches_view(all.take(i + 1));
            assert(all.take(i + 1).drop_last() =~= all.take(i));
            assert(batches_view(all.take(i + 1)).drop_last() =~= batches_view(all.take(i)));
            assert(vs.last() == vb);
            assert(batches_view(out@) =~= batches_view(prev) + batch_pieces(vb));
        }
    }
    proof {
        assert(all.take(all.len() as int) =~= all);
    }
    MineBaseBatchResult::Success { batches: out }
}

/// Batches of at most five mines: the scan bands of
/// `patches_by_cross_sign_expanding`, each cut into pieces of five; gives
/// back the first band that found no mine instead, if there is one.
pub fn get_mine_bases_by_batch(
    mines: Vec<MineBase>,
    base_edge: i32,
    positive_origin: VPoint,
    negative_origin: VPoint,
) -> (r: MineBaseBatchResult)
    requires
        mines@.len() > 0,
        forall|i: int| 0 <= i < mines@.len() ==> mine_ok(#[trigger] mines@[i]),
        small(base_edge as int),
        small(positive_origin.x as int) && small(positive_origin.y as int),
        small(negative_origin.x as int) && small(negative_origin.y as int),
    ensures
        exists|bands: Seq<MineBaseBatch>| {
            &&& #[trigger] scanned_bands(mines@, base_edge as int, positive_origin, negative_origin, bands)
            &&& (r is Success <==> forall|i: int| 0 <= i < bands.len() ==> (#[trigger] bands[i]).mines@.len() > 0)
            &&& (r matches MineBaseBatchResult::Success { batches: out } ==> batches_view(out@) == split_batches_spec(batches_view(bands)))
            &&& (r matches MineBaseBatchResult::EmptyBatch { batch } ==> batch.mines@.len() == 0 && exists|j: int|
                    0 <= j < bands.len() && batch_view(batch) == batch_view(#[trigger] bands[j]))
        },
{
    let bands = patches_by_cross_sign_expanding(mines, base_edge, positive_origin, negative_origin);
    let ghost b = bands@;
    let r = split_batches(bands);
    proof {
        assert(scanned_bands(mines@, base_edge as int, positive_origin, negative_origin, b));
    }
    r
}

} // verus!
