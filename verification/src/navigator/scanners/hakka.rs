//! Iterative scanner over squares of the surface: it steps sideways square
//! by square from the far side back towards the origin, then advances one
//! row and starts over, reporting the mines found in each square.

use vstd::prelude::*;
use crate::surface::direction::{FacDirectionQuarter, move_direction_int, quarter_moved};
use crate::surface::varea::{VArea, area_contains, min_int, max_int};
use crate::surface::vpoint::{VPoint, fits_i32, vpoint_at};
use crate::surface::vsurface::{VSurface, MineRef, out_of_bounds};

verus! {

/// Where scanning starts, the size of a square, and the two directions.
#[derive(Clone, Copy, PartialEq, Eq, Structural, Debug)]
pub struct HakkaBase {
    pub step_size: usize,
    pub origin: VPoint,
    pub direction_advancing: FacDirectionQuarter,
    pub direction_scanning: FacDirectionQuarter,
}

/// The scanner's position: the row reached, the square within the row, and
/// how many squares a row has.
pub struct Hakka {
    pub base: HakkaBase,
    pub advance_i: usize,
    pub scanning_i: usize,
    pub reset_scanning: usize,
    pub banned_mines: Vec<MineRef>,
}

/// A whole square, or its quarter nearest the start corner.
#[derive(Clone, Copy, PartialEq, Eq, Structural, Debug)]
pub enum PointAt {
    Normal,
    Reduced,
}

/// What a scan found.
pub enum HakkaResult {
    NoneFound,
    NewPatchesInScanArea { scanned_mines: Vec<MineRef>, scan_area: VArea },
}

/// Whether the scanner continues or has left the surface.
#[derive(Clone, Copy, PartialEq, Eq, Structural, Debug)]
pub enum HakkaFlow {
    Continue,
    Break,
}

/// `p` moved `n` tiles in direction `d`.
pub open spec fn moved(p: VPoint, d: FacDirectionQuarter, n: int) -> VPoint {
    vpoint_at(quarter_moved(p, d, n, 0).0, quarter_moved(p, d, n, 0).1)
}

/// Whether moving `p` by `n` in direction `d` stays in the `i32` range.
pub open spec fn moved_fits(p: VPoint, d: FacDirectionQuarter, n: int) -> bool {
    fits_i32(n) && fits_i32(quarter_moved(p, d, n, 0).0) && fits_i32(quarter_moved(p, d, n, 0).1)
}

/// Start corner of square `scanning` of row `advance`.
pub open spec fn square_start(b: HakkaBase, advance: int, scanning: int) -> VPoint {
    moved(moved(b.origin, b.direction_advancing, b.step_size * advance), b.direction_scanning, b.step_size * scanning)
}

/// Side length of a square, or of its reduced quarter.
pub open spec fn square_side(b: HakkaBase, at: PointAt) -> int {
    match at {
        PointAt::Normal => b.step_size as int,
        PointAt::Reduced => (b.step_size / 2) as int,
    }
}

/// Far corner of the square.
pub open spec fn square_end(b: HakkaBase, at: PointAt, advance: int, scanning: int) -> VPoint {
    let start = square_start(b, advance, scanning);
    moved(moved(start, b.direction_advancing, square_side(b, at)), b.direction_scanning, square_side(b, at))
}

/// The square as an area.
pub open spec fn square_area(b: HakkaBase, at: PointAt, advance: int, scanning: int) -> VArea {
    let s = square_start(b, advance, scanning);
    let e = square_end(b, at, advance, scanning);
    VArea {
        start: vpoint_at(min_int(s.x as int, e.x as int), min_int(s.y as int, e.y as int)),
        end: vpoint_at(max_int(s.x as int, e.x as int), max_int(s.y as int, e.y as int)),
    }
}

/// Whether all positions of the square stay in the `i32` range.
pub open spec fn square_fits(b: HakkaBase, at: PointAt, advance: int, scanning: int) -> bool {
    let a = moved(b.origin, b.direction_advancing, b.step_size * advance);
    let s = square_start(b, advance, scanning);
    let m = moved(s, b.direction_advancing, square_side(b, at));
    &&& moved_fits(b.origin, b.direction_advancing, b.step_size * advance)
    &&& moved_fits(a, b.direction_scanning, b.step_size * scanning)
    &&& moved_fits(s, b.direction_advancing, square_side(b, at))
    &&& moved_fits(m, b.direction_scanning, square_side(b, at))
}

/// Whether part of the area lies off the surface.
pub open spec fn area_leaves_surface(radius: int, a: VArea) -> bool {
    out_of_bounds(radius, a.start) || out_of_bounds(radius, a.end)
        || out_of_bounds(radius, VPoint { x: a.end.x, y: a.start.y })
        || out_of_bounds(radius, VPoint { x: a.start.x, y: a.end.y })
}

/// The first square of the first row, counting from `k`, that leaves the
/// surface; 100 when none below 100 does.
pub open spec fn first_square_off(b: HakkaBase, radius: int, k: nat) -> nat
    decreases 100 - k,
{
    if k >= 100 {
        100
    } else if area_leaves_surface(radius, square_area(b, PointAt::Normal, 0, k as int)) {
        k
    } else {
        first_square_off(b, radius, k + 1)
    }
}

/// Which square of the row the scanner looks at: counted from the far side
/// once the row is set up.
pub open spec fn scan_square(h: Hakka, is_init: bool) -> int {
    if is_init { h.scanning_i as int } else { h.reset_scanning - h.scanning_i }
}

fn move_usz(p: VPoint, d: FacDirectionQuarter, n: usize) -> (r: VPoint)
    requires
        moved_fits(p, d, n as int),
    ensures
        r == moved(p, d, n as int),
{
    move_direction_int(p, d, n as i32)
}

fn area_from_corners(s: VPoint, e: VPoint) -> (r: VArea)
    ensures
        r == (VArea {
            start: vpoint_at(min_int(s.x as int, e.x as int), min_int(s.y as int, e.y as int)),
            end: vpoint_at(max_int(s.x as int, e.x as int), max_int(s.y as int, e.y as int)),
        }),
{
    VArea::from_arbitrary_points_pair(s, e)
}

impl PointAt {
    /// The square while the scanner is being set up.
    pub fn area_at_init(&self, scanner: &Hakka) -> (r: VArea)
        requires
            square_fits(scanner.base, *self, scanner.advance_i as int, scanner.scanning_i as int),
            scanner.base.step_size * scanner.advance_i <= usize::MAX,
            scanner.base.step_size * scanner.scanning_i <= usize::MAX,
        ensures
            r == square_area(scanner.base, *self, scanner.advance_i as int, scanner.scanning_i as int),
    {
        self.area_of(scanner, true)
    }

    /// The square the scanner looks at.
    pub fn area_at(&self, scanner: &Hakka) -> (r: VArea)
        requires
            scanner.scanning_i <= scanner.reset_scanning,
            square_fits(scanner.base, *self, scanner.advance_i as int, scanner.reset_scanning - scanner.scanning_i),
            scanner.base.step_size * scanner.advance_i <= usize::MAX,
            scanner.base.step_size * (scanner.reset_scanning - scanner.scanning_i) <= usize::MAX,
        ensures
            r == square_area(scanner.base, *self, scanner.advance_i as int, scanner.reset_scanning - scanner.scanning_i),
    {
        self.area_of(scanner, false)
    }

    fn area_of(&self, scanner: &Hakka, is_init: bool) -> (r: VArea)
        requires
            is_init || scanner.scanning_i <= scanner.reset_scanning,
            square_fits(scanner.base, *self, scanner.advance_i as int, scan_square(*scanner, is_init)),
            scanner.base.step_size * scanner.advance_i <= usize::MAX,
            scanner.base.step_size * scan_square(*scanner, is_init) <= usize::MAX,
        ensures
            r == square_area(scanner.base, *self, scanner.advance_i as int, scan_square(*scanner, is_init)),
    {
        let b = scanner.base;
        let scanning: usize = if is_init {
            scanner.scanning_i
        } else {
            scanner.reset_scanning - scanner.scanning_i
        };
        let start = move_usz(
            move_usz(b.origin, b.direction_advancing, b.step_size * scanner.advance_i),
            b.direction_scanning,
            b.step_size * scanning,
        );
        let side: usize = match self {
            PointAt::Normal => b.step_size,
            PointAt::Reduced => b.step_size / 2,
        };
        let end = move_usz(move_usz(start, b.direction_advancing, side), b.direction_scanning, side);
        area_from_corners(start, end)
    }
}

fn leaves_surface(surface: &VSurface, a: &VArea) -> (r: bool)
    ensures
        r == area_leaves_surface(surface.spec_radius(), *a),
{
    let corners = a.get_corner_points();
    surface.is_point_out_of_bounds(&corners[0]) || surface.is_point_out_of_bounds(&corners[3])
        || surface.is_point_out_of_bounds(&corners[1]) || surface.is_point_out_of_bounds(&corners[2])
}

/// Whether the first row of squares can be laid out up to square 100.
pub open spec fn hakka_base_fits(b: HakkaBase) -> bool {
    &&& b.step_size * 101 <= i32::MAX
    &&& forall|k: int| 0 <= k <= 100 ==> #[trigger] square_fits(b, PointAt::Normal, 0, k)
}

impl Hakka {
    /// A scanner at the first row, with as many squares per row as fit on
    /// the surface. At least one and fewer than 100 must fit.
    pub fn new(base: HakkaBase, surface: &VSurface) -> (r: Self)
        requires
            hakka_base_fits(base),
            1 <= first_square_off(base, surface.spec_radius(), 0) < 100,
        ensures
            r.base == base,
            r.advance_i == 0,
            r.scanning_i == 0,
            r.reset_scanning == first_square_off(base, surface.spec_radius(), 0),
            r.banned_mines@.len() == 0,
    {
        let mut new = Hakka { base, advance_i: 0, scanning_i: 0, reset_scanning: 0, banned_mines: Vec::new() };
        let ghost radius = surface.spec_radius();
        loop
            invariant
                new.base == base,
                new.advance_i == 0,
                new.banned_mines@.len() == 0,
                new.scanning_i == new.reset_scanning,
                new.reset_scanning < 100,
                radius == surface.spec_radius(),
                hakka_base_fits(base),
                1 <= first_square_off(base, radius, 0) < 100,
                first_square_off(base, radius, 0) == first_square_off(base, radius, new.scanning_i as nat),
            ensures
                new.base == base,
                new.advance_i == 0,
                new.banned_mines@.len() == 0,
                new.reset_scanning == first_square_off(base, radius, 0),
            decreases 100 - new.scanning_i,
        {
            let ghost k = new.scanning_i;
            proof {
                assert(square_fits(base, PointAt::Normal, 0, k as int));
                assert(base.step_size * k <= 101 * base.step_size) by (nonlinear_arith)
                    requires k < 100;
            }
            let area = PointAt::Normal.area_at_init(&new);
            if leaves_surface(surface, &area) {
                proof {
                    assert(first_square_off(base, radius, k as nat) == k);
                }
                break;
            }
            proof {
                assert(first_square_off(base, radius, k as nat) == first_square_off(base, radius, (k + 1) as nat));
            }
            new.reset_scanning = new.reset_scanning + 1;
            new.scanning_i = new.scanning_i + 1;
            if new.reset_scanning >= 100 {
                proof {
                    assert(first_square_off(base, radius, 100) == 100);
                }
                break;
            }
        }
        new.scanning_i = 0;
        new
    }

    /// Back to the first square of the first row.
    pub fn reset(&mut self)
        ensures
            final(self).base == old(self).base,
            final(self).advance_i == 0,
            final(self).scanning_i == 0,
            final(self).reset_scanning == old(self).reset_scanning,
            final(self).banned_mines@ == old(self).banned_mines@,
    {
        self.advance_i = 0;
        self.scanning_i = 0;
    }

    /// To the next square; after the last square of a row, to the next row,
    /// stopping when its first square leaves the surface.
    pub fn increment(&mut self, surface: &VSurface) -> (r: HakkaFlow)
        requires
            old(self).scanning_i <= old(self).reset_scanning,
            old(self).scanning_i == old(self).reset_scanning ==> {
                &&& old(self).advance_i < usize::MAX
                &&& old(self).base.step_size * (old(self).advance_i + 1) <= usize::MAX
                &&& square_fits(old(self).base, PointAt::Normal, old(self).advance_i + 1, 0)
            },
        ensures
            final(self).base == old(self).base,
            final(self).reset_scanning == old(self).reset_scanning,
            final(self).banned_mines@ == old(self).banned_mines@,
            old(self).scanning_i < old(self).reset_scanning ==> {
                &&& final(self).advance_i == old(self).advance_i
                &&& final(self).scanning_i == old(self).scanning_i + 1
                &&& r == HakkaFlow::Continue
            },
            old(self).scanning_i == old(self).reset_scanning ==> {
                &&& final(self).advance_i == old(self).advance_i + 1
                &&& final(self).scanning_i == 0
                &&& (r == HakkaFlow::Break) == area_leaves_surface(
                    surface.spec_radius(),
                    square_area(old(self).base, PointAt::Normal, old(self).advance_i + 1, 0),
                )
            },
    {
        if self.scanning_i == self.reset_scanning {
            self.advance_i = self.advance_i + 1;
            self.scanning_i = 0;
            let next = PointAt::Normal.area_at_init(self);
            if leaves_surface(surface, &next) {
                return HakkaFlow::Break;
            }
        } else {
            self.scanning_i = self.scanning_i + 1;
        }
        HakkaFlow::Continue
    }
}

/// The coordinate of `p` on the axis of direction `d`.
pub open spec fn axis_value(p: VPoint, d: FacDirectionQuarter) -> int {
    match d {
        FacDirectionQuarter::North | FacDirectionQuarter::South => p.y as int,
        FacDirectionQuarter::East | FacDirectionQuarter::West => p.x as int,
    }
}

/// Distance between two integers.
pub open spec fn abs_diff(a: int, b: int) -> int {
    if a >= b { a - b } else { b - a }
}

/// How far a mine center lies from the origin, distance along the
/// advancing axis counting twice.
pub open spec fn scan_score(b: HakkaBase, center: VPoint) -> int {
    abs_diff(axis_value(center, b.direction_scanning), axis_value(b.origin, b.direction_scanning))
        + 2 * abs_diff(axis_value(center, b.direction_advancing), axis_value(b.origin, b.direction_advancing))
}

/// Positions, in order, of the mines below `n` whose center lies in `area`.
pub open spec fn mines_in_area(mines: Seq<(MineRef, VPoint)>, area: VArea, n: nat) -> Seq<int>
    decreases n,
{
    if n == 0 {
        Seq::empty()
    } else {
        mines_in_area(mines, area, (n - 1) as nat) + if area_contains(area, mines[n - 1].1) {
            seq![n - 1]
        } else {
            Seq::empty()
        }
    }
}

/// Whether mine `i` comes before mine `j`: higher score first, and among
/// equal scores the later mine first.
pub open spec fn scans_before(b: HakkaBase, mines: Seq<(MineRef, VPoint)>, i: int, j: int) -> bool {
    let si = scan_score(b, mines[i].1);
    let sj = scan_score(b, mines[j].1);
    si > sj || (si == sj && i > j)
}

/// Whether `ord` lists the positions of `found` in scan order.
pub open spec fn is_scan_order(b: HakkaBase, mines: Seq<(MineRef, VPoint)>, found: Seq<int>, ord: Seq<int>) -> bool {
    &&& ord.len() == found.len()
    &&& ord.no_duplicates()
    &&& forall|x: int| ord.contains(x) <==> found.contains(x)
    &&& forall|a: int, c: int| 0 <= a < c < ord.len() ==> scans_before(b, mines, #[trigger] ord[a], #[trigger] ord[c])
}

/// Whether position `x` is listed in `ord`.
pub open spec fn lists(ord: Seq<usize>, x: int) -> bool {
    exists|k: int| 0 <= k < ord.len() && ord[k] == x
}

proof fn lemma_scan_orders_agree_at(
    b: HakkaBase,
    mines: Seq<(MineRef, VPoint)>,
    found: Seq<int>,
    o1: Seq<int>,
    o2: Seq<int>,
    a: int,
)
    requires
        is_scan_order(b, mines, found, o1),
        is_scan_order(b, mines, found, o2),
        0 <= a < o1.len(),
    ensures
        o1[a] == o2[a],
    decreases a,
{
    assert forall|p: int| 0 <= p < a implies o1[p] == o2[p] by {
        lemma_scan_orders_agree_at(b, mines, found, o1, o2, p);
    }
    let x = o1[a];
    let y = o2[a];
    if x != y {
        assert(o2.contains(y));
        assert(found.contains(y));
        assert(o1.contains(y));
        let c = choose|c: int| 0 <= c < o1.len() && o1[c] == y;
        if c < a {
            assert(o2[c] == y);
        }
        assert(c > a);
        assert(scans_before(b, mines, o1[a], o1[c]));
        assert(o1.contains(x));
        assert(found.contains(x));
        assert(o2.contains(x));
        let d = choose|d: int| 0 <= d < o2.len() && o2[d] == x;
        if d < a {
            assert(o1[d] == x);
        }
        assert(d > a);
        assert(scans_before(b, mines, o2[a], o2[d]));
    }
}

/// There is only one scan order of a set of mines: the order a scan reports
/// is fully determined by the mines found.
pub proof fn law_scan_order_unique(
    b: HakkaBase,
    mines: Seq<(MineRef, VPoint)>,
    found: Seq<int>,
    o1: Seq<int>,
    o2: Seq<int>,
)
    requires
        is_scan_order(b, mines, found, o1),
        is_scan_order(b, mines, found, o2),
    ensures
        o1 == o2,
{
    assert forall|a: int| 0 <= a < o1.len() implies o1[a] == o2[a] by {
        lemma_scan_orders_agree_at(b, mines, found, o1, o2, a);
    }
    assert(o1 =~= o2);
}

fn scan_score_of(b: &HakkaBase, center: VPoint) -> (r: u64)
    requires
        scan_score(*b, center) <= u32::MAX,
    ensures
        r == scan_score(*b, center),
{
    let sc: i64 = match b.direction_scanning {
        FacDirectionQuarter::North | FacDirectionQuarter::South => center.y as i64 - b.origin.y as i64,
        FacDirectionQuarter::East | FacDirectionQuarter::West => center.x as i64 - b.origin.x as i64,
    };
    let ad: i64 = match b.direction_advancing {
        FacDirectionQuarter::North | FacDirectionQuarter::South => center.y as i64 - b.origin.y as i64,
        FacDirectionQuarter::East | FacDirectionQuarter::West => center.x as i64 - b.origin.x as i64,
    };
    let sa: u64 = if sc < 0 { (-sc) as u64 } else { sc as u64 };
    let aa: u64 = if ad < 0 { (-ad) as u64 } else { ad as u64 };
    sa + 2 * aa
}

impl Hakka {
    /// The mines whose center lies in the scanned square, farthest first.
    pub fn scan(&self, end_at: PointAt, mines: &Vec<(MineRef, VPoint)>) -> (r: HakkaResult)
        requires
            self.scanning_i <= self.reset_scanning,
            square_fits(self.base, end_at, self.advance_i as int, self.reset_scanning - self.scanning_i),
            self.base.step_size * self.advance_i <= usize::MAX,
            self.base.step_size * (self.reset_scanning - self.scanning_i) <= usize::MAX,
            forall|i: int| 0 <= i < mines@.len() ==> scan_score(self.base, #[trigger] mines@[i].1) <= u32::MAX,
        ensures
            ({
                let area = square_area(self.base, end_at, self.advance_i as int, self.reset_scanning - self.scanning_i);
                let found = mines_in_area(mines@, area, mines@.len());
                &&& (r is NoneFound <==> found.len() == 0)
                &&& (r matches HakkaResult::NewPatchesInScanArea { scanned_mines, scan_area } ==> {
                    &&& scan_area == area
                    &&& exists|ord: Seq<int>| is_scan_order(self.base, mines@, found, ord)
                        && scanned_mines@ == ord.map_values(|i: int| mines@[i].0)
                })
            }),
    {
        let scan_area = end_at.area_at(self);
        let ghost found = mines_in_area(mines@, scan_area, mines@.len());
        // positions in scan order
        let mut ord: Vec<usize> = Vec::new();
        let mut i: usize = 0;
        while i < mines.len()
            invariant
                i <= mines@.len(),
                forall|k: int| 0 <= k < mines@.len() ==> scan_score(self.base, #[trigger] mines@[k].1) <= u32::MAX,
                ord@.len() == mines_in_area(mines@, scan_area, i as nat).len(),
                ord@.no_duplicates(),
                forall|k: int| 0 <= k < ord@.len() ==> #[trigger] ord@[k] < i,
                forall|x: int| #[trigger] lists(ord@, x) <==> mines_in_area(mines@, scan_area, i as nat).contains(x),
                forall|a: int, c: int| 0 <= a < c < ord@.len()
                    ==> scans_before(self.base, mines@, #[trigger] ord@[a] as int, #[trigger] ord@[c] as int),
            decreases mines@.len() - i,
        {
            let ghost before = ord@;
            let ghost prev_found = mines_in_area(mines@, scan_area, i as nat);
            if scan_area.contains_point(&mines[i].1) {
                let score = scan_score_of(&self.base, mines[i].1);
                let mut q: usize = 0;
                while q < ord.len() && scan_score_of(&self.base, mines[ord[q]].1) > score
                    invariant
                        q <= ord@.len(),
                        ord@ == before,
                        i < mines@.len(),
                        forall|k: int| 0 <= k < mines@.len() ==> scan_score(self.base, #[trigger] mines@[k].1) <= u32::MAX,
                        forall|k: int| 0 <= k < ord@.len() ==> #[trigger] ord@[k] < i,
                        score == scan_score(self.base, mines@[i as int].1),
                        forall|a: int| 0 <= a < q ==> scan_score(self.base, mines@[#[trigger] ord@[a] as int].1) > score,
                    decreases ord@.len() - q,
                {
                    q += 1;
                }
                proof {
                    assert forall|a: int| q <= a < before.len() implies scan_score(self.base, mines@[#[trigger] before[a] as int].1) <= score by {
                        if a > q {
                            assert(scans_before(self.base, mines@, before[q as int] as int, before[a] as int));
                        }
                    }
                }
                ord.insert(q, i);
                proof {
                    let now = ord@;
                    assert(now == before.insert(q as int, i));
                    assert(mines_in_area(mines@, scan_area, (i + 1) as nat) == prev_found.push(i as int));
                    assert forall|a: int, c: int| 0 <= a < c < now.len()
                        implies scans_before(self.base, mines@, #[trigger] now[a] as int, #[trigger] now[c] as int) by {
                        if a < q && c < q {
                            assert(now[a] == before[a] && now[c] == before[c]);
                        } else if a < q && c == q {
                            assert(now[a] == before[a]);
                        } else if a < q && c > q {
                            assert(now[a] == before[a] && now[c] == before[c - 1]);
                        } else if a == q {
                            assert(now[c] == before[c - 1]);
                            assert(before[c - 1] < i);
                        } else {
                            assert(now[a] == before[a - 1] && now[c] == before[c - 1]);
                        }
                    }
                    let next_found = prev_found.push(i as int);
                    assert forall|x: int| #[trigger] lists(now, x)
                        <==> mines_in_area(mines@, scan_area, (i + 1) as nat).contains(x) by {
                        if lists(now, x) {
                            let k = choose|k: int| 0 <= k < now.len() && now[k] == x;
                            if k == q {
                                assert(next_found[prev_found.len() as int] == x);
                            } else {
                                let kb = if k < q { k } else { k - 1 };
                                assert(before[kb] == x);
                                assert(lists(before, x));
                                assert(prev_found.contains(x));
                                let j = choose|j: int| 0 <= j < prev_found.len() && prev_found[j] == x;
                                assert(next_found[j] == x);
                            }
                            assert(next_found.contains(x));
                        }
                        if next_found.contains(x) {
                            let j = choose|j: int| 0 <= j < next_found.len() && next_found[j] == x;
                            if j < prev_found.len() {
                                assert(prev_found[j] == x);
                                assert(prev_found.contains(x));
                                assert(lists(before, x));
                                let k = choose|k: int| 0 <= k < before.len() && before[k] == x;
                                if k < q {
                                    assert(now[k] == x);
                                } else {
                                    assert(now[k + 1] == x);
                                }
                            } else {
                                assert(now[q as int] == x);
                            }
                            assert(lists(now, x));
                        }
                    }
                    assert(now.no_duplicates()) by {
                        assert forall|a: int, c: int| 0 <= a < c < now.len() implies now[a] != now[c] by {
                            assert(scans_before(self.base, mines@, now[a] as int, now[c] as int));
                        }
                    }
                    assert forall|k: int| 0 <= k < now.len() implies #[trigger] now[k] < i + 1 by {
                        if k < q {
                            assert(now[k] == before[k]);
                        } else if k > q {
                            assert(now[k] == before[k - 1]);
                        }
                    }
                }
            } else {
                proof {
                    assert(mines_in_area(mines@, scan_area, (i + 1) as nat) == prev_found);
                }
            }
            i += 1;
        }
        if ord.len() == 0 {
            return HakkaResult::NoneFound;
        }
        let mut scanned_mines: Vec<MineRef> = Vec::new();
        let mut t: usize = 0;
        while t < ord.len()
            invariant
                t <= ord@.len(),
                forall|k: int| 0 <= k < ord@.len() ==> #[trigger] ord@[k] < mines@.len(),
                scanned_mines@ == ord@.subrange(0, t as int).map_values(|k: usize| mines@[k as int].0),
            decreases ord@.len() - t,
        {
            scanned_mines.push(mines[ord[t]].0);
            proof {
                assert(ord@.subrange(0, t + 1).map_values(|k: usize| mines@[k as int].0)
                    =~= ord@.subrange(0, t as int).map_values(|k: usize| mines@[k as int].0).push(mines@[ord@[t as int] as int].0));
            }
            t += 1;
        }
        proof {
            let ord_int: Seq<int> = ord@.map_values(|k: usize| k as int);
            assert(ord@.subrange(0, ord@.len() as int) == ord@);
            assert(scanned_mines@ =~= ord_int.map_values(|i: int| mines@[i].0));
            assert forall|a: int, c: int| 0 <= a < c < ord_int.len() implies scans_before(self.base, mines@, #[trigger] ord_int[a], #[trigger] ord_int[c]) by {
                assert(scans_before(self.base, mines@, ord@[a] as int, ord@[c] as int));
            }
            assert(ord_int.no_duplicates()) by {
                assert forall|a: int, c: int| 0 <= a < c < ord_int.len() implies ord_int[a] != ord_int[c] by {
                    assert(ord@[a] != ord@[c]);
                }
            }
            assert forall|x: int| ord_int.contains(x) <==> found.contains(x) by {
                if ord_int.contains(x) {
                    let k = choose|k: int| 0 <= k < ord_int.len() && ord_int[k] == x;
                    assert(ord@[k] == x);
                    assert(lists(ord@, x));
                }
                if found.contains(x) {
                    assert(lists(ord@, x));
                    let k = choose|k: int| 0 <= k < ord@.len() && ord@[k] == x;
                    assert(ord_int[k] == x);
                }
            }
            assert(is_scan_order(self.base, mines@, found, ord_int));
        }
        HakkaResult::NewPatchesInScanArea { scanned_mines, scan_area }
    }
}

} // verus!
