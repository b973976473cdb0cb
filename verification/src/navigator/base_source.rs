//! Where rails leave the central base. Starts are handed out one by one
//! along the base edge: a section holds a few rails shifted 45 degrees from
//! each other, then the next section starts a fixed step further sideways.

use vstd::prelude::*;
use crate::navigator::planners::PathingTunables;
use crate::state::tuneables::PathCommonTunables;
use crate::surface::direction::{
    FacDirectionQuarter, move_direction_int, move_direction_sideways_int, quarter_moved, quarter_flip,
    quarter_dx, quarter_dy, quarter_clockwise,
};
use crate::surface::vpoint::{VPoint, fits_i32, vpoint_at, is_even_position};
use crate::surface::vpoint_direction::VPointDirectionQ;

verus! {

/// Rails navigate on a grid of this many tiles.
pub const SECTION_POINTS_I32: i32 = 26;

/// One of the 45 degree shifted rail starts inside a section.
#[derive(Clone, Copy, PartialEq, Eq, Structural, Debug, Hash)]
pub struct IntraLevel {
    pub level: u8,
    pub step_forward: i32,
    pub step_sideways: i32,
    pub direction: FacDirectionQuarter,
}

/// How far a level moves forward.
pub open spec fn intra_forward(l: IntraLevel) -> int {
    l.level * l.step_forward
}

/// How far a level moves sideways.
pub open spec fn intra_sideways(l: IntraLevel) -> int {
    l.level * l.step_sideways
}

/// Whether applying the level to `p` stays in the `i32` range, also halfway.
pub open spec fn intra_apply_fits(l: IntraLevel, p: VPoint) -> bool {
    &&& fits_i32(intra_forward(l))
    &&& fits_i32(intra_sideways(l))
    &&& fits_i32(quarter_moved(p, l.direction, intra_forward(l), 0).0)
    &&& fits_i32(quarter_moved(p, l.direction, intra_forward(l), 0).1)
    &&& fits_i32(quarter_moved(p, l.direction, intra_forward(l), intra_sideways(l)).0)
    &&& fits_i32(quarter_moved(p, l.direction, intra_forward(l), intra_sideways(l)).1)
}

/// Whether undoing the level on `p` stays in the `i32` range, also halfway.
pub open spec fn intra_undo_fits(l: IntraLevel, p: VPoint) -> bool {
    intra_apply_fits(IntraLevel { direction: quarter_flip(l.direction), ..l }, p)
}

/// `p` moved by the level.
pub open spec fn intra_apply(l: IntraLevel, p: VPoint) -> VPoint {
    let m = quarter_moved(p, l.direction, intra_forward(l), intra_sideways(l));
    vpoint_at(m.0, m.1)
}

/// `p` moved back by the level.
pub open spec fn intra_undo(l: IntraLevel, p: VPoint) -> VPoint {
    let m = quarter_moved(p, quarter_flip(l.direction), intra_forward(l), intra_sideways(l));
    vpoint_at(m.0, m.1)
}

proof fn lemma_applied_can_be_undone(l: IntraLevel, p: VPoint)
    requires
        intra_apply_fits(l, p),
    ensures
        intra_undo_fits(l, intra_apply(l, p)),
{
    let f = intra_forward(l);
    let s = intra_sideways(l);
    match l.direction {
        FacDirectionQuarter::North => {
            assert(quarter_dy(FacDirectionQuarter::North) * f == -f);
            assert(quarter_dx(FacDirectionQuarter::East) * s == s);
        },
        FacDirectionQuarter::East => {
            assert(quarter_dx(FacDirectionQuarter::East) * f == f);
            assert(quarter_dy(FacDirectionQuarter::South) * s == s);
        },
        FacDirectionQuarter::South => {
            assert(quarter_dy(FacDirectionQuarter::South) * f == f);
            assert(quarter_dx(FacDirectionQuarter::West) * s == -s);
        },
        FacDirectionQuarter::West => {
            assert(quarter_dx(FacDirectionQuarter::West) * f == -f);
            assert(quarter_dy(FacDirectionQuarter::North) * s == -s);
        },
    }
}

impl IntraLevel {
    /// The point moved forward and sideways by this level; it can always be
    /// moved back.
    pub fn apply(&self, input: VPoint) -> (r: VPoint)
        requires
            intra_apply_fits(*self, input),
        ensures
            r == intra_apply(*self, input),
            intra_undo_fits(*self, r),
    {
        proof { lemma_applied_can_be_undone(*self, input); }
        let forward: i32 = (self.level as i32) * self.step_forward;
        let sideways: i32 = (self.level as i32) * self.step_sideways;
        let moved = move_direction_int(input, self.direction, forward);
        move_direction_sideways_int(moved, self.direction, sideways)
    }

    /// The point moved back by this level.
    pub fn undo(&self, input: VPoint) -> (r: VPoint)
        requires
            intra_undo_fits(*self, input),
        ensures
            r == intra_undo(*self, input),
    {
        let backwards = self.direction.rotate_flip();
        let forward: i32 = (self.level as i32) * self.step_forward;
        let sideways: i32 = (self.level as i32) * self.step_sideways;
        let moved = move_direction_int(input, backwards, forward);
        move_direction_sideways_int(moved, backwards, sideways)
    }
}

proof fn lemma_flip_steps(d: FacDirectionQuarter)
    ensures
        quarter_dx(quarter_flip(d)) == -quarter_dx(d),
        quarter_dy(quarter_flip(d)) == -quarter_dy(d),
        quarter_dx(quarter_clockwise(quarter_flip(d))) == -quarter_dx(quarter_clockwise(d)),
        quarter_dy(quarter_clockwise(quarter_flip(d))) == -quarter_dy(quarter_clockwise(d)),
{
}

/// Undoing a level after applying it gives back the point, and so does
/// applying it after undoing it.
pub proof fn law_intra_undo_inverts_apply(l: IntraLevel, p: VPoint)
    ensures
        intra_apply_fits(l, p) ==> intra_undo(l, intra_apply(l, p)) == p,
        intra_undo_fits(l, p) ==> intra_apply(l, intra_undo(l, p)) == p,
{
    lemma_flip_steps(l.direction);
    let f = intra_forward(l);
    let s = intra_sideways(l);
    let d = l.direction;
    let c = quarter_clockwise(d);
    assert(quarter_dx(d) * f == -(quarter_dx(quarter_flip(d)) * f)) by (nonlinear_arith)
        requires quarter_dx(quarter_flip(d)) == -quarter_dx(d);
    assert(quarter_dy(d) * f == -(quarter_dy(quarter_flip(d)) * f)) by (nonlinear_arith)
        requires quarter_dy(quarter_flip(d)) == -quarter_dy(d);
    assert(quarter_dx(c) * s == -(quarter_dx(quarter_clockwise(quarter_flip(d))) * s)) by (nonlinear_arith)
        requires quarter_dx(quarter_clockwise(quarter_flip(d))) == -quarter_dx(c);
    assert(quarter_dy(c) * s == -(quarter_dy(quarter_clockwise(quarter_flip(d))) * s)) by (nonlinear_arith)
        requires quarter_dy(quarter_clockwise(quarter_flip(d))) == -quarter_dy(c);
}

/// One rail start: where it is and which level of its section it uses.
#[derive(Clone, Copy, PartialEq, Eq, Structural, Debug, Hash)]
pub struct BaseSourceEntry {
    pub origin: VPointDirectionQ,
    pub applied_intra: IntraLevel,
}

/// The level `level` of a section whose rails leave in direction `d`.
pub open spec fn level_at(t: PathCommonTunables, d: FacDirectionQuarter, level: int) -> IntraLevel {
    IntraLevel {
        level: level as u8,
        step_forward: t.base_source_intra_forward,
        step_sideways: t.base_source_intra_sideways,
        direction: d,
    }
}

/// How far sideways the section of start `index` lies.
pub open spec fn section_move(t: PathCommonTunables, index: int) -> int {
    (index / (t.base_source_intra_rails as int)) * t.base_source_section_step
}

/// The first tile of the section of start `index`.
pub open spec fn section_point(o: VPointDirectionQ, t: PathCommonTunables, index: int) -> VPoint {
    let m = quarter_moved(o.0, o.1, 0, section_move(t, index));
    vpoint_at(m.0, m.1)
}

/// Start number `index` along the base edge.
pub open spec fn entry_at(o: VPointDirectionQ, t: PathCommonTunables, index: int) -> BaseSourceEntry {
    let lvl = level_at(t, o.1, index % (t.base_source_intra_rails as int));
    BaseSourceEntry { origin: VPointDirectionQ(intra_apply(lvl, section_point(o, t, index)), o.1), applied_intra: lvl }
}

/// Whether start `index` can be computed: the section has at least one
/// rail, a negative index falls on a section boundary, and all positions
/// stay in the `i32` range.
pub open spec fn index_ok(o: VPointDirectionQ, t: PathCommonTunables, index: int) -> bool {
    let rails = t.base_source_intra_rails as int;
    &&& rails > 0
    &&& fits_i32(index)
    &&& (index >= 0 || index % rails == 0)
    &&& fits_i32(section_move(t, index))
    &&& fits_i32(quarter_moved(o.0, o.1, 0, section_move(t, index)).0)
    &&& fits_i32(quarter_moved(o.0, o.1, 0, section_move(t, index)).1)
    &&& intra_apply_fits(level_at(t, o.1, index % rails), section_point(o, t, index))
}

/// The rail starts on one side of the base, handed out in order. Dual wide
/// rail is 6 by 26 tiles and navigates on a 26 tile grid; shifting by 45
/// degrees with an offset of 6 allows 4 rails per section.
pub struct BaseSourceEighth {
    origin: VPointDirectionQ,
    sign: i32,
    next: i32,
    tunables: PathCommonTunables,
}

impl BaseSourceEighth {
    pub closed spec fn spec_origin(&self) -> VPointDirectionQ {
        self.origin
    }

    pub closed spec fn spec_sign(&self) -> i32 {
        self.sign
    }

    pub closed spec fn spec_next(&self) -> i32 {
        self.next
    }

    pub closed spec fn spec_tunables(&self) -> PathCommonTunables {
        self.tunables
    }

    /// Start number `index` of this source.
    pub open spec fn entry(&self, index: int) -> BaseSourceEntry {
        entry_at(self.spec_origin(), self.spec_tunables(), index)
    }

    /// Whether start number `index` of this source can be computed.
    pub open spec fn entry_ok(&self, index: int) -> bool {
        index_ok(self.spec_origin(), self.spec_tunables(), index)
    }

    /// A fresh source. Index 0 conflicts with the base, so it starts at 1.
    pub fn new(origin: VPointDirectionQ, sign: i32, tunables: PathCommonTunables) -> (r: Self)
        ensures
            r.spec_origin() == origin,
            r.spec_sign() == sign,
            r.spec_next() == 1,
            r.spec_tunables() == tunables,
    {
        BaseSourceEighth { origin, sign, next: 1, tunables }
    }

    /// The level `level` of this source's sections.
    pub fn intra_level_at_index(&self, level: u8) -> (r: IntraLevel)
        ensures
            r == level_at(self.spec_tunables(), self.spec_origin().1, level as int),
    {
        IntraLevel {
            level,
            step_forward: self.tunables.base_source_intra_forward,
            step_sideways: self.tunables.base_source_intra_sideways,
            direction: self.origin.direction(),
        }
    }

    /// Every level of a section, in order.
    pub fn all_intra_levels(&self) -> (r: Vec<IntraLevel>)
        ensures
            r@.len() == self.spec_tunables().base_source_intra_rails,
            forall|i: int| 0 <= i < r@.len() ==> #[trigger] r@[i] == level_at(self.spec_tunables(), self.spec_origin().1, i),
    {
        let mut r: Vec<IntraLevel> = Vec::new();
        let mut i: u8 = 0;
        while i < self.tunables.base_source_intra_rails
            invariant
                i <= self.spec_tunables().base_source_intra_rails,
                r@.len() == i,
                forall|k: int| 0 <= k < r@.len() ==> #[trigger] r@[k] == level_at(self.spec_tunables(), self.spec_origin().1, k),
            decreases self.spec_tunables().base_source_intra_rails - i,
        {
            r.push(self.intra_level_at_index(i));
            i += 1;
        }
        r
    }

    fn get_for_index(&self, index: i32) -> (r: BaseSourceEntry)
        requires
            self.entry_ok(index as int),
        ensures
            r == self.entry(index as int),
    {
        let rails: i64 = self.tunables.base_source_intra_rails as i64;
        let idx: i64 = index as i64;
        let section: i64;
        let level: i64;
        if idx >= 0 {
            section = ((idx as u64) / (rails as u64)) as i64;
            level = ((idx as u64) % (rails as u64)) as i64;
        } else {
            let a: u64 = (-idx) as u64;
            section = -((a / (rails as u64)) as i64);
            level = 0;
            proof {
                let x = index as int;
                let rr = rails as int;
                let q = x / rr;
                vstd::arithmetic::div_mod::lemma_fundamental_div_mod(x, rr);
                assert(x == rr * q);
                assert(rr * (-q) == -(rr * q)) by (nonlinear_arith);
                assert((-q) * rr == rr * (-q)) by (nonlinear_arith);
                vstd::arithmetic::div_mod::lemma_div_multiples_vanish(-q, rr);
                vstd::arithmetic::div_mod::lemma_mod_multiples_basic(-q, rr);
                assert(a as int == rr * (-q));
                assert((a as int) / rr == -q);
            }
        }
        assert(section == (index as int) / (rails as int));
        assert(level == (index as int) % (rails as int));
        let step: i64 = self.tunables.base_source_section_step as i64;
        assert(-0x8000_0000 <= section <= 0x8000_0000) by (nonlinear_arith)
            requires
                section == (index as int) / (rails as int),
                fits_i32(index as int),
                rails >= 1;
        assert(-0x4000_0000_0000_0000 <= section * step <= 0x4000_0000_0000_0000) by (nonlinear_arith)
            requires
                -0x8000_0000 <= section <= 0x8000_0000,
                -0x8000_0000 <= step <= 0x8000_0000;
        let moved: i64 = section * step;
        let section_pos = move_direction_sideways_int(self.origin.point(), self.origin.direction(), moved as i32);
        let applied_intra = self.intra_level_at_index(level as u8);
        let intra_pos = applied_intra.apply(section_pos);
        BaseSourceEntry { origin: VPointDirectionQ(intra_pos, self.origin.direction()), applied_intra }
    }

    /// The start that comes next, without taking it.
    pub fn peek_single(&self) -> (r: BaseSourceEntry)
        requires
            self.entry_ok(self.spec_next() as int),
        ensures
            r == self.entry(self.spec_next() as int),
    {
        self.get_for_index(self.next)
    }

    /// The start `index` places after the next one, without taking any.
    pub fn peek_after(&self, index: usize) -> (r: BaseSourceEntry)
        requires
            index <= i32::MAX,
            self.spec_next() + index <= i32::MAX,
            self.entry_ok(self.spec_next() + index),
        ensures
            r == self.entry(self.spec_next() + index),
    {
        self.get_for_index(self.next + (index as i32))
    }

    /// The next `size` starts, without taking them.
    pub fn peek_multiple(&self, size: usize) -> (r: Vec<BaseSourceEntry>)
        requires
            size <= i32::MAX,
            self.spec_next() + size <= i32::MAX,
            forall|k: int| self.spec_next() <= k < self.spec_next() + size ==> #[trigger] self.entry_ok(k),
        ensures
            r@.len() == size,
            forall|k: int| 0 <= k < size ==> #[trigger] r@[k] == self.entry(self.spec_next() + k),
    {
        let mut r: Vec<BaseSourceEntry> = Vec::new();
        let end: i32 = self.next + (size as i32);
        let mut i: i32 = self.next;
        while i < end
            invariant
                self.spec_next() <= i <= end,
                end == self.spec_next() + size,
                forall|k: int| self.spec_next() <= k < self.spec_next() + size ==> #[trigger] self.entry_ok(k),
                r@.len() == i - self.spec_next(),
                forall|k: int| 0 <= k < r@.len() ==> #[trigger] r@[k] == self.entry(self.spec_next() + k),
            decreases end - i,
        {
            r.push(self.get_for_index(i));
            i += 1;
        }
        r
    }

    /// The last `size` starts up to and including the next one, without
    /// taking any.
    pub fn peek_multiple_backwards(&self, size: usize) -> (r: Vec<BaseSourceEntry>)
        requires
            size <= i32::MAX,
            fits_i32(self.spec_next() - size + 1),
            forall|k: int| self.spec_next() - size + 1 <= k <= self.spec_next() ==> #[trigger] self.entry_ok(k),
        ensures
            r@.len() == size,
            forall|k: int| 0 <= k < size ==> #[trigger] r@[k] == self.entry(self.spec_next() - size + 1 + k),
    {
        let mut r: Vec<BaseSourceEntry> = Vec::new();
        let first: i64 = self.next as i64 - size as i64 + 1;
        let mut i: i64 = first;
        while i <= self.next as i64
            invariant
                first == self.spec_next() - size + 1,
                fits_i32(first as int),
                first <= i <= self.spec_next() + 1,
                forall|k: int| self.spec_next() - size + 1 <= k <= self.spec_next() ==> #[trigger] self.entry_ok(k),
                r@.len() == i - first,
                forall|k: int| 0 <= k < r@.len() ==> #[trigger] r@[k] == self.entry(first + k),
            decreases self.spec_next() + 1 - i,
        {
            let ii: i32 = i as i32;
            assert(ii == i);
            r.push(self.get_for_index(ii));
            i += 1;
        }
        r
    }

    pub fn origin(&self) -> (r: VPointDirectionQ)
        ensures
            r == self.spec_origin(),
    {
        self.origin
    }

    /// Corner of the area the path finder may use, one grid step behind the
    /// origin and one to its side: a link's area can reach past the edge.
    pub fn fixed_limiting_start(&self) -> (r: VPoint)
        requires
            fits_i32(quarter_moved(self.spec_origin().0, self.spec_origin().1, -26, 0).0),
            fits_i32(quarter_moved(self.spec_origin().0, self.spec_origin().1, -26, 0).1),
            fits_i32(quarter_moved(self.spec_origin().0, self.spec_origin().1, -26, -26).0),
            fits_i32(quarter_moved(self.spec_origin().0, self.spec_origin().1, -26, -26).1),
        ensures
            r == vpoint_at(
                quarter_moved(self.spec_origin().0, self.spec_origin().1, -26, -26).0,
                quarter_moved(self.spec_origin().0, self.spec_origin().1, -26, -26).1,
            ),
    {
        let origin = self.origin.point();
        let direction = self.origin.direction();
        let back = move_direction_int(origin, direction, -SECTION_POINTS_I32);
        move_direction_sideways_int(back, direction, -SECTION_POINTS_I32)
    }

    /// Gives back the last start taken: it is handed out again next.
    /// Index 0 is never handed out, so at least two starts must have been
    /// taken before.
    pub fn _undo_one(&mut self) -> (r: BaseSourceEntry)
        requires
            old(self).spec_next() >= 2,
            old(self).entry_ok(old(self).spec_next() - 1),
        ensures
            final(self).spec_next() == old(self).spec_next() - 1,
            final(self).spec_origin() == old(self).spec_origin(),
            final(self).spec_sign() == old(self).spec_sign(),
            final(self).spec_tunables() == old(self).spec_tunables(),
            r == old(self).entry(old(self).spec_next() - 1),
    {
        self.next = self.next - 1;
        self.get_for_index(self.next)
    }

    /// Takes the last path off `paths`, the paths laid from this source in
    /// the order laid, and gives back the start it was laid from; `None`
    /// when no path is left.
    pub fn undo_mine_path<P>(&mut self, paths: &mut Vec<P>) -> (r: Option<(P, BaseSourceEntry)>)
        requires
            old(paths)@.len() > 0 ==> old(self).spec_next() >= 2 && old(self).entry_ok(old(self).spec_next() - 1),
        ensures
            final(self).spec_origin() == old(self).spec_origin(),
            final(self).spec_sign() == old(self).spec_sign(),
            final(self).spec_tunables() == old(self).spec_tunables(),
            old(paths)@.len() == 0 ==> r is None && final(paths)@ == old(paths)@
                && final(self).spec_next() == old(self).spec_next(),
            old(paths)@.len() > 0 ==> r == Some((old(paths)@.last(), old(self).entry(old(self).spec_next() - 1)))
                && final(paths)@ == old(paths)@.drop_last()
                && final(self).spec_next() == old(self).spec_next() - 1,
    {
        match paths.pop() {
            None => None,
            Some(path) => {
                let undo = self._undo_one();
                Some((path, undo))
            },
        }
    }

    /// Takes paths off the end of `paths` until only `remove_until` are
    /// left, giving back one start for each; returns the paths taken off,
    /// last laid first.
    pub fn undo_mine_path_until_index<P>(&mut self, paths: &mut Vec<P>, remove_until: usize) -> (r: Vec<P>)
        requires
            old(paths)@.len() > remove_until ==> old(self).spec_next() - (old(paths)@.len() - remove_until) >= 1,
            forall|k: int| old(self).spec_next() - (old(paths)@.len() - remove_until) <= k < old(self).spec_next()
                ==> #[trigger] old(self).entry_ok(k),
        ensures
            final(self).spec_origin() == old(self).spec_origin(),
            final(self).spec_sign() == old(self).spec_sign(),
            final(self).spec_tunables() == old(self).spec_tunables(),
            old(paths)@.len() <= remove_until ==> final(paths)@ == old(paths)@ && r@.len() == 0
                && final(self).spec_next() == old(self).spec_next(),
            old(paths)@.len() > remove_until ==> final(paths)@ == old(paths)@.take(remove_until as int)
                && r@ == old(paths)@.skip(remove_until as int).reverse()
                && final(self).spec_next() == old(self).spec_next() - (old(paths)@.len() - remove_until),
    {
        let ghost start_next = self.spec_next();
        let ghost all = paths@;
        let mut res: Vec<P> = Vec::new();
        proof {
            assert(all.take(all.len() as int) =~= all);
            assert(all.skip(all.len() as int).reverse() =~= res@);
        }
        while paths.len() > remove_until
            invariant
                self.spec_origin() == old(self).spec_origin(),
                self.spec_sign() == old(self).spec_sign(),
                self.spec_tunables() == old(self).spec_tunables(),
                start_next == old(self).spec_next(),
                all == old(paths)@,
                paths@.len() >= remove_until || paths@.len() == all.len(),
                paths@.len() <= all.len(),
                paths@ == all.take(paths@.len() as int),
                res@ == all.skip(paths@.len() as int).reverse(),
                self.spec_next() == start_next - (all.len() - paths@.len()),
                all.len() > remove_until ==> start_next - (all.len() - remove_until) >= 1,
                forall|k: int| start_next - (all.len() - remove_until) <= k < start_next
                    ==> #[trigger] old(self).entry_ok(k),
            decreases paths@.len(),
        {
            let ghost before = paths@;
            proof {
                assert(old(self).entry_ok(self.spec_next() - 1));
                assert(self.entry_ok(self.spec_next() - 1));
            }
            let (path, _undo) = self.undo_mine_path(paths).unwrap();
            res.push(path);
            proof {
                assert(paths@ =~= before.drop_last());
                assert(paths@ =~= all.take(paths@.len() as int));
                assert(res@ =~= all.skip(paths@.len() as int).reverse());
            }
        }
        proof {
            if all.len() <= remove_until {
                assert(paths@ =~= all);
            }
            if all.len() > remove_until {
                assert(paths@.len() == remove_until);
            }
        }
        res
    }

    /// Takes the next start.
    pub fn next(&mut self) -> (r: Option<BaseSourceEntry>)
        requires
            old(self).spec_next() < i32::MAX,
            old(self).entry_ok(old(self).spec_next() as int),
        ensures
            final(self).spec_next() == old(self).spec_next() + 1,
            final(self).spec_origin() == old(self).spec_origin(),
            final(self).spec_sign() == old(self).spec_sign(),
            final(self).spec_tunables() == old(self).spec_tunables(),
            r == Some(old(self).entry(old(self).spec_next() as int)),
    {
        let current = self.get_for_index(self.next);
        self.next = self.next + 1;
        Some(current)
    }

    /// Number of the start handed out next.
    pub fn get_i(&self) -> (r: i32)
        ensures
            r == self.spec_next(),
    {
        self.next
    }
}

/// Taking a start and giving it back leaves the source as it was, and the
/// start given back is the one taken.
pub proof fn law_undo_repeats_last_taken(
    before: BaseSourceEighth,
    taken: BaseSourceEntry,
    after: BaseSourceEighth,
    given_back: BaseSourceEntry,
    restored: BaseSourceEighth,
)
    requires
        after.spec_next() == before.spec_next() + 1,
        after.spec_origin() == before.spec_origin(),
        after.spec_sign() == before.spec_sign(),
        after.spec_tunables() == before.spec_tunables(),
        Some(taken) == Some(before.entry(before.spec_next() as int)),
        restored.spec_next() == after.spec_next() - 1,
        restored.spec_origin() == after.spec_origin(),
        restored.spec_sign() == after.spec_sign(),
        restored.spec_tunables() == after.spec_tunables(),
        given_back == after.entry(after.spec_next() - 1),
    ensures
        given_back == taken,
        restored.spec_next() == before.spec_next(),
        restored.spec_origin() == before.spec_origin(),
        restored.spec_sign() == before.spec_sign(),
        restored.spec_tunables() == before.spec_tunables(),
{
}

/// The rail starts on both sides of the central base.
pub struct BaseSource {
    positive: BaseSourceEighth,
    negative: BaseSourceEighth,
}

/// Origin of the base sources: the first grid line past the base edge.
pub open spec fn central_base_offset(tiles: int) -> int {
    tiles - tiles % 26 + 26
}

impl BaseSource {
    pub closed spec fn spec_positive(&self) -> BaseSourceEighth {
        self.positive
    }

    pub closed spec fn spec_negative(&self) -> BaseSourceEighth {
        self.negative
    }

    /// Sources on both sides of the central base, starting east of it on the
    /// first grid line past its edge.
    pub fn from_central_base(tunables: &PathingTunables) -> (r: Self)
        requires
            tunables.spec_base_chunks().chunks * 32 + 26 <= i32::MAX,
        ensures
            r.spec_positive().spec_origin() == VPointDirectionQ(
                vpoint_at(central_base_offset(tunables.spec_base_chunks().chunks * 32), 0),
                FacDirectionQuarter::East,
            ),
            r.spec_positive().spec_sign() == 1,
            r.spec_positive().spec_next() == 1,
            r.spec_positive().spec_tunables() == tunables.spec_path_common(),
            r.spec_negative().spec_origin() == r.spec_positive().spec_origin(),
            r.spec_negative().spec_sign() == -1,
            r.spec_negative().spec_next() == 1,
            r.spec_negative().spec_tunables() == tunables.spec_path_common(),
    {
        let mut offset_x_from_base = tunables.base_chunks().as_tiles_i32();
        offset_x_from_base = offset_x_from_base - offset_x_from_base % SECTION_POINTS_I32;
        offset_x_from_base = offset_x_from_base + SECTION_POINTS_I32;
        proof {
            let t = tunables.spec_base_chunks().chunks * 32;
            assert(offset_x_from_base == central_base_offset(t));
            assert((t - t % 26 + 26) % 2 == 0) by (nonlinear_arith)
                requires t >= 0;
        }
        BaseSource::new(
            VPointDirectionQ(VPoint::new(offset_x_from_base, 0), FacDirectionQuarter::East),
            *tunables.path_common(),
        )
    }

    fn new(origin: VPointDirectionQ, tunables: PathCommonTunables) -> (r: Self)
        requires
            is_even_position(origin.0),
        ensures
            r.spec_positive().spec_origin() == origin,
            r.spec_positive().spec_sign() == 1,
            r.spec_positive().spec_next() == 1,
            r.spec_positive().spec_tunables() == tunables,
            r.spec_negative().spec_origin() == origin,
            r.spec_negative().spec_sign() == -1,
            r.spec_negative().spec_next() == 1,
            r.spec_negative().spec_tunables() == tunables,
    {
        BaseSource {
            positive: BaseSourceEighth::new(origin, 1, tunables),
            negative: BaseSourceEighth::new(origin, -1, tunables),
        }
    }

    pub fn into_positive(self) -> (r: BaseSourceEighth)
        ensures
            r == self.spec_positive(),
    {
        self.positive
    }
}

} // verus!
