//! Pathfinder v2, "Shinri": routing by hugging an axis. A rail runs straight
//! until it cannot go on; then it goes around what is in the way, turning
//! left, straight on, right, across, right, back and left again, facing the
//! way it went before.

use vstd::prelude::*;
use crate::navigator::mori_old::{
    Rail, RailMode, TurnType, rail_step, rail_rotating, area_fits, rotating_fits, micro_fits,
    rail_area_points, any_out_of_bounds, dual_fits, rails_2x2_fit, dual_straight_behind,
    dual_side_a, dual_side_b, turn_leg, straight_line, rail_rotated, micro_point,
};
use crate::surface::direction::{RailDirection, rail_spin, rail_dx, rail_dy};
use crate::surface::vpoint::VPoint;
use crate::surface::varea::{VArea, area_contains};
use crate::surface::vsurface::VSurface;
use crate::surface::pixel::Pixel;

verus! {

/// Largest coordinate a routed rail may have: far inside the `i32` range, and
/// far beyond any surface that can be held in memory.
pub const SHINRI_COORDINATE_LIMIT: i64 = 1073741824;

/// Whether a point lies within the routing limit.
pub open spec fn point_small(p: VPoint) -> bool {
    -SHINRI_COORDINATE_LIMIT <= p.x <= SHINRI_COORDINATE_LIMIT && -SHINRI_COORDINATE_LIMIT <= p.y <= SHINRI_COORDINATE_LIMIT
}

/// Whether a point lies within the routing limit widened by `m` tiles.
pub open spec fn point_near(p: VPoint, m: int) -> bool {
    -SHINRI_COORDINATE_LIMIT - m <= p.x <= SHINRI_COORDINATE_LIMIT + m
        && -SHINRI_COORDINATE_LIMIT - m <= p.y <= SHINRI_COORDINATE_LIMIT + m
}

proof fn lemma_micro_near(p: VPoint, d: RailDirection, n: int, m: int)
    requires
        point_near(p, m),
        0 <= m,
        0 <= n,
        m + n <= 1024,
    ensures
        micro_fits(p, d, n),
        point_near(micro_point(p, d, n), m + n),
{
    assert(-1 <= rail_dx(d) <= 1 && -1 <= rail_dy(d) <= 1);
    assert(-n <= rail_dx(d) * n <= n) by (nonlinear_arith)
        requires -1 <= rail_dx(d) <= 1, n >= 0;
    assert(-n <= rail_dy(d) * n <= n) by (nonlinear_arith)
        requires -1 <= rail_dy(d) <= 1, n >= 0;
}

proof fn lemma_line_near(r: Rail, len: int, m: int)
    requires
        point_near(r.endpoint, m),
        0 <= m,
        0 < len <= 8,
        m + 2 * len <= 1024,
    ensures
        micro_fits(r.endpoint, r.direction, 2 * (len - 1)),
        rails_2x2_fit(straight_line(r, 0, len)),
        forall|i: int| 0 <= i < len ==> point_near((#[trigger] straight_line(r, 0, len)[i]).endpoint, m + 2 * len),
{
    lemma_micro_near(r.endpoint, r.direction, 2 * (len - 1), m);
    assert forall|i: int| 0 <= i < len implies point_near((#[trigger] straight_line(r, 0, len)[i]).endpoint, m + 2 * len)
        && straight_line(r, 0, len)[i].endpoint.x < i32::MAX && straight_line(r, 0, len)[i].endpoint.y < i32::MAX by {
        lemma_micro_near(r.endpoint, r.direction, 2 * i, m);
    }
}

proof fn lemma_dual_near(r: Rail, m: int)
    requires
        point_near(r.endpoint, m),
        0 <= m <= 900,
    ensures
        dual_fits(r, 8),
        rails_2x2_fit(dual_straight_behind(r, 8)),
{
    lemma_micro_near(r.endpoint, rail_spin(r.direction, 1), 2, m);
    lemma_micro_near(r.endpoint, rail_spin(r.direction, 3), 2, m);
    let a = dual_side_a(r);
    let b = dual_side_b(r);
    lemma_line_near(a, 8, m + 2);
    lemma_line_near(b, 8, m + 2);
    let la = straight_line(a, 0, 8);
    let lb = straight_line(b, 0, 8);
    assert forall|i: int| 0 <= i < 16 implies (#[trigger] dual_straight_behind(r, 8)[i]).endpoint.x < i32::MAX
        && dual_straight_behind(r, 8)[i].endpoint.y < i32::MAX by {
        if i < 8 {
            assert(dual_straight_behind(r, 8)[i] == la[i]);
        } else {
            assert(dual_straight_behind(r, 8)[i] == lb[i - 8]);
        }
    }
}

/// A rail near the routing limit can have its area computed.
proof fn lemma_near_area_fits(r: Rail)
    requires
        point_near(r.endpoint, 64),
    ensures
        area_fits(r),
{
    lemma_dual_near(r, 64);
    if let RailMode::Turn(t) = r.mode {
        lemma_micro_near(r.endpoint, rail_spin(r.direction, 2), 16, 64);
        let back = rail_rotated(r, 2);
        lemma_micro_near(back.endpoint, back.direction, 16, 64);
        let leg = turn_leg(r, t);
        assert(point_near(leg.endpoint, 80));
        lemma_dual_near(leg, 80);
    }
}

/// A rail within the routing limit can step and turn.
proof fn lemma_small_moves(r: Rail)
    requires
        point_small(r.endpoint),
    ensures
        micro_fits(r.endpoint, r.direction, 16),
        rotating_fits(r, TurnType::Turn90),
        rotating_fits(r, TurnType::Turn270),
        point_near(rail_step(r).endpoint, 16),
        point_near(rail_rotating(r, TurnType::Turn90).endpoint, 32),
        point_near(rail_rotating(r, TurnType::Turn270).endpoint, 32),
{
    lemma_micro_near(r.endpoint, r.direction, 16, 0);
    let first = rail_step(r);
    lemma_micro_near(first.endpoint, rail_spin(r.direction, 1), 16, 16);
    lemma_micro_near(first.endpoint, rail_spin(r.direction, 3), 16, 16);
}

/// Whether the area lies within the routing limit.
pub open spec fn area_small(a: VArea) -> bool {
    point_small(a.start) && point_small(a.end)
}

/// Whether a rail can be built: its endpoint lies in the search area and
/// every tile under it is on the surface and empty.
#[verifier::opaque]
pub open spec fn rail_buildable(surface: VSurface, area: VArea, r: Rail) -> bool {
    &&& area_contains(area, r.endpoint)
    &&& !any_out_of_bounds(surface.spec_radius(), rail_area_points(r))
    &&& forall|i: int| 0 <= i < rail_area_points(r).len()
        ==> surface.pixel_at(#[trigger] rail_area_points(r)[i]) == Pixel::Empty
}

/// Whether every rail can be built.
pub open spec fn all_buildable(surface: VSurface, area: VArea, rails: Seq<Rail>) -> bool {
    forall|i: int| 0 <= i < rails.len() ==> rail_buildable(surface, area, #[trigger] rails[i])
}

/// The rail `r` if it can be built.
fn build_rail(surface: &VSurface, area: &VArea, r: Rail) -> (b: Option<Rail>)
    requires
        surface.wf(),
        area_fits(r),
    ensures
        b is Some <==> rail_buildable(*surface, *area, r),
        b is Some ==> b == Some(r),
{
    proof {
        reveal(rail_buildable);
    }
    r.into_buildable_simple(surface, area)
}

/// A buildable rail has its endpoint in the search area.
proof fn lemma_buildable_in_area(surface: VSurface, area: VArea, r: Rail)
    requires
        rail_buildable(surface, area, r),
    ensures
        area_contains(area, r.endpoint),
        area_small(area) ==> point_small(r.endpoint),
{
    reveal(rail_buildable);
}

/// The last rail, or `r` when there is none.
pub open spec fn last_or(r: Rail, s: Seq<Rail>) -> Rail {
    if s.len() == 0 { r } else { s.last() }
}

/// `n` straight grid steps on from `r`, each from the one before.
pub open spec fn step_chain(r: Rail, n: nat) -> Seq<Rail>
    decreases n,
{
    if n == 0 {
        Seq::empty()
    } else {
        let prev = step_chain(r, (n - 1) as nat);
        prev.push(rail_step(last_or(r, prev)))
    }
}

/// Most grid steps a straight run can make inside an area within the limit.
pub const MAX_STRAIGHT_STEPS: u64 = 134217728;

/// The offset of `k` tiles in direction `d`.
pub open spec fn axis_shift(d: RailDirection, k: int) -> (int, int) {
    match d {
        RailDirection::Up => (0, k),
        RailDirection::Down => (0, -k),
        RailDirection::Left => (-k, 0),
        RailDirection::Right => (k, 0),
    }
}

/// Sections of rail moving along one axis stay `16` tiles apart per step.
pub open spec fn steps_from(from: Rail, r: Rail, i: int) -> bool {
    &&& r.direction == from.direction
    &&& r.endpoint.x == from.endpoint.x + axis_shift(from.direction, 16 * i).0
    &&& r.endpoint.y == from.endpoint.y + axis_shift(from.direction, 16 * i).1
}

proof fn lemma_step_exact(from: Rail, prev: Rail, i: int)
    requires
        steps_from(from, prev, i),
        point_small(prev.endpoint),
        0 <= i,
    ensures
        steps_from(from, rail_step(prev), i + 1),
{
    lemma_micro_near(prev.endpoint, prev.direction, 16, 0);
    crate::navigator::mori_old::lemma_forward_exact(prev, 16);
    match from.direction {
        RailDirection::Up => {},
        RailDirection::Down => {},
        RailDirection::Left => {},
        RailDirection::Right => {},
    }
}

proof fn lemma_steps_bounded(from: Rail, r: Rail, i: int, area: VArea)
    requires
        steps_from(from, r, i),
        area_small(area),
        area_contains(area, from.endpoint),
        area_contains(area, r.endpoint),
        0 <= i,
    ensures
        i <= MAX_STRAIGHT_STEPS,
{
    match from.direction {
        RailDirection::Up => {},
        RailDirection::Down => {},
        RailDirection::Left => {},
        RailDirection::Right => {},
    }
}

/// `n` straight grid steps on from `from`, if every one can be built.
fn walk_straight(surface: &VSurface, area: &VArea, from: Rail, n: u64) -> (r: Option<Vec<Rail>>)
    requires
        surface.wf(),
        area_small(*area),
        point_small(from.endpoint),
    ensures
        r matches Some(v) ==> v@ == step_chain(from, n as nat) && all_buildable(*surface, *area, v@),
        r is Some && area_contains(*area, from.endpoint) ==> n <= MAX_STRAIGHT_STEPS,
{
    let mut v: Vec<Rail> = Vec::new();
    let mut i: u64 = 0;
    while i < n
        invariant
            i <= n,
            surface.wf(),
            area_small(*area),
            point_small(from.endpoint),
            v@ == step_chain(from, i as nat),
            all_buildable(*surface, *area, v@),
            steps_from(from, last_or(from, v@), i as int),
            area_contains(*area, from.endpoint) ==> i <= MAX_STRAIGHT_STEPS,
        decreases n - i,
    {
        let prev = if v.len() == 0 { from } else { v[v.len() - 1] };
        proof {
            assert(prev == last_or(from, v@));
            if v@.len() > 0 {
                assert(rail_buildable(*surface, *area, v@[v@.len() - 1]));
                lemma_buildable_in_area(*surface, *area, v@[v@.len() - 1]);
            }
            assert(point_small(prev.endpoint));
            lemma_small_moves(prev);
            lemma_near_area_fits(rail_step(prev));
            lemma_step_exact(from, prev, i as int);
        }
        let next = prev.move_forward_step();
        match build_rail(surface, area, next) {
            Some(built) => {
                let ghost before = v@;
                v.push(built);
                proof {
                    assert(v@ == step_chain(from, (i + 1) as nat));
                    assert forall|k: int| 0 <= k < v@.len() implies rail_buildable(*surface, *area, #[trigger] v@[k]) by {
                        if k < before.len() {
                            assert(v@[k] == before[k]);
                        }
                    }
                    lemma_buildable_in_area(*surface, *area, built);
                    if area_contains(*area, from.endpoint) {
                        lemma_steps_bounded(from, built, i + 1, *area);
                    }
                }
            },
            None => {
                return None;
            },
        }
        i = i + 1;
    }
    Some(v)
}

/// A turn from `from`, if it can be built.
fn try_turn(surface: &VSurface, area: &VArea, from: Rail, t: TurnType) -> (r: Option<Rail>)
    requires
        surface.wf(),
        point_small(from.endpoint),
    ensures
        r matches Some(x) ==> x == rail_rotating(from, t),
        r is Some <==> rail_buildable(*surface, *area, rail_rotating(from, t)),
{
    proof {
        lemma_small_moves(from);
    }
    let turned = match t {
        TurnType::Turn90 => from.move_right(),
        TurnType::Turn270 => from.move_left(),
    };
    proof {
        lemma_near_area_fits(turned);
    }
    build_rail(surface, area, turned)
}

/// The first leg around: a left turn off the axis, `a` straight steps, and a
/// right turn.
pub open spec fn first_leg(axis: Rail, a: nat) -> Seq<Rail> {
    let t0 = rail_rotating(axis, TurnType::Turn270);
    let s = step_chain(t0, a);
    seq![t0] + s + seq![rail_rotating(last_or(t0, s), TurnType::Turn90)]
}

/// The leg across: `b` straight steps on from `from`, and a right turn.
pub open spec fn across_leg(from: Rail, b: nat) -> Seq<Rail> {
    let s = step_chain(from, b);
    s + seq![rail_rotating(last_or(from, s), TurnType::Turn90)]
}

/// The leg back: `c` straight steps on from `from`, and a left turn back
/// onto the axis's direction.
pub open spec fn back_leg(from: Rail, c: nat) -> Seq<Rail> {
    let s = step_chain(from, c);
    s + seq![rail_rotating(last_or(from, s), TurnType::Turn270)]
}

/// The rails going around from `axis`: left, `a` straight, right, `b`
/// straight, right, `c` straight, left; each rail from the one before.
pub open spec fn go_around_shape(axis: Rail, a: nat, b: nat, c: nat) -> Seq<Rail> {
    let l1 = first_leg(axis, a);
    let l2 = across_leg(l1.last(), b);
    l1 + l2 + back_leg(l2.last(), c)
}

/// Why going around failed: the rails given back ran into a turn, or none
/// were left.
#[derive(Clone, Copy, PartialEq, Eq, Structural, Debug)]
pub enum GoAroundErr {
    CrashedAtTurn,
}

fn bump_steps(s: u64) -> (r: u64)
    requires
        s <= MAX_STRAIGHT_STEPS + 1,
    ensures
        r == if s <= MAX_STRAIGHT_STEPS { s + 1 } else { s as int },
{
    if s <= MAX_STRAIGHT_STEPS { s + 1 } else { s }
}

fn append_rails(path: &mut Vec<Rail>, more: &Vec<Rail>)
    ensures
        final(path)@ == old(path)@ + more@,
{
    let mut i: usize = 0;
    while i < more.len()
        invariant
            i <= more@.len(),
            path@ == old(path)@ + more@.take(i as int),
        decreases more@.len() - i,
    {
        path.push(more[i]);
        proof {
            assert(more@.take(i + 1) =~= more@.take(i as int).push(more@[i as int]));
        }
        i = i + 1;
    }
    proof {
        assert(more@.take(more@.len() as int) =~= more@);
    }
}

proof fn lemma_concat_buildable(surface: VSurface, area: VArea, a: Seq<Rail>, b: Seq<Rail>)
    requires
        all_buildable(surface, area, a),
        all_buildable(surface, area, b),
    ensures
        all_buildable(surface, area, a + b),
{
    assert forall|i: int| 0 <= i < (a + b).len() implies rail_buildable(surface, area, #[trigger] (a + b)[i]) by {
        if i < a.len() {
            assert((a + b)[i] == a[i]);
        } else {
            assert((a + b)[i] == b[i - a.len()]);
        }
    }
}

/// What came of one try at a straight run ending in a turn.
enum LegTry {
    Built(Vec<Rail>),
    StraightBlocked,
    TurnBlocked,
}

/// `s` straight steps on from `from`, then a turn `t`, if all can be built.
fn try_leg(surface: &VSurface, area: &VArea, from: Rail, s: u64, t: TurnType) -> (r: LegTry)
    requires
        surface.wf(),
        area_small(*area),
        point_small(from.endpoint),
        area_contains(*area, from.endpoint),
    ensures
        r matches LegTry::Built(v) ==> v@ == step_chain(from, s as nat) + seq![rail_rotating(last_or(from, step_chain(from, s as nat)), t)]
            && all_buildable(*surface, *area, v@),
        !(r is StraightBlocked) ==> s <= MAX_STRAIGHT_STEPS,
{
    let straight = match walk_straight(surface, area, from, s) {
        Some(v) => v,
        None => {
            return LegTry::StraightBlocked;
        },
    };
    let turn_from = if straight.len() == 0 { from } else { straight[straight.len() - 1] };
    proof {
        assert(turn_from == last_or(from, straight@));
        if straight@.len() > 0 {
            assert(rail_buildable(*surface, *area, straight@[straight@.len() - 1]));
            lemma_buildable_in_area(*surface, *area, straight@[straight@.len() - 1]);
        }
    }
    let turned = match try_turn(surface, area, turn_from, t) {
        Some(x) => x,
        None => {
            return LegTry::TurnBlocked;
        },
    };
    let mut v = straight;
    let ghost before = v@;
    v.push(turned);
    proof {
        assert(v@ =~= before + seq![turned]);
        lemma_concat_buildable(*surface, *area, before, seq![turned]);
    }
    LegTry::Built(v)
}

/// The first leg off `axis`: `None` when the left turn off the axis is
/// blocked; else the step count goes up by one and the leg is tried with it.
fn try_first_leg(surface: &VSurface, area: &VArea, axis: Rail, s: u64) -> (r: (Option<LegTry>, u64))
    requires
        surface.wf(),
        area_small(*area),
        point_small(axis.endpoint),
        s <= MAX_STRAIGHT_STEPS + 1,
    ensures
        r.0 is None ==> r.1 == s,
        r.0 is Some ==> r.1 == if s <= MAX_STRAIGHT_STEPS { s + 1 } else { s as int },
        r.0 matches Some(LegTry::Built(v)) ==> v@ == first_leg(axis, r.1 as nat) && all_buildable(*surface, *area, v@),
        r.0 matches Some(t) && !(t is StraightBlocked) ==> r.1 <= MAX_STRAIGHT_STEPS,
{
    let t0 = match try_turn(surface, area, axis, TurnType::Turn270) {
        Some(t) => t,
        None => {
            return (None, s);
        },
    };
    proof {
        lemma_small_moves(axis);
        lemma_buildable_in_area(*surface, *area, t0);
    }
    let n = bump_steps(s);
    match try_leg(surface, area, t0, n, TurnType::Turn90) {
        LegTry::Built(rest) => {
            let mut v: Vec<Rail> = Vec::new();
            v.push(t0);
            append_rails(&mut v, &rest);
            proof {
                assert(v@ =~= seq![t0] + rest@);
                assert(v@ =~= first_leg(axis, n as nat));
                lemma_concat_buildable(*surface, *area, seq![t0], rest@);
            }
            (Some(LegTry::Built(v)), n)
        },
        LegTry::StraightBlocked => (Some(LegTry::StraightBlocked), n),
        LegTry::TurnBlocked => (Some(LegTry::TurnBlocked), n),
    }
}

/// Go around what blocks the path. The first leg turns left off the path's
/// last rail; if no first leg of any length works from there, the last rail
/// is given back and the search starts again from the one before, which
/// must then be straight. Each leg is tried with one more straight step than
/// before; when the across or back leg cannot be built, the leg before is
/// tried again longer. On success the path gets the whole way around; it
/// fails when it would give back a turn or its last rail. The search area
/// and the path must lie within the routing limit; `end` takes no part in
/// the search.
pub fn go_navigate_around(surface: &VSurface, path: &mut Vec<Rail>, search_area: &VArea, end: &Rail)
    -> (r: Result<(), GoAroundErr>)
    requires
        surface.wf(),
        area_small(*search_area),
        forall|i: int| 0 <= i < old(path)@.len() ==> point_small((#[trigger] old(path)@[i]).endpoint),
    ensures
        r is Ok ==> exists|k: int, a: nat, b: nat, c: nat|
            #![trigger go_around_shape(old(path)@[k - 1], a, b, c)] {
            &&& 1 <= k <= old(path)@.len()
            &&& a >= 1 && b >= 1 && c >= 1
            &&& final(path)@ == old(path)@.take(k) + go_around_shape(old(path)@[k - 1], a, b, c)
            &&& forall|i: int| k <= i < old(path)@.len() ==> (#[trigger] old(path)@[i]).mode == RailMode::Straight
            &&& all_buildable(*surface, *search_area, go_around_shape(old(path)@[k - 1], a, b, c))
        },
        r is Err ==> exists|k: int| 0 <= k <= old(path)@.len() && final(path)@ == old(path)@.take(k),
        old(path)@.len() == 0 ==> r is Err,
{
    let ghost o = path@;
    if path.len() == 0 {
        proof {
            assert(path@ =~= o.take(0));
        }
        return Err(GoAroundErr::CrashedAtTurn);
    }
    let mut pop_existing = false;
    let mut depth: u8 = 1;
    let mut s0: u64 = 0;
    let mut s1: u64 = 0;
    let mut s2: u64 = 0;
    let mut leg0: Vec<Rail> = Vec::new();
    let mut leg1: Vec<Rail> = Vec::new();
    let ghost bound: int = MAX_STRAIGHT_STEPS + 1;
    loop
        invariant
            surface.wf(),
            area_small(*search_area),
            o == old(path)@,
            forall|i: int| 0 <= i < o.len() ==> point_small((#[trigger] o[i]).endpoint),
            1 <= path@.len() <= o.len(),
            path@ == o.take(path@.len() as int),
            forall|i: int| path@.len() <= i < o.len() ==> (#[trigger] o[i]).mode == RailMode::Straight,
            1 <= depth <= 3,
            pop_existing ==> depth == 1,
            s0 <= bound && s1 <= bound && s2 <= bound,
            bound == MAX_STRAIGHT_STEPS + 1,
            depth >= 2 ==> s0 >= 1 && leg0@ == first_leg(path@.last(), s0 as nat)
                && all_buildable(*surface, *search_area, leg0@),
            depth >= 3 ==> s1 >= 1 && leg1@ == across_leg(leg0@.last(), s1 as nat)
                && all_buildable(*surface, *search_area, leg1@),
        decreases path@.len(),
            2 * (bound - s0) + 2 * (bound - s1) + 2 * (bound - s2) + depth + (if pop_existing { 0int } else { 1int }),
    {
        if depth == 1 {
            if pop_existing {
                let last = path.pop().unwrap();
                proof {
                    assert(last == o[path@.len() as int]);
                    assert(path@ =~= o.take(path@.len() as int));
                }
                if last.mode != RailMode::Straight {
                    return Err(GoAroundErr::CrashedAtTurn);
                }
                pop_existing = false;
                if path.len() == 0 {
                    return Err(GoAroundErr::CrashedAtTurn);
                }
            }
            let axis = path[path.len() - 1];
            proof {
                assert(axis == o[path@.len() - 1]);
            }
            let (tried, s) = try_first_leg(surface, search_area, axis, s0);
            s0 = s;
            match tried {
                None => {
                    pop_existing = true;
                },
                Some(LegTry::Built(v)) => {
                    leg0 = v;
                    depth = 2;
                },
                Some(LegTry::StraightBlocked) => {
                    pop_existing = true;
                },
                Some(LegTry::TurnBlocked) => {},
            }
        } else if depth == 2 {
            s1 = bump_steps(s1);
            let from = leg0[leg0.len() - 1];
            proof {
                assert(rail_buildable(*surface, *search_area, leg0@[leg0@.len() - 1]));
                lemma_buildable_in_area(*surface, *search_area, leg0@[leg0@.len() - 1]);
            }
            match try_leg(surface, search_area, from, s1, TurnType::Turn90) {
                LegTry::Built(v) => {
                    leg1 = v;
                    depth = 3;
                },
                LegTry::StraightBlocked => {
                    depth = 1;
                },
                LegTry::TurnBlocked => {},
            }
        } else {
            s2 = bump_steps(s2);
            let from = leg1[leg1.len() - 1];
            proof {
                assert(rail_buildable(*surface, *search_area, leg1@[leg1@.len() - 1]));
                lemma_buildable_in_area(*surface, *search_area, leg1@[leg1@.len() - 1]);
            }
            match try_leg(surface, search_area, from, s2, TurnType::Turn270) {
                LegTry::Built(leg2) => {
                    let ghost k = path@.len() as int;
                    let ghost axis = path@.last();
                    append_rails(path, &leg0);
                    append_rails(path, &leg1);
                    append_rails(path, &leg2);
                    proof {
                        let shape = go_around_shape(axis, s0 as nat, s1 as nat, s2 as nat);
                        assert(leg2@ =~= back_leg(leg1@.last(), s2 as nat));
                        assert(shape =~= leg0@ + leg1@ + leg2@);
                        assert(axis == o[k - 1]);
                        assert(path@ =~= o.take(k) + shape);
                        lemma_concat_buildable(*surface, *search_area, leg0@, leg1@);
                        lemma_concat_buildable(*surface, *search_area, leg0@ + leg1@, leg2@);
                        assert(shape == go_around_shape(o[k - 1], s0 as nat, s1 as nat, s2 as nat));
                    }
                    return Ok(());
                },
                LegTry::StraightBlocked => {
                    depth = 2;
                },
                LegTry::TurnBlocked => {},
            }
        }
    }
}


/// Whether `run` is the straight run from `from`: grid steps on, each
/// buildable, up to the first one that is not.
pub open spec fn blocked_run(surface: VSurface, area: VArea, from: Rail, run: Seq<Rail>) -> bool {
    &&& run == step_chain(from, run.len())
    &&& all_buildable(surface, area, run)
    &&& !rail_buildable(surface, area, rail_step(last_or(from, run)))
}

proof fn lemma_steps_between(from: Rail, a: Rail, b: Rail, i: int, j: int)
    requires
        steps_from(from, a, i),
        steps_from(from, b, j),
    ensures
        steps_from(a, b, j - i),
{
    match from.direction {
        RailDirection::Up => {},
        RailDirection::Down => {},
        RailDirection::Left => {},
        RailDirection::Right => {},
    }
}

/// Straight grid steps on from `from` for as long as each can be built.
fn run_until_blocked(surface: &VSurface, area: &VArea, from: Rail) -> (r: Vec<Rail>)
    requires
        surface.wf(),
        area_small(*area),
        point_small(from.endpoint),
    ensures
        blocked_run(*surface, *area, from, r@),
{
    let mut v: Vec<Rail> = Vec::new();
    loop
        invariant
            surface.wf(),
            area_small(*area),
            point_small(from.endpoint),
            v@ == step_chain(from, v@.len()),
            all_buildable(*surface, *area, v@),
            steps_from(from, last_or(from, v@), v@.len() as int),
            v@.len() > 0 ==> steps_from(from, v@[0], 1),
            v@.len() <= MAX_STRAIGHT_STEPS + 1,
        decreases MAX_STRAIGHT_STEPS + 1 - v@.len(),
    {
        let prev = if v.len() == 0 { from } else { v[v.len() - 1] };
        proof {
            assert(prev == last_or(from, v@));
            if v@.len() > 0 {
                assert(rail_buildable(*surface, *area, v@[v@.len() - 1]));
                lemma_buildable_in_area(*surface, *area, v@[v@.len() - 1]);
            }
            lemma_small_moves(prev);
            lemma_near_area_fits(rail_step(prev));
            lemma_step_exact(from, prev, v@.len() as int);
        }
        let next = prev.move_forward_step();
        match build_rail(surface, area, next) {
            Some(built) => {
                let ghost before = v@;
                proof {
                    lemma_buildable_in_area(*surface, *area, built);
                    if before.len() > 0 {
                        assert(rail_buildable(*surface, *area, before[0]));
                        lemma_buildable_in_area(*surface, *area, before[0]);
                        lemma_steps_between(from, before[0], built, 1, (before.len() + 1) as int);
                        lemma_steps_bounded(before[0], built, before.len() as int, *area);
                    }
                }
                v.push(built);
                proof {
                    assert(v@ == step_chain(from, v@.len()));
                    assert(v@[0] == if before.len() > 0 { before[0] } else { built });
                    assert forall|k: int| 0 <= k < v@.len() implies rail_buildable(*surface, *area, #[trigger] v@[k]) by {
                        if k < before.len() {
                            assert(v@[k] == before[k]);
                        }
                    }
                }
            },
            None => {
                return v;
            },
        }
    }
}

/// The rails that go around from `last`, given the straight run taken: a
/// right turn, the run, and a left turn when that one can be built.
pub open spec fn around_with(surface: VSurface, area: VArea, last: Rail, run: Seq<Rail>) -> Seq<Rail> {
    let t = rail_rotating(last, TurnType::Turn90);
    let close = rail_rotating(last_or(t, run), TurnType::Turn270);
    seq![t] + run + (if rail_buildable(surface, area, close) { seq![close] } else { Seq::empty() })
}

/// Whether `around` is the way around from `last`: nothing when the right
/// turn off `last` is blocked; else the turn, the straight run on from it
/// up to the first blocked step, and a closing left turn if it can be built.
pub open spec fn shinri_around(surface: VSurface, area: VArea, last: Rail, around: Seq<Rail>) -> bool {
    let t = rail_rotating(last, TurnType::Turn90);
    if !rail_buildable(surface, area, t) {
        around.len() == 0
    } else {
        exists|run: Seq<Rail>| #[trigger] blocked_run(surface, area, t, run)
            && around == around_with(surface, area, last, run)
    }
}


/// Whether a point lies at or past `end` along the x axis.
pub open spec fn reached_x(r: Rail, end: Rail) -> bool {
    r.endpoint.x >= end.endpoint.x
}

/// Whether `v` is the route laid from `start` towards `end`, its first `n`
/// rails being the straight run: the straight run from `start` up to the
/// first blocked step; then, if its last rail does not reach `end` along x,
/// the way around from that rail.
pub open spec fn shinri_route(surface: VSurface, area: VArea, start: Rail, end: Rail, v: Seq<Rail>, n: int) -> bool {
    &&& 1 <= n <= v.len()
    &&& blocked_run(surface, area, start, v.take(n))
    &&& if reached_x(v[n - 1], end) {
            n == v.len()
        } else {
            shinri_around(surface, area, v[n - 1], v.skip(n))
        }
}

/// Pathfinder v2: from `start`, go straight while the rails can be built;
/// if the last rail does not reach `end` along x, go around it once (see
/// `shinri_around`). Returns the rails laid, in order. The first step from
/// `start` must be buildable.
pub fn shinri_start(surface: &VSurface, start: Rail, end: Rail, search_area: &VArea) -> (r: Option<Vec<Rail>>)
    requires
        surface.wf(),
        area_small(*search_area),
        point_small(start.endpoint),
        rail_buildable(*surface, *search_area, rail_step(start)),
    ensures
        r is Some,
        exists|n: int| #[trigger] shinri_route(*surface, *search_area, start, end, r.unwrap()@, n),
{
    let straight = run_until_blocked(surface, search_area, start);
    proof {
        lemma_small_moves(start);
        if straight@.len() == 0 {
            assert(last_or(start, straight@) == start);
        }
    }
    let last = straight[straight.len() - 1];
    let ghost n = straight@.len() as int;
    if last.endpoint.x >= end.endpoint.x {
        proof {
            assert(straight@.take(n) =~= straight@);
            assert(blocked_run(*surface, *search_area, start, straight@.take(n)));
            assert(reached_x(straight@[n - 1], end));
            assert(1 <= n <= straight@.len());
            assert(shinri_route(*surface, *search_area, start, end, straight@, n));
        }
        let r = Some(straight);
        proof {
            assert(shinri_route(*surface, *search_area, start, end, r.unwrap()@, n));
        }
        return r;
    }
    proof {
        assert(rail_buildable(*surface, *search_area, straight@[n - 1]));
        lemma_buildable_in_area(*surface, *search_area, straight@[n - 1]);
    }
    let around = shinri_go_around(surface, search_area, last);
    let mut v = straight;
    let ghost s0 = v@;
    append_rails(&mut v, &around);
    proof {
        assert(v@.take(n) =~= s0);
        assert(v@.skip(n) =~= around@);
        assert(v@[n - 1] == last);
        assert(blocked_run(*surface, *search_area, start, v@.take(n)));
        assert(!reached_x(v@[n - 1], end));
        assert(shinri_around(*surface, *search_area, v@[n - 1], v@.skip(n)));
        assert(shinri_route(*surface, *search_area, start, end, v@, n));
    }
    let r = Some(v);
    proof {
        assert(shinri_route(*surface, *search_area, start, end, r.unwrap()@, n));
    }
    r
}

/// The way around from `last` (see `shinri_around`).
fn shinri_go_around(surface: &VSurface, area: &VArea, last: Rail) -> (r: Vec<Rail>)
    requires
        surface.wf(),
        area_small(*area),
        point_small(last.endpoint),
    ensures
        shinri_around(*surface, *area, last, r@),
{
    let t = match try_turn(surface, area, last, TurnType::Turn90) {
        Some(t) => t,
        None => {
            return Vec::new();
        },
    };
    proof {
        lemma_buildable_in_area(*surface, *area, t);
    }
    let run = run_until_blocked(surface, area, t);
    let close_from = if run.len() == 0 { t } else { run[run.len() - 1] };
    proof {
        assert(close_from == last_or(t, run@));
        if run@.len() > 0 {
            assert(rail_buildable(*surface, *area, run@[run@.len() - 1]));
            lemma_buildable_in_area(*surface, *area, run@[run@.len() - 1]);
        }
        lemma_small_moves(close_from);
        lemma_near_area_fits(rail_rotating(close_from, TurnType::Turn270));
    }
    let mut v: Vec<Rail> = Vec::new();
    v.push(t);
    append_rails(&mut v, &run);
    let closing = build_rail(surface, area, close_from.move_left());
    match closing {
        Some(c) => v.push(c),
        None => {},
    }
    proof {
        assert(v@ =~= around_with(*surface, *area, last, run@));
        assert(blocked_run(*surface, *area, t, run@));
    }
    v
}


proof fn lemma_step_chain_direction(from: Rail, n: nat)
    ensures
        step_chain(from, n).len() == n,
        forall|i: int| 0 <= i < n ==> (#[trigger] step_chain(from, n)[i]).direction == from.direction,
        last_or(from, step_chain(from, n)).direction == from.direction,
    decreases n,
{
    if n > 0 {
        lemma_step_chain_direction(from, (n - 1) as nat);
    }
}

/// Going around ends facing the way the rail it left from faced, on a left
/// turn: left, right, right and left again make a full turn.
pub proof fn law_go_around_keeps_direction(axis: Rail, a: nat, b: nat, c: nat)
    ensures
        go_around_shape(axis, a, b, c).last().direction == axis.direction,
        go_around_shape(axis, a, b, c).last().mode == RailMode::Turn(TurnType::Turn270),
{
    let t0 = rail_rotating(axis, TurnType::Turn270);
    lemma_step_chain_direction(t0, a);
    let l1 = first_leg(axis, a);
    assert(l1.last() == rail_rotating(last_or(t0, step_chain(t0, a)), TurnType::Turn90));
    assert(l1.last().direction == axis.direction) by {
        match axis.direction {
            RailDirection::Up => {},
            RailDirection::Down => {},
            RailDirection::Left => {},
            RailDirection::Right => {},
        }
    }
    lemma_step_chain_direction(l1.last(), b);
    let l2 = across_leg(l1.last(), b);
    assert(l2.last() == rail_rotating(last_or(l1.last(), step_chain(l1.last(), b)), TurnType::Turn90));
    lemma_step_chain_direction(l2.last(), c);
    let l3 = back_leg(l2.last(), c);
    assert(l3.last() == rail_rotating(last_or(l2.last(), step_chain(l2.last(), c)), TurnType::Turn270));
    assert(l3.last().direction == axis.direction) by {
        match axis.direction {
            RailDirection::Up => {},
            RailDirection::Down => {},
            RailDirection::Left => {},
            RailDirection::Right => {},
        }
    }
    assert(go_around_shape(axis, a, b, c) == l1 + l2 + l3);
}


/// Where a point lies along direction `d`.
pub open spec fn forward_of(p: VPoint, d: RailDirection) -> int {
    match d {
        RailDirection::Up => p.y as int,
        RailDirection::Down => -p.y,
        RailDirection::Right => p.x as int,
        RailDirection::Left => -p.x,
    }
}

/// How far one step in direction `e` goes along `d`: one ahead, one back,
/// or none sideways.
pub open spec fn along(e: RailDirection, d: RailDirection) -> int {
    if e == d { 1 } else if e == rail_spin(d, 2) { -1 } else { 0 }
}

#[verifier::spinoff_prover]
proof fn lemma_micro_forward(p: VPoint, e: RailDirection, n: int, d: RailDirection)
    requires
        micro_fits(p, e, n),
    ensures
        forward_of(micro_point(p, e, n), d) == forward_of(p, d) + n * along(e, d),
{
    let q = micro_point(p, e, n);
    assert(q.x == p.x + rail_dx(e) * n && q.y == p.y + rail_dy(e) * n);
    let g = along(e, d);
    let fx = forward_of(q, d) - forward_of(p, d);
    if e == d {
        assert(g == 1);
        match d {
            RailDirection::Up => assert(fx == n),
            RailDirection::Down => assert(fx == n),
            RailDirection::Left => assert(fx == n),
            RailDirection::Right => assert(fx == n),
        }
        assert(n * g == n) by (nonlinear_arith) requires g == 1;
    } else if e == rail_spin(d, 2) {
        assert(g == -1);
        match d {
            RailDirection::Up => assert(fx == -n),
            RailDirection::Down => assert(fx == -n),
            RailDirection::Left => assert(fx == -n),
            RailDirection::Right => assert(fx == -n),
        }
        assert(n * g == -n) by (nonlinear_arith) requires g == -1;
    } else {
        assert(g == 0);
        match d {
            RailDirection::Up => { match e { RailDirection::Left => {}, RailDirection::Right => {}, _ => {} } assert(fx == 0) },
            RailDirection::Down => { match e { RailDirection::Left => {}, RailDirection::Right => {}, _ => {} } assert(fx == 0) },
            RailDirection::Left => { match e { RailDirection::Up => {}, RailDirection::Down => {}, _ => {} } assert(fx == 0) },
            RailDirection::Right => { match e { RailDirection::Up => {}, RailDirection::Down => {}, _ => {} } assert(fx == 0) },
        }
        assert(n * g == 0) by (nonlinear_arith) requires g == 0;
    }
}

proof fn lemma_turn_forward(r: Rail, t: TurnType, d: RailDirection)
    requires
        point_small(r.endpoint),
    ensures
        forward_of(rail_rotating(r, t).endpoint, d) == forward_of(r.endpoint, d)
            + 16 * along(r.direction, d) + 16 * along(rail_rotating(r, t).direction, d),
        rail_rotating(r, t).direction == rail_spin(r.direction, if t == TurnType::Turn90 { 1int } else { 3int }),
{
    lemma_small_moves(r);
    let first = rail_step(r);
    lemma_micro_forward(r.endpoint, r.direction, 16, d);
    let spun = rail_rotated(first, if t == TurnType::Turn90 { 1int } else { 3int });
    lemma_micro_forward(first.endpoint, spun.direction, 16, d);
}

proof fn lemma_chain_forward(from: Rail, n: nat, d: RailDirection)
    requires
        point_small(from.endpoint),
        forall|i: int| 0 <= i < n ==> point_small((#[trigger] step_chain(from, n)[i]).endpoint),
    ensures
        forward_of(last_or(from, step_chain(from, n)).endpoint, d) == forward_of(from.endpoint, d) + 16 * n * along(from.direction, d),
    decreases n,
{
    lemma_step_chain_direction(from, n);
    if n > 0 {
        let prev = step_chain(from, (n - 1) as nat);
        lemma_step_chain_direction(from, (n - 1) as nat);
        assert forall|i: int| 0 <= i < n - 1 implies point_small((#[trigger] prev[i]).endpoint) by {
            assert(prev[i] == step_chain(from, n)[i]);
        }
        lemma_chain_forward(from, (n - 1) as nat, d);
        let l = last_or(from, prev);
        if n > 1 {
            assert(l == step_chain(from, n)[n - 2]);
        } else {
            assert(l == from);
        }
        assert(point_small(l.endpoint));
        assert(l.direction == from.direction);
        assert(last_or(from, step_chain(from, n)) == rail_step(l));
        lemma_small_moves(l);
        lemma_micro_forward(l.endpoint, l.direction, 16, d);
        assert(forward_of(rail_step(l).endpoint, d) == forward_of(l.endpoint, d) + 16 * along(l.direction, d));
        let g = along(from.direction, d);
        assert(16 * n * g == 16 * (n - 1) * g + 16 * g) by (nonlinear_arith);
        assert(forward_of(l.endpoint, d) == forward_of(from.endpoint, d) + 16 * (n - 1) * g);
    } else {
        let g = along(from.direction, d);
        assert(16 * n * g == 0) by (nonlinear_arith) requires n == 0;
    }
}


proof fn lemma_spins(d: RailDirection)
    ensures
        along(d, d) == 1,
        along(rail_spin(d, 1), d) == 0,
        along(rail_spin(d, 3), d) == 0,
        rail_spin(rail_spin(d, 3), 1) == d,
        rail_spin(rail_spin(d, 1), 3) == d,
{
    match d {
        RailDirection::Up => {},
        RailDirection::Down => {},
        RailDirection::Left => {},
        RailDirection::Right => {},
    }
}

/// Going around from `axis` ends `b + 4` grid steps further along the
/// axis's direction: each of the four turns goes one step ahead, and the
/// leg across the rest.
pub proof fn lemma_shape_forward(axis: Rail, a: nat, b: nat, c: nat)
    requires
        point_small(axis.endpoint),
        forall|i: int| 0 <= i < go_around_shape(axis, a, b, c).len()
            ==> point_small((#[trigger] go_around_shape(axis, a, b, c)[i]).endpoint),
    ensures
        forward_of(go_around_shape(axis, a, b, c).last().endpoint, axis.direction)
            == forward_of(axis.endpoint, axis.direction) + 16 * (b + 4),
{
    let d = axis.direction;
    let shape = go_around_shape(axis, a, b, c);
    lemma_spins(d);
    let t0 = rail_rotating(axis, TurnType::Turn270);
    let c0 = step_chain(t0, a);
    lemma_step_chain_direction(t0, a);
    let l1 = first_leg(axis, a);
    let l2 = across_leg(l1.last(), b);
    let l3 = back_leg(l2.last(), c);
    assert(shape == l1 + l2 + l3);
    lemma_turn_forward(axis, TurnType::Turn270, d);
    assert(shape[0] == t0);
    assert forall|i: int| 0 <= i < a implies point_small((#[trigger] c0[i]).endpoint) by {
        assert(shape[1 + i] == c0[i]);
    }
    lemma_chain_forward(t0, a, d);
    let e0 = last_or(t0, c0);
    assert(point_small(e0.endpoint)) by {
        if a > 0 {
            assert(e0 == shape[a as int]);
        }
    }
    lemma_turn_forward(e0, TurnType::Turn90, d);
    let r1 = l1.last();
    assert(r1 == rail_rotating(e0, TurnType::Turn90));
    assert(r1.direction == d);
    assert(forward_of(r1.endpoint, d) == forward_of(axis.endpoint, d) + 32) by (nonlinear_arith)
        requires
            forward_of(t0.endpoint, d) == forward_of(axis.endpoint, d) + 16 * along(d, d) + 16 * along(t0.direction, d),
            along(d, d) == 1,
            along(t0.direction, d) == 0,
            forward_of(e0.endpoint, d) == forward_of(t0.endpoint, d) + 16 * a * along(t0.direction, d),
            forward_of(r1.endpoint, d) == forward_of(e0.endpoint, d) + 16 * along(e0.direction, d) + 16 * along(r1.direction, d),
            e0.direction == t0.direction,
            r1.direction == d;
    assert(shape[l1.len() - 1] == r1);
    let c1 = step_chain(r1, b);
    lemma_step_chain_direction(r1, b);
    assert forall|i: int| 0 <= i < b implies point_small((#[trigger] c1[i]).endpoint) by {
        assert(shape[l1.len() + i] == c1[i]);
    }
    lemma_chain_forward(r1, b, d);
    let e1 = last_or(r1, c1);
    assert(point_small(e1.endpoint)) by {
        if b > 0 {
            assert(e1 == shape[l1.len() + b - 1]);
        }
    }
    lemma_turn_forward(e1, TurnType::Turn90, d);
    let r2 = l2.last();
    assert(r2 == rail_rotating(e1, TurnType::Turn90));
    assert(shape[l1.len() + l2.len() - 1] == r2);
    let c2 = step_chain(r2, c);
    lemma_step_chain_direction(r2, c);
    assert forall|i: int| 0 <= i < c implies point_small((#[trigger] c2[i]).endpoint) by {
        assert(shape[l1.len() + l2.len() + i] == c2[i]);
    }
    lemma_chain_forward(r2, c, d);
    let e2 = last_or(r2, c2);
    assert(point_small(e2.endpoint)) by {
        if c > 0 {
            assert(e2 == shape[l1.len() + l2.len() + c - 1]);
        }
    }
    lemma_turn_forward(e2, TurnType::Turn270, d);
    let r3 = l3.last();
    assert(r3 == rail_rotating(e2, TurnType::Turn270));
    assert(shape.last() == r3);
    assert(forward_of(r3.endpoint, d) == forward_of(r1.endpoint, d) + 16 * b + 32) by (nonlinear_arith)
        requires
            forward_of(e1.endpoint, d) == forward_of(r1.endpoint, d) + 16 * b * along(r1.direction, d),
            along(r1.direction, d) == 1,
            forward_of(r2.endpoint, d) == forward_of(e1.endpoint, d) + 16 * along(e1.direction, d) + 16 * along(r2.direction, d),
            e1.direction == r1.direction,
            along(r2.direction, d) == 0,
            forward_of(e2.endpoint, d) == forward_of(r2.endpoint, d) + 16 * c * along(r2.direction, d),
            forward_of(r3.endpoint, d) == forward_of(e2.endpoint, d) + 16 * along(e2.direction, d) + 16 * along(r3.direction, d),
            e2.direction == r2.direction,
            along(r3.direction, d) == 1;
}


proof fn lemma_chain_elements(from: Rail, n: nat)
    requires
        point_small(from.endpoint),
        forall|i: int| 0 <= i < n ==> point_small((#[trigger] step_chain(from, n)[i]).endpoint),
    ensures
        step_chain(from, n).len() == n,
        forall|i: int| 0 <= i < n ==> {
            &&& (#[trigger] step_chain(from, n)[i]).direction == from.direction
            &&& step_chain(from, n)[i].mode == RailMode::Straight
            &&& forward_of(step_chain(from, n)[i].endpoint, from.direction) == forward_of(from.endpoint, from.direction) + 16 * (i + 1)
        },
    decreases n,
{
    lemma_step_chain_direction(from, n);
    lemma_spins(from.direction);
    if n > 0 {
        let prev = step_chain(from, (n - 1) as nat);
        lemma_step_chain_direction(from, (n - 1) as nat);
        assert forall|i: int| 0 <= i < n - 1 implies point_small((#[trigger] prev[i]).endpoint) by {
            assert(prev[i] == step_chain(from, n)[i]);
        }
        lemma_chain_elements(from, (n - 1) as nat);
        let l = last_or(from, prev);
        if n > 1 {
            assert(l == prev[n - 2]);
        }
        lemma_small_moves(l);
        lemma_micro_forward(l.endpoint, l.direction, 16, from.direction);
        assert forall|i: int| 0 <= i < n implies {
            &&& (#[trigger] step_chain(from, n)[i]).direction == from.direction
            &&& step_chain(from, n)[i].mode == RailMode::Straight
            &&& forward_of(step_chain(from, n)[i].endpoint, from.direction) == forward_of(from.endpoint, from.direction) + 16 * (i + 1)
        } by {
            if i < n - 1 {
                assert(step_chain(from, n)[i] == prev[i]);
            }
        }
    }
}

/// Which way a run is heading for, and the coordinate that counts as
/// arrived: `X(v)` when a rail's endpoint has `x >= v`, `Y(v)` when `y >= v`.
#[derive(Clone, Copy, PartialEq, Eq, Structural, Debug)]
pub enum AxisGoal {
    X(i32),
    Y(i32),
}

/// Whether the rail has arrived at the goal.
pub open spec fn goal_reached(r: Rail, g: AxisGoal) -> bool {
    match g {
        AxisGoal::X(v) => r.endpoint.x >= v,
        AxisGoal::Y(v) => r.endpoint.y >= v,
    }
}

fn reached(r: &Rail, g: AxisGoal) -> (b: bool)
    ensures
        b == goal_reached(*r, g),
{
    match g {
        AxisGoal::X(v) => r.endpoint.x >= v,
        AxisGoal::Y(v) => r.endpoint.y >= v,
    }
}

/// How a straight run ended: blocked, or at the goal.
#[derive(Clone, Copy, PartialEq, Eq, Structural, Debug)]
pub enum GoStraightResult {
    NeedGoAround,
    NavigateSuccess,
}

/// Runs straight on from the path's last rail, one grid step at a time,
/// until a step cannot be built or a rail arrives at the goal.
pub fn go_straight_until(surface: &VSurface, path: &mut Vec<Rail>, goal: AxisGoal, search_area: &VArea)
    -> (r: GoStraightResult)
    requires
        surface.wf(),
        area_small(*search_area),
        old(path)@.len() > 0,
        point_small(old(path)@.last().endpoint),
    ensures
        exists|n: nat| {
            let run = #[trigger] step_chain(old(path)@.last(), n);
            &&& final(path)@ == old(path)@ + run
            &&& all_buildable(*surface, *search_area, run)
            &&& forall|i: int| 0 <= i < n - 1 ==> !goal_reached(#[trigger] run[i], goal)
            &&& (r is NavigateSuccess <==> n > 0 && goal_reached(run[n - 1], goal))
            &&& (r is NeedGoAround ==> !rail_buildable(*surface, *search_area, rail_step(last_or(old(path)@.last(), run))))
        },
{
    let ghost o = path@;
    let ghost from = o.last();
    let ghost mut n: nat = 0;
    proof {
        assert(path@ =~= o + step_chain(from, 0));
    }
    loop
        invariant
            surface.wf(),
            area_small(*search_area),
            o == old(path)@,
            o.len() > 0,
            from == o.last(),
            point_small(from.endpoint),
            path@ == o + step_chain(from, n),
            step_chain(from, n).len() == n,
            all_buildable(*surface, *search_area, step_chain(from, n)),
            forall|i: int| 0 <= i < n ==> !goal_reached(#[trigger] step_chain(from, n)[i], goal),
            steps_from(from, last_or(from, step_chain(from, n)), n as int),
            n > 0 ==> steps_from(from, step_chain(from, n)[0], 1),
            n <= MAX_STRAIGHT_STEPS + 1,
        decreases MAX_STRAIGHT_STEPS + 1 - n,
    {
        let ghost chain = step_chain(from, n);
        let prev = path[path.len() - 1];
        proof {
            lemma_step_chain_direction(from, n);
            if n > 0 {
                assert(prev == chain[n - 1]);
                assert(rail_buildable(*surface, *search_area, chain[n - 1]));
                lemma_buildable_in_area(*surface, *search_area, chain[n - 1]);
            } else {
                assert(prev == from);
            }
            assert(prev == last_or(from, chain));
            lemma_small_moves(prev);
            lemma_near_area_fits(rail_step(prev));
            lemma_step_exact(from, prev, n as int);
        }
        let next = prev.move_forward_step();
        match build_rail(surface, search_area, next) {
            Some(built) => {
                proof {
                    lemma_buildable_in_area(*surface, *search_area, built);
                    if n > 0 {
                        assert(rail_buildable(*surface, *search_area, chain[0]));
                        lemma_buildable_in_area(*surface, *search_area, chain[0]);
                        lemma_steps_between(from, chain[0], built, 1, (n + 1) as int);
                        lemma_steps_bounded(chain[0], built, n as int, *search_area);
                    }
                }
                path.push(built);
                let arrived = reached(&built, goal);
                proof {
                    n = n + 1;
                    let now = step_chain(from, n);
                    assert(now == chain.push(built));
                    assert(path@ =~= o + now);
                    assert(now[0] == if chain.len() > 0 { chain[0] } else { built });
                    assert forall|k: int| 0 <= k < now.len() implies rail_buildable(*surface, *search_area, #[trigger] now[k]) by {
                        if k < chain.len() {
                            assert(now[k] == chain[k]);
                        }
                    }
                    assert forall|k: int| 0 <= k < n - 1 implies !goal_reached(#[trigger] now[k], goal) by {
                        assert(now[k] == chain[k]);
                    }
                }
                if arrived {
                    return GoStraightResult::NavigateSuccess;
                }
            },
            None => {
                return GoStraightResult::NeedGoAround;
            },
        }
    }
}


/// Why hugging an axis failed: going around gave back every rail, or ran
/// into a turn.
#[derive(Clone, Copy, PartialEq, Eq, Structural, Debug)]
pub enum NavigateAxisErr {
    Crashed,
}

/// Whether `path` keeps the first `kk` rails of `o` and every rail after
/// them can be built.
pub open spec fn keeps_then_builds(surface: VSurface, area: VArea, o: Seq<Rail>, path: Seq<Rail>, kk: int) -> bool {
    &&& 0 <= kk <= o.len()
    &&& kk <= path.len()
    &&& path.take(kk) == o.take(kk)
    &&& all_buildable(surface, area, path.skip(kk))
}

proof fn lemma_keep_append(surface: VSurface, area: VArea, o: Seq<Rail>, cur: Seq<Rail>, kk: int, tail: Seq<Rail>)
    requires
        keeps_then_builds(surface, area, o, cur, kk),
        all_buildable(surface, area, tail),
    ensures
        keeps_then_builds(surface, area, o, cur + tail, kk),
{
    assert((cur + tail).take(kk) =~= cur.take(kk));
    assert((cur + tail).skip(kk) =~= cur.skip(kk) + tail);
    lemma_concat_buildable(surface, area, cur.skip(kk), tail);
}

proof fn lemma_keep_cut(surface: VSurface, area: VArea, o: Seq<Rail>, cur: Seq<Rail>, kk: int, k: int, tail: Seq<Rail>)
    requires
        keeps_then_builds(surface, area, o, cur, kk),
        0 <= k <= cur.len(),
        all_buildable(surface, area, tail),
    ensures
        keeps_then_builds(surface, area, o, cur.take(k) + tail, if k < kk { k } else { kk }),
{
    let m = if k < kk { k } else { kk };
    let next = cur.take(k) + tail;
    assert(next.take(m) =~= cur.take(m));
    assert(cur.take(m) =~= cur.take(kk).take(m));
    assert(o.take(m) =~= o.take(kk).take(m));
    assert(next.skip(m) =~= cur.take(k).skip(m) + tail);
    assert forall|i: int| 0 <= i < cur.take(k).skip(m).len() implies rail_buildable(surface, area, #[trigger] cur.take(k).skip(m)[i]) by {
        assert(cur.take(k).skip(m)[i] == cur.skip(kk)[i + m - kk]);
    }
    lemma_concat_buildable(surface, area, cur.take(k).skip(m), tail);
}

/// Hugs an axis: runs straight toward the goal and, whenever blocked, goes
/// around what blocks it, until the path's last rail arrives at the goal.
/// Fails when going around fails. The path keeps a first part of the rails
/// it had, at least one of them when it arrives, and every rail after that
/// part can be built; `end` takes no part.
pub fn navigate_axis_until(surface: &VSurface, path: &mut Vec<Rail>, goal: AxisGoal, search_area: &VArea, end: &Rail)
    -> (r: Result<(), NavigateAxisErr>)
    requires
        surface.wf(),
        area_small(*search_area),
        old(path)@.len() > 0,
        forall|i: int| 0 <= i < old(path)@.len() ==> point_small((#[trigger] old(path)@[i]).endpoint),
    ensures
        r is Ok ==> final(path)@.len() > 0 && goal_reached(final(path)@.last(), goal),
        exists|kk: int| #[trigger] keeps_then_builds(*surface, *search_area, old(path)@, final(path)@, kk)
            && (r is Ok ==> kk >= 1),
{
    let ghost o = path@;
    let ghost mut kk: int = o.len() as int;
    let ghost mut done = false;
    let ghost mut j: int = 0;
    let ghost mut dir: RailDirection = RailDirection::Up;
    proof {
        assert(path@.take(kk) =~= o.take(kk));
        assert(path@.skip(kk) =~= Seq::<Rail>::empty());
    }
    loop
        invariant
            surface.wf(),
            area_small(*search_area),
            o == old(path)@,
            path@.len() > 0,
            forall|i: int| 0 <= i < path@.len() ==> point_small((#[trigger] path@[i]).endpoint),
            keeps_then_builds(*surface, *search_area, o, path@, kk),
            kk >= 1,
            done ==> {
                &&& 0 <= j < path@.len()
                &&& path@[j].mode == RailMode::Turn(TurnType::Turn270)
                &&& forall|i: int| j <= i < path@.len() ==> (#[trigger] path@[i]).direction == dir
                    && forward_of(path@[i].endpoint, dir) >= forward_of(path@[j].endpoint, dir)
            },
        ensures
            path@.len() > 0,
            goal_reached(path@.last(), goal),
        decreases (if done { 0int } else { 1int }),
            (if done { 4 * SHINRI_COORDINATE_LIMIT - forward_of(path@[j].endpoint, dir) } else { 0int }),
    {
        let ghost cur = path@;
        go_straight_until(surface, path, goal, search_area);
        proof {
            let n = choose|n: nat| {
                let run = #[trigger] step_chain(cur.last(), n);
                &&& path@ == cur + run
                &&& all_buildable(*surface, *search_area, run)
            };
            let run = step_chain(cur.last(), n);
            lemma_step_chain_direction(cur.last(), n);
            lemma_keep_append(*surface, *search_area, o, cur, kk, run);
            assert forall|i: int| 0 <= i < run.len() implies point_small((#[trigger] run[i]).endpoint) by {
                lemma_buildable_in_area(*surface, *search_area, run[i]);
            }
            lemma_chain_elements(cur.last(), n);
            assert forall|i: int| 0 <= i < path@.len() implies point_small((#[trigger] path@[i]).endpoint) by {
                if i >= cur.len() {
                    assert(path@[i] == run[i - cur.len()]);
                } else {
                    assert(path@[i] == cur[i]);
                }
            }
            if done {
                lemma_spins(dir);
                assert(cur.last() == cur[cur.len() - 1]);
                assert forall|i: int| j <= i < path@.len() implies (#[trigger] path@[i]).direction == dir
                    && forward_of(path@[i].endpoint, dir) >= forward_of(path@[j].endpoint, dir) by {
                    if i >= cur.len() {
                        assert(path@[i] == run[i - cur.len()]);
                        assert(cur[cur.len() - 1].direction == dir);
                    } else {
                        assert(path@[i] == cur[i]);
                    }
                }
            }
        }
        if reached(&path[path.len() - 1], goal) {
            break;
        }
        let ghost before = path@;
        match go_navigate_around(surface, path, search_area, end) {
            Ok(()) => {},
            Err(_) => {
                proof {
                    let k = choose|k: int| 0 <= k <= before.len() && path@ == before.take(k);
                    assert(path@ =~= before.take(k) + Seq::<Rail>::empty());
                    lemma_keep_cut(*surface, *search_area, o, before, kk, k, Seq::<Rail>::empty());
                }
                return Err(NavigateAxisErr::Crashed);
            },
        }
        proof {
            let (k, a, b, c) = choose|k: int, a: nat, b: nat, c: nat| {
                &&& 1 <= k <= before.len()
                &&& a >= 1 && b >= 1 && c >= 1
                &&& path@ == before.take(k) + #[trigger] go_around_shape(before[k - 1], a, b, c)
                &&& forall|i: int| k <= i < before.len() ==> (#[trigger] before[i]).mode == RailMode::Straight
                &&& all_buildable(*surface, *search_area, go_around_shape(before[k - 1], a, b, c))
            };
            let axis = before[k - 1];
            let shape = go_around_shape(axis, a, b, c);
            lemma_keep_cut(*surface, *search_area, o, before, kk, k, shape);
            kk = if k < kk { k } else { kk };
            assert forall|i: int| 0 <= i < shape.len() implies point_small((#[trigger] shape[i]).endpoint) by {
                lemma_buildable_in_area(*surface, *search_area, shape[i]);
            }
            assert forall|i: int| 0 <= i < path@.len() implies point_small((#[trigger] path@[i]).endpoint) by {
                if i >= k {
                    assert(path@[i] == shape[i - k]);
                } else {
                    assert(path@[i] == before[i]);
                }
            }
            law_go_around_keeps_direction(axis, a, b, c);
            lemma_shape_forward(axis, a, b, c);
            if done {
                assert(j < k) by {
                    if j >= k {
                        assert(before[j].mode == RailMode::Straight);
                    }
                }
                assert(axis.direction == dir);
                assert(forward_of(axis.endpoint, dir) >= forward_of(before[j].endpoint, dir));
            }
            let new_j = path@.len() - 1;
            assert(path@[new_j] == shape.last());
            assert(point_small(path@[new_j].endpoint));
            j = new_j;
            dir = axis.direction;
            done = true;
        }
        if reached(&path[path.len() - 1], goal) {
            break;
        }
    }
    Ok(())
}


/// Pathfinder v2, second form: from `start`, hug the x axis until a rail
/// reaches `end`'s x; then give back that rail, turn left off the one
/// before, and hug the y axis until a rail reaches `end`'s y. When hugging
/// the x axis fails, the rails laid so far are returned as they are. `None`
/// when the left turn cannot be built, a case this router leaves open.
/// `start` must lie before `end` along x.
pub fn shinri_start_2(surface: &VSurface, start: Rail, end: Rail, search_area: &VArea) -> (r: Option<Vec<Rail>>)
    requires
        surface.wf(),
        area_small(*search_area),
        point_small(start.endpoint),
        start.endpoint.x < end.endpoint.x,
    ensures
        r is Some ==> exists|kk: int| #[trigger] keeps_then_builds(*surface, *search_area, seq![start], r.unwrap()@, kk),
        r is None ==> exists|p: Seq<Rail>| {
            &&& #[trigger] keeps_then_builds(*surface, *search_area, seq![start], p, 1)
            &&& p.len() >= 2
            &&& goal_reached(p.last(), AxisGoal::X(end.endpoint.x))
            &&& !rail_buildable(*surface, *search_area, rail_rotating(p[p.len() - 2], TurnType::Turn270))
        },
{
    let mut path: Vec<Rail> = Vec::new();
    path.push(start);
    let ghost s0 = path@;
    proof {
        assert(s0 =~= seq![start]);
    }
    match navigate_axis_until(surface, &mut path, AxisGoal::X(end.endpoint.x), search_area, &end) {
        Ok(()) => {},
        Err(_) => {
            let r = Some(path);
            proof {
                let kk = choose|kk: int| #[trigger] keeps_then_builds(*surface, *search_area, s0, r.unwrap()@, kk);
                assert(keeps_then_builds(*surface, *search_area, seq![start], r.unwrap()@, kk));
            }
            return r;
        },
    }
    let ghost p = path@;
    let kk = Ghost(choose|kk: int| #[trigger] keeps_then_builds(*surface, *search_area, s0, p, kk) && kk >= 1);
    proof {
        assert(p.take(1) == s0.take(1));
        assert(p[0] == p.take(1)[0]);
        if p.len() == 1 {
            assert(p.last() == start);
        }
        assert(p.len() >= 2);
    }
    path.pop();
    let last = path[path.len() - 1];
    proof {
        assert(last == p[p.len() - 2]);
        if p.len() - 2 >= 1 {
            assert(p.skip(1)[p.len() - 3] == last);
            assert(rail_buildable(*surface, *search_area, p.skip(1)[p.len() - 3]));
            lemma_buildable_in_area(*surface, *search_area, last);
        } else {
            assert(last == start);
        }
        lemma_small_moves(last);
        lemma_near_area_fits(rail_rotating(last, TurnType::Turn270));
    }
    let the_turn = match build_rail(surface, search_area, last.move_left()) {
        Some(t) => t,
        None => {
            proof {
                assert(keeps_then_builds(*surface, *search_area, seq![start], p, 1)) by {
                    assert(p.take(1) =~= s0.take(1));
                    assert forall|i: int| 0 <= i < p.skip(1).len() implies rail_buildable(*surface, *search_area, #[trigger] p.skip(1)[i]) by {
                        assert(p.skip(1)[i] == p.skip(kk@)[i + 1 - kk@]);
                    }
                }
            }
            return None;
        },
    };
    let ghost q = path@;
    path.push(the_turn);
    proof {
        assert(keeps_then_builds(*surface, *search_area, s0, path@, 1)) by {
            assert(path@.take(1) =~= p.take(1));
            assert(p.take(1) =~= s0.take(1));
            assert forall|i: int| 0 <= i < path@.skip(1).len() implies rail_buildable(*surface, *search_area, #[trigger] path@.skip(1)[i]) by {
                if i < q.len() - 1 {
                    assert(path@.skip(1)[i] == p.skip(kk@)[i + 1 - kk@]);
                }
            }
        }
        assert forall|i: int| 0 <= i < path@.len() implies point_small((#[trigger] path@[i]).endpoint) by {
            if i == 0 {
                assert(path@[0] == start);
            } else {
                assert(path@[i] == path@.skip(1)[i - 1]);
                lemma_buildable_in_area(*surface, *search_area, path@[i]);
            }
        }
    }
    let ghost before = path@;
    let _ = navigate_axis_until(surface, &mut path, AxisGoal::Y(end.endpoint.y), search_area, &end);
    proof {
        let k2 = choose|k2: int| #[trigger] keeps_then_builds(*surface, *search_area, before, path@, k2);
        let m = if k2 < 1 { k2 } else { 1 };
        assert(keeps_then_builds(*surface, *search_area, s0, path@, m)) by {
            assert(path@.take(m) =~= before.take(k2).take(m));
            assert(before.take(k2).take(m) =~= before.take(m));
            assert(before.take(m) =~= before.take(1).take(m));
            assert(s0.take(m) =~= s0.take(1).take(m));
            assert forall|i: int| 0 <= i < path@.skip(m).len() implies rail_buildable(*surface, *search_area, #[trigger] path@.skip(m)[i]) by {
                if i + m < k2 {
                    assert(m == 1);
                    assert(path@.skip(m)[i] == path@[i + 1]);
                    assert(path@[i + 1] == path@.take(k2)[i + 1]);
                    assert(before.take(k2)[i + 1] == before[i + 1]);
                    assert(before[i + 1] == before.skip(1)[i]);
                    assert(path@.skip(m)[i] == before.skip(1)[i + m - 1]);
                } else {
                    assert(path@.skip(m)[i] == path@.skip(k2)[i + m - k2]);
                }
            }
        }
        assert(s0 == seq![start]);
    }
    let r = Some(path);
    proof {
        let k2 = choose|k2: int| #[trigger] keeps_then_builds(*surface, *search_area, before, r.unwrap()@, k2);
        let m = if k2 < 1 { k2 } else { 1 };
        assert(keeps_then_builds(*surface, *search_area, seq![start], r.unwrap()@, m));
    }
    r
}


proof fn lemma_step_chain_straight(from: Rail, n: nat)
    ensures
        forall|i: int| 0 <= i < n ==> (#[trigger] step_chain(from, n)[i]).mode == RailMode::Straight,
    decreases n,
{
    lemma_step_chain_direction(from, n);
    if n > 0 {
        lemma_step_chain_direction(from, (n - 1) as nat);
        lemma_step_chain_straight(from, (n - 1) as nat);
        assert forall|i: int| 0 <= i < n implies (#[trigger] step_chain(from, n)[i]).mode == RailMode::Straight by {
            if i < n - 1 {
                assert(step_chain(from, n)[i] == step_chain(from, (n - 1) as nat)[i]);
            }
        }
    }
}

/// The way around from `last` starts with a right turn and, when it closes,
/// closes with a left turn: its last rail then runs the way `last` ran,
/// beside the old line, and not back toward where the route came from.
/// Every rail between the two turns is straight and runs sideways.
pub proof fn law_way_around_closes_parallel(surface: VSurface, area: VArea, last: Rail, around: Seq<Rail>)
    requires
        shinri_around(surface, area, last, around),
        around.len() >= 2,
        around.last().mode != RailMode::Straight,
    ensures
        around[0].mode == RailMode::Turn(TurnType::Turn90),
        around[0].direction == rail_spin(last.direction, 1),
        around.last().mode == RailMode::Turn(TurnType::Turn270),
        around.last().direction == last.direction,
        forall|i: int| 1 <= i < around.len() - 1 ==> (#[trigger] around[i]).mode == RailMode::Straight
            && around[i].direction == rail_spin(last.direction, 1),
{
    let t = rail_rotating(last, TurnType::Turn90);
    let run = choose|run: Seq<Rail>| #[trigger] blocked_run(surface, area, t, run)
        && around == around_with(surface, area, last, run);
    lemma_step_chain_direction(t, run.len());
    lemma_step_chain_straight(t, run.len());
    lemma_spins(last.direction);
    let close = rail_rotating(last_or(t, run), TurnType::Turn270);
    assert(around[0] == t);
    assert forall|i: int| 1 <= i < around.len() - 1 implies (#[trigger] around[i]).mode == RailMode::Straight
        && around[i].direction == rail_spin(last.direction, 1) by {
        assert(around[i] == run[i - 1]);
    }
    if rail_buildable(surface, area, close) {
        assert(around.last() == close);
        assert(last_or(t, run).direction == rail_spin(last.direction, 1));
    } else {
        assert(around.len() == run.len() + 1);
        assert(around.last() == run[run.len() - 1]);
    }
}


/// A route from `shinri_start` that went around and closed its way around
/// ends on a left turn running the way `start` ran.
pub proof fn law_route_resumes_start_direction(surface: VSurface, area: VArea, start: Rail, end: Rail, v: Seq<Rail>, n: int)
    requires
        shinri_route(surface, area, start, end, v, n),
        v.len() >= n + 2,
        v.last().mode != RailMode::Straight,
    ensures
        v.last().direction == start.direction,
        v.last().mode == RailMode::Turn(TurnType::Turn270),
{
    let run = v.take(n);
    lemma_step_chain_direction(start, run.len());
    assert(v[n - 1] == run[n - 1]);
    let around = v.skip(n);
    assert(around.last() == v.last());
    law_way_around_closes_parallel(surface, area, v[n - 1], around);
}

} // verus!
