//! Where mining drills go: on a grid over the mines' areas, wherever a
//! drill's 3x3 footprint covers some resource, with a chest beside each
//! drill and a power pole at every other grid spot.

use vstd::prelude::*;
use crate::surface::vpoint::{VPoint, vpoint_at};
use crate::surface::varea::{VArea, area_contains};
use crate::surface::vsurface::{VSurface, out_of_bounds};
use crate::surface::pixel::pixel_is_resource;
use crate::surface::vpoint::HalfPoint;
use crate::surface::direction::RailDirection;
use crate::admiral::lua_command::{BoxedLuaCommand, CommandView, commands_view};
use crate::admiral::lua_command::fac_surface_create_entity::{FacSurfaceCreateEntity, ParamView, entity_spec};
use crate::admiral::executor::entrypoint::{FilteredDestroy, names_view};

verus! {

/// Grid step between drills along x.
pub const X_CHUNK: i32 = 4;

/// Grid step between drills along y.
pub const Y_CHUNK: i32 = 3;

/// A drill with its top-left tile at `drill`, the chest it fills, and
/// possibly a power pole.
#[derive(Clone, Copy, PartialEq, Eq, Structural, Debug)]
pub struct MinePlacement {
    pub drill: VPoint,
    pub chest: VPoint,
    pub pole: Option<VPoint>,
}

/// Whether some tile of the 3x3 square from `(x, y)` is on the surface and
/// holds a resource.
pub open spec fn resource_near(surface: VSurface, x: int, y: int) -> bool {
    exists|dx: int, dy: int| 0 <= dx < 3 && 0 <= dy < 3
        && !out_of_bounds(surface.spec_radius(), vpoint_at(x + dx, y + dy))
        && pixel_is_resource(#[trigger] surface.pixel_at(vpoint_at(x + dx, y + dy)))
}

/// Whether `(x, y)` lies in one of the mines' areas.
pub open spec fn in_mine_area(areas: Seq<VArea>, x: int, y: int) -> bool {
    exists|i: int| 0 <= i < areas.len() && area_contains(#[trigger] areas[i], vpoint_at(x, y))
}

/// Whether a drill goes at `(x, y)`: a grid spot in a mine's area with
/// resource under the drill.
pub open spec fn drill_spot(surface: VSurface, areas: Seq<VArea>, x: int, y: int) -> bool {
    x % 4 == 0 && y % 3 == 0 && in_mine_area(areas, x, y) && resource_near(surface, x, y)
}

/// The drill at `(x, y)`, its chest three tiles right and one down, and a
/// pole three tiles right at every other grid spot on both axes.
pub open spec fn placement_at(x: int, y: int) -> MinePlacement {
    MinePlacement {
        drill: vpoint_at(x, y),
        chest: vpoint_at(x + 3, y + 1),
        pole: if x % 8 == 0 && y % 6 == 0 { Some(vpoint_at(x + 3, y)) } else { None },
    }
}

/// The placement at `(x, y)`, if a drill goes there.
pub open spec fn cell_placements(surface: VSurface, areas: Seq<VArea>, x: int, y: int) -> Seq<MinePlacement> {
    if drill_spot(surface, areas, x, y) { seq![placement_at(x, y)] } else { Seq::empty() }
}

/// The placements of column `x`, rows from the top edge, the first `n` rows.
pub open spec fn column_placements(surface: VSurface, areas: Seq<VArea>, x: int, n: nat) -> Seq<MinePlacement>
    decreases n,
{
    if n == 0 {
        Seq::empty()
    } else {
        column_placements(surface, areas, x, (n - 1) as nat)
            + cell_placements(surface, areas, x, -surface.spec_radius() + n - 1)
    }
}

/// The placements of the first `m` columns from the left edge, each column top to bottom.
pub open spec fn placements_upto(surface: VSurface, areas: Seq<VArea>, m: nat) -> Seq<MinePlacement>
    decreases m,
{
    if m == 0 {
        Seq::empty()
    } else {
        placements_upto(surface, areas, (m - 1) as nat)
            + column_placements(surface, areas, -surface.spec_radius() + m - 1, (2 * surface.spec_radius()) as nat)
    }
}

fn has_resource_near(surface: &VSurface, x: i32, y: i32) -> (r: bool)
    requires
        surface.wf(),
        x + 2 <= i32::MAX,
        y + 2 <= i32::MAX,
    ensures
        r == resource_near(*surface, x as int, y as int),
{
    let mut dx: i32 = 0;
    while dx < 3
        invariant
            0 <= dx <= 3,
            surface.wf(),
            x + 2 <= i32::MAX,
            y + 2 <= i32::MAX,
            forall|a: int, b: int| 0 <= a < dx && 0 <= b < 3
                && !out_of_bounds(surface.spec_radius(), vpoint_at(x + a, y + b))
                ==> !pixel_is_resource(#[trigger] surface.pixel_at(vpoint_at(x + a, y + b))),
        decreases 3 - dx,
    {
        let mut dy: i32 = 0;
        while dy < 3
            invariant
                0 <= dx < 3,
                0 <= dy <= 3,
                surface.wf(),
                x + 2 <= i32::MAX,
                y + 2 <= i32::MAX,
                forall|a: int, b: int| 0 <= a < dx && 0 <= b < 3
                    && !out_of_bounds(surface.spec_radius(), vpoint_at(x + a, y + b))
                    ==> !pixel_is_resource(#[trigger] surface.pixel_at(vpoint_at(x + a, y + b))),
                forall|b: int| 0 <= b < dy
                    && !out_of_bounds(surface.spec_radius(), vpoint_at(x + dx, y + b))
                    ==> !pixel_is_resource(#[trigger] surface.pixel_at(vpoint_at(x + dx, y + b))),
            decreases 3 - dy,
        {
            let p = VPoint::new(x + dx, y + dy);
            assert(p == vpoint_at(x + dx, y + dy));
            if !surface.is_point_out_of_bounds(&p) && surface.get_pixel(p).is_resource() {
                return true;
            }
            dy = dy + 1;
        }
        dx = dx + 1;
    }
    false
}

fn in_some_area(areas: &Vec<VArea>, p: VPoint) -> (r: bool)
    ensures
        r == in_mine_area(areas@, p.x as int, p.y as int),
{
    let mut i: usize = 0;
    while i < areas.len()
        invariant
            i <= areas@.len(),
            forall|j: int| 0 <= j < i ==> !area_contains(#[trigger] areas@[j], p),
        decreases areas@.len() - i,
    {
        if areas[i].contains_point(&p) {
            assert(vpoint_at(p.x as int, p.y as int) == p);
            return true;
        }
        i = i + 1;
    }
    assert(vpoint_at(p.x as int, p.y as int) == p);
    false
}

/// Every drill placement over the mines' areas, column by column from the
/// left edge of the surface, each column from the top edge.
pub fn insert_mines(surface: &VSurface, mine_areas: &Vec<VArea>) -> (r: Vec<MinePlacement>)
    requires
        surface.wf(),
        surface.spec_radius() + 3 <= i32::MAX,
    ensures
        r@ == placements_upto(*surface, mine_areas@, (2 * surface.spec_radius()) as nat),
{
    let radius = surface.get_radius();
    let r: i64 = radius as i64;
    let w: i64 = 2 * r;
    let ghost s = *surface;
    let ghost areas = mine_areas@;
    let mut out: Vec<MinePlacement> = Vec::new();
    let mut xi: i64 = 0;
    while xi < w
        invariant
            0 <= xi <= w,
            r == s.spec_radius(),
            w == 2 * r,
            s == *surface,
            areas == mine_areas@,
            surface.wf(),
            r + 3 <= i32::MAX,
            out@ == placements_upto(s, areas, xi as nat),
        decreases w - xi,
    {
        let x: i32 = (xi - r) as i32;
        let ghost base = out@;
        let mut yi: i64 = 0;
        while yi < w
            invariant
                0 <= xi < w,
                0 <= yi <= w,
                r == s.spec_radius(),
                w == 2 * r,
                s == *surface,
                areas == mine_areas@,
                surface.wf(),
                r + 3 <= i32::MAX,
                x == xi - r,
                out@ == base + column_placements(s, areas, x as int, yi as nat),
            decreases w - yi,
        {
            let y: i32 = (yi - r) as i32;
            let ghost before = out@;
            let p = VPoint::new(x, y);
            if x % X_CHUNK == 0 && y % Y_CHUNK == 0 && in_some_area(mine_areas, p) && has_resource_near(surface, x, y) {
                let pole = if x % (X_CHUNK * 2) == 0 && y % (Y_CHUNK * 2) == 0 {
                    Some(VPoint::new(x + 3, y))
                } else {
                    None
                };
                out.push(MinePlacement { drill: p, chest: VPoint::new(x + 3, y + 1), pole });
                proof {
                    assert(drill_spot(s, areas, x as int, y as int));
                    assert(out@ =~= before + cell_placements(s, areas, x as int, y as int));
                }
            } else {
                proof {
                    assert(!drill_spot(s, areas, x as int, y as int));
                    assert(out@ =~= before + cell_placements(s, areas, x as int, y as int));
                }
            }
            proof {
                assert(y as int == -s.spec_radius() + (yi + 1) - 1);
                assert(column_placements(s, areas, x as int, (yi + 1) as nat)
                    == column_placements(s, areas, x as int, yi as nat) + cell_placements(s, areas, x as int, y as int));
                assert(out@ =~= base + column_placements(s, areas, x as int, (yi + 1) as nat));
            }
            yi = yi + 1;
        }
        proof {
            assert(x as int == -s.spec_radius() + (xi + 1) - 1);
            assert(placements_upto(s, areas, (xi + 1) as nat)
                == placements_upto(s, areas, xi as nat) + column_placements(s, areas, x as int, (2 * r) as nat));
        }
        xi = xi + 1;
    }
    out
}

proof fn lemma_column_has(s: VSurface, areas: Seq<VArea>, x: int, n: nat, y: int)
    requires
        -s.spec_radius() <= y < -s.spec_radius() + n,
        drill_spot(s, areas, x, y),
    ensures
        column_placements(s, areas, x, n).contains(placement_at(x, y)),
    decreases n,
{
    let prev = column_placements(s, areas, x, (n - 1) as nat);
    let cell = cell_placements(s, areas, x, -s.spec_radius() + n - 1);
    assert(column_placements(s, areas, x, n) == prev + cell);
    if y == -s.spec_radius() + n - 1 {
        assert((prev + cell)[prev.len() as int] == placement_at(x, y));
    } else {
        lemma_column_has(s, areas, x, (n - 1) as nat, y);
        let k = choose|k: int| 0 <= k < prev.len() && prev[k] == placement_at(x, y);
        assert((prev + cell)[k] == placement_at(x, y));
    }
}

proof fn lemma_upto_has(s: VSurface, areas: Seq<VArea>, m: nat, x: int, y: int)
    requires
        -s.spec_radius() <= x < -s.spec_radius() + m,
        -s.spec_radius() <= y < s.spec_radius(),
        drill_spot(s, areas, x, y),
    ensures
        placements_upto(s, areas, m).contains(placement_at(x, y)),
    decreases m,
{
    let prev = placements_upto(s, areas, (m - 1) as nat);
    let col = column_placements(s, areas, -s.spec_radius() + m - 1, (2 * s.spec_radius()) as nat);
    assert(placements_upto(s, areas, m) == prev + col);
    if x == -s.spec_radius() + m - 1 {
        lemma_column_has(s, areas, x, (2 * s.spec_radius()) as nat, y);
        let k = choose|k: int| 0 <= k < col.len() && col[k] == placement_at(x, y);
        assert((prev + col)[prev.len() + k] == placement_at(x, y));
    } else {
        lemma_upto_has(s, areas, (m - 1) as nat, x, y);
        let k = choose|k: int| 0 <= k < prev.len() && prev[k] == placement_at(x, y);
        assert((prev + col)[k] == placement_at(x, y));
    }
}

/// A drill is placed at every grid spot of the surface (`x` a multiple of
/// 4, `y` of 3) inside a mine's area whenever any tile of its 3x3 footprint
/// on the surface holds a resource.
pub proof fn law_drill_over_every_resource(surface: VSurface, areas: Seq<VArea>, x: int, y: int, dx: int, dy: int)
    requires
        -surface.spec_radius() <= x < surface.spec_radius(),
        -surface.spec_radius() <= y < surface.spec_radius(),
        x % 4 == 0,
        y % 3 == 0,
        exists|i: int| 0 <= i < areas.len() && area_contains(#[trigger] areas[i], vpoint_at(x, y)),
        0 <= dx < 3,
        0 <= dy < 3,
        !out_of_bounds(surface.spec_radius(), vpoint_at(x + dx, y + dy)),
        pixel_is_resource(surface.pixel_at(vpoint_at(x + dx, y + dy))),
    ensures
        exists|k: int| 0 <= k < placements_upto(surface, areas, (2 * surface.spec_radius()) as nat).len()
            && #[trigger] placements_upto(surface, areas, (2 * surface.spec_radius()) as nat)[k] == (MinePlacement {
                drill: vpoint_at(x, y),
                chest: vpoint_at(x + 3, y + 1),
                pole: (if x % 8 == 0 && y % 6 == 0 { Some(vpoint_at(x + 3, y)) } else { None }),
            }),
{
    assert(resource_near(surface, x, y));
    assert(in_mine_area(areas, x, y));
    lemma_upto_has(surface, areas, (2 * surface.spec_radius()) as nat, x, y);
}

/// Whether `p` is a drill at grid spot `(x, y)` inside a mine's area with a
/// resource under its 3x3 footprint, its chest three tiles right and one
/// down, and a pole three tiles right exactly at every other spot.
pub open spec fn drill_over_resource(surface: VSurface, areas: Seq<VArea>, p: MinePlacement, x: int, y: int) -> bool {
    &&& p.drill == vpoint_at(x, y)
    &&& x % 4 == 0 && y % 3 == 0
    &&& exists|i: int| 0 <= i < areas.len() && area_contains(#[trigger] areas[i], vpoint_at(x, y))
    &&& exists|dx: int, dy: int| 0 <= dx < 3 && 0 <= dy < 3
        && !out_of_bounds(surface.spec_radius(), vpoint_at(x + dx, y + dy))
        && pixel_is_resource(#[trigger] surface.pixel_at(vpoint_at(x + dx, y + dy)))
    &&& p.chest == vpoint_at(x + 3, y + 1)
    &&& (p.pole is Some <==> x % 8 == 0 && y % 6 == 0)
    &&& (p.pole is Some ==> p.pole->0 == vpoint_at(x + 3, y))
}

proof fn lemma_column_member(s: VSurface, areas: Seq<VArea>, x: int, n: nat, k: int) -> (y: int)
    requires
        0 <= k < column_placements(s, areas, x, n).len(),
    ensures
        -s.spec_radius() <= y < -s.spec_radius() + n,
        drill_over_resource(s, areas, column_placements(s, areas, x, n)[k], x, y),
    decreases n,
{
    let prev = column_placements(s, areas, x, (n - 1) as nat);
    let y0 = -s.spec_radius() + n - 1;
    let cell = cell_placements(s, areas, x, y0);
    assert(column_placements(s, areas, x, n) == prev + cell);
    if k < prev.len() {
        assert((prev + cell)[k] == prev[k]);
        lemma_column_member(s, areas, x, (n - 1) as nat, k)
    } else {
        assert((prev + cell)[k] == placement_at(x, y0));
        assert(drill_spot(s, areas, x, y0));
        y0
    }
}

proof fn lemma_upto_member(s: VSurface, areas: Seq<VArea>, m: nat, k: int) -> (xy: (int, int))
    requires
        0 <= k < placements_upto(s, areas, m).len(),
    ensures
        -s.spec_radius() <= xy.0 < -s.spec_radius() + m,
        -s.spec_radius() <= xy.1 < s.spec_radius(),
        drill_over_resource(s, areas, placements_upto(s, areas, m)[k], xy.0, xy.1),
    decreases m,
{
    let prev = placements_upto(s, areas, (m - 1) as nat);
    let x0 = -s.spec_radius() + m - 1;
    let col = column_placements(s, areas, x0, (2 * s.spec_radius()) as nat);
    assert(placements_upto(s, areas, m) == prev + col);
    if k < prev.len() {
        assert((prev + col)[k] == prev[k]);
        lemma_upto_member(s, areas, (m - 1) as nat, k)
    } else {
        let j = k - prev.len();
        assert((prev + col)[k] == col[j]);
        let y = lemma_column_member(s, areas, x0, (2 * s.spec_radius()) as nat, j);
        (x0, y)
    }
}

/// Every placement is a drill at a grid spot of the surface inside a mine's
/// area with a resource under its 3x3 footprint, with its chest three tiles
/// right and one down and a pole exactly at every other grid spot.
pub proof fn law_every_drill_mines_resource(surface: VSurface, areas: Seq<VArea>, k: int)
    requires
        0 <= k < placements_upto(surface, areas, (2 * surface.spec_radius()) as nat).len(),
    ensures
        exists|x: int, y: int|
            -surface.spec_radius() <= x < surface.spec_radius()
            && -surface.spec_radius() <= y < surface.spec_radius()
            && #[trigger] drill_over_resource(surface, areas,
                placements_upto(surface, areas, (2 * surface.spec_radius()) as nat)[k], x, y),
{
    let xy = lemma_upto_member(surface, areas, (2 * surface.spec_radius()) as nat, k);
    assert(drill_over_resource(surface, areas,
        placements_upto(surface, areas, (2 * surface.spec_radius()) as nat)[k], xy.0, xy.1));
}

/// Half-tile position of tile `p` moved by `halves` half tiles on both axes.
pub open spec fn offset_halves(p: VPoint, halves: int) -> HalfPoint {
    HalfPoint { x2: (2 * p.x + halves) as i64, y2: (2 * p.y + halves) as i64 }
}

/// The commands of one placement: the drill facing right at its tile plus
/// one and a half, the red chest and, if any, the medium pole at their tiles
/// plus a half.
pub open spec fn placement_commands(p: MinePlacement) -> Seq<CommandView> {
    seq![
        CommandView::CreateEntity(entity_spec("electric-mining-drill"@, offset_halves(p.drill, 3),
            seq![ParamView::Direction(RailDirection::Right)], Seq::empty())),
        CommandView::CreateEntity(entity_spec("logistic-chest-passive-provider"@, offset_halves(p.chest, 1),
            Seq::empty(), Seq::empty())),
    ] + match p.pole {
        Some(q) => seq![CommandView::CreateEntity(entity_spec("medium-electric-pole"@, offset_halves(q, 1),
            Seq::empty(), Seq::empty()))],
        None => Seq::empty(),
    }
}

/// The commands of the placements, one placement after the other.
pub open spec fn mine_commands_spec(ps: Seq<MinePlacement>) -> Seq<CommandView>
    decreases ps.len(),
{
    if ps.len() == 0 {
        Seq::empty()
    } else {
        mine_commands_spec(ps.drop_last()) + placement_commands(ps.last())
    }
}

/// The commands that build the placements, sent together in one call.
pub fn mine_commands(placements: &Vec<MinePlacement>) -> (r: Vec<BoxedLuaCommand>)
    ensures
        commands_view(r@) == mine_commands_spec(placements@),
{
    let mut r: Vec<BoxedLuaCommand> = Vec::new();
    let mut i: usize = 0;
    while i < placements.len()
        invariant
            i <= placements@.len(),
            commands_view(r@) == mine_commands_spec(placements@.take(i as int)),
        decreases placements@.len() - i,
    {
        let p = placements[i];
        let ghost before = commands_view(r@);
        r.push(FacSurfaceCreateEntity::new_drill(p.drill.to_f32_with_offset(3), RailDirection::Right).into_boxed());
        r.push(FacSurfaceCreateEntity::new_chest_red(p.chest.to_f32_with_offset(1)).into_boxed());
        match p.pole {
            Some(q) => {
                r.push(FacSurfaceCreateEntity::new_electric_pole_medium(q.to_f32_with_offset(1)).into_boxed());
            },
            None => {},
        }
        proof {
            assert(placements@.take(i + 1).drop_last() =~= placements@.take(i as int));
            assert(placements@.take(i + 1).last() == p);
            assert(commands_view(r@) =~= before + placement_commands(p));
        }
        i = i + 1;
    }
    proof {
        assert(placements@.take(placements@.len() as int) =~= placements@);
    }
    r
}

/// The entity kinds that mine building clears first.
pub open spec fn mine_kinds() -> Seq<Seq<char>> {
    seq!["logistic-chest-passive-provider"@, "medium-electric-pole"@, "electric-mining-drill"@, "small-lamp"@]
}

/// What mine building sends: clearing earlier drills, chests, poles and
/// lamps from the whole surface, then one batch of every drill, chest and
/// pole over the mines' areas.
pub fn admiral_mines(surface: &VSurface, mine_areas: &Vec<VArea>) -> (r: (FilteredDestroy, Vec<BoxedLuaCommand>))
    requires
        surface.wf(),
        surface.spec_radius() + 3 <= i32::MAX,
    ensures
        r.0.radius == surface.spec_radius(),
        names_view(r.0.names@) == mine_kinds(),
        commands_view(r.1@) == mine_commands_spec(placements_upto(*surface, mine_areas@, (2 * surface.spec_radius()) as nat)),
{
    let names: Vec<&'static str> = vec![
        "logistic-chest-passive-provider",
        "medium-electric-pole",
        "electric-mining-drill",
        "small-lamp",
    ];
    proof {
        reveal_strlit("logistic-chest-passive-provider");
        reveal_strlit("medium-electric-pole");
        reveal_strlit("electric-mining-drill");
        reveal_strlit("small-lamp");
        assert(names_view(names@) =~= mine_kinds());
    }
    let destroy = FilteredDestroy { radius: surface.get_radius(), names };
    let placements = insert_mines(surface, mine_areas);
    (destroy, mine_commands(&placements))
}

} // verus!
