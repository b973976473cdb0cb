//! Second grouping pass: patches of different resources that lie close to
//! each other end up in one group, so one mine can serve them together.

use vstd::prelude::*;
use crate::surface::pixel::Pixel;
use crate::surface::varea::{VArea, area_wf};
use crate::surface::vpatch::{VPatch, patches_wf};

verus! {

/// Square of the largest center distance, in tiles, at which two patches are
/// grouped: three chunks of 32 tiles.
pub const NEAR_DISTANCE_SQUARED: i128 = 9216;

/// Resources that take part in grouping. Uranium only feeds power and the
/// military, so it is left alone.
pub open spec fn grouped_resource(p: Pixel) -> bool {
    match p {
        Pixel::IronOre | Pixel::CopperOre | Pixel::Stone | Pixel::Coal | Pixel::CrudeOil => true,
        _ => false,
    }
}

/// Center tile of a rectangle, rounded towards the top left.
pub open spec fn area_center(a: VArea) -> (int, int) {
    (a.start.x + (a.end.x - a.start.x) / 2, a.start.y + (a.end.y - a.start.y) / 2)
}

/// Whether the centers of two rectangles are less than three chunks apart.
pub open spec fn areas_near(a: VArea, b: VArea) -> bool {
    let (ax, ay) = area_center(a);
    let (bx, by) = area_center(b);
    (ax - bx) * (ax - bx) + (ay - by) * (ay - by) < NEAR_DISTANCE_SQUARED
}

/// Whether patch `i` exists and holds a grouped resource.
pub open spec fn is_candidate(patches: Seq<VPatch>, i: usize) -> bool {
    i < patches.len() && grouped_resource(patches[i as int].resource)
}

/// Whether patches `i` and `j` lie close to each other.
pub open spec fn near(patches: Seq<VPatch>, i: usize, j: usize) -> bool {
    areas_near(patches[i as int].area, patches[j as int].area)
}

/// Whether `x` occurs in some group.
pub open spec fn in_groups(gs: Seq<Seq<usize>>, x: usize) -> bool {
    exists|g: int, k: int| 0 <= g < gs.len() && 0 <= k < gs[g].len() && #[trigger] gs[g][k] == x
}

/// Whether every candidate close to `x` is in `group`.
pub open spec fn closed_around(patches: Seq<VPatch>, group: Seq<usize>, x: usize) -> bool {
    forall|i: usize| is_candidate(patches, i) && near(patches, x, i) ==> #[trigger] group.contains(i)
}

/// Whether member `k` is close to an earlier member.
pub open spec fn linked(patches: Seq<VPatch>, group: Seq<usize>, k: int) -> bool {
    exists|m: int| 0 <= m < k && #[trigger] near(patches, group[m], group[k])
}

/// Whether every member after the first is close to an earlier member.
pub open spec fn chained(patches: Seq<VPatch>, group: Seq<usize>) -> bool {
    forall|k: int| 0 < k < group.len() ==> #[trigger] linked(patches, group, k)
}

/// What grouping the patches means: the groups split the candidates with no
/// patch twice, every group holds all candidates close to any of its members
/// and is connected through close pairs, a group starts with its smallest
/// index, and groups are ordered by that first index.
pub open spec fn is_patch_grouping(patches: Seq<VPatch>, gs: Seq<Seq<usize>>) -> bool {
    &&& forall|g: int| 0 <= g < gs.len() ==> #[trigger] gs[g].len() > 0
    &&& forall|g: int, k: int| 0 <= g < gs.len() && 0 <= k < gs[g].len() ==> is_candidate(patches, #[trigger] gs[g][k])
    &&& forall|i: usize| is_candidate(patches, i) ==> #[trigger] in_groups(gs, i)
    &&& forall|g1: int, k1: int, g2: int, k2: int|
        0 <= g1 < gs.len() && 0 <= k1 < gs[g1].len() && 0 <= g2 < gs.len() && 0 <= k2 < gs[g2].len()
            && (g1 != g2 || k1 != k2) ==> #[trigger] gs[g1][k1] != #[trigger] gs[g2][k2]
    &&& forall|g: int, k: int| 0 <= g < gs.len() && 0 <= k < gs[g].len() ==> closed_around(patches, gs[g], #[trigger] gs[g][k])
    &&& forall|g: int| 0 <= g < gs.len() ==> chained(patches, #[trigger] gs[g])
    &&& forall|g: int, k: int| 0 <= g < gs.len() && 0 <= k < gs[g].len() ==> gs[g][0] <= #[trigger] gs[g][k]
    &&& forall|g1: int, g2: int| 0 <= g1 < g2 < gs.len() ==> #[trigger] gs[g1][0] < #[trigger] gs[g2][0]
}

/// The groups of a vector of vectors, as sequences.
pub open spec fn nested_view(v: Seq<Vec<usize>>) -> Seq<Seq<usize>> {
    v.map_values(|g: Vec<usize>| g@)
}

/// The candidates in increasing order.
spec fn candidates_ok(patches: Seq<VPatch>, all: Seq<usize>) -> bool {
    &&& patches_wf(patches)
    &&& forall|j: int| 0 <= j < all.len() ==> is_candidate(patches, #[trigger] all[j])
    &&& forall|a: int, b: int| 0 <= a < b < all.len() ==> #[trigger] all[a] < #[trigger] all[b]
    &&& forall|i: usize| is_candidate(patches, i) ==> #[trigger] all.contains(i)
}

/// A group under construction: candidates, none twice.
spec fn group_ok(all: Seq<usize>, r: Seq<usize>) -> bool {
    &&& r.no_duplicates()
    &&& forall|k: int| 0 <= k < r.len() ==> all.contains(#[trigger] r[k])
}

/// `r2` starts with `r`.
spec fn extends(r: Seq<usize>, r2: Seq<usize>) -> bool {
    r.len() <= r2.len() && forall|k: int| 0 <= k < r.len() ==> #[trigger] r2[k] == r[k]
}

proof fn lemma_near_symmetric(patches: Seq<VPatch>, i: usize, j: usize)
    ensures
        near(patches, i, j) == near(patches, j, i),
{
    let (ax, ay) = area_center(patches[i as int].area);
    let (bx, by) = area_center(patches[j as int].area);
    assert((ax - bx) * (ax - bx) == (bx - ax) * (bx - ax)) by (nonlinear_arith);
    assert((ay - by) * (ay - by) == (by - ay) * (by - ay)) by (nonlinear_arith);
}

proof fn lemma_extends_contains(r: Seq<usize>, r2: Seq<usize>, x: usize)
    requires
        extends(r, r2),
        r.contains(x),
    ensures
        r2.contains(x),
{
    let k = choose|k: int| 0 <= k < r.len() && r[k] == x;
    assert(r2[k] == x);
}

proof fn lemma_extends_closed(patches: Seq<VPatch>, r: Seq<usize>, r2: Seq<usize>, x: usize)
    requires
        extends(r, r2),
        closed_around(patches, r, x),
    ensures
        closed_around(patches, r2, x),
{
    assert forall|i: usize| is_candidate(patches, i) && near(patches, x, i) implies #[trigger] r2.contains(i) by {
        assert(r.contains(i));
        lemma_extends_contains(r, r2, i);
    }
}

proof fn lemma_group_len(all: Seq<usize>, r: Seq<usize>)
    requires
        group_ok(all, r),
    ensures
        r.len() <= all.len(),
{
    r.unique_seq_to_set();
    all.lemma_cardinality_of_set();
    assert(r.to_set().subset_of(all.to_set()));
    vstd::set_lib::lemma_len_subset(r.to_set(), all.to_set());
}

fn vec_contains(v: &Vec<usize>, x: usize) -> (r: bool)
    ensures
        r == v@.contains(x),
{
    let mut i: usize = 0;
    while i < v.len()
        invariant
            i <= v.len(),
            forall|k: int| 0 <= k < i ==> v@[k] != x,
        decreases v.len() - i,
    {
        if v[i] == x {
            return true;
        }
        i += 1;
    }
    false
}

fn patches_near(a: &VArea, b: &VArea) -> (r: bool)
    requires
        area_wf(*a),
        area_wf(*b),
    ensures
        r == areas_near(*a, *b),
{
    let ca = a.point_center();
    let cb = b.point_center();
    let dx: i128 = ca.x as i128 - cb.x as i128;
    let dy: i128 = ca.y as i128 - cb.y as i128;
    assert(dx * dx <= 0x1_0000_0000 * 0x1_0000_0000) by (nonlinear_arith)
        requires
            -0x1_0000_0000 <= dx <= 0x1_0000_0000,
    ;
    assert(dy * dy <= 0x1_0000_0000 * 0x1_0000_0000) by (nonlinear_arith)
        requires
            -0x1_0000_0000 <= dy <= 0x1_0000_0000,
    ;
    assert(0 <= dx * dx) by (nonlinear_arith);
    assert(0 <= dy * dy) by (nonlinear_arith);
    dx * dx + dy * dy < NEAR_DISTANCE_SQUARED
}

/// Indices of the patches holding a grouped resource, in order.
fn candidate_indices(patches: &Vec<VPatch>) -> (all: Vec<usize>)
    requires
        patches_wf(patches@),
    ensures
        candidates_ok(patches@, all@),
{
    let mut all: Vec<usize> = Vec::new();
    let mut i: usize = 0;
    while i < patches.len()
        invariant
            i <= patches@.len(),
            forall|j: int| 0 <= j < all@.len() ==> is_candidate(patches@, #[trigger] all@[j]) && all@[j] < i,
            forall|a: int, b: int| 0 <= a < b < all@.len() ==> #[trigger] all@[a] < #[trigger] all@[b],
            forall|x: usize| x < i && is_candidate(patches@, x) ==> #[trigger] all@.contains(x),
        decreases patches.len() - i,
    {
        let take = match patches[i].resource {
            Pixel::IronOre | Pixel::CopperOre | Pixel::Stone | Pixel::Coal | Pixel::CrudeOil => true,
            _ => false,
        };
        let ghost before = all@;
        if take {
            all.push(i);
            proof {
                assert forall|x: usize| x < i + 1 && is_candidate(patches@, x) implies #[trigger] all@.contains(x) by {
                    if x < i {
                        assert(before.contains(x));
                        let k = choose|k: int| 0 <= k < before.len() && before[k] == x;
                        assert(all@[k] == x);
                    } else {
                        assert(all@[all@.len() - 1] == x);
                    }
                }
            }
        }
        i += 1;
    }
    all
}

/// Adds to `result`, depth first from `needle`, every candidate close to a
/// patch already reached.
fn recursive_near_patches(needle: usize, all: &Vec<usize>, result: &mut Vec<usize>, patches: &Vec<VPatch>)
    requires
        candidates_ok(patches@, all@),
        group_ok(all@, old(result)@),
        old(result)@.contains(needle),
    ensures
        group_ok(all@, final(result)@),
        extends(old(result)@, final(result)@),
        closed_around(patches@, final(result)@, needle),
        forall|k: int| old(result)@.len() <= k < final(result)@.len()
            ==> closed_around(patches@, final(result)@, #[trigger] final(result)@[k]),
        forall|k: int| old(result)@.len() <= k < final(result)@.len() ==> #[trigger] linked(patches@, final(result)@, k),
    decreases all@.len() - old(result)@.len(),
{
    let ghost start = result@;
    let ghost needle_at = choose|m: int| 0 <= m < start.len() && start[m] == needle;
    proof { lemma_group_len(all@, start); }
    let mut q: usize = 0;
    while q < all.len()
        invariant
            candidates_ok(patches@, all@),
            group_ok(all@, result@),
            extends(start, result@),
            start == old(result)@,
            0 <= needle_at < start.len(),
            start[needle_at] == needle,
            q <= all@.len(),
            forall|j: int| 0 <= j < q && near(patches@, needle, all@[j]) ==> #[trigger] result@.contains(all@[j]),
            forall|k: int| start.len() <= k < result@.len() ==> closed_around(patches@, result@, #[trigger] result@[k]),
            forall|k: int| start.len() <= k < result@.len() ==> #[trigger] linked(patches@, result@, k),
        decreases all@.len() - q,
    {
        let other = all[q];
        let ghost before = result@;
        if other != needle && !vec_contains(result, other) {
            proof {
                assert(is_candidate(patches@, other));
                assert(result@[needle_at] == needle);
                assert(all@.contains(result@[needle_at]));
                let jn = choose|j: int| 0 <= j < all@.len() && all@[j] == needle;
                assert(is_candidate(patches@, all@[jn]));
            }
            let needle_area = patches[needle].area;
            let other_area = patches[other].area;
            if patches_near(&needle_area, &other_area) {
                result.push(other);
                let ghost pushed = result@;
                proof {
                    assert(extends(before, pushed));
                    assert(pushed.no_duplicates());
                    assert(group_ok(all@, pushed)) by {
                        assert forall|k: int| 0 <= k < pushed.len() implies all@.contains(#[trigger] pushed[k]) by {
                            if k < before.len() {
                                assert(pushed[k] == before[k]);
                            } else {
                                assert(all@[q as int] == other);
                            }
                        }
                    }
                    assert(pushed[pushed.len() - 1] == other);
                    lemma_group_len(all@, pushed);
                    assert(pushed.len() == before.len() + 1);
                    assert(0 <= all@.len() - pushed.len() < all@.len() - start.len());
                }
                recursive_near_patches(other, all, result, patches);
                proof {
                    let fin = result@;
                    assert(extends(before, fin));
                    assert(extends(start, fin));
                    assert(fin[before.len() as int] == other);
                    assert forall|k: int| start.len() <= k < fin.len() implies closed_around(patches@, fin, #[trigger] fin[k]) by {
                        if k < before.len() {
                            assert(fin[k] == before[k]);
                            lemma_extends_closed(patches@, before, fin, before[k]);
                        }
                    }
                    assert forall|k: int| start.len() <= k < fin.len() implies #[trigger] linked(patches@, fin, k) by {
                        if k < before.len() {
                            assert(linked(patches@, before, k));
                            let m = choose|m: int| 0 <= m < k && #[trigger] near(patches@, before[m], before[k]);
                            assert(fin[m] == before[m]);
                            assert(fin[k] == before[k]);
                            assert(near(patches@, fin[m], fin[k]));
                        } else if k == before.len() {
                            assert(fin[needle_at] == needle);
                            assert(near(patches@, fin[needle_at], fin[k]));
                        }
                    }
                    assert forall|j: int| 0 <= j < q + 1 && near(patches@, needle, all@[j]) implies #[trigger] fin.contains(all@[j]) by {
                        if j < q {
                            assert(before.contains(all@[j]));
                            lemma_extends_contains(before, fin, all@[j]);
                        } else {
                            assert(fin[before.len() as int] == all@[j]);
                        }
                    }
                }
            }
        } else {
            proof {
                if other == needle {
                    assert(result@[needle_at] == needle);
                }
                assert(result@.contains(all@[q as int]));
            }
        }
        q += 1;
    }
    proof {
        let fin = result@;
        assert forall|i: usize| is_candidate(patches@, i) && near(patches@, needle, i) implies #[trigger] fin.contains(i) by {
            assert(all@.contains(i));
            let j = choose|j: int| 0 <= j < all@.len() && all@[j] == i;
        }
    }
}

proof fn lemma_new_group_disjoint(patches: Seq<VPatch>, all: Seq<usize>, gs: Seq<Seq<usize>>, r: Seq<usize>, k: int)
    requires
        candidates_ok(patches, all),
        forall|g: int, kk: int| 0 <= g < gs.len() && 0 <= kk < gs[g].len() ==> closed_around(patches, gs[g], #[trigger] gs[g][kk]),
        group_ok(all, r),
        r.len() > 0,
        !in_groups(gs, r[0]),
        chained(patches, r),
        0 <= k < r.len(),
    ensures
        !in_groups(gs, r[k]),
    decreases k,
{
    if k > 0 {
        assert(linked(patches, r, k));
        let m = choose|m: int| 0 <= m < k && #[trigger] near(patches, r[m], r[k]);
        lemma_new_group_disjoint(patches, all, gs, r, m);
        if in_groups(gs, r[k]) {
            let (g, kk) = choose|g: int, kk: int| 0 <= g < gs.len() && 0 <= kk < gs[g].len() && #[trigger] gs[g][kk] == r[k];
            assert(closed_around(patches, gs[g], gs[g][kk]));
            lemma_near_symmetric(patches, r[m], r[k]);
            assert(all.contains(r[m]));
            let j = choose|j: int| 0 <= j < all.len() && all[j] == r[m];
            assert(is_candidate(patches, all[j]));
            assert(gs[g].contains(r[m]));
            let kk2 = choose|kk2: int| 0 <= kk2 < gs[g].len() && gs[g][kk2] == r[m];
            assert(in_groups(gs, r[m]));
        }
    }
}

/// Groups the patches of grouped resources that lie close to each other,
/// directly or through other patches, as indices into `patches`.
pub fn group_nearby_patches(patches: &Vec<VPatch>) -> (groups: Vec<Vec<usize>>)
    requires
        patches_wf(patches@),
    ensures
        is_patch_grouping(patches@, nested_view(groups@)),
{
    let all = candidate_indices(patches);
    let mut processed_patches: Vec<usize> = Vec::new();
    let mut groups: Vec<Vec<usize>> = Vec::new();
    let ghost mut gs: Seq<Seq<usize>> = Seq::empty();
    let mut p: usize = 0;
    while p < all.len()
        invariant
            candidates_ok(patches@, all@),
            p <= all@.len(),
            gs == nested_view(groups@),
            forall|x: usize| #[trigger] processed_patches@.contains(x) <==> in_groups(gs, x),
            forall|g: int| 0 <= g < gs.len() ==> #[trigger] gs[g].len() > 0,
            forall|g: int| 0 <= g < gs.len() ==> group_ok(all@, #[trigger] gs[g]),
            forall|g1: int, k1: int, g2: int, k2: int|
                0 <= g1 < gs.len() && 0 <= k1 < gs[g1].len() && 0 <= g2 < gs.len() && 0 <= k2 < gs[g2].len()
                    && (g1 != g2 || k1 != k2) ==> #[trigger] gs[g1][k1] != #[trigger] gs[g2][k2],
            forall|g: int, k: int| 0 <= g < gs.len() && 0 <= k < gs[g].len() ==> closed_around(patches@, gs[g], #[trigger] gs[g][k]),
            forall|g: int| 0 <= g < gs.len() ==> chained(patches@, #[trigger] gs[g]),
            forall|g: int, k: int| 0 <= g < gs.len() && 0 <= k < gs[g].len() ==> gs[g][0] <= #[trigger] gs[g][k],
            forall|g1: int, g2: int| 0 <= g1 < g2 < gs.len() ==> #[trigger] gs[g1][0] < #[trigger] gs[g2][0],
            forall|g: int| 0 <= g < gs.len() ==> exists|j: int| 0 <= j < p && all@[j] == #[trigger] gs[g][0],
            forall|j: int| 0 <= j < p ==> in_groups(gs, #[trigger] all@[j]),
        decreases all@.len() - p,
    {
        let patch_i = all[p];
        if !vec_contains(&processed_patches, patch_i) {
            let mut new_group: Vec<usize> = Vec::new();
            new_group.push(patch_i);
            proof {
                assert(new_group@[0] == patch_i);
                assert(all@[p as int] == patch_i);
                assert(group_ok(all@, new_group@));
            }
            recursive_near_patches(patch_i, &all, &mut new_group, patches);
            let ghost r = new_group@;
            proof {
                assert(r[0] == patch_i);
                assert(!in_groups(gs, r[0]));
                assert forall|k: int| 0 <= k < r.len() implies !in_groups(gs, #[trigger] r[k]) by {
                    lemma_new_group_disjoint(patches@, all@, gs, r, k);
                }
                assert forall|k: int| 0 <= k < r.len() implies closed_around(patches@, r, #[trigger] r[k]) by {
                    if k == 0 {
                    }
                }
                assert forall|k: int| 0 <= k < r.len() implies r[0] <= #[trigger] r[k] by {
                    assert(all@.contains(r[k]));
                    let j = choose|j: int| 0 <= j < all@.len() && all@[j] == r[k];
                    if j < p {
                        assert(in_groups(gs, all@[j]));
                        assert(!in_groups(gs, r[k]));
                    }
                    if j > p {
                        assert(all@[p as int] < all@[j]);
                    }
                }
            }
            let mut t: usize = 0;
            while t < new_group.len()
                invariant
                    new_group@ == r,
                    t <= r.len(),
                    forall|x: usize| #[trigger] processed_patches@.contains(x)
                        <==> (in_groups(gs, x) || exists|k: int| 0 <= k < t && r[k] == x),
                decreases r.len() - t,
            {
                let ghost before = processed_patches@;
                processed_patches.push(new_group[t]);
                proof {
                    assert forall|x: usize| #[trigger] processed_patches@.contains(x)
                        <==> (in_groups(gs, x) || exists|k: int| 0 <= k < t + 1 && r[k] == x) by {
                        if processed_patches@.contains(x) {
                            let i = choose|i: int| 0 <= i < processed_patches@.len() && processed_patches@[i] == x;
                            if i < before.len() {
                                assert(before[i] == x);
                                assert(before.contains(x));
                            } else {
                                assert(r[t as int] == x);
                            }
                        }
                        if exists|k: int| 0 <= k < t + 1 && r[k] == x {
                            let k = choose|k: int| 0 <= k < t + 1 && r[k] == x;
                            if k < t {
                                assert(before.contains(x));
                                let i = choose|i: int| 0 <= i < before.len() && before[i] == x;
                                assert(processed_patches@[i] == x);
                            } else {
                                assert(processed_patches@[before.len() as int] == x);
                            }
                        }
                        if in_groups(gs, x) {
                            assert(before.contains(x));
                            let i = choose|i: int| 0 <= i < before.len() && before[i] == x;
                            assert(processed_patches@[i] == x);
                        }
                    }
                }
                t += 1;
            }
            let ghost old_gs = gs;
            groups.push(new_group);
            proof {
                gs = gs.push(r);
                assert(gs == nested_view(groups@));
                assert forall|x: usize| in_groups(gs, x) <==> (in_groups(old_gs, x) || exists|k: int| 0 <= k < r.len() && r[k] == x) by {
                    if in_groups(gs, x) {
                        let (g, k) = choose|g: int, k: int| 0 <= g < gs.len() && 0 <= k < gs[g].len() && #[trigger] gs[g][k] == x;
                        if g < old_gs.len() {
                            assert(old_gs[g][k] == x);
                        }
                    }
                    if in_groups(old_gs, x) {
                        let (g, k) = choose|g: int, k: int| 0 <= g < old_gs.len() && 0 <= k < old_gs[g].len() && #[trigger] old_gs[g][k] == x;
                        assert(gs[g][k] == x);
                    }
                    if exists|k: int| 0 <= k < r.len() && r[k] == x {
                        let k = choose|k: int| 0 <= k < r.len() && r[k] == x;
                        assert(gs[old_gs.len() as int][k] == x);
                    }
                }
                assert forall|g1: int, k1: int, g2: int, k2: int|
                    0 <= g1 < gs.len() && 0 <= k1 < gs[g1].len() && 0 <= g2 < gs.len() && 0 <= k2 < gs[g2].len()
                        && (g1 != g2 || k1 != k2) implies #[trigger] gs[g1][k1] != #[trigger] gs[g2][k2] by {
                    let n = old_gs.len() as int;
                    if g1 == n && g2 < n {
                        assert(!in_groups(old_gs, r[k1]));
                        assert(old_gs[g2][k2] == gs[g2][k2]);
                    } else if g2 == n && g1 < n {
                        assert(!in_groups(old_gs, r[k2]));
                        assert(old_gs[g1][k1] == gs[g1][k1]);
                    } else if g1 == n && g2 == n {
                        assert(r.no_duplicates());
                    }
                }
                assert forall|j: int| 0 <= j < p + 1 implies in_groups(gs, #[trigger] all@[j]) by {
                    if j < p {
                        assert(in_groups(old_gs, all@[j]));
                    } else {
                        assert(r[0] == all@[j]);
                    }
                }
                assert forall|g: int| 0 <= g < gs.len() implies exists|j: int| 0 <= j < p + 1 && all@[j] == #[trigger] gs[g][0] by {
                    if g < old_gs.len() {
                        let j = choose|j: int| 0 <= j < p && all@[j] == #[trigger] old_gs[g][0];
                    } else {
                        assert(all@[p as int] == gs[g][0]);
                    }
                }
                assert forall|g1: int, g2: int| 0 <= g1 < g2 < gs.len() implies #[trigger] gs[g1][0] < #[trigger] gs[g2][0] by {
                    if g2 == old_gs.len() {
                        let j = choose|j: int| 0 <= j < p && all@[j] == #[trigger] old_gs[g1][0];
                        assert(all@[j] < all@[p as int]);
                    }
                }
                assert forall|g: int, k: int| 0 <= g < gs.len() && 0 <= k < gs[g].len() implies closed_around(patches@, gs[g], #[trigger] gs[g][k]) by {
                    if g < old_gs.len() {
                        assert(old_gs[g][k] == gs[g][k]);
                    }
                }
            }
        } else {
            proof {
                assert(in_groups(gs, all@[p as int]));
            }
        }
        p += 1;
    }
    proof {
        assert forall|g: int, k: int| 0 <= g < gs.len() && 0 <= k < gs[g].len() implies is_candidate(patches@, #[trigger] gs[g][k]) by {
            assert(group_ok(all@, gs[g]));
            assert(all@.contains(gs[g][k]));
            let j = choose|j: int| 0 <= j < all@.len() && all@[j] == gs[g][k];
        }
        assert forall|i: usize| is_candidate(patches@, i) implies #[trigger] in_groups(gs, i) by {
            assert(all@.contains(i));
            let j = choose|j: int| 0 <= j < all@.len() && all@[j] == i;
            assert(in_groups(gs, all@[j]));
        }
    }
    groups
}

} // verus!
