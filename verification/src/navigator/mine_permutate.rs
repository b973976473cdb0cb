//! Every order in which the mines of a batch could be routed: each mine has
//! a few destinations, so a batch has one combination per choice of
//! destinations, and each combination can be routed in any order.

use vstd::prelude::*;
use itertools::Itertools;
use crate::surface::vsurface::{MineRef, MineDestinationRef};
use crate::surface::varea::VArea;
use crate::navigator::mine_executor::{ExecutionRoute, ExecutionSequence};

verus! {

/// A destination as a pair of plain indices.
pub open spec fn dest_pair(d: MineDestinationRef) -> (usize, usize) {
    (d.mine.0, d.destination)
}

/// Destinations as pairs of plain indices.
pub open spec fn dest_pairs(s: Seq<MineDestinationRef>) -> Seq<(usize, usize)> {
    s.map_values(|d: MineDestinationRef| dest_pair(d))
}

/// Lists of destinations as lists of pairs of plain indices.
pub open spec fn nested_dest_pairs(s: Seq<Vec<MineDestinationRef>>) -> Seq<Seq<(usize, usize)>> {
    s.map_values(|v: Vec<MineDestinationRef>| dest_pairs(v@))
}

/// Lists of destinations, as sequences.
pub open spec fn nested_dests(s: Seq<Vec<MineDestinationRef>>) -> Seq<Seq<MineDestinationRef>> {
    s.map_values(|v: Vec<MineDestinationRef>| v@)
}

/// What `Itertools::permutations(k)` of itertools yields for `items`, collected.
pub uninterp spec fn itertools_permutations(items: Seq<(usize, usize)>, k: nat) -> Seq<Seq<(usize, usize)>>;

/// `n!`.
pub open spec fn factorial(n: nat) -> nat
    decreases n,
{
    if n == 0 { 1 } else { n * factorial((n - 1) as nat) }
}

/// Calls `Itertools::permutations` of itertools on the destinations and
/// collects every permutation. Its documentation promises every
/// `k`-permutation of the items, taken by position, each of length `k`, and
/// none when `k` exceeds the number of items; the source gives one empty
/// permutation for `k == 0`. So for `k` equal to the number of items there
/// are `n!` of them, each a rearrangement of the items, and no two alike
/// when the items are distinct. The order in which they come is left to the
/// name.
#[verifier::external_body]
fn permutations_of(items: Vec<MineDestinationRef>, k: usize) -> (r: Vec<Vec<MineDestinationRef>>)
    ensures
        nested_dest_pairs(r@) == itertools_permutations(dest_pairs(items@), k as nat),
        forall|i: int| 0 <= i < r@.len() ==> (#[trigger] r@[i])@.len() == k,
        k > items@.len() ==> r@.len() == 0,
        k == items@.len() ==> r@.len() == factorial(k as nat),
        k == items@.len() ==> forall|i: int| 0 <= i < r@.len() ==> (#[trigger] r@[i])@.to_multiset() == items@.to_multiset(),
        k == items@.len() && items@.no_duplicates() ==> nested_dests(r@).no_duplicates(),
{
    items.into_iter().permutations(k).collect()
}

/// A mine with the number of destinations it offers.
pub open spec fn dest_of(m: (MineRef, usize), d: int) -> MineDestinationRef {
    MineDestinationRef { mine: m.0, destination: d as usize }
}

/// Every list in `cs`, with `p` put in front.
pub open spec fn prefixed(p: Seq<MineDestinationRef>, cs: Seq<Seq<MineDestinationRef>>) -> Seq<Seq<MineDestinationRef>> {
    cs.map_values(|c: Seq<MineDestinationRef>| p + c)
}

/// Every choice of one destination per mine, in order: first all choices
/// with the first mine's destination 0, then those with 1, and so on.
pub open spec fn combinations(ms: Seq<(MineRef, usize)>) -> Seq<Seq<MineDestinationRef>>
    decreases ms.len(), 1nat,
{
    if ms.len() == 0 {
        seq![Seq::empty()]
    } else {
        combinations_upto(ms, ms[0].1 as nat)
    }
}

/// The choices whose first destination is below `k`.
pub open spec fn combinations_upto(ms: Seq<(MineRef, usize)>, k: nat) -> Seq<Seq<MineDestinationRef>>
    decreases ms.len(), 0nat, k,
{
    if ms.len() == 0 || k == 0 {
        Seq::empty()
    } else {
        combinations_upto(ms, (k - 1) as nat) + prefixed(seq![dest_of(ms[0], k - 1)], combinations(ms.drop_first()))
    }
}

/// Number of choices: the product of the destination counts.
pub open spec fn destination_product(ms: Seq<(MineRef, usize)>) -> nat
    decreases ms.len(),
{
    if ms.len() == 0 { 1 } else { (ms[0].1 as nat) * destination_product(ms.drop_first()) }
}

/// Whether `c` picks, in order, one destination of each mine.
pub open spec fn picks_one_each(ms: Seq<(MineRef, usize)>, c: Seq<MineDestinationRef>) -> bool {
    &&& c.len() == ms.len()
    &&& forall|j: int| 0 <= j < c.len() ==> (#[trigger] c[j]).mine == ms[j].0 && c[j].destination < ms[j].1
}

/// A batch has as many combinations as the product of its mines'
/// destination counts: `4^n` for `n` mines of 4 destinations.
pub proof fn law_combination_count(ms: Seq<(MineRef, usize)>)
    ensures
        combinations(ms).len() == destination_product(ms),
    decreases ms.len(), 1nat, 0nat,
{
    if ms.len() > 0 {
        lemma_combinations_upto_count(ms, ms[0].1 as nat);
        assert(combinations(ms) == combinations_upto(ms, ms[0].1 as nat));
        assert(destination_product(ms) == (ms[0].1 as nat) * destination_product(ms.drop_first()));
    } else {
        assert(combinations(ms) == seq![Seq::<MineDestinationRef>::empty()]);
    }
}

proof fn lemma_combinations_upto_count(ms: Seq<(MineRef, usize)>, k: nat)
    requires
        ms.len() > 0,
    ensures
        combinations_upto(ms, k).len() == k * destination_product(ms.drop_first()),
    decreases ms.len(), 0nat, k,
{
    if k > 0 {
        lemma_combinations_upto_count(ms, (k - 1) as nat);
        law_combination_count(ms.drop_first());
        let x = dest_of(ms[0], k - 1);
        let added = prefixed(seq![x], combinations(ms.drop_first()));
        assert(combinations_upto(ms, k) == combinations_upto(ms, (k - 1) as nat) + added);
        assert(added.len() == combinations(ms.drop_first()).len());
        let p = destination_product(ms.drop_first());
        assert((k - 1) * p + p == k * p) by (nonlinear_arith);
    } else {
        assert(combinations_upto(ms, k) == Seq::<Seq<MineDestinationRef>>::empty());
    }
}

/// Every combination picks, in order, one destination of each mine.
pub proof fn law_combination_picks_one_each(ms: Seq<(MineRef, usize)>)
    ensures
        forall|i: int| 0 <= i < combinations(ms).len() ==> picks_one_each(ms, #[trigger] combinations(ms)[i]),
    decreases ms.len(), 1nat, 0nat,
{
    if ms.len() > 0 {
        lemma_combinations_upto_pick(ms, ms[0].1 as nat);
        assert(combinations(ms) == combinations_upto(ms, ms[0].1 as nat));
    } else {
        assert(combinations(ms) == seq![Seq::<MineDestinationRef>::empty()]);
        assert(picks_one_each(ms, Seq::<MineDestinationRef>::empty()));
    }
}

proof fn lemma_combinations_upto_pick(ms: Seq<(MineRef, usize)>, k: nat)
    requires
        ms.len() > 0,
        k <= ms[0].1,
    ensures
        forall|i: int| 0 <= i < combinations_upto(ms, k).len() ==> picks_one_each(ms, #[trigger] combinations_upto(ms, k)[i]),
    decreases ms.len(), 0nat, k,
{
    if k > 0 {
        lemma_combinations_upto_pick(ms, (k - 1) as nat);
        law_combination_picks_one_each(ms.drop_first());
        let prev = combinations_upto(ms, (k - 1) as nat);
        let rest = combinations(ms.drop_first());
        let x = dest_of(ms[0], k - 1);
        let added = prefixed(seq![x], rest);
        assert(combinations_upto(ms, k) == prev + added);
        assert forall|i: int| 0 <= i < combinations_upto(ms, k).len() implies picks_one_each(ms, #[trigger] combinations_upto(ms, k)[i]) by {
            if i >= prev.len() {
                let c = rest[i - prev.len()];
                assert(picks_one_each(ms.drop_first(), c));
                let full = seq![x] + c;
                assert(combinations_upto(ms, k)[i] == full);
                assert forall|j: int| 0 <= j < full.len() implies (#[trigger] full[j]).mine == ms[j].0 && full[j].destination < ms[j].1 by {
                    if j > 0 {
                        assert(full[j] == c[j - 1]);
                        assert(ms.drop_first()[j - 1] == ms[j]);
                    }
                }
            }
        }
    }
}

/// Whether no two mines are the same.
pub open spec fn distinct_mines(ms: Seq<(MineRef, usize)>) -> bool {
    forall|a: int, b: int| 0 <= a < b < ms.len() ==> #[trigger] ms[a].0 != #[trigger] ms[b].0
}

/// No choice of destinations comes twice.
pub proof fn law_combinations_distinct(ms: Seq<(MineRef, usize)>)
    ensures
        combinations(ms).no_duplicates(),
    decreases ms.len(), 1nat, 0nat,
{
    if ms.len() > 0 {
        lemma_combinations_upto_distinct(ms, ms[0].1 as nat);
        assert(combinations(ms) == combinations_upto(ms, ms[0].1 as nat));
    } else {
        assert(combinations(ms) == seq![Seq::<MineDestinationRef>::empty()]);
    }
}

proof fn lemma_combinations_upto_distinct(ms: Seq<(MineRef, usize)>, k: nat)
    requires
        ms.len() > 0,
        k <= ms[0].1,
    ensures
        combinations_upto(ms, k).no_duplicates(),
        forall|i: int| 0 <= i < combinations_upto(ms, k).len() ==> (#[trigger] combinations_upto(ms, k)[i]).len() > 0
            && combinations_upto(ms, k)[i][0].destination < k,
    decreases ms.len(), 0nat, k,
{
    if k > 0 {
        lemma_combinations_upto_distinct(ms, (k - 1) as nat);
        law_combinations_distinct(ms.drop_first());
        let prev = combinations_upto(ms, (k - 1) as nat);
        let rest = combinations(ms.drop_first());
        let x = dest_of(ms[0], k - 1);
        let added = prefixed(seq![x], rest);
        let all = combinations_upto(ms, k);
        assert(all == prev + added);
        assert forall|i: int| 0 <= i < added.len() implies (#[trigger] added[i]).len() > 0 && added[i][0] == x by {
            assert(added[i] == seq![x] + rest[i]);
        }
        assert forall|a: int, b: int| 0 <= a < b < all.len() implies all[a] != all[b] by {
            if b < prev.len() {
                assert(prev.no_duplicates());
            } else if a >= prev.len() {
                let ra = rest[a - prev.len()];
                let rb = rest[b - prev.len()];
                assert(all[a] == seq![x] + ra);
                assert(all[b] == seq![x] + rb);
                if all[a] == all[b] {
                    assert(ra =~= (seq![x] + ra).drop_first());
                    assert(rb =~= (seq![x] + rb).drop_first());
                }
            } else {
                assert(all[a] == prev[a]);
                assert(prev[a][0].destination < k - 1);
                assert(all[b][0] == x);
                assert(x.destination == k - 1);
            }
        }
        assert forall|i: int| 0 <= i < all.len() implies (#[trigger] all[i]).len() > 0 && all[i][0].destination < k by {
            if i < prev.len() {
                assert(all[i] == prev[i]);
            } else {
                assert(all[i] == added[i - prev.len()]);
            }
        }
    } else {
        assert(combinations_upto(ms, k) == Seq::<Seq<MineDestinationRef>>::empty());
    }
}

/// Two choices of one destination per mine that hold the same destinations
/// are the same choice, when no mine comes twice.
pub proof fn lemma_picks_same_items_are_equal(ms: Seq<(MineRef, usize)>, c1: Seq<MineDestinationRef>, c2: Seq<MineDestinationRef>)
    requires
        distinct_mines(ms),
        picks_one_each(ms, c1),
        picks_one_each(ms, c2),
        c1.to_multiset() == c2.to_multiset(),
    ensures
        c1 == c2,
{
    broadcast use vstd::seq_lib::group_to_multiset_ensures;

    assert forall|j: int| 0 <= j < c1.len() implies c1[j] == c2[j] by {
        assert(c1.contains(c1[j]));
        assert(c1.to_multiset().count(c1[j]) > 0);
        assert(c2.contains(c1[j]));
        let j2 = choose|j2: int| 0 <= j2 < c2.len() && c2[j2] == c1[j];
        assert(ms[j2].0 == ms[j].0);
        if j2 < j {
            assert(ms[j2].0 != ms[j].0);
        } else if j2 > j {
            assert(ms[j].0 != ms[j2].0);
        }
    }
    assert(c1 =~= c2);
}

/// A choice of one destination per mine holds no destination twice, when no
/// mine comes twice.
pub proof fn lemma_picks_distinct(ms: Seq<(MineRef, usize)>, c: Seq<MineDestinationRef>)
    requires
        distinct_mines(ms),
        picks_one_each(ms, c),
    ensures
        c.no_duplicates(),
{
    assert forall|a: int, b: int| 0 <= a < b < c.len() implies c[a] != c[b] by {
        assert(c[a].mine == ms[a].0);
        assert(c[b].mine == ms[b].0);
    }
}

fn extended(path: &Vec<MineDestinationRef>, x: MineDestinationRef) -> (r: Vec<MineDestinationRef>)
    ensures
        r@ == path@.push(x),
{
    let mut r: Vec<MineDestinationRef> = Vec::new();
    let mut i: usize = 0;
    while i < path.len()
        invariant
            i <= path@.len(),
            r@ == path@.subrange(0, i as int),
        decreases path.len() - i,
    {
        r.push(path[i]);
        i += 1;
    }
    r.push(x);
    r
}

proof fn lemma_prefixed_concat(p: Seq<MineDestinationRef>, a: Seq<Seq<MineDestinationRef>>, b: Seq<Seq<MineDestinationRef>>)
    ensures
        prefixed(p, a + b) == prefixed(p, a) + prefixed(p, b),
{
    assert(prefixed(p, a + b) =~= prefixed(p, a) + prefixed(p, b));
}

proof fn lemma_prefixed_twice(p: Seq<MineDestinationRef>, x: MineDestinationRef, cs: Seq<Seq<MineDestinationRef>>)
    ensures
        prefixed(p, prefixed(seq![x], cs)) == prefixed(p.push(x), cs),
{
    assert forall|i: int| 0 <= i < cs.len() implies #[trigger] prefixed(p, prefixed(seq![x], cs))[i] == prefixed(p.push(x), cs)[i] by {
        assert(p + (seq![x] + cs[i]) =~= p.push(x) + cs[i]);
    }
    assert(prefixed(p, prefixed(seq![x], cs)) =~= prefixed(p.push(x), cs));
}

fn recurse_combinations(
    path: Vec<MineDestinationRef>,
    remain: &[(MineRef, usize)],
    output: &mut Vec<Vec<MineDestinationRef>>,
)
    ensures
        nested_dests(final(output)@) == nested_dests(old(output)@) + prefixed(path@, combinations(remain@)),
    decreases remain@.len(),
{
    if remain.len() > 0 {
        let (mine_ref, count) = remain[0];
        let rest = vstd::slice::slice_subrange(remain, 1, remain.len());
        proof {
            assert(rest@ == remain@.drop_first());
        }
        let ghost start = nested_dests(output@);
        let mut d: usize = 0;
        while d < count
            invariant
                d <= count,
                remain@.len() > 0,
                remain@[0] == (mine_ref, count),
                rest@ == remain@.drop_first(),
                nested_dests(output@) == start + prefixed(path@, combinations_upto(remain@, d as nat)),
            decreases count - d,
        {
            let next_path = extended(&path, MineDestinationRef { mine: mine_ref, destination: d });
            let ghost before = nested_dests(output@);
            recurse_combinations(next_path, rest, output);
            proof {
                let x = dest_of(remain@[0], d as int);
                assert(x == MineDestinationRef { mine: mine_ref, destination: d });
                lemma_prefixed_concat(path@, combinations_upto(remain@, d as nat), prefixed(seq![x], combinations(rest@)));
                lemma_prefixed_twice(path@, x, combinations(rest@));
                assert(combinations_upto(remain@, (d + 1) as nat)
                    == combinations_upto(remain@, d as nat) + prefixed(seq![x], combinations(remain@.drop_first())));
            }
            d += 1;
        }
    } else {
        let ghost before = output@;
        output.push(path);
        proof {
            assert(combinations(remain@) == seq![Seq::<MineDestinationRef>::empty()]);
            assert(path@ + Seq::<MineDestinationRef>::empty() =~= path@);
            assert(nested_dests(output@) =~= nested_dests(before) + prefixed(path@, combinations(remain@)));
        }
    }
}

/// Every choice of one destination per mine, given each mine with the
/// number of destinations it has.
pub fn find_all_combinations(mines: &[(MineRef, usize)]) -> (r: Vec<Vec<MineDestinationRef>>)
    ensures
        nested_dests(r@) == combinations(mines@),
{
    let mut sequences: Vec<Vec<MineDestinationRef>> = Vec::new();
    recurse_combinations(Vec::new(), mines, &mut sequences);
    proof {
        assert(prefixed(Seq::empty(), combinations(mines@)) =~= combinations(mines@)) by {
            assert forall|i: int| 0 <= i < combinations(mines@).len() implies
                #[trigger] prefixed(Seq::empty(), combinations(mines@))[i] == combinations(mines@)[i] by {
                assert(Seq::<MineDestinationRef>::empty() + combinations(mines@)[i] =~= combinations(mines@)[i]);
            }
        }
        assert(nested_dests(Seq::<Vec<MineDestinationRef>>::empty()) =~= Seq::empty());
    }
    sequences
}

/// Every permutation of every combination, as the name of itertools'
/// permutations gives them, one combination after the other.
pub open spec fn all_permutations(cs: Seq<Seq<(usize, usize)>>) -> Seq<Seq<(usize, usize)>>
    decreases cs.len(),
{
    if cs.len() == 0 {
        Seq::empty()
    } else {
        all_permutations(cs.drop_last()) + itertools_permutations(cs.last(), cs.last().len())
    }
}

/// Whether each list holds no item twice and no two lists hold the same items.
pub open spec fn distinct_item_sets(cs: Seq<Seq<MineDestinationRef>>) -> bool {
    &&& forall|j: int| 0 <= j < cs.len() ==> (#[trigger] cs[j]).no_duplicates()
    &&& forall|a: int, b: int| 0 <= a < b < cs.len() ==> (#[trigger] cs[a]).to_multiset() != (#[trigger] cs[b]).to_multiset()
}

/// How many reorderings the combinations have together: `n!` each.
pub open spec fn permutation_count(cs: Seq<Seq<MineDestinationRef>>) -> nat
    decreases cs.len(),
{
    if cs.len() == 0 { 0 } else { permutation_count(cs.drop_last()) + factorial(cs.last().len()) }
}

proof fn lemma_permutation_count_monotone(cs: Seq<Seq<MineDestinationRef>>, a: int, b: int)
    requires
        0 <= a <= b <= cs.len(),
    ensures
        permutation_count(cs.subrange(0, a)) <= permutation_count(cs.subrange(0, b)),
    decreases b - a,
{
    if a < b {
        lemma_permutation_count_monotone(cs, a, b - 1);
        assert(cs.subrange(0, b).drop_last() == cs.subrange(0, b - 1));
    }
}

/// Every reordering of every combination, one combination after the other:
/// the block of combination `k` starts after the `n!` reorderings of each
/// earlier combination of `n` items, and holds `|c_k|!` rearrangements of `c_k`.
#[verifier::rlimit(40)]
pub fn find_all_permutations(input_combinations: Vec<Vec<MineDestinationRef>>) -> (r: Vec<Vec<MineDestinationRef>>)
    ensures
        nested_dest_pairs(r@) == all_permutations(nested_dest_pairs(input_combinations@)),
        r@.len() == permutation_count(nested_dests(input_combinations@)),
        forall|k: int, i: int|
            #![trigger r@[i], input_combinations@[k]]
            0 <= k < input_combinations@.len()
            && permutation_count(nested_dests(input_combinations@).subrange(0, k)) <= i
            && i < permutation_count(nested_dests(input_combinations@).subrange(0, k + 1))
            ==> r@[i]@.to_multiset() == input_combinations@[k]@.to_multiset(),
        forall|k: int| 0 <= k < r@.len() ==> exists|j: int| 0 <= j < input_combinations@.len()
            && (#[trigger] r@[k])@.to_multiset() == input_combinations@[j]@.to_multiset(),
        distinct_item_sets(nested_dests(input_combinations@)) ==> nested_dests(r@).no_duplicates(),
{
    let mut r: Vec<Vec<MineDestinationRef>> = Vec::new();
    let ghost input = input_combinations@;
    let ghost pairs = nested_dest_pairs(input);
    for combination in it: input_combinations
        invariant
            it.seq() == input,
            pairs == nested_dest_pairs(input),
            nested_dest_pairs(r@) == all_permutations(pairs.subrange(0, it.index() as int)),
            r@.len() == permutation_count(nested_dests(input).subrange(0, it.index() as int)),
            forall|k: int, i: int|
                #![trigger r@[i], input[k]]
                0 <= k < it.index()
                && permutation_count(nested_dests(input).subrange(0, k)) <= i
                && i < permutation_count(nested_dests(input).subrange(0, k + 1))
                ==> r@[i]@.to_multiset() == input[k]@.to_multiset(),
            forall|k: int| 0 <= k < r@.len() ==> exists|j: int| 0 <= j < it.index()
                && (#[trigger] r@[k])@.to_multiset() == input[j]@.to_multiset(),
            distinct_item_sets(nested_dests(input)) ==> nested_dests(r@).no_duplicates(),
    {
        let ghost idx = it.index();
        let total_combinations = combination.len();
        let ghost before = r@;
        let mut perms = permutations_of(combination, total_combinations);
        let ghost added = perms@;
        r.append(&mut perms);
        proof {
            assert(combination == input[idx as int]);
            assert(pairs[idx as int] == dest_pairs(combination@));
            assert(dest_pairs(combination@).len() == total_combinations);
            let sub = pairs.subrange(0, idx + 1);
            assert(sub.drop_last() == pairs.subrange(0, idx as int));
            assert(sub.last() == pairs[idx as int]);
            assert(nested_dest_pairs(r@) =~= nested_dest_pairs(before) + nested_dest_pairs(added));
            let dsub = nested_dests(input).subrange(0, idx + 1);
            assert(dsub.drop_last() == nested_dests(input).subrange(0, idx as int));
            assert(dsub.last() == combination@);
            let nr = r@;
            assert forall|k: int, i: int|
                #![trigger nr[i], input[k]]
                0 <= k < idx + 1
                && permutation_count(nested_dests(input).subrange(0, k)) <= i
                && i < permutation_count(nested_dests(input).subrange(0, k + 1))
                implies nr[i]@.to_multiset() == input[k]@.to_multiset() by {
                if k < idx {
                    lemma_permutation_count_monotone(nested_dests(input), k + 1, idx as int);
                    assert(nr[i] == before[i]);
                    assert(before[i]@.to_multiset() == input[k]@.to_multiset());
                } else {
                    assert(nr[i] == added[i - before.len()]);
                }
            }
            assert forall|k: int| 0 <= k < nr.len() implies exists|j: int| 0 <= j < idx + 1
                && (#[trigger] nr[k])@.to_multiset() == input[j]@.to_multiset() by {
                if k < before.len() {
                    assert(nr[k] == before[k]);
                } else {
                    assert(nr[k] == added[k - before.len()]);
                    assert(added[k - before.len()]@.to_multiset() == combination@.to_multiset());
                    assert(input[idx as int] == combination);
                }
            }
            if distinct_item_sets(nested_dests(input)) {
                assert(nested_dests(input)[idx as int] == combination@);
                assert(combination@.no_duplicates());
                assert forall|a: int, b: int| 0 <= a < b < nr.len() implies nested_dests(nr)[a] != nested_dests(nr)[b] by {
                    if b < before.len() {
                        assert(nr[a] == before[a] && nr[b] == before[b]);
                        assert(nested_dests(before).no_duplicates());
                        assert(nested_dests(before)[a] != nested_dests(before)[b]);
                    } else if a >= before.len() {
                        assert(nr[a] == added[a - before.len()] && nr[b] == added[b - before.len()]);
                        assert(nested_dests(added).no_duplicates());
                        assert(nested_dests(added)[a - before.len()] != nested_dests(added)[b - before.len()]);
                    } else {
                        assert(nr[a] == before[a]);
                        let j = choose|j: int| 0 <= j < idx && (#[trigger] before[a])@.to_multiset() == input[j]@.to_multiset();
                        assert(nr[b] == added[b - before.len()]);
                        assert(nr[b]@.to_multiset() == combination@.to_multiset());
                        assert(nested_dests(input)[j] == input[j]@);
                        assert(nested_dests(input)[j].to_multiset() != nested_dests(input)[idx as int].to_multiset());
                    }
                }
            }
        }
    }
    proof {
        assert(pairs.subrange(0, pairs.len() as int) == pairs);
        assert(nested_dests(input).subrange(0, input.len() as int) == nested_dests(input));
    }
    r
}

/// Lists of destinations as lists of pairs of plain indices.
pub open spec fn pairs_of_lists(cs: Seq<Seq<MineDestinationRef>>) -> Seq<Seq<(usize, usize)>> {
    cs.map_values(|c: Seq<MineDestinationRef>| dest_pairs(c))
}

/// Whether `ms` holds the mines of `mines`, each once, ordered by mine index.
pub open spec fn sorted_by_mine(mines: Seq<(MineRef, usize)>, ms: Seq<(MineRef, usize)>) -> bool {
    &&& ms.len() == mines.len()
    &&& forall|a: int, b: int| 0 <= a < b < ms.len() ==> (#[trigger] ms[a]).0.0 < (#[trigger] ms[b]).0.0
    &&& forall|x: (MineRef, usize)| ms.contains(x) <==> mines.contains(x)
}

/// The mines ordered by mine index.
fn sort_by_mine(mines: &Vec<(MineRef, usize)>) -> (r: Vec<(MineRef, usize)>)
    requires
        distinct_mines(mines@),
    ensures
        sorted_by_mine(mines@, r@),
{
    let mut out: Vec<(MineRef, usize)> = Vec::new();
    let mut i: usize = 0;
    while i < mines.len()
        invariant
            i <= mines@.len(),
            distinct_mines(mines@),
            out@.len() == i,
            forall|a: int, b: int| 0 <= a < b < out@.len() ==> (#[trigger] out@[a]).0.0 < (#[trigger] out@[b]).0.0,
            forall|x: (MineRef, usize)| out@.contains(x) <==> mines@.subrange(0, i as int).contains(x),
        decreases mines@.len() - i,
    {
        let e = mines[i];
        let ghost before = out@;
        let mut q: usize = 0;
        while q < out.len() && out[q].0.0 < e.0.0
            invariant
                q <= out@.len(),
                out@ == before,
                forall|a: int| 0 <= a < q ==> (#[trigger] out@[a]).0.0 < e.0.0,
            decreases out@.len() - q,
        {
            q += 1;
        }
        proof {
            assert forall|a: int| q <= a < before.len() implies e.0.0 < (#[trigger] before[a]).0.0 by {
                assert(before.contains(before[a]));
                assert(mines@.subrange(0, i as int).contains(before[a]));
                let j = choose|j: int| 0 <= j < i && mines@.subrange(0, i as int)[j] == before[a];
                assert(mines@[j] == before[a]);
                assert(mines@[j].0 != mines@[i as int].0);
                if a > q {
                    assert(before[q as int].0.0 < before[a].0.0);
                }
            }
        }
        out.insert(q, e);
        proof {
            let now = out@;
            assert(now == before.insert(q as int, e));
            let sub = mines@.subrange(0, i + 1);
            assert(sub == mines@.subrange(0, i as int).push(e));
            assert forall|a: int, b: int| 0 <= a < b < now.len() implies (#[trigger] now[a]).0.0 < (#[trigger] now[b]).0.0 by {
                if b < q {
                    assert(now[a] == before[a] && now[b] == before[b]);
                } else if b == q {
                    assert(now[a] == before[a]);
                } else if a < q {
                    assert(now[a] == before[a] && now[b] == before[b - 1]);
                } else if a == q {
                    assert(now[b] == before[b - 1]);
                } else {
                    assert(now[a] == before[a - 1] && now[b] == before[b - 1]);
                }
            }
            assert forall|x: (MineRef, usize)| now.contains(x) <==> sub.contains(x) by {
                if now.contains(x) {
                    let k = choose|k: int| 0 <= k < now.len() && now[k] == x;
                    if k == q {
                        assert(sub[i as int] == x);
                    } else {
                        let kb = if k < q { k } else { k - 1 };
                        assert(before[kb] == x);
                        assert(before.contains(x));
                        assert(mines@.subrange(0, i as int).contains(x));
                        let j = choose|j: int| 0 <= j < i && mines@.subrange(0, i as int)[j] == x;
                        assert(sub[j] == x);
                    }
                }
                if sub.contains(x) {
                    let j = choose|j: int| 0 <= j < i + 1 && sub[j] == x;
                    if j == i {
                        assert(now[q as int] == x);
                    } else {
                        assert(mines@.subrange(0, i as int)[j] == x);
                        assert(mines@.subrange(0, i as int).contains(x));
                        assert(before.contains(x));
                        let k = choose|k: int| 0 <= k < before.len() && before[k] == x;
                        if k < q {
                            assert(now[k] == x);
                        } else {
                            assert(now[k + 1] == x);
                        }
                    }
                }
            }
        }
        i += 1;
    }
    proof {
        assert(mines@.subrange(0, mines@.len() as int) == mines@);
    }
    out
}

/// Every sequence of routes to try for a batch.
pub struct CompletePlan {
    pub sequences: Vec<ExecutionSequence>,
}

/// Whether `seq` routes to the destinations of `c` in order, each within
/// `limiter`.
pub open spec fn routes_to(seq: ExecutionSequence, c: Seq<MineDestinationRef>, limiter: VArea) -> bool {
    &&& seq.0@.len() == c.len()
    &&& forall|j: int| 0 <= j < c.len() ==> #[trigger] seq.0@[j] == (ExecutionRoute { destination: c[j], finding_limiter: limiter })
}

/// One sequence per combination, routing to its destinations in order.
pub fn build_routes_from_destinations(
    input_combinations: Vec<Vec<MineDestinationRef>>,
    fixed_finding_limiter: &VArea,
) -> (r: Vec<ExecutionSequence>)
    ensures
        r@.len() == input_combinations@.len(),
        forall|i: int| 0 <= i < r@.len() ==> routes_to(#[trigger] r@[i], input_combinations@[i]@, *fixed_finding_limiter),
{
    let mut sequences: Vec<ExecutionSequence> = Vec::new();
    let ghost input = input_combinations@;
    for combination in it: input_combinations
        invariant
            it.seq() == input,
            sequences@.len() == it.index(),
            forall|i: int| 0 <= i < sequences@.len() ==> routes_to(#[trigger] sequences@[i], input[i]@, *fixed_finding_limiter),
    {
        let mut routes: Vec<ExecutionRoute> = Vec::new();
        let mut j: usize = 0;
        while j < combination.len()
            invariant
                j <= combination@.len(),
                routes@.len() == j,
                forall|k: int| 0 <= k < j ==> #[trigger] routes@[k] == (ExecutionRoute { destination: combination@[k], finding_limiter: *fixed_finding_limiter }),
            decreases combination@.len() - j,
        {
            routes.push(ExecutionRoute { destination: combination[j], finding_limiter: *fixed_finding_limiter });
            j += 1;
        }
        let ghost before = sequences@;
        sequences.push(ExecutionSequence::new(routes));
        proof {
            assert forall|i: int| 0 <= i < sequences@.len() implies routes_to(#[trigger] sequences@[i], input[i]@, *fixed_finding_limiter) by {
                if i < before.len() {
                    assert(sequences@[i] == before[i]);
                }
            }
        }
    }
    sequences
}

proof fn lemma_product_positive(ms: Seq<(MineRef, usize)>)
    requires
        forall|j: int| 0 <= j < ms.len() ==> (#[trigger] ms[j]).1 > 0,
    ensures
        destination_product(ms) > 0,
    decreases ms.len(),
{
    if ms.len() > 0 {
        lemma_product_positive(ms.drop_first());
        let p = destination_product(ms.drop_first());
        assert((ms[0].1 as nat) * p > 0) by (nonlinear_arith)
            requires ms[0].1 > 0, p > 0;
    }
}

proof fn lemma_factorial_positive(n: nat)
    ensures
        factorial(n) >= 1,
    decreases n,
{
    if n > 0 {
        lemma_factorial_positive((n - 1) as nat);
        assert(n * factorial((n - 1) as nat) >= 1) by (nonlinear_arith)
            requires n >= 1, factorial((n - 1) as nat) >= 1;
    }
}

proof fn lemma_permutation_count_at_least(cs: Seq<Seq<MineDestinationRef>>)
    ensures
        permutation_count(cs) >= cs.len(),
    decreases cs.len(),
{
    if cs.len() > 0 {
        lemma_permutation_count_at_least(cs.drop_last());
        lemma_factorial_positive(cs.last().len());
    }
}

/// The destinations a sequence routes to, in order.
pub open spec fn sequence_dests(s: ExecutionSequence) -> Seq<MineDestinationRef> {
    s.0@.map_values(|r: ExecutionRoute| r.destination)
}

/// Whether `p` goes to every mine of `mines` exactly once, each time to one
/// of that mine's destinations.
pub open spec fn visits_each_mine_once(mines: Seq<(MineRef, usize)>, p: Seq<MineDestinationRef>) -> bool {
    &&& p.len() == mines.len()
    &&& forall|a: int, b: int| 0 <= a < b < p.len() ==> (#[trigger] p[a]).mine != (#[trigger] p[b]).mine
    &&& forall|x: (MineRef, usize)| #[trigger] mines.contains(x)
        ==> exists|j: int| 0 <= j < p.len() && (#[trigger] p[j]).mine == x.0 && p[j].destination < x.1
}

proof fn lemma_rearranged_pick(
    mines: Seq<(MineRef, usize)>,
    ms: Seq<(MineRef, usize)>,
    c: Seq<MineDestinationRef>,
    p: Seq<MineDestinationRef>,
)
    requires
        sorted_by_mine(mines, ms),
        distinct_mines(ms),
        picks_one_each(ms, c),
        p.to_multiset() == c.to_multiset(),
    ensures
        visits_each_mine_once(mines, p),
{
    broadcast use vstd::seq_lib::group_to_multiset_ensures;
    lemma_picks_distinct(ms, c);
    c.lemma_multiset_has_no_duplicates();
    p.lemma_multiset_has_no_duplicates_conv();
    assert(p.len() == c.len()) by {
        vstd::seq_lib::to_multiset_len(p);
        vstd::seq_lib::to_multiset_len(c);
    }
    assert forall|a: int, b: int| 0 <= a < b < p.len() implies (#[trigger] p[a]).mine != (#[trigger] p[b]).mine by {
        assert(p.contains(p[a]) && p.contains(p[b]));
        assert(p.to_multiset().count(p[a]) > 0 && p.to_multiset().count(p[b]) > 0);
        assert(c.contains(p[a]) && c.contains(p[b]));
        let ia = choose|i: int| 0 <= i < c.len() && c[i] == p[a];
        let ib = choose|i: int| 0 <= i < c.len() && c[i] == p[b];
        if p[a].mine == p[b].mine {
            assert(c[ia].mine == ms[ia].0 && c[ib].mine == ms[ib].0);
            if ia < ib {
                assert(ms[ia].0 != ms[ib].0);
            } else if ib < ia {
                assert(ms[ib].0 != ms[ia].0);
            }
            assert(p[a] == p[b]);
        }
    }
    assert forall|x: (MineRef, usize)| #[trigger] mines.contains(x)
        implies exists|j: int| 0 <= j < p.len() && (#[trigger] p[j]).mine == x.0 && p[j].destination < x.1 by {
        assert(ms.contains(x));
        let j0 = choose|j: int| 0 <= j < ms.len() && ms[j] == x;
        assert(c[j0].mine == x.0 && c[j0].destination < x.1);
        assert(c.contains(c[j0]));
        assert(c.to_multiset().count(c[j0]) > 0);
        assert(p.to_multiset().count(c[j0]) > 0);
        assert(p.contains(c[j0]));
        let j = choose|j: int| 0 <= j < p.len() && p[j] == c[j0];
        assert(p[j].mine == x.0);
    }
}

proof fn lemma_permutation_count_uniform(cs: Seq<Seq<MineDestinationRef>>, n: nat)
    requires
        forall|j: int| 0 <= j < cs.len() ==> (#[trigger] cs[j]).len() == n,
    ensures
        permutation_count(cs) == cs.len() * factorial(n),
    decreases cs.len(),
{
    if cs.len() > 0 {
        lemma_permutation_count_uniform(cs.drop_last(), n);
        assert(cs.last().len() == n);
        let l = cs.len();
        let f = factorial(n);
        assert((l - 1) * f + f == l * f) by (nonlinear_arith);
    }
}

/// Every sequence of routes to try for a batch of mines, each given with the
/// number of destinations it has: mines ordered by index, every choice of
/// one destination per mine, every order of each choice, each routed within
/// `fixed_finding_limiter`. The batch must hold at least one mine, no mine
/// twice, and every mine at least one destination.
#[verifier::rlimit(40)]
pub fn get_possible_routes_for_batch(mines: Vec<(MineRef, usize)>, fixed_finding_limiter: &VArea) -> (r: CompletePlan)
    requires
        mines@.len() > 0,
        distinct_mines(mines@),
        forall|j: int| 0 <= j < mines@.len() ==> (#[trigger] mines@[j]).1 > 0,
    ensures
        r.sequences@.len() > 0,
        forall|i: int| 0 <= i < r.sequences@.len() ==> visits_each_mine_once(mines@, sequence_dests(#[trigger] r.sequences@[i])),
        forall|i: int, j: int| 0 <= i < r.sequences@.len() && 0 <= j < r.sequences@[i].0@.len()
            ==> (#[trigger] r.sequences@[i].0@[j]).finding_limiter == *fixed_finding_limiter,
        exists|ms: Seq<(MineRef, usize)>, perms: Seq<Seq<MineDestinationRef>>| {
            &&& sorted_by_mine(mines@, ms)
            &&& r.sequences@.len() == destination_product(ms) * factorial(mines@.len())
            &&& pairs_of_lists(perms) == all_permutations(pairs_of_lists(combinations(ms)))
            &&& perms.len() == permutation_count(combinations(ms))
            &&& perms.no_duplicates()
            &&& r.sequences@.len() == perms.len()
            &&& forall|i: int| 0 <= i < perms.len() ==> routes_to(#[trigger] r.sequences@[i], perms[i], *fixed_finding_limiter)
        },
{
    let sorted = sort_by_mine(&mines);
    let ghost ms = sorted@;
    proof {
        assert(distinct_mines(ms)) by {
            assert forall|a: int, b: int| 0 <= a < b < ms.len() implies #[trigger] ms[a].0 != #[trigger] ms[b].0 by {
                assert(ms[a].0.0 < ms[b].0.0);
            }
        }
        assert forall|j: int| 0 <= j < ms.len() implies (#[trigger] ms[j]).1 > 0 by {
            assert(ms.contains(ms[j]));
            assert(mines@.contains(ms[j]));
            let k = choose|k: int| 0 <= k < mines@.len() && mines@[k] == ms[j];
            assert(mines@[k].1 > 0);
        }
        lemma_product_positive(ms);
        law_combination_count(ms);
        law_combinations_distinct(ms);
        law_combination_picks_one_each(ms);
    }
    let mine_combinations = find_all_combinations(sorted.as_slice());
    let ghost combos = combinations(ms);
    proof {
        assert(nested_dests(mine_combinations@) == combos);
        assert forall|j: int| 0 <= j < combos.len() implies (#[trigger] combos[j]).no_duplicates() by {
            assert(picks_one_each(ms, combos[j]));
            lemma_picks_distinct(ms, combos[j]);
        }
        assert forall|a: int, b: int| 0 <= a < b < combos.len()
            implies (#[trigger] combos[a]).to_multiset() != (#[trigger] combos[b]).to_multiset() by {
            if combos[a].to_multiset() == combos[b].to_multiset() {
                assert(picks_one_each(ms, combos[a]));
                assert(picks_one_each(ms, combos[b]));
                lemma_picks_same_items_are_equal(ms, combos[a], combos[b]);
                assert(combos.no_duplicates());
            }
        }
        assert(distinct_item_sets(combos));
        assert(nested_dest_pairs(mine_combinations@) =~= pairs_of_lists(combos));
    }
    let ghost old_combinations = mine_combinations@;
    let mine_combinations = find_all_permutations(mine_combinations);
    let ghost perms = nested_dests(mine_combinations@);
    proof {
        assert(nested_dest_pairs(mine_combinations@) =~= pairs_of_lists(perms));
        lemma_permutation_count_at_least(combos);
    }
    let sequences = build_routes_from_destinations(mine_combinations, fixed_finding_limiter);
    proof {
        assert(perms.no_duplicates());
        assert forall|j: int| 0 <= j < combos.len() implies (#[trigger] combos[j]).len() == mines@.len() by {
            assert(picks_one_each(ms, combos[j]));
        }
        lemma_permutation_count_uniform(combos, mines@.len());
        assert forall|i: int| 0 <= i < sequences@.len() implies visits_each_mine_once(mines@, sequence_dests(#[trigger] sequences@[i])) by {
            assert(routes_to(sequences@[i], perms[i], *fixed_finding_limiter));
            assert(sequence_dests(sequences@[i]) =~= perms[i]);
            assert(perms[i] == mine_combinations@[i]@);
            let jc = choose|jc: int| 0 <= jc < old_combinations.len()
                && (#[trigger] mine_combinations@[i])@.to_multiset() == old_combinations[jc]@.to_multiset();
            assert(nested_dests(old_combinations)[jc] == old_combinations[jc]@);
            assert(picks_one_each(ms, combos[jc]));
            lemma_rearranged_pick(mines@, ms, combos[jc], perms[i]);
        }
        assert forall|i: int, j: int| 0 <= i < sequences@.len() && 0 <= j < sequences@[i].0@.len()
            implies (#[trigger] sequences@[i].0@[j]).finding_limiter == *fixed_finding_limiter by {
            assert(routes_to(sequences@[i], perms[i], *fixed_finding_limiter));
        }
        assert forall|i: int| 0 <= i < perms.len() implies routes_to(#[trigger] sequences@[i], perms[i], *fixed_finding_limiter) by {
            assert(perms[i] == mine_combinations@[i]@);
        }
    }
    CompletePlan { sequences }
}

} // verus!
