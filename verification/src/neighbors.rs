//! The neighbours of a grid point, and their order by height.

use crate::scalar;
use crate::scalar::Scalar;
use crate::terrain_data;
use crate::terrain_data::{TerrainModel, TerrainResource};
use vstd::prelude::*;

verus! {

/// How many neighbours a point has.
pub const NEIGHBORS: usize = 8;

/// A neighbour on the grid, as it was when a slide began.
#[derive(Clone, Copy, Debug)]
pub struct Neighbor<S> {
    pub x: usize,
    pub z: usize,
    pub height: S,
    pub distance: S,
}

/// The step to the neighbour with number `k`: the eight steps of at most one along each
/// axis, by `x` and then by `z`.
pub open spec fn neighbor_step(k: int) -> (int, int) {
    if k < 3 {
        (-1, k - 1)
    } else if k < 5 {
        (0, 2 * k - 7)
    } else {
        (1, k - 6)
    }
}

/// How far such a step leads.
pub open spec fn step_length<S: Scalar>(dx: int, dz: int) -> S {
    let a = S::ratio_of(dx as i64, 1);
    let b = S::ratio_of(dz as i64, 1);
    a.mul(a).add(b.mul(b)).square_root()
}

/// Those of the first `k` neighbours of `(x, z)` that lie on the grid.
pub open spec fn neighbors_on_grid<S: Scalar>(
    t: TerrainModel<S>,
    x: int,
    z: int,
    k: nat,
) -> Seq<Neighbor<S>>
    decreases k,
{
    if k == 0 {
        Seq::empty()
    } else {
        let before = neighbors_on_grid(t, x, z, (k - 1) as nat);
        let (dx, dz) = neighbor_step(k - 1);
        if t.outside(x + dx, z + dz) {
            before
        } else {
            before.push(
                Neighbor {
                    x: (x + dx) as usize,
                    z: (z + dz) as usize,
                    height: t.at(x + dx, z + dz).height,
                    distance: step_length(dx, dz),
                },
            )
        }
    }
}

/// `ns` with `n` put behind every neighbour from the end on that is not above it.
pub open spec fn inserted<S: Scalar>(ns: Seq<Neighbor<S>>, n: Neighbor<S>) -> Seq<Neighbor<S>>
    decreases ns.len(),
{
    if ns.len() > 0 && n.height.lt(ns.last().height) {
        inserted(ns.drop_last(), n).push(ns.last())
    } else {
        ns.push(n)
    }
}

/// The neighbours from the lowest to the highest, those of one height in their order.
pub open spec fn by_height<S: Scalar>(ns: Seq<Neighbor<S>>) -> Seq<Neighbor<S>>
    decreases ns.len(),
{
    if ns.len() == 0 {
        ns
    } else {
        inserted(by_height(ns.drop_last()), ns.last())
    }
}

fn step_to_neighbor(k: usize) -> (r: (i32, i32))
    requires
        k < NEIGHBORS,
    ensures
        (r.0 as int, r.1 as int) == neighbor_step(k as int),
        -1 <= r.0 <= 1,
        -1 <= r.1 <= 1,
{
    if k < 3 {
        (-1, k as i32 - 1)
    } else if k < 5 {
        (0, 2 * (k as i32) - 7)
    } else {
        (1, k as i32 - 6)
    }
}

/// The neighbours of `(x, z)` that lie on the grid.
pub fn neighbors_of<S: Scalar>(terrain: &TerrainResource<S>, x: i32, z: i32) -> (r: Vec<
    Neighbor<S>,
>)
    requires
        terrain@.wf(),
        i32::MIN < x < i32::MAX,
        i32::MIN < z < i32::MAX,
    ensures
        r@ == neighbors_on_grid(terrain@, x as int, z as int, NEIGHBORS as nat),
{
    let mut found: Vec<Neighbor<S>> = Vec::with_capacity(NEIGHBORS);
    let mut k: usize = 0;
    while k < NEIGHBORS
        invariant
            k <= NEIGHBORS,
            terrain@.wf(),
            i32::MIN < x < i32::MAX,
            i32::MIN < z < i32::MAX,
            found@ == neighbors_on_grid(terrain@, x as int, z as int, k as nat),
        decreases NEIGHBORS - k,
    {
        let (dx, dz): (i32, i32) = step_to_neighbor(k);
        let nx: i32 = x + dx;
        let nz: i32 = z + dz;
        if !terrain.oob_i32(nx, nz) {
            proof {
                terrain_data::lemma_inside_reaches(terrain@, nx as int, nz as int);
            }
            let height: S = terrain.height_at(nx as usize, nz as usize);
            let a: S = S::ratio(dx as i64, 1);
            let b: S = S::ratio(dz as i64, 1);
            let distance: S = a.times(a).plus(b.times(b)).sqrt();
            found.push(Neighbor { x: nx as usize, z: nz as usize, height, distance });
        }
        k = k + 1;
    }
    found
}

/// Puts `n` among neighbours that stand by height.
fn insert_by_height<S: Scalar>(ns: &mut Vec<Neighbor<S>>, n: Neighbor<S>)
    ensures
        final(ns)@ == inserted(old(ns)@, n),
{
    let ghost before = ns@;
    let mut p: usize = ns.len();
    assert(before.take(p as int) =~= before);
    assert(before.skip(p as int) =~= Seq::empty());
    while p > 0 && n.height.below(ns[p - 1].height)
        invariant
            p <= ns.len(),
            ns@ == before,
            inserted(before, n) == inserted(before.take(p as int), n) + before.skip(p as int),
        decreases p,
    {
        proof {
            let head = before.take(p as int);
            assert(head.drop_last() =~= before.take(p - 1));
            assert(before.skip(p - 1) =~= seq![head.last()] + before.skip(p as int));
            assert(inserted(head, n) =~= inserted(before.take(p - 1), n).push(head.last()));
        }
        p = p - 1;
    }
    assert(before.insert(p as int, n) =~= before.take(p as int).push(n) + before.skip(p as int));
    ns.insert(p, n);
}

/// The neighbours from the lowest to the highest, those of one height in their order.
pub fn sort_by_height<S: Scalar>(ns: &Vec<Neighbor<S>>) -> (r: Vec<Neighbor<S>>)
    ensures
        r@ == by_height(ns@),
{
    let mut sorted: Vec<Neighbor<S>> = Vec::with_capacity(ns.len());
    let mut i: usize = 0;
    assert(ns@.take(0) =~= Seq::empty());
    while i < ns.len()
        invariant
            i <= ns.len(),
            sorted@ == by_height(ns@.take(i as int)),
        decreases ns.len() - i,
    {
        assert(ns@.take(i + 1).drop_last() =~= ns@.take(i as int));
        insert_by_height(&mut sorted, ns[i]);
        i = i + 1;
    }
    assert(ns@.take(i as int) =~= ns@);
    sorted
}

// ---- what sorting does ----

proof fn lemma_inserted_adds_one<S: Scalar>(ns: Seq<Neighbor<S>>, n: Neighbor<S>)
    ensures
        inserted(ns, n).to_multiset() =~= ns.to_multiset().insert(n),
    decreases ns.len(),
{
    broadcast use vstd::seq_lib::group_to_multiset_ensures;

    if ns.len() > 0 && n.height.lt(ns.last().height) {
        let rest = ns.drop_last();
        lemma_inserted_adds_one(rest, n);
        assert(ns =~= rest.push(ns.last()));
        assert(ns.to_multiset() =~= rest.to_multiset().insert(ns.last()));
    }
}

/// Sorting keeps every neighbour as often as it was there.
pub proof fn sorting_permutes<S: Scalar>(ns: Seq<Neighbor<S>>)
    ensures
        by_height(ns).to_multiset() == ns.to_multiset(),
    decreases ns.len(),
{
    broadcast use vstd::seq_lib::group_to_multiset_ensures;

    if ns.len() > 0 {
        let rest = ns.drop_last();
        sorting_permutes(rest);
        lemma_inserted_adds_one(by_height(rest), ns.last());
        assert(ns =~= rest.push(ns.last()));
    }
}

pub proof fn lemma_sorted_come_from_input<S: Scalar>(ns: Seq<Neighbor<S>>, i: int)
    requires
        0 <= i < by_height(ns).len(),
    ensures
        ns.contains(by_height(ns)[i]),
{
    broadcast use vstd::seq_lib::group_to_multiset_ensures;

    sorting_permutes(ns);
    assert(by_height(ns).contains(by_height(ns)[i]));
    assert(by_height(ns).to_multiset().count(by_height(ns)[i]) > 0);
}

/// Whether each two of `ns` compare.
pub open spec fn comparable<S: Scalar>(ns: Seq<Neighbor<S>>) -> bool {
    forall|i: int, j: int|
        0 <= i < ns.len() && 0 <= j < ns.len() ==> (#[trigger] ns[i]).height.le(
            (#[trigger] ns[j]).height,
        ) || ns[j].height.le(ns[i].height)
}

/// Whether `ns` stand from the lowest to the highest.
pub open spec fn ascending<S: Scalar>(ns: Seq<Neighbor<S>>) -> bool {
    forall|i: int, j: int|
        0 <= i < j < ns.len() ==> (#[trigger] ns[i]).height.le((#[trigger] ns[j]).height)
}

proof fn lemma_inserted_ascends<S: Scalar>(ns: Seq<Neighbor<S>>, n: Neighbor<S>)
    requires
        scalar::ordered::<S>(),
        ascending(ns),
        forall|i: int|
            0 <= i < ns.len() ==> (#[trigger] ns[i]).height.le(n.height) || n.height.le(
                ns[i].height,
            ),
    ensures
        ascending(inserted(ns, n)),
    decreases ns.len(),
{
    broadcast use vstd::seq_lib::group_to_multiset_ensures;

    if ns.len() > 0 {
        let rest = ns.drop_last();
        let last = ns.last();
        assert(last == ns[ns.len() - 1]);
        if n.height.lt(last.height) {
            lemma_inserted_ascends(rest, n);
            lemma_inserted_adds_one(rest, n);
            let lower = inserted(rest, n);
            assert forall|i: int| 0 <= i < lower.len() implies (#[trigger] lower[i]).height.le(
                last.height,
            ) by {
                assert(lower.contains(lower[i]));
                assert(lower.to_multiset().count(lower[i]) > 0);
                if lower[i] != n {
                    assert(rest.to_multiset().count(lower[i]) > 0);
                    assert(rest.contains(lower[i]));
                    let k = choose|k: int| 0 <= k < rest.len() && rest[k] == lower[i];
                    assert(ns[k].height.le(ns[ns.len() - 1].height));
                }
            }
        } else {
            assert(last.height.le(n.height));
            assert forall|i: int| 0 <= i < ns.len() implies (#[trigger] ns[i]).height.le(
                n.height,
            ) by {
                if i < ns.len() - 1 {
                    assert(ns[i].height.le(ns[ns.len() - 1].height));
                }
            }
        }
    }
}

/// Sorting puts neighbours whose heights compare from the lowest to the highest.
pub proof fn sorting_ascends<S: Scalar>(ns: Seq<Neighbor<S>>)
    requires
        scalar::ordered::<S>(),
        comparable(ns),
    ensures
        ascending(by_height(ns)),
    decreases ns.len(),
{
    if ns.len() > 0 {
        let rest = ns.drop_last();
        let sorted = by_height(rest);
        let last = ns.last();
        assert(last == ns[ns.len() - 1]);
        assert forall|i: int, j: int| 0 <= i < rest.len() && 0 <= j < rest.len() implies (
        #[trigger] rest[i]).height.le((#[trigger] rest[j]).height) || rest[j].height.le(
            rest[i].height,
        ) by {
            assert(rest[i] == ns[i]);
            assert(rest[j] == ns[j]);
        }
        sorting_ascends(rest);
        assert forall|i: int| 0 <= i < sorted.len() implies (#[trigger] sorted[i]).height.le(
            last.height,
        ) || last.height.le(sorted[i].height) by {
            lemma_sorted_come_from_input(rest, i);
            let k = choose|k: int| 0 <= k < rest.len() && rest[k] == sorted[i];
            assert(rest[k] == ns[k]);
            assert(ns[k].height.le(ns[ns.len() - 1].height) || ns[ns.len() - 1].height.le(
                ns[k].height,
            ));
        }
        lemma_inserted_ascends(sorted, last);
    }
}

/// Whether a neighbour is as high as `h`.
pub open spec fn level_with<S: Scalar>(h: S) -> spec_fn(Neighbor<S>) -> bool {
    |n: Neighbor<S>| n.height.le(h) && h.le(n.height)
}

proof fn lemma_filter_of_push<S: Scalar>(
    ns: Seq<Neighbor<S>>,
    n: Neighbor<S>,
    p: spec_fn(Neighbor<S>) -> bool,
)
    ensures
        ns.push(n).filter(p) == (if p(n) {
            ns.filter(p).push(n)
        } else {
            ns.filter(p)
        }),
{
    reveal(Seq::filter);
    assert(ns.push(n).drop_last() =~= ns);
}

proof fn lemma_inserted_comes_last_of_its_level<S: Scalar>(
    ns: Seq<Neighbor<S>>,
    n: Neighbor<S>,
    h: S,
)
    requires
        scalar::ordered::<S>(),
    ensures
        inserted(ns, n).filter(level_with(h)) == ns.push(n).filter(level_with(h)),
    decreases ns.len(),
{
    let p = level_with(h);
    if ns.len() > 0 && n.height.lt(ns.last().height) {
        let rest = ns.drop_last();
        let last = ns.last();
        lemma_inserted_comes_last_of_its_level(rest, n, h);
        lemma_filter_of_push(inserted(rest, n), last, p);
        lemma_filter_of_push(rest, n, p);
        lemma_filter_of_push(rest, last, p);
        assert(ns =~= rest.push(last));
        lemma_filter_of_push(ns, n, p);
        if p(n) && p(last) {
            assert(last.height.le(h) && h.le(n.height));
            assert(last.height.le(n.height));
        }
    }
}

/// Sorting keeps neighbours of one height in their order.
pub proof fn sorting_is_stable<S: Scalar>(ns: Seq<Neighbor<S>>, h: S)
    requires
        scalar::ordered::<S>(),
    ensures
        by_height(ns).filter(level_with(h)) == ns.filter(level_with(h)),
    decreases ns.len(),
{
    if ns.len() > 0 {
        let rest = ns.drop_last();
        let p = level_with(h);
        sorting_is_stable(rest, h);
        lemma_inserted_comes_last_of_its_level(by_height(rest), ns.last(), h);
        lemma_filter_of_push(by_height(rest), ns.last(), p);
        assert(ns =~= rest.push(ns.last()));
        lemma_filter_of_push(rest, ns.last(), p);
    }
}

// ---- where neighbours lie ----

/// Whether all of `ns` lie on the grid.
pub open spec fn all_on_grid<S: Scalar>(t: TerrainModel<S>, ns: Seq<Neighbor<S>>) -> bool {
    forall|i: int|
        0 <= i < ns.len() ==> !t.outside((#[trigger] ns[i]).x as int, ns[i].z as int)
}

proof fn lemma_neighbors_are_on_grid<S: Scalar>(t: TerrainModel<S>, x: int, z: int, k: nat)
    requires
        t.wf(),
    ensures
        all_on_grid(t, neighbors_on_grid(t, x, z, k)),
    decreases k,
{
    if k > 0 {
        lemma_neighbors_are_on_grid(t, x, z, (k - 1) as nat);
    }
}

/// The neighbours of a point, sorted, lie on the grid.
pub proof fn lemma_sorted_neighbors_are_on_grid<S: Scalar>(t: TerrainModel<S>, x: int, z: int)
    requires
        t.wf(),
    ensures
        all_on_grid(t, by_height(neighbors_on_grid(t, x, z, NEIGHBORS as nat))),
{
    let ns = neighbors_on_grid(t, x, z, NEIGHBORS as nat);
    lemma_neighbors_are_on_grid(t, x, z, NEIGHBORS as nat);
    assert forall|i: int| 0 <= i < by_height(ns).len() implies !t.outside(
        (#[trigger] by_height(ns)[i]).x as int,
        by_height(ns)[i].z as int,
    ) by {
        lemma_sorted_come_from_input(ns, i);
        let k = choose|k: int| 0 <= k < ns.len() && ns[k] == by_height(ns)[i];
        assert(!t.outside(ns[k].x as int, ns[k].z as int));
    }
}

/// Whether all of `ns` lie within one step of `(x, z)`.
pub open spec fn all_within_a_step<S: Scalar>(x: int, z: int, ns: Seq<Neighbor<S>>) -> bool {
    forall|i: int|
        0 <= i < ns.len() ==> -1 <= (#[trigger] ns[i]).x - x <= 1 && -1 <= ns[i].z - z <= 1
}

proof fn lemma_neighbors_are_near<S: Scalar>(t: TerrainModel<S>, x: int, z: int, k: nat)
    requires
        t.wf(),
        k <= NEIGHBORS,
    ensures
        all_within_a_step(x, z, neighbors_on_grid(t, x, z, k)),
    decreases k,
{
    if k > 0 {
        lemma_neighbors_are_near(t, x, z, (k - 1) as nat);
    }
}

/// The neighbours of a point, sorted, lie within one step of it.
pub proof fn lemma_sorted_neighbors_are_near<S: Scalar>(t: TerrainModel<S>, x: int, z: int)
    requires
        t.wf(),
    ensures
        all_within_a_step(x, z, by_height(neighbors_on_grid(t, x, z, NEIGHBORS as nat))),
{
    let ns = neighbors_on_grid(t, x, z, NEIGHBORS as nat);
    lemma_neighbors_are_near(t, x, z, NEIGHBORS as nat);
    assert forall|i: int| 0 <= i < by_height(ns).len() implies -1 <= (
    #[trigger] by_height(ns)[i]).x - x <= 1 && -1 <= by_height(ns)[i].z - z <= 1 by {
        lemma_sorted_come_from_input(ns, i);
        let k = choose|k: int| 0 <= k < ns.len() && ns[k] == by_height(ns)[i];
        assert(-1 <= ns[k].x - x <= 1 && -1 <= ns[k].z - z <= 1);
    }
}

/// Whether `ns` lie at different points, none of them `(x, z)`.
pub open spec fn all_apart<S: Scalar>(x: int, z: int, ns: Seq<Neighbor<S>>) -> bool {
    &&& forall|i: int| 0 <= i < ns.len() ==> (#[trigger] ns[i]).x != x || ns[i].z != z
    &&& forall|i: int, j: int|
        0 <= i < j < ns.len() ==> (#[trigger] ns[i]).x != (#[trigger] ns[j]).x || ns[i].z
            != ns[j].z
}

/// Whether each of `ns` lies one of the first `k` steps from `(x, z)`.
spec fn all_steps_off<S: Scalar>(x: int, z: int, ns: Seq<Neighbor<S>>, k: nat) -> bool {
    forall|i: int| 0 <= i < ns.len() ==> a_step_off(x, z, #[trigger] ns[i], k)
}

spec fn a_step_off<S: Scalar>(x: int, z: int, n: Neighbor<S>, k: nat) -> bool {
    exists|j: int|
        0 <= j < k && #[trigger] neighbor_step(j) == (n.x - x, n.z - z)
}

proof fn lemma_neighbors_are_apart<S: Scalar>(t: TerrainModel<S>, x: int, z: int, k: nat)
    requires
        t.wf(),
        k <= NEIGHBORS,
    ensures
        all_apart(x, z, neighbors_on_grid(t, x, z, k)),
        all_steps_off(x, z, neighbors_on_grid(t, x, z, k), k),
    decreases k,
{
    if k > 0 {
        let before = neighbors_on_grid(t, x, z, (k - 1) as nat);
        let after = neighbors_on_grid(t, x, z, k);
        lemma_neighbors_are_apart(t, x, z, (k - 1) as nat);
        assert forall|i: int| 0 <= i < after.len() implies a_step_off(
            x,
            z,
            #[trigger] after[i],
            k,
        ) by {
            if i < before.len() {
                assert(after[i] == before[i]);
                assert(a_step_off(x, z, before[i], (k - 1) as nat));
                let j = choose|j: int|
                    0 <= j < k - 1 && #[trigger] neighbor_step(j) == (
                        before[i].x - x,
                        before[i].z - z,
                    );
                assert(neighbor_step(j) == (after[i].x - x, after[i].z - z));
            } else {
                assert(neighbor_step(k - 1) == (after[i].x - x, after[i].z - z));
            }
        }
        if after.len() > before.len() {
            let n = after.last();
            assert forall|i: int| 0 <= i < before.len() implies (#[trigger] before[i]).x != n.x
                || before[i].z != n.z by {
                assert(a_step_off(x, z, before[i], (k - 1) as nat));
                let j = choose|j: int|
                    0 <= j < k - 1 && #[trigger] neighbor_step(j) == (
                        before[i].x - x,
                        before[i].z - z,
                    );
                assert(neighbor_step(k - 1) == (n.x - x, n.z - z));
                assert(neighbor_step(j) != neighbor_step(k - 1));
            }
        }
    }
}

proof fn lemma_inserted_come_from_either<S: Scalar>(
    ns: Seq<Neighbor<S>>,
    n: Neighbor<S>,
    i: int,
)
    requires
        0 <= i < inserted(ns, n).len(),
    ensures
        inserted(ns, n)[i] == n || ns.contains(inserted(ns, n)[i]),
{
    broadcast use vstd::seq_lib::group_to_multiset_ensures;

    lemma_inserted_adds_one(ns, n);
    assert(inserted(ns, n).contains(inserted(ns, n)[i]));
    assert(inserted(ns, n).to_multiset().count(inserted(ns, n)[i]) > 0);
}

proof fn lemma_inserted_stay_apart<S: Scalar>(
    x: int,
    z: int,
    ns: Seq<Neighbor<S>>,
    n: Neighbor<S>,
)
    requires
        all_apart(x, z, ns.push(n)),
    ensures
        all_apart(x, z, inserted(ns, n)),
    decreases ns.len(),
{
    let all = ns.push(n);
    if ns.len() > 0 && n.height.lt(ns.last().height) {
        let rest = ns.drop_last();
        let last = ns.last();
        assert(last == all[ns.len() - 1] && n == all[ns.len() as int]);
        assert forall|i: int| 0 <= i < rest.push(n).len() implies (
        #[trigger] rest.push(n)[i]).x != x || rest.push(n)[i].z != z by {
            if i < rest.len() {
                assert(rest.push(n)[i] == all[i]);
            }
        }
        assert forall|i: int, j: int| 0 <= i < j < rest.push(n).len() implies (
        #[trigger] rest.push(n)[i]).x != (#[trigger] rest.push(n)[j]).x || rest.push(n)[i].z
            != rest.push(n)[j].z by {
            assert(rest.push(n)[i] == all[i]);
            if j < rest.len() {
                assert(rest.push(n)[j] == all[j]);
            }
        }
        lemma_inserted_stay_apart(x, z, rest, n);
        let part = inserted(rest, n);
        assert forall|i: int| 0 <= i < part.len() implies (#[trigger] part[i]).x != last.x
            || part[i].z != last.z by {
            lemma_inserted_come_from_either(rest, n, i);
            if part[i] != n {
                let k = choose|k: int| 0 <= k < rest.len() && rest[k] == part[i];
                assert(all[k] == part[i]);
            }
        }
    }
}

/// Those before the last of neighbours that lie apart lie apart.
pub proof fn lemma_rest_is_apart<S: Scalar>(x: int, z: int, ns: Seq<Neighbor<S>>)
    requires
        all_apart(x, z, ns),
        ns.len() > 0,
    ensures
        all_apart(x, z, ns.drop_last()),
{
    let rest = ns.drop_last();
    assert forall|i: int| 0 <= i < rest.len() implies (#[trigger] rest[i]).x != x || rest[i].z
        != z by {
        assert(rest[i] == ns[i]);
    }
    assert forall|i: int, j: int| 0 <= i < j < rest.len() implies (#[trigger] rest[i]).x != (
    #[trigger] rest[j]).x || rest[i].z != rest[j].z by {
        assert(rest[i] == ns[i] && rest[j] == ns[j]);
    }
}

proof fn lemma_sorted_stay_apart<S: Scalar>(x: int, z: int, ns: Seq<Neighbor<S>>)
    requires
        all_apart(x, z, ns),
    ensures
        all_apart(x, z, by_height(ns)),
    decreases ns.len(),
{
    if ns.len() > 0 {
        let rest = ns.drop_last();
        let last = ns.last();
        let sorted = by_height(rest);
        assert(last == ns[ns.len() - 1]);
        lemma_rest_is_apart(x, z, ns);
        lemma_sorted_stay_apart(x, z, rest);
        assert forall|i: int| 0 <= i < sorted.len() implies (#[trigger] sorted[i]).x != last.x
            || sorted[i].z != last.z by {
            lemma_sorted_come_from_input(rest, i);
            let k = choose|k: int| 0 <= k < rest.len() && rest[k] == sorted[i];
            assert(ns[k] == sorted[i]);
        }
        assert(all_apart(x, z, sorted.push(last)));
        lemma_inserted_stay_apart(x, z, sorted, last);
    }
}

/// The neighbours of a point, sorted, lie at different points, none of them that point.
pub proof fn lemma_sorted_neighbors_are_apart<S: Scalar>(t: TerrainModel<S>, x: int, z: int)
    requires
        t.wf(),
    ensures
        all_apart(x, z, by_height(neighbors_on_grid(t, x, z, NEIGHBORS as nat))),
{
    lemma_neighbors_are_apart(t, x, z, NEIGHBORS as nat);
    lemma_sorted_stay_apart(x, z, neighbors_on_grid(t, x, z, NEIGHBORS as nat));
}

/// Sorting loses no neighbour.
pub proof fn lemma_sorted_hold_input<S: Scalar>(ns: Seq<Neighbor<S>>, m: int)
    requires
        0 <= m < ns.len(),
    ensures
        by_height(ns).contains(ns[m]),
{
    broadcast use vstd::seq_lib::group_to_multiset_ensures;

    sorting_permutes(ns);
    assert(ns.contains(ns[m]));
    assert(ns.to_multiset().count(ns[m]) > 0);
}

} // verus!
