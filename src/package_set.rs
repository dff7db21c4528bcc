use vstd::prelude::*;
use crate::error::VesselError;
use crate::package::{Package, PackageView, views, strings_view, ref_views};
use crate::sorter::{pending, sorter_new, sorter_insert, sorter_add_dependency, sorter_pop, sorter_len};
use crate::names::{name_lt, same_name, name_less, lemma_name_lt_asymmetric, lemma_name_lt_irreflexive, lemma_name_lt_transitive, lemma_name_lt_total};

verus! {

broadcast use crate::package::group_views;

/// No two packages share a name.
pub open spec fn names_distinct(ps: Seq<PackageView>) -> bool {
    forall|i: int, j: int|
        0 <= i < ps.len() && 0 <= j < ps.len() && i != j ==> #[trigger] ps[i].name != #[trigger] ps[j].name
}

/// Some package is called `n`.
pub open spec fn known(ps: Seq<PackageView>, n: Seq<char>) -> bool {
    exists|k: int| 0 <= k < ps.len() && #[trigger] ps[k].name == n
}

/// The package called `a` lists `b` among its direct dependencies.
pub open spec fn depends_on(ps: Seq<PackageView>, a: Seq<char>, b: Seq<char>) -> bool {
    exists|k: int| 0 <= k < ps.len() && #[trigger] ps[k].name == a && ps[k].dependencies.contains(b)
}

/// A chain of names, each a direct dependency of the one before it.
pub open spec fn is_dep_path(ps: Seq<PackageView>, p: Seq<Seq<char>>) -> bool {
    &&& p.len() > 0
    &&& forall|i: int| 0 <= i < p.len() - 1 ==> #[trigger] depends_on(ps, p[i], p[i + 1])
}

/// `n` is one of the entry points, or is reached from one by dependency edges.
pub open spec fn reachable(ps: Seq<PackageView>, entries: Seq<Seq<char>>, n: Seq<char>) -> bool {
    exists|p: Seq<Seq<char>>|
        #[trigger] is_dep_path(ps, p) && entries.contains(p[0]) && p.last() == n
}

/// `v` lists, each once and sorted by name, exactly the packages reachable
/// from `entries`.
pub open spec fn lists_closure(
    ps: Seq<PackageView>,
    entries: Seq<Seq<char>>,
    v: Seq<PackageView>,
) -> bool {
    &&& forall|i: int, j: int| 0 <= i < j < v.len() ==> name_lt(#[trigger] v[i].name, #[trigger] v[j].name)
    &&& forall|i: int| 0 <= i < v.len() ==> ps.contains(#[trigger] v[i])
    &&& forall|n: Seq<char>|
        reachable(ps, entries, n) <==> exists|i: int| 0 <= i < v.len() && #[trigger] v[i].name == n
}

/// Every dependency of every package is a package of the set.
pub open spec fn deps_known(ps: Seq<PackageView>) -> bool {
    forall|k: int, d: Seq<char>|
        0 <= k < ps.len() && #[trigger] ps[k].dependencies.contains(d) ==> known(ps, d)
}

/// `v` lists every package of `ps` once, and no package comes before one it
/// depends on (or is its own dependency).
pub open spec fn is_build_order(ps: Seq<PackageView>, v: Seq<PackageView>) -> bool {
    &&& v.len() == ps.len()
    &&& forall|i: int| 0 <= i < ps.len() ==> v.contains(#[trigger] ps[i])
    &&& forall|i: int| 0 <= i < v.len() ==> ps.contains(#[trigger] v[i])
    &&& forall|a: int, b: int|
        0 <= a <= b < v.len() ==> !(#[trigger] v[a].dependencies).contains(#[trigger] v[b].name)
}

/// Some non-empty group of packages each depends on a member of the group, so
/// none of them can be built first.
pub open spec fn has_cycle(ps: Seq<PackageView>) -> bool {
    exists|s: Set<int>| #[trigger] is_blocking_group(ps, s)
}

/// `s` is a non-empty group of packages in which each depends on a member.
pub open spec fn is_blocking_group(ps: Seq<PackageView>, s: Set<int>) -> bool {
    &&& s.len() > 0
    &&& s.finite()
    &&& forall|k: int| s.contains(k) ==> 0 <= k < ps.len()
    &&& forall|k: int| #[trigger] s.contains(k) ==> depends_within(ps, s, k)
}

/// `ps[k]` depends on some member of `s`.
#[verifier::opaque]
pub open spec fn depends_within(ps: Seq<PackageView>, s: Set<int>, k: int) -> bool {
    exists|j: int| s.contains(j) && ps[k].dependencies.contains(ps[j].name)
}

proof fn lemma_no_repeats_fill(order: Seq<usize>, n: usize)
    requires
        forall|p: int, q: int| 0 <= p < q < order.len() ==> order[p] != order[q],
        forall|p: int| 0 <= p < order.len() ==> order[p] < n,
        forall|k: usize| k < n ==> order.contains(k),
    ensures
        order.len() == n,
{
    let oi = Seq::new(order.len(), |p: int| order[p] as int);
    assert(oi.no_duplicates()) by {
        assert forall|p: int, q: int| 0 <= p < oi.len() && 0 <= q < oi.len() && p != q implies oi[p] != oi[q] by {
            if p < q {
                assert(order[p] != order[q]);
            } else {
                assert(order[q] != order[p]);
            }
        }
    }
    assert(oi.to_set() =~= vstd::set_lib::set_int_range(0, n as int)) by {
        assert forall|k: int| vstd::set_lib::set_int_range(0, n as int).contains(k) implies oi.to_set().contains(k) by {
            assert(order.contains(k as usize));
            let p = choose|p: int| 0 <= p < order.len() && order[p] == k as usize;
            assert(oi[p] == k);
        }
    }
    oi.unique_seq_to_set();
    vstd::set_lib::lemma_int_range(0, n as int);
}

/// Every package before position `i` is held with all its dependencies.
pub open spec fn settled_below(m: Map<usize, Set<usize>>, ps: Seq<PackageView>, i: usize) -> bool {
    forall|k: usize| k < i ==> #[trigger] m.dom().contains(k) && m[k] == dep_indices(ps, k as int)
}

/// The indices of the packages that `ps[k]` depends on.
pub open spec fn dep_indices(ps: Seq<PackageView>, k: int) -> Set<usize> {
    Set::new(|j: usize| (j as int) < ps.len() && ps[k].dependencies.contains(ps[j as int].name))
}

/// The indices of the packages named in the first `q` dependencies of `ps[k]`.
pub open spec fn dep_indices_upto(ps: Seq<PackageView>, k: int, q: int) -> Set<usize> {
    Set::new(|j: usize| (j as int) < ps.len() && ps[k].dependencies.take(q).contains(ps[j as int].name))
}

/// Where in `v` the package called `n` stands.
pub open spec fn position_of(v: Seq<PackageView>, n: Seq<char>) -> int {
    choose|a: int| 0 <= a < v.len() && #[trigger] v[a].name == n
}

proof fn lemma_sorted_listings_equal(v1: Seq<PackageView>, v2: Seq<PackageView>, ps: Seq<PackageView>)
    requires
        names_distinct(ps),
        forall|i: int| 0 <= i < v1.len() ==> ps.contains(#[trigger] v1[i]),
        forall|i: int| 0 <= i < v2.len() ==> ps.contains(#[trigger] v2[i]),
        forall|i: int, j: int| 0 <= i < j < v1.len() ==> name_lt(#[trigger] v1[i].name, #[trigger] v1[j].name),
        forall|i: int, j: int| 0 <= i < j < v2.len() ==> name_lt(#[trigger] v2[i].name, #[trigger] v2[j].name),
        forall|n: Seq<char>| known(v1, n) <==> known(v2, n),
    ensures
        v1 == v2,
    decreases v1.len(),
{
    if v1.len() == 0 {
        if v2.len() > 0 {
            assert(known(v2, v2[0].name));
        }
        assert(v1 =~= v2);
    } else {
        assert(known(v1, v1[0].name));
        let j = choose|j: int| 0 <= j < v2.len() && #[trigger] v2[j].name == v1[0].name;
        assert(known(v2, v2[0].name));
        let i = choose|i: int| 0 <= i < v1.len() && #[trigger] v1[i].name == v2[0].name;
        if j > 0 {
            assert(name_lt(v2[0].name, v2[j].name));
            if i > 0 {
                assert(name_lt(v1[0].name, v1[i].name));
                lemma_name_lt_asymmetric(v1[0].name, v2[0].name);
            } else {
                lemma_name_lt_irreflexive(v1[0].name);
            }
        }
        assert(j == 0);
        // Equal names within the set mean equal packages.
        let a = choose|a: int| 0 <= a < ps.len() && ps[a] == v1[0];
        let b = choose|b: int| 0 <= b < ps.len() && ps[b] == v2[0];
        assert(ps[a].name == ps[b].name);
        assert(v1[0] == v2[0]);
        let t1 = v1.drop_first();
        let t2 = v2.drop_first();
        assert forall|n: Seq<char>| known(t1, n) <==> known(t2, n) by {
            if known(t1, n) {
                let x = choose|x: int| 0 <= x < t1.len() && #[trigger] t1[x].name == n;
                assert(name_lt(v1[0].name, v1[x + 1].name));
                assert(known(v1, n));
                let y = choose|y: int| 0 <= y < v2.len() && #[trigger] v2[y].name == n;
                if y == 0 {
                    lemma_name_lt_irreflexive(n);
                }
                assert(t2[y - 1].name == n);
            }
            if known(t2, n) {
                let x = choose|x: int| 0 <= x < t2.len() && #[trigger] t2[x].name == n;
                assert(name_lt(v2[0].name, v2[x + 1].name));
                assert(known(v2, n));
                let y = choose|y: int| 0 <= y < v1.len() && #[trigger] v1[y].name == n;
                if y == 0 {
                    lemma_name_lt_irreflexive(n);
                }
                assert(t1[y - 1].name == n);
            }
        }
        assert forall|x: int| 0 <= x < t1.len() implies ps.contains(#[trigger] t1[x]) by {
            assert(t1[x] == v1[x + 1]);
        }
        assert forall|x: int| 0 <= x < t2.len() implies ps.contains(#[trigger] t2[x]) by {
            assert(t2[x] == v2[x + 1]);
        }
        assert forall|x: int, y: int| 0 <= x < y < t1.len() implies name_lt(#[trigger] t1[x].name, #[trigger] t1[y].name) by {
            assert(name_lt(v1[x + 1].name, v1[y + 1].name));
        }
        assert forall|x: int, y: int| 0 <= x < y < t2.len() implies name_lt(#[trigger] t2[x].name, #[trigger] t2[y].name) by {
            assert(name_lt(v2[x + 1].name, v2[y + 1].name));
        }
        lemma_sorted_listings_equal(t1, t2, ps);
        assert(v1 =~= v2) by {
            assert forall|x: int| 0 <= x < v1.len() implies v1[x] == v2[x] by {
                if x > 0 {
                    assert(v1[x] == t1[x - 1]);
                    assert(v2[x] == t2[x - 1]);
                }
            }
        }
    }
}

/// The listing of transitive dependencies depends only on the package set
/// and on the entry points taken as a set: their order and repetitions do
/// not matter, and computing it again gives the same list.
pub proof fn law_transitive_deps_determined(
    set: &PackageSet,
    e1: Seq<Seq<char>>,
    e2: Seq<Seq<char>>,
    v1: Seq<PackageView>,
    v2: Seq<PackageView>,
)
    requires
        set.wf(),
        e1.to_set() == e2.to_set(),
        lists_closure(set@, e1, v1),
        lists_closure(set@, e2, v2),
    ensures
        v1 == v2,
{
    let ps = set@;
    assert forall|x: Seq<char>| e1.contains(x) <==> e2.contains(x) by {
        assert(e1.to_set().contains(x) == e1.contains(x));
        assert(e2.to_set().contains(x) == e2.contains(x));
    }
    assert forall|n: Seq<char>| reachable(ps, e1, n) <==> reachable(ps, e2, n) by {
        if reachable(ps, e1, n) {
            let p = choose|p: Seq<Seq<char>>| #[trigger] is_dep_path(ps, p) && e1.contains(p[0]) && p.last() == n;
            assert(e2.contains(p[0]));
        }
        if reachable(ps, e2, n) {
            let p = choose|p: Seq<Seq<char>>| #[trigger] is_dep_path(ps, p) && e2.contains(p[0]) && p.last() == n;
            assert(e1.contains(p[0]));
        }
    }
    assert forall|n: Seq<char>| known(v1, n) <==> known(v2, n) by {
        if known(v1, n) {
            let i = choose|i: int| 0 <= i < v1.len() && #[trigger] v1[i].name == n;
            assert(reachable(ps, e1, n));
            let j = choose|j: int| 0 <= j < v2.len() && #[trigger] v2[j].name == n;
        }
        if known(v2, n) {
            let i = choose|i: int| 0 <= i < v2.len() && #[trigger] v2[i].name == n;
            assert(reachable(ps, e2, n));
            let j = choose|j: int| 0 <= j < v1.len() && #[trigger] v1[j].name == n;
        }
    }
    lemma_sorted_listings_equal(v1, v2, ps);
}

/// In a build order of a set whose dependencies are all known, every
/// dependency of a package comes before it.
pub proof fn law_build_order_puts_dependencies_first(set: &PackageSet, v: Seq<PackageView>, b: int, d: Seq<char>)
    requires
        set.wf(),
        deps_known(set@),
        is_build_order(set@, v),
        0 <= b < v.len(),
        v[b].dependencies.contains(d),
    ensures
        known(v, d),
        position_of(v, d) < b,
{
    let ps = set@;
    let k = choose|k: int| 0 <= k < ps.len() && ps[k] == v[b];
    assert(ps[k].dependencies.contains(d));
    assert(known(ps, d));
    let m = choose|m: int| 0 <= m < ps.len() && #[trigger] ps[m].name == d;
    assert(v.contains(ps[m]));
    let a = choose|a: int| 0 <= a < v.len() && v[a] == ps[m];
    assert(v[a].name == d);
    assert(known(v, d));
    let pa = position_of(v, d);
    if pa >= b {
        assert(!v[b].dependencies.contains(v[pa].name));
    }
}

proof fn lemma_edge_goes_back(set: &PackageSet, v: Seq<PackageView>, x: Seq<char>, y: Seq<char>)
    requires
        set.wf(),
        is_build_order(set@, v),
        depends_on(set@, x, y),
        known(set@, y),
    ensures
        known(v, x),
        known(v, y),
        position_of(v, y) < position_of(v, x),
{
    let ps = set@;
    let k = choose|k: int| 0 <= k < ps.len() && #[trigger] ps[k].name == x && ps[k].dependencies.contains(y);
    assert(v.contains(ps[k]));
    let a = choose|a: int| 0 <= a < v.len() && v[a] == ps[k];
    assert(v[a].name == x);
    let m2 = choose|m2: int| 0 <= m2 < ps.len() && #[trigger] ps[m2].name == y;
    assert(v.contains(ps[m2]));
    let b = choose|b: int| 0 <= b < v.len() && v[b] == ps[m2];
    assert(v[b].name == y);
    let pa = position_of(v, x);
    let pb = position_of(v, y);
    let m = choose|m: int| 0 <= m < ps.len() && ps[m] == v[pa];
    assert(ps[m].name == ps[k].name);
    assert(v[pa] == ps[k]);
    if pa <= pb {
        assert(!v[pa].dependencies.contains(v[pb].name));
    }
}

proof fn lemma_path_falls(set: &PackageSet, v: Seq<PackageView>, p: Seq<Seq<char>>, i: int)
    requires
        set.wf(),
        is_build_order(set@, v),
        is_dep_path(set@, p),
        1 <= i < p.len(),
        forall|t: int| 1 <= t <= i ==> known(set@, #[trigger] p[t]),
    ensures
        known(v, p[0]),
        position_of(v, p[i]) < position_of(v, p[0]),
    decreases i,
{
    let j = i - 1;
    assert(depends_on(set@, p[j], p[j + 1]));
    lemma_edge_goes_back(set, v, p[j], p[i]);
    if j > 0 {
        lemma_path_falls(set, v, p, j);
    }
}

/// A package set in which some package depends, directly or through other
/// packages, on itself has no build order.
pub proof fn law_cycle_has_no_build_order(set: &PackageSet, p: Seq<Seq<char>>, v: Seq<PackageView>)
    requires
        set.wf(),
        is_dep_path(set@, p),
        p.len() >= 2,
        p.last() == p[0],
    ensures
        !is_build_order(set@, v),
{
    let ps = set@;
    if is_build_order(ps, v) {
        assert forall|t: int| 1 <= t <= p.len() - 1 implies known(ps, #[trigger] p[t]) by {
            if t < p.len() - 1 {
                assert(depends_on(ps, p[t], p[t + 1]));
            } else {
                let z: int = 0;
                assert(depends_on(ps, p[z], p[z + 1]));
                assert(p[t] == p[z]);
            }
        }
        lemma_path_falls(set, v, p, p.len() - 1);
    }
}

proof fn lemma_member_known(set: &PackageSet, v: Seq<PackageView>, k: int)
    requires
        set.wf(),
        is_build_order(set@, v),
        0 <= k < set@.len(),
    ensures
        known(v, set@[k].name),
        v[position_of(v, set@[k].name)] == set@[k],
{
    let ps = set@;
    assert(v.contains(ps[k]));
    let a = choose|a: int| 0 <= a < v.len() && v[a] == ps[k];
    assert(v[a].name == ps[k].name);
    let b = position_of(v, ps[k].name);
    let c = choose|c: int| 0 <= c < ps.len() && ps[c] == v[b];
    assert(ps[c].name == ps[k].name);
}

proof fn lemma_member_not_at(set: &PackageSet, v: Seq<PackageView>, g: Set<int>, m: int, k: int)
    requires
        set.wf(),
        deps_known(set@),
        is_build_order(set@, v),
        is_blocking_group(set@, g),
        g.contains(k),
        forall|x: int| #[trigger] g.contains(x) ==> position_of(v, set@[x].name) >= m,
    ensures
        position_of(v, set@[k].name) != m,
{
    let ps = set@;
    let b = position_of(v, ps[k].name);
    if b == m {
        assert(0 <= k < ps.len());
        lemma_member_known(set, v, k);
        assert(depends_within(ps, g, k));
        reveal(depends_within);
        let j = choose|j: int| g.contains(j) && ps[k].dependencies.contains(ps[j].name);
        law_build_order_puts_dependencies_first(set, v, b, ps[j].name);
        assert(position_of(v, ps[j].name) >= m);
    }
}

proof fn lemma_group_members_not_before(set: &PackageSet, v: Seq<PackageView>, g: Set<int>, m: int)
    requires
        set.wf(),
        deps_known(set@),
        is_build_order(set@, v),
        0 <= m,
        is_blocking_group(set@, g),
    ensures
        forall|k: int| #[trigger] g.contains(k) ==> position_of(v, set@[k].name) >= m,
    decreases m,
{
    if m > 0 {
        lemma_group_members_not_before(set, v, g, m - 1);
        assert forall|k: int| #[trigger] g.contains(k) implies position_of(v, set@[k].name) >= m by {
            lemma_member_not_at(set, v, g, m - 1, k);
        }
    } else {
        assert forall|k: int| #[trigger] g.contains(k) implies position_of(v, set@[k].name) >= m by {
            assert(0 <= k < set@.len());
            lemma_member_known(set, v, k);
        }
    }
}

/// A set whose dependencies are all known and that has a build order has
/// no cycle: in a group where each member depends on another member, the
/// member that comes first would have its dependency before it.
pub proof fn law_build_order_rules_out_cycles(set: &PackageSet, v: Seq<PackageView>)
    requires
        set.wf(),
        deps_known(set@),
        is_build_order(set@, v),
    ensures
        !has_cycle(set@),
{
    let ps = set@;
    if has_cycle(ps) {
        let g = choose|g: Set<int>| #[trigger] is_blocking_group(ps, g);
        lemma_group_members_not_before(set, v, g, v.len() as int);
        vstd::set_lib::lemma_set_empty_equivalency_len(g);
        assert(!(g =~= Set::<int>::empty()));
        let k = choose|k: int| g.contains(k);
        lemma_member_known(set, v, k);
    }
}

/// Some package marked in `visited` is called `n`.
pub open spec fn marked(ps: Seq<PackageView>, visited: Seq<bool>, n: Seq<char>) -> bool {
    exists|i: int| 0 <= i < ps.len() && visited[i] && #[trigger] ps[i].name == n
}

/// Every name reachable from `entries` belongs to a package of the set.
pub open spec fn closure_known(ps: Seq<PackageView>, entries: Seq<Seq<char>>) -> bool {
    forall|n: Seq<char>| reachable(ps, entries, n) ==> known(ps, n)
}

pub proof fn lemma_reachable_step(ps: Seq<PackageView>, entries: Seq<Seq<char>>, a: Seq<char>, b: Seq<char>)
    requires
        reachable(ps, entries, a),
        depends_on(ps, a, b),
    ensures
        reachable(ps, entries, b),
{
    let p = choose|p: Seq<Seq<char>>| #[trigger] is_dep_path(ps, p) && entries.contains(p[0]) && p.last() == a;
    let q = p.push(b);
    assert forall|i: int| 0 <= i < q.len() - 1 implies #[trigger] depends_on(ps, q[i], q[i + 1]) by {
        if i < p.len() - 1 {
            assert(depends_on(ps, p[i], p[i + 1]));
        }
    }
    assert(is_dep_path(ps, q));
    assert(q[0] == p[0]);
}

pub proof fn lemma_entry_reachable(ps: Seq<PackageView>, entries: Seq<Seq<char>>, i: int)
    requires
        0 <= i < entries.len(),
    ensures
        reachable(ps, entries, entries[i]),
{
    let p = seq![entries[i]];
    assert(is_dep_path(ps, p));
    assert(entries.contains(p[0]));
}

/// A set of names that holds the entry points and is closed under dependency
/// edges holds everything reachable from them.
pub proof fn lemma_closed_holds_reachable(
    ps: Seq<PackageView>,
    entries: Seq<Seq<char>>,
    s: Set<Seq<char>>,
    p: Seq<Seq<char>>,
)
    requires
        is_dep_path(ps, p),
        entries.contains(p[0]),
        forall|x: Seq<char>| entries.contains(x) ==> s.contains(x),
        forall|a: Seq<char>, b: Seq<char>| s.contains(a) && #[trigger] depends_on(ps, a, b) ==> s.contains(b),
    ensures
        s.contains(p.last()),
    decreases p.len(),
{
    if p.len() > 1 {
        let q = p.drop_last();
        assert forall|i: int| 0 <= i < q.len() - 1 implies #[trigger] depends_on(ps, q[i], q[i + 1]) by {
            assert(depends_on(ps, p[i], p[i + 1]));
        }
        lemma_closed_holds_reachable(ps, entries, s, q);
        let i = p.len() - 2;
        assert(depends_on(ps, p[i], p[i + 1]));
        assert(q.last() == p[i]);
        assert(p.last() == p[i + 1]);
    }
}


/// The last package of `input` called `n`, if any.
pub open spec fn last_named(input: Seq<PackageView>, n: Seq<char>) -> Option<PackageView>
    decreases input.len(),
{
    if input.len() == 0 {
        None
    } else if input.last().name == n {
        Some(input.last())
    } else {
        last_named(input.drop_last(), n)
    }
}

/// `out` holds, for each name in `input`, the last package of `input` with
/// that name, and nothing else.
pub open spec fn keeps_last_of_each_name(input: Seq<PackageView>, out: Seq<PackageView>) -> bool {
    &&& forall|k: int| 0 <= k < out.len() ==> last_named(input, #[trigger] out[k].name) == Some(out[k])
    &&& forall|j: int| 0 <= j < input.len() ==> known(out, #[trigger] input[j].name)
}

proof fn lemma_last_named(input: Seq<PackageView>, j: int)
    requires
        0 <= j < input.len(),
        forall|l: int| j < l < input.len() ==> #[trigger] input[l].name != input[j].name,
    ensures
        last_named(input, input[j].name) == Some(input[j]),
    decreases input.len(),
{
    if j < input.len() - 1 {
        let d = input.drop_last();
        assert(input.last().name != input[j].name);
        assert forall|l: int| j < l < d.len() implies #[trigger] d[l].name != d[j].name by {
            assert(d[l] == input[l]);
        }
        lemma_last_named(d, j);
    }
}

/// How many entries of `v` are still `false`.
pub open spec fn count_false(v: Seq<bool>) -> nat
    decreases v.len(),
{
    if v.len() == 0 {
        0
    } else {
        count_false(v.drop_last()) + if v.last() {
            0nat
        } else {
            1nat
        }
    }
}

pub proof fn lemma_count_false_set(v: Seq<bool>, i: int)
    requires
        0 <= i < v.len(),
        !v[i],
    ensures
        count_false(v.update(i, true)) + 1 == count_false(v),
    decreases v.len(),
{
    let w = v.update(i, true);
    if i < v.len() - 1 {
        assert(w.drop_last() =~= v.drop_last().update(i, true));
        lemma_count_false_set(v.drop_last(), i);
    } else {
        assert(w.drop_last() =~= v.drop_last());
    }
}

/// All the packages known to a project, each under a distinct name.
pub struct PackageSet {
    packages: Vec<Package>,
}

impl View for PackageSet {
    type V = Seq<PackageView>;

    closed spec fn view(&self) -> Seq<PackageView> {
        views(self.packages@)
    }
}

impl PackageSet {
    /// The set's packages are named apart.
    pub open spec fn wf(&self) -> bool {
        names_distinct(self@)
    }

    /// Builds a package set from a list; of several packages that share a
    /// name, the last one is kept.
    pub fn new(packages: Vec<Package>) -> (r: PackageSet)
        ensures
            r.wf(),
            keeps_last_of_each_name(views(packages@), r@),
    {
        let ghost input = views(packages@);
        let mut rest = packages;
        let mut out: Vec<Package> = Vec::new();
        while rest.len() > 0
            invariant
                views(rest@) == input.take(rest@.len() as int),
                rest@.len() <= input.len(),
                names_distinct(views(out@)),
                forall|k: int|
                    0 <= k < out@.len() ==> last_named(input, #[trigger] out@[k].name@) == Some(out@[k]@),
                forall|j: int| rest@.len() <= j < input.len() ==> known(views(out@), #[trigger] input[j].name),
            decreases rest@.len(),
        {
            let ghost m = rest@.len() - 1;
            let ghost before = rest@;
            let p = rest.pop().unwrap();
            assert(p@ == input[m]) by {
                assert(views(before)[m] == input[m]);
            }
            assert(views(rest@) =~= input.take(m));
            match index_in(&out, p.name.as_str()) {
                Some(k) => {
                    assert(known(views(out@), views(out@)[k as int].name));
                    proof {
                        assert forall|j: int| m <= j < input.len() implies known(views(out@), #[trigger] input[j].name) by {
                            if j == m {
                                assert(views(out@)[k as int].name == input[j].name);
                            }
                        }
                    }
                },
                None => {
                    let ghost old_out = out@;
                    out.push(p);
                    proof {
                        assert(views(out@) =~= views(old_out).push(input[m]));
                        assert forall|l: int| m < l < input.len() implies #[trigger] input[l].name != input[m].name by {
                            if input[l].name == input[m].name {
                                assert(known(views(old_out), input[l].name));
                            }
                        }
                        lemma_last_named(input, m);
                        assert forall|k: int| 0 <= k < out@.len() implies last_named(input, #[trigger] out@[k].name@) == Some(out@[k]@) by {
                            if k < old_out.len() {
                                assert(out@[k] == old_out[k]);
                            }
                        }
                        assert forall|j: int| m <= j < input.len() implies known(views(out@), #[trigger] input[j].name) by {
                            if j == m {
                                assert(views(out@)[old_out.len() as int].name == input[j].name);
                            } else {
                                let k = choose|k: int| 0 <= k < views(old_out).len() && #[trigger] views(old_out)[k].name == input[j].name;
                                assert(views(out@)[k].name == input[j].name);
                            }
                        }
                    }
                },
            }
        }
        let r = PackageSet { packages: out };
        assert(r@ == views(r.packages@));
        assert(keeps_last_of_each_name(input, r@)) by {
            assert forall|k: int| 0 <= k < r@.len() implies last_named(input, #[trigger] r@[k].name) == Some(r@[k]) by {
                assert(r@[k] == r.packages@[k]@);
                assert(last_named(input, r.packages@[k].name@) == Some(r.packages@[k]@));
            }
            assert forall|j: int| 0 <= j < input.len() implies known(r@, #[trigger] input[j].name) by {
                assert(known(views(r.packages@), input[j].name));
            }
        }
        r
    }

    /// Finds all transitive dependencies starting from the given package
    /// names, the entry points included, each once and sorted by name. A
    /// name reached that is not in the set is an error.
    pub fn transitive_deps(&self, entry_points: Vec<String>) -> (r: Result<Vec<&Package>, VesselError>)
        requires
            self.wf(),
        ensures
            r is Ok <==> closure_known(self@, strings_view(entry_points@)),
            r is Ok ==> lists_closure(self@, strings_view(entry_points@), ref_views(r->Ok_0@)),
            r is Err ==> (r->Err_0 matches VesselError::UnknownPackage(n) && reachable(
                self@,
                strings_view(entry_points@),
                n@,
            ) && !known(self@, n@)),
    {
        let ghost ps = self@;
        let ghost e = strings_view(entry_points@);
        let n = self.packages.len();
        let mut visited: Vec<bool> = Vec::new();
        while visited.len() < n
            invariant
                visited@.len() <= n,
                n == ps.len(),
                forall|i: int| 0 <= i < visited@.len() ==> !visited@[i],
            decreases n - visited@.len(),
        {
            visited.push(false);
        }
        let mut todo = entry_points;
        proof {
            assert forall|x: Seq<char>| e.contains(x) implies marked(ps, visited@, x) || strings_view(todo@).contains(x) by {}
            assert forall|t: int| 0 <= t < todo@.len() implies reachable(ps, e, #[trigger] strings_view(todo@)[t]) by {
                lemma_entry_reachable(ps, e, t);
            }
        }
        while todo.len() > 0
            invariant
                e == strings_view(entry_points@),
                n == ps.len(),
                ps == self@,
                names_distinct(ps),
                visited@.len() == n,
                forall|i: int| 0 <= i < n && visited@[i] ==> reachable(ps, e, #[trigger] ps[i].name),
                forall|t: int| 0 <= t < todo@.len() ==> reachable(ps, e, #[trigger] strings_view(todo@)[t]),
                forall|i: int, d: Seq<char>|
                    0 <= i < n && visited@[i] && #[trigger] ps[i].dependencies.contains(d) ==> marked(ps, visited@, d)
                        || strings_view(todo@).contains(d),
                forall|x: Seq<char>| #[trigger] e.contains(x) ==> marked(ps, visited@, x) || strings_view(todo@).contains(x),
            decreases count_false(visited@), todo@.len(),
        {
            let ghost old_todo = strings_view(todo@);
            let ghost old_visited = visited@;
            let next = todo.pop().unwrap();
            assert(old_todo[old_todo.len() - 1] == next@);
            assert(reachable(ps, e, next@));
            assert(strings_view(todo@) == old_todo.drop_last());
            match self.index_of(next.as_str()) {
                None => {
                    assert(!known(ps, next@));
                    assert(!closure_known(ps, e));

                    return Err(VesselError::UnknownPackage(next));
                },
                Some(i) => {
                    if visited[i] {
                        proof {
                            assert(marked(ps, visited@, next@));
                            assert forall|x: Seq<char>| old_todo.contains(x) implies marked(ps, visited@, x) || strings_view(todo@).contains(x) by {
                                if x != next@ {
                                    let t = choose|t: int| 0 <= t < old_todo.len() && old_todo[t] == x;
                                    assert(strings_view(todo@)[t] == x);
                                }
                            }
                        }
                    } else {
                        visited.set(i, true);
                        proof {
                            lemma_count_false_set(old_visited, i as int);
                            assert forall|x: Seq<char>| marked(ps, old_visited, x) implies marked(ps, visited@, x) by {
                                let j = choose|j: int| 0 <= j < ps.len() && old_visited[j] && #[trigger] ps[j].name == x;
                                assert(visited@[j]);
                            }
                            assert(marked(ps, visited@, next@)) by {
                                assert(visited@[i as int]);
                            }
                        }
                        let deps = &self.packages[i].dependencies;
                        assert(ps[i as int].dependencies == strings_view(deps@));
                        let ghost base = strings_view(todo@);
                        let mut j: usize = 0;
                        while j < deps.len()
                            invariant
                                j <= deps@.len(),
                                ps[i as int].dependencies == strings_view(deps@),
                                ps[i as int].name == next@,
                                reachable(ps, e, next@),
                                strings_view(todo@) == base + strings_view(deps@).take(j as int),
                                forall|t: int| 0 <= t < todo@.len() ==> reachable(ps, e, #[trigger] strings_view(todo@)[t]),
                                i < ps.len(),
                            decreases deps@.len() - j,
                        {
                            let d = deps[j].clone();
                            proof {
                                assert(ps[i as int].dependencies[j as int] == d@);
                                assert(depends_on(ps, next@, d@)) by {
                                    assert(ps[i as int].dependencies.contains(d@));
                                }
                                lemma_reachable_step(ps, e, next@, d@);
                            }
                            todo.push(d);
                            assert(strings_view(deps@).take(j + 1) == strings_view(deps@).take(j as int).push(d@));
                            j = j + 1;
                        }
                        proof {
                            assert(strings_view(deps@).take(j as int) == strings_view(deps@));
                            let now = strings_view(todo@);
                            assert forall|x: Seq<char>| base.contains(x) implies now.contains(x) by {
                                let t = choose|t: int| 0 <= t < base.len() && base[t] == x;
                                assert(now[t] == x);
                            }
                            assert forall|x: Seq<char>| #[trigger] ps[i as int].dependencies.contains(x) implies now.contains(x) by {
                                let t = choose|t: int| 0 <= t < strings_view(deps@).len() && strings_view(deps@)[t] == x;
                                assert(now[base.len() + t] == x);
                            }
                            assert forall|x: Seq<char>| old_todo.contains(x) implies marked(ps, visited@, x) || now.contains(x) by {
                                if x != next@ {
                                    let t = choose|t: int| 0 <= t < old_todo.len() && old_todo[t] == x;
                                    assert(base[t] == x);
                                }
                            }
                        }
                    }
                },
            }
        }
        // Everything reachable is marked: the marked names hold the entry
        // points and are closed under dependency edges.
        let ghost s = Set::new(|x: Seq<char>| marked(ps, visited@, x));
        proof {
            assert forall|a: Seq<char>, b: Seq<char>| s.contains(a) && #[trigger] depends_on(ps, a, b) implies s.contains(b) by {
                let i = choose|i: int| 0 <= i < ps.len() && visited@[i] && #[trigger] ps[i].name == a;
                let k = choose|k: int| 0 <= k < ps.len() && #[trigger] ps[k].name == a && ps[k].dependencies.contains(b);
                assert(i == k);
                assert(ps[i].dependencies.contains(b));
            }
            assert forall|x: Seq<char>| reachable(ps, e, x) implies marked(ps, visited@, x) by {
                let p = choose|p: Seq<Seq<char>>| #[trigger] is_dep_path(ps, p) && e.contains(p[0]) && p.last() == x;
                lemma_closed_holds_reachable(ps, e, s, p);
            }
        }
        // List the marked packages in name order.
        let mut out: Vec<&Package> = Vec::new();
        let mut i: usize = 0;
        while i < n
            invariant
                e == strings_view(entry_points@),
                n == ps.len(),
                ps == self@,
                names_distinct(ps),
                i <= n,
                visited@.len() == n,
                forall|a: int, b: int| 0 <= a < b < out@.len() ==> name_lt(#[trigger] ref_views(out@)[a].name, #[trigger] ref_views(out@)[b].name),
                forall|k: int| 0 <= k < out@.len() ==> ps.contains(#[trigger] ref_views(out@)[k]),
                forall|k: int| 0 <= k < out@.len() ==> marked(ps, visited@, #[trigger] ref_views(out@)[k].name),
                forall|j: int| 0 <= j < i && visited@[j] ==> known(ref_views(out@), #[trigger] ps[j].name),
                forall|k: int, j: int|
                    0 <= k < out@.len() && i <= j < n ==> #[trigger] ps[j].name != #[trigger] ref_views(out@)[k].name,
            decreases n - i,
        {
            if visited[i] {
                let p = &self.packages[i];
                assert(p@ == ps[i as int]);
                let mut pos: usize = 0;
                while pos < out.len() && !name_less(p.name.as_str(), out[pos].name.as_str())
                    invariant
                        pos <= out@.len(),
                        forall|k: int| 0 <= k < pos ==> !name_lt(p.name@, #[trigger] ref_views(out@)[k].name),
                    decreases out@.len() - pos,
                {
                    pos = pos + 1;
                }
                let ghost old_out = ref_views(out@);
                out.insert(pos, p);
                proof {
                    let now = ref_views(out@);
                    assert(now =~= old_out.insert(pos as int, p@));
                    // The new name differs from every listed one: those all
                    // come from earlier positions.
                    assert forall|k: int| 0 <= k < old_out.len() implies old_out[k].name != p.name@ by {
                        assert(ps[i as int].name != old_out[k].name);
                    }
                    assert forall|a: int, b: int| 0 <= a < b < now.len() implies name_lt(#[trigger] now[a].name, #[trigger] now[b].name) by {
                        if a < pos && b == pos {
                            lemma_name_lt_total(old_out[a].name, p.name@);
                        } else if a == pos && b > pos {
                            if b == pos + 1 {
                            } else {
                                assert(name_lt(old_out[pos as int].name, old_out[b - 1].name));
                                lemma_name_lt_transitive(p.name@, old_out[pos as int].name, old_out[b - 1].name);
                            }
                        } else if a < pos && b > pos {
                            assert(old_out[a] == now[a]);
                            assert(old_out[b - 1] == now[b]);
                        } else if a > pos {
                            assert(old_out[a - 1] == now[a]);
                            assert(old_out[b - 1] == now[b]);
                        }
                    }
                    assert forall|j: int| 0 <= j < i + 1 && visited@[j] implies known(now, #[trigger] ps[j].name) by {
                        if j < i {
                            let k = choose|k: int| 0 <= k < old_out.len() && #[trigger] old_out[k].name == ps[j].name;
                            if k < pos {
                                assert(now[k] == old_out[k]);
                            } else {
                                assert(now[k + 1] == old_out[k]);
                            }
                        } else {
                            assert(now[pos as int].name == ps[j].name);
                        }
                    }
                    assert forall|k: int, j: int| 0 <= k < now.len() && i + 1 <= j < n implies #[trigger] ps[j].name != #[trigger] now[k].name by {
                        if k < pos {
                            assert(now[k] == old_out[k]);
                        } else if k == pos {
                            assert(ps[i as int].name == now[k].name);
                        } else {
                            assert(now[k] == old_out[k - 1]);
                        }
                    }
                    assert forall|k: int| 0 <= k < now.len() implies ps.contains(#[trigger] now[k]) && marked(ps, visited@, now[k].name) by {
                        if k < pos {
                            assert(now[k] == old_out[k]);
                        } else if k == pos {
                            assert(ps[i as int] == now[k]);
                        } else {
                            assert(now[k] == old_out[k - 1]);
                        }
                    }
                }
            }
            i = i + 1;
        }
        proof {
            let v = ref_views(out@);
            assert forall|x: Seq<char>| reachable(ps, e, x) <==> exists|k: int| 0 <= k < v.len() && #[trigger] v[k].name == x by {
                if reachable(ps, e, x) {
                    let j = choose|j: int| 0 <= j < ps.len() && visited@[j] && #[trigger] ps[j].name == x;
                    assert(known(v, ps[j].name));
                }
                if exists|k: int| 0 <= k < v.len() && #[trigger] v[k].name == x {
                    let k = choose|k: int| 0 <= k < v.len() && #[trigger] v[k].name == x;
                    assert(marked(ps, visited@, v[k].name));
                    let j = choose|j: int| 0 <= j < ps.len() && visited@[j] && #[trigger] ps[j].name == x;
                }
            }
            assert forall|x: Seq<char>| reachable(ps, e, x) implies known(ps, x) by {
                let j = choose|j: int| 0 <= j < ps.len() && visited@[j] && #[trigger] ps[j].name == x;
            }
        }
        Ok(out)
    }

    /// Orders the whole set so that every package comes after the packages it
    /// depends on. A dependency on a name outside the set, and a dependency
    /// cycle, are errors.
    pub fn topo_sorted(&self) -> (r: Result<Vec<&Package>, VesselError>)
        requires
            self.wf(),
        ensures
            r is Ok ==> deps_known(self@) && is_build_order(self@, ref_views(r->Ok_0@)),
            deps_known(self@) && !has_cycle(self@) ==> r is Ok,
            deps_known(self@) && has_cycle(self@) ==> r matches Err(VesselError::Cycle),
            !deps_known(self@) ==> r matches Err(VesselError::UnknownPackage(_)),
            r is Err ==> (r->Err_0 matches VesselError::UnknownPackage(n) && !known(self@, n@) && exists|k: int|
                0 <= k < self@.len() && #[trigger] self@[k].dependencies.contains(n@)) || (r->Err_0
                == VesselError::Cycle && deps_known(self@) && has_cycle(self@)),
    {
        let ghost ps = self@;
        let n = self.packages.len();
        let mut ts = sorter_new();
        let mut i: usize = 0;
        while i < n
            invariant
                n == ps.len(),
                ps == self@,
                names_distinct(ps),
                i <= n,
                pending(ts).dom().finite(),
                forall|k: usize| #[trigger] pending(ts).contains_key(k) ==> k < n,
                settled_below(pending(ts), ps, i),
                forall|k: usize| i <= k && #[trigger] pending(ts).contains_key(k) ==> pending(ts)[k] == Set::<usize>::empty(),
                forall|k: int, d: Seq<char>| 0 <= k < i && #[trigger] ps[k].dependencies.contains(d) ==> known(ps, d),
            decreases n - i,
        {
            sorter_insert(&mut ts, i);
            let deps = &self.packages[i].dependencies;
            assert(ps[i as int].dependencies == strings_view(deps@));
            let mut q: usize = 0;
            proof {
                assert(dep_indices_upto(ps, i as int, 0) =~= Set::<usize>::empty());
            }
            while q < deps.len()
                invariant
                    n == ps.len(),
                    ps == self@,
                    names_distinct(ps),
                    i < n,
                    q <= deps@.len(),
                    ps[i as int].dependencies == strings_view(deps@),
                    pending(ts).dom().finite(),
                    forall|k: usize| #[trigger] pending(ts).contains_key(k) ==> k < n,
                    settled_below(pending(ts), ps, i),
                    pending(ts).contains_key(i) && pending(ts)[i] == dep_indices_upto(ps, i as int, q as int),
                    forall|k: usize| i < k && #[trigger] pending(ts).contains_key(k) ==> pending(ts)[k] == Set::<usize>::empty(),
                    forall|k: int, d: Seq<char>| 0 <= k < i && #[trigger] ps[k].dependencies.contains(d) ==> known(ps, d),
                    forall|d: Seq<char>| #[trigger] ps[i as int].dependencies.take(q as int).contains(d) ==> known(ps, d),
                decreases deps@.len() - q,
            {
                let d = &deps[q];
                assert(ps[i as int].dependencies[q as int] == d@);
                match self.index_of(d.as_str()) {
                    None => {
                        proof {
                            assert(ps[i as int].dependencies.contains(d@));
                            assert(!deps_known(ps));
                        }
                        return Err(VesselError::UnknownPackage(d.clone()));
                    },
                    Some(j) => {
                        let ghost before = pending(ts);
                        sorter_add_dependency(&mut ts, j, i);
                        proof {
                            let deps_v = ps[i as int].dependencies;
                            assert(deps_v.take(q + 1) =~= deps_v.take(q as int).push(d@));
                            assert(dep_indices_upto(ps, i as int, q + 1) =~= dep_indices_upto(ps, i as int, q as int).insert(j)) by {
                                assert forall|x: usize| dep_indices_upto(ps, i as int, q + 1).contains(x) implies
                                    dep_indices_upto(ps, i as int, q as int).insert(j).contains(x) by {
                                    if ps[x as int].name == d@ {
                                        assert(x == j);
                                    }
                                }
                                assert(deps_v.take(q + 1).contains(ps[j as int].name)) by {
                                    assert(deps_v.take(q + 1)[q as int] == d@);
                                }
                                assert forall|x: usize| dep_indices_upto(ps, i as int, q as int).contains(x) implies
                                    dep_indices_upto(ps, i as int, q + 1).contains(x) by {
                                    let t = choose|t: int| 0 <= t < q && #[trigger] deps_v.take(q as int)[t] == ps[x as int].name;
                                    assert(deps_v.take(q + 1)[t] == ps[x as int].name);
                                }
                            }
                            assert(pending(ts).dom() =~= before.dom().insert(j));
                            assert forall|k: usize| k < i implies #[trigger] pending(ts).dom().contains(k) && pending(ts)[k] == dep_indices(ps, k as int) by {
                                assert(before.dom().contains(k));
                            }
                            assert forall|k: usize| i < k && #[trigger] pending(ts).contains_key(k) implies pending(ts)[k] == Set::<usize>::empty() by {
                                if before.contains_key(k) {
                                    assert(before[k] == Set::<usize>::empty());
                                }
                            }
                            assert forall|x: Seq<char>| #[trigger] deps_v.take(q + 1).contains(x) implies known(ps, x) by {
                                let t = choose|t: int| 0 <= t < q + 1 && #[trigger] deps_v.take(q + 1)[t] == x;
                                if t < q {
                                    assert(deps_v.take(q as int)[t] == x);
                                    assert(deps_v.take(q as int).contains(x));
                                } else {
                                    assert(deps_v[q as int] == d@);
                                    assert(x == d@);
                                    assert(ps[j as int].name == x);
                                }
                            }
                        }
                    },
                }
                q = q + 1;
            }
            proof {
                let deps_v = ps[i as int].dependencies;
                assert(deps_v.take(q as int) =~= deps_v);
                assert(dep_indices_upto(ps, i as int, q as int) =~= dep_indices(ps, i as int));
                assert(pending(ts).contains_key(i) && pending(ts)[i] == dep_indices(ps, i as int));
                assert forall|k: usize| k < i + 1 implies #[trigger] pending(ts).dom().contains(k) && pending(ts)[k] == dep_indices(ps, k as int) by {
                    if k < i {
                        assert(pending(ts).dom().contains(k));
                    }
                }
                assert(settled_below(pending(ts), ps, (i + 1) as usize));
            }
            i = i + 1;
        }
        proof {
            assert(deps_known(ps));
        }
        // Take the packages out in an order the sorter allows.
        let mut out: Vec<&Package> = Vec::new();
        let ghost mut order: Seq<usize> = Seq::empty();
        let ghost mut position: Map<usize, int> = Map::empty();
        loop
            invariant
                n == ps.len(),
                ps == self@,
                names_distinct(ps),
                deps_known(ps),
                pending(ts).dom().finite(),
                out@.len() == order.len(),
                forall|p: int| 0 <= p < order.len() ==> #[trigger] order[p] < n,
                forall|p: int| 0 <= p < order.len() ==> #[trigger] ref_views(out@)[p] == ps[order[p] as int],
                forall|p: int| 0 <= p < order.len() ==> position.contains_key(#[trigger] order[p]) && position[order[p]] == p,
                forall|k: usize| #[trigger] position.contains_key(k) ==> 0 <= position[k] < order.len() && order[position[k]] == k,
                forall|k: usize| #[trigger] pending(ts).contains_key(k) <==> k < n && !position.contains_key(k),
                forall|k: usize, j: usize| #[trigger] pending(ts).contains_key(k) ==> (#[trigger] pending(ts)[k].contains(j) <==> dep_indices(ps, k as int).contains(j) && !position.contains_key(j)),
                forall|p: int, j: usize| 0 <= p < order.len() && #[trigger] dep_indices(ps, order[p] as int).contains(j) ==> position.contains_key(j) && position[j] < p,
            ensures
                forall|k: usize| #[trigger] pending(ts).contains_key(k) ==> !pending(ts)[k].is_empty(),
            decreases pending(ts).dom().len(),
        {
            let ghost before = pending(ts);
            match sorter_pop(&mut ts) {
                Some(x) => {
                    proof {
                        assert(pending(ts).dom() =~= before.dom().remove(x));
                        assert forall|j: usize| dep_indices(ps, x as int).contains(j) implies position.contains_key(j) && position[j] < order.len() by {
                            if !position.contains_key(j) {
                                assert(j < n);
                                assert(before[x].contains(j));
                            }
                        }
                    }
                    let ghost old_out = out@;
                    out.push(&self.packages[x]);
                    proof {
                        let ghost old_order = order;
                        let ghost old_position = position;
                        order = order.push(x);
                        position = position.insert(x, order.len() - 1);
                        assert forall|p: int, j: usize| 0 <= p < order.len() && #[trigger] dep_indices(ps, order[p] as int).contains(j) implies position.contains_key(j) && position[j] < p by {
                            if p < old_order.len() {
                                assert(old_order[p] == order[p]);
                                assert(old_position.contains_key(j));
                                assert(j != x);
                            } else {
                                assert(order[p] == x);
                                assert(old_position.contains_key(j));
                                assert(j != x);
                            }
                        }
                        assert forall|p: int| 0 <= p < order.len() implies #[trigger] ref_views(out@)[p] == ps[order[p] as int] by {
                            if p == order.len() - 1 {
                                assert(ref_views(out@)[p] == self.packages@[x as int]@);
                            } else {
                                assert(ref_views(out@)[p] == ref_views(old_out)[p]);
                            }
                        }
                    }
                },
                None => {
                    break;
                },
            }
        }
        let left = sorter_len(&ts);
        if left == 0 {
            proof {
                assert(pending(ts).dom() =~= Set::<usize>::empty());
                let v = ref_views(out@);
                assert forall|a: int, b: int| 0 <= a <= b < v.len() implies !(#[trigger] v[a].dependencies).contains(#[trigger] v[b].name) by {
                    if v[a].dependencies.contains(v[b].name) {
                        assert(dep_indices(ps, order[a] as int).contains(order[b]));
                    }
                }
                assert forall|k: int| 0 <= k < ps.len() implies v.contains(#[trigger] ps[k]) by {
                    let ku = k as usize;
                    assert(!pending(ts).dom().contains(ku));
                    assert(position.contains_key(ku));
                    assert(v[position[ku]] == ps[k]);
                }
                assert forall|p: int| 0 <= p < v.len() implies ps.contains(#[trigger] v[p]) by {
                    assert(v[p] == ps[order[p] as int]);
                }
                assert forall|p: int, q: int| 0 <= p < q < order.len() implies order[p] != order[q] by {
                    assert(position[order[p]] == p);
                }
                assert forall|k: usize| k < n implies order.contains(k) by {
                    assert(!pending(ts).dom().contains(k));
                    assert(position.contains_key(k));
                    assert(order[position[k]] == k);
                }
                lemma_no_repeats_fill(order, n);
                law_build_order_rules_out_cycles(self, v);
            }
            Ok(out)
        } else {
            proof {
                let m = pending(ts);
                vstd::set_lib::lemma_set_empty_equivalency_len(m.dom());
                assert(!(m.dom() =~= Set::<usize>::empty()));
                let k0 = choose|k: usize| m.dom().contains(k);
                let s = Set::new(|k: int| 0 <= k < n && m.contains_key(k as usize));
                vstd::set_lib::lemma_int_range(0, n as int);
                vstd::set_lib::lemma_len_subset(s, vstd::set_lib::set_int_range(0, n as int));
                assert(s.contains(k0 as int));
                vstd::set_lib::lemma_set_empty_equivalency_len(s);
                assert forall|k: int| #[trigger] s.contains(k) implies depends_within(ps, s, k) by {
                    reveal(depends_within);
                    let ku = k as usize;
                    assert(!m[ku].is_empty());
                    let j = m[ku].choose();
                    assert(m[ku].contains(j));
                    assert(dep_indices(ps, k).contains(j));
                    assert(s.contains(j as int));
                }
                assert(is_blocking_group(ps, s));
                assert(has_cycle(ps));
            }
            Err(VesselError::Cycle)
        }
    }

    /// The position of the package called `name`, if there is one.
    fn index_of(&self, name: &str) -> (r: Option<usize>)
        ensures
            match r {
                Some(i) => i < self@.len() && self@[i as int].name == name@,
                None => !known(self@, name@),
            },
    {
        index_in(&self.packages, name)
    }

    /// Finds a package by name.
    pub fn find(&self, name: &str) -> (r: Option<&Package>)
        ensures
            match r {
                Some(p) => self@.contains(p@) && p.name@ == name@,
                None => !known(self@, name@),
            },
    {
        match self.index_of(name) {
            Some(i) => {
                assert(self@[i as int] == self.packages@[i as int]@);
                Some(&self.packages[i])
            },
            None => None,
        }
    }
}

fn index_in(ps: &Vec<Package>, name: &str) -> (r: Option<usize>)
    ensures
        match r {
            Some(i) => i < ps@.len() && views(ps@)[i as int].name == name@,
            None => !known(views(ps@), name@),
        },
{
    let mut i: usize = 0;
    while i < ps.len()
        invariant
            i <= ps@.len(),
            forall|k: int| 0 <= k < i ==> #[trigger] views(ps@)[k].name != name@,
        decreases ps@.len() - i,
    {
        if same_name(ps[i].name.as_str(), name) {
            return Some(i);
        }
        i = i + 1;
    }
    None
}

} // verus!
