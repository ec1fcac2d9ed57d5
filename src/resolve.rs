//! Dependency-aware execution order. Installers are identified by position
//! (their registration order) and by name; each declares the names of the
//! installers it depends on. The order places, at every step, the
//! earliest-registered installer whose dependencies are all already placed.

use vstd::prelude::*;
use crate::system::strings_view;

verus! {

/// Why no execution order could be produced.
#[derive(Debug)]
pub enum DependencyError {
    /// A declared dependency names no registered installer.
    UnknownDependency(String),
    /// The named installers cannot be ordered: each of them depends on one of them.
    Cycle(Vec<String>),
}

/// The view of a table of dependency lists.
pub open spec fn deps_view(d: Seq<Vec<String>>) -> Seq<Seq<Seq<char>>> {
    d.map_values(|v: Vec<String>| strings_view(v@))
}

pub open spec fn is_registered(names: Seq<Seq<char>>, d: Seq<char>) -> bool {
    exists|i: int| 0 <= i < names.len() && names[i] == d
}

pub open spec fn names_unique(names: Seq<Seq<char>>) -> bool {
    forall|i: int, j: int|
        0 <= i < names.len() && 0 <= j < names.len() && i != j ==> names[i] != names[j]
}

pub open spec fn all_known(names: Seq<Seq<char>>, deps: Seq<Seq<Seq<char>>>) -> bool {
    forall|i: int, k: int|
        0 <= i < deps.len() && 0 <= k < deps[i].len() ==> is_registered(names, #[trigger] deps[i][k])
}

pub open spec fn is_unknown(names: Seq<Seq<char>>, deps: Seq<Seq<Seq<char>>>, i: int, k: int) -> bool {
    0 <= i < deps.len() && 0 <= k < deps[i].len() && !is_registered(names, deps[i][k])
}

/// `d` is the first unregistered dependency, scanning installers in
/// registration order and each one's dependencies in declared order.
pub open spec fn is_first_unknown(
    names: Seq<Seq<char>>,
    deps: Seq<Seq<Seq<char>>>,
    d: Seq<char>,
) -> bool {
    exists|i: int, k: int|
        #[trigger] is_unknown(names, deps, i, k) && deps[i][k] == d && (forall|i2: int, k2: int|
            (i2 < i || (i2 == i && k2 < k)) ==> !#[trigger] is_unknown(names, deps, i2, k2))
}

/// Some installer among `placed` carries the name `d`.
pub open spec fn is_placed_name(names: Seq<Seq<char>>, placed: Seq<usize>, d: Seq<char>) -> bool {
    exists|q: int| 0 <= q < placed.len() && names[placed[q] as int] == d
}

/// Installer `i` is not placed yet and everything it depends on is.
pub open spec fn is_ready(
    names: Seq<Seq<char>>,
    deps: Seq<Seq<Seq<char>>>,
    placed: Seq<usize>,
    i: int,
) -> bool {
    &&& 0 <= i < names.len()
    &&& !placed.contains(i as usize)
    &&& forall|k: int| 0 <= k < deps[i].len() ==> is_placed_name(names, placed, #[trigger] deps[i][k])
}

/// `order` is the resolved order: every installer once, and at each step the
/// earliest-registered installer that is ready.
pub open spec fn is_resolution(
    names: Seq<Seq<char>>,
    deps: Seq<Seq<Seq<char>>>,
    order: Seq<usize>,
) -> bool {
    &&& order.len() == names.len()
    &&& forall|p: int| 0 <= p < order.len() ==> is_step(names, deps, order, p)
}

pub open spec fn is_step(
    names: Seq<Seq<char>>,
    deps: Seq<Seq<Seq<char>>>,
    order: Seq<usize>,
    p: int,
) -> bool {
    &&& is_ready(names, deps, order.take(p), order[p] as int)
    &&& forall|j: int| 0 <= j < order[p] ==> !#[trigger] is_ready(names, deps, order.take(p), j)
}

/// `order` lists every installer exactly once, each after all it depends on.
pub open spec fn is_topological(
    names: Seq<Seq<char>>,
    deps: Seq<Seq<Seq<char>>>,
    order: Seq<usize>,
) -> bool {
    &&& order.len() == names.len()
    &&& forall|p: int| 0 <= p < order.len() ==> order[p] < names.len()
    &&& forall|i: usize| i < names.len() ==> #[trigger] order.contains(i)
    &&& forall|p: int, q: int|
        0 <= p < order.len() && 0 <= q < order.len() && p != q ==> order[p] != order[q]
    &&& forall|p: int, k: int|
        0 <= p < order.len() && 0 <= k < deps[order[p] as int].len() ==> is_placed_name(
            names,
            order.take(p),
            #[trigger] deps[order[p] as int][k],
        )
}

/// `c` names registered installers, none of which can come first: each
/// installer carrying one of these names depends on one of them. The
/// installers along any cycle form such a group.
pub open spec fn is_closed_group(names: Seq<Seq<char>>, deps: Seq<Seq<Seq<char>>>, c: Seq<Seq<char>>) -> bool {
    &&& c.len() > 0
    &&& forall|m: int| 0 <= m < c.len() ==> is_registered(names, #[trigger] c[m])
    &&& forall|i: int|
        0 <= i < names.len() && c.contains(#[trigger] names[i]) ==> exists|k: int|
            0 <= k < deps[i].len() && c.contains(#[trigger] deps[i][k])
}

/// Installer `a` declares a dependency on installer `b`.
pub open spec fn depends_on(names: Seq<Seq<char>>, deps: Seq<Seq<Seq<char>>>, a: int, b: int) -> bool {
    &&& 0 <= a < deps.len()
    &&& 0 <= b < names.len()
    &&& exists|k: int| 0 <= k < deps[a].len() && #[trigger] deps[a][k] == names[b]
}

/// `p` follows declared dependencies: each installer on it depends on the
/// next, and it takes at least one step.
pub open spec fn is_dep_path(names: Seq<Seq<char>>, deps: Seq<Seq<Seq<char>>>, p: Seq<int>) -> bool {
    &&& p.len() >= 2
    &&& forall|t: int| 0 <= t < p.len() - 1 ==> depends_on(names, deps, #[trigger] p[t], p[t + 1])
}

/// Installer `i` lies on a dependency cycle: following declared dependencies
/// leads from it back to itself.
pub open spec fn on_cycle(names: Seq<Seq<char>>, deps: Seq<Seq<Seq<char>>>, i: int) -> bool {
    exists|p: Seq<int>| #[trigger] is_dep_path(names, deps, p) && p[0] == i && p[p.len() - 1] == i
}

/// The names of the first `upto` installers that lie on a cycle, in
/// registration order.
pub open spec fn cycle_names(names: Seq<Seq<char>>, deps: Seq<Seq<Seq<char>>>, upto: int) -> Seq<
    Seq<char>,
>
    decreases upto,
{
    if upto <= 0 {
        seq![]
    } else {
        let rest = cycle_names(names, deps, upto - 1);
        if on_cycle(names, deps, upto - 1) {
            rest.push(names[upto - 1])
        } else {
            rest
        }
    }
}

/// What `resolve` returns, stated over the names and dependency lists. A
/// cycle error names, in registration order, exactly the installers that lie
/// on a dependency cycle, and there is at least one.
pub open spec fn is_resolve_result(
    names: Seq<Seq<char>>,
    deps: Seq<Seq<Seq<char>>>,
    r: Result<Vec<usize>, DependencyError>,
) -> bool {
    match r {
        Ok(o) => all_known(names, deps) && is_resolution(names, deps, o@),
        Err(DependencyError::UnknownDependency(d)) => is_first_unknown(names, deps, d@),
        Err(DependencyError::Cycle(c)) => {
            &&& all_known(names, deps)
            &&& c@.len() > 0
            &&& strings_view(c@) == cycle_names(names, deps, names.len() as int)
        },
    }
}

/// Position of the installer called `d`, if any.
fn find_name(names: &Vec<String>, d: &String) -> (r: Option<usize>)
    ensures
        match r {
            Some(j) => j < names.len() && names@[j as int]@ == d@,
            None => !is_registered(strings_view(names@), d@),
        },
{
    let mut j: usize = 0;
    while j < names.len()
        invariant
            j <= names.len(),
            forall|m: int| 0 <= m < j ==> names@[m]@ != d@,
        decreases names.len() - j,
    {
        if names[j] == *d {
            return Some(j);
        }
        j = j + 1;
    }
    None
}

/// Every dependency (given by position) of one installer is placed.
pub open spec fn deps_all_placed(dep_idx: Seq<usize>, placed: Seq<bool>) -> bool {
    forall|k: int| 0 <= k < dep_idx.len() ==> placed[#[trigger] dep_idx[k] as int]
}

pub open spec fn count_true(s: Seq<bool>) -> nat
    decreases s.len(),
{
    if s.len() == 0 {
        0
    } else {
        count_true(s.drop_last()) + if s.last() {
            1nat
        } else {
            0nat
        }
    }
}

proof fn lemma_count_set(s: Seq<bool>, i: int)
    requires
        0 <= i < s.len(),
        !s[i],
    ensures
        count_true(s.update(i, true)) == count_true(s) + 1,
    decreases s.len(),
{
    let t = s.update(i, true);
    if i == s.len() - 1 {
        assert(t.drop_last() == s.drop_last());
    } else {
        assert(t.drop_last() == s.drop_last().update(i, true));
        lemma_count_set(s.drop_last(), i);
    }
}

proof fn lemma_count_has_false(s: Seq<bool>)
    requires
        count_true(s) < s.len(),
    ensures
        exists|i: int| 0 <= i < s.len() && !s[i],
    decreases s.len(),
{
    if !s.last() {
        assert(!s[s.len() - 1]);
    } else {
        lemma_count_has_false(s.drop_last());
        let i = choose|i: int| 0 <= i < s.drop_last().len() && !s.drop_last()[i];
        assert(!s[i]);
    }
}

/// The first installer, in registration order, that is not placed and whose
/// dependencies all are.
fn first_ready(dep_idx: &Vec<Vec<usize>>, placed: &Vec<bool>) -> (r: Option<usize>)
    requires
        dep_idx.len() == placed.len(),
        forall|i: int, k: int|
            0 <= i < dep_idx.len() && 0 <= k < dep_idx[i].len() ==> #[trigger] dep_idx[i][k]
                < placed.len(),
    ensures
        match r {
            Some(j) => {
                &&& j < placed.len()
                &&& !placed[j as int]
                &&& deps_all_placed(dep_idx[j as int]@, placed@)
                &&& forall|m: int|
                    0 <= m < j ==> placed[m] || !deps_all_placed(
                        #[trigger] dep_idx[m]@,
                        placed@,
                    )
            },
            None => forall|m: int|
                0 <= m < placed.len() ==> placed[m] || !deps_all_placed(
                    #[trigger] dep_idx[m]@,
                    placed@,
                ),
        },
{
    let mut j: usize = 0;
    while j < placed.len()
        invariant
            j <= placed.len(),
            dep_idx.len() == placed.len(),
            forall|i: int, k: int|
                0 <= i < dep_idx.len() && 0 <= k < dep_idx[i].len() ==> #[trigger] dep_idx[i][k]
                    < placed.len(),
            forall|m: int|
                0 <= m < j ==> placed[m] || !deps_all_placed(#[trigger] dep_idx[m]@, placed@),
        decreases placed.len() - j,
    {
        if !placed[j] {
            let ds = &dep_idx[j];
            let mut k: usize = 0;
            let mut ok = true;
            while k < ds.len()
                invariant
                    k <= ds.len(),
                    ds@ == dep_idx[j as int]@,
                    j < placed.len(),
                    dep_idx.len() == placed.len(),
                    forall|i: int, k: int|
                        0 <= i < dep_idx.len() && 0 <= k < dep_idx[i].len()
                            ==> #[trigger] dep_idx[i][k] < placed.len(),
                    ok == forall|m: int| 0 <= m < k ==> placed[#[trigger] ds[m] as int],
                decreases ds.len() - k,
            {
                assert(ds[k as int] == dep_idx[j as int][k as int]);
                if !placed[ds[k]] {
                    ok = false;
                }
                k = k + 1;
            }
            if ok {
                return Some(j);
            }
        }
        j = j + 1;
    }
    None
}

/// Facts that tie the positions in `dep_idx` to the declared names.
pub open spec fn indexes_deps(
    names: Seq<Seq<char>>,
    deps: Seq<Seq<Seq<char>>>,
    dep_idx: Seq<Vec<usize>>,
) -> bool {
    &&& dep_idx.len() == deps.len()
    &&& forall|i: int| 0 <= i < dep_idx.len() ==> #[trigger] dep_idx[i].len() == deps[i].len()
    &&& forall|i: int, k: int|
        0 <= i < dep_idx.len() && 0 <= k < dep_idx[i].len() ==> #[trigger] dep_idx[i][k]
            < names.len() && names[dep_idx[i][k] as int] == deps[i][k]
}

/// `placed` marks exactly the positions listed in `order`.
pub open spec fn marks(order: Seq<usize>, placed: Seq<bool>) -> bool {
    &&& forall|q: int| 0 <= q < order.len() ==> #[trigger] order[q] < placed.len()
    &&& forall|a: int| 0 <= a < placed.len() ==> #[trigger] placed[a] == order.contains(a as usize)
}

proof fn lemma_ready_iff(
    names: Seq<Seq<char>>,
    deps: Seq<Seq<Seq<char>>>,
    dep_idx: Seq<Vec<usize>>,
    order: Seq<usize>,
    placed: Seq<bool>,
    j: int,
)
    requires
        names_unique(names),
        names.len() == deps.len(),
        placed.len() == names.len(),
        indexes_deps(names, deps, dep_idx),
        marks(order, placed),
        0 <= j < names.len(),
    ensures
        is_ready(names, deps, order, j) == (!placed[j] && deps_all_placed(dep_idx[j]@, placed)),
{
    assert(dep_idx[j].len() == deps[j].len());
    assert forall|k: int| 0 <= k < deps[j].len() implies is_placed_name(
        names,
        order,
        #[trigger] deps[j][k],
    ) == placed[dep_idx[j][k] as int] by {
        let b = dep_idx[j][k];
        assert(dep_idx[j]@[k] == b);
        if is_placed_name(names, order, deps[j][k]) {
            let q = choose|q: int| 0 <= q < order.len() && names[order[q] as int] == deps[j][k];
            assert(order[q] < placed.len());
            assert(order[q] == b);
            assert(order.contains(b));
        }
        if placed[b as int] {
            assert(order.contains(b));
            let q = choose|q: int| 0 <= q < order.len() && order[q] == b;
            assert(names[order[q] as int] == deps[j][k]);
        }
    }
    if is_ready(names, deps, order, j) {
        assert forall|k: int| 0 <= k < dep_idx[j]@.len() implies placed[#[trigger] dep_idx[j]@[k] as int] by {
            assert(is_placed_name(names, order, deps[j][k]));
        }
    }
    if !placed[j] && deps_all_placed(dep_idx[j]@, placed) {
        assert forall|k: int| 0 <= k < deps[j].len() implies is_placed_name(
            names,
            order,
            #[trigger] deps[j][k],
        ) by {
            assert(placed[dep_idx[j]@[k] as int]);
        }
    }
}

proof fn lemma_count_bound(s: Seq<bool>)
    ensures
        count_true(s) <= s.len(),
    decreases s.len(),
{
    if s.len() > 0 {
        lemma_count_bound(s.drop_last());
    }
}

/// A list of `n` distinct values from `0..n` holds each of them.
proof fn lemma_distinct_covers_int(s: Seq<int>, n: int)
    requires
        s.len() == n,
        forall|p: int| 0 <= p < s.len() ==> 0 <= #[trigger] s[p] < n,
        forall|p: int, q: int| 0 <= p < s.len() && 0 <= q < s.len() && p != q ==> s[p] != s[q],
    ensures
        forall|i: int| 0 <= i < n ==> #[trigger] s.contains(i),
{
    assert(s.no_duplicates());
    s.unique_seq_to_set();
    let range = vstd::set_lib::set_int_range(0, n);
    vstd::set_lib::lemma_int_range(0, n);
    assert(s.to_set().subset_of(range));
    vstd::set_lib::lemma_len_subset(s.to_set(), range);
    vstd::set_lib::lemma_subset_equality(s.to_set(), range);
    assert forall|i: int| 0 <= i < n implies #[trigger] s.contains(i) by {
        assert(range.contains(i));
        assert(s.to_set().contains(i));
    }
}

/// Every installer after the first on a path from `i` is marked in
/// `reached`, when `reached` is closed under dependencies and holds all
/// dependencies of `i`.
proof fn lemma_path_reached(
    names: Seq<Seq<char>>,
    deps: Seq<Seq<Seq<char>>>,
    dep_idx: Seq<Vec<usize>>,
    reached: Seq<bool>,
    i: int,
    p: Seq<int>,
    t: int,
)
    requires
        names_unique(names),
        names.len() == deps.len(),
        reached.len() == names.len(),
        indexes_deps(names, deps, dep_idx),
        forall|x: int|
            0 <= x < names.len() && (reached[x] || x == i) ==> deps_all_placed(
                #[trigger] dep_idx[x]@,
                reached,
            ),
        is_dep_path(names, deps, p),
        p[0] == i,
        1 <= t < p.len(),
    ensures
        reached[p[t]],
    decreases t,
{
    let a = p[t - 1];
    let b = p[t];
    if t > 1 {
        lemma_path_reached(names, deps, dep_idx, reached, i, p, t - 1);
    }
    assert(depends_on(names, deps, a, b));
    let k = choose|k: int| 0 <= k < deps[a].len() && #[trigger] deps[a][k] == names[b];
    assert(dep_idx[a].len() == deps[a].len());
    let m = dep_idx[a][k];
    assert(names[m as int] == deps[a][k]);
    assert(m == b);
    assert(deps_all_placed(dep_idx[a]@, reached));
    assert(reached[dep_idx[a]@[k] as int]);
}

/// Whether installer `i` lies on a dependency cycle, found by a search over
/// the installers reachable from it.
fn lies_on_cycle(
    dep_idx: &Vec<Vec<usize>>,
    i: usize,
    Ghost(names): Ghost<Seq<Seq<char>>>,
    Ghost(deps): Ghost<Seq<Seq<Seq<char>>>>,
) -> (r: bool)
    requires
        names_unique(names),
        names.len() == deps.len(),
        indexes_deps(names, deps, dep_idx@),
        i < names.len(),
    ensures
        r == on_cycle(names, deps, i as int),
{
    let n = dep_idx.len();
    let mut reached: Vec<bool> = Vec::new();
    while reached.len() < n
        invariant
            reached.len() <= n,
            forall|a: int| 0 <= a < reached.len() ==> !#[trigger] reached[a],
            count_true(reached@) == 0,
        decreases n - reached.len(),
    {
        proof {
            assert(reached@.push(false).drop_last() == reached@);
        }
        reached.push(false);
    }
    let mut stack: Vec<usize> = Vec::new();
    stack.push(i);
    proof {
        assert(stack@[0] == i);
        assert(stack@.contains(i));
    }
    let ghost mut paths: Seq<Seq<int>> = Seq::new(n as nat, |m: int| seq![m]);
    while stack.len() > 0
        invariant
            n == dep_idx.len(),
            n == names.len(),
            names.len() == deps.len(),
            names_unique(names),
            indexes_deps(names, deps, dep_idx@),
            i < n,
            reached.len() == n,
            paths.len() == n,
            count_true(reached@) <= n,
            forall|q: int|
                0 <= q < stack.len() ==> #[trigger] stack@[q] < n && (stack@[q] == i
                    || reached@[stack@[q] as int]),
            forall|m: int|
                0 <= m < n && #[trigger] reached@[m] ==> is_dep_path(names, deps, paths[m])
                    && paths[m][0] == i && paths[m][paths[m].len() - 1] == m,
            forall|x: int|
                0 <= x < n && (reached@[x] || x == i) && !stack@.contains(x as usize)
                    ==> deps_all_placed(#[trigger] dep_idx@[x]@, reached@),
        decreases n - count_true(reached@), stack.len(),
    {
        let ghost old_stack = stack@;
        let j = stack.pop().unwrap();
        let ghost popped = stack@;
        let ghost count0 = count_true(reached@);
        proof {
            assert(old_stack == popped.push(j));
            assert(old_stack[old_stack.len() - 1] == j);
        }
        let ghost pj: Seq<int> = if j == i {
            seq![i as int]
        } else {
            paths[j as int]
        };
        let ds = &dep_idx[j];
        let mut k: usize = 0;
        while k < ds.len()
            invariant
                n == dep_idx.len(),
                n == names.len(),
                names.len() == deps.len(),
                names_unique(names),
                indexes_deps(names, deps, dep_idx@),
                i < n,
                j < n,
                ds@ == dep_idx@[j as int]@,
                k <= ds.len(),
                reached.len() == n,
                paths.len() == n,
                count_true(reached@) <= n,
                count0 <= count_true(reached@),
                stack.len() + count0 == popped.len() + count_true(reached@),
                pj.len() >= 1,
                pj[0] == i,
                pj[pj.len() - 1] == j,
                forall|t: int| 0 <= t < pj.len() - 1 ==> depends_on(names, deps, #[trigger] pj[t], pj[t + 1]),
                forall|q: int|
                    0 <= q < stack.len() ==> #[trigger] stack@[q] < n && (stack@[q] == i
                        || reached@[stack@[q] as int]),
                forall|m: int|
                    0 <= m < n && #[trigger] reached@[m] ==> is_dep_path(names, deps, paths[m])
                        && paths[m][0] == i && paths[m][paths[m].len() - 1] == m,
                forall|x: int|
                    0 <= x < n && x != j && (reached@[x] || x == i) && !stack@.contains(x as usize)
                        ==> deps_all_placed(#[trigger] dep_idx@[x]@, reached@),
                forall|k2: int| 0 <= k2 < k ==> reached@[#[trigger] ds@[k2] as int],
            decreases ds.len() - k,
        {
            let m = ds[k];
            proof {
                assert(dep_idx@[j as int][k as int] == m);
                assert(m < n);
            }
            if !reached[m] {
                let ghost old_reached = reached@;
                let ghost old_st = stack@;
                proof {
                    lemma_count_set(reached@, m as int);
                    lemma_count_bound(reached@.update(m as int, true));
                    let np = pj.push(m as int);
                    assert(depends_on(names, deps, j as int, m as int)) by {
                        assert(dep_idx@[j as int].len() == deps[j as int].len());
                        assert(names[dep_idx@[j as int][k as int] as int] == deps[j as int][k as int]);
                        assert(names[m as int] == deps[j as int][k as int]);
                    }
                    assert(is_dep_path(names, deps, np)) by {
                        assert forall|t: int| 0 <= t < np.len() - 1 implies depends_on(
                            names,
                            deps,
                            #[trigger] np[t],
                            np[t + 1],
                        ) by {
                            if t < pj.len() - 1 {
                                assert(np[t] == pj[t] && np[t + 1] == pj[t + 1]);
                            }
                        }
                    }
                    paths = paths.update(m as int, np);
                }
                reached.set(m, true);
                stack.push(m);
                proof {
                    assert forall|x: int|
                        0 <= x < n && x != j && (reached@[x] || x == i) && !stack@.contains(
                            x as usize,
                        ) implies deps_all_placed(#[trigger] dep_idx@[x]@, reached@) by {
                        assert(stack@ == old_st.push(m));
                        if old_st.contains(x as usize) {
                            let q = choose|q: int| 0 <= q < old_st.len() && old_st[q] == x as usize;
                            assert(stack@[q] == x as usize);
                        }
                        if x == m {
                            assert(stack@[stack@.len() - 1] == m);
                        }
                        assert(old_reached[x] || x == i);
                        assert(deps_all_placed(dep_idx@[x]@, old_reached));
                    }
                    assert forall|q: int| 0 <= q < stack.len() implies #[trigger] stack@[q] < n && (
                    stack@[q] == i || reached@[stack@[q] as int]) by {
                        if q < old_st.len() {
                            assert(stack@[q] == old_st[q]);
                        }
                    }
                }
            }
            k = k + 1;
        }
        proof {
            assert(deps_all_placed(dep_idx@[j as int]@, reached@));
            assert forall|x: int|
                0 <= x < n && (reached@[x] || x == i) && !stack@.contains(x as usize)
                    implies deps_all_placed(#[trigger] dep_idx@[x]@, reached@) by {
                if x == j {
                    assert(dep_idx@[x] == dep_idx@[j as int]);
                }
            }
        }
    }
    if reached[i] {
        proof {
            assert(is_dep_path(names, deps, paths[i as int]));
        }
        true
    } else {
        proof {
            if on_cycle(names, deps, i as int) {
                let p = choose|p: Seq<int>|
                    #[trigger] is_dep_path(names, deps, p) && p[0] == i && p[p.len() - 1] == i;
                lemma_path_reached(names, deps, dep_idx@, reached@, i as int, p, p.len() - 1);
            }
        }
        false
    }
}

/// In a group of unplaced installers where each has an unplaced dependency,
/// a walk along dependencies must come back to an installer it has met: some
/// installer lies on a cycle.
proof fn lemma_closed_walk(
    names: Seq<Seq<char>>,
    deps: Seq<Seq<Seq<char>>>,
    dep_idx: Seq<Vec<usize>>,
    placed: Seq<bool>,
    walk: Seq<int>,
)
    requires
        names.len() == deps.len(),
        placed.len() == names.len(),
        indexes_deps(names, deps, dep_idx),
        forall|x: int|
            0 <= x < placed.len() ==> placed[x] || !deps_all_placed(#[trigger] dep_idx[x]@, placed),
        1 <= walk.len() <= names.len(),
        forall|t: int| 0 <= t < walk.len() ==> 0 <= #[trigger] walk[t] < names.len() && !placed[walk[t]],
        forall|t: int, u: int| 0 <= t < walk.len() && 0 <= u < walk.len() && t != u ==> walk[t] != walk[u],
        forall|t: int| 0 <= t < walk.len() - 1 ==> depends_on(names, deps, #[trigger] walk[t], walk[t + 1]),
    ensures
        exists|x: int| 0 <= x < names.len() && on_cycle(names, deps, x),
    decreases names.len() - walk.len(),
{
    let a = walk[walk.len() - 1];
    assert(!deps_all_placed(dep_idx[a]@, placed));
    let k = choose|k: int| 0 <= k < dep_idx[a]@.len() && !placed[#[trigger] dep_idx[a]@[k] as int];
    let m = dep_idx[a]@[k] as int;
    assert(dep_idx[a][k] == m);
    assert(depends_on(names, deps, a, m)) by {
        assert(deps[a][k] == names[m]);
    }
    if walk.contains(m) {
        let t = choose|t: int| 0 <= t < walk.len() && walk[t] == m;
        let p = walk.subrange(t, walk.len() as int).push(m);
        assert forall|s: int| 0 <= s < p.len() - 1 implies depends_on(names, deps, #[trigger] p[s], p[s + 1]) by {
            if s < walk.len() - t - 1 {
                assert(p[s] == walk[t + s] && p[s + 1] == walk[t + s + 1]);
            } else {
                assert(p[s] == a);
                assert(p[s + 1] == m);
            }
        }
        assert(is_dep_path(names, deps, p));
        assert(on_cycle(names, deps, m));
    } else {
        if walk.len() == names.len() {
            lemma_distinct_covers_int(walk, names.len() as int);
            assert(walk.contains(m));
        }
        let w = walk.push(m);
        assert forall|t: int| 0 <= t < w.len() - 1 implies depends_on(names, deps, #[trigger] w[t], w[t + 1]) by {
            if t < walk.len() - 1 {
                assert(w[t] == walk[t] && w[t + 1] == walk[t + 1]);
            }
        }
        assert forall|t: int, u: int| 0 <= t < w.len() && 0 <= u < w.len() && t != u implies w[t] != w[u] by {
            if t < walk.len() && u == walk.len() {
                assert(walk.contains(w[t]));
            }
            if u < walk.len() && t == walk.len() {
                assert(walk.contains(w[u]));
            }
        }
        lemma_closed_walk(names, deps, dep_idx, placed, w);
    }
}

/// `n` is the name of one of the first `upto` installers, which lies on a cycle.
pub open spec fn names_one_on_cycle(
    names: Seq<Seq<char>>,
    deps: Seq<Seq<Seq<char>>>,
    upto: int,
    n: Seq<char>,
) -> bool {
    exists|x: int| 0 <= x < upto && on_cycle(names, deps, x) && names[x] == n
}

/// `cycle_names` lists only names of installers on a cycle, and each of them.
pub proof fn lemma_cycle_names(names: Seq<Seq<char>>, deps: Seq<Seq<Seq<char>>>, upto: int)
    requires
        0 <= upto <= names.len(),
    ensures
        forall|m: int|
            0 <= m < cycle_names(names, deps, upto).len() ==> names_one_on_cycle(
                names,
                deps,
                upto,
                #[trigger] cycle_names(names, deps, upto)[m],
            ),
        forall|x: int|
            0 <= x < upto && on_cycle(names, deps, x) ==> cycle_names(names, deps, upto).contains(
                #[trigger] names[x],
            ),
    decreases upto,
{
    if upto > 0 {
        lemma_cycle_names(names, deps, upto - 1);
        let rest = cycle_names(names, deps, upto - 1);
        let c = cycle_names(names, deps, upto);
        assert forall|m: int| 0 <= m < c.len() implies names_one_on_cycle(
            names,
            deps,
            upto,
            #[trigger] c[m],
        ) by {
            if m < rest.len() {
                assert(c[m] == rest[m]);
                assert(names_one_on_cycle(names, deps, upto - 1, rest[m]));
                let x = choose|x: int| 0 <= x < upto - 1 && on_cycle(names, deps, x) && names[x] == rest[m];
                assert(0 <= x < upto && on_cycle(names, deps, x) && names[x] == c[m]);
            } else {
                assert(c[m] == names[upto - 1]);
                assert(0 <= upto - 1 < upto && on_cycle(names, deps, upto - 1));
            }
        }
        assert forall|x: int| 0 <= x < upto && on_cycle(names, deps, x) implies c.contains(
            #[trigger] names[x],
        ) by {
            if x < upto - 1 {
                assert(rest.contains(names[x]));
                let m = choose|m: int| 0 <= m < rest.len() && rest[m] == names[x];
                assert(c[m] == names[x]);
            } else {
                assert(c[c.len() - 1] == names[x]);
            }
        }
    }
}

/// The installers along a dependency cycle form a closed group.
pub proof fn lemma_cycle_is_closed_group(names: Seq<Seq<char>>, deps: Seq<Seq<Seq<char>>>, p: Seq<int>)
    requires
        names.len() == deps.len(),
        names_unique(names),
        is_dep_path(names, deps, p),
        p[0] == p[p.len() - 1],
    ensures
        is_closed_group(names, deps, p.map_values(|x: int| names[x])),
{
    let c = p.map_values(|x: int| names[x]);
    assert(depends_on(names, deps, p[0], p[1]));
    assert forall|m: int| 0 <= m < p.len() implies 0 <= #[trigger] p[m] < names.len() by {
        if m < p.len() - 1 {
            assert(depends_on(names, deps, p[m], p[m + 1]));
        }
    }
    assert forall|m: int| 0 <= m < c.len() implies is_registered(names, #[trigger] c[m]) by {
        assert(0 <= p[m] < names.len());
        assert(names[p[m]] == c[m]);
    }
    assert forall|i: int| 0 <= i < names.len() && c.contains(#[trigger] names[i]) implies exists|k: int|
        0 <= k < deps[i].len() && c.contains(#[trigger] deps[i][k]) by {
        let m = choose|m: int| 0 <= m < c.len() && c[m] == names[i];
        assert(0 <= p[m] < names.len());
        assert(names[p[m]] == names[i]);
        assert(p[m] == i);
        let m1 = if m < p.len() - 1 {
            m
        } else {
            0
        };
        assert(p[m1] == i);
        assert(depends_on(names, deps, p[m1], p[m1 + 1]));
        let k = choose|k: int| 0 <= k < deps[i].len() && #[trigger] deps[i][k] == names[p[m1 + 1]];
        assert(c[m1 + 1] == deps[i][k]);
    }
}

/// Orders the installers given by `names` and their dependency lists `deps`
/// (both in registration order), or says why no order exists.
pub fn resolve(names: &Vec<String>, deps: &Vec<Vec<String>>) -> (r: Result<Vec<usize>, DependencyError>)
    requires
        names.len() == deps.len(),
        names_unique(strings_view(names@)),
    ensures
        is_resolve_result(strings_view(names@), deps_view(deps@), r),
{
    let ghost nv = strings_view(names@);
    let ghost dv = deps_view(deps@);
    let n = names.len();
    let mut dep_idx: Vec<Vec<usize>> = Vec::new();
    let mut i: usize = 0;
    while i < n
        invariant
            i <= n,
            n == names.len(),
            n == deps.len(),
            nv == strings_view(names@),
            dv == deps_view(deps@),
            dep_idx.len() == i,
            forall|a: int| 0 <= a < i ==> #[trigger] dep_idx[a].len() == dv[a].len(),
            forall|a: int, k: int|
                0 <= a < i && 0 <= k < dep_idx[a].len() ==> #[trigger] dep_idx[a][k] < n
                    && nv[dep_idx[a][k] as int] == dv[a][k],
            forall|a: int, k: int| 0 <= a < i ==> !#[trigger] is_unknown(nv, dv, a, k),
        decreases n - i,
    {
        let ds = &deps[i];
        let mut row: Vec<usize> = Vec::new();
        let mut k: usize = 0;
        while k < ds.len()
            invariant
                i < n,
                n == names.len(),
                n == deps.len(),
                nv == strings_view(names@),
                dv == deps_view(deps@),
                ds@ == deps@[i as int]@,
                k <= ds.len(),
                row.len() == k,
                dep_idx.len() == i,
                forall|a: int| 0 <= a < i ==> #[trigger] dep_idx[a].len() == dv[a].len(),
                forall|a: int, k: int|
                    0 <= a < i && 0 <= k < dep_idx[a].len() ==> #[trigger] dep_idx[a][k] < n
                        && nv[dep_idx[a][k] as int] == dv[a][k],
                forall|a: int, k: int| 0 <= a < i ==> !#[trigger] is_unknown(nv, dv, a, k),
                forall|m: int|
                    0 <= m < k ==> #[trigger] row[m] < n && nv[row[m] as int] == dv[i as int][m],
                forall|m: int| m < k ==> !#[trigger] is_unknown(nv, dv, i as int, m),
            decreases ds.len() - k,
        {
            assert(dv[i as int][k as int] == ds@[k as int]@);
            match find_name(names, &ds[k]) {
                Some(j) => {
                    proof {
                        assert(nv[j as int] == dv[i as int][k as int]);
                        assert(!is_unknown(nv, dv, i as int, k as int));
                    }
                    row.push(j);
                },
                None => {
                    proof {
                        assert(is_unknown(nv, dv, i as int, k as int));
                        assert forall|i2: int, k2: int|
                            (i2 < i || (i2 == i && k2 < k)) implies !#[trigger] is_unknown(
                                nv,
                                dv,
                                i2,
                                k2,
                            ) by {}
                    }
                    return Err(DependencyError::UnknownDependency(ds[k].clone()));
                },
            }
            k = k + 1;
        }
        dep_idx.push(row);
        i = i + 1;
    }
    proof {
        assert forall|a: int, k: int| 0 <= a < dv.len() && 0 <= k < dv[a].len() implies is_registered(
            nv,
            #[trigger] dv[a][k],
        ) by {
            assert(!is_unknown(nv, dv, a, k));
        }
    }
    let mut placed: Vec<bool> = Vec::new();
    while placed.len() < n
        invariant
            placed.len() <= n,
            forall|a: int| 0 <= a < placed.len() ==> !#[trigger] placed[a],
            count_true(placed@) == 0,
        decreases n - placed.len(),
    {
        proof {
            assert(placed@.push(false).drop_last() == placed@);
        }
        placed.push(false);
    }
    let mut order: Vec<usize> = Vec::new();
    while order.len() < n
        invariant
            n == names.len(),
            n == deps.len(),
            nv == strings_view(names@),
            dv == deps_view(deps@),
            names_unique(nv),
            all_known(nv, dv),
            indexes_deps(nv, dv, dep_idx@),
            placed.len() == n,
            order.len() <= n,
            marks(order@, placed@),
            count_true(placed@) == order.len(),
            forall|p: int| 0 <= p < order.len() ==> is_step(nv, dv, order@, p),
        decreases n - order.len(),
    {
        match first_ready(&dep_idx, &placed) {
            Some(j) => {
                let ghost old_order = order@;
                let ghost old_placed = placed@;
                proof {
                    lemma_ready_iff(nv, dv, dep_idx@, order@, placed@, j as int);
                    assert forall|m: int| 0 <= m < j implies !#[trigger] is_ready(
                        nv,
                        dv,
                        old_order,
                        m,
                    ) by {
                        lemma_ready_iff(nv, dv, dep_idx@, old_order, old_placed, m);
                    }
                    lemma_count_set(placed@, j as int);
                }
                placed.set(j, true);
                order.push(j);
                proof {
                    assert(order@.take(old_order.len() as int) == old_order);
                    assert forall|p: int| 0 <= p < order.len() implies is_step(nv, dv, order@, p) by {
                        if p < old_order.len() {
                            assert(order@.take(p) == old_order.take(p));
                            assert(is_step(nv, dv, old_order, p));
                        }
                    }
                    assert forall|a: int| 0 <= a < placed.len() implies #[trigger] placed@[a]
                        == order@.contains(a as usize) by {
                        if a != j {
                            assert(old_placed[a] == old_order.contains(a as usize));
                            if order@.contains(a as usize) {
                                let q = choose|q: int| 0 <= q < order@.len() && order@[q] == a as usize;
                                assert(q < old_order.len());
                                assert(old_order[q] == a);
                            }
                            if old_order.contains(a as usize) {
                                let q = choose|q: int| 0 <= q < old_order.len() && old_order[q] == a as usize;
                                assert(order@[q] == a);
                            }
                        } else {
                            assert(order@[old_order.len() as int] == j);
                        }
                    }
                }
            },
            None => {
                let mut c: Vec<String> = Vec::new();
                let mut a: usize = 0;
                while a < n
                    invariant
                        a <= n,
                        n == names.len(),
                        n == deps.len(),
                        nv == strings_view(names@),
                        dv == deps_view(deps@),
                        names_unique(nv),
                        indexes_deps(nv, dv, dep_idx@),
                        strings_view(c@) == cycle_names(nv, dv, a as int),
                    decreases n - a,
                {
                    let ghost old_cv = c@;
                    if lies_on_cycle(&dep_idx, a, Ghost(nv), Ghost(dv)) {
                        c.push(names[a].clone());
                        proof {
                            assert(strings_view(c@) =~= strings_view(old_cv).push(nv[a as int]));
                        }
                    }
                    a = a + 1;
                }
                proof {
                    lemma_count_has_false(placed@);
                    let b0 = choose|b: int| 0 <= b < placed.len() && !placed@[b];
                    lemma_closed_walk(nv, dv, dep_idx@, placed@, seq![b0]);
                    let x = choose|x: int| 0 <= x < nv.len() && on_cycle(nv, dv, x);
                    lemma_cycle_names(nv, dv, n as int);
                    assert(strings_view(c@).contains(nv[x]));
                }
                return Err(DependencyError::Cycle(c));
            },
        }
    }
    Ok(order)
}

/// A list of `n` distinct positions below `n` holds each of them.
proof fn lemma_distinct_covers(order: Seq<usize>, n: int)
    requires
        order.len() == n,
        forall|p: int| 0 <= p < order.len() ==> order[p] < n,
        forall|p: int, q: int|
            0 <= p < order.len() && 0 <= q < order.len() && p != q ==> order[p] != order[q],
    ensures
        forall|i: usize| i < n ==> #[trigger] order.contains(i),
{
    let s = order.map_values(|x: usize| x as int);
    assert(s.no_duplicates()) by {
        assert forall|p: int, q: int| 0 <= p < s.len() && 0 <= q < s.len() && p != q implies s[p]
            != s[q] by {
            assert(order[p] != order[q]);
        }
    }
    s.unique_seq_to_set();
    let range = vstd::set_lib::set_int_range(0, n);
    vstd::set_lib::lemma_int_range(0, n);
    assert(s.to_set().subset_of(range));
    vstd::set_lib::lemma_len_subset(s.to_set(), range);
    vstd::set_lib::lemma_subset_equality(s.to_set(), range);
    assert forall|i: usize| i < n implies #[trigger] order.contains(i) by {
        assert(range.contains(i as int));
        assert(s.to_set().contains(i as int));
        let p = choose|p: int| 0 <= p < s.len() && s[p] == i as int;
        assert(order[p] == i);
    }
}

/// A resolved order lists every installer exactly once, each one after all
/// the installers it depends on.
pub proof fn lemma_resolution_is_topological(
    names: Seq<Seq<char>>,
    deps: Seq<Seq<Seq<char>>>,
    order: Seq<usize>,
)
    requires
        names.len() == deps.len(),
        is_resolution(names, deps, order),
    ensures
        is_topological(names, deps, order),
{
    assert forall|p: int| 0 <= p < order.len() implies order[p] < names.len() by {
        assert(is_step(names, deps, order, p));
    }
    assert forall|p: int, q: int|
        0 <= p < order.len() && 0 <= q < order.len() && p != q implies order[p] != order[q] by {
        let (a, b) = if p < q {
            (p, q)
        } else {
            (q, p)
        };
        assert(is_step(names, deps, order, b));
        assert(order.take(b)[a] == order[a]);
        assert(order.take(b).contains(order[a]));
    }
    assert forall|p: int, k: int|
        0 <= p < order.len() && 0 <= k < deps[order[p] as int].len() implies is_placed_name(
        names,
        order.take(p),
        #[trigger] deps[order[p] as int][k],
    ) by {
        assert(is_step(names, deps, order, p));
    }
    lemma_distinct_covers(order, names.len() as int);
    assert(forall|i: usize| i < names.len() ==> #[trigger] order.contains(i));
}

proof fn lemma_no_position_in_group(
    names: Seq<Seq<char>>,
    deps: Seq<Seq<Seq<char>>>,
    c: Seq<Seq<char>>,
    order: Seq<usize>,
    p: int,
)
    requires
        is_closed_group(names, deps, c),
        is_topological(names, deps, order),
        0 <= p < order.len(),
    ensures
        !c.contains(names[order[p] as int]),
    decreases p,
{
    if c.contains(names[order[p] as int]) {
        let i = order[p] as int;
        let k = choose|k: int| 0 <= k < deps[i].len() && c.contains(#[trigger] deps[i][k]);
        assert(is_placed_name(names, order.take(p), deps[i][k]));
        let q = choose|q: int| 0 <= q < p && names[order.take(p)[q] as int] == deps[i][k];
        assert(order.take(p)[q] == order[q]);
        lemma_no_position_in_group(names, deps, c, order, q);
    }
}

/// A closed group of installers admits no order that puts each installer after
/// its dependencies; in particular there is no resolved order.
pub proof fn lemma_cycle_excludes_order(
    names: Seq<Seq<char>>,
    deps: Seq<Seq<Seq<char>>>,
    c: Seq<Seq<char>>,
    order: Seq<usize>,
)
    requires
        names.len() == deps.len(),
        names.len() <= usize::MAX,
        is_closed_group(names, deps, c),
    ensures
        !is_topological(names, deps, order),
        !is_resolution(names, deps, order),
{
    if is_resolution(names, deps, order) {
        lemma_resolution_is_topological(names, deps, order);
    }
    if is_topological(names, deps, order) {
        let i0 = choose|i: int| 0 <= i < names.len() && names[i] == c[0];
        assert(order.contains(i0 as usize));
        let p = choose|p: int| 0 <= p < order.len() && order[p] == i0 as usize;
        assert(c.contains(names[order[p] as int]));
        lemma_no_position_in_group(names, deps, c, order, p);
    }
}

/// When every declared dependency is registered and some order puts each
/// installer after its dependencies (`witness`), resolution succeeds, and the
/// order it returns puts every installer after all it depends on.
pub proof fn lemma_valid_graph_resolves(
    names: Seq<Seq<char>>,
    deps: Seq<Seq<Seq<char>>>,
    witness: Seq<usize>,
    r: Result<Vec<usize>, DependencyError>,
)
    requires
        names.len() == deps.len(),
        names.len() <= usize::MAX,
        names_unique(names),
        all_known(names, deps),
        is_topological(names, deps, witness),
        is_resolve_result(names, deps, r),
    ensures
        r is Ok,
        is_topological(names, deps, r->Ok_0@),
{
    match r {
        Ok(o) => {
            lemma_resolution_is_topological(names, deps, o@);
        },
        Err(DependencyError::UnknownDependency(d)) => {
            let (i, k) = choose|i: int, k: int|
                #[trigger] is_unknown(names, deps, i, k) && deps[i][k] == d@ && (forall|i2: int, k2: int|
                    (i2 < i || (i2 == i && k2 < k)) ==> !#[trigger] is_unknown(names, deps, i2, k2));
            assert(is_registered(names, deps[i][k]));
        },
        Err(DependencyError::Cycle(c)) => {
            let cv = strings_view(c@);
            lemma_cycle_names(names, deps, names.len() as int);
            assert(cv.len() > 0);
            assert(names_one_on_cycle(names, deps, names.len() as int, cv[0]));
            let x = choose|x: int| 0 <= x < names.len() && on_cycle(names, deps, x) && names[x] == cv[0];
            let p = choose|p: Seq<int>|
                #[trigger] is_dep_path(names, deps, p) && p[0] == x && p[p.len() - 1] == x;
            lemma_cycle_is_closed_group(names, deps, p);
            lemma_cycle_excludes_order(names, deps, p.map_values(|y: int| names[y]), witness);
        },
    }
}

/// When every declared dependency is registered and installer `i` lies on a
/// dependency cycle, resolution yields no order: it fails with a cycle error
/// that names `i`.
pub proof fn lemma_cyclic_set_fails(
    names: Seq<Seq<char>>,
    deps: Seq<Seq<Seq<char>>>,
    i: int,
    r: Result<Vec<usize>, DependencyError>,
)
    requires
        names.len() == deps.len(),
        names.len() <= usize::MAX,
        names_unique(names),
        all_known(names, deps),
        0 <= i < names.len(),
        on_cycle(names, deps, i),
        is_resolve_result(names, deps, r),
    ensures
        match r {
            Err(DependencyError::Cycle(c)) => strings_view(c@).contains(names[i]),
            _ => false,
        },
{
    match r {
        Ok(o) => {
            let p = choose|p: Seq<int>|
                #[trigger] is_dep_path(names, deps, p) && p[0] == i && p[p.len() - 1] == i;
            lemma_cycle_is_closed_group(names, deps, p);
            lemma_cycle_excludes_order(names, deps, p.map_values(|y: int| names[y]), o@);
        },
        Err(DependencyError::UnknownDependency(d)) => {
            let (i, k) = choose|i: int, k: int|
                #[trigger] is_unknown(names, deps, i, k) && deps[i][k] == d@ && (forall|i2: int, k2: int|
                    (i2 < i || (i2 == i && k2 < k)) ==> !#[trigger] is_unknown(names, deps, i2, k2));
            assert(is_registered(names, deps[i][k]));
        },
        Err(DependencyError::Cycle(c)) => {
            lemma_cycle_names(names, deps, names.len() as int);
        },
    }
}

} // verus!
