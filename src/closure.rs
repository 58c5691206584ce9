//! The dependency closure: the modules reachable from the compilation targets
//! over "uses" edges.
use vstd::prelude::*;
use vstd::set_lib::*;
use crate::model::{Address, ExpandedProgram};

verus! {

/// Module `w` is an immediate neighbour of module `v`.
pub open spec fn edge(g: Seq<Seq<usize>>, v: usize, w: usize) -> bool {
    v < g.len() && g[v as int].contains(w)
}

/// The modules reachable from `roots` in at most `k` steps.
pub open spec fn reach(g: Seq<Seq<usize>>, roots: Set<usize>, k: nat) -> Set<usize>
    decreases k,
{
    if k == 0 {
        roots
    } else {
        let p = reach(g, roots, (k - 1) as nat);
        p.union(Set::new(|w: usize| exists|v: usize| p.contains(v) && edge(g, v, w)))
    }
}

/// The modules reachable from `roots` in any number of steps.
pub open spec fn closure(g: Seq<Seq<usize>>, roots: Set<usize>) -> Set<usize> {
    Set::new(|m: usize| exists|k: nat| #[trigger] reach(g, roots, k).contains(m))
}

/// Every neighbour of a set member is a member.
pub open spec fn is_closed(g: Seq<Seq<usize>>, s: Set<usize>) -> bool {
    forall|v: usize, w: usize| s.contains(v) && #[trigger] edge(g, v, w) ==> s.contains(w)
}

pub open spec fn graph_wf(g: Seq<Seq<usize>>) -> bool {
    forall|i: int, j: int| 0 <= i < g.len() && 0 <= j < g[i].len() ==> #[trigger] g[i][j] < g.len()
}

proof fn lemma_reach_step(g: Seq<Seq<usize>>, roots: Set<usize>, k: nat, v: usize, w: usize)
    requires
        reach(g, roots, k).contains(v),
        edge(g, v, w),
    ensures
        reach(g, roots, k + 1).contains(w),
{
    assert(reach(g, roots, (k + 1) as nat) == reach(g, roots, k).union(
        Set::new(|x: usize| exists|u: usize| reach(g, roots, k).contains(u) && edge(g, u, x)),
    ));
}

proof fn lemma_closure_closed(g: Seq<Seq<usize>>, roots: Set<usize>)
    ensures
        is_closed(g, closure(g, roots)),
        roots.subset_of(closure(g, roots)),
{
    assert forall|v: usize, w: usize|
        closure(g, roots).contains(v) && #[trigger] edge(g, v, w) implies closure(g, roots).contains(w) by {
        let k = choose|k: nat| #[trigger] reach(g, roots, k).contains(v);
        lemma_reach_step(g, roots, k, v, w);
    }
    assert forall|m: usize| roots.contains(m) implies closure(g, roots).contains(m) by {
        assert(reach(g, roots, 0).contains(m));
    }
}

/// A closed set that holds the roots holds everything reachable from them.
proof fn lemma_closed_contains(g: Seq<Seq<usize>>, roots: Set<usize>, s: Set<usize>, k: nat)
    requires
        roots.subset_of(s),
        is_closed(g, s),
    ensures
        reach(g, roots, k).subset_of(s),
    decreases k,
{
    if k > 0 {
        lemma_closed_contains(g, roots, s, (k - 1) as nat);
    }
}

proof fn lemma_closure_least(g: Seq<Seq<usize>>, roots: Set<usize>, s: Set<usize>)
    requires
        roots.subset_of(s),
        is_closed(g, s),
    ensures
        closure(g, roots).subset_of(s),
{
    assert forall|m: usize| closure(g, roots).contains(m) implies s.contains(m) by {
        let k = choose|k: nat| #[trigger] reach(g, roots, k).contains(m);
        lemma_closed_contains(g, roots, s, k);
    }
}

/// Whatever is reachable lies within a well-formed graph.
proof fn lemma_closure_in_range(g: Seq<Seq<usize>>, roots: Set<usize>)
    requires
        graph_wf(g),
        forall|m: usize| roots.contains(m) ==> m < g.len(),
    ensures
        forall|m: usize| closure(g, roots).contains(m) ==> m < g.len(),
{
    let s = roots.union(Set::new(|m: usize| m < g.len()));
    assert forall|v: usize, w: usize| s.contains(v) && #[trigger] edge(g, v, w) implies s.contains(w) by {
        let j = choose|j: int| 0 <= j < g[v as int].len() && g[v as int][j] == w;
        assert(g[v as int][j] < g.len());
    }
    lemma_closure_least(g, roots, s);
}

/// The closure depends on the set of roots alone: on neither their order nor
/// their repetition.
pub proof fn lemma_closure_order_independent(g: Seq<Seq<usize>>, r1: Seq<usize>, r2: Seq<usize>)
    requires
        r1.to_set() == r2.to_set(),
    ensures
        closure(g, r1.to_set()) == closure(g, r2.to_set()),
{
}

/// Computing the closure again, from the closure, changes nothing.
pub proof fn lemma_closure_idempotent(g: Seq<Seq<usize>>, roots: Set<usize>)
    ensures
        closure(g, closure(g, roots)) == closure(g, roots),
{
    let c = closure(g, roots);
    lemma_closure_closed(g, roots);
    lemma_closure_least(g, c, c);
    lemma_closure_closed(g, c);
    lemma_closure_least(g, roots, closure(g, c));
    assert(closure(g, c) =~= c);
}

/// Marks every module reachable from `roots` over the program's "uses" edges.
pub fn collect_related_modules(prog: &ExpandedProgram, roots: &Vec<usize>) -> (visited: Vec<bool>)
    requires
        prog.wf(),
        forall|i: int| 0 <= i < roots@.len() ==> roots@[i] < prog.modules@.len(),
    ensures
        visited@.len() == prog.modules@.len(),
        forall|m: int| 0 <= m < visited@.len() ==>
            (visited@[m] <==> closure(prog.graph(), roots@.to_set()).contains(m as usize)),
{
    let ghost g = prog.graph();
    let ghost rs = roots@.to_set();
    let n = prog.modules.len();
    proof {
        lemma_closure_closed(g, rs);
        assert(graph_wf(g)) by {
            assert forall|i: int, j: int| 0 <= i < g.len() && 0 <= j < g[i].len() implies #[trigger] g[i][j] < g.len() by {
                assert(g[i] == prog.modules@[i].immediate_neighbors@);
            }
        }
    }
    let mut visited: Vec<bool> = Vec::new();
    let mut i: usize = 0;
    while i < n
        invariant
            i <= n,
            n == prog.modules@.len(),
            visited@.len() == i,
            forall|j: int| 0 <= j < i ==> !visited@[j],
        decreases n - i,
    {
        visited.push(false);
        i += 1;
    }
    let ghost mut marked: Set<int> = Set::empty();
    let mut stack: Vec<usize> = Vec::new();
    let mut r: usize = 0;
    while r < roots.len()
        invariant
            n == prog.modules@.len(),
            g == prog.graph(),
            graph_wf(g),
            rs == roots@.to_set(),
            rs.subset_of(closure(g, rs)),
            forall|i: int| 0 <= i < roots@.len() ==> roots@[i] < n,
            r <= roots@.len(),
            visited@.len() == n,
            forall|j: int| 0 <= j < r ==> visited@[roots@[j] as int],
            forall|m: int| 0 <= m < n && visited@[m] ==> closure(g, rs).contains(m as usize),
            forall|k: int| 0 <= k < stack@.len() ==> stack@[k] < n && visited@[stack@[k] as int],
            forall|m: int| 0 <= m < n && visited@[m] && !stack@.contains(m as usize) ==>
                forall|w: usize| #[trigger] edge(g, m as usize, w) ==> visited@[w as int],
            forall|m: int| marked.contains(m) <==> 0 <= m < n && visited@[m],
            marked.subset_of(set_int_range(0, n as int)),
        decreases roots@.len() - r,
    {
        let v = roots[r];
        if !visited[v] {
            assert(rs.contains(v));
            let ghost vis1 = visited@;
            let ghost s1 = stack@;
            visited.set(v, true);
            stack.push(v);
            proof {
                marked = marked.insert(v as int);
                assert forall|m: int| 0 <= m < n && visited@[m] && !stack@.contains(m as usize) implies
                    forall|x: usize| #[trigger] edge(g, m as usize, x) ==> visited@[x as int] by {
                    assert(stack@[s1.len() as int] == v);
                    if s1.contains(m as usize) {
                        let k = choose|k: int| 0 <= k < s1.len() && s1[k] == m as usize;
                        assert(stack@[k] == m as usize);
                    }
                    assert(vis1[m]);
                    assert forall|x: usize| #[trigger] edge(g, m as usize, x) implies visited@[x as int] by {
                        let jj = choose|jj: int| 0 <= jj < g[m].len() && g[m][jj] == x;
                        assert(g[m][jj] < g.len());
                        assert(vis1[x as int]);
                    }
                }
            }
        }
        r += 1;
    }
    proof {
        lemma_int_range(0, n as int);
        lemma_len_subset(marked, set_int_range(0, n as int));
    }
    while stack.len() > 0
        invariant
            n == prog.modules@.len(),
            prog.wf(),
            g == prog.graph(),
            graph_wf(g),
            rs == roots@.to_set(),
            is_closed(g, closure(g, rs)),
            visited@.len() == n,
            forall|i: int| 0 <= i < roots@.len() ==> roots@[i] < n,
            forall|j: int| 0 <= j < roots@.len() ==> visited@[roots@[j] as int],
            forall|m: int| 0 <= m < n && visited@[m] ==> closure(g, rs).contains(m as usize),
            forall|k: int| 0 <= k < stack@.len() ==> stack@[k] < n && visited@[stack@[k] as int],
            forall|m: int| 0 <= m < n && visited@[m] && !stack@.contains(m as usize) ==>
                forall|w: usize| #[trigger] edge(g, m as usize, w) ==> visited@[w as int],
            forall|m: int| marked.contains(m) <==> 0 <= m < n && visited@[m],
            marked.subset_of(set_int_range(0, n as int)),
            marked.finite(),
            marked.len() <= n,
        decreases 2 * (n - marked.len()) + stack@.len(),
    {
        let ghost pre = stack@;
        let v = stack.pop().unwrap();
        let ghost stack0 = stack@;
        proof {
            assert(pre == stack0.push(v));
            assert forall|m: int| 0 <= m < n && visited@[m] && !stack@.contains(m as usize) && m != v implies
                forall|w: usize| #[trigger] edge(g, m as usize, w) ==> visited@[w as int] by {
                if pre.contains(m as usize) {
                    let k = choose|k: int| 0 <= k < pre.len() && pre[k] == m as usize;
                    assert(k < stack0.len());
                    assert(stack0[k] == m as usize);
                }
            }
        }
        let ghost marked0 = marked;
        let nbrs = &prog.modules[v].immediate_neighbors;
        assert(nbrs@ == g[v as int]);
        let mut j: usize = 0;
        while j < nbrs.len()
            invariant
                n == prog.modules@.len(),
                prog.wf(),
                g == prog.graph(),
                graph_wf(g),
                v < n,
                nbrs@ == g[v as int],
                visited@[v as int],
                rs == roots@.to_set(),
                is_closed(g, closure(g, rs)),
                j <= nbrs@.len(),
                visited@.len() == n,
                forall|i: int| 0 <= i < roots@.len() ==> roots@[i] < n,
                forall|jj: int| 0 <= jj < roots@.len() ==> visited@[roots@[jj] as int],
                forall|m: int| 0 <= m < n && visited@[m] ==> closure(g, rs).contains(m as usize),
                forall|k: int| 0 <= k < stack@.len() ==> stack@[k] < n && visited@[stack@[k] as int],
                forall|k: int| 0 <= k < stack0.len() ==> stack@[k] == stack0[k],
                stack0.len() <= stack@.len(),
                forall|m: int| 0 <= m < n && visited@[m] && !stack@.contains(m as usize) && m != v ==>
                    forall|w: usize| #[trigger] edge(g, m as usize, w) ==> visited@[w as int],
                forall|jj: int| 0 <= jj < j ==> visited@[nbrs@[jj] as int],
                forall|m: int| marked.contains(m) <==> 0 <= m < n && visited@[m],
                marked.subset_of(set_int_range(0, n as int)),
                marked.finite(),
                marked.len() <= n,
                2 * (n - marked.len()) + stack@.len() < 2 * (n - marked0.len()) + stack0.len() + 1,
            decreases nbrs@.len() - j,
        {
            let w = nbrs[j];
            assert(g[v as int][j as int] == w);
            assert(w < n);
            if !visited[w] {
                proof {
                    assert(edge(g, v, w));
                }
                let ghost vis1 = visited@;
                let ghost s1 = stack@;
                visited.set(w, true);
                stack.push(w);
                proof {
                    assert forall|m: int| 0 <= m < n && visited@[m] && !stack@.contains(m as usize) && m != v implies
                        forall|x: usize| #[trigger] edge(g, m as usize, x) ==> visited@[x as int] by {
                        assert(stack@[s1.len() as int] == w);
                        if s1.contains(m as usize) {
                            let k = choose|k: int| 0 <= k < s1.len() && s1[k] == m as usize;
                            assert(stack@[k] == m as usize);
                        }
                        assert(vis1[m]);
                        assert forall|x: usize| #[trigger] edge(g, m as usize, x) implies visited@[x as int] by {
                            assert(vis1[x as int]);
                            let jj = choose|jj: int| 0 <= jj < g[m].len() && g[m][jj] == x;
                            assert(g[m][jj] < g.len());
                        }
                    }
                    marked = marked.insert(w as int);
                    lemma_int_range(0, n as int);
                    lemma_len_subset(marked, set_int_range(0, n as int));
                }
            }
            j += 1;
        }
        proof {
            assert forall|w: usize| #[trigger] edge(g, v, w) implies visited@[w as int] by {
                let jj = choose|jj: int| 0 <= jj < g[v as int].len() && g[v as int][jj] == w;
                assert(nbrs@[jj] == w);
            }
            assert forall|m: int| 0 <= m < n && visited@[m] && !stack@.contains(m as usize) implies
                forall|w: usize| #[trigger] edge(g, m as usize, w) ==> visited@[w as int] by {
                if stack0.contains(m as usize) {
                    let k = choose|k: int| 0 <= k < stack0.len() && stack0[k] == m as usize;
                    assert(stack@[k] == m as usize);
                }
            }
        }
    }
    proof {
        let s = Set::new(|m: usize| m < n && visited@[m as int]);
        assert(rs.subset_of(s)) by {
            assert forall|m: usize| rs.contains(m) implies s.contains(m) by {
                let j = choose|j: int| 0 <= j < roots@.len() && roots@[j] == m;
            }
        }
        assert(is_closed(g, s)) by {
            assert forall|v: usize, w: usize| s.contains(v) && #[trigger] edge(g, v, w) implies s.contains(w) by {
                let jj = choose|jj: int| 0 <= jj < g[v as int].len() && g[v as int][jj] == w;
                assert(g[v as int][jj] < g.len());
            }
        }
        lemma_closure_least(g, rs, s);
    }
    visited
}

/// The starting points of the closure: every module whose file is not a
/// dependency file, and every neighbour of a script whose file is not one.
pub open spec fn root_set(p: ExpandedProgram, deps: Set<usize>) -> Set<usize> {
    Set::new(|m: usize|
        (m < p.modules@.len() && !deps.contains(p.modules@[m as int].loc.file_id))
        || exists|s: int| 0 <= s < p.scripts@.len() && !deps.contains(#[trigger] p.scripts@[s].loc.file_id)
            && p.scripts@[s].immediate_neighbors@.contains(m))
}

/// The modules that later stages keep.
pub open spec fn selected(p: ExpandedProgram, deps: Set<usize>) -> Set<usize> {
    closure(p.graph(), root_set(p, deps))
}

/// Whether `x` occurs in `v`.
pub fn contains_usize(v: &Vec<usize>, x: usize) -> (r: bool)
    ensures
        r == v@.contains(x),
{
    let mut i: usize = 0;
    while i < v.len()
        invariant
            i <= v@.len(),
            forall|j: int| 0 <= j < i ==> v@[j] != x,
        decreases v@.len() - i,
    {
        if v[i] == x {
            return true;
        }
        i += 1;
    }
    false
}

/// Lists the starting points of the closure (see `root_set`).
pub fn closure_roots(prog: &ExpandedProgram, dep_files: &Vec<usize>) -> (roots: Vec<usize>)
    requires
        prog.wf(),
    ensures
        roots@.to_set() == root_set(*prog, dep_files@.to_set()),
        forall|i: int| 0 <= i < roots@.len() ==> roots@[i] < prog.modules@.len(),
{
    let ghost deps = dep_files@.to_set();
    let mut roots: Vec<usize> = Vec::new();
    let mut i: usize = 0;
    while i < prog.modules.len()
        invariant
            i <= prog.modules@.len(),
            deps == dep_files@.to_set(),
            forall|k: int| 0 <= k < roots@.len() ==> roots@[k] < i,
            forall|m: usize| #[trigger] roots@.contains(m) <==>
                (m < i && !deps.contains(prog.modules@[m as int].loc.file_id)),
        decreases prog.modules@.len() - i,
    {
        let ghost r0 = roots@;
        let is_dep = contains_usize(dep_files, prog.modules[i].loc.file_id);
        if !is_dep {
            roots.push(i);
        }
        proof {
            assert(is_dep == deps.contains(prog.modules@[i as int].loc.file_id));
            assert(!is_dep ==> roots@ == r0.push(i));
            assert(is_dep ==> roots@ == r0);
            assert forall|m: usize| roots@.contains(m) <==>
                (m < i + 1 && !deps.contains(prog.modules@[m as int].loc.file_id)) by {
                if roots@.contains(m) {
                    let k = choose|k: int| 0 <= k < roots@.len() && roots@[k] == m;
                    if k < r0.len() { assert(r0[k] == m); assert(r0.contains(m)); }
                }
                if m < i && !deps.contains(prog.modules@[m as int].loc.file_id) {
                    assert(r0.contains(m));
                    let k = choose|k: int| 0 <= k < r0.len() && r0[k] == m;
                    assert(roots@[k] == m);
                }
                if m == i && !deps.contains(prog.modules@[m as int].loc.file_id) {
                    assert(roots@[r0.len() as int] == m);
                }
            }
        }
        i += 1;
    }
    let mut s: usize = 0;
    while s < prog.scripts.len()
        invariant
            prog.wf(),
            deps == dep_files@.to_set(),
            s <= prog.scripts@.len(),
            forall|k: int| 0 <= k < roots@.len() ==> roots@[k] < prog.modules@.len(),
            forall|m: usize| #[trigger] roots@.contains(m) <==>
                ((m < prog.modules@.len() && !deps.contains(prog.modules@[m as int].loc.file_id))
                || exists|t: int| 0 <= t < s && !deps.contains(#[trigger] prog.scripts@[t].loc.file_id)
                    && prog.scripts@[t].immediate_neighbors@.contains(m)),
        decreases prog.scripts@.len() - s,
    {
        let script = &prog.scripts[s];
        if !contains_usize(dep_files, script.loc.file_id) {
            let ghost before = roots@;
            let ghost nb = script.immediate_neighbors@;
            let mut j: usize = 0;
            while j < script.immediate_neighbors.len()
                invariant
                    prog.wf(),
                    s < prog.scripts@.len(),
                    *script == prog.scripts@[s as int],
                    nb == script.immediate_neighbors@,
                    j <= nb.len(),
                    forall|k: int| 0 <= k < roots@.len() ==> roots@[k] < prog.modules@.len(),
                    forall|m: usize| #[trigger] roots@.contains(m) <==>
                        (before.contains(m) || nb.take(j as int).contains(m)),
                decreases nb.len() - j,
            {
                let w = script.immediate_neighbors[j];
                let ghost r0 = roots@;
                roots.push(w);
                proof {
                    assert(nb.take(j + 1) == nb.take(j as int).push(w));
                    assert forall|m: usize| #[trigger] roots@.contains(m) <==>
                        (before.contains(m) || nb.take(j + 1).contains(m)) by {
                        if roots@.contains(m) {
                            let k = choose|k: int| 0 <= k < roots@.len() && roots@[k] == m;
                            if k < r0.len() {
                                assert(r0[k] == m);
                                assert(r0.contains(m));
                            } else {
                                assert(nb.take(j + 1)[j as int] == m);
                            }
                        }
                        if nb.take(j + 1).contains(m) && m != w {
                            let jj = choose|jj: int| 0 <= jj < j + 1 && #[trigger] nb.take(j + 1)[jj] == m;
                            assert(nb.take(j as int)[jj] == m);
                        }
                        if before.contains(m) || nb.take(j + 1).contains(m) {
                            if m == w {
                                assert(roots@[r0.len() as int] == m);
                            } else {
                                assert(r0.contains(m));
                                let k = choose|k: int| 0 <= k < r0.len() && r0[k] == m;
                                assert(roots@[k] == m);
                            }
                        }
                    }
                }
                j += 1;
            }
            assert(nb.take(nb.len() as int) == nb);
            proof {
                assert forall|m: usize| roots@.contains(m) <==>
                    ((m < prog.modules@.len() && !deps.contains(prog.modules@[m as int].loc.file_id))
                    || exists|t: int| 0 <= t < s + 1 && !deps.contains(#[trigger] prog.scripts@[t].loc.file_id)
                        && prog.scripts@[t].immediate_neighbors@.contains(m)) by {
                    let p = (m < prog.modules@.len() && !deps.contains(prog.modules@[m as int].loc.file_id));
                    let ex_s = exists|t: int| 0 <= t < s && !deps.contains(#[trigger] prog.scripts@[t].loc.file_id)
                        && prog.scripts@[t].immediate_neighbors@.contains(m);
                    let in_this = exists|jj: int| 0 <= jj < script.immediate_neighbors@.len() && script.immediate_neighbors@[jj] == m;
                    assert(before.contains(m) <==> p || ex_s);
                    assert(roots@.contains(m) <==> before.contains(m) || in_this);
                    if in_this {
                        let jj = choose|jj: int| 0 <= jj < script.immediate_neighbors@.len() && script.immediate_neighbors@[jj] == m;
                        assert(prog.scripts@[s as int].immediate_neighbors@.contains(m));
                        assert(!deps.contains(prog.scripts@[s as int].loc.file_id));
                    }
                    if exists|t: int| 0 <= t < s + 1 && !deps.contains(#[trigger] prog.scripts@[t].loc.file_id)
                        && prog.scripts@[t].immediate_neighbors@.contains(m) {
                        let t = choose|t: int| 0 <= t < s + 1 && !deps.contains(#[trigger] prog.scripts@[t].loc.file_id)
                            && prog.scripts@[t].immediate_neighbors@.contains(m);
                        if t == s {
                            let jj = choose|jj: int| 0 <= jj < script.immediate_neighbors@.len() && script.immediate_neighbors@[jj] == m;
                        }
                    }
                }
            }
        } else {
            proof {
                assert forall|m: usize| roots@.contains(m) <==>
                    ((m < prog.modules@.len() && !deps.contains(prog.modules@[m as int].loc.file_id))
                    || exists|t: int| 0 <= t < s + 1 && !deps.contains(#[trigger] prog.scripts@[t].loc.file_id)
                        && prog.scripts@[t].immediate_neighbors@.contains(m)) by {
                }
            }
        }
        s += 1;
    }
    proof {
        assert(roots@.to_set() =~= root_set(*prog, deps));
    }
    roots
}

/// The outcome of closure filtering: which modules and which named-address
/// declarations the compiler gets to see, each in program order.
pub struct Selection {
    pub modules: Vec<usize>,
    pub addresses: Vec<usize>,
}

/// Some kept module has its address declared under the name of declaration `a`.
pub open spec fn address_used(p: ExpandedProgram, kept: Set<usize>, a: int) -> bool {
    exists|m: usize| #[trigger] kept.contains(m) && m < p.modules@.len()
        && p.modules@[m as int].ident.address == Address::Named(p.addresses@[a].name)
}

/// Selects the modules reachable from the targets (files not in `dep_files`),
/// and the named addresses that those modules use.
pub fn select_reachable(prog: &ExpandedProgram, dep_files: &Vec<usize>) -> (r: Selection)
    requires
        prog.wf(),
    ensures
        forall|i: int, j: int| 0 <= i < j < r.modules@.len() ==> r.modules@[i] < r.modules@[j],
        forall|m: usize| r.modules@.contains(m) <==>
            (m < prog.modules@.len() && selected(*prog, dep_files@.to_set()).contains(m)),
        forall|i: int, j: int| 0 <= i < j < r.addresses@.len() ==> r.addresses@[i] < r.addresses@[j],
        forall|a: usize| r.addresses@.contains(a) <==>
            (a < prog.addresses@.len() && address_used(*prog, selected(*prog, dep_files@.to_set()), a as int)),
{
    let ghost kept = selected(*prog, dep_files@.to_set());
    let roots = closure_roots(prog, dep_files);
    let visited = collect_related_modules(prog, &roots);
    let mut modules: Vec<usize> = Vec::new();
    let mut i: usize = 0;
    while i < visited.len()
        invariant
            i <= visited@.len(),
            visited@.len() == prog.modules@.len(),
            forall|m: int| 0 <= m < visited@.len() ==> (visited@[m] <==> kept.contains(m as usize)),
            forall|a: int, b: int| 0 <= a < b < modules@.len() ==> modules@[a] < modules@[b],
            forall|k: int| 0 <= k < modules@.len() ==> modules@[k] < i,
            forall|m: usize| modules@.contains(m) <==> (m < i && kept.contains(m)),
        decreases visited@.len() - i,
    {
        if visited[i] {
            let ghost m0 = modules@;
            modules.push(i);
            proof {
                assert forall|m: usize| modules@.contains(m) <==> (m < i + 1 && kept.contains(m)) by {
                    if m == i { assert(modules@[m0.len() as int] == m); }
                    if modules@.contains(m) {
                        let k = choose|k: int| 0 <= k < modules@.len() && modules@[k] == m;
                        if k < m0.len() { assert(m0[k] == m); }
                    }
                    if m < i && kept.contains(m) {
                        let k = choose|k: int| 0 <= k < m0.len() && m0[k] == m;
                        assert(modules@[k] == m);
                    }
                }
            }
        } else {
            proof {
                assert forall|m: usize| modules@.contains(m) <==> (m < i + 1 && kept.contains(m)) by {
                    if modules@.contains(m) {
                        let k = choose|k: int| 0 <= k < modules@.len() && modules@[k] == m;
                    }
                }
            }
        }
        i += 1;
    }
    let mut addresses: Vec<usize> = Vec::new();
    let mut a: usize = 0;
    while a < prog.addresses.len()
        invariant
            a <= prog.addresses@.len(),
            prog.wf(),
            kept == selected(*prog, dep_files@.to_set()),
            visited@.len() == prog.modules@.len(),
            forall|m: int| 0 <= m < visited@.len() ==> (visited@[m] <==> kept.contains(m as usize)),
            forall|x: int, y: int| 0 <= x < y < addresses@.len() ==> addresses@[x] < addresses@[y],
            forall|k: int| 0 <= k < addresses@.len() ==> addresses@[k] < a,
            forall|x: usize| addresses@.contains(x) <==> (x < a && address_used(*prog, kept, x as int)),
        decreases prog.addresses@.len() - a,
    {
        let name = prog.addresses[a].name;
        let mut used = false;
        let mut m: usize = 0;
        while m < visited.len()
            invariant
                a < prog.addresses@.len(),
                name == prog.addresses@[a as int].name,
                m <= visited@.len(),
                visited@.len() == prog.modules@.len(),
                forall|x: int| 0 <= x < visited@.len() ==> (visited@[x] <==> kept.contains(x as usize)),
                used <==> exists|x: usize| x < m && #[trigger] kept.contains(x)
                    && prog.modules@[x as int].ident.address == Address::Named(name),
            decreases visited@.len() - m,
        {
            if visited[m] && prog.modules[m].ident.address == Address::Named(name) {
                used = true;
            }
            m += 1;
        }
        proof {
            lemma_closure_in_range_sel(prog, dep_files@.to_set());
        }
        let ghost a0 = addresses@;
        if used {
            addresses.push(a);
        }
        proof {
            assert forall|x: usize| addresses@.contains(x) <==> (x < a + 1 && address_used(*prog, kept, x as int)) by {
                if addresses@.contains(x) {
                    let k = choose|k: int| 0 <= k < addresses@.len() && addresses@[k] == x;
                    if k < a0.len() { assert(a0[k] == x); }
                }
                if x < a && address_used(*prog, kept, x as int) {
                    let k = choose|k: int| 0 <= k < a0.len() && a0[k] == x;
                    assert(addresses@[k] == x);
                }
                if x == a && used { assert(addresses@[a0.len() as int] == x); }
            }
        }
        a += 1;
    }
    Selection { modules, addresses }
}

proof fn lemma_closure_in_range_sel(p: &ExpandedProgram, deps: Set<usize>)
    requires
        p.wf(),
    ensures
        forall|m: usize| selected(*p, deps).contains(m) ==> m < p.modules@.len(),
{
    let g = p.graph();
    assert forall|i: int, j: int| 0 <= i < g.len() && 0 <= j < g[i].len() implies #[trigger] g[i][j] < g.len() by {
        assert(g[i] == p.modules@[i].immediate_neighbors@);
    }
    assert forall|m: usize| root_set(*p, deps).contains(m) implies m < g.len() by {
        if !(m < p.modules@.len() && !deps.contains(p.modules@[m as int].loc.file_id)) {
            let s = choose|s: int| 0 <= s < p.scripts@.len() && !deps.contains(#[trigger] p.scripts@[s].loc.file_id)
                && p.scripts@[s].immediate_neighbors@.contains(m);
            let j = choose|j: int| 0 <= j < p.scripts@[s].immediate_neighbors@.len() && p.scripts@[s].immediate_neighbors@[j] == m;
        }
    }
    lemma_closure_in_range(g, root_set(*p, deps));
}

} // verus!
