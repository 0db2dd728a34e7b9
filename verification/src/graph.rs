use vstd::prelude::*;

verus! {

/// Whether `(u, v)` is an edge of the dependency graph.
pub open spec fn has_edge(edges: Seq<(usize, usize)>, u: int, v: int) -> bool {
    exists|i: int| 0 <= i < edges.len() && edges[i].0 == u && edges[i].1 == v
}

/// Whether a path of at most `fuel + 1` edges leads from `u` to `v`.
pub open spec fn reaches(edges: Seq<(usize, usize)>, u: int, v: int, fuel: nat) -> bool
    decreases fuel,
{
    has_edge(edges, u, v) || (fuel > 0 && exists|w: int|
        0 <= w && #[trigger] has_edge(edges, u, w) && reaches(edges, w, v, (fuel - 1) as nat))
}

/// Whether the edge at `i` closes a cycle: its head reaches back to
/// its tail along at most `edges.len()` further edges.
pub open spec fn edge_on_cycle(edges: Seq<(usize, usize)>, i: int) -> bool {
    edges[i].0 == edges[i].1 || reaches(
        edges,
        edges[i].1 as int,
        edges[i].0 as int,
        edges.len(),
    )
}

/// The indices of the edges that close a cycle, in edge order.
pub open spec fn cycle_edges_upto(edges: Seq<(usize, usize)>, n: int) -> Seq<int>
    decreases n,
{
    if n <= 0 || n > edges.len() {
        Seq::empty()
    } else if edge_on_cycle(edges, n - 1) {
        cycle_edges_upto(edges, n - 1).push(n - 1)
    } else {
        cycle_edges_upto(edges, n - 1)
    }
}

/// Exec check matching `reaches`: a depth-first search bounded by the
/// remaining fuel.
#[verifier::loop_isolation(false)]
pub fn reaches_exec(edges: &Vec<(usize, usize)>, u: usize, v: usize, fuel: usize) -> (r: bool)
    ensures
        r == reaches(edges@, u as int, v as int, fuel as nat),
    decreases fuel,
{
    let n = edges.len();
    for i in 0..n
        invariant
            forall|j: int| 0 <= j < i ==> !(edges@[j].0 == u as int && edges@[j].1 == v as int),
    {
        if edges[i].0 == u && edges[i].1 == v {
            proof {
                assert(has_edge(edges@, u as int, v as int));
            }
            return true;
        }
    }
    proof {
        assert(!has_edge(edges@, u as int, v as int));
    }
    if fuel == 0 {
        return false;
    }
    let mut found = false;
    for i in 0..n
        invariant
            found == (exists|j: int|
                0 <= j < i && #[trigger] edges@[j].0 == u as int && reaches(
                    edges@,
                    edges@[j].1 as int,
                    v as int,
                    (fuel - 1) as nat,
                )),
    {
        if !found && edges[i].0 == u {
            let step = reaches_exec(edges, edges[i].1, v, fuel - 1);
            if step {
                found = true;
            }
        }
    }
    proof {
        if found {
            let j = choose|j: int|
                0 <= j < n && #[trigger] edges@[j].0 == u as int && reaches(
                    edges@,
                    edges@[j].1 as int,
                    v as int,
                    (fuel - 1) as nat,
                );
            assert(has_edge(edges@, u as int, edges@[j].1 as int));
        }
        if !found {
            assert forall|w: int|
                0 <= w && #[trigger] has_edge(edges@, u as int, w) implies !reaches(
                edges@,
                w,
                v as int,
                (fuel - 1) as nat,
            ) by {
                let j = choose|j: int|
                    0 <= j < edges@.len() && edges@[j].0 == u as int && edges@[j].1 == w;
                assert(!(exists|jj: int|
                    0 <= jj < n && #[trigger] edges@[jj].0 == u as int && reaches(
                        edges@,
                        edges@[jj].1 as int,
                        v as int,
                        (fuel - 1) as nat,
                    )));
            }
        }
    }
    found
}

/// Finds every edge that closes a cycle in the dependency graph:
/// exactly those whose head reaches back to their tail.
#[verifier::loop_isolation(false)]
pub fn find_cycle_edges(edges: &Vec<(usize, usize)>) -> (r: Vec<usize>)
    ensures
        r@.map_values(|x: usize| x as int) == cycle_edges_upto(edges@, edges@.len() as int),
{
    let mut out: Vec<usize> = Vec::new();
    let n = edges.len();
    for i in 0..n
        invariant
            out@.map_values(|x: usize| x as int) == cycle_edges_upto(edges@, i as int),
    {
        let e = edges[i];
        let on_cycle = if e.0 == e.1 {
            true
        } else {
            reaches_exec(edges, e.1, e.0, n)
        };
        proof {
            assert(on_cycle == edge_on_cycle(edges@, i as int));
        }
        if on_cycle {
            out.push(i);
        }
        proof {
            assert(out@.map_values(|x: usize| x as int) =~= cycle_edges_upto(
                edges@,
                i + 1 as int,
            ));
        }
    }
    out
}

} // verus!
