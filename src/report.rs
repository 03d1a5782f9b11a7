use vstd::prelude::*;

use crate::models::{Route, RouteConflict, Similarity};
use crate::similarity::{calculate_path_similarity, path_similarity};

verus! {

/// One cell of the similarity matrix: an ordered pair of different paths.
#[derive(Debug, Clone)]
pub struct MatrixEntry {
    pub path_a: String,
    pub path_b: String,
    pub similarity: Similarity,
}

/// Everything an analysis run found, for renderers to present.
#[derive(Debug)]
pub struct AnalysisReport {
    pub routes: Vec<Route>,
    pub conflicts: Vec<RouteConflict>,
    pub total_routes: usize,
    pub conflict_count: usize,
    pub similarity_matrix: Vec<MatrixEntry>,
}

/// The paths of `rs`, each once, in order of first appearance.
pub open spec fn distinct_paths(rs: Seq<Route>) -> Seq<Seq<char>>
    decreases rs.len(),
{
    if rs.len() == 0 {
        seq![]
    } else {
        let d = distinct_paths(rs.drop_last());
        if d.contains(rs.last().path@) {
            d
        } else {
            d.push(rs.last().path@)
        }
    }
}

/// The pairs `(ds[p], ds[q])` with `q < end` and `q != p`, in order of `q`.
pub open spec fn matrix_row(ds: Seq<Seq<char>>, p: int, end: int) -> Seq<(Seq<char>, Seq<char>)>
    decreases end,
{
    if end <= 0 {
        seq![]
    } else {
        matrix_row(ds, p, end - 1) + if end - 1 == p {
            Seq::<(Seq<char>, Seq<char>)>::empty()
        } else {
            seq![(ds[p], ds[end - 1])]
        }
    }
}

/// The rows of the first `p` paths of `ds`.
pub open spec fn matrix_pairs(ds: Seq<Seq<char>>, p: int) -> Seq<(Seq<char>, Seq<char>)>
    decreases p,
{
    if p <= 0 {
        seq![]
    } else {
        matrix_pairs(ds, p - 1) + matrix_row(ds, p - 1, ds.len() as int)
    }
}

/// The ordered path pairs that key the entries of a matrix.
pub open spec fn entry_keys(m: Seq<MatrixEntry>) -> Seq<(Seq<char>, Seq<char>)> {
    m.map_values(|e: MatrixEntry| (e.path_a@, e.path_b@))
}

/// The ordered pairs of different paths among `rs`, each once.
pub open spec fn matrix_keys(rs: Seq<Route>) -> Seq<(Seq<char>, Seq<char>)> {
    let ds = distinct_paths(rs);
    matrix_pairs(ds, ds.len() as int)
}

pub open spec fn string_views(v: Seq<String>) -> Seq<Seq<char>> {
    v.map_values(|s: String| s@)
}

fn collect_distinct_paths(routes: &Vec<Route>) -> (r: Vec<String>)
    ensures
        string_views(r@) == distinct_paths(routes@),
{
    let mut d: Vec<String> = Vec::new();
    let mut i: usize = 0;
    while i < routes.len()
        invariant
            i <= routes@.len(),
            string_views(d@) == distinct_paths(routes@.take(i as int)),
        decreases routes@.len() - i,
    {
        proof {
            assert(routes@.take(i + 1).drop_last() =~= routes@.take(i as int));
        }
        let mut seen = false;
        let mut k: usize = 0;
        while k < d.len()
            invariant
                i < routes@.len(),
                k <= d@.len(),
                seen == (exists|m: int| 0 <= m < k && d@[m]@ == routes@[i as int].path@),
            decreases d@.len() - k,
        {
            if d[k] == routes[i].path {
                seen = true;
            }
            k = k + 1;
        }
        proof {
            if seen {
                let m = choose|m: int| 0 <= m < k && d@[m]@ == routes@[i as int].path@;
                assert(string_views(d@)[m] == routes@[i as int].path@);
            } else {
                assert forall|m: int| 0 <= m < string_views(d@).len() implies string_views(d@)[m]
                    != routes@[i as int].path@ by {
                    assert(string_views(d@)[m] == d@[m]@);
                }
            }
        }
        if !seen {
            let ghost before = d@;
            d.push(routes[i].path.clone());
            proof {
                assert(string_views(d@) =~= string_views(before).push(routes@[i as int].path@));
            }
        }
        i = i + 1;
    }
    proof {
        assert(routes@.take(routes@.len() as int) =~= routes@);
    }
    d
}

fn similarity_matrix(routes: &Vec<Route>) -> (m: Vec<MatrixEntry>)
    ensures
        entry_keys(m@) == matrix_keys(routes@),
        forall|k: int|
            0 <= k < m@.len() ==> (#[trigger] m@[k]).similarity == path_similarity(
                m@[k].path_a@,
                m@[k].path_b@,
            ),
{
    let d = collect_distinct_paths(routes);
    let ghost ds = string_views(d@);
    let n = d.len();
    let mut m: Vec<MatrixEntry> = Vec::new();
    let mut p: usize = 0;
    while p < n
        invariant
            n == d@.len(),
            ds == string_views(d@),
            p <= n,
            entry_keys(m@) == matrix_pairs(ds, p as int),
            forall|k: int|
                0 <= k < m@.len() ==> (#[trigger] m@[k]).similarity == path_similarity(
                    m@[k].path_a@,
                    m@[k].path_b@,
                ),
        decreases n - p,
    {
        let mut q: usize = 0;
        while q < n
            invariant
                n == d@.len(),
                ds == string_views(d@),
                p < n,
                q <= n,
                entry_keys(m@) == matrix_pairs(ds, p as int) + matrix_row(ds, p as int, q as int),
                forall|k: int|
                    0 <= k < m@.len() ==> (#[trigger] m@[k]).similarity == path_similarity(
                        m@[k].path_a@,
                        m@[k].path_b@,
                    ),
            decreases n - q,
        {
            let ghost before = m@;
            if q != p {
                let similarity = calculate_path_similarity(d[p].as_str(), d[q].as_str());
                let entry = MatrixEntry { path_a: d[p].clone(), path_b: d[q].clone(), similarity };
                m.push(entry);
                proof {
                    assert(ds[p as int] == d@[p as int]@);
                    assert(ds[q as int] == d@[q as int]@);
                    assert(entry_keys(m@) =~= entry_keys(before).push((ds[p as int], ds[q as int])));
                }
            }
            assert(entry_keys(m@) =~= matrix_pairs(ds, p as int) + matrix_row(ds, p as int, q + 1));
            q = q + 1;
        }
        p = p + 1;
    }
    m
}

/// Gathers the routes and conflicts of a run, their counts, and the
/// similarity of every ordered pair of different route paths.
pub fn create_analysis_report(routes: Vec<Route>, conflicts: Vec<RouteConflict>) -> (r: AnalysisReport)
    ensures
        r.routes@ == routes@,
        r.conflicts@ == conflicts@,
        r.total_routes == routes@.len(),
        r.conflict_count == conflicts@.len(),
        entry_keys(r.similarity_matrix@) == matrix_keys(routes@),
        forall|k: int|
            0 <= k < r.similarity_matrix@.len() ==> (#[trigger] r.similarity_matrix@[k]).similarity
                == path_similarity(
                r.similarity_matrix@[k].path_a@,
                r.similarity_matrix@[k].path_b@,
            ),
{
    let similarity_matrix = similarity_matrix(&routes);
    let total_routes = routes.len();
    let conflict_count = conflicts.len();
    AnalysisReport { routes, conflicts, total_routes, conflict_count, similarity_matrix }
}

proof fn lemma_distinct_paths(rs: Seq<Route>)
    ensures
        distinct_paths(rs).no_duplicates(),
        forall|i: int| 0 <= i < rs.len() ==> distinct_paths(rs).contains(#[trigger] rs[i].path@),
        forall|k: int|
            0 <= k < distinct_paths(rs).len() ==> exists|i: int|
                0 <= i < rs.len() && rs[i].path@ == #[trigger] distinct_paths(rs)[k],
    decreases rs.len(),
{
    if rs.len() > 0 {
        let prev = rs.drop_last();
        lemma_distinct_paths(prev);
        let d = distinct_paths(prev);
        let x = rs.last().path@;
        let dd = distinct_paths(rs);
        assert forall|i: int| 0 <= i < rs.len() implies dd.contains(#[trigger] rs[i].path@) by {
            if i < rs.len() - 1 {
                assert(prev[i] == rs[i]);
                assert(d.contains(prev[i].path@));
                let k = choose|k: int| 0 <= k < d.len() && d[k] == prev[i].path@;
                if !d.contains(x) {
                    assert(dd[k] == d[k]);
                }
            } else if !d.contains(x) {
                assert(dd[d.len() as int] == x);
            }
        }
        assert forall|k: int| 0 <= k < dd.len() implies exists|i: int|
            0 <= i < rs.len() && rs[i].path@ == #[trigger] dd[k] by {
            if k < d.len() {
                assert(dd[k] == d[k]);
                let i = choose|i: int| 0 <= i < prev.len() && prev[i].path@ == d[k];
                assert(rs[i] == prev[i]);
            } else {
                assert(rs[rs.len() - 1].path@ == dd[k]);
            }
        }
    }
}

/// `(a, b)` is one of the pairs `ps`.
pub open spec fn has_pair(ps: Seq<(Seq<char>, Seq<char>)>, a: Seq<char>, b: Seq<char>) -> bool {
    exists|k: int| 0 <= k < ps.len() && ps[k] == (a, b)
}

proof fn lemma_row(ds: Seq<Seq<char>>, p: int, end: int)
    requires
        ds.no_duplicates(),
        0 <= p < ds.len(),
        end <= ds.len(),
    ensures
        matrix_row(ds, p, end).no_duplicates(),
        forall|k: int|
            0 <= k < matrix_row(ds, p, end).len() ==> exists|q: int|
                0 <= q < end && q != p && #[trigger] matrix_row(ds, p, end)[k] == (ds[p], ds[q]),
        forall|q: int| 0 <= q < end && q != p ==> has_pair(matrix_row(ds, p, end), ds[p], #[trigger] ds[q]),
    decreases end,
{
    if end > 0 {
        lemma_row(ds, p, end - 1);
        let prev = matrix_row(ds, p, end - 1);
        let row = matrix_row(ds, p, end);
        if end - 1 != p {
            let e = (ds[p], ds[end - 1]);
            assert(row == prev.push(e));
            assert forall|k: int| 0 <= k < prev.len() implies prev[k] != e by {
                let q = choose|q: int| 0 <= q < end - 1 && q != p && prev[k] == (ds[p], #[trigger] ds[q]);
            }
            assert(row.no_duplicates()) by {
                assert forall|i: int, j: int| 0 <= i < row.len() && 0 <= j < row.len() && i != j
                    implies row[i] != row[j] by {
                    if i < prev.len() && j < prev.len() {
                        assert(row[i] == prev[i] && row[j] == prev[j]);
                    } else if i < prev.len() {
                        assert(row[i] == prev[i]);
                    } else if j < prev.len() {
                        assert(row[j] == prev[j]);
                    }
                }
            }
            assert forall|k: int| 0 <= k < row.len() implies exists|q: int|
                0 <= q < end && q != p && #[trigger] row[k] == (ds[p], ds[q]) by {
                if k < prev.len() {
                    assert(row[k] == prev[k]);
                } else {
                    assert(row[k] == (ds[p], ds[end - 1]));
                }
            }
            assert forall|q: int| 0 <= q < end && q != p implies has_pair(row, ds[p], #[trigger] ds[q]) by {
                if q < end - 1 {
                    let k = choose|k: int| 0 <= k < prev.len() && prev[k] == (ds[p], ds[q]);
                    assert(row[k] == prev[k]);
                } else {
                    assert(row[prev.len() as int] == e);
                }
            }
        } else {
            assert(row =~= prev);
        }
    }
}

proof fn lemma_pairs(ds: Seq<Seq<char>>, p: int)
    requires
        ds.no_duplicates(),
        0 <= p <= ds.len(),
    ensures
        matrix_pairs(ds, p).no_duplicates(),
        forall|k: int|
            0 <= k < matrix_pairs(ds, p).len() ==> exists|i: int, q: int|
                0 <= i < p && 0 <= q < ds.len() && q != i && #[trigger] matrix_pairs(ds, p)[k] == (
                    ds[i],
                    ds[q],
                ),
        forall|i: int, q: int|
            0 <= i < p && 0 <= q < ds.len() && q != i ==> has_pair(
                matrix_pairs(ds, p),
                #[trigger] ds[i],
                #[trigger] ds[q],
            ),
    decreases p,
{
    if p > 0 {
        lemma_pairs(ds, p - 1);
        lemma_row(ds, p - 1, ds.len() as int);
        let prev = matrix_pairs(ds, p - 1);
        let row = matrix_row(ds, p - 1, ds.len() as int);
        let all = matrix_pairs(ds, p);
        assert(all == prev + row);
        assert forall|a: int, b: int| 0 <= a < prev.len() && 0 <= b < row.len() implies prev[a] != row[b] by {
            let (i, q) = choose|i: int, q: int|
                0 <= i < p - 1 && 0 <= q < ds.len() && q != i && prev[a] == (#[trigger] ds[i], #[trigger] ds[q]);
            let q2 = choose|q2: int| 0 <= q2 < ds.len() && q2 != p - 1 && row[b] == (ds[p - 1], #[trigger] ds[q2]);
        }
        assert(all.no_duplicates()) by {
            assert forall|i: int, j: int| 0 <= i < all.len() && 0 <= j < all.len() && i != j
                implies all[i] != all[j] by {
                if i < prev.len() && j < prev.len() {
                    assert(all[i] == prev[i] && all[j] == prev[j]);
                } else if i >= prev.len() && j >= prev.len() {
                    assert(all[i] == row[i - prev.len()] && all[j] == row[j - prev.len()]);
                } else if i < prev.len() {
                    assert(all[i] == prev[i] && all[j] == row[j - prev.len()]);
                } else {
                    assert(all[j] == prev[j] && all[i] == row[i - prev.len()]);
                }
            }
        }
        assert forall|k: int| 0 <= k < all.len() implies exists|i: int, q: int|
            0 <= i < p && 0 <= q < ds.len() && q != i && #[trigger] all[k] == (ds[i], ds[q]) by {
            if k < prev.len() {
                assert(all[k] == prev[k]);
            } else {
                assert(all[k] == row[k - prev.len()]);
                let q = choose|q: int|
                    0 <= q < ds.len() && q != p - 1 && row[k - prev.len()] == (ds[p - 1], #[trigger] ds[q]);
                assert(all[k] == (ds[p - 1], ds[q]));
            }
        }
        assert forall|i: int, q: int| 0 <= i < p && 0 <= q < ds.len() && q != i implies has_pair(
            all,
            #[trigger] ds[i],
            #[trigger] ds[q],
        ) by {
            if i < p - 1 {
                let k = choose|k: int| 0 <= k < prev.len() && prev[k] == (ds[i], ds[q]);
                assert(all[k] == prev[k]);
            } else {
                assert(has_pair(row, ds[p - 1], ds[q]));
                let k = choose|k: int| 0 <= k < row.len() && row[k] == (ds[p - 1], ds[q]);
                assert(all[prev.len() + k] == row[k]);
            }
        }
    }
}

/// The keys of the similarity matrix are the ordered pairs of different
/// route paths: each such pair is a key, each key is such a pair, and no key
/// comes twice.
pub proof fn matrix_keys_are_path_pairs(routes: Seq<Route>)
    ensures
        matrix_keys(routes).no_duplicates(),
        forall|i: int, j: int|
            0 <= i < routes.len() && 0 <= j < routes.len() && routes[i].path@ != routes[j].path@
                ==> has_pair(matrix_keys(routes), #[trigger] routes[i].path@, #[trigger] routes[j].path@),
        forall|k: int|
            0 <= k < matrix_keys(routes).len() ==> (#[trigger] matrix_keys(routes)[k]).0 != matrix_keys(
                routes,
            )[k].1 && (exists|i: int|
                0 <= i < routes.len() && routes[i].path@ == matrix_keys(routes)[k].0) && (exists|j: int|
                0 <= j < routes.len() && routes[j].path@ == matrix_keys(routes)[k].1),
{
    let ds = distinct_paths(routes);
    lemma_distinct_paths(routes);
    lemma_pairs(ds, ds.len() as int);
    assert forall|i: int, j: int|
        0 <= i < routes.len() && 0 <= j < routes.len() && routes[i].path@ != routes[j].path@
        implies has_pair(matrix_keys(routes), #[trigger] routes[i].path@, #[trigger] routes[j].path@) by {
        assert(ds.contains(routes[i].path@));
        assert(ds.contains(routes[j].path@));
        let a = choose|a: int| 0 <= a < ds.len() && ds[a] == routes[i].path@;
        let b = choose|b: int| 0 <= b < ds.len() && ds[b] == routes[j].path@;
        assert(has_pair(matrix_pairs(ds, ds.len() as int), ds[a], ds[b]));
    }
    assert forall|k: int| 0 <= k < matrix_keys(routes).len() implies (#[trigger] matrix_keys(routes)[k]).0
        != matrix_keys(routes)[k].1 && (exists|i: int|
        0 <= i < routes.len() && routes[i].path@ == matrix_keys(routes)[k].0) && (exists|j: int|
        0 <= j < routes.len() && routes[j].path@ == matrix_keys(routes)[k].1) by {
        let (a, b) = choose|a: int, b: int|
            0 <= a < ds.len() && 0 <= b < ds.len() && b != a && matrix_keys(routes)[k] == (#[trigger] ds[a], #[trigger] ds[b]);
        assert(ds[a] != ds[b]);
        assert(exists|i: int| 0 <= i < routes.len() && routes[i].path@ == ds[a]);
        assert(exists|j: int| 0 <= j < routes.len() && routes[j].path@ == ds[b]);
    }
}

} // verus!
