use vstd::prelude::*;

use crate::cli::AnalysisConfig;
use crate::models::{ConflictKind, Route, RouteConflict, Similarity};
use crate::similarity::{calculate_path_similarity, path_similarity};

verus! {

/// Splitting `p` at each `/`: the segments ended so far, and the one under
/// way.
pub open spec fn split_segments(p: Seq<char>) -> (Seq<Seq<char>>, Seq<char>)
    decreases p.len(),
{
    if p.len() == 0 {
        (seq![], seq![])
    } else {
        let (done, cur) = split_segments(p.drop_last());
        if p.last() == '/' {
            (done.push(cur), seq![])
        } else {
            (done, cur.push(p.last()))
        }
    }
}

/// The segments of a path split at `/`, empty ones included.
pub open spec fn segments(p: Seq<char>) -> Seq<Seq<char>> {
    let (done, cur) = split_segments(p);
    done.push(cur)
}

pub open spec fn is_parameter(seg: Seq<char>) -> bool {
    seg.len() > 0 && seg[0] == ':'
}

/// At some aligned position a segment of either side is a parameter and the
/// two segments differ.
pub open spec fn parameter_clash(s1: Seq<Seq<char>>, s2: Seq<Seq<char>>) -> bool {
    exists|k: int|
        0 <= k < s1.len() && k < s2.len() && (is_parameter(s1[k]) || is_parameter(s2[k]))
            && s1[k] != s2[k]
}

/// The kind of conflict between two routes, given the similarity of their
/// paths and a threshold in basis points.
pub open spec fn pair_kind(r1: Route, r2: Route, sim: Similarity, threshold_bp: u32) -> Option<ConflictKind> {
    if r1.method@ != r2.method@ {
        None
    } else if r1.path@ == r2.path@ {
        Some(ConflictKind::ExactMatch)
    } else if segments(r1.path@).len() == segments(r2.path@).len() && parameter_clash(
        segments(r1.path@),
        segments(r2.path@),
    ) && sim.spec_exceeds(threshold_bp) {
        Some(ConflictKind::ParameterConflict)
    } else {
        None
    }
}

/// The conflict reported for the pair `(r1, r2)`, if any.
pub open spec fn conflict_for(r1: Route, r2: Route, threshold_bp: u32) -> Option<RouteConflict> {
    let sim = path_similarity(r1.path@, r2.path@);
    match pair_kind(r1, r2, sim, threshold_bp) {
        Some(ConflictKind::ExactMatch) => Some(
            RouteConflict {
                route1: r1,
                route2: r2,
                similarity: Similarity { matched: 1, total: 1 },
                conflict_type: ConflictKind::ExactMatch,
            },
        ),
        Some(ConflictKind::ParameterConflict) => Some(
            RouteConflict {
                route1: r1,
                route2: r2,
                similarity: sim,
                conflict_type: ConflictKind::ParameterConflict,
            },
        ),
        None => None,
    }
}

pub open spec fn option_seq<T>(o: Option<T>) -> Seq<T> {
    match o {
        Some(x) => seq![x],
        None => seq![],
    }
}

/// The conflicts of `rs[i]` with `rs[k]` for `i < k < j`, in order of `k`.
pub open spec fn row_conflicts(rs: Seq<Route>, i: int, j: int, threshold_bp: u32) -> Seq<RouteConflict>
    decreases j - i,
{
    if j <= i + 1 {
        seq![]
    } else {
        row_conflicts(rs, i, j - 1, threshold_bp) + option_seq(
            conflict_for(rs[i], rs[j - 1], threshold_bp),
        )
    }
}

/// The conflicts of the pairs whose first route stands before position `i`.
pub open spec fn conflicts_upto(rs: Seq<Route>, i: int, threshold_bp: u32) -> Seq<RouteConflict>
    decreases i,
{
    if i <= 0 {
        seq![]
    } else {
        conflicts_upto(rs, i - 1, threshold_bp) + row_conflicts(rs, i - 1, rs.len() as int, threshold_bp)
    }
}

/// The conflicts among `rs`, one for each conflicting pair `i < j`, ordered
/// by `i` and then `j`.
pub open spec fn route_conflicts(rs: Seq<Route>, threshold_bp: u32) -> Seq<RouteConflict> {
    conflicts_upto(rs, rs.len() as int, threshold_bp)
}

pub open spec fn seq_views(v: Seq<Vec<char>>) -> Seq<Seq<char>> {
    v.map_values(|x: Vec<char>| x@)
}

fn path_segments(p: &str) -> (r: Vec<Vec<char>>)
    ensures
        seq_views(r@) == segments(p@),
{
    let mut done: Vec<Vec<char>> = Vec::new();
    let mut cur: Vec<char> = Vec::new();
    for c in it: p.chars()
        invariant
            it.seq() == p@,
            split_segments(p@.take(it.index() as int)) == (seq_views(done@), cur@),
    {
        proof {
            assert(p@.take(it.index() + 1).drop_last() =~= p@.take(it.index() as int));
        }
        if c == '/' {
            let ghost before = done@;
            done.push(cur);
            proof {
                assert(seq_views(done@) =~= seq_views(before).push(cur@));
            }
            cur = Vec::new();
        } else {
            cur.push(c);
        }
    }
    proof {
        assert(p@.take(p@.len() as int) =~= p@);
    }
    let ghost before = done@;
    done.push(cur);
    proof {
        assert(seq_views(done@) =~= seq_views(before).push(cur@));
    }
    done
}

fn same_chars(a: &Vec<char>, b: &Vec<char>) -> (r: bool)
    ensures
        r == (a@ == b@),
{
    if a.len() != b.len() {
        return false;
    }
    let mut i: usize = 0;
    while i < a.len()
        invariant
            a@.len() == b@.len(),
            i <= a@.len(),
            forall|k: int| 0 <= k < i ==> a@[k] == b@[k],
        decreases a@.len() - i,
    {
        if a[i] != b[i] {
            return false;
        }
        i = i + 1;
    }
    assert(a@ =~= b@);
    true
}

fn starts_with_colon(seg: &Vec<char>) -> (r: bool)
    ensures
        r == is_parameter(seg@),
{
    seg.len() > 0 && seg[0] == ':'
}

fn has_parameter_clash(s1: &Vec<Vec<char>>, s2: &Vec<Vec<char>>) -> (r: bool)
    ensures
        r == parameter_clash(seq_views(s1@), seq_views(s2@)),
{
    let mut k: usize = 0;
    while k < s1.len() && k < s2.len()
        invariant
            forall|m: int|
                0 <= m < k ==> !((is_parameter(s1@[m]@) || is_parameter(s2@[m]@)) && s1@[m]@
                    != s2@[m]@),
        decreases s1@.len() - k,
    {
        if (starts_with_colon(&s1[k]) || starts_with_colon(&s2[k])) && !same_chars(&s1[k], &s2[k]) {
            assert(seq_views(s1@)[k as int] == s1@[k as int]@);
            assert(seq_views(s2@)[k as int] == s2@[k as int]@);
            return true;
        }
        k = k + 1;
    }
    proof {
        assert forall|m: int|
            0 <= m < seq_views(s1@).len() && m < seq_views(s2@).len() implies !((is_parameter(
                seq_views(s1@)[m],
            ) || is_parameter(seq_views(s2@)[m])) && seq_views(s1@)[m] != seq_views(s2@)[m]) by {
            assert(seq_views(s1@)[m] == s1@[m]@);
            assert(seq_views(s2@)[m] == s2@[m]@);
        }
    }
    false
}

/// Classifies the pair `(route1, route2)`, given the similarity of their
/// paths and a threshold in basis points: an exact match for equal methods
/// and paths; a parameter conflict for equal methods, equally many segments,
/// a parameter segment where they differ, and a similarity above the
/// threshold; otherwise none.
pub fn classify_pair(route1: &Route, route2: &Route, similarity: Similarity, threshold_bp: u32) -> (r: Option<ConflictKind>)
    ensures
        r == pair_kind(*route1, *route2, similarity, threshold_bp),
{
    if !(route1.method == route2.method) {
        return None;
    }
    if route1.path == route2.path {
        return Some(ConflictKind::ExactMatch);
    }
    let s1 = path_segments(route1.path.as_str());
    let s2 = path_segments(route2.path.as_str());
    if s1.len() == s2.len() && has_parameter_clash(&s1, &s2) && similarity.exceeds(threshold_bp) {
        Some(ConflictKind::ParameterConflict)
    } else {
        None
    }
}

fn create_conflict(route1: Route, route2: Route, similarity: Similarity, conflict_type: ConflictKind) -> (r: RouteConflict)
    ensures
        r == (RouteConflict { route1, route2, similarity, conflict_type }),
{
    RouteConflict { route1, route2, similarity, conflict_type }
}

fn conflict_between(route1: &Route, route2: &Route, threshold_bp: u32) -> (r: Option<RouteConflict>)
    ensures
        r == conflict_for(*route1, *route2, threshold_bp),
{
    if !(route1.method == route2.method) {
        return None;
    }
    let similarity = calculate_path_similarity(route1.path.as_str(), route2.path.as_str());
    match classify_pair(route1, route2, similarity, threshold_bp) {
        Some(ConflictKind::ExactMatch) => Some(
            create_conflict(route1.duplicate(), route2.duplicate(), Similarity::full(), ConflictKind::ExactMatch),
        ),
        Some(ConflictKind::ParameterConflict) => Some(
            create_conflict(route1.duplicate(), route2.duplicate(), similarity, ConflictKind::ParameterConflict),
        ),
        None => None,
    }
}

/// Every conflicting pair among `routes`, compared in order: for each `i`,
/// the routes after it.
pub fn check_route_conflicts(routes: &Vec<Route>, config: &AnalysisConfig) -> (r: Vec<RouteConflict>)
    ensures
        r@ == route_conflicts(routes@, config.similarity_threshold_bp),
{
    let t = config.similarity_threshold_bp;
    let n = routes.len();
    let mut out: Vec<RouteConflict> = Vec::new();
    let mut i: usize = 0;
    while i < n
        invariant
            n == routes@.len(),
            i <= n,
            out@ == conflicts_upto(routes@, i as int, t),
        decreases n - i,
    {
        let mut j: usize = i + 1;
        while j < n
            invariant
                n == routes@.len(),
                i < n,
                i + 1 <= j <= n,
                out@ == conflicts_upto(routes@, i as int, t) + row_conflicts(routes@, i as int, j as int, t),
            decreases n - j,
        {
            let ghost before = out@;
            match conflict_between(&routes[i], &routes[j], t) {
                Some(c) => {
                    out.push(c);
                },
                None => {},
            }
            assert(out@ =~= conflicts_upto(routes@, i as int, t) + row_conflicts(routes@, i as int, j + 1, t));
            j = j + 1;
        }
        i = i + 1;
    }
    out
}

/// What holds of every reported conflict: both routes have the same method;
/// an exact match joins equal paths at 100 percent; a parameter conflict
/// joins paths with equally many segments, carrying their similarity, which
/// exceeds the threshold.
pub open spec fn conflict_well_formed(c: RouteConflict, threshold_bp: u32) -> bool {
    &&& c.route1.method@ == c.route2.method@
    &&& c.conflict_type == ConflictKind::ExactMatch ==> c.route1.path@ == c.route2.path@
        && c.similarity.is_full()
    &&& c.conflict_type == ConflictKind::ParameterConflict ==> segments(c.route1.path@).len()
        == segments(c.route2.path@).len() && c.similarity == path_similarity(
        c.route1.path@,
        c.route2.path@,
    ) && c.similarity.spec_exceeds(threshold_bp)
}

proof fn lemma_row_well_formed(rs: Seq<Route>, i: int, j: int, threshold_bp: u32)
    requires
        0 <= i,
        j <= rs.len(),
    ensures
        forall|k: int|
            0 <= k < row_conflicts(rs, i, j, threshold_bp).len() ==> conflict_well_formed(
                #[trigger] row_conflicts(rs, i, j, threshold_bp)[k],
                threshold_bp,
            ),
    decreases j - i,
{
    if j > i + 1 {
        lemma_row_well_formed(rs, i, j - 1, threshold_bp);
        let prev = row_conflicts(rs, i, j - 1, threshold_bp);
        let last = option_seq(conflict_for(rs[i], rs[j - 1], threshold_bp));
        assert forall|k: int| 0 <= k < last.len() implies conflict_well_formed(
            #[trigger] last[k],
            threshold_bp,
        ) by {}
        assert forall|k: int|
            0 <= k < row_conflicts(rs, i, j, threshold_bp).len() implies conflict_well_formed(
            #[trigger] row_conflicts(rs, i, j, threshold_bp)[k],
            threshold_bp,
        ) by {
            if k >= prev.len() {
                assert(row_conflicts(rs, i, j, threshold_bp)[k] == last[k - prev.len()]);
            } else {
                assert(row_conflicts(rs, i, j, threshold_bp)[k] == prev[k]);
            }
        }
    }
}

proof fn lemma_upto_well_formed(rs: Seq<Route>, i: int, threshold_bp: u32)
    requires
        i <= rs.len(),
    ensures
        forall|k: int|
            0 <= k < conflicts_upto(rs, i, threshold_bp).len() ==> conflict_well_formed(
                #[trigger] conflicts_upto(rs, i, threshold_bp)[k],
                threshold_bp,
            ),
    decreases i,
{
    if i > 0 {
        lemma_upto_well_formed(rs, i - 1, threshold_bp);
        lemma_row_well_formed(rs, i - 1, rs.len() as int, threshold_bp);
        let prev = conflicts_upto(rs, i - 1, threshold_bp);
        let row = row_conflicts(rs, i - 1, rs.len() as int, threshold_bp);
        assert forall|k: int|
            0 <= k < conflicts_upto(rs, i, threshold_bp).len() implies conflict_well_formed(
            #[trigger] conflicts_upto(rs, i, threshold_bp)[k],
            threshold_bp,
        ) by {
            if k >= prev.len() {
                assert(conflicts_upto(rs, i, threshold_bp)[k] == row[k - prev.len()]);
            } else {
                assert(conflicts_upto(rs, i, threshold_bp)[k] == prev[k]);
            }
        }
    }
}

/// Every conflict reported among any list of routes is well formed: equal
/// methods, and the path and similarity facts of its kind.
pub proof fn reported_conflicts_well_formed(routes: Seq<Route>, threshold_bp: u32)
    ensures
        forall|k: int|
            0 <= k < route_conflicts(routes, threshold_bp).len() ==> conflict_well_formed(
                #[trigger] route_conflicts(routes, threshold_bp)[k],
                threshold_bp,
            ),
{
    lemma_upto_well_formed(routes, routes.len() as int, threshold_bp);
}

/// The conflicts of the pairs that come before `(i, j)`: every pair whose
/// first route stands before `i`, and the pairs `(i, k)` with `k < j`.
pub open spec fn conflicts_before(rs: Seq<Route>, i: int, j: int, threshold_bp: u32) -> Seq<RouteConflict> {
    conflicts_upto(rs, i, threshold_bp) + row_conflicts(rs, i, j, threshold_bp)
}

/// `pre` is a prefix of `whole`.
pub open spec fn is_prefix(pre: Seq<RouteConflict>, whole: Seq<RouteConflict>) -> bool {
    pre.len() <= whole.len() && whole.take(pre.len() as int) == pre
}

proof fn lemma_prefix_trans(a: Seq<RouteConflict>, b: Seq<RouteConflict>, c: Seq<RouteConflict>)
    requires
        is_prefix(a, b),
        is_prefix(b, c),
    ensures
        is_prefix(a, c),
{
    assert(c.take(a.len() as int) =~= b.take(a.len() as int));
}

proof fn lemma_row_prefix(rs: Seq<Route>, i: int, j: int, end: int, threshold_bp: u32)
    requires
        j <= end,
    ensures
        is_prefix(row_conflicts(rs, i, j, threshold_bp), row_conflicts(rs, i, end, threshold_bp)),
    decreases end - j,
{
    if j < end {
        lemma_row_prefix(rs, i, j, end - 1, threshold_bp);
        if end > i + 1 {
            let r = row_conflicts(rs, i, end - 1, threshold_bp);
            let whole = row_conflicts(rs, i, end, threshold_bp);
            assert(whole.take(r.len() as int) =~= r);
            lemma_prefix_trans(row_conflicts(rs, i, j, threshold_bp), r, whole);
        } else {
            assert(row_conflicts(rs, i, j, threshold_bp) =~= Seq::<RouteConflict>::empty());
        }
    } else {
        assert(row_conflicts(rs, i, end, threshold_bp).take(
            row_conflicts(rs, i, end, threshold_bp).len() as int,
        ) =~= row_conflicts(rs, i, end, threshold_bp));
    }
}

proof fn lemma_upto_prefix(rs: Seq<Route>, i: int, n: int, threshold_bp: u32)
    requires
        0 <= i <= n,
    ensures
        is_prefix(conflicts_upto(rs, i, threshold_bp), conflicts_upto(rs, n, threshold_bp)),
    decreases n - i,
{
    if i < n {
        lemma_upto_prefix(rs, i, n - 1, threshold_bp);
        let u = conflicts_upto(rs, n - 1, threshold_bp);
        let whole = conflicts_upto(rs, n, threshold_bp);
        assert(whole.take(u.len() as int) =~= u);
        lemma_prefix_trans(conflicts_upto(rs, i, threshold_bp), u, whole);
    } else {
        let whole = conflicts_upto(rs, n, threshold_bp);
        assert(whole.take(whole.len() as int) =~= whole);
    }
}

/// The conflicts of the pairs up to and including `(i, j)` open the list of
/// all conflicts, and `(i, j)` adds to those before it exactly what
/// `conflict_for` gives for the pair.
proof fn lemma_pair_in_place(rs: Seq<Route>, i: int, j: int, threshold_bp: u32)
    requires
        0 <= i < j < rs.len(),
    ensures
        conflicts_before(rs, i, j + 1, threshold_bp) == conflicts_before(rs, i, j, threshold_bp) + option_seq(
            conflict_for(rs[i], rs[j], threshold_bp),
        ),
        is_prefix(conflicts_before(rs, i, j + 1, threshold_bp), route_conflicts(rs, threshold_bp)),
{
    let n = rs.len() as int;
    assert(conflicts_before(rs, i, j + 1, threshold_bp) =~= conflicts_before(rs, i, j, threshold_bp)
        + option_seq(conflict_for(rs[i], rs[j], threshold_bp)));
    lemma_row_prefix(rs, i, j + 1, n, threshold_bp);
    let up = conflicts_upto(rs, i, threshold_bp);
    let row = row_conflicts(rs, i, n, threshold_bp);
    let part = row_conflicts(rs, i, j + 1, threshold_bp);
    let next = conflicts_upto(rs, i + 1, threshold_bp);
    assert(next == up + row);
    assert(next.take((up + part).len() as int) =~= up + part) by {
        assert(row.take(part.len() as int) == part);
        assert forall|k: int| 0 <= k < (up + part).len() implies next.take((up + part).len() as int)[k]
            == (up + part)[k] by {
            if k >= up.len() {
                assert(row.take(part.len() as int)[k - up.len()] == part[k - up.len()]);
            }
        }
    }
    lemma_upto_prefix(rs, i + 1, n, threshold_bp);
    lemma_prefix_trans(up + part, next, conflicts_upto(rs, n, threshold_bp));
}

/// In any list of routes, a pair `i < j` with the same method and the same
/// path, whatever their files and lines and whatever the threshold, adds
/// exactly one conflict to those of the pairs before it: the exact match of
/// `routes[i]` and `routes[j]` at 100 percent; the conflicts through that
/// pair open the list that `check_route_conflicts` returns.
pub proof fn identical_pair_conflicts_once(routes: Seq<Route>, i: int, j: int, threshold_bp: u32)
    requires
        0 <= i < j < routes.len(),
        routes[i].method@ == routes[j].method@,
        routes[i].path@ == routes[j].path@,
    ensures
        conflicts_before(routes, i, j + 1, threshold_bp) == conflicts_before(routes, i, j, threshold_bp).push(
            RouteConflict {
                route1: routes[i],
                route2: routes[j],
                similarity: Similarity { matched: 1, total: 1 },
                conflict_type: ConflictKind::ExactMatch,
            },
        ),
        is_prefix(conflicts_before(routes, i, j + 1, threshold_bp), route_conflicts(routes, threshold_bp)),
{
    lemma_pair_in_place(routes, i, j, threshold_bp);
    assert(conflicts_before(routes, i, j, threshold_bp) + option_seq(
        conflict_for(routes[i], routes[j], threshold_bp),
    ) =~= conflicts_before(routes, i, j, threshold_bp).push(
        RouteConflict {
            route1: routes[i],
            route2: routes[j],
            similarity: Similarity { matched: 1, total: 1 },
            conflict_type: ConflictKind::ExactMatch,
        },
    ));
}

/// In any list of routes, a pair `i < j` with different methods adds no
/// conflict to those of the pairs before it, however alike the paths.
pub proof fn differing_pair_never_conflicts(routes: Seq<Route>, i: int, j: int, threshold_bp: u32)
    requires
        0 <= i < j < routes.len(),
        routes[i].method@ != routes[j].method@,
    ensures
        conflicts_before(routes, i, j + 1, threshold_bp) == conflicts_before(routes, i, j, threshold_bp),
        is_prefix(conflicts_before(routes, i, j + 1, threshold_bp), route_conflicts(routes, threshold_bp)),
{
    lemma_pair_in_place(routes, i, j, threshold_bp);
    assert(conflicts_before(routes, i, j, threshold_bp) + option_seq(
        conflict_for(routes[i], routes[j], threshold_bp),
    ) =~= conflicts_before(routes, i, j, threshold_bp));
}

} // verus!
