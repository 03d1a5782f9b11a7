use vstd::prelude::*;

use crate::models::{string_of_chars, Route, RouteView};

verus! {

/// The HTTP verbs a route declaration may use.
#[derive(Debug, Clone, Copy, PartialEq, Eq, Structural)]
pub enum Verb {
    Get,
    Post,
    Put,
    Delete,
    Patch,
}

impl Verb {
    /// The lower-case name written in a declaration (`get`).
    pub open spec fn word(self) -> Seq<char> {
        match self {
            Verb::Get => seq!['g', 'e', 't'],
            Verb::Post => seq!['p', 'o', 's', 't'],
            Verb::Put => seq!['p', 'u', 't'],
            Verb::Delete => seq!['d', 'e', 'l', 'e', 't', 'e'],
            Verb::Patch => seq!['p', 'a', 't', 'c', 'h'],
        }
    }

    /// The upper-case method stored in a route (`GET`).
    pub open spec fn method(self) -> Seq<char> {
        match self {
            Verb::Get => seq!['G', 'E', 'T'],
            Verb::Post => seq!['P', 'O', 'S', 'T'],
            Verb::Put => seq!['P', 'U', 'T'],
            Verb::Delete => seq!['D', 'E', 'L', 'E', 'T', 'E'],
            Verb::Patch => seq!['P', 'A', 'T', 'C', 'H'],
        }
    }

    fn word_chars(self) -> (w: Vec<char>)
        ensures
            w@ == self.word(),
    {
        match self {
            Verb::Get => vec!['g', 'e', 't'],
            Verb::Post => vec!['p', 'o', 's', 't'],
            Verb::Put => vec!['p', 'u', 't'],
            Verb::Delete => vec!['d', 'e', 'l', 'e', 't', 'e'],
            Verb::Patch => vec!['p', 'a', 't', 'c', 'h'],
        }
    }

    fn method_chars(self) -> (w: Vec<char>)
        ensures
            w@ == self.method(),
    {
        match self {
            Verb::Get => vec!['G', 'E', 'T'],
            Verb::Post => vec!['P', 'O', 'S', 'T'],
            Verb::Put => vec!['P', 'U', 'T'],
            Verb::Delete => vec!['D', 'E', 'L', 'E', 'T', 'E'],
            Verb::Patch => vec!['P', 'A', 'T', 'C', 'H'],
        }
    }
}

/// The receiver of the application router, `app`.
pub open spec fn app_receiver() -> Seq<char> {
    seq!['a', 'p', 'p']
}

/// The receiver of a sub-router, `router`.
pub open spec fn router_receiver() -> Seq<char> {
    seq!['r', 'o', 'u', 't', 'e', 'r']
}

pub open spec fn is_quote(c: char) -> bool {
    c == '\'' || c == '"'
}

/// `w` stands in `line` from position `pos` on.
pub open spec fn has_at(line: Seq<char>, pos: int, w: Seq<char>) -> bool {
    0 <= pos && pos + w.len() <= line.len() && line.subrange(pos, pos + w.len()) == w
}

/// The verb, followed by `(`, that stands at `pos`.
pub open spec fn verb_at(line: Seq<char>, pos: int) -> Option<Verb> {
    if has_at(line, pos, Verb::Get.word().push('(')) {
        Some(Verb::Get)
    } else if has_at(line, pos, Verb::Post.word().push('(')) {
        Some(Verb::Post)
    } else if has_at(line, pos, Verb::Put.word().push('(')) {
        Some(Verb::Put)
    } else if has_at(line, pos, Verb::Delete.word().push('(')) {
        Some(Verb::Delete)
    } else if has_at(line, pos, Verb::Patch.word().push('(')) {
        Some(Verb::Patch)
    } else {
        None
    }
}

/// The first position at or after `k` that holds a quote.
pub open spec fn next_quote(line: Seq<char>, k: int) -> Option<int>
    decreases line.len() - k,
{
    if k < 0 || k >= line.len() {
        None
    } else if is_quote(line[k]) {
        Some(k)
    } else {
        next_quote(line, k + 1)
    }
}

/// A declaration recognised at one position of a line: its verb, where its
/// path starts and ends, and where the search for the next one resumes.
pub struct RouteMatch {
    pub verb: Verb,
    pub path_start: int,
    pub path_end: int,
    pub resume: int,
}

/// The declaration `<receiver>.<verb>(<quote><path><quote>` that starts at
/// `s`, with an optional `,` after it. The path is the shortest non-empty run
/// of characters that a quote follows.
pub open spec fn match_at(line: Seq<char>, receiver: Seq<char>, s: int) -> Option<RouteMatch> {
    let p = s + receiver.len() + 1;
    if !has_at(line, s, receiver.push('.')) {
        None
    } else {
        match verb_at(line, p) {
            None => None,
            Some(v) => {
                let q = p + v.word().len() + 1;
                if !(q < line.len() && is_quote(line[q])) {
                    None
                } else {
                    match next_quote(line, q + 2) {
                        None => None,
                        Some(c) => Some(
                            RouteMatch {
                                verb: v,
                                path_start: q + 1,
                                path_end: c,
                                resume: if c + 1 < line.len() && line[c + 1] == ',' {
                                    c + 2
                                } else {
                                    c + 1
                                },
                            },
                        ),
                    }
                }
            },
        }
    }
}

proof fn lemma_next_quote_bounds(line: Seq<char>, k: int)
    ensures
        next_quote(line, k) matches Some(c) ==> k <= c < line.len() && is_quote(line[c]),
    decreases line.len() - k,
{
    if 0 <= k < line.len() && !is_quote(line[k]) {
        lemma_next_quote_bounds(line, k + 1);
    }
}

proof fn lemma_match_at_bounds(line: Seq<char>, receiver: Seq<char>, s: int)
    ensures
        match_at(line, receiver, s) matches Some(m) ==> s < m.path_start < m.path_end
            < m.resume <= line.len(),
{
    let p = s + receiver.len() + 1;
    if let Some(v) = verb_at(line, p) {
        let q = p + v.word().len() + 1;
        lemma_next_quote_bounds(line, q + 2);
    }
}

/// The declarations that a left-to-right search for `receiver` finds in
/// `line` from position `s` on, each search resuming after the previous
/// match: (verb, path) pairs.
pub open spec fn matches_from(line: Seq<char>, receiver: Seq<char>, s: int) -> Seq<(Verb, Seq<char>)>
    decreases line.len() + 1 - s,
    when s >= 0
    via matches_from_decreases
{
    if s > line.len() {
        seq![]
    } else {
        match match_at(line, receiver, s) {
            Some(m) => seq![(m.verb, line.subrange(m.path_start, m.path_end))] + matches_from(
                line,
                receiver,
                m.resume,
            ),
            None => matches_from(line, receiver, s + 1),
        }
    }
}

#[via_fn]
proof fn matches_from_decreases(line: Seq<char>, receiver: Seq<char>, s: int) {
    lemma_match_at_bounds(line, receiver, s);
}

/// The routes of the matches found on line number `n` of `file`.
pub open spec fn to_routes(ms: Seq<(Verb, Seq<char>)>, file: Seq<char>, n: nat) -> Seq<RouteView> {
    ms.map_values(
        |m: (Verb, Seq<char>)|
            RouteView { path: m.1, method: m.0.method(), file_path: file, line_number: n },
    )
}

/// The routes declared on one line: those of `app` first, then those of
/// `router`.
pub open spec fn line_routes(line: Seq<char>, file: Seq<char>, n: nat) -> Seq<RouteView> {
    to_routes(matches_from(line, app_receiver(), 0), file, n) + to_routes(
        matches_from(line, router_receiver(), 0),
        file,
        n,
    )
}

/// Splitting `text` at each `\n`: the lines ended so far, and the line
/// under way.
pub open spec fn split_state(text: Seq<char>) -> (Seq<Seq<char>>, Seq<char>)
    decreases text.len(),
{
    if text.len() == 0 {
        (seq![], seq![])
    } else {
        let (done, cur) = split_state(text.drop_last());
        if text.last() == '\n' {
            (done.push(cur), seq![])
        } else {
            (done, cur.push(text.last()))
        }
    }
}

/// The lines of `text`, split at `\n`; a final `\n` starts no further line.
pub open spec fn lines_of(text: Seq<char>) -> Seq<Seq<char>> {
    let (done, cur) = split_state(text);
    if cur.len() == 0 {
        done
    } else {
        done.push(cur)
    }
}

/// The routes declared on `lines`, numbered from 1.
pub open spec fn routes_of_lines(lines: Seq<Seq<char>>, file: Seq<char>) -> Seq<RouteView>
    decreases lines.len(),
{
    if lines.len() == 0 {
        seq![]
    } else {
        routes_of_lines(lines.drop_last(), file) + line_routes(lines.last(), file, lines.len())
    }
}

/// The routes that the text of `file` declares, in order of line, and on
/// each line `app` declarations before `router` ones.
pub open spec fn extracted_routes(text: Seq<char>, file: Seq<char>) -> Seq<RouteView> {
    routes_of_lines(lines_of(text), file)
}

pub open spec fn route_views(rs: Seq<Route>) -> Seq<RouteView> {
    rs.map_values(|r: Route| r@)
}

fn receiver_chars(app: bool) -> (w: Vec<char>)
    ensures
        app ==> w@ == app_receiver().push('.'),
        !app ==> w@ == router_receiver().push('.'),
{
    let w = if app {
        vec!['a', 'p', 'p', '.']
    } else {
        vec!['r', 'o', 'u', 't', 'e', 'r', '.']
    };
    proof {
        if app {
            assert(w@ =~= app_receiver().push('.'));
        } else {
            assert(w@ =~= router_receiver().push('.'));
        }
    }
    w
}

fn word_at(line: &Vec<char>, pos: usize, w: &Vec<char>) -> (r: bool)
    ensures
        r == has_at(line@, pos as int, w@),
{
    if pos > line.len() || w.len() > line.len() - pos {
        return false;
    }
    let len = line.len();
    let mut i: usize = 0;
    while i < w.len()
        invariant
            len == line@.len(),
            pos + w@.len() <= line@.len(),
            i <= w@.len(),
            forall|j: int| 0 <= j < i ==> line@[pos + j] == w@[j],
        decreases w@.len() - i,
    {
        if line[pos + i] != w[i] {
            assert(line@.subrange(pos as int, pos + w@.len())[i as int] != w@[i as int]);
            return false;
        }
        i = i + 1;
    }
    assert(line@.subrange(pos as int, pos + w@.len()) =~= w@);
    true
}

fn verb_word_at(line: &Vec<char>, pos: usize, v: Verb) -> (r: bool)
    ensures
        r == has_at(line@, pos as int, v.word().push('(')),
{
    let mut w = v.word_chars();
    w.push('(');
    word_at(line, pos, &w)
}

fn find_verb(line: &Vec<char>, pos: usize) -> (r: Option<Verb>)
    ensures
        r == verb_at(line@, pos as int),
{
    if verb_word_at(line, pos, Verb::Get) {
        Some(Verb::Get)
    } else if verb_word_at(line, pos, Verb::Post) {
        Some(Verb::Post)
    } else if verb_word_at(line, pos, Verb::Put) {
        Some(Verb::Put)
    } else if verb_word_at(line, pos, Verb::Delete) {
        Some(Verb::Delete)
    } else if verb_word_at(line, pos, Verb::Patch) {
        Some(Verb::Patch)
    } else {
        None
    }
}

fn find_quote(line: &Vec<char>, k: usize) -> (r: Option<usize>)
    ensures
        match r {
            Some(c) => next_quote(line@, k as int) == Some(c as int),
            None => next_quote(line@, k as int) is None,
        },
{
    let mut j: usize = k;
    while j < line.len()
        invariant
            k <= j,
            next_quote(line@, k as int) == next_quote(line@, j as int),
        decreases line@.len() - j,
    {
        if line[j] == '\'' || line[j] == '"' {
            return Some(j);
        }
        j = j + 1;
    }
    None
}

fn match_route_at(line: &Vec<char>, receiver: &Vec<char>, s: usize) -> (r: Option<(Verb, usize, usize, usize)>)
    requires
        receiver@.len() >= 1,
        receiver@.last() == '.',
    ensures
        match r {
            Some((v, a, b, n)) => match_at(line@, receiver@.drop_last(), s as int) == Some(
                RouteMatch { verb: v, path_start: a as int, path_end: b as int, resume: n as int },
            ),
            None => match_at(line@, receiver@.drop_last(), s as int) is None,
        },
{
    let len = line.len();
    proof {
        assert(receiver@.drop_last().push('.') =~= receiver@);
        lemma_match_at_bounds(line@, receiver@.drop_last(), s as int);
    }
    if !word_at(line, s, receiver) {
        return None;
    }
    let p = s + receiver.len();
    let v = match find_verb(line, p) {
        Some(v) => v,
        None => return None,
    };
    let q = p + v.word_chars().len() + 1;
    if !(q < line.len() && (line[q] == '\'' || line[q] == '"')) {
        return None;
    }
    if q + 1 >= len {
        return None;
    }
    proof {
        lemma_next_quote_bounds(line@, q + 2);
    }
    match find_quote(line, q + 2) {
        None => None,
        Some(c) => {
            let n = if c + 1 < line.len() && line[c + 1] == ',' {
                c + 2
            } else {
                c + 1
            };
            Some((v, q + 1, c, n))
        },
    }
}

fn chars_between(line: &Vec<char>, a: usize, b: usize) -> (r: Vec<char>)
    requires
        a <= b <= line@.len(),
    ensures
        r@ == line@.subrange(a as int, b as int),
{
    let mut r: Vec<char> = Vec::new();
    let mut i: usize = a;
    while i < b
        invariant
            a <= i <= b <= line@.len(),
            r@ == line@.subrange(a as int, i as int),
        decreases b - i,
    {
        r.push(line[i]);
        i = i + 1;
    }
    r
}

/// Appends to `out` the routes that `receiver` declares on `line`.
fn scan_line(line: &Vec<char>, app: bool, file_path: &str, line_number: usize, out: &mut Vec<Route>)
    ensures
        route_views(final(out)@) == route_views(old(out)@) + to_routes(
            matches_from(line@, if app { app_receiver() } else { router_receiver() }, 0),
            file_path@,
            line_number as nat,
        ),
{
    let receiver = receiver_chars(app);
    let ghost rcv = if app { app_receiver() } else { router_receiver() };
    let ghost start = route_views(out@);
    proof {
        assert(receiver@.drop_last() =~= rcv);
    }
    let len = line.len();
    let mut s: usize = 0;
    while s < len
        invariant
            len == line@.len(),
            receiver@ == rcv.push('.'),
            s <= line@.len(),
            start + to_routes(matches_from(line@, rcv, 0), file_path@, line_number as nat)
                == route_views(out@) + to_routes(matches_from(line@, rcv, s as int), file_path@, line_number as nat),
        decreases line@.len() - s,
    {
        proof {
            assert(receiver@.drop_last() =~= rcv);
            lemma_match_at_bounds(line@, rcv, s as int);
        }
        match match_route_at(line, &receiver, s) {
            Some((v, a, b, n)) => {
                let path_chars = chars_between(line, a, b);
                let method_chars = v.method_chars();
                let route = Route {
                    path: string_of_chars(&path_chars),
                    method: string_of_chars(&method_chars),
                    file_path: String::from_str(file_path),
                    line_number,
                };
                let ghost before = out@;
                out.push(route);
                proof {
                    let ms = matches_from(line@, rcv, s as int);
                    let rest = matches_from(line@, rcv, n as int);
                    assert(ms == seq![(v, line@.subrange(a as int, b as int))] + rest);
                    assert(to_routes(ms, file_path@, line_number as nat) =~= seq![route@] + to_routes(rest, file_path@, line_number as nat));
                    assert(route_views(out@) =~= route_views(before).push(route@));
                    assert(route_views(out@) + to_routes(rest, file_path@, line_number as nat)
                        =~= route_views(before) + to_routes(ms, file_path@, line_number as nat));
                }
                s = n;
            },
            None => {
                s = s + 1;
            },
        }
    }
    proof {
        assert(match_at(line@, rcv, s as int) is None);
        assert(matches_from(line@, rcv, s + 1) =~= seq![]);
        assert(to_routes(matches_from(line@, rcv, s as int), file_path@, line_number as nat) =~= seq![]);
        assert(route_views(out@) + seq![] =~= route_views(out@));
    }
}

fn line_routes_into(line: &Vec<char>, file_path: &str, line_number: usize, out: &mut Vec<Route>)
    ensures
        route_views(final(out)@) == route_views(old(out)@) + line_routes(line@, file_path@, line_number as nat),
{
    let ghost start = route_views(out@);
    scan_line(line, true, file_path, line_number, out);
    scan_line(line, false, file_path, line_number, out);
    assert(route_views(out@) =~= start + line_routes(line@, file_path@, line_number as nat));
}

/// The routes declared in `content`, the text of the file `file_path`.
pub fn extract_routes_from_file(content: &str, file_path: &str) -> (routes: Vec<Route>)
    ensures
        route_views(routes@) == extracted_routes(content@, file_path@),
{
    let total = content.unicode_len();
    let mut routes: Vec<Route> = Vec::new();
    let mut line: Vec<char> = Vec::new();
    let mut ended: usize = 0;
    let ghost mut done: Seq<Seq<char>> = seq![];
    for c in it: content.chars()
        invariant
            it.seq() == content@,
            split_state(content@.take(it.index() as int)) == (done, line@),
            ended == done.len(),
            ended + line@.len() <= it.index(),
            total == content@.len(),
            route_views(routes@) == routes_of_lines(done, file_path@),
    {
        let ghost prefix = content@.take(it.index() as int);
        proof {
            assert(content@.take(it.index() + 1).drop_last() =~= prefix);
        }
        if c == '\n' {
            ended = ended + 1;
            line_routes_into(&line, file_path, ended, &mut routes);
            proof {
                assert(done.push(line@).drop_last() =~= done);
                done = done.push(line@);
            }
            line = Vec::new();
        } else {
            line.push(c);
        }
    }
    proof {
        assert(content@.take(content@.len() as int) =~= content@);
    }
    if line.len() > 0 {
        line_routes_into(&line, file_path, ended + 1, &mut routes);
        proof {
            assert(done.push(line@).drop_last() =~= done);
        }
    }
    routes
}

/// A source file: its path and its text.
pub struct SourceFile {
    pub path: String,
    pub content: String,
}

/// The routes of `files`, file after file.
pub open spec fn routes_of_files(files: Seq<SourceFile>) -> Seq<RouteView>
    decreases files.len(),
{
    if files.len() == 0 {
        seq![]
    } else {
        routes_of_files(files.drop_last()) + extracted_routes(
            files.last().content@,
            files.last().path@,
        )
    }
}

/// The routes of every file, in the order the files are given.
pub fn extract_all_routes(files: &Vec<SourceFile>) -> (routes: Vec<Route>)
    ensures
        route_views(routes@) == routes_of_files(files@),
{
    let mut routes: Vec<Route> = Vec::new();
    let mut i: usize = 0;
    while i < files.len()
        invariant
            i <= files@.len(),
            route_views(routes@) == routes_of_files(files@.take(i as int)),
        decreases files@.len() - i,
    {
        proof {
            assert(files@.take(i + 1).drop_last() =~= files@.take(i as int));
        }
        let mut found = extract_routes_from_file(files[i].content.as_str(), files[i].path.as_str());
        let ghost before = routes@;
        let ghost added = found@;
        routes.append(&mut found);
        proof {
            assert(route_views(routes@) =~= route_views(before) + route_views(added));
        }
        i = i + 1;
    }
    proof {
        assert(files@.take(files@.len() as int) =~= files@);
    }
    routes
}

/// Extraction is a function of the text and the file path: two results for
/// the same inputs are the same route list.
pub proof fn extraction_is_deterministic(
    content: Seq<char>,
    file: Seq<char>,
    first: Seq<Route>,
    second: Seq<Route>,
)
    requires
        route_views(first) == extracted_routes(content, file),
        route_views(second) == extracted_routes(content, file),
    ensures
        route_views(first) == route_views(second),
        first.len() == second.len(),
        forall|k: int|
            0 <= k < first.len() ==> first[k]@ == (#[trigger] second[k])@,
{
    assert(route_views(first).len() == first.len());
    assert forall|k: int| 0 <= k < first.len() implies first[k]@ == (#[trigger] second[k])@ by {
        assert(route_views(first)[k] == first[k]@);
        assert(route_views(second)[k] == second[k]@);
    }
}

} // verus!
