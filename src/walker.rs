use vstd::prelude::*;

use crate::models::string_of_chars;

verus! {

/// A base name that begins with `.`.
pub open spec fn is_hidden(name: Seq<char>) -> bool {
    name.len() > 0 && name[0] == '.'
}

/// `name` is one of `names`, exactly.
pub open spec fn has_name(names: Seq<String>, name: Seq<char>) -> bool {
    exists|i: int| 0 <= i < names.len() && names[i]@ == name
}

/// The walk enters or keeps an entry with base name `name`: it is not hidden,
/// and it is not a directory whose name is excluded.
pub open spec fn keeps_entry(name: Seq<char>, is_dir: bool, excluded: Seq<String>) -> bool {
    !is_hidden(name) && !(is_dir && has_name(excluded, name))
}

/// The position of the last `.` in `name` before `end`.
pub open spec fn last_dot(name: Seq<char>, end: int) -> Option<int>
    decreases end,
{
    if end <= 0 {
        None
    } else if name[end - 1] == '.' {
        Some(end - 1)
    } else {
        last_dot(name, end - 1)
    }
}

/// The extension of a base name: what follows its last `.`; none when there
/// is no `.`, when the only one leads the name, or for `..`.
pub open spec fn extension_of(name: Seq<char>) -> Option<Seq<char>> {
    if name == seq!['.', '.'] {
        None
    } else {
        match last_dot(name, name.len() as int) {
            Some(d) => if d == 0 {
                None
            } else {
                Some(name.subrange(d + 1, name.len() as int))
            },
            None => None,
        }
    }
}

/// The walk yields a regular file with base name `name`: its extension is
/// one of `extensions`.
pub open spec fn wants_file_spec(name: Seq<char>, is_file: bool, extensions: Seq<String>) -> bool {
    is_file && match extension_of(name) {
        Some(e) => has_name(extensions, e),
        None => false,
    }
}

/// The walk yields the file `file`, reached from the root through the
/// directories `dirs` (outermost first): the walk entered each of them, kept
/// the file, and wants it.
pub open spec fn walk_yields(
    dirs: Seq<Seq<char>>,
    file: Seq<char>,
    excluded: Seq<String>,
    extensions: Seq<String>,
) -> bool {
    &&& forall|i: int| 0 <= i < dirs.len() ==> keeps_entry(#[trigger] dirs[i], true, excluded)
    &&& keeps_entry(file, false, excluded)
    &&& wants_file_spec(file, true, extensions)
}

/// A file below a directory whose name is exactly an excluded name is never
/// yielded, however deep it lies.
pub proof fn excluded_directory_hides_files(
    dirs: Seq<Seq<char>>,
    file: Seq<char>,
    excluded: Seq<String>,
    extensions: Seq<String>,
    i: int,
)
    requires
        0 <= i < dirs.len(),
        has_name(excluded, dirs[i]),
    ensures
        !walk_yields(dirs, file, excluded, extensions),
{
    assert(!keeps_entry(dirs[i], true, excluded));
}

fn name_in(names: &Vec<String>, name: &String) -> (r: bool)
    ensures
        r == has_name(names@, name@),
{
    let mut i: usize = 0;
    while i < names.len()
        invariant
            i <= names@.len(),
            forall|k: int| 0 <= k < i ==> names@[k]@ != name@,
        decreases names@.len() - i,
    {
        if names[i] == *name {
            return true;
        }
        i = i + 1;
    }
    false
}

/// Whether the walk keeps the entry with base name `name`: hidden entries
/// and directories named exactly as an excluded name are skipped with all
/// they hold.
pub fn keep_entry(name: &str, is_dir: bool, excluded: &Vec<String>) -> (r: bool)
    ensures
        r == keeps_entry(name@, is_dir, excluded@),
{
    if name.unicode_len() > 0 && name.get_char(0) == '.' {
        return false;
    }
    if is_dir && name_in(excluded, &String::from_str(name)) {
        return false;
    }
    true
}

/// The walk keeps the entry with base name `name` at `depth` below the root:
/// the root itself (depth 0) is always entered, whatever its name; below it
/// the entry rules decide.
pub open spec fn walk_keeps(name: Seq<char>, is_dir: bool, depth: nat, excluded: Seq<String>) -> bool {
    depth == 0 || keeps_entry(name, is_dir, excluded)
}

/// Whether the walk keeps the entry with base name `name` found at `depth`
/// below the root.
pub fn keep_walk_entry(name: &str, is_dir: bool, depth: usize, excluded: &Vec<String>) -> (r: bool)
    ensures
        r == walk_keeps(name@, is_dir, depth as nat, excluded@),
{
    depth == 0 || keep_entry(name, is_dir, excluded)
}

fn chars_of(s: &str) -> (r: Vec<char>)
    ensures
        r@ == s@,
{
    let mut r: Vec<char> = Vec::new();
    for c in it: s.chars()
        invariant
            it.seq() == s@,
            r@ == s@.take(it.index() as int),
    {
        proof {
            assert(s@.take(it.index() + 1) =~= r@.push(c));
        }
        r.push(c);
    }
    proof {
        assert(s@.take(s@.len() as int) =~= s@);
    }
    r
}

/// The extension of the base name `name`, as `Path::extension` gives it.
pub fn file_extension(name: &str) -> (r: Option<String>)
    ensures
        match r {
            Some(e) => extension_of(name@) == Some(e@),
            None => extension_of(name@) is None,
        },
{
    let cs = chars_of(name);
    if cs.len() == 2 && cs[0] == '.' && cs[1] == '.' {
        assert(name@ =~= seq!['.', '.']);
        return None;
    }
    let mut end: usize = cs.len();
    while end > 0 && cs[end - 1] != '.'
        invariant
            end <= cs@.len(),
            last_dot(cs@, cs@.len() as int) == last_dot(cs@, end as int),
        decreases end,
    {
        end = end - 1;
    }
    if end <= 1 {
        return None;
    }
    let mut ext: Vec<char> = Vec::new();
    let mut i: usize = end;
    while i < cs.len()
        invariant
            end <= i <= cs@.len(),
            ext@ == cs@.subrange(end as int, i as int),
        decreases cs@.len() - i,
    {
        ext.push(cs[i]);
        i = i + 1;
    }
    Some(string_of_chars(&ext))
}

/// Whether the walk yields the entry with base name `name`: a regular file
/// whose extension is one of `extensions`, compared case-sensitively.
pub fn wants_file(name: &str, is_file: bool, extensions: &Vec<String>) -> (r: bool)
    ensures
        r == wants_file_spec(name@, is_file, extensions@),
{
    if !is_file {
        return false;
    }
    match file_extension(name) {
        Some(e) => name_in(extensions, &e),
        None => false,
    }
}

} // verus!
