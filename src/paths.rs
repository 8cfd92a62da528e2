//! Which files of a project tree are indexed: recognized source extensions,
//! outside the directories that hold dependencies, build output or version
//! control data.

use vstd::prelude::*;
use vstd::std_specs::iter::IteratorSpec;

verus! {

broadcast use {vstd::string::axiom_spec_iter, vstd::string::next_postcondition};

/// Path separators: `/`, and `\` as Windows writes them.
pub open spec fn is_separator(c: char) -> bool {
    c == '/' || c == '\\'
}

/// The pieces of a path between separators (empty pieces included).
pub open spec fn segments(p: Seq<char>) -> Seq<Seq<char>>
    decreases p.len(),
{
    if p.len() == 0 {
        seq![Seq::empty()]
    } else {
        let s = segments(p.drop_last());
        if is_separator(p.last()) {
            s.push(Seq::empty())
        } else {
            s.update(s.len() - 1, s.last().push(p.last()))
        }
    }
}

/// Directory names whose contents are never indexed.
pub open spec fn is_denied_dir(s: Seq<char>) -> bool {
    s == "node_modules"@ || s == "dist"@ || s == "build"@ || s == ".git"@ || s == "target"@
}

pub open spec fn in_denied_dir(p: Seq<char>) -> bool {
    exists|i: int| 0 <= i < segments(p).len() && is_denied_dir(#[trigger] segments(p)[i])
}

/// Position of the last `.` in a file name, or -1.
pub open spec fn last_dot(name: Seq<char>) -> int
    decreases name.len(),
{
    if name.len() == 0 {
        -1
    } else if name.last() == '.' {
        name.len() - 1
    } else {
        last_dot(name.drop_last())
    }
}

/// A file name's extension: what follows its last `.`, unless that dot
/// opens the name.
pub open spec fn extension(name: Seq<char>) -> Option<Seq<char>> {
    if last_dot(name) > 0 {
        Some(name.subrange(last_dot(name) + 1, name.len() as int))
    } else {
        None
    }
}

pub open spec fn is_source_extension(e: Seq<char>) -> bool {
    e == "ts"@ || e == "tsx"@ || e == "js"@ || e == "jsx"@
}

/// A path that the indexer visits.
pub open spec fn is_source_path_spec(p: Seq<char>) -> bool {
    &&& !in_denied_dir(p)
    &&& extension(segments(p).last()) matches Some(e)
    &&& is_source_extension(e)
}

/// The source paths among `paths`, in their order.
pub open spec fn source_paths(paths: Seq<Seq<char>>) -> Seq<Seq<char>>
    decreases paths.len(),
{
    if paths.len() == 0 {
        Seq::empty()
    } else if is_source_path_spec(paths.last()) {
        source_paths(paths.drop_last()).push(paths.last())
    } else {
        source_paths(paths.drop_last())
    }
}

/// The characters of a string.
pub fn chars_of(s: &str) -> (r: Vec<char>)
    ensures
        r@ == s@,
{
    let mut r: Vec<char> = Vec::new();
    let mut it = s.chars();
    loop
        invariant
            r@ + it.remaining() == s@,
            it.decrease() is Some,
        ensures
            r@ == s@,
        decreases it.decrease()->0,
    {
        match it.next() {
            Some(c) => {
                r.push(c);
                assert(r@ + it.remaining() =~= s@);
            },
            None => {
                assert(r@ =~= s@);
                break;
            },
        }
    }
    r
}

fn equals_text(a: &Vec<char>, b: &str) -> (r: bool)
    ensures
        r == (a@ == b@),
{
    let bc = chars_of(b);
    if a.len() != bc.len() {
        return false;
    }
    let mut i: usize = 0;
    while i < a.len()
        invariant
            a@.len() == bc@.len(),
            bc@ == b@,
            i <= a@.len(),
            forall|j: int| 0 <= j < i ==> a@[j] == bc@[j],
        decreases a@.len() - i,
    {
        if a[i] != bc[i] {
            return false;
        }
        i = i + 1;
    }
    assert(a@ =~= bc@);
    true
}

fn denied_dir(s: &Vec<char>) -> (r: bool)
    ensures
        r == is_denied_dir(s@),
{
    equals_text(s, "node_modules") || equals_text(s, "dist") || equals_text(s, "build")
        || equals_text(s, ".git") || equals_text(s, "target")
}

fn source_extension(name: &Vec<char>) -> (r: bool)
    ensures
        r == (extension(name@) matches Some(e) && is_source_extension(e)),
{
    let mut i: usize = name.len();
    assert(name@.subrange(0, name@.len() as int) =~= name@);
    while i > 0 && name[i - 1] != '.'
        invariant
            i <= name@.len(),
            last_dot(name@) == last_dot(name@.subrange(0, i as int)),
        decreases i,
    {
        assert(name@.subrange(0, i as int).drop_last() =~= name@.subrange(0, i - 1));
        i = i - 1;
    }
    if i > 0 {
        assert(name@.subrange(0, i as int).drop_last() =~= name@.subrange(0, i - 1));
    } else {
        assert(name@.subrange(0, 0) =~= Seq::<char>::empty());
    }
    if i <= 1 {
        return false;
    }
    let mut ext: Vec<char> = Vec::new();
    let mut k: usize = i;
    while k < name.len()
        invariant
            i <= k <= name@.len(),
            ext@ == name@.subrange(i as int, k as int),
        decreases name@.len() - k,
    {
        ext.push(name[k]);
        k = k + 1;
        assert(ext@ =~= name@.subrange(i as int, k as int));
    }
    equals_text(&ext, "ts") || equals_text(&ext, "tsx") || equals_text(&ext, "js")
        || equals_text(&ext, "jsx")
}

/// Whether the indexer visits the file at `path`: it has a `.ts`, `.tsx`,
/// `.js` or `.jsx` extension and no component of the path is
/// `node_modules`, `dist`, `build`, `.git` or `target`.
pub fn is_source_path(path: &str) -> (r: bool)
    ensures
        r == is_source_path_spec(path@),
{
    let p = chars_of(path);
    let mut denied = false;
    let mut current: Vec<char> = Vec::new();
    let mut i: usize = 0;
    while i < p.len()
        invariant
            p@ == path@,
            i <= p@.len(),
            current@ == segments(p@.subrange(0, i as int)).last(),
            segments(p@.subrange(0, i as int)).len() >= 1,
            denied == exists|j: int|
                0 <= j < segments(p@.subrange(0, i as int)).len() - 1 && is_denied_dir(
                    #[trigger] segments(p@.subrange(0, i as int))[j],
                ),
        decreases p@.len() - i,
    {
        let ghost before = segments(p@.subrange(0, i as int));
        assert(p@.subrange(0, i + 1).drop_last() =~= p@.subrange(0, i as int));
        if p[i] == '/' || p[i] == '\\' {
            let d = denied_dir(&current);
            let ghost after = segments(p@.subrange(0, i + 1));
            assert(after == before.push(Seq::empty()));
            assert(forall|j: int| 0 <= j < before.len() ==> after[j] == before[j]);
            assert(after.len() - 1 == before.len());
            assert(current@ == before[before.len() - 1]);
            assert((denied || d) <==> exists|j: int|
                0 <= j < after.len() - 1 && is_denied_dir(#[trigger] after[j])) by {
                if d {
                    assert(is_denied_dir(after[before.len() - 1]));
                }
                if denied {
                    let j = choose|j: int|
                        0 <= j < before.len() - 1 && is_denied_dir(#[trigger] before[j]);
                    assert(is_denied_dir(after[j]));
                }
                if exists|j: int| 0 <= j < after.len() - 1 && is_denied_dir(#[trigger] after[j]) {
                    let j = choose|j: int|
                        0 <= j < after.len() - 1 && is_denied_dir(#[trigger] after[j]);
                    if j < before.len() - 1 {
                        assert(is_denied_dir(before[j]));
                    } else {
                        assert(d);
                    }
                }
            }
            denied = denied || d;
            current = Vec::new();
            assert(current@ =~= Seq::<char>::empty());
        } else {
            let ghost after = segments(p@.subrange(0, i + 1));
            current.push(p[i]);
            assert(forall|j: int| 0 <= j < after.len() - 1 ==> after[j] == before[j]);
        }
        i = i + 1;
    }
    assert(p@.subrange(0, p@.len() as int) =~= p@);
    let last_denied = denied_dir(&current);
    assert(denied || last_denied <==> in_denied_dir(path@)) by {
        let s = segments(path@);
        if last_denied {
            assert(is_denied_dir(s[s.len() - 1]));
        }
        if in_denied_dir(path@) {
            let j = choose|j: int| 0 <= j < s.len() && is_denied_dir(#[trigger] s[j]);
            if j < s.len() - 1 {
                assert(is_denied_dir(s[j]));
            }
        }
    }
    if denied || last_denied {
        return false;
    }
    source_extension(&current)
}

/// The paths among `paths` that the indexer visits, in their order.
pub fn find_all_source_files(paths: &Vec<String>) -> (r: Vec<String>)
    ensures
        r@.map_values(|s: String| s@) == source_paths(paths@.map_values(|s: String| s@)),
{
    let mut r: Vec<String> = Vec::new();
    let mut i: usize = 0;
    while i < paths.len()
        invariant
            i <= paths@.len(),
            r@.map_values(|s: String| s@) == source_paths(
                paths@.subrange(0, i as int).map_values(|s: String| s@),
            ),
        decreases paths@.len() - i,
    {
        let ghost pv = paths@.subrange(0, i + 1).map_values(|s: String| s@);
        assert(pv.drop_last() =~= paths@.subrange(0, i as int).map_values(|s: String| s@));
        assert(pv.last() == paths@[i as int]@);
        let ghost before = r@.map_values(|s: String| s@);
        if is_source_path(paths[i].as_str()) {
            r.push(paths[i].clone());
            assert(r@.map_values(|s: String| s@) =~= before.push(paths@[i as int]@));
        }
        i = i + 1;
    }
    assert(paths@.subrange(0, paths@.len() as int) =~= paths@);
    r
}

/// A path with a denylisted directory among its components is never
/// visited, whatever its extension.
pub proof fn lemma_denied_dir_never_visited(p: Seq<char>, i: int)
    requires
        0 <= i < segments(p).len(),
        is_denied_dir(segments(p)[i]),
    ensures
        !is_source_path_spec(p),
{
}

} // verus!
