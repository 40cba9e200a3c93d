//! File names: the stem of a file, the files that belong to a document and
//! the names of the documents that a batch takes up.

use crate::text::{append_range, chars_of, ends_with, has_at, string_of};
use vstd::prelude::*;
use vstd::string::*;

verus! {

/// The index of the last `.` of a name, if it has one.
pub open spec fn last_dot(name: Seq<char>) -> Option<int>
    decreases name.len(),
{
    if name.len() == 0 {
        None
    } else if name.last() == '.' {
        Some(name.len() - 1)
    } else {
        last_dot(name.drop_last())
    }
}

/// The stem of a file name: the name without its extension. The names `.`
/// and `..` and the empty name have none. A name without a `.`, or with its
/// only `.` at the front, is its own stem.
pub open spec fn file_stem(name: Seq<char>) -> Option<Seq<char>> {
    if name.len() == 0 || name == "."@ || name == ".."@ {
        None
    } else {
        match last_dot(name) {
            Some(k) => if k > 0 {
                Some(name.take(k))
            } else {
                Some(name)
            },
            None => Some(name),
        }
    }
}

/// The extension of Markdown files, with its dot.
pub open spec fn markdown_suffix() -> Seq<char> {
    ".md"@
}

/// The double extension of files that were derived from a document.
pub open spec fn derived_suffix() -> Seq<char> {
    ".comp.md"@
}

/// Whether the extension of a file name is `md`.
pub open spec fn has_markdown_extension(name: Seq<char>) -> bool {
    name.len() > markdown_suffix().len() && ends_with(name, markdown_suffix())
}

/// Whether a batch takes a file up: it is a Markdown file and no derived
/// one.
pub open spec fn is_eligible(name: Seq<char>) -> bool {
    has_markdown_extension(name) && !ends_with(name, derived_suffix())
}

/// The file that the converter writes for a document.
pub open spec fn intermediate_path(stem: Seq<char>) -> Seq<char> {
    stem + ".typ"@
}

/// The file that the finalized document is written to before it replaces
/// the intermediate file.
pub open spec fn temp_path(stem: Seq<char>) -> Seq<char> {
    intermediate_path(stem) + ".temp"@
}

/// The last `.` of a name is a `.`, and none follows it.
pub proof fn lemma_last_dot(name: Seq<char>)
    ensures
        match last_dot(name) {
            Some(k) => 0 <= k < name.len() && name[k] == '.' && forall|j: int|
                k < j < name.len() ==> name[j] != '.',
            None => forall|j: int| 0 <= j < name.len() ==> name[j] != '.',
        },
    decreases name.len(),
{
    if name.len() > 0 && name.last() != '.' {
        let front = name.drop_last();
        lemma_last_dot(front);
        assert forall|j: int| 0 <= j < front.len() implies front[j] == name[j] by {}
    }
}

/// The stem of a file is not empty.
pub proof fn lemma_stem_is_not_empty(name: Seq<char>)
    ensures
        file_stem(name) matches Some(stem) ==> stem.len() > 0,
{
    lemma_last_dot(name);
}

/// The intermediate file of a document has the stem of the document, so
/// that the title of the document can be read off either file.
pub proof fn lemma_intermediate_keeps_stem(name: Seq<char>)
    ensures
        file_stem(name) matches Some(stem) ==> file_stem(intermediate_path(stem)) == Some(stem),
{
    if let Some(stem) = file_stem(name) {
        lemma_stem_is_not_empty(name);
        reveal_strlit(".typ");
        reveal_strlit(".");
        reveal_strlit("..");
        let path = intermediate_path(stem);
        let n = stem.len() as int;
        assert(path.len() == n + 4);
        assert(path[n] == '.' && path[n + 1] == 't' && path[n + 2] == 'y' && path[n + 3] == 'p');
        let p3 = path.drop_last();
        let p2 = p3.drop_last();
        let p1 = p2.drop_last();
        assert(path.last() == 'p');
        assert(p3.last() == 'y');
        assert(p2.last() == 't');
        assert(p1.last() == '.');
        assert(last_dot(p1) == Some(n));
        assert(last_dot(p2) == last_dot(p1));
        assert(last_dot(p3) == last_dot(p2));
        assert(last_dot(path) == Some(n));
        assert(path.take(n) =~= stem);
    }
}

/// Documents with different stems have different intermediate files and
/// different temporary files, and no temporary file is the intermediate
/// file of any document.
pub proof fn lemma_paths_do_not_collide(a: Seq<char>, b: Seq<char>)
    ensures
        a != b ==> intermediate_path(a) != intermediate_path(b),
        a != b ==> temp_path(a) != temp_path(b),
        temp_path(a) != intermediate_path(b),
{
    reveal_strlit(".typ");
    reveal_strlit(".temp");
    if intermediate_path(a) == intermediate_path(b) {
        assert(intermediate_path(a).len() == a.len() + 4);
        assert(intermediate_path(a).take(a.len() as int) =~= a);
        assert(intermediate_path(b).take(b.len() as int) =~= b);
    }
    if temp_path(a) == temp_path(b) {
        assert(temp_path(a).len() == a.len() + 9);
        assert(temp_path(a).take(a.len() as int) =~= a);
        assert(temp_path(b).take(b.len() as int) =~= b);
    }
    if temp_path(a) == intermediate_path(b) {
        assert(temp_path(a).last() == 'p');
        assert(temp_path(a)[temp_path(a).len() - 2] == 'm');
        assert(intermediate_path(b)[intermediate_path(b).len() - 2] == 'y');
    }
}

/// Finds the last `.` of a name.
fn last_dot_at(name: &Vec<char>) -> (found: Option<usize>)
    ensures
        match last_dot(name@) {
            Some(k) => found == Some(k as usize),
            None => found is None,
        },
{
    let mut k: usize = name.len();
    assert(name@.take(k as int) =~= name@);
    while k > 0
        invariant
            k <= name.len(),
            last_dot(name@) == last_dot(name@.take(k as int)),
        decreases k,
    {
        assert(name@.take(k as int).drop_last() =~= name@.take(k - 1));
        if name[k - 1] == '.' {
            return Some(k - 1);
        }
        k -= 1;
    }
    assert(name@.take(0).len() == 0);
    None
}

/// Tests whether `name` ends with `suffix`.
fn ends_with_chars(name: &Vec<char>, suffix: &Vec<char>) -> (b: bool)
    ensures
        b == ends_with(name@, suffix@),
{
    if suffix.len() > name.len() {
        return false;
    }
    let at: usize = name.len() - suffix.len();
    let found = has_at(name, at, suffix);
    assert(name@.skip(at as int).take(suffix.len() as int) =~= name@.skip(at as int));
    found
}

/// The stem of a file name.
pub fn stem_of(name: &str) -> (stem: Option<String>)
    ensures
        match file_stem(name@) {
            Some(s) => stem matches Some(found) && found@ == s,
            None => stem is None,
        },
{
    let chars = chars_of(name);
    proof {
        reveal_strlit(".");
        reveal_strlit("..");
        assert(chars@ == "."@ <==> chars@.len() == 1 && chars@[0] == '.') by {
            if chars@.len() == 1 && chars@[0] == '.' {
                assert(chars@ =~= "."@);
            }
        }
        assert(chars@ == ".."@ <==> chars@.len() == 2 && chars@[0] == '.' && chars@[1] == '.') by {
            if chars@.len() == 2 && chars@[0] == '.' && chars@[1] == '.' {
                assert(chars@ =~= ".."@);
            }
        }
    }
    if chars.len() == 0 || (chars.len() == 1 && chars[0] == '.') || (chars.len() == 2 && chars[0]
        == '.' && chars[1] == '.') {
        return None;
    }
    proof {
        lemma_last_dot(chars@);
    }
    let end: usize = match last_dot_at(&chars) {
        Some(k) => if k > 0 {
            k
        } else {
            chars.len()
        },
        None => chars.len(),
    };
    let mut out: Vec<char> = Vec::new();
    append_range(&mut out, &chars, 0, end);
    assert(chars@.subrange(0, end as int) =~= chars@.take(end as int));
    assert(chars@.take(chars@.len() as int) =~= chars@);
    Some(string_of(&out))
}

/// Tests whether a batch takes a file up.
pub fn eligible(name: &str) -> (b: bool)
    ensures
        b == is_eligible(name@),
{
    let chars = chars_of(name);
    let markdown = chars_of(".md");
    let derived = chars_of(".comp.md");
    chars.len() > markdown.len() && ends_with_chars(&chars, &markdown) && !ends_with_chars(
        &chars,
        &derived,
    )
}

/// The path of the file that the converter writes for a document.
pub fn intermediate_path_of(stem: &str) -> (path: String)
    ensures
        path@ == intermediate_path(stem@),
{
    let mut path = String::from_str(stem);
    path.append(".typ");
    path
}

/// The path of the file that the finalized document is written to first.
pub fn temp_path_of(stem: &str) -> (path: String)
    ensures
        path@ == temp_path(stem@),
{
    let mut path = intermediate_path_of(stem);
    path.append(".temp");
    path
}

} // verus!
