//! The batch: which files a run takes up.

use crate::paths::{derived_suffix, eligible, has_markdown_extension, is_eligible};
use crate::text::{append_range, chars_of, ends_with, has_at, starts_with, string_of};
use vstd::prelude::*;
use vstd::string::*;

verus! {

/// Which files a run takes up: every eligible file of the directory, or the
/// one file that was named.
#[derive(Debug)]
pub enum Selector {
    All,
    Single(String),
}

pub enum SelectorView {
    All,
    Single(Seq<char>),
}

impl View for Selector {
    type V = SelectorView;

    open spec fn view(&self) -> SelectorView {
        match self {
            Selector::All => SelectorView::All,
            Selector::Single(name) => SelectorView::Single(name@),
        }
    }
}

/// What is wrong with the arguments of the program.
#[derive(Clone, Copy, Debug, PartialEq, Eq, Structural)]
pub enum UsageError {
    /// `--single-file` stands without a file name behind it.
    MissingFileName,
}

/// The flag that restricts a run to one file.
pub open spec fn single_file_flag() -> Seq<char> {
    "--single-file"@
}

/// What the arguments of the program ask for. The first argument is the
/// name of the program. Where the second is the flag, the third names the
/// file, and its absence is an error. Any other arguments ask for every
/// eligible file.
pub open spec fn parsed_arguments(arguments: Seq<Seq<char>>) -> Result<SelectorView, UsageError> {
    if arguments.len() > 1 && arguments[1] == single_file_flag() {
        if arguments.len() > 2 {
            Ok(SelectorView::Single(arguments[2]))
        } else {
            Err(UsageError::MissingFileName)
        }
    } else {
        Ok(SelectorView::All)
    }
}

/// Whether a character separates the parts of a path.
pub open spec fn is_separator(c: char) -> bool {
    c == '/' || c == '\\'
}

/// A path as seen from the directory `directory`: what follows the
/// directory and a separator, where the path begins with them, and the path
/// as it is elsewhere.
pub open spec fn relative_to(path: Seq<char>, directory: Seq<char>) -> Seq<char> {
    if directory.len() > 0 && starts_with(path, directory) && path.len() > directory.len()
        && is_separator(path[directory.len() as int]) {
        path.skip((directory.len() + 1) as int)
    } else {
        path
    }
}

/// Whether a run takes up the file `name` of the directory `directory`.
pub open spec fn is_selected(selector: SelectorView, directory: Seq<char>, name: Seq<char>) -> bool {
    match selector {
        SelectorView::All => is_eligible(name),
        SelectorView::Single(path) => name == relative_to(path, directory),
    }
}

/// The files that a run takes up among the entries of the directory, in the
/// order of the entries.
pub open spec fn selected_files(
    selector: SelectorView,
    directory: Seq<char>,
    entries: Seq<Seq<char>>,
) -> Seq<Seq<char>> {
    entries.filter(|name: Seq<char>| is_selected(selector, directory, name))
}

/// The message that tells the user what is wrong with the arguments.
pub open spec fn usage_message(error: UsageError) -> Seq<char> {
    match error {
        UsageError::MissingFileName => "--single-file requires a filename argument"@,
    }
}

impl UsageError {
    /// Writes the message that tells the user what is wrong.
    pub fn message(&self) -> (text: String)
        ensures
            text@ == usage_message(*self),
    {
        match self {
            UsageError::MissingFileName => String::from_str(
                "--single-file requires a filename argument",
            ),
        }
    }
}

/// Reads the arguments of the program.
pub fn parse_arguments(arguments: &Vec<String>) -> (parsed: Result<Selector, UsageError>)
    ensures
        match parsed_arguments(arguments.deep_view()) {
            Ok(selector) => parsed matches Ok(found) && found@ == selector,
            Err(error) => parsed == Err::<Selector, UsageError>(error),
        },
{
    let flag = String::from_str("--single-file");
    if arguments.len() > 1 && arguments[1] == flag {
        if arguments.len() > 2 {
            Ok(Selector::Single(arguments[2].clone()))
        } else {
            Err(UsageError::MissingFileName)
        }
    } else {
        Ok(Selector::All)
    }
}

/// Resolves a path against a directory.
pub fn resolve(path: &str, directory: &str) -> (name: String)
    ensures
        name@ == relative_to(path@, directory@),
{
    let p = chars_of(path);
    let d = chars_of(directory);
    if d.len() > 0 && has_at(&p, 0, &d) && p.len() > d.len() && (p[d.len()] == '/' || p[d.len()]
        == '\\') {
        let mut out: Vec<char> = Vec::new();
        append_range(&mut out, &p, d.len() + 1, p.len());
        assert(p@.skip(0) =~= p@);
        assert(p@.subrange(d.len() + 1, p.len() as int) =~= p@.skip(d.len() + 1));
        string_of(&out)
    } else {
        assert(p@.skip(0) =~= p@);
        String::from_str(path)
    }
}

/// Picks the files that a run takes up among the entries of the directory
/// `directory`, in the order of the entries.
pub fn select_files(selector: &Selector, directory: &str, entries: &Vec<String>) -> (files: Vec<
    String,
>)
    ensures
        files.deep_view() == selected_files(selector@, directory@, entries.deep_view()),
{
    let wanted: Option<String> = match selector {
        Selector::All => None,
        Selector::Single(path) => Some(resolve(path.as_str(), directory)),
    };
    let ghost pred = |name: Seq<char>| is_selected(selector@, directory@, name);
    let mut files: Vec<String> = Vec::new();
    let mut i: usize = 0;
    assert(entries.deep_view().take(0) =~= Seq::<Seq<char>>::empty());
    proof {
        reveal(Seq::filter);
    }
    assert(files.deep_view() =~= entries.deep_view().take(0).filter(pred));
    while i < entries.len()
        invariant
            i <= entries.len(),
            pred == |name: Seq<char>| is_selected(selector@, directory@, name),
            match selector@ {
                SelectorView::All => wanted is None,
                SelectorView::Single(path) => wanted matches Some(w) && w@ == relative_to(
                    path,
                    directory@,
                ),
            },
            files.deep_view() == entries.deep_view().take(i as int).filter(pred),
        decreases entries.len() - i,
    {
        let name = &entries[i];
        let take = match &wanted {
            None => eligible(name.as_str()),
            Some(w) => *name == *w,
        };
        let ghost before = files.deep_view();
        let ghost seen = entries.deep_view().take(i as int);
        let ghost next = entries.deep_view().take(i + 1);
        proof {
            reveal(Seq::filter);
            assert(next.drop_last() =~= seen);
            assert(next.last() == name@);
            assert(take == pred(name@));
        }
        if take {
            files.push(name.clone());
            assert(files.deep_view() =~= before.push(name@));
        }
        i += 1;
    }
    assert(entries.deep_view().take(entries.len() as int) =~= entries.deep_view());
    files
}

/// A file is taken up exactly where it is an entry of the directory that
/// the selector asks for.
pub proof fn lemma_selected_files_are_the_selected_entries(
    selector: SelectorView,
    directory: Seq<char>,
    entries: Seq<Seq<char>>,
    name: Seq<char>,
)
    ensures
        selected_files(selector, directory, entries).contains(name) <==> entries.contains(name)
            && is_selected(selector, directory, name),
{
    let pred = |name: Seq<char>| is_selected(selector, directory, name);
    if entries.filter(pred).contains(name) {
        entries.lemma_filter_contains_rev(pred, name);
    }
    if entries.contains(name) && is_selected(selector, directory, name) {
        let i = choose|i: int| 0 <= i < entries.len() && entries[i] == name;
        entries.lemma_filter_contains(pred, i);
    }
}

/// A run for one named file takes up that file and no other, whatever else
/// the directory holds.
pub proof fn lemma_single_file_only(path: Seq<char>, directory: Seq<char>, entries: Seq<Seq<char>>)
    ensures
        forall|i: int|
            0 <= i < selected_files(SelectorView::Single(path), directory, entries).len()
                ==> #[trigger] selected_files(SelectorView::Single(path), directory, entries)[i]
                == relative_to(path, directory),
        entries.contains(relative_to(path, directory)) ==> selected_files(
            SelectorView::Single(path),
            directory,
            entries,
        ).contains(relative_to(path, directory)),
{
    let selector = SelectorView::Single(path);
    let pred = |name: Seq<char>| is_selected(selector, directory, name);
    let files = selected_files(selector, directory, entries);
    assert forall|i: int| 0 <= i < files.len() implies #[trigger] files[i] == relative_to(
        path,
        directory,
    ) by {
        entries.lemma_filter_pred(pred, i);
    }
    lemma_selected_files_are_the_selected_entries(
        selector,
        directory,
        entries,
        relative_to(path, directory),
    );
}

/// A run for the whole directory takes up Markdown files only, and none
/// that carries the double extension of derived files.
pub proof fn lemma_all_skips_derived_files(directory: Seq<char>, entries: Seq<Seq<char>>)
    ensures
        forall|i: int|
            0 <= i < selected_files(SelectorView::All, directory, entries).len() ==> {
                let name = #[trigger] selected_files(SelectorView::All, directory, entries)[i];
                has_markdown_extension(name) && !ends_with(name, derived_suffix())
            },
{
    let pred = |name: Seq<char>| is_selected(SelectorView::All, directory, name);
    let files = selected_files(SelectorView::All, directory, entries);
    assert forall|i: int| 0 <= i < files.len() implies {
        let name = #[trigger] files[i];
        has_markdown_extension(name) && !ends_with(name, derived_suffix())
    } by {
        entries.lemma_filter_pred(pred, i);
    }
}

} // verus!
