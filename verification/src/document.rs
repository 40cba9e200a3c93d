//! Documents: the lines of a converted file, and the finalized file that is
//! written for it, which is the header block and then the rewritten lines.

use crate::header::{
    author, date_text, header_block, synthesize, title_of, CalendarDate, TransformContext,
};
use crate::paths::{file_stem, intermediate_path_of, stem_of};
use crate::rewrite::{rewrite_chars, rewritten};
use crate::text::{append_chars, append_range, chars_of, string_of};
use vstd::prelude::*;
use vstd::string::*;

verus! {

/// The number of characters before the first line feed of `s`, or the
/// length of `s` where it holds none.
pub open spec fn line_len(s: Seq<char>) -> nat
    decreases s.len(),
{
    if s.len() == 0 || s[0] == '\n' {
        0
    } else {
        1 + line_len(s.skip(1))
    }
}

/// A line without the carriage return that it may end with.
pub open spec fn without_carriage_return(line: Seq<char>) -> Seq<char> {
    if line.len() > 0 && line.last() == '\r' {
        line.drop_last()
    } else {
        line
    }
}

/// The lines of a text. A line ends with a line feed, before which a
/// carriage return may stand; neither belongs to the line. The last line
/// need not end with a line feed.
pub open spec fn lines_of(s: Seq<char>) -> Seq<Seq<char>>
    decreases s.len(),
{
    if s.len() == 0 {
        Seq::empty()
    } else {
        let k = line_len(s);
        if k >= s.len() {
            seq![s]
        } else {
            seq![without_carriage_return(s.take(k as int))] + lines_of(s.skip((k + 1) as int))
        }
    }
}

/// The lines with a line feed between each two of them.
pub open spec fn joined(lines: Seq<Seq<char>>) -> Seq<char>
    decreases lines.len(),
{
    if lines.len() == 0 {
        Seq::empty()
    } else if lines.len() == 1 {
        lines[0]
    } else {
        joined(lines.drop_last()) + seq!['\n'] + lines.last()
    }
}

/// The lines written one after the other, a line feed behind each.
pub open spec fn lines_written(lines: Seq<Seq<char>>) -> Seq<char>
    decreases lines.len(),
{
    if lines.len() == 0 {
        Seq::empty()
    } else {
        lines_written(lines.drop_last()) + lines.last() + seq!['\n']
    }
}

/// The lines of a document rewritten: the rules applied to the joined lines,
/// and what they make of them split into lines again.
pub open spec fn lines_rewritten(lines: Seq<Seq<char>>) -> Seq<Seq<char>> {
    lines_of(rewritten(joined(lines)))
}

/// The document that is written for the file with the given stem, where
/// `text` was read from the converted file: the header block, then the
/// rewritten lines of the text.
pub open spec fn finalized_document(stem: Seq<char>, date: CalendarDate, text: Seq<char>) -> Seq<
    char,
> {
    header_block(title_of(stem), author(), date_text(date)) + lines_written(
        lines_rewritten(lines_of(text)),
    )
}

/// A line ends at the first line feed of the text, or with the text.
pub proof fn lemma_line_len_bounds(s: Seq<char>)
    ensures
        line_len(s) <= s.len(),
        line_len(s) < s.len() ==> s[line_len(s) as int] == '\n',
        forall|j: int| 0 <= j < line_len(s) ==> #[trigger] s[j] != '\n',
    decreases s.len(),
{
    if !(s.len() == 0 || s[0] == '\n') {
        let rest = s.skip(1);
        lemma_line_len_bounds(rest);
        assert forall|j: int| 0 <= j < line_len(s) implies #[trigger] s[j] != '\n' by {
            if j > 0 {
                assert(rest[j - 1] == s[j]);
            }
        }
    }
}

/// A line written before others stands before what is written of them.
proof fn lemma_lines_written_behind(line: Seq<char>, lines: Seq<Seq<char>>)
    ensures
        lines_written(seq![line] + lines) == line + seq!['\n'] + lines_written(lines),
    decreases lines.len(),
{
    let all = seq![line] + lines;
    if lines.len() == 0 {
        assert(all.drop_last() =~= Seq::<Seq<char>>::empty());
        assert(lines_written(all.drop_last()) =~= Seq::<char>::empty());
        assert(lines_written(all) =~= line + seq!['\n'] + lines_written(lines));
    } else {
        assert(all.drop_last() =~= seq![line] + lines.drop_last());
        lemma_lines_written_behind(line, lines.drop_last());
        assert(lines_written(all) =~= line + seq!['\n'] + lines_written(lines));
    }
}

/// The lines of a text without carriage returns, written one after the
/// other, are the text again, with a line feed at its end where it had none.
pub proof fn lemma_lines_written_back(s: Seq<char>)
    requires
        forall|i: int| 0 <= i < s.len() ==> #[trigger] s[i] != '\r',
    ensures
        lines_written(lines_of(s)) == if s.len() == 0 || s.last() == '\n' {
            s
        } else {
            s.push('\n')
        },
    decreases s.len(),
{
    if s.len() > 0 {
        let k = line_len(s) as int;
        lemma_line_len_bounds(s);
        if k >= s.len() {
            lemma_lines_written_behind(s, Seq::empty());
            assert(seq![s] + Seq::<Seq<char>>::empty() =~= seq![s]);
            assert(lines_written(Seq::<Seq<char>>::empty()) =~= Seq::<char>::empty());
            assert(s + seq!['\n'] + Seq::<char>::empty() =~= s.push('\n'));
        } else {
            let line = s.take(k);
            let rest = s.skip(k + 1);
            assert(without_carriage_return(line) == line) by {
                if line.len() > 0 {
                    assert(line.last() == s[k - 1]);
                }
            }
            assert forall|i: int| 0 <= i < rest.len() implies #[trigger] rest[i] != '\r' by {
                assert(rest[i] == s[k + 1 + i]);
            }
            lemma_lines_written_back(rest);
            lemma_lines_written_behind(line, lines_of(rest));
            assert(s =~= line + seq!['\n'] + rest);
            if rest.len() > 0 {
                assert(rest.last() == s.last());
                assert(line + seq!['\n'] + rest.push('\n') =~= s.push('\n'));
            }
        }
    } else {
        assert(lines_written(lines_of(s)) =~= s);
    }
}

/// Lines that are joined and closed with a line feed are the lines written
/// one after the other.
pub proof fn lemma_joined_and_closed(lines: Seq<Seq<char>>)
    requires
        lines.len() > 0,
    ensures
        joined(lines).push('\n') == lines_written(lines),
    decreases lines.len(),
{
    if lines.len() == 1 {
        assert(lines.drop_last() =~= Seq::<Seq<char>>::empty());
        assert(lines_written(lines.drop_last()) =~= Seq::<char>::empty());
        assert(joined(lines).push('\n') =~= lines_written(lines));
    } else {
        lemma_joined_and_closed(lines.drop_last());
        assert(joined(lines).push('\n') =~= lines_written(lines));
    }
}

/// Finds the end of the line that begins at index `from`.
fn line_end(text: &Vec<char>, from: usize) -> (end: usize)
    requires
        from <= text.len(),
    ensures
        end == from + line_len(text@.skip(from as int)),
        end <= text.len(),
{
    let mut j: usize = from;
    while j < text.len() && text[j] != '\n'
        invariant
            from <= j <= text.len(),
            line_len(text@.skip(from as int)) == (j - from) + line_len(text@.skip(j as int)),
        decreases text.len() - j,
    {
        assert(text@.skip(j as int).skip(1) =~= text@.skip(j + 1));
        j += 1;
    }
    j
}

/// Splits a text into its lines.
pub fn split_lines(text: &str) -> (lines: Vec<String>)
    ensures
        lines.deep_view() == lines_of(text@),
{
    let chars = chars_of(text);
    let mut lines: Vec<String> = Vec::new();
    let mut at: usize = 0;
    assert(chars@.skip(0) =~= chars@);
    assert(lines.deep_view() =~= Seq::<Seq<char>>::empty());
    while at < chars.len()
        invariant
            at <= chars.len(),
            chars@ == text@,
            lines.deep_view() + lines_of(chars@.skip(at as int)) == lines_of(chars@),
        decreases chars.len() - at,
    {
        let ghost rest = chars@.skip(at as int);
        let ghost before = lines.deep_view();
        let end = line_end(&chars, at);
        let ghost k = (end - at) as int;
        proof {
            lemma_line_len_bounds(rest);
        }
        let stop: usize = if end < chars.len() && end > at && chars[end - 1] == '\r' {
            (end - 1) as usize
        } else {
            end
        };
        let mut line: Vec<char> = Vec::new();
        append_range(&mut line, &chars, at, stop);
        lines.push(string_of(&line));
        assert(lines.deep_view() =~= before.push(line@));
        if end == chars.len() {
            proof {
                assert(chars@.subrange(at as int, end as int) =~= rest);
                assert(chars@.skip(end as int) =~= Seq::<char>::empty());
                assert(before + seq![rest] =~= before.push(line@) + Seq::<Seq<char>>::empty());
            }
            at = end;
        } else {
            proof {
                let tail = chars@.skip(end + 1);
                assert(rest.take(k) =~= chars@.subrange(at as int, end as int));
                assert(without_carriage_return(rest.take(k)) =~= chars@.subrange(
                    at as int,
                    stop as int,
                ));
                assert(rest.skip(k + 1) =~= tail);
                assert(before + (seq![line@] + lines_of(tail)) =~= before.push(line@) + lines_of(
                    tail,
                ));
            }
            at = end + 1;
        }
    }
    assert(lines.deep_view() + Seq::<Seq<char>>::empty() =~= lines.deep_view());
    lines
}

/// Joins lines with a line feed between each two of them.
pub fn join_lines(lines: &Vec<String>) -> (text: String)
    ensures
        text@ == joined(lines.deep_view()),
{
    let mut out: Vec<char> = Vec::new();
    let mut i: usize = 0;
    assert(lines.deep_view().take(0) =~= Seq::<Seq<char>>::empty());
    while i < lines.len()
        invariant
            i <= lines.len(),
            out@ == joined(lines.deep_view().take(i as int)),
        decreases lines.len() - i,
    {
        let ghost seen = lines.deep_view().take(i as int);
        let ghost next = lines.deep_view().take(i + 1);
        if i > 0 {
            out.push('\n');
        }
        let line = chars_of(lines[i].as_str());
        append_chars(&mut out, &line);
        proof {
            assert(next.drop_last() =~= seen);
            assert(next.last() == line@);
            if i == 0 {
                assert(seen.len() == 0);
                assert(out@ =~= line@);
            }
        }
        i += 1;
    }
    assert(lines.deep_view().take(lines.len() as int) =~= lines.deep_view());
    string_of(&out)
}

/// Writes lines one after the other, a line feed behind each.
pub fn write_lines(lines: &Vec<String>, out: &mut Vec<char>)
    ensures
        final(out)@ == old(out)@ + lines_written(lines.deep_view()),
{
    let mut i: usize = 0;
    assert(lines.deep_view().take(0) =~= Seq::<Seq<char>>::empty());
    assert(out@ =~= old(out)@ + lines_written(lines.deep_view().take(0)));
    while i < lines.len()
        invariant
            i <= lines.len(),
            out@ == old(out)@ + lines_written(lines.deep_view().take(i as int)),
        decreases lines.len() - i,
    {
        let ghost seen = lines.deep_view().take(i as int);
        let ghost next = lines.deep_view().take(i + 1);
        let ghost before = out@;
        let line = chars_of(lines[i].as_str());
        append_chars(out, &line);
        out.push('\n');
        proof {
            assert(next.drop_last() =~= seen);
            assert(next.last() == line@);
            assert(out@ =~= old(out)@ + (lines_written(seen) + line@ + seq!['\n']));
        }
        i += 1;
    }
    assert(lines.deep_view().take(lines.len() as int) =~= lines.deep_view());
}

/// A document: the lines that were read from a file, with the path and the
/// stem of the file. A document is not changed; rewriting it gives another
/// document.
#[derive(Debug)]
pub struct Document {
    pub path: String,
    pub stem: String,
    pub lines: Vec<String>,
}

pub struct DocumentView {
    pub path: Seq<char>,
    pub stem: Seq<char>,
    pub lines: Seq<Seq<char>>,
}

impl View for Document {
    type V = DocumentView;

    open spec fn view(&self) -> DocumentView {
        DocumentView { path: self.path@, stem: self.stem@, lines: self.lines.deep_view() }
    }
}

/// The document that the text of the file `path` holds; none where the
/// file has no stem.
pub open spec fn document_read(path: Seq<char>, text: Seq<char>) -> Option<DocumentView> {
    match file_stem(path) {
        Some(stem) => Some(DocumentView { path, stem, lines: lines_of(text) }),
        None => None,
    }
}

impl Document {
    /// Reads the document that the text of the file `path` holds.
    pub fn read(path: &str, text: &str) -> (document: Option<Document>)
        ensures
            match document_read(path@, text@) {
                Some(read) => document matches Some(found) && found@ == read,
                None => document is None,
            },
    {
        match stem_of(path) {
            Some(stem) => Some(
                Document { path: String::from_str(path), stem, lines: split_lines(text) },
            ),
            None => None,
        }
    }

    /// The text of the document: its lines, joined.
    pub fn text(&self) -> (text: String)
        ensures
            text@ == joined(self@.lines),
    {
        join_lines(&self.lines)
    }

    /// The document rewritten: the same file, with the lines that the rules
    /// make of the text of this document.
    pub fn rewritten(&self) -> (document: Document)
        ensures
            document@ == (DocumentView {
                path: self@.path,
                stem: self@.stem,
                lines: lines_rewritten(self@.lines),
            }),
    {
        let text = join_lines(&self.lines);
        let done = rewrite_chars(&chars_of(text.as_str()));
        Document {
            path: self.path.clone(),
            stem: self.stem.clone(),
            lines: split_lines(string_of(&done).as_str()),
        }
    }

    /// The file that is written for the document: the header, then the
    /// lines, a line feed behind each.
    pub fn written_after(&self, header: &str) -> (file: String)
        ensures
            file@ == header@ + lines_written(self@.lines),
    {
        let mut out = chars_of(header);
        write_lines(&self.lines, &mut out);
        string_of(&out)
    }
}

/// Builds the document that is written for the file with the given stem,
/// where `text` was read from the converted file: the header block for the
/// stem and the day, then the rewritten lines of the text.
pub fn finalize_document(stem: &str, date: CalendarDate, text: &str) -> (document: String)
    ensures
        document@ == finalized_document(stem@, date, text@),
{
    let header = synthesize(TransformContext::new(stem, date));
    let document = Document {
        path: intermediate_path_of(stem),
        stem: String::from_str(stem),
        lines: split_lines(text),
    };
    document.rewritten().written_after(header.as_str())
}

} // verus!
