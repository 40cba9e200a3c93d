//! What the link rule does to links: a link to a Markdown file with a
//! plain target is retargeted, and a text without the closing of such a
//! link is left as it is.

use crate::locality::is_on_one_line;
use crate::occurrences::{lemma_apply_without_occurrence, occurs};
use crate::rules::{
    apply, find_on_line, lemma_find_on_line_bounds, lemma_find_on_line_finds,
    lemma_find_on_line_is_first, lemma_match_bounds, link_close_document, link_close_markdown,
    link_open, Rule,
};
use crate::text::{holds, lemma_starts_with_chars, starts_with};
use vstd::prelude::*;

verus! {

/// The characters of the opening and the closing of a link.
pub(crate) proof fn lemma_link_literals()
    ensures
        link_open().len() == 7,
        link_close_markdown().len() == 5,
        link_open()[0] == '#',
        forall|j: int| 0 <= j < 7 ==> #[trigger] link_open()[j] != '.',
        forall|j: int| 0 <= j < 5 ==> #[trigger] link_close_markdown()[j] != '#',
        forall|j: int| 1 <= j < 5 ==> #[trigger] link_close_markdown()[j] != '.',
        link_close_markdown()[0] == '.',
        link_close_markdown()[1] == 'm',
{
    reveal_strlit("#link(\"");
    reveal_strlit(".md\")");
}

/// The shape of a link that the link rule matches at the start of `s`, and
/// of what the rule writes for it: up to the `.` of the extension the two
/// are the same, then `md")` stands in the text and `pdf")` in what is
/// written.
pub(crate) proof fn lemma_link_rewrite_shape(s: Seq<char>)
    requires
        Rule::LinkTarget.matches_prefix(s),
    ensures
        ({
            let m = Rule::LinkTarget.match_prefix(s)->0;
            let dot = m.consumed - 5;
            &&& dot >= 7
            &&& m.consumed <= s.len()
            &&& m.replacement.len() == m.consumed + 1
            &&& starts_with(s, link_open())
            &&& starts_with(s.skip(dot), link_close_markdown())
            &&& forall|j: int| 0 <= j <= dot ==> #[trigger] m.replacement[j] == s[j]
            &&& forall|j: int| 7 <= j < dot ==> #[trigger] s[j] != '\n'
            &&& forall|j: int|
                7 <= j < dot ==> !starts_with(#[trigger] s.skip(j), link_close_markdown())
            &&& s[dot] == '.' && s[dot + 1] == 'm' && s[dot + 2] == 'd' && s[dot + 3] == '"' && s[dot
                + 4] == ')'
            &&& m.replacement[dot + 1] == 'p' && m.replacement[dot + 2] == 'd' && m.replacement[dot
                + 3] == 'f' && m.replacement[dot + 4] == '"' && m.replacement[dot + 5] == ')'
        }),
{
    reveal_strlit("#link(\"");
    reveal_strlit(".md\")");
    reveal_strlit(".pdf\")");
    let m = Rule::LinkTarget.match_prefix(s)->0;
    let target = s.skip(7);
    let close = link_close_markdown();
    let written = link_close_document();
    lemma_find_on_line_bounds(target, close);
    lemma_find_on_line_is_first(target, close);
    let k = find_on_line(target, close)->0 as int;
    let dot = 7 + k;
    let r = m.replacement;
    assert(r == link_open() + target.take(k) + written);
    assert(r.len() == dot + 6);
    assert(target.skip(k) =~= s.skip(dot));
    let tail = s.skip(dot).take(5);
    assert(tail[0] == s[dot] && tail[1] == s[dot + 1] && tail[2] == s[dot + 2] && tail[3] == s[dot
        + 3] && tail[4] == s[dot + 4]);
    assert(r[dot] == written[0] && r[dot + 1] == written[1] && r[dot + 2] == written[2] && r[dot
        + 3] == written[3] && r[dot + 4] == written[4] && r[dot + 5] == written[5]);
    assert forall|j: int| 0 <= j <= dot implies #[trigger] r[j] == s[j] by {
        if j < 7 {
            assert(r[j] == link_open()[j]);
            assert(s.take(7)[j] == s[j]);
        } else if j < dot {
            assert(r[j] == target.take(k)[j - 7]);
            assert(target.take(k)[j - 7] == s[j]);
        }
    }
    assert forall|j: int| 7 <= j < dot implies #[trigger] s[j] != '\n' by {
        assert(target[j - 7] == s[j]);
    }
    assert forall|j: int| 7 <= j < dot implies !starts_with(#[trigger] s.skip(j), close) by {
        assert(target.skip(j - 7) =~= s.skip(j));
    }
}

/// A link at the start of a text whose target holds neither a line break
/// nor the closing of a link to a Markdown file is a match of the link rule,
/// which ends with the closing of the link.
pub(crate) proof fn lemma_plain_link_matches(s: Seq<char>, e: int)
    requires
        7 <= e <= s.len(),
        starts_with(s, link_open()),
        starts_with(s.skip(e), link_close_markdown()),
        is_on_one_line(s.subrange(7, e)),
        !holds(s.subrange(7, e), link_close_markdown()),
    ensures
        Rule::LinkTarget.matches_prefix(s),
        find_on_line(s.skip(7), link_close_markdown()) == Some((e - 7) as nat),
{
    lemma_link_literals();
    let close = link_close_markdown();
    let target = s.skip(7);
    let plain = s.subrange(7, e);
    assert(target.skip(e - 7) =~= s.skip(e));
    lemma_starts_with_chars(s.skip(e), close);
    assert forall|j: int| 0 <= j < e - 7 implies #[trigger] target[j] != '\n' by {
        assert(plain[j] == target[j]);
    }
    assert forall|j: int| 0 <= j < e - 7 implies !starts_with(#[trigger] target.skip(j), close) by {
        if starts_with(target.skip(j), close) {
            lemma_starts_with_chars(target.skip(j), close);
            if 7 + j + 5 <= e {
                assert(plain.skip(j).take(5) =~= target.skip(j).take(5));
            } else {
                let k = e - 7 - j;
                assert(target.skip(j)[k] == s[e]);
                assert(s.skip(e)[0] == s[e]);
                assert(close[k] == '.');
            }
        }
    }
    lemma_find_on_line_finds(target, close, e - 7);
    lemma_match_bounds(Rule::LinkTarget, s);
}

/// The link rule matches nowhere in a text that holds no `.md")`.
pub proof fn lemma_no_link_without_markdown_close(t: Seq<char>)
    requires
        !holds(t, link_close_markdown()),
    ensures
        !occurs(Rule::LinkTarget, t),
{
    assert forall|i: int| 0 <= i < t.len() implies !#[trigger] Rule::LinkTarget.matches_prefix(
        t.skip(i),
    ) by {
        if Rule::LinkTarget.matches_prefix(t.skip(i)) {
            lemma_link_rewrite_shape(t.skip(i));
            let dot = Rule::LinkTarget.match_prefix(t.skip(i))->0.consumed - 5;
            assert(t.skip(i).skip(dot) =~= t.skip(i + dot));
        }
    }
}

/// A link to a Markdown file whose target holds neither a line break nor the
/// closing of such a link is retargeted to the compiled document.
pub proof fn lemma_plain_link_is_retargeted(target: Seq<char>)
    requires
        is_on_one_line(target),
        !holds(target, link_close_markdown()),
    ensures
        apply(Rule::LinkTarget, link_open() + target + link_close_markdown()) == link_open()
            + target + link_close_document(),
{
    lemma_link_literals();
    let s = link_open() + target + link_close_markdown();
    let e = 7 + target.len() as int;
    assert(s.take(7) =~= link_open());
    assert(s.skip(e).take(5) =~= link_close_markdown());
    assert(s.subrange(7, e) =~= target);
    lemma_plain_link_matches(s, e);
    let m = Rule::LinkTarget.match_prefix(s)->0;
    assert(s.skip(7).take(e - 7) =~= target);
    assert(s.skip(s.len() as int).len() == 0);
    assert(m.replacement + apply(Rule::LinkTarget, s.skip(s.len() as int)) =~= m.replacement);
}

/// A text that holds no closing of a link to a Markdown file is left as it
/// is: links to other files keep their targets.
pub proof fn lemma_other_links_are_kept(t: Seq<char>)
    requires
        !holds(t, link_close_markdown()),
    ensures
        apply(Rule::LinkTarget, t) == t,
{
    lemma_no_link_without_markdown_close(t);
    lemma_apply_without_occurrence(Rule::LinkTarget, t);
}

} // verus!
