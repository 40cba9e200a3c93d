//! Texts that the line rules bring to rest at once: where every link to a
//! Markdown file is closed plainly and no escaped page break stands behind
//! a backslash, a second application of the line rules changes nothing.

use crate::changes::lemma_line_rules_idempotent;
use crate::links::{
    lemma_link_literals, lemma_link_rewrite_shape, lemma_no_link_without_markdown_close,
    lemma_plain_link_matches,
};
use crate::locality::is_on_one_line;
use crate::occurrences::{is_literal_rule, replacement_of};
use crate::rewrite::line_rules_applied;
use crate::rules::{
    apply, escaped_pagebreak, lemma_match_bounds, link_close_markdown, link_open, pagebreak,
    space, Rule,
};
use crate::text::{holds, lemma_starts_with_chars, starts_with};
use vstd::prelude::*;

verus! {

/// A text in which each `#` is followed by a character other than `l`: no
/// link opens in it, nor at its end.
pub open spec fn opens_no_link(w: Seq<char>) -> bool {
    forall|j: int| 0 <= j < w.len() && #[trigger] w[j] == '#' ==> j + 1 < w.len() && w[j + 1] != 'l'
}

/// A text begins with `w` where it is not empty, begins with the first
/// character of `w` and goes on with the rest of `w`.
proof fn lemma_starts_with_by_parts(t: Seq<char>, w: Seq<char>)
    requires
        w.len() > 0,
        t.len() > 0,
        t[0] == w[0],
        starts_with(t.skip(1), w.skip(1)),
    ensures
        starts_with(t, w),
{
    assert forall|j: int| 0 <= j < w.len() implies t.take(w.len() as int)[j] == w[j] by {
        if j > 0 {
            assert(t.skip(1).take(w.len() - 1)[j - 1] == w.skip(1)[j - 1]);
        }
    }
    assert(t.take(w.len() as int) =~= w);
}

/// A text that begins with `w` goes on with the rest of `w` behind its
/// first character.
proof fn lemma_starts_with_rest(t: Seq<char>, w: Seq<char>)
    requires
        w.len() > 0,
        starts_with(t, w),
    ensures
        t.len() > 0,
        t[0] == w[0],
        starts_with(t.skip(1), w.skip(1)),
{
    assert(t.take(w.len() as int)[0] == w[0]);
    assert forall|j: int| 0 <= j < w.len() - 1 implies t.skip(1).take(w.len() - 1)[j] == w.skip(
        1,
    )[j] by {
        assert(t.take(w.len() as int)[j + 1] == w[j + 1]);
    }
    assert(t.skip(1).take(w.len() - 1) =~= w.skip(1));
}

/// Where what a literal rule makes of a text begins with `w`, and the
/// replacement of the rule begins with a character that `w` does not hold,
/// the text begins with `w` itself.
proof fn lemma_literal_prefix_reflects(rule: Rule, t: Seq<char>, w: Seq<char>)
    requires
        is_literal_rule(rule),
        starts_with(apply(rule, t), w),
        forall|j: int| 0 <= j < w.len() ==> #[trigger] w[j] != replacement_of(rule)[0],
    ensures
        starts_with(t, w),
    decreases w.len(),
{
    reveal_strlit("#pagebreak");
    reveal_strlit(" ");
    if w.len() == 0 {
        assert(t.take(0) =~= w);
    } else {
        let out = apply(rule, t);
        lemma_starts_with_rest(out, w);
        lemma_match_bounds(rule, t);
        assert(t.len() > 0);
        if rule.matches_prefix(t) {
            assert(out[0] == replacement_of(rule)[0]);
            assert(w[0] != replacement_of(rule)[0]);
        } else {
            assert(out.skip(1) =~= apply(rule, t.skip(1)));
            assert forall|j: int| 0 <= j < w.skip(1).len() implies #[trigger] w.skip(1)[j]
                != replacement_of(rule)[0] by {
                assert(w.skip(1)[j] == w[j + 1]);
            }
            lemma_literal_prefix_reflects(rule, t.skip(1), w.skip(1));
            lemma_starts_with_by_parts(t, w);
        }
    }
}

/// A literal rule brings no text into being that shares no character with
/// its replacement: where such a text stands in what the rule makes, it
/// stood in the text before.
pub proof fn lemma_literal_rule_adds_no(rule: Rule, t: Seq<char>, x: Seq<char>)
    requires
        is_literal_rule(rule),
        x.len() > 0,
        forall|i: int, j: int|
            0 <= i < x.len() && 0 <= j < replacement_of(rule).len() ==> #[trigger] x[i]
                != #[trigger] replacement_of(rule)[j],
        holds(apply(rule, t), x),
    ensures
        holds(t, x),
    decreases t.len(),
{
    reveal_strlit("#pagebreak");
    reveal_strlit(" ");
    let out = apply(rule, t);
    let repl = replacement_of(rule);
    let i = choose|i: int| 0 <= i <= out.len() && starts_with(#[trigger] out.skip(i), x);
    lemma_match_bounds(rule, t);
    assert(out.skip(i).take(x.len() as int)[0] == x[0]);
    assert(t.len() > 0);
    if rule.matches_prefix(t) {
        let m = rule.match_prefix(t)->0;
        let rest = t.skip(m.consumed as int);
        if i < repl.len() {
            assert(out[i] == repl[i]);
            assert(x[0] != repl[i]);
        } else {
            assert(out.skip(i) =~= apply(rule, rest).skip(i - repl.len()));
            lemma_literal_rule_adds_no(rule, rest, x);
            let k = choose|k: int| 0 <= k <= rest.len() && starts_with(#[trigger] rest.skip(k), x);
            assert(rest.skip(k) =~= t.skip(m.consumed + k));
        }
    } else {
        let rest = t.skip(1);
        if i == 0 {
            assert(out.skip(0) =~= out);
            assert forall|j: int| 0 <= j < x.len() implies #[trigger] x[j] != repl[0] by {}
            lemma_literal_prefix_reflects(rule, t, x);
            assert(t.skip(0) =~= t);
        } else {
            assert(out.skip(i) =~= apply(rule, rest).skip(i - 1));
            lemma_literal_rule_adds_no(rule, rest, x);
            let k = choose|k: int| 0 <= k <= rest.len() && starts_with(#[trigger] rest.skip(k), x);
            assert(rest.skip(k) =~= t.skip(1 + k));
        }
    }
}

/// What the link rule writes for a match begins with `#l`.
proof fn lemma_link_replacement_head(t: Seq<char>)
    requires
        Rule::LinkTarget.matches_prefix(t),
    ensures
        apply(Rule::LinkTarget, t).len() >= 2,
        apply(Rule::LinkTarget, t)[0] == '#',
        apply(Rule::LinkTarget, t)[1] == 'l',
{
    reveal_strlit("#link(\"");
    let m = Rule::LinkTarget.match_prefix(t)->0;
    assert(link_open()[0] == '#' && link_open()[1] == 'l');
    assert(m.replacement[0] == '#');
    assert(m.replacement[1] == 'l');
}

/// Where what the link rule makes of a text begins with `w`, and no link
/// opens in `w`, the text begins with `w` itself.
proof fn lemma_link_prefix_reflects(t: Seq<char>, w: Seq<char>)
    requires
        starts_with(apply(Rule::LinkTarget, t), w),
        opens_no_link(w),
    ensures
        starts_with(t, w),
    decreases w.len(),
{
    let rule = Rule::LinkTarget;
    if w.len() == 0 {
        assert(t.take(0) =~= w);
    } else {
        let out = apply(rule, t);
        lemma_starts_with_rest(out, w);
        assert(t.len() > 0);
        if rule.matches_prefix(t) {
            lemma_link_replacement_head(t);
            assert(w[0] == '#');
            assert(out.take(w.len() as int)[1] == w[1]);
        } else {
            assert(out.skip(1) =~= apply(rule, t.skip(1)));
            assert forall|j: int| 0 <= j < w.skip(1).len() && #[trigger] w.skip(1)[j]
                == '#' implies j + 1 < w.skip(1).len() && w.skip(1)[j + 1] != 'l' by {
                assert(w[j + 1] == '#');
                assert(w.skip(1)[j + 1] == w[j + 2]);
            }
            lemma_link_prefix_reflects(t.skip(1), w.skip(1));
            lemma_starts_with_by_parts(t, w);
        }
    }
}

/// An escaped page break behind a backslash.
pub open spec fn escaped_escape() -> Seq<char> {
    "\\\\#pagebreak"@
}

/// Where a text stands in the rest of another, it stands in the whole.
proof fn lemma_holds_in_rest(s: Seq<char>, n: int, x: Seq<char>)
    requires
        0 <= n <= s.len(),
        holds(s.skip(n), x),
    ensures
        holds(s, x),
{
    let rest = s.skip(n);
    let k = choose|k: int| 0 <= k <= rest.len() && starts_with(#[trigger] rest.skip(k), x);
    assert(rest.skip(k) =~= s.skip(n + k));
}

/// Where a text stands in another at an index behind the first `n`
/// characters, it stands in the rest behind them.
proof fn lemma_holds_behind(s: Seq<char>, n: int, i: int, x: Seq<char>)
    requires
        0 <= n <= i <= s.len(),
        starts_with(s.skip(i), x),
    ensures
        holds(s.skip(n), x),
{
    let rest = s.skip(n);
    assert(rest.skip(i - n) =~= s.skip(i));
}

/// The characters of the page break and of its escaped forms.
proof fn lemma_pagebreak_literals()
    ensures
        pagebreak().len() == 10,
        escaped_pagebreak() == seq!['\\'] + pagebreak(),
        escaped_escape() == seq!['\\'] + escaped_pagebreak(),
        escaped_escape().len() == 12,
        pagebreak()[0] == '#',
        forall|j: int| 0 <= j < 10 ==> #[trigger] pagebreak()[j] != '\\',
        forall|j: int| 1 <= j < 10 ==> #[trigger] pagebreak()[j] != '#',
        opens_no_link(escaped_escape()),
        forall|j: int| 0 <= j < 12 && #[trigger] escaped_escape()[j] == 'p' ==> j == 3,
        escaped_escape()[4] == 'a',
        escaped_escape()[0] == '\\',
{
    reveal_strlit("\\\\#pagebreak");
    reveal_strlit("\\#pagebreak");
    reveal_strlit("#pagebreak");
    assert(escaped_pagebreak() =~= seq!['\\'] + pagebreak());
    assert(escaped_escape() =~= seq!['\\'] + escaped_pagebreak());
}

/// Where unescaping copies the first character of a text and what it makes
/// of the text begins with an escaped page break, the text begins with an
/// escaped page break behind a backslash.
proof fn lemma_escape_comes_from_escaped_escape(t: Seq<char>)
    requires
        t.len() > 0,
        !Rule::PageBreak.matches_prefix(t),
        starts_with(apply(Rule::PageBreak, t), escaped_pagebreak()),
    ensures
        starts_with(t, escaped_escape()),
{
    lemma_pagebreak_literals();
    let rule = Rule::PageBreak;
    let out = apply(rule, t);
    let x = escaped_pagebreak();
    let repl = pagebreak();
    let rest = t.skip(1);
    assert(out.skip(1) =~= apply(rule, rest));
    lemma_starts_with_rest(out, x);
    assert(x.skip(1) =~= repl);
    assert(t[0] == '\\');
    let behind = apply(rule, rest);
    lemma_starts_with_rest(behind, repl);
    assert(rest.len() > 0);
    if rule.matches_prefix(rest) {
        assert(escaped_escape().skip(1) =~= x);
        lemma_starts_with_by_parts(t, escaped_escape());
    } else {
        assert(behind.skip(1) =~= apply(rule, rest.skip(1)));
        assert(rest[0] == '#');
        let word = repl.skip(1);
        assert(replacement_of(rule) == repl);
        assert forall|j: int| 0 <= j < word.len() implies #[trigger] word[j] != replacement_of(
            rule,
        )[0] by {
            assert(word[j] == repl[j + 1]);
        }
        lemma_literal_prefix_reflects(rule, rest.skip(1), word);
        lemma_starts_with_by_parts(rest, repl);
        lemma_starts_with_by_parts(t, x);
    }
}

/// Unescaping leaves no escaped page break in a text in which none stood
/// behind a backslash.
pub proof fn lemma_unescaped_holds_no_escape(t: Seq<char>)
    requires
        !holds(t, escaped_escape()),
    ensures
        !holds(apply(Rule::PageBreak, t), escaped_pagebreak()),
    decreases t.len(),
{
    lemma_pagebreak_literals();
    let rule = Rule::PageBreak;
    let out = apply(rule, t);
    let x = escaped_pagebreak();
    let repl = pagebreak();
    if holds(out, x) {
        let i = choose|i: int| 0 <= i <= out.len() && starts_with(#[trigger] out.skip(i), x);
        assert(out.skip(i).take(x.len() as int)[0] == x[0]);
        assert(t.len() > 0);
        let n: int = if rule.matches_prefix(t) {
            x.len() as int
        } else {
            1
        };
        let rest = t.skip(n);
        if holds(rest, escaped_escape()) {
            lemma_holds_in_rest(t, n, escaped_escape());
        }
        lemma_unescaped_holds_no_escape(rest);
        if rule.matches_prefix(t) {
            assert(rule.match_prefix(t)->0.replacement == repl);
            if i < repl.len() {
                assert(out[i] == repl[i]);
            } else {
                lemma_holds_behind(out, repl.len() as int, i, x);
                assert(out.skip(repl.len() as int) =~= apply(rule, rest));
            }
        } else {
            assert(out.skip(1) =~= apply(rule, rest));
            if i >= 1 {
                lemma_holds_behind(out, 1, i, x);
            } else {
                assert(out.skip(0) =~= out);
                lemma_escape_comes_from_escaped_escape(t);
                assert(t.skip(0) =~= t);
            }
        }
    }
}

/// An escaped page break behind a backslash does not begin in what the link
/// rule writes for a match, unless it stood in the text at the same place.
proof fn lemma_no_escaped_escape_in_link(s: Seq<char>, i: int)
    requires
        Rule::LinkTarget.matches_prefix(s),
        0 <= i < Rule::LinkTarget.match_prefix(s)->0.replacement.len(),
        starts_with(apply(Rule::LinkTarget, s).skip(i), escaped_escape()),
    ensures
        i <= s.len(),
        starts_with(s.skip(i), escaped_escape()),
{
    lemma_pagebreak_literals();
    lemma_link_rewrite_shape(s);
    let rule = Rule::LinkTarget;
    let out = apply(rule, s);
    let x = escaped_escape();
    let m = rule.match_prefix(s)->0;
    let r = m.replacement;
    let dot = m.consumed - 5;
    assert forall|j: int| 0 <= j < 12 implies out[i + j] == x[j] by {
        assert(out.skip(i).take(12)[j] == x[j]);
    }
    assert forall|j: int| 0 <= j < r.len() implies out[j] == r[j] by {}
    if i + 12 <= dot + 1 {
        assert forall|j: int| 0 <= j < 12 implies s.skip(i).take(12)[j] == x[j] by {
            assert(out[i + j] == r[i + j]);
            assert(r[i + j] == s[i + j]);
        }
        assert(s.skip(i).take(12) =~= x);
    } else if i <= dot + 1 {
        let j = dot + 1 - i;
        assert(out[i + j] == r[dot + 1]);
        assert(x[j] == 'p');
        assert(out[i + 4] == r[dot + 2]);
    } else {
        assert(out[i] == r[i]);
        assert(x[0] == '\\');
    }
}

/// Retargeting links brings no escaped page break behind a backslash into
/// being.
pub proof fn lemma_retargeted_holds_no_escaped_escape(s: Seq<char>)
    requires
        !holds(s, escaped_escape()),
    ensures
        !holds(apply(Rule::LinkTarget, s), escaped_escape()),
    decreases s.len(),
{
    let rule = Rule::LinkTarget;
    let out = apply(rule, s);
    let x = escaped_escape();
    if holds(out, x) {
        lemma_pagebreak_literals();
        let i = choose|i: int| 0 <= i <= out.len() && starts_with(#[trigger] out.skip(i), x);
        assert(s.len() > 0);
        lemma_match_bounds(rule, s);
        let n: int = if rule.matches_prefix(s) {
            rule.match_prefix(s)->0.consumed as int
        } else {
            1
        };
        let rest = s.skip(n);
        if holds(rest, x) {
            lemma_holds_in_rest(s, n, x);
        }
        lemma_retargeted_holds_no_escaped_escape(rest);
        if rule.matches_prefix(s) {
            let m = rule.match_prefix(s)->0;
            assert(out.skip(m.replacement.len() as int) =~= apply(rule, rest));
            if i >= m.replacement.len() {
                lemma_holds_behind(out, m.replacement.len() as int, i, x);
            } else {
                lemma_no_escaped_escape_in_link(s, i);
            }
        } else {
            assert(out.skip(1) =~= apply(rule, rest));
            if i >= 1 {
                lemma_holds_behind(out, 1, i, x);
            } else {
                assert(out.skip(0) =~= out);
                lemma_link_prefix_reflects(s, x);
                assert(s.skip(0) =~= s);
            }
        }
    }
}

/// A link target that holds neither a line break nor the closing of a link
/// to a Markdown file.
pub open spec fn is_plain_target(t: Seq<char>) -> bool {
    is_on_one_line(t) && !holds(t, link_close_markdown())
}

/// Whether the `.md")` at index `e` of `s` closes a link with a plain
/// target.
pub open spec fn closes_plain_link(s: Seq<char>, e: int) -> bool {
    exists|p: int|
        0 <= p && p + link_open().len() <= e && starts_with(#[trigger] s.skip(p), link_open())
            && is_plain_target(s.subrange(p + link_open().len(), e))
}

/// Every `.md")` of the text closes a link with a plain target.
pub open spec fn links_are_plain(s: Seq<char>) -> bool {
    forall|e: int|
        0 <= e <= s.len() && starts_with(#[trigger] s.skip(e), link_close_markdown())
            ==> closes_plain_link(s, e)
}

/// Behind a character that the link rule copies, every `.md")` still closes
/// a link with a plain target.
proof fn lemma_links_stay_plain_behind_copy(s: Seq<char>)
    requires
        links_are_plain(s),
        s.len() > 0,
        !Rule::LinkTarget.matches_prefix(s),
    ensures
        links_are_plain(s.skip(1)),
{
    lemma_link_literals();
    let rest = s.skip(1);
    assert forall|e: int|
        0 <= e <= rest.len() && starts_with(
            #[trigger] rest.skip(e),
            link_close_markdown(),
        ) implies closes_plain_link(rest, e) by {
        assert(rest.skip(e) =~= s.skip(e + 1));
        assert(closes_plain_link(s, e + 1));
        let p = choose|p: int|
            0 <= p && p + link_open().len() <= e + 1 && starts_with(
                #[trigger] s.skip(p),
                link_open(),
            ) && is_plain_target(s.subrange(p + link_open().len(), e + 1));
        if p == 0 {
            assert(s.skip(0) =~= s);
            lemma_plain_link_matches(s, e + 1);
        } else {
            assert(rest.skip(p - 1) =~= s.skip(p));
            assert(rest.subrange(p - 1 + 7, e) =~= s.subrange(p + 7, e + 1));
        }
    }
}

/// Behind a match of the link rule, every `.md")` still closes a link with
/// a plain target.
proof fn lemma_links_stay_plain_behind_match(s: Seq<char>)
    requires
        links_are_plain(s),
        Rule::LinkTarget.matches_prefix(s),
    ensures
        links_are_plain(s.skip(Rule::LinkTarget.match_prefix(s)->0.consumed as int)),
{
    lemma_link_literals();
    lemma_link_rewrite_shape(s);
    let n = Rule::LinkTarget.match_prefix(s)->0.consumed as int;
    let dot = n - 5;
    let rest = s.skip(n);
    let close = link_close_markdown();
    assert forall|e: int|
        0 <= e <= rest.len() && starts_with(#[trigger] rest.skip(e), close) implies closes_plain_link(
        rest,
        e,
    ) by {
        assert(rest.skip(e) =~= s.skip(n + e));
        assert(closes_plain_link(s, n + e));
        let p = choose|p: int|
            0 <= p && p + link_open().len() <= n + e && starts_with(
                #[trigger] s.skip(p),
                link_open(),
            ) && is_plain_target(s.subrange(p + link_open().len(), n + e));
        let plain = s.subrange(p + 7, n + e);
        if p < n {
            lemma_starts_with_chars(s.skip(p), link_open());
            if p + 7 <= dot {
                assert(plain.skip(dot - p - 7).take(5) =~= s.skip(dot).take(5));
                assert(holds(plain, close));
            } else if p <= dot {
                assert(s.skip(p)[dot - p] == s[dot]);
                assert(link_open()[dot - p] == '.');
            } else {
                assert(s.skip(p)[0] == s[p]);
                lemma_starts_with_chars(s.skip(dot), close);
                assert(s.skip(dot)[p - dot] == s[p]);
                assert(close[p - dot] == '#');
            }
        }
        assert(rest.skip(p - n) =~= s.skip(p));
        assert(rest.subrange(p - n + 7, e) =~= s.subrange(p + 7, n + e));
    }
}

/// No `.md")` begins in what the link rule writes for a match.
proof fn lemma_no_markdown_close_in_link(s: Seq<char>, i: int)
    requires
        Rule::LinkTarget.matches_prefix(s),
        0 <= i < Rule::LinkTarget.match_prefix(s)->0.replacement.len(),
    ensures
        !starts_with(apply(Rule::LinkTarget, s).skip(i), link_close_markdown()),
{
    lemma_link_literals();
    lemma_link_rewrite_shape(s);
    let rule = Rule::LinkTarget;
    let out = apply(rule, s);
    let close = link_close_markdown();
    let m = rule.match_prefix(s)->0;
    let r = m.replacement;
    let dot = m.consumed - 5;
    if starts_with(out.skip(i), close) {
        lemma_starts_with_chars(out.skip(i), close);
        assert forall|j: int| 0 <= j < 5 implies out[i + j] == close[j] by {
            assert(out.skip(i)[j] == out[i + j]);
        }
        assert forall|j: int| 0 <= j < r.len() implies out[j] == r[j] by {}
        if i + 5 <= dot + 1 {
            lemma_starts_with_chars(s, link_open());
            assert(out[i] == r[i]);
            assert(s[i] == '.');
            assert(i >= 7);
            assert forall|j: int| 0 <= j < 5 implies s.skip(i).take(5)[j] == close[j] by {
                assert(out[i + j] == r[i + j]);
                assert(r[i + j] == s[i + j]);
            }
            assert(s.skip(i).take(5) =~= close);
        } else if i <= dot {
            let j = dot - i;
            assert(out[i + j] == r[dot]);
            assert(close[j] == '.');
            assert(out[i + 1] == r[dot + 1]);
        } else {
            assert(out[i] == r[i]);
        }
    }
}

/// Retargeting leaves no `.md")` in a text in which each of them closed a
/// link with a plain target.
pub proof fn lemma_retargeted_holds_no_markdown_close(s: Seq<char>)
    requires
        links_are_plain(s),
    ensures
        !holds(apply(Rule::LinkTarget, s), link_close_markdown()),
    decreases s.len(),
{
    let rule = Rule::LinkTarget;
    let out = apply(rule, s);
    let x = link_close_markdown();
    if holds(out, x) {
        lemma_link_literals();
        let i = choose|i: int| 0 <= i <= out.len() && starts_with(#[trigger] out.skip(i), x);
        assert(s.len() > 0);
        lemma_match_bounds(rule, s);
        if rule.matches_prefix(s) {
            let m = rule.match_prefix(s)->0;
            let rest = s.skip(m.consumed as int);
            lemma_links_stay_plain_behind_match(s);
            lemma_retargeted_holds_no_markdown_close(rest);
            assert(out.skip(m.replacement.len() as int) =~= apply(rule, rest));
            if i >= m.replacement.len() {
                lemma_holds_behind(out, m.replacement.len() as int, i, x);
            } else {
                lemma_no_markdown_close_in_link(s, i);
            }
        } else {
            let rest = s.skip(1);
            lemma_links_stay_plain_behind_copy(s);
            lemma_retargeted_holds_no_markdown_close(rest);
            assert(out.skip(1) =~= apply(rule, rest));
            if i >= 1 {
                lemma_holds_behind(out, 1, i, x);
            } else {
                assert(out.skip(0) =~= out);
                lemma_link_prefix_reflects(s, x);
                assert(s.skip(0) =~= s);
                assert(closes_plain_link(s, 0));
            }
        }
    }
}

/// The closing of a link to a Markdown file shares no character with what
/// the literal rules write, nor does the escaped page break with the space.
proof fn lemma_literals_share_no_character()
    ensures
        forall|i: int, j: int|
            0 <= i < link_close_markdown().len() && 0 <= j < pagebreak().len()
                ==> #[trigger] link_close_markdown()[i] != #[trigger] pagebreak()[j],
        forall|i: int, j: int|
            0 <= i < link_close_markdown().len() && 0 <= j < space().len()
                ==> #[trigger] link_close_markdown()[i] != #[trigger] space()[j],
        forall|i: int, j: int|
            0 <= i < escaped_pagebreak().len() && 0 <= j < space().len()
                ==> #[trigger] escaped_pagebreak()[i] != #[trigger] space()[j],
        link_close_markdown().len() > 0,
        escaped_pagebreak().len() > 0,
{
    reveal_strlit(".md\")");
    reveal_strlit("\\#pagebreak");
    reveal_strlit("#pagebreak");
    reveal_strlit(" ");
}

/// The line rules applied a second time change nothing in a text in which
/// every `.md")` closes a link with a plain target and no escaped page break
/// stands behind a backslash.
pub proof fn lemma_line_rules_idempotent_on_plain_text(s: Seq<char>)
    requires
        links_are_plain(s),
        !holds(s, escaped_escape()),
    ensures
        line_rules_applied(line_rules_applied(s)) == line_rules_applied(s),
{
    lemma_literals_share_no_character();
    let linked = apply(Rule::LinkTarget, s);
    let unescaped = apply(Rule::PageBreak, linked);
    let decoded = apply(Rule::EncodedSpace, unescaped);
    let close = link_close_markdown();
    let escape = escaped_pagebreak();
    lemma_retargeted_holds_no_markdown_close(s);
    lemma_retargeted_holds_no_escaped_escape(s);
    lemma_unescaped_holds_no_escape(linked);
    if holds(unescaped, close) {
        lemma_literal_rule_adds_no(Rule::PageBreak, linked, close);
    }
    if holds(decoded, close) {
        lemma_literal_rule_adds_no(Rule::EncodedSpace, unescaped, close);
    }
    if holds(decoded, escape) {
        lemma_literal_rule_adds_no(Rule::EncodedSpace, unescaped, escape);
    }
    lemma_no_link_without_markdown_close(decoded);
    assert forall|i: int| 0 <= i < decoded.len() implies !#[trigger] Rule::PageBreak.matches_prefix(
        decoded.skip(i),
    ) by {}
    lemma_line_rules_idempotent(s);
}

} // verus!
