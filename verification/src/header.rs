//! The front matter that is put before every converted document: the import
//! of the template, the project metadata and the numbering of headings.

use crate::clock::today;
use crate::text::{append_chars, chars_of, string_of};
use vstd::prelude::*;
use vstd::string::*;

verus! {

/// A day of the calendar.
#[derive(Clone, Copy, Debug, PartialEq, Eq, Structural)]
pub struct CalendarDate {
    pub day: u32,
    pub month: u32,
    pub year: i32,
}

impl CalendarDate {
    /// The month is one of the twelve and the day is one that some month has.
    pub open spec fn is_valid(&self) -> bool {
        1 <= self.month <= 12 && 1 <= self.day <= 31
    }
}

/// The French name of a month; empty where the number names no month.
pub open spec fn month_name(month: u32) -> Seq<char> {
    if month == 1 {
        "Janvier"@
    } else if month == 2 {
        "Février"@
    } else if month == 3 {
        "Mars"@
    } else if month == 4 {
        "Avril"@
    } else if month == 5 {
        "Mai"@
    } else if month == 6 {
        "Juin"@
    } else if month == 7 {
        "Juillet"@
    } else if month == 8 {
        "Août"@
    } else if month == 9 {
        "Septembre"@
    } else if month == 10 {
        "Octobre"@
    } else if month == 11 {
        "Novembre"@
    } else if month == 12 {
        "Décembre"@
    } else {
        ""@
    }
}

/// The French name of a month.
pub fn month_name_of(month: u32) -> (name: &'static str)
    ensures
        name@ == month_name(month),
{
    match month {
        1 => "Janvier",
        2 => "Février",
        3 => "Mars",
        4 => "Avril",
        5 => "Mai",
        6 => "Juin",
        7 => "Juillet",
        8 => "Août",
        9 => "Septembre",
        10 => "Octobre",
        11 => "Novembre",
        12 => "Décembre",
        _ => "",
    }
}

/// The character of a decimal digit.
pub open spec fn digit(d: nat) -> char {
    if d == 0 {
        '0'
    } else if d == 1 {
        '1'
    } else if d == 2 {
        '2'
    } else if d == 3 {
        '3'
    } else if d == 4 {
        '4'
    } else if d == 5 {
        '5'
    } else if d == 6 {
        '6'
    } else if d == 7 {
        '7'
    } else if d == 8 {
        '8'
    } else {
        '9'
    }
}

/// A natural number in decimal notation, without leading zeros.
pub open spec fn decimal(n: nat) -> Seq<char>
    decreases n,
{
    if n < 10 {
        seq![digit(n)]
    } else {
        decimal(n / 10).push(digit(n % 10))
    }
}

/// The number that a character stands for as a decimal digit.
pub open spec fn digit_value(c: char) -> nat {
    if c == '1' {
        1
    } else if c == '2' {
        2
    } else if c == '3' {
        3
    } else if c == '4' {
        4
    } else if c == '5' {
        5
    } else if c == '6' {
        6
    } else if c == '7' {
        7
    } else if c == '8' {
        8
    } else if c == '9' {
        9
    } else {
        0
    }
}

/// The number that a sequence of decimal digits denotes.
pub open spec fn denoted(digits: Seq<char>) -> nat
    decreases digits.len(),
{
    if digits.len() == 0 {
        0
    } else {
        10 * denoted(digits.drop_last()) + digit_value(digits.last())
    }
}

/// The decimal notation of a number denotes that number, and begins with a
/// zero for zero only.
pub proof fn lemma_decimal_denotes(n: nat)
    ensures
        denoted(decimal(n)) == n,
        decimal(n).len() >= 1,
        n > 0 ==> decimal(n)[0] != '0',
    decreases n,
{
    if n < 10 {
        assert(decimal(n).drop_last() =~= Seq::<char>::empty());
        assert(denoted(decimal(n).drop_last()) == 0);
    } else {
        lemma_decimal_denotes(n / 10);
        assert(decimal(n).drop_last() =~= decimal(n / 10));
    }
}

/// An integer in decimal notation, with `-` before a negative one.
pub open spec fn signed_decimal(n: int) -> Seq<char> {
    if n < 0 {
        seq!['-'] + decimal((-n) as nat)
    } else {
        decimal(n as nat)
    }
}

/// A date as the header shows it: the day, the French name of the month, a
/// comma and the year.
pub open spec fn date_text(date: CalendarDate) -> Seq<char> {
    decimal(date.day as nat) + " "@ + month_name(date.month) + ", "@ + signed_decimal(
        date.year as int,
    )
}

/// The title of a document: its file stem with a space for each underscore.
pub open spec fn title_of(stem: Seq<char>) -> Seq<char> {
    Seq::new(
        stem.len(),
        |i: int|
            if stem[i] == '_' {
                ' '
            } else {
                stem[i]
            },
    )
}

/// The author that every header names.
pub open spec fn author() -> Seq<char> {
    "Lucas Duchet-Annez"@
}

/// The header up to the title.
pub open spec fn header_before_title() -> Seq<char> {
    "#import \"template.typ\": *\n\n// Take a look at the file `template.typ` in the file panel\n// to customize this template and discover how it works.\n#show: project.with(\n  title: \""@
}

/// The header between the title and the author.
pub open spec fn header_before_author() -> Seq<char> {
    "\",\n  authors: (\n    \""@
}

/// The header between the author and the date.
pub open spec fn header_before_date() -> Seq<char> {
    "\",\n  ),\n  date: \""@
}

/// The header behind the date.
pub open spec fn header_after_date() -> Seq<char> {
    "\",\n)\n\n#set heading(numbering: \"1.1.\")\n\n"@
}

/// The header block with the given title, author and date.
pub open spec fn header_block(title: Seq<char>, author: Seq<char>, date: Seq<char>) -> Seq<char> {
    header_before_title() + title + header_before_author() + author + header_before_date() + date
        + header_after_date()
}

fn digit_char(d: u32) -> (c: char)
    requires
        d < 10,
    ensures
        c == digit(d as nat),
{
    match d {
        0 => '0',
        1 => '1',
        2 => '2',
        3 => '3',
        4 => '4',
        5 => '5',
        6 => '6',
        7 => '7',
        8 => '8',
        _ => '9',
    }
}

/// Writes a natural number in decimal notation.
pub fn decimal_chars(n: u32) -> (out: Vec<char>)
    ensures
        out@ == decimal(n as nat),
    decreases n,
{
    if n < 10 {
        let mut out: Vec<char> = Vec::new();
        out.push(digit_char(n));
        out
    } else {
        let mut out = decimal_chars(n / 10);
        out.push(digit_char(n % 10));
        out
    }
}

/// Writes an integer in decimal notation.
pub fn signed_decimal_chars(n: i32) -> (out: Vec<char>)
    ensures
        out@ == signed_decimal(n as int),
{
    if n < 0 {
        let wide: i64 = n as i64;
        let magnitude: u32 = (-wide) as u32;
        let mut out: Vec<char> = Vec::new();
        out.push('-');
        let digits = decimal_chars(magnitude);
        append_chars(&mut out, &digits);
        out
    } else {
        decimal_chars(n as u32)
    }
}

/// Writes a date as the header shows it.
pub fn format_date(date: CalendarDate) -> (out: String)
    ensures
        out@ == date_text(date),
{
    let mut chars = decimal_chars(date.day);
    let space = chars_of(" ");
    append_chars(&mut chars, &space);
    let name = chars_of(month_name_of(date.month));
    append_chars(&mut chars, &name);
    let comma = chars_of(", ");
    append_chars(&mut chars, &comma);
    let year = signed_decimal_chars(date.year);
    append_chars(&mut chars, &year);
    string_of(&chars)
}

/// Derives the title of a document from its file stem.
pub fn title_from_stem(stem: &str) -> (title: String)
    ensures
        title@ == title_of(stem@),
{
    let chars = chars_of(stem);
    let mut out: Vec<char> = Vec::new();
    let mut i: usize = 0;
    while i < chars.len()
        invariant
            i <= chars.len(),
            chars@ == stem@,
            out@ == title_of(stem@).take(i as int),
        decreases chars.len() - i,
    {
        let c = chars[i];
        out.push(
            if c == '_' {
                ' '
            } else {
                c
            },
        );
        i += 1;
    }
    string_of(&out)
}

/// What the header of one document is made from.
#[derive(Debug)]
pub struct TransformContext {
    pub title: String,
    pub author: String,
    pub date: String,
}

impl TransformContext {
    /// The context of the document with the given file stem, on the given
    /// day.
    pub fn new(stem: &str, date: CalendarDate) -> (context: TransformContext)
        ensures
            context.title@ == title_of(stem@),
            context.author@ == author(),
            context.date@ == date_text(date),
    {
        TransformContext {
            title: title_from_stem(stem),
            author: String::from_str("Lucas Duchet-Annez"),
            date: format_date(date),
        }
    }

    /// The context of the document with the given file stem, on the day that
    /// the clock shows in local time.
    pub fn now(stem: &str) -> (context: TransformContext)
        ensures
            context.title@ == title_of(stem@),
            context.author@ == author(),
            exists|date: CalendarDate| date.is_valid() && context.date@ == date_text(date),
    {
        TransformContext::new(stem, today())
    }
}

/// Writes the header block of a document.
pub fn synthesize(context: TransformContext) -> (header: String)
    ensures
        header@ == header_block(context.title@, context.author@, context.date@),
{
    let mut header = String::from_str(
        "#import \"template.typ\": *\n\n// Take a look at the file `template.typ` in the file panel\n// to customize this template and discover how it works.\n#show: project.with(\n  title: \"",
    );
    header.append(context.title.as_str());
    header.append("\",\n  authors: (\n    \"");
    header.append(context.author.as_str());
    header.append("\",\n  ),\n  date: \"");
    header.append(context.date.as_str());
    header.append("\",\n)\n\n#set heading(numbering: \"1.1.\")\n\n");
    header
}

} // verus!
