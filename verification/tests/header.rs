use md2typst::header::{
    decimal_chars, format_date, month_name_of, signed_decimal_chars, synthesize, title_from_stem,
    CalendarDate, TransformContext,
};

fn text(v: Vec<char>) -> String {
    v.into_iter().collect()
}

#[test]
fn title_and_date_of_a_report() {
    let context = TransformContext::new("my_report", CalendarDate { day: 5, month: 3, year: 2024 });
    assert_eq!(context.title, "my report");
    assert_eq!(context.date, "5 Mars, 2024");
    assert_eq!(context.author, "Lucas Duchet-Annez");
}

#[test]
fn header_block_is_exact() {
    let context = TransformContext::new("my_report", CalendarDate { day: 5, month: 3, year: 2024 });
    let expected = "#import \"template.typ\": *\n\
\n\
// Take a look at the file `template.typ` in the file panel\n\
// to customize this template and discover how it works.\n\
#show: project.with(\n  title: \"my report\",\n  authors: (\n    \"Lucas Duchet-Annez\",\n  ),\n  date: \"5 Mars, 2024\",\n)\n\
\n\
#set heading(numbering: \"1.1.\")\n\
\n";
    assert_eq!(synthesize(context), expected);
}

#[test]
fn header_takes_the_fields_of_the_context() {
    let context = TransformContext {
        title: String::from("T"),
        author: String::from("A"),
        date: String::from("D"),
    };
    let header = synthesize(context);
    assert!(header.starts_with("#import \"template.typ\": *\n\n// Take a look"));
    assert!(header.contains("#show: project.with(\n  title: \"T\",\n  authors: (\n    \"A\",\n  ),\n  date: \"D\",\n)\n"));
    assert!(header.ends_with("\n#set heading(numbering: \"1.1.\")\n\n"));
}

#[test]
fn months_have_their_french_names() {
    let names = [
        "Janvier", "Février", "Mars", "Avril", "Mai", "Juin", "Juillet", "Août", "Septembre",
        "Octobre", "Novembre", "Décembre",
    ];
    for (index, name) in names.iter().enumerate() {
        assert_eq!(month_name_of(index as u32 + 1), *name);
    }
    assert_eq!(month_name_of(0), "");
    assert_eq!(month_name_of(13), "");
    assert_eq!(month_name_of(u32::MAX), "");
}

#[test]
fn dates_are_written_day_month_year() {
    assert_eq!(format_date(CalendarDate { day: 1, month: 1, year: 1970 }), "1 Janvier, 1970");
    assert_eq!(format_date(CalendarDate { day: 31, month: 12, year: 1999 }), "31 Décembre, 1999");
    assert_eq!(format_date(CalendarDate { day: 14, month: 8, year: 12 }), "14 Août, 12");
    assert_eq!(format_date(CalendarDate { day: 2, month: 2, year: -44 }), "2 Février, -44");
    assert_eq!(format_date(CalendarDate { day: 7, month: 0, year: 2024 }), "7 , 2024");
}

#[test]
fn numbers_are_written_in_decimal() {
    for n in [0u32, 1, 9, 10, 11, 99, 100, 101, 2024, 4294967295] {
        assert_eq!(text(decimal_chars(n)), n.to_string());
    }
    for n in [0i32, 1, -1, 10, -10, 2024, -2024, i32::MAX, i32::MIN] {
        assert_eq!(text(signed_decimal_chars(n)), n.to_string());
    }
}

#[test]
fn title_has_spaces_for_underscores() {
    assert_eq!(title_from_stem("my_report"), "my report");
    assert_eq!(title_from_stem("__a__b_"), "  a  b ");
    assert_eq!(title_from_stem("plain"), "plain");
    assert_eq!(title_from_stem(""), "");
    assert_eq!(title_from_stem("été_2024"), "été 2024");
}

#[test]
fn context_of_today_is_dated_with_a_calendar_day() {
    let context = TransformContext::now("my_report");
    assert_eq!(context.title, "my report");
    assert_eq!(context.author, "Lucas Duchet-Annez");
    let (day, rest) = context.date.split_once(' ').unwrap();
    let (month, year) = rest.split_once(", ").unwrap();
    let day: u32 = day.parse().unwrap();
    assert!(1 <= day && day <= 31);
    let month = (1..=12).find(|m| month_name_of(*m) == month).unwrap();
    let year: i32 = year.parse().unwrap();
    assert_eq!(context.date, format_date(CalendarDate { day, month, year }));
    assert!(year >= 2024);
}
