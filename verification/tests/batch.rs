use md2typst::batch::{parse_arguments, resolve, select_files, Selector, UsageError};
use md2typst::paths::{eligible, intermediate_path_of, stem_of, temp_path_of};

fn strings(items: &[&str]) -> Vec<String> {
    items.iter().map(|s| String::from(*s)).collect()
}

#[test]
fn no_arguments_ask_for_every_file() {
    assert!(matches!(parse_arguments(&strings(&["md2typst"])), Ok(Selector::All)));
    assert!(matches!(parse_arguments(&strings(&[])), Ok(Selector::All)));
}

#[test]
fn single_file_flag_names_one_file() {
    let parsed = parse_arguments(&strings(&["md2typst", "--single-file", "report.md"]));
    assert!(matches!(parsed, Ok(Selector::Single(ref name)) if name == "report.md"));
    let parsed = parse_arguments(&strings(&["md2typst", "--single-file", "a.md", "b.md"]));
    assert!(matches!(parsed, Ok(Selector::Single(ref name)) if name == "a.md"));
}

#[test]
fn single_file_flag_without_a_name_is_an_error() {
    let parsed = parse_arguments(&strings(&["md2typst", "--single-file"]));
    assert!(matches!(parsed, Err(UsageError::MissingFileName)));
    assert_eq!(
        UsageError::MissingFileName.message(),
        "--single-file requires a filename argument"
    );
}

#[test]
fn other_arguments_ask_for_every_file() {
    let parsed = parse_arguments(&strings(&["md2typst", "report.md", "--single-file", "x.md"]));
    assert!(matches!(parsed, Ok(Selector::All)));
    let parsed = parse_arguments(&strings(&["md2typst", "--single-files", "x.md"]));
    assert!(matches!(parsed, Ok(Selector::All)));
}

#[test]
fn markdown_files_are_eligible() {
    assert!(eligible("report.md"));
    assert!(eligible("my notes.v2.md"));
    assert!(eligible("a.md"));
    assert!(eligible("..md"));
    assert!(eligible("comp.md"));
}

#[test]
fn derived_and_other_files_are_not_eligible() {
    assert!(!eligible("report.comp.md"));
    assert!(!eligible(".comp.md"));
    assert!(!eligible("report.typ"));
    assert!(!eligible("report.md.bak"));
    assert!(!eligible("report.MD"));
    assert!(!eligible("reportmd"));
    assert!(!eligible(".md"));
    assert!(!eligible("md"));
    assert!(!eligible(""));
}

#[test]
fn eligibility_is_that_of_the_extension() {
    for name in ["report.md", ".md", "..md", "a.b.md", "a.comp.md", "md", "a.mdx", "a.md.", ""] {
        let path = std::path::Path::new(name);
        let expected = !name.ends_with(".comp.md")
            && path.extension().map_or(false, |extension| extension == "md");
        assert_eq!(eligible(name), expected, "on {:?}", name);
    }
}

#[test]
fn stem_is_the_name_without_its_extension() {
    assert_eq!(stem_of("report.md").as_deref(), Some("report"));
    assert_eq!(stem_of("my_report.final.md").as_deref(), Some("my_report.final"));
    assert_eq!(stem_of("report").as_deref(), Some("report"));
    assert_eq!(stem_of(".hidden").as_deref(), Some(".hidden"));
    assert_eq!(stem_of(".hidden.md").as_deref(), Some(".hidden"));
    assert_eq!(stem_of("report.").as_deref(), Some("report"));
    assert_eq!(stem_of("...").as_deref(), Some(".."));
    assert_eq!(stem_of(""), None);
    assert_eq!(stem_of("."), None);
    assert_eq!(stem_of(".."), None);
}

#[test]
fn stem_is_that_of_the_standard_library() {
    for name in ["report.md", "a.b.c", "a", ".a", ".a.b", "a.", "..", ".", "", "...", "..a", "é.md"] {
        let expected = std::path::Path::new(name)
            .file_stem()
            .map(|stem| stem.to_str().unwrap().to_string());
        assert_eq!(stem_of(name), expected, "on {:?}", name);
    }
}

#[test]
fn intermediate_and_temporary_files_are_named_after_the_stem() {
    assert_eq!(intermediate_path_of("report"), "report.typ");
    assert_eq!(temp_path_of("report"), "report.typ.temp");
    assert_eq!(intermediate_path_of(""), ".typ");
}

#[test]
fn whole_directory_takes_the_eligible_files_in_order() {
    let entries = strings(&[
        "b.md", "a.comp.md", "notes.txt", "a.md", "a.typ", ".md", "c.md", "template.typ",
    ]);
    assert_eq!(select_files(&Selector::All, "/work", &entries), strings(&["b.md", "a.md", "c.md"]));
    assert_eq!(select_files(&Selector::All, "", &strings(&[])), strings(&[]));
}

#[test]
fn single_file_takes_that_file_only() {
    let entries = strings(&["a.md", "report.md", "b.md", "report.comp.md"]);
    let selector = Selector::Single(String::from("report.md"));
    assert_eq!(select_files(&selector, "/work", &entries), strings(&["report.md"]));
    let selector = Selector::Single(String::from("/work/report.md"));
    assert_eq!(select_files(&selector, "/work", &entries), strings(&["report.md"]));
    let selector = Selector::Single(String::from("report.comp.md"));
    assert_eq!(select_files(&selector, "/work", &entries), strings(&["report.comp.md"]));
    let selector = Selector::Single(String::from("missing.md"));
    assert_eq!(select_files(&selector, "/work", &entries), strings(&[]));
    let selector = Selector::Single(String::from("/elsewhere/report.md"));
    assert_eq!(select_files(&selector, "/work", &entries), strings(&[]));
}

#[test]
fn path_is_resolved_against_the_directory() {
    assert_eq!(resolve("/work/report.md", "/work"), "report.md");
    assert_eq!(resolve("C:\\work\\report.md", "C:\\work"), "report.md");
    assert_eq!(resolve("/work/sub/report.md", "/work"), "sub/report.md");
    assert_eq!(resolve("report.md", "/work"), "report.md");
    assert_eq!(resolve("/workshop/report.md", "/work"), "/workshop/report.md");
    assert_eq!(resolve("/work", "/work"), "/work");
    assert_eq!(resolve("/work/", "/work"), "");
    assert_eq!(resolve("/report.md", ""), "/report.md");
}

#[test]
fn intermediate_file_keeps_the_stem() {
    for name in ["report.md", "a.b.md", ".hidden", "x", "..md", "..."] {
        let stem = stem_of(name).unwrap();
        assert_eq!(stem_of(&intermediate_path_of(&stem)), Some(stem.clone()));
        assert_ne!(temp_path_of(&stem), intermediate_path_of(&stem));
    }
}
