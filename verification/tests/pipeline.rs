use md2typst::document::finalize_document;
use md2typst::header::CalendarDate;
use md2typst::pipeline::{Action, Outcome, Pipeline, PipelineResult, Stage, Step};

const DAY: CalendarDate = CalendarDate { day: 5, month: 3, year: 2024 };

fn ok() -> Outcome {
    Outcome::Succeeded(String::new())
}

fn failed(message: &str) -> Outcome {
    Outcome::Failed(String::from(message))
}

fn strings(items: &[&str]) -> Vec<String> {
    items.iter().map(|s| String::from(*s)).collect()
}

fn go_on(step: Step) -> (Pipeline, Action) {
    match step {
        Step::Continue { pipeline, action } => (pipeline, action),
        Step::Finished { result } => panic!("the pipeline ended: {:?}", result),
    }
}

fn end(step: Step) -> PipelineResult {
    match step {
        Step::Finished { result } => result,
        Step::Continue { action, .. } => panic!("the pipeline goes on: {:?}", action),
    }
}

/// Runs the pipeline of `report.md` as far as `successes` actions succeed.
fn advance(successes: usize) -> (Pipeline, Action) {
    let (mut pipeline, mut action) = go_on(Pipeline::start("report.md"));
    for index in 0..successes {
        let outcome = if index == 1 { Outcome::Succeeded(String::from("body\n")) } else { ok() };
        let (p, a) = go_on(pipeline.step_on(outcome, DAY));
        pipeline = p;
        action = a;
    }
    (pipeline, action)
}

#[test]
fn pipeline_begins_with_the_converter() {
    let (pipeline, action) = advance(0);
    assert_eq!(pipeline.stage, Stage::Converting);
    assert_eq!(pipeline.source, "report.md");
    assert_eq!(pipeline.stem, "report");
    match action {
        Action::Run { program, arguments } => {
            assert_eq!(program, "pandoc");
            assert_eq!(
                arguments,
                strings(&[
                    "--from", "markdown", "--to", "typst", "--no-highlight", "report.md", "-o",
                    "report.typ"
                ])
            );
        }
        other => panic!("unexpected action {:?}", other),
    }
}

#[test]
fn pipeline_runs_through_its_five_actions() {
    let (pipeline, action) = advance(1);
    assert_eq!(pipeline.stage, Stage::Reading);
    assert!(matches!(action, Action::ReadText { ref path } if path == "report.typ"));

    let (pipeline, action) = advance(2);
    assert_eq!(pipeline.stage, Stage::Writing);
    match action {
        Action::WriteText { path, contents } => {
            assert_eq!(path, "report.typ.temp");
            assert_eq!(contents, finalize_document("report", DAY, "body\n"));
            assert!(contents.ends_with("#set heading(numbering: \"1.1.\")\n\nbody\n"));
        }
        other => panic!("unexpected action {:?}", other),
    }

    let (pipeline, action) = advance(3);
    assert_eq!(pipeline.stage, Stage::Committing);
    assert!(matches!(
        action,
        Action::Rename { ref from, ref to } if from == "report.typ.temp" && to == "report.typ"
    ));

    let (pipeline, action) = advance(4);
    assert_eq!(pipeline.stage, Stage::Compiling);
    match action {
        Action::Run { program, arguments } => {
            assert_eq!(program, "typst");
            assert_eq!(arguments, strings(&["compile", "report.typ"]));
        }
        other => panic!("unexpected action {:?}", other),
    }

    let result = end(pipeline.step_on(ok(), DAY));
    assert!(matches!(result, PipelineResult::Success { ref path } if path == "report.typ"));
}

#[test]
fn failed_conversion_ends_the_pipeline_before_anything_is_written() {
    let (pipeline, _) = advance(0);
    let result = end(pipeline.step_on(failed("pandoc: not found"), DAY));
    assert!(matches!(
        result,
        PipelineResult::ConversionFailed { ref path, ref message }
            if path == "report.md" && message == "pandoc: not found"
    ));
}

#[test]
fn failed_read_write_or_rename_is_a_failed_header_injection() {
    for successes in 1..=3 {
        let (pipeline, _) = advance(successes);
        let result = end(pipeline.step_on(failed("denied"), DAY));
        assert!(matches!(
            result,
            PipelineResult::HeaderInjectionFailed { ref path, ref message }
                if path == "report.typ" && message == "denied"
        ));
    }
}

#[test]
fn failed_compilation_ends_the_pipeline_without_a_further_action() {
    let (pipeline, _) = advance(4);
    let result = end(pipeline.step_on(failed("error: unknown variable"), DAY));
    assert!(matches!(
        result,
        PipelineResult::CompileFailed { ref path, ref message }
            if path == "report.typ" && message == "error: unknown variable"
    ));
}

#[test]
fn file_without_a_stem_fails_at_once() {
    for source in ["", ".", ".."] {
        let result = end(Pipeline::start(source));
        assert!(matches!(
            result,
            PipelineResult::HeaderInjectionFailed { ref path, ref message }
                if path == source && message == "file has no stem"
        ));
    }
}

#[test]
fn step_dates_the_header_with_a_calendar_day() {
    let (pipeline, _) = advance(1);
    let (pipeline, action) = go_on(pipeline.step(Outcome::Succeeded(String::from("body\n"))));
    assert_eq!(pipeline.stage, Stage::Writing);
    match action {
        Action::WriteText { path, contents } => {
            assert_eq!(path, "report.typ.temp");
            assert!(contents.starts_with("#import \"template.typ\": *\n"));
            assert!(contents.contains("  title: \"report\",\n"));
            assert!(contents.ends_with("\nbody\n"));
            let date = contents.split("  date: \"").nth(1).unwrap().split('"').next().unwrap();
            let day: u32 = date.split(' ').next().unwrap().parse().unwrap();
            assert!(1 <= day && day <= 31);
            assert!(date.split(", ").nth(1).unwrap().parse::<i32>().is_ok());
        }
        other => panic!("unexpected action {:?}", other),
    }
}

#[test]
fn stems_with_dots_and_spaces_keep_their_paths() {
    let (pipeline, action) = go_on(Pipeline::start("my notes.v2.md"));
    assert_eq!(pipeline.stem, "my notes.v2");
    match action {
        Action::Run { arguments, .. } => {
            assert_eq!(arguments[5], "my notes.v2.md");
            assert_eq!(arguments[7], "my notes.v2.typ");
        }
        other => panic!("unexpected action {:?}", other),
    }
}

#[test]
fn results_are_reported_in_one_line() {
    let path = String::from("report.typ");
    let message = String::from("why");
    assert_eq!(
        PipelineResult::Success { path: path.clone() }.report(),
        "File report.typ successfully compiled with typst."
    );
    assert_eq!(
        PipelineResult::ConversionFailed { path: String::from("report.md"), message: message.clone() }
            .report(),
        "Failed to run pandoc on file report.md: why"
    );
    assert_eq!(
        PipelineResult::HeaderInjectionFailed { path: path.clone(), message: message.clone() }
            .report(),
        "Failed to add header to file report.typ: why"
    );
    assert_eq!(
        PipelineResult::CompileFailed { path: path.clone(), message: message.clone() }.report(),
        "Failed to compile file report.typ with typst: why"
    );
    assert!(PipelineResult::Success { path: path.clone() }.is_success());
    assert!(!PipelineResult::CompileFailed { path, message }.is_success());
}
