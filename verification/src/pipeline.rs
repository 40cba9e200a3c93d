//! The pipeline of one file, as a machine that is told how the last action
//! went and answers with the next one.
//!
//! The caller performs the actions: it runs the converter, reads the
//! intermediate file, writes the finalized document to the temporary file,
//! renames that over the intermediate file and runs the compiler. The
//! machine decides what comes next and how a failure is reported.

use crate::clock::today;
use crate::document::{finalize_document, finalized_document};
use crate::header::CalendarDate;
use crate::paths::{
    file_stem, intermediate_path, intermediate_path_of, stem_of, temp_path, temp_path_of,
};
use vstd::prelude::*;
use vstd::string::*;

verus! {

/// What the pipeline of a file waits for.
#[derive(Clone, Copy, Debug, PartialEq, Eq, Structural)]
pub enum Stage {
    /// The converter runs on the source file.
    Converting,
    /// The intermediate file is read.
    Reading,
    /// The finalized document is written to the temporary file.
    Writing,
    /// The temporary file is renamed over the intermediate file.
    Committing,
    /// The compiler runs on the finalized file.
    Compiling,
}

/// The pipeline of one file.
#[derive(Debug)]
pub struct Pipeline {
    pub stage: Stage,
    pub source: String,
    pub stem: String,
}

pub struct PipelineView {
    pub stage: Stage,
    pub source: Seq<char>,
    pub stem: Seq<char>,
}

impl View for Pipeline {
    type V = PipelineView;

    open spec fn view(&self) -> PipelineView {
        PipelineView { stage: self.stage, source: self.source@, stem: self.stem@ }
    }
}

/// How an action went: it succeeded, with the text that was read where the
/// action was to read a file, or it failed, with a diagnostic message.
#[derive(Debug)]
pub enum Outcome {
    Succeeded(String),
    Failed(String),
}

pub enum OutcomeView {
    Succeeded(Seq<char>),
    Failed(Seq<char>),
}

impl View for Outcome {
    type V = OutcomeView;

    open spec fn view(&self) -> OutcomeView {
        match self {
            Outcome::Succeeded(text) => OutcomeView::Succeeded(text@),
            Outcome::Failed(message) => OutcomeView::Failed(message@),
        }
    }
}

/// What the caller is to do next.
#[derive(Debug)]
pub enum Action {
    /// Run a program with arguments and wait for it.
    Run { program: String, arguments: Vec<String> },
    /// Read the whole text of a file.
    ReadText { path: String },
    /// Create a file with the given contents.
    WriteText { path: String, contents: String },
    /// Rename a file over another.
    Rename { from: String, to: String },
}

pub enum ActionView {
    Run { program: Seq<char>, arguments: Seq<Seq<char>> },
    ReadText { path: Seq<char> },
    WriteText { path: Seq<char>, contents: Seq<char> },
    Rename { from: Seq<char>, to: Seq<char> },
}

impl View for Action {
    type V = ActionView;

    open spec fn view(&self) -> ActionView {
        match self {
            Action::Run { program, arguments } => ActionView::Run {
                program: program@,
                arguments: arguments.deep_view(),
            },
            Action::ReadText { path } => ActionView::ReadText { path: path@ },
            Action::WriteText { path, contents } => ActionView::WriteText {
                path: path@,
                contents: contents@,
            },
            Action::Rename { from, to } => ActionView::Rename { from: from@, to: to@ },
        }
    }
}

/// How the pipeline of a file ended.
#[derive(Debug)]
pub enum PipelineResult {
    /// The finalized file was written and compiled.
    Success { path: String },
    /// The converter could not be run or reported a failure.
    ConversionFailed { path: String, message: String },
    /// The intermediate file could not be read, or the finalized document
    /// could not be written or put in its place, or the file has no stem.
    HeaderInjectionFailed { path: String, message: String },
    /// The compiler could not be run or reported a failure. The finalized
    /// file stays as it was written.
    CompileFailed { path: String, message: String },
}

pub enum PipelineResultView {
    Success { path: Seq<char> },
    ConversionFailed { path: Seq<char>, message: Seq<char> },
    HeaderInjectionFailed { path: Seq<char>, message: Seq<char> },
    CompileFailed { path: Seq<char>, message: Seq<char> },
}

impl View for PipelineResult {
    type V = PipelineResultView;

    open spec fn view(&self) -> PipelineResultView {
        match self {
            PipelineResult::Success { path } => PipelineResultView::Success { path: path@ },
            PipelineResult::ConversionFailed { path, message } => {
                PipelineResultView::ConversionFailed { path: path@, message: message@ }
            },
            PipelineResult::HeaderInjectionFailed { path, message } => {
                PipelineResultView::HeaderInjectionFailed { path: path@, message: message@ }
            },
            PipelineResult::CompileFailed { path, message } => PipelineResultView::CompileFailed {
                path: path@,
                message: message@,
            },
        }
    }
}

/// What the machine answers: the pipeline goes on with an action, or it has
/// ended.
#[derive(Debug)]
pub enum Step {
    Continue { pipeline: Pipeline, action: Action },
    Finished { result: PipelineResult },
}

pub enum StepView {
    Continue { pipeline: PipelineView, action: ActionView },
    Finished { result: PipelineResultView },
}

impl View for Step {
    type V = StepView;

    open spec fn view(&self) -> StepView {
        match self {
            Step::Continue { pipeline, action } => StepView::Continue {
                pipeline: pipeline@,
                action: action@,
            },
            Step::Finished { result } => StepView::Finished { result: result@ },
        }
    }
}

/// The name of the converter.
pub open spec fn converter() -> Seq<char> {
    "pandoc"@
}

/// The name of the compiler.
pub open spec fn compiler() -> Seq<char> {
    "typst"@
}

/// The arguments of the converter: from Markdown to Typst, without syntax
/// highlighting, from the source file into the intermediate file.
pub open spec fn converter_arguments(source: Seq<char>, stem: Seq<char>) -> Seq<Seq<char>> {
    seq![
        "--from"@,
        "markdown"@,
        "--to"@,
        "typst"@,
        "--no-highlight"@,
        source,
        "-o"@,
        intermediate_path(stem),
    ]
}

/// The arguments of the compiler: compile the finalized file.
pub open spec fn compiler_arguments(stem: Seq<char>) -> Seq<Seq<char>> {
    seq!["compile"@, intermediate_path(stem)]
}

/// The message of the failure of a file that has no stem.
pub open spec fn no_stem_message() -> Seq<char> {
    "file has no stem"@
}

/// How the pipeline of the file `source` begins: with the converter, or,
/// where the file has no stem, with a failure.
pub open spec fn first_step(source: Seq<char>) -> StepView {
    match file_stem(source) {
        Some(stem) => StepView::Continue {
            pipeline: PipelineView { stage: Stage::Converting, source, stem },
            action: ActionView::Run {
                program: converter(),
                arguments: converter_arguments(source, stem),
            },
        },
        None => StepView::Finished {
            result: PipelineResultView::HeaderInjectionFailed {
                path: source,
                message: no_stem_message(),
            },
        },
    }
}

/// How a failure is reported, by the stage at which it came.
pub open spec fn failure_at(pipeline: PipelineView, message: Seq<char>) -> PipelineResultView {
    match pipeline.stage {
        Stage::Converting => PipelineResultView::ConversionFailed {
            path: pipeline.source,
            message,
        },
        Stage::Compiling => PipelineResultView::CompileFailed {
            path: intermediate_path(pipeline.stem),
            message,
        },
        _ => PipelineResultView::HeaderInjectionFailed {
            path: intermediate_path(pipeline.stem),
            message,
        },
    }
}

/// The action that follows a success at the given stage, and the stage that
/// waits for it; none behind the compiler. `text` is what the success
/// brought, `date` the day of the header.
pub open spec fn action_after(pipeline: PipelineView, text: Seq<char>, date: CalendarDate) -> Option<
    (Stage, ActionView),
> {
    match pipeline.stage {
        Stage::Converting => Some(
            (Stage::Reading, ActionView::ReadText { path: intermediate_path(pipeline.stem) }),
        ),
        Stage::Reading => Some(
            (
                Stage::Writing,
                ActionView::WriteText {
                    path: temp_path(pipeline.stem),
                    contents: finalized_document(pipeline.stem, date, text),
                },
            ),
        ),
        Stage::Writing => Some(
            (
                Stage::Committing,
                ActionView::Rename {
                    from: temp_path(pipeline.stem),
                    to: intermediate_path(pipeline.stem),
                },
            ),
        ),
        Stage::Committing => Some(
            (
                Stage::Compiling,
                ActionView::Run {
                    program: compiler(),
                    arguments: compiler_arguments(pipeline.stem),
                },
            ),
        ),
        Stage::Compiling => None,
    }
}

/// The answer of the machine to the outcome of the action that the pipeline
/// waited for. A failure ends the pipeline with the failure of its stage. A
/// success brings the next action, and behind the compiler the success of
/// the whole.
pub open spec fn next_step(pipeline: PipelineView, outcome: OutcomeView, date: CalendarDate) -> StepView {
    match outcome {
        OutcomeView::Failed(message) => StepView::Finished {
            result: failure_at(pipeline, message),
        },
        OutcomeView::Succeeded(text) => match action_after(pipeline, text, date) {
            Some((stage, action)) => StepView::Continue {
                pipeline: PipelineView { stage, source: pipeline.source, stem: pipeline.stem },
                action,
            },
            None => StepView::Finished {
                result: PipelineResultView::Success { path: intermediate_path(pipeline.stem) },
            },
        },
    }
}

/// The arguments with which the converter is run.
pub fn converter_arguments_of(source: &str, stem: &str) -> (arguments: Vec<String>)
    ensures
        arguments.deep_view() == converter_arguments(source@, stem@),
{
    let mut arguments: Vec<String> = Vec::new();
    arguments.push(String::from_str("--from"));
    arguments.push(String::from_str("markdown"));
    arguments.push(String::from_str("--to"));
    arguments.push(String::from_str("typst"));
    arguments.push(String::from_str("--no-highlight"));
    arguments.push(String::from_str(source));
    arguments.push(String::from_str("-o"));
    arguments.push(intermediate_path_of(stem));
    assert(arguments.deep_view() =~= converter_arguments(source@, stem@));
    arguments
}

/// The arguments with which the compiler is run.
pub fn compiler_arguments_of(stem: &str) -> (arguments: Vec<String>)
    ensures
        arguments.deep_view() == compiler_arguments(stem@),
{
    let mut arguments: Vec<String> = Vec::new();
    arguments.push(String::from_str("compile"));
    arguments.push(intermediate_path_of(stem));
    assert(arguments.deep_view() =~= compiler_arguments(stem@));
    arguments
}

impl Pipeline {
    /// Begins the pipeline of the file `source`.
    pub fn start(source: &str) -> (step: Step)
        ensures
            step@ == first_step(source@),
    {
        match stem_of(source) {
            Some(stem) => {
                let arguments = converter_arguments_of(source, stem.as_str());
                Step::Continue {
                    pipeline: Pipeline {
                        stage: Stage::Converting,
                        source: String::from_str(source),
                        stem,
                    },
                    action: Action::Run { program: String::from_str("pandoc"), arguments },
                }
            },
            None => Step::Finished {
                result: PipelineResult::HeaderInjectionFailed {
                    path: String::from_str(source),
                    message: String::from_str("file has no stem"),
                },
            },
        }
    }

    /// Answers the outcome of the action that the pipeline waited for, with
    /// `date` as the day of the header.
    pub fn step_on(self, outcome: Outcome, date: CalendarDate) -> (step: Step)
        ensures
            step@ == next_step(self@, outcome@, date),
    {
        let Pipeline { stage, source, stem } = self;
        match outcome {
            Outcome::Failed(message) => {
                let result = match stage {
                    Stage::Converting => PipelineResult::ConversionFailed {
                        path: source,
                        message,
                    },
                    Stage::Compiling => PipelineResult::CompileFailed {
                        path: intermediate_path_of(stem.as_str()),
                        message,
                    },
                    _ => PipelineResult::HeaderInjectionFailed {
                        path: intermediate_path_of(stem.as_str()),
                        message,
                    },
                };
                Step::Finished { result }
            },
            Outcome::Succeeded(text) => {
                let (next, action) = match stage {
                    Stage::Converting => (
                        Stage::Reading,
                        Action::ReadText { path: intermediate_path_of(stem.as_str()) },
                    ),
                    Stage::Reading => (
                        Stage::Writing,
                        Action::WriteText {
                            path: temp_path_of(stem.as_str()),
                            contents: finalize_document(stem.as_str(), date, text.as_str()),
                        },
                    ),
                    Stage::Writing => (
                        Stage::Committing,
                        Action::Rename {
                            from: temp_path_of(stem.as_str()),
                            to: intermediate_path_of(stem.as_str()),
                        },
                    ),
                    Stage::Committing => (
                        Stage::Compiling,
                        Action::Run {
                            program: String::from_str("typst"),
                            arguments: compiler_arguments_of(stem.as_str()),
                        },
                    ),
                    Stage::Compiling => {
                        return Step::Finished {
                            result: PipelineResult::Success {
                                path: intermediate_path_of(stem.as_str()),
                            },
                        };
                    },
                };
                Step::Continue { pipeline: Pipeline { stage: next, source, stem }, action }
            },
        }
    }

    /// Answers the outcome of the action that the pipeline waited for. The
    /// header of the document is dated with the day that the clock shows in
    /// local time when the text of the intermediate file has been read.
    pub fn step(self, outcome: Outcome) -> (step: Step)
        ensures
            exists|date: CalendarDate|
                date.is_valid() && step@ == #[trigger] next_step(self@, outcome@, date),
            self@.stage != Stage::Reading || outcome@ is Failed ==> forall|date: CalendarDate|
                step@ == #[trigger] next_step(self@, outcome@, date),
    {
        let date = match (&self.stage, &outcome) {
            (Stage::Reading, Outcome::Succeeded(_)) => today(),
            _ => CalendarDate { day: 1, month: 1, year: 1970 },
        };
        self.step_on(outcome, date)
    }
}

/// The line that reports how the pipeline of a file ended.
pub open spec fn report_line(result: PipelineResultView) -> Seq<char> {
    match result {
        PipelineResultView::Success { path } => "File "@ + path
            + " successfully compiled with typst."@,
        PipelineResultView::ConversionFailed { path, message } => "Failed to run pandoc on file "@
            + path + ": "@ + message,
        PipelineResultView::HeaderInjectionFailed { path, message } => {
            "Failed to add header to file "@ + path + ": "@ + message
        },
        PipelineResultView::CompileFailed { path, message } => "Failed to compile file "@ + path
            + " with typst: "@ + message,
    }
}

impl PipelineResult {
    /// Whether the pipeline ended well.
    pub fn is_success(&self) -> (b: bool)
        ensures
            b == (self@ is Success),
    {
        match self {
            PipelineResult::Success { .. } => true,
            _ => false,
        }
    }

    /// Writes the line that reports how the pipeline ended.
    pub fn report(&self) -> (line: String)
        ensures
            line@ == report_line(self@),
    {
        match self {
            PipelineResult::Success { path } => {
                let mut line = String::from_str("File ");
                line.append(path.as_str());
                line.append(" successfully compiled with typst.");
                line
            },
            PipelineResult::ConversionFailed { path, message } => {
                let mut line = String::from_str("Failed to run pandoc on file ");
                line.append(path.as_str());
                line.append(": ");
                line.append(message.as_str());
                line
            },
            PipelineResult::HeaderInjectionFailed { path, message } => {
                let mut line = String::from_str("Failed to add header to file ");
                line.append(path.as_str());
                line.append(": ");
                line.append(message.as_str());
                line
            },
            PipelineResult::CompileFailed { path, message } => {
                let mut line = String::from_str("Failed to compile file ");
                line.append(path.as_str());
                line.append(" with typst: ");
                line.append(message.as_str());
                line
            },
        }
    }
}

/// What the caller tells the machine in a run, step by step: how the last
/// action went, and the day on which the machine was told.
pub type Reports = Seq<(OutcomeView, CalendarDate)>;

/// The actions that the machine asks for during a run that begins with
/// `step`.
pub open spec fn actions_of_run(step: StepView, reports: Reports) -> Seq<ActionView>
    decreases reports.len(),
{
    match step {
        StepView::Finished { .. } => Seq::empty(),
        StepView::Continue { pipeline, action } => if reports.len() == 0 {
            seq![action]
        } else {
            seq![action] + actions_of_run(
                next_step(pipeline, reports[0].0, reports[0].1),
                reports.skip(1),
            )
        },
    }
}

/// How a run that begins with `step` ends, if the reports reach that far.
pub open spec fn result_of_run(step: StepView, reports: Reports) -> Option<PipelineResultView>
    decreases reports.len(),
{
    match step {
        StepView::Finished { result } => Some(result),
        StepView::Continue { pipeline, action } => if reports.len() == 0 {
            None
        } else {
            result_of_run(next_step(pipeline, reports[0].0, reports[0].1), reports.skip(1))
        },
    }
}

/// The five actions of a run in which nothing fails, for the text that was
/// read and the day on which it was read.
pub open spec fn planned_actions(
    source: Seq<char>,
    stem: Seq<char>,
    text: Seq<char>,
    date: CalendarDate,
) -> Seq<ActionView> {
    seq![
        ActionView::Run { program: converter(), arguments: converter_arguments(source, stem) },
        ActionView::ReadText { path: intermediate_path(stem) },
        ActionView::WriteText {
            path: temp_path(stem),
            contents: finalized_document(stem, date, text),
        },
        ActionView::Rename { from: temp_path(stem), to: intermediate_path(stem) },
        ActionView::Run { program: compiler(), arguments: compiler_arguments(stem) },
    ]
}

/// Where the converter fails, the run holds no action but the call of the
/// converter: nothing is read, no temporary file is written, nothing is
/// renamed. The run ends as a failed conversion of the source file, with the
/// message of the converter.
pub proof fn lemma_failed_conversion_ends_run(
    source: Seq<char>,
    message: Seq<char>,
    reports: Reports,
)
    requires
        file_stem(source) is Some,
        reports.len() > 0,
        reports[0].0 == OutcomeView::Failed(message),
    ensures
        actions_of_run(first_step(source), reports) == seq![
            ActionView::Run {
                program: converter(),
                arguments: converter_arguments(source, file_stem(source)->0),
            },
        ],
        result_of_run(first_step(source), reports) == Some(
            PipelineResultView::ConversionFailed { path: source, message },
        ),
{
    let stem = file_stem(source)->0;
    let pipeline = PipelineView { stage: Stage::Converting, source, stem };
    let next = next_step(pipeline, reports[0].0, reports[0].1);
    assert(actions_of_run(next, reports.skip(1)) =~= Seq::<ActionView>::empty());
    assert(result_of_run(next, reports.skip(1)) == Some(failure_at(pipeline, message)));
}

/// Behind the call of the compiler no action follows, however the call
/// went: the finalized file is not touched again. Where the compiler fails,
/// the run ends as a failed compilation of the finalized file, with the
/// message of the compiler.
pub proof fn lemma_compiler_ends_run(pipeline: PipelineView, action: ActionView, reports: Reports)
    requires
        pipeline.stage == Stage::Compiling,
        reports.len() > 0,
    ensures
        actions_of_run(StepView::Continue { pipeline, action }, reports) == seq![action],
        result_of_run(StepView::Continue { pipeline, action }, reports) == Some(
            match reports[0].0 {
                OutcomeView::Failed(message) => PipelineResultView::CompileFailed {
                    path: intermediate_path(pipeline.stem),
                    message,
                },
                OutcomeView::Succeeded(_) => PipelineResultView::Success {
                    path: intermediate_path(pipeline.stem),
                },
            },
        ),
{
    let next = next_step(pipeline, reports[0].0, reports[0].1);
    assert(next is Finished);
    assert(actions_of_run(next, reports.skip(1)) =~= Seq::<ActionView>::empty());
    assert(result_of_run(next, reports.skip(1)) == Some(next->result));
    assert(seq![action] + Seq::<ActionView>::empty() =~= seq![action]);
}

/// One step of a run: behind a success that is not the compiler's, the run
/// goes on with the next action; elsewhere it holds no further action.
proof fn lemma_run_unfolds(pipeline: PipelineView, action: ActionView, reports: Reports)
    ensures
        actions_of_run(StepView::Continue { pipeline, action }, reports) == if reports.len() > 0
            && reports[0].0 is Succeeded && pipeline.stage != Stage::Compiling {
            let (stage, next) = action_after(
                pipeline,
                reports[0].0->Succeeded_0,
                reports[0].1,
            )->0;
            seq![action] + actions_of_run(
                StepView::Continue {
                    pipeline: PipelineView { stage, source: pipeline.source, stem: pipeline.stem },
                    action: next,
                },
                reports.skip(1),
            )
        } else {
            seq![action]
        },
{
    if reports.len() > 0 {
        let next = next_step(pipeline, reports[0].0, reports[0].1);
        if next is Finished {
            assert(actions_of_run(next, reports.skip(1)) =~= Seq::<ActionView>::empty());
            assert(seq![action] + Seq::<ActionView>::empty() =~= seq![action]);
        }
    }
}

/// The number of reports of success before the first report of a failure.
pub open spec fn leading_successes(reports: Reports) -> nat
    decreases reports.len(),
{
    if reports.len() > 0 && reports[0].0 is Succeeded {
        1 + leading_successes(reports.skip(1))
    } else {
        0
    }
}

/// The text that was read and the day on which it was read: what the
/// second report of a run brings.
pub open spec fn text_read(reports: Reports) -> (Seq<char>, CalendarDate) {
    if reports.len() > 1 && reports[1].0 is Succeeded {
        (reports[1].0->Succeeded_0, reports[1].1)
    } else {
        (Seq::empty(), CalendarDate { day: 1, month: 1, year: 1970 })
    }
}

/// The actions of a run are the planned ones, in their order, as far as the
/// run gets: one more than there were successes, and none behind the fifth.
/// So a temporary file is written only behind a successful conversion and
/// read, it is renamed only behind a successful write, and the compiler is
/// called only on a finalized file.
pub proof fn lemma_run_follows_plan(source: Seq<char>, reports: Reports)
    requires
        file_stem(source) is Some,
    ensures
        ({
            let stem = file_stem(source)->0;
            let (text, date) = text_read(reports);
            let reached = if leading_successes(reports) < 4 {
                leading_successes(reports) + 1
            } else {
                5
            };
            actions_of_run(first_step(source), reports) == planned_actions(
                source,
                stem,
                text,
                date,
            ).take(reached as int)
        }),
{
    let stem = file_stem(source)->0;
    let (text, date) = text_read(reports);
    let plan = planned_actions(source, stem, text, date);
    let p0 = PipelineView { stage: Stage::Converting, source, stem };
    let p1 = PipelineView { stage: Stage::Reading, source, stem };
    let p2 = PipelineView { stage: Stage::Writing, source, stem };
    let p3 = PipelineView { stage: Stage::Committing, source, stem };
    let p4 = PipelineView { stage: Stage::Compiling, source, stem };
    let r1 = reports.skip(1);
    let r2 = r1.skip(1);
    let r3 = r2.skip(1);
    let r4 = r3.skip(1);
    let run = actions_of_run(first_step(source), reports);
    lemma_run_unfolds(p0, plan[0], reports);
    if leading_successes(reports) == 0 {
        assert(run =~= plan.take(1));
    } else {
        assert(r1.len() > 0 ==> r1[0] == reports[1]);
        lemma_run_unfolds(p1, plan[1], r1);
        if leading_successes(r1) == 0 {
            assert(run =~= plan.take(2));
        } else {
            lemma_run_unfolds(p2, plan[2], r2);
            if leading_successes(r2) == 0 {
                assert(run =~= plan.take(3));
            } else {
                lemma_run_unfolds(p3, plan[3], r3);
                if leading_successes(r3) == 0 {
                    assert(run =~= plan.take(4));
                } else {
                    lemma_run_unfolds(p4, plan[4], r4);
                    assert(run =~= plan.take(5));
                }
            }
        }
    }
}

} // verus!
