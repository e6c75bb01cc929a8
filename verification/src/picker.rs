//! The exchange with the picker: one run presents the lines of a menu and
//! reads back a single line.
//!
//! The picker is a process outside this library. What is decided here is the
//! order of the steps and what each outcome means. The caller performs the
//! step that is asked for and reports what happened:
//!
//! ```text
//! Idle -> Spawned -> LinesWritten -> InputClosed -> Awaiting -> Terminated
//! ```

use crate::error::{result_text, Error};
use crate::text::{lemma_trimmed_ignores_trailing, trim, trimmed};
use vstd::prelude::*;
use vstd::string::*;

verus! {

// ---------------------------------------------------------------------------
// States, reports and requests
// ---------------------------------------------------------------------------

/// How far a run has come.
#[derive(Debug, Clone, Copy, PartialEq, Eq, Structural)]
pub enum PickerState {
    /// Nothing has happened yet.
    Idle,
    /// The picker runs, with its input and output piped.
    Spawned,
    /// Every line has been written to the picker's input.
    LinesWritten,
    /// The picker's input has been closed, so that it can see the end.
    InputClosed,
    /// The caller waits for the picker to end.
    Awaiting,
    /// The run is over.
    Terminated,
}

/// What the caller reports.
#[derive(Debug, Clone, PartialEq, Eq)]
pub enum PickerEvent {
    /// The picker was started.
    Launched,
    /// The picker could not be started.
    LaunchFailed,
    /// Every line was written, each followed by a newline, in order.
    LinesWritten,
    /// A line could not be written.
    WriteFailed,
    /// The picker's input was closed.
    InputClosed,
    /// The caller now waits for the picker to end.
    Waiting,
    /// The picker ended: whether with success, and all that it wrote.
    Exited { success: bool, output: String },
    /// The end of the picker could not be observed.
    WaitFailed,
}

/// What the caller is to do next.
#[derive(Debug, PartialEq, Eq)]
pub enum PickerAction {
    /// Start the picker with the prompt, its input and output piped.
    Launch,
    /// Write the input text of the menu to the picker's input: every line,
    /// each followed by a newline.
    WriteLines,
    /// Close the picker's input.
    CloseInput,
    /// Begin to wait for the picker to end.
    Wait,
    /// Wait until the picker has ended, and collect its status and all that
    /// it wrote.
    Collect,
    /// Release what is still held of the picker; the run came to this.
    Finish(Result<String, Error>),
}

// ---------------------------------------------------------------------------
// Model
// ---------------------------------------------------------------------------

/// A report as a mathematical value.
pub enum PickerEventView {
    Launched,
    LaunchFailed,
    LinesWritten,
    WriteFailed,
    InputClosed,
    Waiting,
    Exited { success: bool, output: Seq<char> },
    WaitFailed,
}

/// A request as a mathematical value.
pub enum PickerActionView {
    Launch,
    WriteLines,
    CloseInput,
    Wait,
    Collect,
    Finish(Result<Seq<char>, Error>),
}

impl View for PickerEvent {
    type V = PickerEventView;

    open spec fn view(&self) -> PickerEventView {
        match *self {
            PickerEvent::Launched => PickerEventView::Launched,
            PickerEvent::LaunchFailed => PickerEventView::LaunchFailed,
            PickerEvent::LinesWritten => PickerEventView::LinesWritten,
            PickerEvent::WriteFailed => PickerEventView::WriteFailed,
            PickerEvent::InputClosed => PickerEventView::InputClosed,
            PickerEvent::Waiting => PickerEventView::Waiting,
            PickerEvent::Exited { success, output } => PickerEventView::Exited {
                success,
                output: output@,
            },
            PickerEvent::WaitFailed => PickerEventView::WaitFailed,
        }
    }
}

impl View for PickerAction {
    type V = PickerActionView;

    open spec fn view(&self) -> PickerActionView {
        match *self {
            PickerAction::Launch => PickerActionView::Launch,
            PickerAction::WriteLines => PickerActionView::WriteLines,
            PickerAction::CloseInput => PickerActionView::CloseInput,
            PickerAction::Wait => PickerActionView::Wait,
            PickerAction::Collect => PickerActionView::Collect,
            PickerAction::Finish(result) => PickerActionView::Finish(result_text(result)),
        }
    }
}

/// What a run that ended comes to: the line that the picker wrote, trimmed.
/// A picker that ended without success, or wrote nothing but white space,
/// made no choice.
pub open spec fn selection(success: bool, output: Seq<char>) -> Result<Seq<char>, Error> {
    if !success {
        Err(Error::PickerNonZeroExit)
    } else if trimmed(output).len() == 0 {
        Err(Error::NoSelectionMade)
    } else {
        Ok(trimmed(output))
    }
}

/// The state after `event` arrived in `state`, and what to do then. A
/// report that does not fit the state ends the run as a failed exchange.
pub open spec fn stepped(state: PickerState, event: PickerEventView) -> (
    PickerState,
    PickerActionView,
) {
    match (state, event) {
        (PickerState::Idle, PickerEventView::Launched) => (
            PickerState::Spawned,
            PickerActionView::WriteLines,
        ),
        (PickerState::Idle, PickerEventView::LaunchFailed) => (
            PickerState::Terminated,
            PickerActionView::Finish(Err(Error::PickerLaunchFailed)),
        ),
        (PickerState::Spawned, PickerEventView::LinesWritten) => (
            PickerState::LinesWritten,
            PickerActionView::CloseInput,
        ),
        (PickerState::LinesWritten, PickerEventView::InputClosed) => (
            PickerState::InputClosed,
            PickerActionView::Wait,
        ),
        (PickerState::InputClosed, PickerEventView::Waiting) => (
            PickerState::Awaiting,
            PickerActionView::Collect,
        ),
        (PickerState::Awaiting, PickerEventView::Exited { success, output }) => (
            PickerState::Terminated,
            PickerActionView::Finish(selection(success, output)),
        ),
        _ => (PickerState::Terminated, PickerActionView::Finish(Err(Error::PickerIOFailed))),
    }
}

/// What is written to the picker's input: every line, each followed by a
/// newline, in order.
pub open spec fn input_text(lines: Seq<Seq<char>>) -> Seq<char>
    decreases lines.len(),
{
    if lines.len() == 0 {
        Seq::empty()
    } else {
        input_text(lines.drop_last()) + lines.last() + seq!['\n']
    }
}

// ---------------------------------------------------------------------------
// Functions
// ---------------------------------------------------------------------------

/// Writes out what the picker is to read for a menu of `lines`.
pub fn picker_input(lines: &Vec<String>) -> (r: String)
    ensures
        r@ == input_text(lines.deep_view()),
{
    let ghost all = lines.deep_view();
    let mut out = String::new();
    let mut i: usize = 0;
    while i < lines.len()
        invariant
            i <= lines.len(),
            all == lines.deep_view(),
            out@ == input_text(all.take(i as int)),
        decreases lines.len() - i,
    {
        proof {
            reveal_strlit("\n");
            let now = all.take(i + 1);
            assert(now.drop_last() =~= all.take(i as int));
        }
        out.append(lines[i].as_str());
        out.append("\n");
        i += 1;
    }
    proof {
        assert(all.take(lines.len() as int) =~= all);
    }
    out
}

/// What to do first: a run begins in `Idle`, by starting the picker.
pub fn start() -> (r: (PickerState, PickerAction))
    ensures
        r.0 == PickerState::Idle,
        r.1@ == PickerActionView::Launch,
{
    (PickerState::Idle, PickerAction::Launch)
}

/// What a run that ended comes to.
pub fn conclude(success: bool, output: &str) -> (r: Result<String, Error>)
    ensures
        result_text(r) == selection(success, output@),
{
    if !success {
        return Err(Error::PickerNonZeroExit);
    }
    let line = trim(output);
    if line.as_str().unicode_len() == 0 {
        Err(Error::NoSelectionMade)
    } else {
        Ok(line)
    }
}

/// Takes the caller's report and says what to do next.
pub fn step(state: PickerState, event: PickerEvent) -> (r: (PickerState, PickerAction))
    ensures
        (r.0, r.1@) == stepped(state, event@),
{
    match (state, event) {
        (PickerState::Idle, PickerEvent::Launched) => (
            PickerState::Spawned,
            PickerAction::WriteLines,
        ),
        (PickerState::Idle, PickerEvent::LaunchFailed) => (
            PickerState::Terminated,
            PickerAction::Finish(Err(Error::PickerLaunchFailed)),
        ),
        (PickerState::Spawned, PickerEvent::LinesWritten) => (
            PickerState::LinesWritten,
            PickerAction::CloseInput,
        ),
        (PickerState::LinesWritten, PickerEvent::InputClosed) => (
            PickerState::InputClosed,
            PickerAction::Wait,
        ),
        (PickerState::InputClosed, PickerEvent::Waiting) => (
            PickerState::Awaiting,
            PickerAction::Collect,
        ),
        (PickerState::Awaiting, PickerEvent::Exited { success, output }) => (
            PickerState::Terminated,
            PickerAction::Finish(conclude(success, output.as_str())),
        ),
        _ => (PickerState::Terminated, PickerAction::Finish(Err(Error::PickerIOFailed))),
    }
}

// ---------------------------------------------------------------------------
// Laws
// ---------------------------------------------------------------------------

/// How many steps a run in `state` has left at most.
pub open spec fn steps_left(state: PickerState) -> nat {
    match state {
        PickerState::Idle => 5,
        PickerState::Spawned => 4,
        PickerState::LinesWritten => 3,
        PickerState::InputClosed => 2,
        PickerState::Awaiting => 1,
        PickerState::Terminated => 0,
    }
}

/// Every report moves a run forward, and a run ends exactly when it is asked
/// to finish: no run goes on for ever, and none is asked for a step twice.
pub proof fn lemma_step_progress(state: PickerState, event: PickerEventView)
    ensures
        state != PickerState::Terminated ==> steps_left(stepped(state, event).0) < steps_left(
            state,
        ),
        stepped(state, event).0 == PickerState::Terminated <==> stepped(state, event).1 is Finish,
        stepped(PickerState::Terminated, event).0 == PickerState::Terminated,
{
}

/// A line is handed back only at the end of a whole run: from `Awaiting`, on
/// the report that the picker ended with success, and the line is then what
/// the picker wrote, trimmed, and not empty.
pub proof fn lemma_step_line(state: PickerState, event: PickerEventView, line: Seq<char>)
    requires
        stepped(state, event).1 == PickerActionView::Finish(Ok(line)),
    ensures
        state == PickerState::Awaiting,
        event matches PickerEventView::Exited { success, output } && success && line == trimmed(
            output,
        ),
        line.len() > 0,
{
}

/// A picker that ends with success after it wrote one line and a newline
/// chose that line: the run comes to the line, trimmed.
pub proof fn lemma_selection_of_line(line: Seq<char>)
    requires
        trimmed(line).len() > 0,
    ensures
        selection(true, line.push('\n')) == Ok::<Seq<char>, Error>(trimmed(line)),
{
    lemma_trimmed_ignores_trailing(line, '\n');
}

} // verus!
