//! Quitting with transfers pending: the questions asked and what follows
//! each answer, as a step from the current phase and an event to the next
//! phase and the action to perform.

use vstd::prelude::*;
use crate::model::DownloadMessage;
use crate::text::{decimal, push_str, string_from};
use crate::transfers::quit_prompt_message;

verus! {

/// The detail under the quit question.
pub const QUIT_DETAIL: &'static str = "暂停并退出会保存队列，下次启动后继续；立即退出会丢弃未完成任务。";

/// The answer that pauses the transfers, saves the queue and quits.
pub const QUIT_ANSWER_SAVE: usize = 0;

/// The answer that drops the saved queue and quits at once.
pub const QUIT_ANSWER_DISCARD: usize = 2;

/// Where a quit stands.
#[derive(Debug, Clone, Copy, PartialEq, Eq, Structural)]
pub enum QuitPhase {
    /// No quit in progress.
    Idle,
    /// The question is shown.
    Asking,
    /// Saving the paused queue before quitting.
    Saving,
    /// Dropping the saved queue before quitting.
    Clearing,
}

/// What happened.
pub enum QuitEvent {
    /// The user asked to quit while `active` transfers are unfinished.
    Requested { active: usize },
    /// The question was answered with the button at this position.
    Answered(usize),
    /// The question went away without an answer.
    PromptClosed,
    /// Saving the queue finished.
    Saved(Result<(), String>),
    /// Dropping the saved queue finished.
    Cleared(Result<(), String>),
}

/// What to do next.
pub enum QuitAction {
    Nothing,
    /// Quit the application.
    Quit,
    /// Ask whether to pause and save, cancel, or quit at once.
    Ask(String),
    /// Pause every transfer and save the queue.
    SuspendAndSave,
    /// Drop the saved queue.
    ClearSaved,
    /// Stay, and show this notice.
    Notify(DownloadMessage),
}

/// The step of a quit from `phase` on `event`. A request while a question
/// or its follow-up is under way is ignored; without unfinished transfers
/// the app quits at once, otherwise it asks. Answering "pause and quit"
/// saves the queue, "quit now" drops the saved one, anything else cancels;
/// a failed save or drop keeps the app open and says why. Events that do
/// not belong to the phase change nothing.
pub fn quit_step(phase: QuitPhase, event: QuitEvent) -> (r: (QuitPhase, QuitAction))
    ensures
        match (phase, event) {
            (QuitPhase::Idle, QuitEvent::Requested { active }) => if active == 0 {
                r.0 == QuitPhase::Idle && r.1 is Quit
            } else {
                r.0 == QuitPhase::Asking && (r.1 matches QuitAction::Ask(m) && m@ == "有 "@ + decimal(
                    active as nat,
                ) + " 个传输任务尚未完成。"@)
            },
            (QuitPhase::Asking, QuitEvent::Answered(i)) => if i == QUIT_ANSWER_SAVE {
                r.0 == QuitPhase::Saving && r.1 is SuspendAndSave
            } else if i == QUIT_ANSWER_DISCARD {
                r.0 == QuitPhase::Clearing && r.1 is ClearSaved
            } else {
                r.0 == QuitPhase::Idle && r.1 is Nothing
            },
            (QuitPhase::Asking, QuitEvent::PromptClosed) => r.0 == QuitPhase::Idle && r.1 is Nothing,
            (QuitPhase::Saving, QuitEvent::Saved(Ok(()))) => r.0 == QuitPhase::Saving && r.1 is Quit,
            (QuitPhase::Saving, QuitEvent::Saved(Err(e))) => r.0 == QuitPhase::Idle && (r.1 matches QuitAction::Notify(m)
                && m.is_error && m.text@ == "保存传输队列失败，未退出："@ + e@),
            (QuitPhase::Clearing, QuitEvent::Cleared(Ok(()))) => r.0 == QuitPhase::Clearing && r.1 is Quit,
            (QuitPhase::Clearing, QuitEvent::Cleared(Err(e))) => r.0 == QuitPhase::Idle && (r.1 matches QuitAction::Notify(
                m,
            ) && m.is_error && m.text@ == "清除已保存队列失败，未退出："@ + e@),
            _ => r.0 == phase && r.1 is Nothing,
        },
{
    match (phase, event) {
        (QuitPhase::Idle, QuitEvent::Requested { active }) => {
            if active == 0 {
                (QuitPhase::Idle, QuitAction::Quit)
            } else {
                (QuitPhase::Asking, QuitAction::Ask(quit_prompt_message(active)))
            }
        },
        (QuitPhase::Asking, QuitEvent::Answered(i)) => {
            if i == QUIT_ANSWER_SAVE {
                (QuitPhase::Saving, QuitAction::SuspendAndSave)
            } else if i == QUIT_ANSWER_DISCARD {
                (QuitPhase::Clearing, QuitAction::ClearSaved)
            } else {
                (QuitPhase::Idle, QuitAction::Nothing)
            }
        },
        (QuitPhase::Asking, QuitEvent::PromptClosed) => (QuitPhase::Idle, QuitAction::Nothing),
        (QuitPhase::Saving, QuitEvent::Saved(result)) => match result {
            Ok(()) => (QuitPhase::Saving, QuitAction::Quit),
            Err(e) => {
                let mut text = string_from("保存传输队列失败，未退出：");
                push_str(&mut text, e.as_str());
                (QuitPhase::Idle, QuitAction::Notify(DownloadMessage { is_error: true, text }))
            },
        },
        (QuitPhase::Clearing, QuitEvent::Cleared(result)) => match result {
            Ok(()) => (QuitPhase::Clearing, QuitAction::Quit),
            Err(e) => {
                let mut text = string_from("清除已保存队列失败，未退出：");
                push_str(&mut text, e.as_str());
                (QuitPhase::Idle, QuitAction::Notify(DownloadMessage { is_error: true, text }))
            },
        },
        (p, _) => (p, QuitAction::Nothing),
    }
}

} // verus!
