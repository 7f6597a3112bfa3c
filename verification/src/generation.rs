//! The decisions of a generation run: what is sent to the model, and what
//! is saved once the answer is in.

use vstd::prelude::*;
use crate::models::{Chapter, ChatMessage, ContextPreview};
use crate::text::{text_eq, trim, trim_text};

verus! {

/// The two messages of a generation: the system prompt, then the user
/// prompt.
pub fn generation_messages(preview: &ContextPreview) -> (r: Vec<ChatMessage>)
    ensures
        r@.len() == 2,
        r@[0].role@ == "system"@,
        r@[0].content == preview.system_prompt,
        r@[1].role@ == "user"@,
        r@[1].content == preview.user_prompt,
{
    let mut r: Vec<ChatMessage> = Vec::new();
    r.push(ChatMessage { role: String::from_str("system"), content: preview.system_prompt.clone() });
    r.push(ChatMessage { role: String::from_str("user"), content: preview.user_prompt.clone() });
    r
}

/// What is saved after a generation completes.
#[derive(Debug, PartialEq, Eq, Structural)]
pub enum FollowUp {
    /// Nothing: the text only goes to the editor.
    Nothing,
    /// The answer lists new memories to save.
    SaveMemories,
    /// The answer is the chapter's new summary.
    SaveSummary,
}

/// What to save after a generation: nothing when it was cancelled; new
/// memories after memory extraction; the summary after summarizing.
pub open spec fn follow_up_spec(mode: Seq<char>, cancelled: bool) -> FollowUp {
    if !cancelled && mode == "memory"@ {
        FollowUp::SaveMemories
    } else if !cancelled && mode == "summarize"@ {
        FollowUp::SaveSummary
    } else {
        FollowUp::Nothing
    }
}

/// A cancelled generation saves nothing.
pub proof fn cancelled_saves_nothing(mode: Seq<char>)
    ensures
        follow_up_spec(mode, true) == FollowUp::Nothing,
{
}

/// What to save after a generation in `mode`.
pub fn follow_up(mode: &str, cancelled: bool) -> (r: FollowUp)
    ensures
        r == follow_up_spec(mode@, cancelled),
{
    if !cancelled && text_eq(mode, "memory") {
        FollowUp::SaveMemories
    } else if !cancelled && text_eq(mode, "summarize") {
        FollowUp::SaveSummary
    } else {
        FollowUp::Nothing
    }
}

/// The chapter with the model's summary, trimmed, in place of its own.
pub fn with_summary(chapter: Chapter, text: &str) -> (r: Chapter)
    ensures
        r.summary@ == trim(text@),
        r.id == chapter.id,
        r.project_id == chapter.project_id,
        r.outline_id == chapter.outline_id,
        r.title == chapter.title,
        r.content == chapter.content,
        r.order_index == chapter.order_index,
        r.status == chapter.status,
        r.created_at == chapter.created_at,
        r.updated_at == chapter.updated_at,
{
    let mut c = chapter;
    c.summary = trim_text(text);
    c
}

} // verus!
