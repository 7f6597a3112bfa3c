//! The records a book is made of, the settings, and the values exchanged
//! with the user interface.

use vstd::prelude::*;

verus! {

/// A book.
#[derive(Debug)]
pub struct Project {
    pub id: String,
    pub title: String,
    pub genre: String,
    pub description: String,
    pub style_prompt: String,
    pub created_at: String,
    pub updated_at: String,
}

/// A character card.
#[derive(Debug)]
pub struct Character {
    pub id: String,
    pub project_id: String,
    pub name: String,
    pub aliases: String,
    pub role: String,
    pub personality: String,
    pub appearance: String,
    pub background: String,
    pub goals: String,
    pub relationships: String,
    pub current_state: String,
    pub notes: String,
    pub created_at: String,
    pub updated_at: String,
}

/// A setting entry (place, organisation, item, rule, event, concept).
#[derive(Debug)]
pub struct Entry {
    pub id: String,
    pub project_id: String,
    pub title: String,
    pub category: String,
    pub content: String,
    pub tags: String,
    pub created_at: String,
    pub updated_at: String,
}

/// An outline node.
#[derive(Debug)]
pub struct Outline {
    pub id: String,
    pub project_id: String,
    pub parent_id: Option<String>,
    pub title: String,
    pub content: String,
    pub order_index: i64,
    pub status: String,
    pub created_at: String,
    pub updated_at: String,
}

/// A chapter with its text and summary.
#[derive(Debug)]
pub struct Chapter {
    pub id: String,
    pub project_id: String,
    pub outline_id: Option<String>,
    pub title: String,
    pub content: String,
    pub summary: String,
    pub order_index: i64,
    pub status: String,
    pub created_at: String,
    pub updated_at: String,
}

/// A long-term memory (plot, character, world or style fact).
#[derive(Debug)]
pub struct Memory {
    pub id: String,
    pub project_id: String,
    pub kind: String,
    pub title: String,
    pub content: String,
    pub source: String,
    pub created_at: String,
    pub updated_at: String,
}

/// A book together with all of its objects.
#[derive(Debug)]
pub struct ProjectBundle {
    pub project: Project,
    pub characters: Vec<Character>,
    pub entries: Vec<Entry>,
    pub outlines: Vec<Outline>,
    pub chapters: Vec<Chapter>,
    pub memories: Vec<Memory>,
}

/// Model connection and generation settings.
///
/// The sampling temperature is a binary32 float; it is held here as its
/// IEEE-754 bit pattern, which nothing in this library reads.
#[derive(Debug)]
pub struct AppSettings {
    pub mode: String,
    pub preset: String,
    pub base_url: String,
    pub api_key: String,
    pub model: String,
    pub temperature_bits: u32,
    pub max_tokens: u32,
    pub retrieve_k: u32,
    pub context_budget: u32,
    pub include_memories: bool,
    pub include_retrieval: bool,
    pub include_outline: bool,
    pub include_characters: bool,
    pub include_entries: bool,
    pub writing_style: String,
}

/// What the workspace asks to generate.
#[derive(Debug)]
pub struct GenerateRequest {
    pub project_id: String,
    pub chapter_id: Option<String>,
    pub outline_id: Option<String>,
    pub character_id: Option<String>,
    pub entry_id: Option<String>,
    pub character_ids: Vec<String>,
    pub entry_ids: Vec<String>,
    pub instruction: String,
    pub mode: String,
    pub target: String,
    pub selected_text: Option<String>,
    pub object_snapshot: Option<String>,
}

/// One piece of context injected into a prompt.
///
/// `score` is the order key of the item's binary32 relevance score: the
/// score's bit pattern mapped so that comparing keys as unsigned integers
/// orders them as the scores are ordered (see `score`).
#[derive(Debug)]
pub struct ContextItem {
    pub kind: String,
    pub id: String,
    pub title: String,
    pub snippet: String,
    pub score: u32,
}

/// A context item as plain values: kind, id, title, snippet, score key.
pub type ItemView = (Seq<char>, Seq<char>, Seq<char>, Seq<char>, u32);

/// The view of a context item.
pub open spec fn item_view(i: ContextItem) -> ItemView {
    (i.kind@, i.id@, i.title@, i.snippet@, i.score)
}

/// The views of a sequence of context items.
pub open spec fn item_views(s: Seq<ContextItem>) -> Seq<ItemView> {
    s.map_values(|i: ContextItem| item_view(i))
}

/// The context and prompts assembled for one generation.
#[derive(Debug)]
pub struct ContextPreview {
    pub items: Vec<ContextItem>,
    pub system_prompt: String,
    pub user_prompt: String,
}

/// One chat message sent to the model.
#[derive(Debug)]
pub struct ChatMessage {
    pub role: String,
    pub content: String,
}

/// What the author filled in before asking for book metadata.
#[derive(Debug)]
pub struct BookMetaSeed {
    pub title: String,
    pub genre: String,
    pub style_prompt: String,
    pub description: String,
    pub instruction: String,
    pub mode: String,
}

/// Book metadata proposed by the model.
#[derive(Debug)]
pub struct BookMeta {
    pub title: String,
    pub genre: String,
    pub style_prompt: String,
    pub description: String,
}

/// The outcome of a connection test.
#[derive(Debug)]
pub struct ConnectionTest {
    pub ok: bool,
    pub message: String,
    pub models: Vec<String>,
}

/// The bit pattern of the default temperature, 0.85 as a binary32 float.
pub const DEFAULT_TEMPERATURE_BITS: u32 = 0x3F59_999A;

impl Default for AppSettings {
    fn default() -> (r: Self)
        ensures
            r.mode@ == "online"@,
            r.preset@ == "deepseek"@,
            r.base_url@ == "https://api.deepseek.com/v1"@,
            r.api_key@.len() == 0,
            r.model@ == "deepseek-chat"@,
            r.temperature_bits == DEFAULT_TEMPERATURE_BITS,
            r.max_tokens == 2048,
            r.retrieve_k == 8,
            r.context_budget == 7000,
            r.include_memories,
            r.include_retrieval,
            r.include_outline,
            r.include_characters,
            r.include_entries,
            r.writing_style@.len() == 0,
    {
        AppSettings {
            mode: String::from_str("online"),
            preset: String::from_str("deepseek"),
            base_url: String::from_str("https://api.deepseek.com/v1"),
            api_key: String::new(),
            model: String::from_str("deepseek-chat"),
            temperature_bits: DEFAULT_TEMPERATURE_BITS,
            max_tokens: 2048,
            retrieve_k: 8,
            context_budget: 7000,
            include_memories: true,
            include_retrieval: true,
            include_outline: true,
            include_characters: true,
            include_entries: true,
            writing_style: String::new(),
        }
    }
}

impl Clone for ContextItem {
    fn clone(&self) -> (r: Self)
        ensures
            r == *self,
    {
        ContextItem {
            kind: self.kind.clone(),
            id: self.id.clone(),
            title: self.title.clone(),
            snippet: self.snippet.clone(),
            score: self.score,
        }
    }
}

impl Clone for Chapter {
    fn clone(&self) -> (r: Self)
        ensures
            r == *self,
    {
        Chapter {
            id: self.id.clone(),
            project_id: self.project_id.clone(),
            outline_id: self.outline_id.clone(),
            title: self.title.clone(),
            content: self.content.clone(),
            summary: self.summary.clone(),
            order_index: self.order_index,
            status: self.status.clone(),
            created_at: self.created_at.clone(),
            updated_at: self.updated_at.clone(),
        }
    }
}

} // verus!
