//! Bookkeeping for saving records: ids for new objects and time stamps.

use vstd::prelude::*;
use crate::models::{Chapter, Character, Entry, Memory, Outline, Project};

verus! {

/// A lower-case hexadecimal digit.
pub open spec fn is_lower_hex(c: char) -> bool {
    ('0' <= c && c <= '9') || ('a' <= c && c <= 'f')
}

/// A hyphenated lower-case UUID: 36 characters, hyphens at 8, 13, 18 and
/// 23, hexadecimal digits elsewhere.
pub open spec fn is_uuid_text(s: Seq<char>) -> bool {
    &&& s.len() == 36
    &&& forall|i: int|
        0 <= i < 36 ==> if i == 8 || i == 13 || i == 18 || i == 23 {
            #[trigger] s[i] == '-'
        } else {
            is_lower_hex(s[i])
        }
}

/// A version 4 UUID as text: hyphenated lower-case, with the version digit
/// `4` at 14 and one of the variant digits `8`, `9`, `a`, `b` at 19.
pub open spec fn is_uuid_v4_text(s: Seq<char>) -> bool {
    &&& is_uuid_text(s)
    &&& s[14] == '4'
    &&& (s[19] == '8' || s[19] == '9' || s[19] == 'a' || s[19] == 'b')
}

/// A decimal digit.
pub open spec fn is_digit(c: char) -> bool {
    '0' <= c && c <= '9'
}

/// A time stamp as `%Y-%m-%d %H:%M:%S` writes it: the year (at least four
/// digits, signed when outside 0..=9999), then `-MM-DD HH:MM:SS` with two
/// digits each.
pub open spec fn is_timestamp_text(t: Seq<char>) -> bool {
    let n = t.len() as int;
    let y = n - 15;
    &&& n >= 19
    &&& (is_digit(t[0]) || t[0] == '+' || t[0] == '-')
    &&& forall|i: int| 1 <= i < y ==> is_digit(#[trigger] t[i])
    &&& t[y] == '-' && is_digit(t[y + 1]) && is_digit(t[y + 2])
    &&& t[y + 3] == '-' && is_digit(t[y + 4]) && is_digit(t[y + 5])
    &&& t[y + 6] == ' ' && is_digit(t[y + 7]) && is_digit(t[y + 8])
    &&& t[y + 9] == ':' && is_digit(t[y + 10]) && is_digit(t[y + 11])
    &&& t[y + 12] == ':' && is_digit(t[y + 13]) && is_digit(t[y + 14])
}

/// The local time (`chrono::Local::now`) formatted as `%Y-%m-%d %H:%M:%S`.
/// The contract claims the layout of the text, which chrono writes for
/// every date it can hold (two zero-padded digits for month, day, hour,
/// minute and second; a four-digit year, signed and wider outside
/// 0..=9999); which time it is, is not claimed.
#[verifier::external_body]
pub fn now() -> (r: String)
    ensures
        is_timestamp_text(r@),
{
    chrono::Local::now().format("%Y-%m-%d %H:%M:%S").to_string()
}

/// A fresh random id (`uuid::Uuid::new_v4`, displayed); the contract claims
/// the shape of its text, a hyphenated lower-case version 4 UUID, and not
/// which one it is.
#[verifier::external_body]
pub fn nid() -> (r: String)
    ensures
        is_uuid_v4_text(r@),
{
    uuid::Uuid::new_v4().to_string()
}

/// The id a saved object gets: its own, or the fresh one when it has none.
pub open spec fn stamped_id(id: Seq<char>, fresh: Seq<char>) -> Seq<char> {
    if id.len() == 0 {
        fresh
    } else {
        id
    }
}

/// The creation time a saved object gets: its own, or `ts` when it is new
/// or has none.
pub open spec fn stamped_created(id: Seq<char>, created: Seq<char>, ts: Seq<char>) -> Seq<char> {
    if id.len() == 0 || created.len() == 0 {
        ts
    } else {
        created
    }
}

/// An optional link, with an empty link read as none.
pub open spec fn link_spec(link: Option<String>) -> Option<Seq<char>> {
    match link {
        Some(s) => if s@.len() == 0 {
            None
        } else {
            Some(s@)
        },
        None => None,
    }
}

/// The view of an optional link.
pub open spec fn opt_view(link: Option<String>) -> Option<Seq<char>> {
    match link {
        Some(s) => Some(s@),
        None => None,
    }
}

fn stamp_fields(id: String, created: String, ts: &String, fresh: &String) -> (r: (String, String, String))
    ensures
        r.0@ == stamped_id(id@, fresh@),
        r.1@ == stamped_created(id@, created@, ts@),
        r.2@ == ts@,
{
    let is_new = id.as_str().unicode_len() == 0;
    let id2 = if is_new {
        fresh.clone()
    } else {
        id
    };
    let created2 = if is_new || created.as_str().unicode_len() == 0 {
        ts.clone()
    } else {
        created
    };
    (id2, created2, ts.clone())
}

fn normalize_link(link: Option<String>) -> (r: Option<String>)
    ensures
        opt_view(r) == link_spec(link),
{
    match link {
        Some(s) => if s.as_str().unicode_len() == 0 {
            None
        } else {
            Some(s)
        },
        None => None,
    }
}

/// A project stamped for saving at time `ts`, with `fresh` as its id if it
/// is new.
pub fn stamp_project(p: Project, ts: &String, fresh: &String) -> (r: Project)
    ensures
        r.id@ == stamped_id(p.id@, fresh@),
        r.created_at@ == stamped_created(p.id@, p.created_at@, ts@),
        r.updated_at@ == ts@,
        r.title == p.title,
        r.genre == p.genre,
        r.description == p.description,
        r.style_prompt == p.style_prompt,
{
    let Project { id, title, genre, description, style_prompt, created_at, updated_at: _ } = p;
    let (id, created_at, updated_at) = stamp_fields(id, created_at, ts, fresh);
    Project { id, title, genre, description, style_prompt, created_at, updated_at }
}

/// A character stamped for saving at time `ts`, with `fresh` as its id if
/// it is new.
pub fn stamp_character(c: Character, ts: &String, fresh: &String) -> (r: Character)
    ensures
        r.id@ == stamped_id(c.id@, fresh@),
        r.created_at@ == stamped_created(c.id@, c.created_at@, ts@),
        r.updated_at@ == ts@,
        r.project_id == c.project_id,
        r.name == c.name,
        r.aliases == c.aliases,
        r.role == c.role,
        r.personality == c.personality,
        r.appearance == c.appearance,
        r.background == c.background,
        r.goals == c.goals,
        r.relationships == c.relationships,
        r.current_state == c.current_state,
        r.notes == c.notes,
{
    let Character {
        id,
        project_id,
        name,
        aliases,
        role,
        personality,
        appearance,
        background,
        goals,
        relationships,
        current_state,
        notes,
        created_at,
        updated_at: _,
    } = c;
    let (id, created_at, updated_at) = stamp_fields(id, created_at, ts, fresh);
    Character {
        id,
        project_id,
        name,
        aliases,
        role,
        personality,
        appearance,
        background,
        goals,
        relationships,
        current_state,
        notes,
        created_at,
        updated_at,
    }
}

/// An entry stamped for saving at time `ts`, with `fresh` as its id if it
/// is new.
pub fn stamp_entry(e: Entry, ts: &String, fresh: &String) -> (r: Entry)
    ensures
        r.id@ == stamped_id(e.id@, fresh@),
        r.created_at@ == stamped_created(e.id@, e.created_at@, ts@),
        r.updated_at@ == ts@,
        r.project_id == e.project_id,
        r.title == e.title,
        r.category == e.category,
        r.content == e.content,
        r.tags == e.tags,
{
    let Entry { id, project_id, title, category, content, tags, created_at, updated_at: _ } = e;
    let (id, created_at, updated_at) = stamp_fields(id, created_at, ts, fresh);
    Entry { id, project_id, title, category, content, tags, created_at, updated_at }
}

/// An outline node stamped for saving at time `ts`, with `fresh` as its id
/// if it is new; an empty parent link is dropped.
pub fn stamp_outline(o: Outline, ts: &String, fresh: &String) -> (r: Outline)
    ensures
        r.id@ == stamped_id(o.id@, fresh@),
        r.created_at@ == stamped_created(o.id@, o.created_at@, ts@),
        r.updated_at@ == ts@,
        opt_view(r.parent_id) == link_spec(o.parent_id),
        r.project_id == o.project_id,
        r.title == o.title,
        r.content == o.content,
        r.order_index == o.order_index,
        r.status == o.status,
{
    let Outline {
        id,
        project_id,
        parent_id,
        title,
        content,
        order_index,
        status,
        created_at,
        updated_at: _,
    } = o;
    let (id, created_at, updated_at) = stamp_fields(id, created_at, ts, fresh);
    let parent_id = normalize_link(parent_id);
    Outline { id, project_id, parent_id, title, content, order_index, status, created_at, updated_at }
}

/// A chapter stamped for saving at time `ts`, with `fresh` as its id if it
/// is new; an empty outline link is dropped.
pub fn stamp_chapter(c: Chapter, ts: &String, fresh: &String) -> (r: Chapter)
    ensures
        r.id@ == stamped_id(c.id@, fresh@),
        r.created_at@ == stamped_created(c.id@, c.created_at@, ts@),
        r.updated_at@ == ts@,
        opt_view(r.outline_id) == link_spec(c.outline_id),
        r.project_id == c.project_id,
        r.title == c.title,
        r.content == c.content,
        r.summary == c.summary,
        r.order_index == c.order_index,
        r.status == c.status,
{
    let Chapter {
        id,
        project_id,
        outline_id,
        title,
        content,
        summary,
        order_index,
        status,
        created_at,
        updated_at: _,
    } = c;
    let (id, created_at, updated_at) = stamp_fields(id, created_at, ts, fresh);
    let outline_id = normalize_link(outline_id);
    Chapter {
        id,
        project_id,
        outline_id,
        title,
        content,
        summary,
        order_index,
        status,
        created_at,
        updated_at,
    }
}

/// A memory stamped for saving at time `ts`, with `fresh` as its id if it
/// is new.
pub fn stamp_memory(m: Memory, ts: &String, fresh: &String) -> (r: Memory)
    ensures
        r.id@ == stamped_id(m.id@, fresh@),
        r.created_at@ == stamped_created(m.id@, m.created_at@, ts@),
        r.updated_at@ == ts@,
        r.project_id == m.project_id,
        r.kind == m.kind,
        r.title == m.title,
        r.content == m.content,
        r.source == m.source,
{
    let Memory { id, project_id, kind, title, content, source, created_at, updated_at: _ } = m;
    let (id, created_at, updated_at) = stamp_fields(id, created_at, ts, fresh);
    Memory { id, project_id, kind, title, content, source, created_at, updated_at }
}

/// What stamping at the current time gives, whatever the time and the
/// fresh id are: an object that had an id keeps it, a new one gets a
/// UUID; an object that is new or had no creation time is created when it
/// is updated, others keep their creation time.
pub open spec fn saved_as(
    old_id: Seq<char>,
    old_created: Seq<char>,
    id: Seq<char>,
    created: Seq<char>,
    updated: Seq<char>,
) -> bool {
    &&& (old_id.len() > 0 ==> id == old_id)
    &&& (old_id.len() == 0 ==> is_uuid_v4_text(id))
    &&& is_timestamp_text(updated)
    &&& ((old_id.len() == 0 || old_created.len() == 0) ==> created == updated)
    &&& ((old_id.len() > 0 && old_created.len() > 0) ==> created == old_created)
}

/// Saving again keeps what the first save gave: the id and the creation
/// time stay, only the update time moves.
pub proof fn restamp_keeps_identity(
    id: Seq<char>,
    created: Seq<char>,
    ts1: Seq<char>,
    fresh1: Seq<char>,
    ts2: Seq<char>,
    fresh2: Seq<char>,
)
    requires
        fresh1.len() > 0,
        ts1.len() > 0,
    ensures
        stamped_id(stamped_id(id, fresh1), fresh2) == stamped_id(id, fresh1),
        stamped_created(stamped_id(id, fresh1), stamped_created(id, created, ts1), ts2)
            == stamped_created(id, created, ts1),
{
}

/// Saving a saved object again keeps its id and its creation time,
/// whatever the clock and the random ids give.
pub proof fn saving_twice_keeps_identity(
    old_id: Seq<char>,
    old_created: Seq<char>,
    id1: Seq<char>,
    created1: Seq<char>,
    updated1: Seq<char>,
    id2: Seq<char>,
    created2: Seq<char>,
    updated2: Seq<char>,
)
    requires
        saved_as(old_id, old_created, id1, created1, updated1),
        saved_as(id1, created1, id2, created2, updated2),
    ensures
        id2 == id1,
        created2 == created1,
{
}

fn fresh_for(id: &String) -> (r: String)
    ensures
        id@.len() == 0 ==> is_uuid_v4_text(r@),
{
    if id.as_str().unicode_len() == 0 {
        nid()
    } else {
        String::new()
    }
}

/// A project ready to be saved now.
pub fn prepare_project(p: Project) -> (r: Project)
    ensures
        saved_as(p.id@, p.created_at@, r.id@, r.created_at@, r.updated_at@),
        r.title == p.title,
        r.genre == p.genre,
        r.description == p.description,
        r.style_prompt == p.style_prompt,
{
    let ts = now();
    let fresh = fresh_for(&p.id);
    stamp_project(p, &ts, &fresh)
}

/// A character ready to be saved now.
pub fn prepare_character(c: Character) -> (r: Character)
    ensures
        saved_as(c.id@, c.created_at@, r.id@, r.created_at@, r.updated_at@),
        r.project_id == c.project_id,
        r.name == c.name,
        r.aliases == c.aliases,
        r.role == c.role,
        r.personality == c.personality,
        r.appearance == c.appearance,
        r.background == c.background,
        r.goals == c.goals,
        r.relationships == c.relationships,
        r.current_state == c.current_state,
        r.notes == c.notes,
{
    let ts = now();
    let fresh = fresh_for(&c.id);
    stamp_character(c, &ts, &fresh)
}

/// An entry ready to be saved now.
pub fn prepare_entry(e: Entry) -> (r: Entry)
    ensures
        saved_as(e.id@, e.created_at@, r.id@, r.created_at@, r.updated_at@),
        r.project_id == e.project_id,
        r.title == e.title,
        r.category == e.category,
        r.content == e.content,
        r.tags == e.tags,
{
    let ts = now();
    let fresh = fresh_for(&e.id);
    stamp_entry(e, &ts, &fresh)
}

/// An outline node ready to be saved now.
pub fn prepare_outline(o: Outline) -> (r: Outline)
    ensures
        saved_as(o.id@, o.created_at@, r.id@, r.created_at@, r.updated_at@),
        opt_view(r.parent_id) == link_spec(o.parent_id),
        r.project_id == o.project_id,
        r.title == o.title,
        r.content == o.content,
        r.order_index == o.order_index,
        r.status == o.status,
{
    let ts = now();
    let fresh = fresh_for(&o.id);
    stamp_outline(o, &ts, &fresh)
}

/// A chapter ready to be saved now.
pub fn prepare_chapter(c: Chapter) -> (r: Chapter)
    ensures
        saved_as(c.id@, c.created_at@, r.id@, r.created_at@, r.updated_at@),
        opt_view(r.outline_id) == link_spec(c.outline_id),
        r.project_id == c.project_id,
        r.title == c.title,
        r.content == c.content,
        r.summary == c.summary,
        r.order_index == c.order_index,
        r.status == c.status,
{
    let ts = now();
    let fresh = fresh_for(&c.id);
    stamp_chapter(c, &ts, &fresh)
}

/// A memory ready to be saved now.
pub fn prepare_memory(m: Memory) -> (r: Memory)
    ensures
        saved_as(m.id@, m.created_at@, r.id@, r.created_at@, r.updated_at@),
        r.project_id == m.project_id,
        r.kind == m.kind,
        r.title == m.title,
        r.content == m.content,
        r.source == m.source,
{
    let ts = now();
    let fresh = fresh_for(&m.id);
    stamp_memory(m, &ts, &fresh)
}

} // verus!
