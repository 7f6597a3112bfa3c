//! Context assembly and prompt building.
//!
//! What goes into a prompt, in priority order: the current outline, the
//! characters and entries that are open or picked, characters the request
//! names, long-term memories, earlier chapters, retrieval results. The
//! items are ranked by score and cut to the context budget.

use vstd::prelude::*;
use crate::models::{
    item_view, item_views, AppSettings, Chapter, Character, ContextItem, Entry, GenerateRequest,
    BookMetaSeed, ChatMessage, ItemView, Memory, Outline, Project, ProjectBundle,
};
use crate::order::{insert_by, lemma_insert_at, lemma_insert_contains, sort_by, sort_by_contains};
use crate::score::{by_score, int_key, int_score_key, sort_by_score, sorted_by_score_descends};
use crate::texts::{STYLE_FALLBACK, RULES_MEMORY, RULES_CHARACTER, RULES_ENTRY, RULES_OUTLINE, RULES_SUMMARY, RULES_CHAPTER, EMPTY_CHARACTER, EMPTY_ENTRY, EMPTY_OUTLINE, EMPTY_CHAPTER, TASK_MEMORY, TASK_CHARACTER_EXPAND, TASK_CHARACTER_REWRITE, TASK_CHARACTER_DRAFT, TASK_ENTRY_EXPAND, TASK_ENTRY_REWRITE, TASK_ENTRY_DRAFT, TASK_OUTLINE_EXPAND, TASK_OUTLINE_REWRITE, TASK_OUTLINE_DRAFT, TASK_EXPAND, TASK_REWRITE, TASK_SUMMARIZE, TASK_DRAFT, TASK_CONTINUE, HINT_CONTINUE, HINT_CHAPTER_DRAFT, HINT_EXPAND, HINT_DRAFT, KEEP_EXPAND, KEEP_DRAFT, NO_INSTRUCTION, HINT_MEMORY, HINT_DEFAULT, SYSTEM_HEAD, SYSTEM_GENRE, SYSTEM_DESCRIPTION, SYSTEM_STYLE, PARAGRAPH, USER_HEAD, USER_REVISION, USER_OBJECT, USER_TASK, USER_TASK_NOTE, USER_INSTRUCTION, USER_CAST, SELECTED_HEAD, META_HEAD, META_TAIL};
use crate::retrieval::{boost_ids, named_character_ids, names, names_character, nl};
use crate::text::{
    blank, char_count, chars_of, clip_str, clip_text, is_blank, join, join_with, push_char, push_text,
    string_of_range, text_eq, text_less, text_lt, trim, trim_bounds, trim_text, occurs_in,
    lemma_trim_shape, trim_keeps_inner,
};

verus! {

/// An object that carries an id.
pub trait Record {
    spec fn record_id(&self) -> Seq<char>;

    fn id_text(&self) -> (r: &String)
        ensures
            r@ == self.record_id(),
    ;
}

impl Record for Chapter {
    open spec fn record_id(&self) -> Seq<char> {
        self.id@
    }

    fn id_text(&self) -> (r: &String) {
        &self.id
    }
}

impl Record for Outline {
    open spec fn record_id(&self) -> Seq<char> {
        self.id@
    }

    fn id_text(&self) -> (r: &String) {
        &self.id
    }
}

impl Record for Character {
    open spec fn record_id(&self) -> Seq<char> {
        self.id@
    }

    fn id_text(&self) -> (r: &String) {
        &self.id
    }
}

impl Record for Entry {
    open spec fn record_id(&self) -> Seq<char> {
        self.id@
    }

    fn id_text(&self) -> (r: &String) {
        &self.id
    }
}

/// The first object of `s` with id `id`.
pub open spec fn find_by_id<T: Record>(s: Seq<T>, id: Seq<char>) -> Option<T>
    decreases s.len(),
{
    if s.len() == 0 {
        None
    } else if s[0].record_id() == id {
        Some(s[0])
    } else {
        find_by_id(s.drop_first(), id)
    }
}

/// The object of `s` that an optional id selects.
pub open spec fn select<T: Record>(s: Seq<T>, id: Option<String>) -> Option<T> {
    match id {
        Some(i) => find_by_id(s, i@),
        None => None,
    }
}

/// Finds the first object of `s` with id `id`.
pub fn find_record<'a, T: Record>(s: &'a Vec<T>, id: &String) -> (r: Option<&'a T>)
    ensures
        match r {
            Some(x) => find_by_id(s@, id@) == Some(*x),
            None => find_by_id(s@, id@) is None,
        },
{
    let mut i: usize = 0;
    assert(s@.skip(0) =~= s@);
    while i < s.len()
        invariant
            i <= s@.len(),
            find_by_id(s@, id@) == find_by_id(s@.skip(i as int), id@),
        decreases s@.len() - i,
    {
        assert(s@.skip(i as int)[0] == s@[i as int]);
        assert(s@.skip(i as int).drop_first() =~= s@.skip(i + 1));
        if *s[i].id_text() == *id {
            return Some(&s[i]);
        }
        i = i + 1;
    }
    None
}

/// Selects an object of `s` by an optional id.
pub fn select_record<'a, T: Record>(s: &'a Vec<T>, id: &Option<String>) -> (r: Option<&'a T>)
    ensures
        match r {
            Some(x) => select(s@, *id) == Some(*x),
            None => select(s@, *id) is None,
        },
{
    match id {
        Some(i) => find_record(s, i),
        None => None,
    }
}

/// The kind of object a request works on: its explicit target when that
/// is not blank, else memories, characters, entries, outlines or chapters,
/// by what the request selects.
pub open spec fn target_spec(req: GenerateRequest) -> Seq<char> {
    if !is_blank(req.target@) {
        trim(req.target@)
    } else if req.mode@ == "memory"@ {
        "memories"@
    } else if req.character_id is Some {
        "characters"@
    } else if req.entry_id is Some {
        "entries"@
    } else if req.outline_id is Some && req.chapter_id is None {
        "outlines"@
    } else {
        "chapters"@
    }
}

/// The kind of object a request works on.
pub fn target_of(req: &GenerateRequest) -> (r: String)
    ensures
        r@ == target_spec(*req),
{
    if !blank(req.target.as_str()) {
        return trim_text(req.target.as_str());
    }
    if text_eq(req.mode.as_str(), "memory") {
        return String::from_str("memories");
    }
    if req.character_id.is_some() {
        return String::from_str("characters");
    }
    if req.entry_id.is_some() {
        return String::from_str("entries");
    }
    if req.outline_id.is_some() && req.chapter_id.is_none() {
        return String::from_str("outlines");
    }
    String::from_str("chapters")
}

/// The last `max` characters of the trimmed text, marked with `……` when
/// cut; a placeholder when there is no text.
pub open spec fn tail_text(s: Seq<char>, max: nat) -> Seq<char> {
    let t = trim(s);
    if t.len() == 0 {
        "（尚无正文）"@
    } else if t.len() <= max {
        t
    } else {
        "……"@ + t.skip(t.len() - max)
    }
}

/// The end of a text, at most `max_chars` characters of it.
pub fn tail(text: &str, max_chars: usize) -> (r: String)
    ensures
        r@ == tail_text(text@, max_chars as nat),
{
    let cs = chars_of(text);
    let (a, b) = trim_bounds(cs.as_slice());
    if a == b {
        return String::from_str("（尚无正文）");
    }
    if b - a <= max_chars {
        return string_of_range(cs.as_slice(), a, b);
    }
    let mut r = String::from_str("……");
    let part = string_of_range(cs.as_slice(), b - max_chars, b);
    push_text(&mut r, part.as_str());
    assert(cs@.subrange(b - max_chars, b as int) =~= trim(text@).skip(trim(text@).len() - max_chars));
    r
}

/// The optional text as zero or one parts.
pub open spec fn opt_part(t: Option<String>) -> Seq<Seq<char>> {
    match t {
        Some(s) => seq![s@],
        None => seq![],
    }
}

/// The parts the retrieval query is made of: the instruction, the object
/// snapshot, the selected text, the chapter's title, summary and last 800
/// characters, the outline's title and text, the character's name,
/// background and current state, the entry's title and text.
pub open spec fn query_parts(
    req: GenerateRequest,
    chapter: Option<Chapter>,
    outline: Option<Outline>,
    character: Option<Character>,
    entry: Option<Entry>,
) -> Seq<Seq<char>> {
    seq![req.instruction@] + opt_part(req.object_snapshot) + opt_part(req.selected_text)
        + chapter_parts(chapter) + outline_parts(outline) + character_parts(character) + entry_parts(
        entry,
    )
}

/// The retrieval query: the query parts, one a line.
pub open spec fn query_spec(
    req: GenerateRequest,
    chapter: Option<Chapter>,
    outline: Option<Outline>,
    character: Option<Character>,
    entry: Option<Entry>,
) -> Seq<char> {
    join_with(query_parts(req, chapter, outline, character, entry), nl())
}

/// An optional reference as an optional value.
pub open spec fn deref_opt<T>(o: Option<&T>) -> Option<T> {
    match o {
        Some(x) => Some(*x),
        None => None,
    }
}

fn push_part(parts: &mut Vec<String>, s: String)
    ensures
        final(parts).deep_view() == old(parts).deep_view().push(s@),
{
    parts.push(s);
    assert(final(parts).deep_view() =~= old(parts).deep_view().push(s@));
}

pub open spec fn chapter_parts(chapter: Option<Chapter>) -> Seq<Seq<char>> {
    match chapter {
        Some(c) => seq![c.title@, c.summary@, tail_text(c.content@, 800)],
        None => seq![],
    }
}

pub open spec fn outline_parts(outline: Option<Outline>) -> Seq<Seq<char>> {
    match outline {
        Some(o) => seq![o.title@, o.content@],
        None => seq![],
    }
}

pub open spec fn character_parts(character: Option<Character>) -> Seq<Seq<char>> {
    match character {
        Some(c) => seq![c.name@, c.background@, c.current_state@],
        None => seq![],
    }
}

pub open spec fn entry_parts(entry: Option<Entry>) -> Seq<Seq<char>> {
    match entry {
        Some(e) => seq![e.title@, e.content@],
        None => seq![],
    }
}

fn push_opt(parts: &mut Vec<String>, t: &Option<String>)
    ensures
        final(parts).deep_view() == old(parts).deep_view() + opt_part(*t),
{
    if let Some(s) = t {
        push_part(parts, s.clone());
    }
    assert(parts.deep_view() =~= old(parts).deep_view() + opt_part(*t));
}

fn push_chapter_parts(parts: &mut Vec<String>, chapter: Option<&Chapter>)
    ensures
        final(parts).deep_view() == old(parts).deep_view() + chapter_parts(deref_opt(chapter)),
{
    if let Some(ch) = chapter {
        push_part(parts, ch.title.clone());
        push_part(parts, ch.summary.clone());
        push_part(parts, tail(ch.content.as_str(), 800));
    }
    assert(parts.deep_view() =~= old(parts).deep_view() + chapter_parts(deref_opt(chapter)));
}

fn push_outline_parts(parts: &mut Vec<String>, outline: Option<&Outline>)
    ensures
        final(parts).deep_view() == old(parts).deep_view() + outline_parts(deref_opt(outline)),
{
    if let Some(o) = outline {
        push_part(parts, o.title.clone());
        push_part(parts, o.content.clone());
    }
    assert(parts.deep_view() =~= old(parts).deep_view() + outline_parts(deref_opt(outline)));
}

fn push_character_parts(parts: &mut Vec<String>, character: Option<&Character>)
    ensures
        final(parts).deep_view() == old(parts).deep_view() + character_parts(deref_opt(character)),
{
    if let Some(c) = character {
        push_part(parts, c.name.clone());
        push_part(parts, c.background.clone());
        push_part(parts, c.current_state.clone());
    }
    assert(parts.deep_view() =~= old(parts).deep_view() + character_parts(deref_opt(character)));
}

fn push_entry_parts(parts: &mut Vec<String>, entry: Option<&Entry>)
    ensures
        final(parts).deep_view() == old(parts).deep_view() + entry_parts(deref_opt(entry)),
{
    if let Some(e) = entry {
        push_part(parts, e.title.clone());
        push_part(parts, e.content.clone());
    }
    assert(parts.deep_view() =~= old(parts).deep_view() + entry_parts(deref_opt(entry)));
}

/// A line break, as a string.
pub fn newline() -> (r: &'static str)
    ensures
        r@ == nl(),
{
    proof {
        reveal_strlit("\n");
    }
    assert("\n"@ =~= nl());
    "\n"
}

/// Composes the retrieval query of a request.
pub fn compose_query(
    req: &GenerateRequest,
    chapter: Option<&Chapter>,
    outline: Option<&Outline>,
    character: Option<&Character>,
    entry: Option<&Entry>,
) -> (r: String)
    ensures
        r@ == query_spec(
            *req,
            deref_opt(chapter),
            deref_opt(outline),
            deref_opt(character),
            deref_opt(entry),
        ),
{
    let mut parts: Vec<String> = Vec::new();
    push_part(&mut parts, req.instruction.clone());
    assert(parts.deep_view() =~= seq![req.instruction@]);
    push_opt(&mut parts, &req.object_snapshot);
    push_opt(&mut parts, &req.selected_text);
    push_chapter_parts(&mut parts, chapter);
    push_outline_parts(&mut parts, outline);
    push_character_parts(&mut parts, character);
    push_entry_parts(&mut parts, entry);
    assert(parts.deep_view() =~= query_parts(
        *req,
        deref_opt(chapter),
        deref_opt(outline),
        deref_opt(character),
        deref_opt(entry),
    ));
    join(&parts, newline())
}

/// `d` already holds an item of the same kind and id as `x`.
pub open spec fn has_key(d: Seq<ItemView>, x: ItemView) -> bool {
    exists|i: int| 0 <= i < d.len() && (#[trigger] d[i]).0 == x.0 && d[i].1 == x.1
}

/// `d` with `x` appended unless an item of the same kind and id is there.
pub open spec fn push_unique_spec(d: Seq<ItemView>, x: ItemView) -> Seq<ItemView> {
    if has_key(d, x) {
        d
    } else {
        d.push(x)
    }
}

/// `d` with each of `xs` appended in turn unless its kind and id are there.
pub open spec fn push_all(d: Seq<ItemView>, xs: Seq<ItemView>) -> Seq<ItemView>
    decreases xs.len(),
{
    if xs.len() == 0 {
        d
    } else {
        push_unique_spec(push_all(d, xs.drop_last()), xs.last())
    }
}

/// Pushing two runs one after the other is pushing their concatenation.
pub proof fn lemma_push_all_concat(d: Seq<ItemView>, a: Seq<ItemView>, b: Seq<ItemView>)
    ensures
        push_all(push_all(d, a), b) == push_all(d, a + b),
    decreases b.len(),
{
    if b.len() == 0 {
        assert(a + b =~= a);
    } else {
        lemma_push_all_concat(d, a, b.drop_last());
        assert((a + b).drop_last() =~= a + b.drop_last());
    }
}

/// Appends `item` unless an item of the same kind and id is there.
pub fn push_unique(items: &mut Vec<ContextItem>, item: ContextItem)
    ensures
        item_views(final(items)@) == push_unique_spec(item_views(old(items)@), item_view(item)),
{
    let ghost d = item_views(items@);
    let mut i: usize = 0;
    while i < items.len()
        invariant
            d == item_views(items@),
            i <= items@.len(),
            forall|j: int| 0 <= j < i ==> !((#[trigger] d[j]).0 == item.kind@ && d[j].1 == item.id@),
        decreases items@.len() - i,
    {
        if items[i].kind == item.kind && items[i].id == item.id {
            assert(d[i as int].0 == item.kind@ && d[i as int].1 == item.id@);
            return;
        }
        i = i + 1;
    }
    let ghost x = item_view(item);
    items.push(item);
    assert(item_views(items@) =~= d.push(x));
}

/// Appends each of `xs` in turn, unless its kind and id are there.
fn push_each(items: &mut Vec<ContextItem>, xs: Vec<ContextItem>)
    ensures
        item_views(final(items)@) == push_all(item_views(old(items)@), item_views(xs@)),
{
    let ghost d = item_views(items@);
    let ghost all = item_views(xs@);
    let mut i: usize = 0;
    assert(all.take(0) =~= Seq::<ItemView>::empty());
    while i < xs.len()
        invariant
            i <= xs@.len(),
            all == item_views(xs@),
            item_views(items@) == push_all(d, all.take(i as int)),
        decreases xs@.len() - i,
    {
        assert(all.take(i + 1).drop_last() =~= all.take(i as int));
        push_unique(items, xs[i].clone());
        i = i + 1;
    }
    assert(all.take(xs@.len() as int) =~= all);
}

/// A character card as prompt text, one labelled field a line.
pub open spec fn format_character_spec(c: Character) -> Seq<char> {
    "姓名："@ + c.name@ + "\n别称："@ + c.aliases@ + "\n定位："@ + c.role@ + "\n性格："@
        + c.personality@ + "\n外貌："@ + c.appearance@ + "\n背景："@ + c.background@ + "\n目标："@
        + c.goals@ + "\n关系："@ + c.relationships@ + "\n当前状态："@ + c.current_state@ + "\n备注："@
        + c.notes@
}

/// A character card as prompt text.
pub fn format_character(c: &Character) -> (r: String)
    ensures
        r@ == format_character_spec(*c),
{
    let mut s = String::from_str("姓名：");
    push_text(&mut s, c.name.as_str());
    push_text(&mut s, "\n别称：");
    push_text(&mut s, c.aliases.as_str());
    push_text(&mut s, "\n定位：");
    push_text(&mut s, c.role.as_str());
    push_text(&mut s, "\n性格：");
    push_text(&mut s, c.personality.as_str());
    push_text(&mut s, "\n外貌：");
    push_text(&mut s, c.appearance.as_str());
    push_text(&mut s, "\n背景：");
    push_text(&mut s, c.background.as_str());
    push_text(&mut s, "\n目标：");
    push_text(&mut s, c.goals.as_str());
    push_text(&mut s, "\n关系：");
    push_text(&mut s, c.relationships.as_str());
    push_text(&mut s, "\n当前状态：");
    push_text(&mut s, c.current_state.as_str());
    push_text(&mut s, "\n备注：");
    push_text(&mut s, c.notes.as_str());
    s
}

/// The context item of a character card at the given score.
pub open spec fn character_item_spec(c: Character, score: u32) -> ItemView {
    ("character"@, c.id@, "角色 · "@ + c.name@, clip_text(format_character_spec(c), 420), score)
}

/// The context item of an entry at the given score.
pub open spec fn entry_item_spec(e: Entry, score: u32) -> ItemView {
    (
        "entry"@,
        e.id@,
        "条目 · "@ + e.title@ + "（"@ + e.category@ + "）"@,
        clip_text(e.content@, 360),
        score,
    )
}

fn labelled(prefix: &str, t: &String) -> (r: String)
    ensures
        r@ == prefix@ + t@,
{
    let mut s = String::from_str(prefix);
    push_text(&mut s, t.as_str());
    s
}

/// The context item of a character card.
pub fn character_item(c: &Character, score: u32) -> (r: ContextItem)
    ensures
        item_view(r) == character_item_spec(*c, score),
{
    let card = format_character(c);
    ContextItem {
        kind: String::from_str("character"),
        id: c.id.clone(),
        title: labelled("角色 · ", &c.name),
        snippet: clip_str(card.as_str(), 420),
        score,
    }
}

/// The context item of an entry.
pub fn entry_item(e: &Entry, score: u32) -> (r: ContextItem)
    ensures
        item_view(r) == entry_item_spec(*e, score),
{
    let mut title = labelled("条目 · ", &e.title);
    push_text(&mut title, "（");
    push_text(&mut title, e.category.as_str());
    push_text(&mut title, "）");
    ContextItem {
        kind: String::from_str("entry"),
        id: e.id.clone(),
        title,
        snippet: clip_str(e.content.as_str(), 360),
        score,
    }
}

/// The cost of an item against the context budget: the characters of its
/// snippet and title.
pub open spec fn item_cost(x: ItemView) -> nat {
    x.3.len() + x.2.len()
}

/// The items kept within `budget`, given `used` characters already spent:
/// an item is dropped when it would push the total past the budget and
/// something has been kept already; later, smaller items may still fit.
pub open spec fn budget_keep(s: Seq<ItemView>, budget: nat, used: nat) -> Seq<ItemView>
    decreases s.len(),
{
    if s.len() == 0 {
        s
    } else if used + item_cost(s[0]) > budget && used > 0 {
        budget_keep(s.drop_first(), budget, used)
    } else {
        seq![s[0]] + budget_keep(s.drop_first(), budget, used + item_cost(s[0]))
    }
}

/// Keeps the items that fit the character budget, in order.
pub fn trim_budget(items: Vec<ContextItem>, budget: usize) -> (r: Vec<ContextItem>)
    ensures
        item_views(r@) == budget_keep(item_views(items@), budget as nat, 0),
{
    let ghost all = item_views(items@);
    let mut kept: Vec<ContextItem> = Vec::new();
    let mut used: u128 = 0;
    let mut i: usize = 0;
    assert(all.skip(0) =~= all);
    assert(item_views(kept@) =~= Seq::<ItemView>::empty());
    while i < items.len()
        invariant
            i <= items@.len(),
            all == item_views(items@),
            used <= 2 * (usize::MAX as u128),
            budget_keep(all, budget as nat, 0) == item_views(kept@) + budget_keep(
                all.skip(i as int),
                budget as nat,
                used as nat,
            ),
        decreases items@.len() - i,
    {
        let x = items[i].clone();
        let t = x.title.as_str().unicode_len() as u128;
        let c = x.snippet.as_str().unicode_len() as u128;
        let cost = t + c;
        assert(cost == item_cost(all[i as int]));
        assert(all.skip(i as int)[0] == all[i as int]);
        assert(all.skip(i as int).drop_first() =~= all.skip(i + 1));
        if used + cost > budget as u128 && used > 0 {
        } else {
            let ghost prev = item_views(kept@);
            kept.push(x);
            assert(item_views(kept@) =~= prev.push(all[i as int]));
            assert(item_views(kept@) + budget_keep(all.skip(i + 1), budget as nat, (used + cost) as nat)
                =~= prev + (seq![all[i as int]] + budget_keep(all.skip(i + 1), budget as nat, (used + cost) as nat)));
            used = used + cost;
        }
        i = i + 1;
    }
    assert(all.skip(items@.len() as int) =~= Seq::<ItemView>::empty());
    assert(item_views(kept@) + Seq::<ItemView>::empty() =~= item_views(kept@));
    kept
}

/// A chapter with some text or summary.
pub open spec fn has_text(c: Chapter) -> bool {
    !is_blank(c.content@) || !is_blank(c.summary@)
}

/// The chapters with text, other than `current`, in their given order.
pub open spec fn written_chapters(s: Seq<Chapter>, current: Option<Chapter>) -> Seq<Chapter>
    decreases s.len(),
{
    if s.len() == 0 {
        s
    } else {
        let rest = written_chapters(s.drop_last(), current);
        let c = s.last();
        if has_text(c) && match current {
            Some(cur) => c.id@ != cur.id@,
            None => true,
        } {
            rest.push(c)
        } else {
            rest
        }
    }
}

/// Book order: by position, then by creation time.
pub open spec fn by_position() -> spec_fn(Chapter, Chapter) -> bool {
    |a: Chapter, b: Chapter|
        a.order_index < b.order_index || (a.order_index == b.order_index && text_lt(
            a.created_at@,
            b.created_at@,
        ))
}

/// The chapters with text other than `current`, in book order (none when
/// no chapter has been written yet).
pub open spec fn historical_spec(s: Seq<Chapter>, current: Option<Chapter>) -> Seq<Chapter> {
    sort_by(written_chapters(s, current), by_position())
}

fn goes_before(a: &Chapter, b: &Chapter) -> (r: bool)
    ensures
        r == (by_position())(*a, *b),
{
    a.order_index < b.order_index || (a.order_index == b.order_index && text_less(
        a.created_at.as_str(),
        b.created_at.as_str(),
    ))
}

fn sort_chapters(s: &Vec<Chapter>) -> (r: Vec<Chapter>)
    ensures
        r@ == sort_by(s@, by_position()),
{
    let mut r: Vec<Chapter> = Vec::new();
    let mut i: usize = 0;
    assert(s@.take(0) =~= Seq::<Chapter>::empty());
    while i < s.len()
        invariant
            i <= s@.len(),
            r@ == sort_by(s@.take(i as int), by_position()),
        decreases s@.len() - i,
    {
        let x = s[i].clone();
        let mut p: usize = 0;
        while p < r.len() && !goes_before(&x, &r[p])
            invariant
                p <= r@.len(),
                forall|q: int| 0 <= q < p ==> !(by_position())(x, #[trigger] r@[q]),
            decreases r@.len() - p,
        {
            p = p + 1;
        }
        proof {
            lemma_insert_at(x, r@, by_position(), p as int);
            assert(s@.take(i + 1).drop_last() =~= s@.take(i as int));
        }
        let ghost rv = r@;
        r.insert(p, x);
        assert(r@ =~= rv.take(p as int).push(x) + rv.skip(p as int));
        i = i + 1;
    }
    assert(s@.take(s@.len() as int) =~= s@);
    r
}

fn chapter_has_text(c: &Chapter) -> (r: bool)
    ensures
        r == has_text(*c),
{
    !blank(c.content.as_str()) || !blank(c.summary.as_str())
}

/// The chapters that came before: those with text other than `current`,
/// in book order.
pub fn historical_chapters(bundle: &ProjectBundle, current: Option<&Chapter>) -> (r: Vec<Chapter>)
    ensures
        r@ == historical_spec(bundle.chapters@, deref_opt(current)),
{
    let mut list: Vec<Chapter> = Vec::new();
    let mut i: usize = 0;
    assert(bundle.chapters@.take(0) =~= Seq::<Chapter>::empty());
    while i < bundle.chapters.len()
        invariant
            i <= bundle.chapters@.len(),
            list@ == written_chapters(bundle.chapters@.take(i as int), deref_opt(current)),
        decreases bundle.chapters@.len() - i,
    {
        let c = &bundle.chapters[i];
        assert(bundle.chapters@.take(i + 1).drop_last() =~= bundle.chapters@.take(i as int));
        let keep = chapter_has_text(c) && match current {
            Some(cur) => !(c.id == cur.id),
            None => true,
        };
        if keep {
            list.push(c.clone());
        }
        i = i + 1;
    }
    assert(bundle.chapters@.take(bundle.chapters@.len() as int) =~= bundle.chapters@);
    sort_chapters(&list)
}

/// `a - b`, or zero when `b` is larger.
pub open spec fn sat_sub(a: nat, b: nat) -> nat {
    if a >= b {
        (a - b) as nat
    } else {
        0
    }
}

/// A chapter for the prompt: its summary and as much of its text as fits
/// in `max` characters besides, or its text alone when it has no summary.
pub open spec fn chapter_extract_spec(c: Chapter, max: nat) -> Seq<char> {
    if !is_blank(c.summary@) {
        c.summary@ + nl() + clip_text(c.content@, sat_sub(max, c.summary@.len()))
    } else {
        clip_text(c.content@, max)
    }
}

/// A chapter for the prompt, in at most about `max_chars` characters.
pub fn chapter_extract(ch: &Chapter, max_chars: usize) -> (r: String)
    ensures
        r@ == chapter_extract_spec(*ch, max_chars as nat),
{
    if !blank(ch.summary.as_str()) {
        let n = char_count(ch.summary.as_str());
        let room = if max_chars >= n {
            max_chars - n
        } else {
            0
        };
        let mut r = ch.summary.clone();
        push_char(&mut r, '\n');
        let clipped = clip_str(ch.content.as_str(), room);
        push_text(&mut r, clipped.as_str());
        assert(r@ =~= ch.summary@ + nl() + clip_text(ch.content@, sat_sub(max_chars as nat, ch.summary@.len())));
        r
    } else {
        clip_str(ch.content.as_str(), max_chars)
    }
}

/// The chapters of `s` that come before `cur` in book order.
pub open spec fn earlier(s: Seq<Chapter>, cur: Chapter) -> Seq<Chapter>
    decreases s.len(),
{
    if s.len() == 0 {
        s
    } else if (by_position())(s.last(), cur) {
        earlier(s.drop_last(), cur).push(s.last())
    } else {
        earlier(s.drop_last(), cur)
    }
}

/// The last `n` elements of `s` (all of them if there are fewer).
pub open spec fn last_n<A>(s: Seq<A>, n: nat) -> Seq<A> {
    if s.len() <= n {
        s
    } else {
        s.skip(s.len() - n)
    }
}

/// One line of the earlier-chapters block.
pub open spec fn summary_line(c: Chapter) -> Seq<char> {
    "《"@ + c.title@ + "》："@ + chapter_extract_spec(c, 180)
}

/// The chapters the summary of what came before `cur` is drawn from: the
/// written chapters other than `cur`, in book order; while none has been
/// written, all chapters as given.
pub open spec fn summary_source(s: Seq<Chapter>, cur: Chapter) -> Seq<Chapter> {
    let h = historical_spec(s, Some(cur));
    if h.len() == 0 {
        s
    } else {
        h
    }
}

/// What came before `cur`: the last four earlier chapters in book order,
/// one line each.
pub open spec fn previous_summaries_spec(s: Seq<Chapter>, cur: Chapter) -> Seq<char> {
    join_with(
        last_n(earlier(summary_source(s, cur), cur), 4).map_values(|c: Chapter| summary_line(c)),
        nl(),
    )
}

/// The earlier-chapters block of the chapter `current`.
pub fn previous_summaries(bundle: &ProjectBundle, current: &Chapter) -> (r: String)
    ensures
        r@ == previous_summaries_spec(bundle.chapters@, *current),
{
    let written = historical_chapters(bundle, Some(current));
    let hist = if written.len() == 0 {
        let mut all: Vec<Chapter> = Vec::new();
        let mut j: usize = 0;
        while j < bundle.chapters.len()
            invariant
                j <= bundle.chapters@.len(),
                all@ == bundle.chapters@.take(j as int),
            decreases bundle.chapters@.len() - j,
        {
            all.push(bundle.chapters[j].clone());
            j = j + 1;
            assert(all@ =~= bundle.chapters@.take(j as int));
        }
        assert(bundle.chapters@.take(bundle.chapters@.len() as int) =~= bundle.chapters@);
        all
    } else {
        written
    };
    let mut prev: Vec<Chapter> = Vec::new();
    let mut i: usize = 0;
    assert(hist@.take(0) =~= Seq::<Chapter>::empty());
    while i < hist.len()
        invariant
            i <= hist@.len(),
            hist@ == summary_source(bundle.chapters@, *current),
            prev@ == earlier(hist@.take(i as int), *current),
        decreases hist@.len() - i,
    {
        assert(hist@.take(i + 1).drop_last() =~= hist@.take(i as int));
        if goes_before(&hist[i], current) {
            prev.push(hist[i].clone());
        }
        i = i + 1;
    }
    assert(hist@.take(hist@.len() as int) =~= hist@);
    let start: usize = if prev.len() > 4 {
        prev.len() - 4
    } else {
        0
    };
    let ghost tail4 = last_n(prev@, 4);
    assert(tail4 =~= prev@.skip(start as int));
    let ghost lines = tail4.map_values(|c: Chapter| summary_line(c));
    let mut parts: Vec<String> = Vec::new();
    let mut j = start;
    while j < prev.len()
        invariant
            start <= j <= prev@.len(),
            tail4 == prev@.skip(start as int),
            lines == tail4.map_values(|c: Chapter| summary_line(c)),
            parts.deep_view() == lines.take(j - start),
        decreases prev@.len() - j,
    {
        let c = &prev[j];
        let mut line = String::from_str("《");
        push_text(&mut line, c.title.as_str());
        push_text(&mut line, "》：");
        let ex = chapter_extract(c, 180);
        push_text(&mut line, ex.as_str());
        assert(line@ =~= summary_line(*c));
        assert(lines[j - start] == summary_line(tail4[j - start]));
        assert(tail4[j - start] == prev@[j as int]);
        let ghost before = parts.deep_view();
        parts.push(line);
        assert(parts.deep_view() =~= before.push(line@));
        j = j + 1;
        assert(parts.deep_view() =~= lines.take(j - start));
    }
    assert(lines.take(prev@.len() - start) =~= lines);
    join(&parts, crate::prompt::newline())
}

/// The style line: the global writing style (trimmed) over the book's
/// style prompt, trimmed, or a fallback when both are blank.
pub open spec fn style_spec(settings: AppSettings, project: Project) -> Seq<char> {
    let s = if is_blank(settings.writing_style@) {
        project.style_prompt@
    } else {
        trim(settings.writing_style@) + nl() + project.style_prompt@
    };
    if is_blank(s) {
        STYLE_FALLBACK@
    } else {
        trim(s)
    }
}

/// The hard rules for the object being generated.
pub open spec fn rules_spec(target: Seq<char>, mode: Seq<char>) -> Seq<char> {
    if target == "memories"@ || mode == "memory"@ {
        RULES_MEMORY@
    } else if target == "characters"@ {
        RULES_CHARACTER@
    } else if target == "entries"@ {
        RULES_ENTRY@
    } else if target == "outlines"@ {
        RULES_OUTLINE@
    } else if mode == "summarize"@ {
        RULES_SUMMARY@
    } else {
        RULES_CHAPTER@
    }
}

/// The system prompt: the book, its style, and the rules for the target.
pub open spec fn system_spec(
    project: Project,
    settings: AppSettings,
    mode: Seq<char>,
    target: Seq<char>,
) -> Seq<char> {
    SYSTEM_HEAD@ + project.title@ + SYSTEM_GENRE@ + project.genre@ + SYSTEM_DESCRIPTION@
        + project.description@ + SYSTEM_STYLE@ + style_spec(settings, project) + PARAGRAPH@
        + rules_spec(target, mode)
}

fn style_line(settings: &AppSettings, project: &Project) -> (r: String)
    ensures
        r@ == style_spec(*settings, *project),
{
    let s = if blank(settings.writing_style.as_str()) {
        project.style_prompt.clone()
    } else {
        let mut t = trim_text(settings.writing_style.as_str());
        push_text(&mut t, newline());
        push_text(&mut t, project.style_prompt.as_str());
        t
    };
    if blank(s.as_str()) {
        String::from_str(STYLE_FALLBACK)
    } else {
        trim_text(s.as_str())
    }
}

fn rules_text(target: &str, mode: &str) -> (r: &'static str)
    ensures
        r@ == rules_spec(target@, mode@),
{
    if text_eq(target, "memories") || text_eq(mode, "memory") {
        RULES_MEMORY
    } else if text_eq(target, "characters") {
        RULES_CHARACTER
    } else if text_eq(target, "entries") {
        RULES_ENTRY
    } else if text_eq(target, "outlines") {
        RULES_OUTLINE
    } else if text_eq(mode, "summarize") {
        RULES_SUMMARY
    } else {
        RULES_CHAPTER
    }
}

/// Builds the system prompt.
pub fn build_system(project: &Project, settings: &AppSettings, mode: &str, target: &str) -> (r: String)
    ensures
        r@ == system_spec(*project, *settings, mode@, target@),
{
    let mut s = String::from_str(SYSTEM_HEAD);
    push_text(&mut s, project.title.as_str());
    push_text(&mut s, SYSTEM_GENRE);
    push_text(&mut s, project.genre.as_str());
    push_text(&mut s, SYSTEM_DESCRIPTION);
    push_text(&mut s, project.description.as_str());
    push_text(&mut s, SYSTEM_STYLE);
    let style = style_line(settings, project);
    push_text(&mut s, style.as_str());
    push_text(&mut s, PARAGRAPH);
    push_text(&mut s, rules_text(target, mode));
    s
}

/// The label of a target.
pub open spec fn target_label_spec(target: Seq<char>) -> Seq<char> {
    if target == "characters"@ {
        "角色"@
    } else if target == "entries"@ {
        "条目"@
    } else if target == "outlines"@ {
        "大纲"@
    } else if target == "memories"@ {
        "记忆"@
    } else {
        "章节"@
    }
}

/// The label of a generation mode.
pub open spec fn mode_label_spec(mode: Seq<char>) -> Seq<char> {
    if mode == "draft"@ {
        "起草"@
    } else if mode == "rewrite"@ {
        "改写"@
    } else if mode == "expand"@ {
        "扩写"@
    } else if mode == "summarize"@ {
        "提炼摘要"@
    } else if mode == "memory"@ {
        "从历史章节提炼记忆"@
    } else {
        "续写"@
    }
}

/// The label of a target.
pub fn target_label(target: &str) -> (r: &'static str)
    ensures
        r@ == target_label_spec(target@),
{
    if text_eq(target, "characters") {
        "角色"
    } else if text_eq(target, "entries") {
        "条目"
    } else if text_eq(target, "outlines") {
        "大纲"
    } else if text_eq(target, "memories") {
        "记忆"
    } else {
        "章节"
    }
}

/// The label of a generation mode.
pub fn mode_label(mode: &str) -> (r: &'static str)
    ensures
        r@ == mode_label_spec(mode@),
{
    if text_eq(mode, "draft") {
        "起草"
    } else if text_eq(mode, "rewrite") {
        "改写"
    } else if text_eq(mode, "expand") {
        "扩写"
    } else if text_eq(mode, "summarize") {
        "提炼摘要"
    } else if text_eq(mode, "memory") {
        "从历史章节提炼记忆"
    } else {
        "续写"
    }
}

/// What the model is asked to do, by target and mode.
pub open spec fn task_spec(target: Seq<char>, mode: Seq<char>) -> Seq<char> {
    if mode == "memory"@ || target == "memories"@ {
        TASK_MEMORY@
    } else if target == "characters"@ {
        if mode == "expand"@ {
            TASK_CHARACTER_EXPAND@
        } else if mode == "rewrite"@ {
            TASK_CHARACTER_REWRITE@
        } else {
            TASK_CHARACTER_DRAFT@
        }
    } else if target == "entries"@ {
        if mode == "expand"@ {
            TASK_ENTRY_EXPAND@
        } else if mode == "rewrite"@ {
            TASK_ENTRY_REWRITE@
        } else {
            TASK_ENTRY_DRAFT@
        }
    } else if target == "outlines"@ {
        if mode == "expand"@ {
            TASK_OUTLINE_EXPAND@
        } else if mode == "rewrite"@ {
            TASK_OUTLINE_REWRITE@
        } else {
            TASK_OUTLINE_DRAFT@
        }
    } else if mode == "expand"@ {
        TASK_EXPAND@
    } else if mode == "rewrite"@ {
        TASK_REWRITE@
    } else if mode == "summarize"@ {
        TASK_SUMMARIZE@
    } else if mode == "draft"@ {
        TASK_DRAFT@
    } else {
        TASK_CONTINUE@
    }
}

fn task_text(target: &str, mode: &str) -> (r: &'static str)
    ensures
        r@ == task_spec(target@, mode@),
{
    let expand = text_eq(mode, "expand");
    let rewrite = text_eq(mode, "rewrite");
    if text_eq(mode, "memory") || text_eq(target, "memories") {
        TASK_MEMORY
    } else if text_eq(target, "characters") {
        if expand {
            TASK_CHARACTER_EXPAND
        } else if rewrite {
            TASK_CHARACTER_REWRITE
        } else {
            TASK_CHARACTER_DRAFT
        }
    } else if text_eq(target, "entries") {
        if expand {
            TASK_ENTRY_EXPAND
        } else if rewrite {
            TASK_ENTRY_REWRITE
        } else {
            TASK_ENTRY_DRAFT
        }
    } else if text_eq(target, "outlines") {
        if expand {
            TASK_OUTLINE_EXPAND
        } else if rewrite {
            TASK_OUTLINE_REWRITE
        } else {
            TASK_OUTLINE_DRAFT
        }
    } else if expand {
        TASK_EXPAND
    } else if rewrite {
        TASK_REWRITE
    } else if text_eq(mode, "summarize") {
        TASK_SUMMARIZE
    } else if text_eq(mode, "draft") {
        TASK_DRAFT
    } else {
        TASK_CONTINUE
    }
}

/// The user's instruction, trimmed, or a default one by target and mode
/// when it is blank.
pub open spec fn instruction_spec(target: Seq<char>, mode: Seq<char>, instruction: Seq<char>) -> Seq<
    char,
> {
    if !is_blank(instruction) {
        trim(instruction)
    } else if mode == "memory"@ {
        HINT_MEMORY@
    } else if target == "chapters"@ && mode == "continue"@ {
        HINT_CONTINUE@
    } else if target == "chapters"@ && mode == "draft"@ {
        HINT_CHAPTER_DRAFT@
    } else if mode == "expand"@ {
        HINT_EXPAND@
    } else if mode == "draft"@ {
        HINT_DRAFT@
    } else {
        HINT_DEFAULT@
    }
}

fn instruction_text(target: &str, mode: &str, instruction: &str) -> (r: String)
    ensures
        r@ == instruction_spec(target@, mode@, instruction@),
{
    if !blank(instruction) {
        return trim_text(instruction);
    }
    let chapters = text_eq(target, "chapters");
    let t = if text_eq(mode, "memory") {
        HINT_MEMORY
    } else if chapters && text_eq(mode, "continue") {
        HINT_CONTINUE
    } else if chapters && text_eq(mode, "draft") {
        HINT_CHAPTER_DRAFT
    } else if text_eq(mode, "expand") {
        HINT_EXPAND
    } else if text_eq(mode, "draft") {
        HINT_DRAFT
    } else {
        HINT_DEFAULT
    };
    String::from_str(t)
}

/// The context blocks: each item as a heading with its title, then its
/// snippet.
pub open spec fn blocks_spec(items: Seq<ItemView>) -> Seq<char>
    decreases items.len(),
{
    if items.len() == 0 {
        seq![]
    } else {
        blocks_spec(items.drop_last()) + "## "@ + items.last().2 + nl() + items.last().3 + PARAGRAPH@
    }
}

fn blocks_text(items: &Vec<ContextItem>) -> (r: String)
    ensures
        r@ == blocks_spec(item_views(items@)),
{
    let ghost all = item_views(items@);
    let mut s = String::new();
    let mut i: usize = 0;
    assert(all.take(0) =~= Seq::<ItemView>::empty());
    while i < items.len()
        invariant
            i <= items@.len(),
            all == item_views(items@),
            s@ == blocks_spec(all.take(i as int)),
        decreases items@.len() - i,
    {
        assert(all.take(i + 1).drop_last() =~= all.take(i as int));
        push_text(&mut s, "## ");
        push_text(&mut s, items[i].title.as_str());
        push_text(&mut s, newline());
        push_text(&mut s, items[i].snippet.as_str());
        push_text(&mut s, PARAGRAPH);
        i = i + 1;
    }
    assert(all.take(items@.len() as int) =~= all);
    s
}

/// The author's snapshot of the object, trimmed, unless it is blank, `{}`
/// or `null`.
pub open spec fn snapshot_spec(snapshot: Option<String>) -> Option<Seq<char>> {
    match snapshot {
        Some(s) => {
            let t = trim(s@);
            if t.len() == 0 || t == "{}"@ || t == "null"@ {
                None
            } else {
                Some(t)
            }
        },
        None => None,
    }
}

fn snapshot_text(snapshot: &Option<String>) -> (r: Option<String>)
    ensures
        match r {
            Some(s) => snapshot_spec(*snapshot) == Some(s@),
            None => snapshot_spec(*snapshot) is None,
        },
{
    match snapshot {
        Some(s) => {
            let t = trim_text(s.as_str());
            if char_count(t.as_str()) == 0 || text_eq(t.as_str(), "{}") || text_eq(t.as_str(), "null") {
                None
            } else {
                Some(t)
            }
        },
        None => None,
    }
}

/// The current object as the author has it: the snapshot when there is
/// one, else the stored object, else a placeholder asking for a draft.
pub open spec fn revision_spec(
    target: Seq<char>,
    snapshot: Option<Seq<char>>,
    chapter: Option<Chapter>,
    outline: Option<Outline>,
    character: Option<Character>,
    entry: Option<Entry>,
) -> Seq<char> {
    match snapshot {
        Some(s) => s,
        None => if target == "characters"@ {
            match character {
                Some(c) => format_character_spec(c),
                None => EMPTY_CHARACTER@,
            }
        } else if target == "entries"@ {
            match entry {
                Some(e) => "标题："@ + e.title@ + "\n类别："@ + e.category@ + "\n标签："@ + e.tags@
                    + "\n正文："@ + e.content@,
                None => EMPTY_ENTRY@,
            }
        } else if target == "outlines"@ {
            match outline {
                Some(o) => "标题："@ + o.title@ + "\n正文："@ + o.content@,
                None => EMPTY_OUTLINE@,
            }
        } else if target == "chapters"@ {
            match chapter {
                Some(c) => "章名："@ + c.title@ + "\n摘要："@ + (if c.summary@.len() == 0 {
                    "（无）"@
                } else {
                    c.summary@
                }) + "\n正文：\n"@ + tail_text(c.content@, 2200),
                None => EMPTY_CHAPTER@,
            }
        } else {
            seq![]
        },
    }
}

fn stored_revision(
    target: &str,
    chapter: Option<&Chapter>,
    outline: Option<&Outline>,
    character: Option<&Character>,
    entry: Option<&Entry>,
) -> (r: String)
    ensures
        r@ == revision_spec(
            target@,
            None,
            deref_opt(chapter),
            deref_opt(outline),
            deref_opt(character),
            deref_opt(entry),
        ),
{
    if text_eq(target, "characters") {
        match character {
            Some(c) => format_character(c),
            None => String::from_str(EMPTY_CHARACTER),
        }
    } else if text_eq(target, "entries") {
        match entry {
            Some(e) => {
                let mut s = labelled("标题：", &e.title);
                push_text(&mut s, "\n类别：");
                push_text(&mut s, e.category.as_str());
                push_text(&mut s, "\n标签：");
                push_text(&mut s, e.tags.as_str());
                push_text(&mut s, "\n正文：");
                push_text(&mut s, e.content.as_str());
                s
            },
            None => String::from_str(EMPTY_ENTRY),
        }
    } else if text_eq(target, "outlines") {
        match outline {
            Some(o) => {
                let mut s = labelled("标题：", &o.title);
                push_text(&mut s, "\n正文：");
                push_text(&mut s, o.content.as_str());
                s
            },
            None => String::from_str(EMPTY_OUTLINE),
        }
    } else if text_eq(target, "chapters") {
        match chapter {
            Some(c) => {
                let mut s = labelled("章名：", &c.title);
                push_text(&mut s, "\n摘要：");
                if char_count(c.summary.as_str()) == 0 {
                    push_text(&mut s, "（无）");
                } else {
                    push_text(&mut s, c.summary.as_str());
                }
                push_text(&mut s, "\n正文：\n");
                let t = tail(c.content.as_str(), 2200);
                push_text(&mut s, t.as_str());
                s
            },
            None => String::from_str(EMPTY_CHAPTER),
        }
    } else {
        String::new()
    }
}

/// The selected text block, when the selection is not blank.
pub open spec fn selected_spec(selected: Option<String>) -> Seq<char> {
    match selected {
        Some(s) => if !is_blank(s@) {
            SELECTED_HEAD@ + s@
        } else {
            seq![]
        },
        None => seq![],
    }
}

fn selected_block(selected: &Option<String>) -> (r: String)
    ensures
        r@ == selected_spec(*selected),
{
    match selected {
        Some(s) => if !blank(s.as_str()) {
            let mut t = String::from_str(SELECTED_HEAD);
            push_text(&mut t, s.as_str());
            t
        } else {
            String::new()
        },
        None => String::new(),
    }
}

/// The names of a book's characters, in order.
pub open spec fn cast_names(cs: Seq<Character>) -> Seq<Seq<char>> {
    cs.map_values(|c: Character| c.name@)
}

/// The user prompt: the context blocks, the object as the author has it,
/// the selection, and what is to be done.
pub open spec fn user_spec(
    bundle: ProjectBundle,
    req: GenerateRequest,
    target: Seq<char>,
    chapter: Option<Chapter>,
    outline: Option<Outline>,
    character: Option<Character>,
    entry: Option<Entry>,
    items: Seq<ItemView>,
) -> Seq<char> {
    USER_HEAD@ + blocks_spec(items) + USER_REVISION@ + revision_spec(
        target,
        snapshot_spec(req.object_snapshot),
        chapter,
        outline,
        character,
        entry,
    ) + PARAGRAPH@ + selected_spec(req.selected_text) + USER_OBJECT@ + target_label_spec(target)
        + USER_TASK@ + mode_label_spec(req.mode@) + USER_TASK_NOTE@ + task_spec(target, req.mode@)
        + USER_INSTRUCTION@ + instruction_spec(target, req.mode@, req.instruction@) + USER_CAST@
        + join_with(cast_names(bundle.characters@), "、"@)
}

fn cast_line(cs: &Vec<Character>) -> (r: String)
    ensures
        r@ == join_with(cast_names(cs@), "、"@),
{
    let mut names: Vec<String> = Vec::new();
    let mut i: usize = 0;
    while i < cs.len()
        invariant
            i <= cs@.len(),
            names.deep_view() == cast_names(cs@.take(i as int)),
        decreases cs@.len() - i,
    {
        let ghost prev = names.deep_view();
        names.push(cs[i].name.clone());
        assert(names.deep_view() =~= prev.push(cs@[i as int].name@));
        i = i + 1;
        assert(cast_names(cs@.take(i as int)) =~= prev.push(cs@[i - 1].name@));
    }
    assert(cs@.take(cs@.len() as int) =~= cs@);
    join(&names, "、")
}

/// Builds the user prompt.
pub fn build_user(
    bundle: &ProjectBundle,
    req: &GenerateRequest,
    target: &str,
    chapter: Option<&Chapter>,
    outline: Option<&Outline>,
    character: Option<&Character>,
    entry: Option<&Entry>,
    items: &Vec<ContextItem>,
) -> (r: String)
    ensures
        r@ == user_spec(
            *bundle,
            *req,
            target@,
            deref_opt(chapter),
            deref_opt(outline),
            deref_opt(character),
            deref_opt(entry),
            item_views(items@),
        ),
{
    let mut s = String::from_str(USER_HEAD);
    let blocks = blocks_text(items);
    push_text(&mut s, blocks.as_str());
    push_text(&mut s, USER_REVISION);
    let revision = match snapshot_text(&req.object_snapshot) {
        Some(t) => t,
        None => stored_revision(target, chapter, outline, character, entry),
    };
    push_text(&mut s, revision.as_str());
    push_text(&mut s, PARAGRAPH);
    let selected = selected_block(&req.selected_text);
    push_text(&mut s, selected.as_str());
    push_text(&mut s, USER_OBJECT);
    push_text(&mut s, target_label(target));
    push_text(&mut s, USER_TASK);
    push_text(&mut s, mode_label(req.mode.as_str()));
    push_text(&mut s, USER_TASK_NOTE);
    push_text(&mut s, task_text(target, req.mode.as_str()));
    push_text(&mut s, USER_INSTRUCTION);
    let instruction = instruction_text(target, req.mode.as_str(), req.instruction.as_str());
    push_text(&mut s, instruction.as_str());
    push_text(&mut s, USER_CAST);
    let cast = cast_line(&bundle.characters);
    push_text(&mut s, cast.as_str());
    s
}

proof fn lemma_insert_len<A>(x: A, s: Seq<A>, before: spec_fn(A, A) -> bool)
    ensures
        insert_by(x, s, before).len() == s.len() + 1,
    decreases s.len(),
{
    if s.len() > 0 && !before(x, s[0]) {
        lemma_insert_len(x, s.drop_first(), before);
    }
}

/// A stable sort keeps the length.
pub proof fn lemma_sort_len<A>(s: Seq<A>, before: spec_fn(A, A) -> bool)
    ensures
        sort_by(s, before).len() == s.len(),
    decreases s.len(),
{
    if s.len() > 0 {
        lemma_sort_len(s.drop_last(), before);
        lemma_insert_len(s.last(), sort_by(s.drop_last(), before), before);
    }
}

proof fn lemma_written_len(s: Seq<Chapter>, current: Option<Chapter>)
    ensures
        written_chapters(s, current).len() <= s.len(),
    decreases s.len(),
{
    if s.len() > 0 {
        lemma_written_len(s.drop_last(), current);
    }
}

/// There are never more earlier chapters than chapters.
pub proof fn lemma_historical_len(s: Seq<Chapter>, current: Option<Chapter>)
    ensures
        historical_spec(s, current).len() <= s.len(),
{
    lemma_written_len(s, current);
    lemma_sort_len(written_chapters(s, current), by_position());
}

proof fn lemma_push_one(d: Seq<ItemView>, a: Seq<ItemView>, x: ItemView)
    ensures
        push_all(d, a.push(x)) == push_unique_spec(push_all(d, a), x),
{
    assert(a.push(x).drop_last() =~= a);
}

/// The chapter the request is about.
pub open spec fn chapter_of(b: ProjectBundle, req: GenerateRequest) -> Option<Chapter> {
    select(b.chapters@, req.chapter_id)
}

/// The outline the request is about: the one it names, else the one its
/// chapter belongs to.
pub open spec fn outline_of(b: ProjectBundle, req: GenerateRequest) -> Option<Outline> {
    match select(b.outlines@, req.outline_id) {
        Some(o) => Some(o),
        None => match chapter_of(b, req) {
            Some(c) => select(b.outlines@, c.outline_id),
            None => None,
        },
    }
}

/// The character the request is about.
pub open spec fn character_of(b: ProjectBundle, req: GenerateRequest) -> Option<Character> {
    select(b.characters@, req.character_id)
}

/// The entry the request is about.
pub open spec fn entry_of(b: ProjectBundle, req: GenerateRequest) -> Option<Entry> {
    select(b.entries@, req.entry_id)
}

/// The retrieval query of a request.
pub open spec fn query_of(b: ProjectBundle, req: GenerateRequest) -> Seq<char> {
    query_spec(req, chapter_of(b, req), outline_of(b, req), character_of(b, req), entry_of(b, req))
}

/// The context item of the current outline.
pub open spec fn outline_item_spec(o: Outline) -> ItemView {
    ("outline"@, o.id@, "当前大纲 · "@ + o.title@, clip_text(o.content@, 500), int_key(99))
}

/// The context item of a memory.
pub open spec fn memory_item_spec(m: Memory) -> ItemView {
    ("memory"@, m.id@, "记忆 · "@ + m.title@, clip_text(m.content@, 260), int_key(80))
}

/// The cards of the picked characters, in the order picked, at score 98.
pub open spec fn picked_characters(ids: Seq<String>, cs: Seq<Character>) -> Seq<ItemView>
    decreases ids.len(),
{
    if ids.len() == 0 {
        seq![]
    } else {
        picked_characters(ids.drop_last(), cs) + match find_by_id(cs, ids.last()@) {
            Some(c) => seq![character_item_spec(c, int_key(98))],
            None => seq![],
        }
    }
}

/// The picked entries, in the order picked, at score 97.
pub open spec fn picked_entries(ids: Seq<String>, es: Seq<Entry>) -> Seq<ItemView>
    decreases ids.len(),
{
    if ids.len() == 0 {
        seq![]
    } else {
        picked_entries(ids.drop_last(), es) + match find_by_id(es, ids.last()@) {
            Some(e) => seq![entry_item_spec(e, int_key(97))],
            None => seq![],
        }
    }
}

/// The cards of the characters the query names, at score 90.
pub open spec fn mentioned_items(cs: Seq<Character>, query: Seq<char>) -> Seq<ItemView>
    decreases cs.len(),
{
    if cs.len() == 0 {
        seq![]
    } else if names_character(cs.last(), query) {
        mentioned_items(cs.drop_last(), query).push(character_item_spec(cs.last(), int_key(90)))
    } else {
        mentioned_items(cs.drop_last(), query)
    }
}

/// The first sixteen memories, at score 80.
pub open spec fn memory_items(ms: Seq<Memory>) -> Seq<ItemView> {
    (if ms.len() <= 16 {
        ms
    } else {
        ms.take(16)
    }).map_values(|m: Memory| memory_item_spec(m))
}

/// The item of the `i`-th earlier chapter when memories are extracted:
/// the first four at length 900, later ones at 280, scored 96 minus `i`.
pub open spec fn history_item_spec(c: Chapter, i: int) -> ItemView {
    (
        "chapter"@,
        c.id@,
        "历史章节 · "@ + c.title@,
        chapter_extract_spec(c, if i < 4 { 900 } else { 280 }),
        int_key(96 - i),
    )
}

/// The items of the earlier chapters, in order.
pub open spec fn history_items(hist: Seq<Chapter>) -> Seq<ItemView> {
    Seq::new(hist.len(), |i: int| history_item_spec(hist[i], i))
}

/// The item holding what came before the current chapter.
pub open spec fn summary_item_spec(ch: Chapter, prev: Seq<char>) -> ItemView {
    ("summary"@, "prev-"@ + ch.id@, "前文摘要"@, prev, int_key(95))
}

/// The retrieved items, without the current chapter itself.
pub open spec fn retrieved_kept(
    retrieved: Seq<ItemView>,
    chapter: Option<Chapter>,
    chapter_id: Option<String>,
) -> Seq<ItemView>
    decreases retrieved.len(),
{
    if retrieved.len() == 0 {
        seq![]
    } else {
        let x = retrieved.last();
        let rest = retrieved_kept(retrieved.drop_last(), chapter, chapter_id);
        let own = chapter is Some && x.0 == "chapter"@ && match chapter_id {
            Some(id) => x.1 == id@,
            None => false,
        };
        if own {
            rest
        } else {
            rest.push(x)
        }
    }
}

/// The earlier-chapter items: every written chapter when extracting
/// memories, else the summary of what came before the current chapter
/// when there is any.
pub open spec fn history_part(b: ProjectBundle, req: GenerateRequest) -> Seq<ItemView> {
    if req.mode@ == "memory"@ {
        history_items(historical_spec(b.chapters@, None))
    } else {
        match chapter_of(b, req) {
            Some(ch) => {
                let prev = previous_summaries_spec(b.chapters@, ch);
                if prev.len() > 0 {
                    seq![summary_item_spec(ch, prev)]
                } else {
                    seq![]
                }
            },
            None => seq![],
        }
    }
}

/// The character items, when characters are included.
pub open spec fn character_part(b: ProjectBundle, s: AppSettings, req: GenerateRequest) -> Seq<ItemView> {
    if s.include_characters {
        picked_characters(req.character_ids@, b.characters@) + match character_of(b, req) {
            Some(c) => seq![character_item_spec(c, int_key(99))],
            None => seq![],
        } + mentioned_items(b.characters@, query_of(b, req))
    } else {
        seq![]
    }
}

/// The entry items, when entries are included.
pub open spec fn entry_part(b: ProjectBundle, s: AppSettings, req: GenerateRequest) -> Seq<ItemView> {
    if s.include_entries {
        picked_entries(req.entry_ids@, b.entries@) + match entry_of(b, req) {
            Some(e) => seq![entry_item_spec(e, int_key(99))],
            None => seq![],
        }
    } else {
        seq![]
    }
}

/// Every context candidate in the order it is offered; the first of each
/// kind and id counts.
pub open spec fn candidates_spec(
    b: ProjectBundle,
    s: AppSettings,
    req: GenerateRequest,
    retrieved: Seq<ItemView>,
) -> Seq<ItemView> {
    (if s.include_outline && outline_of(b, req) is Some {
        seq![outline_item_spec(outline_of(b, req).unwrap())]
    } else {
        seq![]
    }) + character_part(b, s, req) + entry_part(b, s, req) + (if s.include_memories {
        memory_items(b.memories@)
    } else {
        seq![]
    }) + history_part(b, req) + retrieved_part(b, s, req, retrieved)
}

/// The retrieval results that are offered: none unless the request
/// retrieves, and never the chapter being written.
pub open spec fn retrieved_part(
    b: ProjectBundle,
    s: AppSettings,
    req: GenerateRequest,
    retrieved: Seq<ItemView>,
) -> Seq<ItemView> {
    if retrieves(s, req) {
        retrieved_kept(retrieved, chapter_of(b, req), req.chapter_id)
    } else {
        seq![]
    }
}

/// The context budget in characters: the setting, at least 1200.
pub open spec fn budget_of(s: AppSettings) -> nat {
    if s.context_budget >= 1200 {
        s.context_budget as nat
    } else {
        1200
    }
}

/// The context items: the candidates without repeated kind and id, ranked
/// by score (ties in offered order), cut to the budget.
pub open spec fn context_items_spec(
    b: ProjectBundle,
    s: AppSettings,
    req: GenerateRequest,
    retrieved: Seq<ItemView>,
) -> Seq<ItemView> {
    budget_keep(
        sort_by(push_all(seq![], candidates_spec(b, s, req, retrieved)), by_score()),
        budget_of(s),
        0,
    )
}

fn add_picked_characters(items: &mut Vec<ContextItem>, ids: &Vec<String>, cs: &Vec<Character>)
    ensures
        item_views(final(items)@) == push_all(item_views(old(items)@), picked_characters(ids@, cs@)),
{
    let ghost start = item_views(items@);
    let key = int_score_key(98);
    let mut i: usize = 0;
    assert(ids@.take(0) =~= Seq::<String>::empty());
    assert(push_all(start, seq![]) == start);
    while i < ids.len()
        invariant
            i <= ids@.len(),
            key == int_key(98),
            item_views(items@) == push_all(start, picked_characters(ids@.take(i as int), cs@)),
        decreases ids@.len() - i,
    {
        let ghost before = picked_characters(ids@.take(i as int), cs@);
        assert(ids@.take(i + 1).drop_last() =~= ids@.take(i as int));
        match find_record(cs, &ids[i]) {
            Some(c) => {
                let item = character_item(c, key);
                proof {
                    lemma_push_one(start, before, item_view(item));
                    assert(before.push(item_view(item)) =~= before + seq![character_item_spec(*c, int_key(98))]);
                }
                push_unique(items, item);
            },
            None => {
                assert(before + seq![] =~= before);
            },
        }
        i = i + 1;
    }
    assert(ids@.take(ids@.len() as int) =~= ids@);
}

fn add_picked_entries(items: &mut Vec<ContextItem>, ids: &Vec<String>, es: &Vec<Entry>)
    ensures
        item_views(final(items)@) == push_all(item_views(old(items)@), picked_entries(ids@, es@)),
{
    let ghost start = item_views(items@);
    let key = int_score_key(97);
    let mut i: usize = 0;
    assert(ids@.take(0) =~= Seq::<String>::empty());
    assert(push_all(start, seq![]) == start);
    while i < ids.len()
        invariant
            i <= ids@.len(),
            key == int_key(97),
            item_views(items@) == push_all(start, picked_entries(ids@.take(i as int), es@)),
        decreases ids@.len() - i,
    {
        let ghost before = picked_entries(ids@.take(i as int), es@);
        assert(ids@.take(i + 1).drop_last() =~= ids@.take(i as int));
        match find_record(es, &ids[i]) {
            Some(e) => {
                let item = entry_item(e, key);
                proof {
                    lemma_push_one(start, before, item_view(item));
                    assert(before.push(item_view(item)) =~= before + seq![entry_item_spec(*e, int_key(97))]);
                }
                push_unique(items, item);
            },
            None => {
                assert(before + seq![] =~= before);
            },
        }
        i = i + 1;
    }
    assert(ids@.take(ids@.len() as int) =~= ids@);
}

fn add_mentioned(items: &mut Vec<ContextItem>, cs: &Vec<Character>, query: &str)
    ensures
        item_views(final(items)@) == push_all(item_views(old(items)@), mentioned_items(cs@, query@)),
{
    let ghost start = item_views(items@);
    let q = chars_of(query);
    let key = int_score_key(90);
    let mut i: usize = 0;
    assert(cs@.take(0) =~= Seq::<Character>::empty());
    assert(push_all(start, seq![]) == start);
    while i < cs.len()
        invariant
            i <= cs@.len(),
            key == int_key(90),
            q@ == query@,
            item_views(items@) == push_all(start, mentioned_items(cs@.take(i as int), query@)),
        decreases cs@.len() - i,
    {
        let ghost before = mentioned_items(cs@.take(i as int), query@);
        assert(cs@.take(i + 1).drop_last() =~= cs@.take(i as int));
        if names(&cs[i], q.as_slice()) {
            let item = character_item(&cs[i], key);
            proof {
                lemma_push_one(start, before, item_view(item));
            }
            push_unique(items, item);
        }
        i = i + 1;
    }
    assert(cs@.take(cs@.len() as int) =~= cs@);
}

fn add_one(items: &mut Vec<ContextItem>, item: ContextItem)
    ensures
        item_views(final(items)@) == push_all(item_views(old(items)@), seq![item_view(item)]),
{
    proof {
        lemma_push_one(item_views(items@), seq![], item_view(item));
        assert(Seq::<ItemView>::empty().push(item_view(item)) =~= seq![item_view(item)]);
    }
    push_unique(items, item);
}

fn memory_item(m: &Memory, key: u32) -> (r: ContextItem)
    requires
        key == int_key(80),
    ensures
        item_view(r) == memory_item_spec(*m),
{
    ContextItem {
        kind: String::from_str("memory"),
        id: m.id.clone(),
        title: labelled("记忆 · ", &m.title),
        snippet: clip_str(m.content.as_str(), 260),
        score: key,
    }
}

fn add_memories(items: &mut Vec<ContextItem>, ms: &Vec<Memory>)
    ensures
        item_views(final(items)@) == push_all(item_views(old(items)@), memory_items(ms@)),
{
    let ghost start = item_views(items@);
    let n: usize = if ms.len() <= 16 {
        ms.len()
    } else {
        16
    };
    let ghost firsts = if ms@.len() <= 16 {
        ms@
    } else {
        ms@.take(16)
    };
    assert(firsts =~= ms@.take(n as int));
    let key = int_score_key(80);
    let mut i: usize = 0;
    assert(firsts.take(0).map_values(|m: Memory| memory_item_spec(m)) =~= Seq::<ItemView>::empty());
    assert(push_all(start, seq![]) == start);
    while i < n
        invariant
            i <= n <= ms@.len(),
            firsts == ms@.take(n as int),
            key == int_key(80),
            item_views(items@) == push_all(start, firsts.take(i as int).map_values(|m: Memory| memory_item_spec(m))),
        decreases n - i,
    {
        let ghost before = firsts.take(i as int).map_values(|m: Memory| memory_item_spec(m));
        let item = memory_item(&ms[i], key);
        proof {
            lemma_push_one(start, before, item_view(item));
            assert(firsts.take(i + 1).map_values(|m: Memory| memory_item_spec(m)) =~= before.push(item_view(item)));
        }
        push_unique(items, item);
        i = i + 1;
    }
    assert(firsts.take(n as int) =~= firsts);
}

fn add_history(items: &mut Vec<ContextItem>, hist: &Vec<Chapter>)
    requires
        hist@.len() <= 0x100_0000,
    ensures
        item_views(final(items)@) == push_all(item_views(old(items)@), history_items(hist@)),
{
    let ghost start = item_views(items@);
    let mut i: usize = 0;
    assert(history_items(hist@).take(0) =~= Seq::<ItemView>::empty());
    assert(push_all(start, seq![]) == start);
    while i < hist.len()
        invariant
            i <= hist@.len() <= 0x100_0000,
            item_views(items@) == push_all(start, history_items(hist@).take(i as int)),
        decreases hist@.len() - i,
    {
        let ch = &hist[i];
        let room: usize = if i < 4 {
            900
        } else {
            280
        };
        let key = int_score_key(96 - (i as i64));
        let item = ContextItem {
            kind: String::from_str("chapter"),
            id: ch.id.clone(),
            title: labelled("历史章节 · ", &ch.title),
            snippet: chapter_extract(ch, room),
            score: key,
        };
        proof {
            let before = history_items(hist@).take(i as int);
            assert(item_view(item) == history_item_spec(hist@[i as int], i as int));
            lemma_push_one(start, before, item_view(item));
            assert(history_items(hist@).take(i + 1) =~= before.push(item_view(item)));
        }
        push_unique(items, item);
        i = i + 1;
    }
    assert(history_items(hist@).take(hist@.len() as int) =~= history_items(hist@));
}

fn add_retrieved(
    items: &mut Vec<ContextItem>,
    retrieved: &Vec<ContextItem>,
    has_chapter: bool,
    chapter_id: &Option<String>,
    Ghost(chapter): Ghost<Option<Chapter>>,
)
    requires
        has_chapter == chapter is Some,
    ensures
        item_views(final(items)@) == push_all(
            item_views(old(items)@),
            retrieved_kept(item_views(retrieved@), chapter, *chapter_id),
        ),
{
    let ghost start = item_views(items@);
    let ghost all = item_views(retrieved@);
    let mut i: usize = 0;
    assert(all.take(0) =~= Seq::<ItemView>::empty());
    assert(push_all(start, seq![]) == start);
    while i < retrieved.len()
        invariant
            i <= retrieved@.len(),
            all == item_views(retrieved@),
            has_chapter == chapter is Some,
            item_views(items@) == push_all(start, retrieved_kept(all.take(i as int), chapter, *chapter_id)),
        decreases retrieved@.len() - i,
    {
        let x = &retrieved[i];
        assert(all.take(i + 1).drop_last() =~= all.take(i as int));
        assert(all.take(i + 1).last() == item_view(*x));
        let own = has_chapter && text_eq(x.kind.as_str(), "chapter") && match chapter_id {
            Some(id) => x.id == *id,
            None => false,
        };
        if !own {
            let item = x.clone();
            proof {
                lemma_push_one(start, retrieved_kept(all.take(i as int), chapter, *chapter_id), item_view(item));
            }
            push_unique(items, item);
        }
        i = i + 1;
    }
    assert(all.take(retrieved@.len() as int) =~= all);
}

/// The outline of a request: the one it names, else its chapter's.
fn outline_for<'a>(bundle: &'a ProjectBundle, req: &GenerateRequest, chapter: Option<&'a Chapter>) -> (r: Option<&'a Outline>)
    requires
        deref_opt(chapter) == chapter_of(*bundle, *req),
    ensures
        deref_opt(r) == outline_of(*bundle, *req),
{
    match select_record(&bundle.outlines, &req.outline_id) {
        Some(o) => Some(o),
        None => match chapter {
            Some(c) => select_record(&bundle.outlines, &c.outline_id),
            None => None,
        },
    }
}

fn add_history_part(items: &mut Vec<ContextItem>, bundle: &ProjectBundle, req: &GenerateRequest, chapter: Option<&Chapter>)
    requires
        deref_opt(chapter) == chapter_of(*bundle, *req),
        bundle.chapters@.len() <= 0x100_0000,
    ensures
        item_views(final(items)@) == push_all(item_views(old(items)@), history_part(*bundle, *req)),
{
    if text_eq(req.mode.as_str(), "memory") {
        let hist = historical_chapters(bundle, None);
        proof {
            lemma_historical_len(bundle.chapters@, None);
        }
        add_history(items, &hist);
    } else {
        match chapter {
            Some(ch) => {
                let prev = previous_summaries(bundle, ch);
                if char_count(prev.as_str()) > 0 {
                    let mut id = String::from_str("prev-");
                    push_text(&mut id, ch.id.as_str());
                    let item = ContextItem {
                        kind: String::from_str("summary"),
                        id,
                        title: String::from_str("前文摘要"),
                        snippet: prev,
                        score: int_score_key(95),
                    };
                    add_one(items, item);
                } else {
                    assert(push_all(item_views(items@), seq![]) == item_views(items@));
                }
            },
            None => {
                assert(push_all(item_views(items@), seq![]) == item_views(items@));
            },
        }
    }
}

/// Assembles the context and prompts of a generation request.
///
/// `retrieved` are the retrieval results for the request's query (see
/// `retrieval_plan`); they are offered only when the request retrieves. Candidates are
/// offered in priority order (current outline, picked, current and named
/// characters, picked and current entries, the first sixteen memories,
/// earlier chapters, retrieval results), the first of each kind and id is
/// kept, the rest are ranked by score and cut to the context budget.
pub fn build_context(
    bundle: &ProjectBundle,
    settings: &AppSettings,
    req: &GenerateRequest,
    retrieved: &Vec<ContextItem>,
) -> (r: crate::models::ContextPreview)
    requires
        bundle.chapters@.len() <= 0x100_0000,
    ensures
        item_views(r.items@) == context_items_spec(*bundle, *settings, *req, item_views(retrieved@)),
        r.system_prompt@ == system_spec(bundle.project, *settings, req.mode@, target_spec(*req)),
        r.user_prompt@ == user_spec(
            *bundle,
            *req,
            target_spec(*req),
            chapter_of(*bundle, *req),
            outline_of(*bundle, *req),
            character_of(*bundle, *req),
            entry_of(*bundle, *req),
            context_items_spec(*bundle, *settings, *req, item_views(retrieved@)),
        ),
{
    let target = target_of(req);
    let chapter = select_record(&bundle.chapters, &req.chapter_id);
    let outline = outline_for(bundle, req, chapter);
    let character = select_record(&bundle.characters, &req.character_id);
    let entry = select_record(&bundle.entries, &req.entry_id);
    let query = compose_query(req, chapter, outline, character, entry);
    let ghost b = *bundle;
    let ghost q = *req;
    let mut items: Vec<ContextItem> = Vec::new();
    assert(item_views(items@) =~= Seq::<ItemView>::empty());
    let ghost c0 = if settings.include_outline && outline_of(b, q) is Some {
        seq![outline_item_spec(outline_of(b, q).unwrap())]
    } else {
        seq![]
    };
    if settings.include_outline && outline.is_some() {
        let o = outline.unwrap();
        let item = ContextItem {
            kind: String::from_str("outline"),
            id: o.id.clone(),
            title: labelled("当前大纲 · ", &o.title),
            snippet: clip_str(o.content.as_str(), 500),
            score: int_score_key(99),
        };
        assert(item_view(item) == outline_item_spec(outline_of(b, q).unwrap()));
        add_one(&mut items, item);
    } else {
        assert(push_all(item_views(items@), seq![]) == item_views(items@));
    }
    assert(item_views(items@) == push_all(seq![], c0));
    let ghost c1 = character_part(b, *settings, q);
    if settings.include_characters {
        let ghost s0 = item_views(items@);
        add_picked_characters(&mut items, &req.character_ids, &bundle.characters);
        let ghost s1 = item_views(items@);
        let ghost cur: Seq<ItemView> = match character_of(b, q) {
            Some(c) => seq![character_item_spec(c, int_key(99))],
            None => seq![],
        };
        if let Some(c) = character {
            add_one(&mut items, character_item(c, int_score_key(99)));
        }
        assert(item_views(items@) == push_all(s1, cur));
        add_mentioned(&mut items, &bundle.characters, query.as_str());
        proof {
            lemma_push_all_concat(s0, picked_characters(req.character_ids@, bundle.characters@), cur);
            lemma_push_all_concat(s0, picked_characters(req.character_ids@, bundle.characters@) + cur, mentioned_items(bundle.characters@, query@));
        }
    } else {
        assert(push_all(item_views(items@), seq![]) == item_views(items@));
    }
    proof {
        lemma_push_all_concat(seq![], c0, c1);
    }
    let ghost c2 = entry_part(b, *settings, q);
    if settings.include_entries {
        let ghost s0 = item_views(items@);
        add_picked_entries(&mut items, &req.entry_ids, &bundle.entries);
        let ghost s1 = item_views(items@);
        let ghost cur: Seq<ItemView> = match entry_of(b, q) {
            Some(e) => seq![entry_item_spec(e, int_key(99))],
            None => seq![],
        };
        if let Some(e) = entry {
            add_one(&mut items, entry_item(e, int_score_key(99)));
        }
        assert(item_views(items@) == push_all(s1, cur));
        proof {
            lemma_push_all_concat(s0, picked_entries(req.entry_ids@, bundle.entries@), cur);
        }
    } else {
        assert(push_all(item_views(items@), seq![]) == item_views(items@));
    }
    proof {
        lemma_push_all_concat(seq![], c0 + c1, c2);
    }
    let ghost c3 = if settings.include_memories {
        memory_items(b.memories@)
    } else {
        seq![]
    };
    if settings.include_memories {
        add_memories(&mut items, &bundle.memories);
    } else {
        assert(push_all(item_views(items@), seq![]) == item_views(items@));
    }
    proof {
        lemma_push_all_concat(seq![], c0 + c1 + c2, c3);
    }
    let ghost c4 = history_part(b, q);
    add_history_part(&mut items, bundle, req, chapter);
    proof {
        lemma_push_all_concat(seq![], c0 + c1 + c2 + c3, c4);
    }
    let ghost c5 = retrieved_part(b, *settings, q, item_views(retrieved@));
    if settings.include_retrieval && !text_eq(req.mode.as_str(), "memory") {
        add_retrieved(&mut items, retrieved, chapter.is_some(), &req.chapter_id, Ghost(chapter_of(b, q)));
    } else {
        assert(push_all(item_views(items@), seq![]) == item_views(items@));
    }
    proof {
        lemma_push_all_concat(seq![], c0 + c1 + c2 + c3 + c4, c5);
        assert(c0 + c1 + c2 + c3 + c4 + c5 =~= candidates_spec(b, *settings, q, item_views(retrieved@)));
    }
    let sorted = sort_by_score(&items);
    let budget: usize = if settings.context_budget >= 1200 {
        settings.context_budget as usize
    } else {
        1200
    };
    let kept = trim_budget(sorted, budget);
    let system_prompt = build_system(&bundle.project, settings, req.mode.as_str(), target.as_str());
    let user_prompt = build_user(bundle, req, target.as_str(), chapter, outline, character, entry, &kept);
    crate::models::ContextPreview { items: kept, system_prompt, user_prompt }
}

/// What to retrieve for a request: its query, and how many results.
#[derive(Debug)]
pub struct RetrievalPlan {
    pub query: String,
    pub limit: usize,
}

/// Whether a request retrieves: retrieval is on and the request does not
/// extract memories (memories come only from written chapters).
pub open spec fn retrieves(s: AppSettings, req: GenerateRequest) -> bool {
    s.include_retrieval && req.mode@ != "memory"@
}

/// The number of results retrieval asks for: the setting, at least one.
pub open spec fn retrieve_limit(s: AppSettings) -> nat {
    if s.retrieve_k >= 1 {
        s.retrieve_k as nat
    } else {
        1
    }
}

/// The retrieval a request asks for, if any.
pub fn retrieval_plan(bundle: &ProjectBundle, settings: &AppSettings, req: &GenerateRequest) -> (r:
    Option<RetrievalPlan>)
    ensures
        r is Some <==> retrieves(*settings, *req),
        r matches Some(p) ==> p.query@ == query_of(*bundle, *req) && p.limit == retrieve_limit(*settings),
{
    if !(settings.include_retrieval && !text_eq(req.mode.as_str(), "memory")) {
        return None;
    }
    let chapter = select_record(&bundle.chapters, &req.chapter_id);
    let outline = outline_for(bundle, req, chapter);
    let character = select_record(&bundle.characters, &req.character_id);
    let entry = select_record(&bundle.entries, &req.entry_id);
    let query = compose_query(req, chapter, outline, character, entry);
    let limit: usize = if settings.retrieve_k >= 1 {
        settings.retrieve_k as usize
    } else {
        1
    };
    Some(RetrievalPlan { query, limit })
}

/// A filled-in field, trimmed, or a mark that it is empty.
pub open spec fn empty_mark_spec(t: Seq<char>) -> Seq<char> {
    if is_blank(t) {
        "（空）"@
    } else {
        trim(t)
    }
}

/// A filled-in field, trimmed, or a mark that it is empty.
pub fn empty_mark(text: &str) -> (r: String)
    ensures
        r@ == empty_mark_spec(text@),
{
    if blank(text) {
        String::from_str("（空）")
    } else {
        trim_text(text)
    }
}

/// The system message asking for book metadata: keep the author's fields
/// when expanding, else prefer them and draft the blanks.
pub open spec fn meta_system_spec(seed: BookMetaSeed) -> Seq<char> {
    META_HEAD@ + (if seed.mode@ == "expand"@ {
        KEEP_EXPAND@
    } else {
        KEEP_DRAFT@
    }) + META_TAIL@
}

/// The user message asking for book metadata: the filled-in fields and the
/// author's instruction.
pub open spec fn meta_user_spec(seed: BookMetaSeed) -> Seq<char> {
    "已填书名："@ + empty_mark_spec(seed.title@) + "\n已填体裁："@ + empty_mark_spec(seed.genre@)
        + "\n已填文风："@ + empty_mark_spec(seed.style_prompt@) + "\n已填简介："@ + empty_mark_spec(
        seed.description@,
    ) + "\n作者指令："@ + (if is_blank(seed.instruction@) {
        NO_INSTRUCTION@
    } else {
        trim(seed.instruction@)
    })
}

/// The two messages that ask the model for book metadata.
pub fn book_meta_messages(seed: &BookMetaSeed) -> (r: Vec<ChatMessage>)
    ensures
        r@.len() == 2,
        r@[0].role@ == "system"@,
        r@[0].content@ == meta_system_spec(*seed),
        r@[1].role@ == "user"@,
        r@[1].content@ == meta_user_spec(*seed),
{
    let keep = if text_eq(seed.mode.as_str(), "expand") {
        KEEP_EXPAND
    } else {
        KEEP_DRAFT
    };
    let mut system = String::from_str(META_HEAD);
    push_text(&mut system, keep);
    push_text(&mut system, META_TAIL);
    let mut user = String::from_str("已填书名：");
    let t = empty_mark(seed.title.as_str());
    push_text(&mut user, t.as_str());
    push_text(&mut user, "\n已填体裁：");
    let t = empty_mark(seed.genre.as_str());
    push_text(&mut user, t.as_str());
    push_text(&mut user, "\n已填文风：");
    let t = empty_mark(seed.style_prompt.as_str());
    push_text(&mut user, t.as_str());
    push_text(&mut user, "\n已填简介：");
    let t = empty_mark(seed.description.as_str());
    push_text(&mut user, t.as_str());
    push_text(&mut user, "\n作者指令：");
    if blank(seed.instruction.as_str()) {
        push_text(&mut user, NO_INSTRUCTION);
    } else {
        let t = trim_text(seed.instruction.as_str());
        push_text(&mut user, t.as_str());
    }
    let mut r: Vec<ChatMessage> = Vec::new();
    r.push(ChatMessage { role: String::from_str("system"), content: system });
    r.push(ChatMessage { role: String::from_str("user"), content: user });
    r
}

/// No two items share a kind and an id.
pub open spec fn unique_keys(s: Seq<ItemView>) -> bool {
    forall|i: int, j: int| 0 <= i < j < s.len() ==> !((#[trigger] s[i]).0 == (#[trigger] s[j]).0 && s[i].1 == s[j].1)
}

proof fn lemma_push_all_unique(d: Seq<ItemView>, xs: Seq<ItemView>)
    requires
        unique_keys(d),
    ensures
        unique_keys(push_all(d, xs)),
    decreases xs.len(),
{
    if xs.len() > 0 {
        lemma_push_all_unique(d, xs.drop_last());
        let p = push_all(d, xs.drop_last());
        let x = xs.last();
        if !has_key(p, x) {
            let q = p.push(x);
            assert forall|i: int, j: int| 0 <= i < j < q.len() implies !((#[trigger] q[i]).0 == (#[trigger] q[j]).0 && q[i].1 == q[j].1) by {
                if j == p.len() {
                    assert(q[i] == p[i]);
                    if q[i].0 == q[j].0 && q[i].1 == q[j].1 {
                        assert(p[i].0 == x.0 && p[i].1 == x.1);
                    }
                } else {
                    assert(q[i] == p[i] && q[j] == p[j]);
                }
            }
        }
    }
}

proof fn lemma_sort_unique(s: Seq<ItemView>)
    requires
        unique_keys(s),
    ensures
        unique_keys(sort_by(s, by_score())),
    decreases s.len(),
{
    if s.len() > 0 {
        let p = s.drop_last();
        let x = s.last();
        assert(unique_keys(p)) by {
            assert forall|i: int, j: int| 0 <= i < j < p.len() implies !((#[trigger] p[i]).0 == (#[trigger] p[j]).0 && p[i].1 == p[j].1) by {
                assert(p[i] == s[i] && p[j] == s[j]);
            }
        }
        lemma_sort_unique(p);
        let t = sort_by(p, by_score());
        sort_by_contains(p, by_score());
        lemma_insert_contains(x, t, by_score());
        let r = insert_by(x, t, by_score());
        assert forall|i: int, j: int| 0 <= i < j < r.len() implies !((#[trigger] r[i]).0 == (#[trigger] r[j]).0 && r[i].1 == r[j].1) by {
            assert(r.contains(r[i]) && r.contains(r[j]));
            if r[i].0 == r[j].0 && r[i].1 == r[j].1 {
                let a = r[i];
                let b = r[j];
                assert(a == x || t.contains(a));
                assert(b == x || t.contains(b));
                if a == x && b == x {
                    assert(!t.contains(x)) by {
                        if t.contains(x) {
                            let k = choose|k: int| 0 <= k < p.len() && p[k] == x;
                            assert(s[k] == x && s[s.len() - 1] == x);
                        }
                    }
                    lemma_insert_at_distinct(x, t, i, j);
                } else if a == x {
                    let k = choose|k: int| 0 <= k < p.len() && p[k] == b;
                    assert(s[k] == b && s[s.len() - 1] == x);
                } else if b == x {
                    let k = choose|k: int| 0 <= k < p.len() && p[k] == a;
                    assert(s[k] == a && s[s.len() - 1] == x);
                } else {
                    lemma_two_positions(t, r, x, i, j);
                }
            }
        }
    }
}

/// In `insert_by(x, t)`, `x` stands at one position only, when `t` does
/// not hold it.
proof fn lemma_insert_at_distinct(x: ItemView, t: Seq<ItemView>, i: int, j: int)
    requires
        !t.contains(x),
        0 <= i < j < insert_by(x, t, by_score()).len(),
    ensures
        !(insert_by(x, t, by_score())[i] == x && insert_by(x, t, by_score())[j] == x),
    decreases t.len(),
{
    let r = insert_by(x, t, by_score());
    if r[i] == x && r[j] == x {
        if t.len() == 0 {
        } else if (by_score())(x, t[0]) {
            assert(r[j] == t[j - 1]);
        } else {
            let u = t.drop_first();
            if i == 0 {
                assert(t[0] == x);
            } else {
                assert(!u.contains(x)) by {
                    if u.contains(x) {
                        let k = choose|k: int| 0 <= k < u.len() && u[k] == x;
                        assert(t[k + 1] == x);
                    }
                }
                lemma_insert_contains(x, u, by_score());
                assert(r[i] == insert_by(x, u, by_score())[i - 1]);
                assert(r[j] == insert_by(x, u, by_score())[j - 1]);
                lemma_insert_at_distinct(x, u, i - 1, j - 1);
            }
        }
    }
}

/// Two positions of `r` other than the inserted one hold elements of `t`
/// whose keys differ, given `t` has unique keys.
proof fn lemma_two_positions(t: Seq<ItemView>, r: Seq<ItemView>, x: ItemView, i: int, j: int)
    requires
        unique_keys(t),
        r == insert_by(x, t, by_score()),
        0 <= i < j < r.len(),
        r[i] != x,
        r[j] != x,
    ensures
        !(r[i].0 == r[j].0 && r[i].1 == r[j].1),
    decreases t.len(),
{
    if t.len() == 0 {
    } else if (by_score())(x, t[0]) {
        assert(r[i] == t[i - 1] && r[j] == t[j - 1]);
    } else {
        let u = t.drop_first();
        let w = insert_by(x, u, by_score());
        assert(unique_keys(u)) by {
            assert forall|a: int, b: int| 0 <= a < b < u.len() implies !((#[trigger] u[a]).0 == (#[trigger] u[b]).0 && u[a].1 == u[b].1) by {
                assert(u[a] == t[a + 1] && u[b] == t[b + 1]);
            }
        }
        if i == 0 {
            assert(r[0] == t[0]);
            assert(r[j] == w[j - 1]);
            lemma_insert_contains(x, u, by_score());
            assert(w.contains(r[j]));
            let k = choose|k: int| 0 <= k < u.len() && u[k] == r[j];
            assert(t[k + 1] == r[j]);
        } else {
            assert(r[i] == w[i - 1] && r[j] == w[j - 1]);
            lemma_two_positions(u, w, x, i - 1, j - 1);
        }
    }
}

proof fn lemma_keep_contains(s: Seq<ItemView>, b: nat, u: nat)
    ensures
        forall|y: ItemView| #[trigger] budget_keep(s, b, u).contains(y) ==> s.contains(y),
        budget_keep(s, b, u).len() <= s.len(),
    decreases s.len(),
{
    if s.len() > 0 {
        let t = s.drop_first();
        lemma_keep_contains(t, b, u);
        lemma_keep_contains(t, b, u + item_cost(s[0]));
        assert forall|y: ItemView| #[trigger] budget_keep(s, b, u).contains(y) implies s.contains(y) by {
            let k = budget_keep(s, b, u);
            let m = choose|m: int| 0 <= m < k.len() && k[m] == y;
            if u + item_cost(s[0]) > b && u > 0 {
                assert(budget_keep(t, b, u).contains(y));
            } else if m == 0 {
                assert(s[0] == y);
            } else {
                assert(budget_keep(t, b, u + item_cost(s[0]))[m - 1] == y);
                assert(budget_keep(t, b, u + item_cost(s[0])).contains(y));
            }
            let n = choose|n: int| 0 <= n < t.len() && t[n] == y;
            if t.contains(y) {
                assert(s[n + 1] == y);
            }
        }
    }
}

proof fn lemma_keep_shape(s: Seq<ItemView>, b: nat, u: nat)
    ensures
        unique_keys(s) ==> unique_keys(budget_keep(s, b, u)),
        (forall|i: int, j: int| 0 <= i < j < s.len() ==> (#[trigger] s[i]).4 >= (#[trigger] s[j]).4) ==> (
        forall|i: int, j: int|
            0 <= i < j < budget_keep(s, b, u).len() ==> (#[trigger] budget_keep(s, b, u)[i]).4 >= (
            #[trigger] budget_keep(s, b, u)[j]).4),
    decreases s.len(),
{
    if s.len() > 0 {
        let t = s.drop_first();
        let u2 = if u + item_cost(s[0]) > b && u > 0 {
            u
        } else {
            u + item_cost(s[0])
        };
        lemma_keep_shape(t, b, u2);
        lemma_keep_contains(t, b, u2);
        let k = budget_keep(t, b, u2);
        if unique_keys(s) {
            assert(unique_keys(t)) by {
                assert forall|i: int, j: int| 0 <= i < j < t.len() implies !((#[trigger] t[i]).0 == (#[trigger] t[j]).0 && t[i].1 == t[j].1) by {
                    assert(t[i] == s[i + 1] && t[j] == s[j + 1]);
                }
            }
        }
        if forall|i: int, j: int| 0 <= i < j < s.len() ==> (#[trigger] s[i]).4 >= (#[trigger] s[j]).4 {
            assert forall|i: int, j: int| 0 <= i < j < t.len() implies (#[trigger] t[i]).4 >= (#[trigger] t[j]).4 by {
                assert(t[i] == s[i + 1] && t[j] == s[j + 1]);
            }
        }
        if !(u + item_cost(s[0]) > b && u > 0) {
            let r = seq![s[0]] + k;
            assert(budget_keep(s, b, u) == r);
            if unique_keys(s) {
                assert forall|i: int, j: int| 0 <= i < j < r.len() implies !((#[trigger] r[i]).0 == (#[trigger] r[j]).0 && r[i].1 == r[j].1) by {
                    if i == 0 {
                        assert(r[j] == k[j - 1]);
                        assert(k.contains(r[j]));
                        let n = choose|n: int| 0 <= n < t.len() && t[n] == r[j];
                        assert(s[n + 1] == r[j]);
                    } else {
                        assert(r[i] == k[i - 1] && r[j] == k[j - 1]);
                    }
                }
            }
            if forall|i: int, j: int| 0 <= i < j < s.len() ==> (#[trigger] s[i]).4 >= (#[trigger] s[j]).4 {
                assert forall|i: int, j: int| 0 <= i < j < r.len() implies (#[trigger] r[i]).4 >= (#[trigger] r[j]).4 by {
                    if i == 0 {
                        assert(r[j] == k[j - 1]);
                        assert(k.contains(r[j]));
                        let n = choose|n: int| 0 <= n < t.len() && t[n] == r[j];
                        assert(s[n + 1] == r[j]);
                    } else {
                        assert(r[i] == k[i - 1] && r[j] == k[j - 1]);
                    }
                }
            }
        }
    }
}

/// The context never holds two items of the same kind and id.
pub proof fn context_items_unique(
    b: ProjectBundle,
    s: AppSettings,
    req: GenerateRequest,
    retrieved: Seq<ItemView>,
)
    ensures
        unique_keys(context_items_spec(b, s, req, retrieved)),
{
    let c = candidates_spec(b, s, req, retrieved);
    lemma_push_all_unique(seq![], c);
    lemma_sort_unique(push_all(seq![], c));
    lemma_keep_shape(sort_by(push_all(seq![], c), by_score()), budget_of(s), 0);
}

/// The context is ranked: scores never rise along it.
pub proof fn context_items_ranked(
    b: ProjectBundle,
    s: AppSettings,
    req: GenerateRequest,
    retrieved: Seq<ItemView>,
)
    ensures
        forall|i: int, j: int|
            0 <= i < j < context_items_spec(b, s, req, retrieved).len() ==> (
            #[trigger] context_items_spec(b, s, req, retrieved)[i]).4 >= (
            #[trigger] context_items_spec(b, s, req, retrieved)[j]).4,
{
    let c = push_all(seq![], candidates_spec(b, s, req, retrieved));
    sorted_by_score_descends(c);
    lemma_keep_shape(sort_by(c, by_score()), budget_of(s), 0);
}

/// What the items cost together.
pub open spec fn total_cost(s: Seq<ItemView>) -> nat
    decreases s.len(),
{
    if s.len() == 0 {
        0
    } else {
        item_cost(s[0]) + total_cost(s.drop_first())
    }
}

proof fn lemma_keep_spent(s: Seq<ItemView>, b: nat, u: nat)
    requires
        u > 0,
    ensures
        u <= b ==> u + total_cost(budget_keep(s, b, u)) <= b,
        u > b ==> budget_keep(s, b, u).len() == 0,
    decreases s.len(),
{
    if s.len() > 0 {
        let t = s.drop_first();
        lemma_keep_spent(t, b, u);
        if !(u + item_cost(s[0]) > b) {
            lemma_keep_spent(t, b, u + item_cost(s[0]));
            assert((seq![s[0]] + budget_keep(t, b, u + item_cost(s[0]))).drop_first() =~= budget_keep(t, b, u + item_cost(s[0])));
        }
    }
}

/// The context budget holds: what is kept costs at most the budget, unless
/// a single item larger than the whole budget came first (everything
/// kept before it costing nothing), in which case nothing follows it.
pub proof fn budget_is_kept(s: Seq<ItemView>, b: nat)
    ensures
        total_cost(budget_keep(s, b, 0)) <= b || exists|i: int|
            0 <= i < budget_keep(s, b, 0).len() && item_cost(#[trigger] budget_keep(s, b, 0)[i]) > b
                && total_cost(budget_keep(s, b, 0)) == item_cost(budget_keep(s, b, 0)[i])
                && i == budget_keep(s, b, 0).len() - 1,
    decreases s.len(),
{
    if s.len() > 0 {
        let t = s.drop_first();
        let x = s[0];
        let k = budget_keep(s, b, 0);
        if item_cost(x) == 0 {
            budget_is_kept(t, b);
            let kt = budget_keep(t, b, 0);
            assert(k == seq![x] + kt);
            assert(k.drop_first() =~= kt);
            if total_cost(kt) > b {
                let i = choose|i: int|
                    0 <= i < kt.len() && item_cost(#[trigger] kt[i]) > b && total_cost(kt) == item_cost(kt[i])
                        && i == kt.len() - 1;
                assert(k[i + 1] == kt[i]);
            }
        } else {
            lemma_keep_spent(t, b, item_cost(x));
            let kt = budget_keep(t, b, item_cost(x));
            assert(k == seq![x] + kt);
            assert(k.drop_first() =~= kt);
            if item_cost(x) > b {
                assert(kt.len() == 0);
                assert(total_cost(kt) == 0);
                assert(k[0] == x);
            }
        }
    }
}

/// Extracting memories never retrieves: memories come only from the
/// chapters already written.
pub proof fn memory_mode_never_retrieves(s: AppSettings, req: GenerateRequest)
    requires
        req.mode@ == "memory"@,
    ensures
        !retrieves(s, req),
{
}

/// In memory mode the context does not depend on retrieval: whatever
/// results are handed in, and whether retrieval is switched on or off, the
/// items and both prompts are the same.
pub proof fn memory_context_ignores_retrieval(
    b: ProjectBundle,
    s: AppSettings,
    req: GenerateRequest,
    r1: Seq<ItemView>,
    r2: Seq<ItemView>,
)
    requires
        req.mode@ == "memory"@,
    ensures
        context_items_spec(b, s, req, r1) == context_items_spec(
            b,
            AppSettings { include_retrieval: false, ..s },
            req,
            r2,
        ),
        system_spec(b.project, s, req.mode@, target_spec(req)) == system_spec(
            b.project,
            AppSettings { include_retrieval: false, ..s },
            req.mode@,
            target_spec(req),
        ),
        user_spec(
            b,
            req,
            target_spec(req),
            chapter_of(b, req),
            outline_of(b, req),
            character_of(b, req),
            entry_of(b, req),
            context_items_spec(b, s, req, r1),
        ) == user_spec(
            b,
            req,
            target_spec(req),
            chapter_of(b, req),
            outline_of(b, req),
            character_of(b, req),
            entry_of(b, req),
            context_items_spec(b, AppSettings { include_retrieval: false, ..s }, req, r2),
        ),
{
    let s2 = AppSettings { include_retrieval: false, ..s };
    assert(candidates_spec(b, s, req, r1) == candidates_spec(b, s2, req, r2));
}

proof fn lemma_written_have_text(s: Seq<Chapter>, current: Option<Chapter>)
    ensures
        forall|c: Chapter| #[trigger] written_chapters(s, current).contains(c) ==> has_text(c) && s.contains(c),
    decreases s.len(),
{
    if s.len() > 0 {
        let p = s.drop_last();
        lemma_written_have_text(p, current);
        assert forall|c: Chapter| #[trigger] written_chapters(s, current).contains(c) implies has_text(c)
            && s.contains(c) by {
            let w = written_chapters(s, current);
            let k = choose|k: int| 0 <= k < w.len() && w[k] == c;
            if k < written_chapters(p, current).len() {
                assert(written_chapters(p, current)[k] == c);
                assert(written_chapters(p, current).contains(c));
                let j = choose|j: int| 0 <= j < p.len() && p[j] == c;
                assert(s[j] == c);
            } else {
                assert(c == s.last());
                assert(s[s.len() - 1] == c);
            }
        }
    }
}

/// Only written chapters are history: every chapter offered as what came
/// before is a chapter of the book with text or a summary, and never the
/// chapter being written.
pub proof fn history_is_written(s: Seq<Chapter>, current: Option<Chapter>)
    ensures
        forall|c: Chapter| #[trigger] historical_spec(s, current).contains(c) ==> has_text(c) && s.contains(c),
        forall|c: Chapter|
            #[trigger] historical_spec(s, current).contains(c) ==> match current {
                Some(cur) => c.id@ != cur.id@,
                None => true,
            },
{
    lemma_written_have_text(s, current);
    lemma_written_not_current(s, current);
    sort_by_contains(written_chapters(s, current), by_position());
}

/// Memory extraction is fed only written chapters: every earlier-chapter
/// item it offers is a chapter of the book that has text or a summary.
pub proof fn memory_history_is_written(b: ProjectBundle, req: GenerateRequest)
    requires
        req.mode@ == "memory"@,
    ensures
        forall|k: int|
            0 <= k < history_part(b, req).len() ==> exists|c: Chapter|
                b.chapters@.contains(c) && has_text(c) && c.id@ == (#[trigger] history_part(b, req)[k]).1,
{
    let h = historical_spec(b.chapters@, None);
    history_is_written(b.chapters@, None);
    assert forall|k: int| 0 <= k < history_part(b, req).len() implies exists|c: Chapter|
        b.chapters@.contains(c) && has_text(c) && c.id@ == (#[trigger] history_part(b, req)[k]).1 by {
        assert(h.contains(h[k]));
        assert(history_part(b, req)[k].1 == h[k].id@);
    }
}

proof fn lemma_written_not_current(s: Seq<Chapter>, current: Option<Chapter>)
    ensures
        forall|c: Chapter|
            #[trigger] written_chapters(s, current).contains(c) ==> match current {
                Some(cur) => c.id@ != cur.id@,
                None => true,
            },
    decreases s.len(),
{
    if s.len() > 0 {
        let p = s.drop_last();
        lemma_written_not_current(p, current);
        assert forall|c: Chapter| #[trigger] written_chapters(s, current).contains(c) implies match current {
            Some(cur) => c.id@ != cur.id@,
            None => true,
        } by {
            let w = written_chapters(s, current);
            let k = choose|k: int| 0 <= k < w.len() && w[k] == c;
            if k < written_chapters(p, current).len() {
                assert(written_chapters(p, current)[k] == c);
                assert(written_chapters(p, current).contains(c));
            }
        }
    }
}

proof fn lemma_mentioned_ids(cs: Seq<Character>, query: Seq<char>)
    ensures
        mentioned_items(cs, query).map_values(|it: ItemView| it.1) == named_character_ids(cs, query),
    decreases cs.len(),
{
    if cs.len() > 0 {
        lemma_mentioned_ids(cs.drop_last(), query);
        if names_character(cs.last(), query) {
            assert(mentioned_items(cs, query).map_values(|it: ItemView| it.1) =~= mentioned_items(
                cs.drop_last(),
                query,
            ).map_values(|it: ItemView| it.1).push(cs.last().id@));
        }
    }
}

/// The characters a query names are the same for the prompt and for
/// retrieval: the cards brought in by name are, in order, the characters
/// whose ids lead the ids retrieval boosts.
pub proof fn mentioned_are_boosted(b: ProjectBundle, query: Seq<char>)
    ensures
        mentioned_items(b.characters@, query).map_values(|it: ItemView| it.1) == named_character_ids(
            b.characters@,
            query,
        ),
        boost_ids(b, query).take(mentioned_items(b.characters@, query).len() as int) == named_character_ids(
            b.characters@,
            query,
        ),
{
    lemma_mentioned_ids(b.characters@, query);
    let n = named_character_ids(b.characters@, query);
    assert(mentioned_items(b.characters@, query).len() == n.len());
    assert(boost_ids(b, query).take(n.len() as int) =~= n);
}

/// Retrieval asks for at least one result, and the context budget is at
/// least 1200 characters.
pub proof fn limits_have_floors(s: AppSettings)
    ensures
        retrieve_limit(s) >= 1,
        retrieve_limit(s) >= s.retrieve_k,
        budget_of(s) >= 1200,
        budget_of(s) >= s.context_budget,
{
}

/// The chapter being written is never offered back to itself by retrieval.
pub proof fn own_chapter_not_retrieved(retrieved: Seq<ItemView>, ch: Chapter, id: String)
    ensures
        forall|k: int|
            0 <= k < retrieved_kept(retrieved, Some(ch), Some(id)).len() ==> !((#[trigger] retrieved_kept(
                retrieved,
                Some(ch),
                Some(id),
            )[k]).0 == "chapter"@ && retrieved_kept(retrieved, Some(ch), Some(id))[k].1 == id@),
    decreases retrieved.len(),
{
    if retrieved.len() > 0 {
        own_chapter_not_retrieved(retrieved.drop_last(), ch, id);
        let rest = retrieved_kept(retrieved.drop_last(), Some(ch), Some(id));
        let r = retrieved_kept(retrieved, Some(ch), Some(id));
        assert forall|k: int| 0 <= k < r.len() implies !((#[trigger] r[k]).0 == "chapter"@ && r[k].1 == id@) by {
            if k < rest.len() {
                assert(r[k] == rest[k]);
            }
        }
    }
}

/// At most sixteen memories are forced into the context.
pub proof fn memories_capped(ms: Seq<Memory>)
    ensures
        memory_items(ms).len() <= 16,
        memory_items(ms).len() <= ms.len(),
{
}

proof fn lemma_earlier(s: Seq<Chapter>, cur: Chapter)
    ensures
        forall|k: int| 0 <= k < earlier(s, cur).len() ==> (by_position())(#[trigger] earlier(s, cur)[k], cur),
    decreases s.len(),
{
    if s.len() > 0 {
        lemma_earlier(s.drop_last(), cur);
        let rest = earlier(s.drop_last(), cur);
        let e = earlier(s, cur);
        assert forall|k: int| 0 <= k < e.len() implies (by_position())(#[trigger] e[k], cur) by {
            if k < rest.len() {
                assert(e[k] == rest[k]);
            }
        }
    }
}

/// What came before a chapter covers at most four chapters, each of them
/// before it in book order.
pub proof fn previous_chapters_are_earlier(s: Seq<Chapter>, cur: Chapter)
    ensures
        last_n(earlier(summary_source(s, cur), cur), 4).len() <= 4,
        forall|k: int|
            0 <= k < last_n(earlier(summary_source(s, cur), cur), 4).len() ==> (by_position())(
                #[trigger] last_n(earlier(summary_source(s, cur), cur), 4)[k],
                cur,
            ),
{
    let e = earlier(summary_source(s, cur), cur);
    lemma_earlier(summary_source(s, cur), cur);
    let l = last_n(e, 4);
    assert forall|k: int| 0 <= k < l.len() implies (by_position())(#[trigger] l[k], cur) by {
        if e.len() > 4 {
            assert(l[k] == e[k + e.len() - 4]);
        }
    }
}

/// A chapter's outline stands in for an outline the request does not
/// name: when the request names no outline of the book and its chapter is
/// linked to the book's outline `o`, the request is about `o`. Then `o`'s
/// title and text go into the retrieval query, and, with outlines
/// included, `o` is the first context candidate, as the current outline
/// at priority 99.
pub proof fn chapter_outline_is_current(
    b: ProjectBundle,
    s: AppSettings,
    req: GenerateRequest,
    retrieved: Seq<ItemView>,
    c: Chapter,
    id: String,
    o: Outline,
)
    requires
        req.outline_id matches Some(n) ==> find_by_id(b.outlines@, n@) is None,
        chapter_of(b, req) == Some(c),
        c.outline_id == Some(id),
        find_by_id(b.outlines@, id@) == Some(o),
    ensures
        outline_of(b, req) == Some(o),
        query_parts(req, chapter_of(b, req), outline_of(b, req), character_of(b, req), entry_of(b, req)).contains(
            o.title@,
        ),
        query_parts(req, chapter_of(b, req), outline_of(b, req), character_of(b, req), entry_of(b, req)).contains(
            o.content@,
        ),
        s.include_outline ==> candidates_spec(b, s, req, retrieved).len() > 0 && candidates_spec(
            b,
            s,
            req,
            retrieved,
        )[0] == ("outline"@, o.id@, "当前大纲 · "@ + o.title@, clip_text(o.content@, 500), int_key(99)),
{
    let parts = query_parts(req, chapter_of(b, req), outline_of(b, req), character_of(b, req), entry_of(b, req));
    let before = seq![req.instruction@] + opt_part(req.object_snapshot) + opt_part(req.selected_text)
        + chapter_parts(chapter_of(b, req));
    assert(parts[before.len() as int] == o.title@);
    assert(parts[before.len() as int + 1] == o.content@);
}

/// What came before a chapter is the last four chapters before it (all of
/// them when there are fewer), in order, one line each; so, when there are
/// any, its last line is that of the chapter right before.
pub proof fn previous_summaries_are_the_last_four(s: Seq<Chapter>, cur: Chapter)
    ensures
        ({
            let e = earlier(summary_source(s, cur), cur);
            let k = if e.len() < 4 {
                e.len() as int
            } else {
                4
            };
            &&& previous_summaries_spec(s, cur) == join_with(
                Seq::new(k as nat, |i: int| summary_line(e[e.len() - k + i])),
                nl(),
            )
            &&& (e.len() > 0 ==> Seq::new(k as nat, |i: int| summary_line(e[e.len() - k + i])).last()
                == summary_line(e.last()))
        }),
{
    let e = earlier(summary_source(s, cur), cur);
    let k = if e.len() < 4 {
        e.len() as int
    } else {
        4
    };
    assert(last_n(e, 4).map_values(|c: Chapter| summary_line(c)) =~= Seq::new(
        k as nat,
        |i: int| summary_line(e[e.len() - k + i]),
    ));
}

/// The book's own style is never dropped: when its style prompt is not
/// blank, the style line holds it (trimmed), whether or not a global
/// writing style is set; a global style, when set, comes first (trimmed)
/// and is followed by a line break.
pub proof fn style_keeps_book_style(settings: AppSettings, project: Project)
    ensures
        !is_blank(project.style_prompt@) ==> occurs_in(
            style_spec(settings, project),
            trim(project.style_prompt@),
        ),
        (!is_blank(project.style_prompt@) && !is_blank(settings.writing_style@)) ==> style_spec(
            settings,
            project,
        ).take(trim(settings.writing_style@).len() as int + 1) == trim(settings.writing_style@) + nl(),
        is_blank(settings.writing_style@) && !is_blank(project.style_prompt@) ==> style_spec(settings, project)
            == trim(project.style_prompt@),
{
    let sp = project.style_prompt@;
    if !is_blank(sp) {
        if is_blank(settings.writing_style@) {
            let t = trim(sp);
            assert(style_spec(settings, project) == t);
            assert(t.subrange(0, 0 + t.len() as int) =~= t);
            assert(occurs_in(t, t));
        } else {
            let a = trim(settings.writing_style@);
            lemma_trim_shape(settings.writing_style@);
            let p = a + nl();
            assert(p[0] == a[0]);
            trim_keeps_inner(p, sp);
            assert(a + nl() + sp =~= p + sp);
            assert(style_spec(settings, project) == trim(p + sp));
        }
    }
}

} // verus!
