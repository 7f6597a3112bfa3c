//! Reading the JSON that models answer with.
//!
//! The text is parsed into a `JsonValue` by the caller; this module finds
//! the JSON inside a model's answer and reads the fields the application
//! needs out of the parsed value.

use vstd::prelude::*;
use crate::models::{BookMeta, Memory};
use crate::text::{
    blank, chars_of, is_blank, string_of_range, text_eq, trim, trim_text,
};

verus! {

/// A parsed JSON value. Numbers are kept as their text.
#[derive(Debug)]
pub enum JsonValue {
    Null,
    Bool(bool),
    Number(String),
    Str(String),
    Array(Vec<JsonValue>),
    Object(Vec<(String, JsonValue)>),
}

/// The value of the first field named `key`, if `v` is an object that has
/// one.
pub open spec fn field_spec(v: JsonValue, key: Seq<char>) -> Option<JsonValue> {
    match v {
        JsonValue::Object(fields) => first_field(fields@, key),
        _ => None,
    }
}

/// The value of the first of `fields` named `key`.
pub open spec fn first_field(fields: Seq<(String, JsonValue)>, key: Seq<char>) -> Option<JsonValue>
    decreases fields.len(),
{
    if fields.len() == 0 {
        None
    } else if fields[0].0@ == key {
        Some(fields[0].1)
    } else {
        first_field(fields.drop_first(), key)
    }
}

/// The text of the field `key` of `v`, if `v` is an object whose field
/// `key` is a string.
pub open spec fn str_field_spec(v: JsonValue, key: Seq<char>) -> Option<Seq<char>> {
    match field_spec(v, key) {
        Some(JsonValue::Str(s)) => Some(s@),
        _ => None,
    }
}

/// The value of the field named `key`, if `v` is an object that has one.
pub fn field<'a>(v: &'a JsonValue, key: &str) -> (r: Option<&'a JsonValue>)
    ensures
        match r {
            Some(x) => field_spec(*v, key@) == Some(*x),
            None => field_spec(*v, key@) is None,
        },
{
    match v {
        JsonValue::Object(fields) => {
            assert(field_spec(*v, key@) == first_field(fields@, key@));
            let mut i: usize = 0;
            assert(fields@.skip(0) =~= fields@);
            while i < fields.len()
                invariant
                    i <= fields@.len(),
                    field_spec(*v, key@) == first_field(fields@, key@),
                    first_field(fields@, key@) == first_field(fields@.skip(i as int), key@),
                decreases fields@.len() - i,
            {
                assert(fields@.skip(i as int)[0] == fields@[i as int]);
                assert(fields@.skip(i as int).drop_first() =~= fields@.skip(i + 1));
                if text_eq(fields[i].0.as_str(), key) {
                    assert(fields@.skip(i as int)[0].0@ == key@);
                    assert(first_field(fields@.skip(i as int), key@) == Some(fields@[i as int].1));
                    let f = &fields[i];
                    assert(*f == fields@[i as int]);
                    let x = &f.1;
                    assert(*x == fields@[i as int].1);
                    return Some(x);
                }
                i = i + 1;
            }
            None
        },
        _ => None,
    }
}

/// The text of the field `key`, if it is a string.
pub fn str_field(v: &JsonValue, key: &str) -> (r: Option<String>)
    ensures
        match r {
            Some(s) => str_field_spec(*v, key@) == Some(s@),
            None => str_field_spec(*v, key@) is None,
        },
{
    match field(v, key) {
        Some(JsonValue::Str(s)) => Some(s.clone()),
        _ => None,
    }
}

/// The index of the first `c` in `s`.
pub open spec fn first_index_of(s: Seq<char>, c: char) -> Option<int> {
    if exists|i: int| 0 <= i < s.len() && s[i] == c {
        Some(choose|i: int| 0 <= i < s.len() && s[i] == c && forall|j: int| 0 <= j < i ==> s[j] != c)
    } else {
        None
    }
}

/// The index of the last `c` in `s`.
pub open spec fn last_index_of(s: Seq<char>, c: char) -> Option<int> {
    if exists|i: int| 0 <= i < s.len() && s[i] == c {
        Some(
            choose|i: int| 0 <= i < s.len() && s[i] == c && forall|j: int| i < j < s.len() ==> s[j] != c,
        )
    } else {
        None
    }
}

/// The span from the first `open` to the last `close`, both included, when
/// both occur and the close comes after the open.
pub open spec fn span_spec(s: Seq<char>, open: char, close: char) -> Option<Seq<char>> {
    match (first_index_of(s, open), last_index_of(s, close)) {
        (Some(a), Some(b)) => if b > a {
            Some(s.subrange(a, b + 1))
        } else {
            None
        },
        _ => None,
    }
}

fn first_index(cs: &Vec<char>, c: char) -> (r: Option<usize>)
    ensures
        r matches Some(i) ==> i < cs@.len(),
        match r {
            Some(i) => first_index_of(cs@, c) == Some(i as int),
            None => first_index_of(cs@, c) is None,
        },
{
    let mut i: usize = 0;
    while i < cs.len()
        invariant
            i <= cs@.len(),
            forall|j: int| 0 <= j < i ==> cs@[j] != c,
        decreases cs@.len() - i,
    {
        if cs[i] == c {
            assert(0 <= i < cs@.len() && cs@[i as int] == c);
            let ghost k = choose|k: int| 0 <= k < cs@.len() && cs@[k] == c && forall|j: int| 0 <= j < k ==> cs@[j] != c;
            assert(k == i as int) by {
                if k < i {
                } else if k > i {
                    assert(cs@[i as int] != c);
                }
            }
            return Some(i);
        }
        i = i + 1;
    }
    None
}

fn last_index(cs: &Vec<char>, c: char) -> (r: Option<usize>)
    ensures
        r matches Some(i) ==> i < cs@.len(),
        match r {
            Some(i) => last_index_of(cs@, c) == Some(i as int),
            None => last_index_of(cs@, c) is None,
        },
{
    let mut i: usize = cs.len();
    while i > 0
        invariant
            i <= cs@.len(),
            forall|j: int| i <= j < cs@.len() ==> cs@[j] != c,
        decreases i,
    {
        if cs[i - 1] == c {
            let ghost k = choose|k: int| 0 <= k < cs@.len() && cs@[k] == c && forall|j: int| k < j < cs@.len() ==> cs@[j] != c;
            assert(k == i - 1) by {
                if k < i - 1 {
                    assert(cs@[i - 1] != c);
                }
            }
            return Some(i - 1);
        }
        i = i - 1;
    }
    None
}

fn span(text: &str, open: char, close: char) -> (r: Option<String>)
    ensures
        match r {
            Some(s) => span_spec(text@, open, close) == Some(s@),
            None => span_spec(text@, open, close) is None,
        },
{
    let cs = chars_of(text);
    let n = cs.len();
    match (first_index(&cs, open), last_index(&cs, close)) {
        (Some(a), Some(b)) => if b > a {
            Some(string_of_range(cs.as_slice(), a, b + 1))
        } else {
            None
        },
        _ => None,
    }
}

/// The JSON array in a model's answer: from the first `[` to the last `]`.
pub fn extract_json_array(text: &str) -> (r: Option<String>)
    ensures
        match r {
            Some(s) => span_spec(text@, '[', ']') == Some(s@),
            None => span_spec(text@, '[', ']') is None,
        },
{
    span(text, '[', ']')
}

/// The error when a model's answer holds no JSON object.
pub const NO_BOOK_JSON: &'static str = "模型没有返回书稿 JSON。";

/// The error when the model proposes no title.
pub const NO_BOOK_TITLE: &'static str = "模型没有给出书名。";

/// The JSON object in a model's answer: from the first `{` to the last
/// `}`, or an error when there is none.
pub fn json_object_span(text: &str) -> (r: Result<String, String>)
    ensures
        match r {
            Ok(s) => span_spec(text@, '{', '}') == Some(s@),
            Err(e) => span_spec(text@, '{', '}') is None && e@ == NO_BOOK_JSON@,
        },
{
    match span(text, '{', '}') {
        Some(s) => Ok(s),
        None => Err(String::from_str(NO_BOOK_JSON)),
    }
}

/// The first of `keys` that is a string field of `v`, trimmed; empty when
/// none is.
pub open spec fn pick_spec(v: JsonValue, keys: Seq<Seq<char>>) -> Seq<char>
    decreases keys.len(),
{
    if keys.len() == 0 {
        seq![]
    } else {
        match str_field_spec(v, keys[0]) {
            Some(s) => trim(s),
            None => pick_spec(v, keys.drop_first()),
        }
    }
}

fn pick(v: &JsonValue, keys: &Vec<&'static str>) -> (r: String)
    ensures
        r@ == pick_spec(*v, keys@.map_values(|k: &'static str| k@)),
{
    let ghost ks = keys@.map_values(|k: &'static str| k@);
    let mut i: usize = 0;
    assert(ks.skip(0) =~= ks);
    while i < keys.len()
        invariant
            i <= keys@.len(),
            ks == keys@.map_values(|k: &'static str| k@),
            pick_spec(*v, ks) == pick_spec(*v, ks.skip(i as int)),
        decreases keys@.len() - i,
    {
        assert(ks.skip(i as int)[0] == keys@[i as int]@);
        assert(ks.skip(i as int).drop_first() =~= ks.skip(i + 1));
        match str_field(v, keys[i]) {
            Some(s) => {
                return trim_text(s.as_str());
            },
            None => {},
        }
        i = i + 1;
    }
    assert(ks.skip(i as int) =~= Seq::<Seq<char>>::empty());
    String::new()
}

/// The keys the book title may come under.
pub open spec fn title_keys() -> Seq<Seq<char>> {
    seq!["title"@, "书名"@]
}

/// The keys the genre may come under.
pub open spec fn genre_keys() -> Seq<Seq<char>> {
    seq!["genre"@, "体裁"@, "载体"@]
}

/// The keys the style prompt may come under.
pub open spec fn style_keys() -> Seq<Seq<char>> {
    seq!["stylePrompt"@, "style_prompt"@, "文风"@, "文风提示"@]
}

/// The keys the description may come under.
pub open spec fn description_keys() -> Seq<Seq<char>> {
    seq!["description"@, "简介"@, "一句话简介"@]
}

/// Book metadata read from the model's JSON: each field under its English
/// or Chinese key, trimmed; an error when the title is empty.
pub fn book_meta_from_json(v: &JsonValue) -> (r: Result<BookMeta, String>)
    ensures
        match r {
            Ok(m) => {
                &&& m.title@ == pick_spec(*v, title_keys())
                &&& m.genre@ == pick_spec(*v, genre_keys())
                &&& m.style_prompt@ == pick_spec(*v, style_keys())
                &&& m.description@ == pick_spec(*v, description_keys())
                &&& m.title@.len() > 0
            },
            Err(e) => pick_spec(*v, title_keys()).len() == 0 && e@ == NO_BOOK_TITLE@,
        },
{
    let tk = vec!["title", "书名"];
    assert(tk@.map_values(|k: &'static str| k@) =~= title_keys());
    let gk = vec!["genre", "体裁", "载体"];
    assert(gk@.map_values(|k: &'static str| k@) =~= genre_keys());
    let sk = vec!["stylePrompt", "style_prompt", "文风", "文风提示"];
    assert(sk@.map_values(|k: &'static str| k@) =~= style_keys());
    let dk = vec!["description", "简介", "一句话简介"];
    assert(dk@.map_values(|k: &'static str| k@) =~= description_keys());
    let title = pick(v, &tk);
    let genre = pick(v, &gk);
    let style_prompt = pick(v, &sk);
    let description = pick(v, &dk);
    if title.as_str().unicode_len() == 0 {
        return Err(String::from_str(NO_BOOK_TITLE));
    }
    Ok(BookMeta { title, genre, style_prompt, description })
}

/// The memory a model's JSON item describes, unless its content is blank:
/// title (default `未命名记忆`), content, kind (default `plot`) and source
/// (default `历史章节` when missing or blank), in the given book; id and
/// times are left empty for saving to fill in.
pub open spec fn memory_from_item(item: JsonValue, project_id: Seq<char>) -> Option<(Seq<char>, Seq<char>, Seq<char>, Seq<char>)> {
    let content = match str_field_spec(item, "content"@) {
        Some(s) => s,
        None => seq![],
    };
    if is_blank(content) {
        None
    } else {
        let title = match str_field_spec(item, "title"@) {
            Some(s) => s,
            None => "未命名记忆"@,
        };
        let kind = match str_field_spec(item, "kind"@) {
            Some(s) => s,
            None => "plot"@,
        };
        let source = match str_field_spec(item, "source"@) {
            Some(s) => if !is_blank(s) {
                s
            } else {
                "历史章节"@
            },
            None => "历史章节"@,
        };
        Some((kind, title, content, source))
    }
}

/// The memories of a list of items, in order, blank ones skipped.
pub open spec fn memories_of(items: Seq<JsonValue>, project_id: Seq<char>) -> Seq<(Seq<char>, Seq<char>, Seq<char>, Seq<char>)>
    decreases items.len(),
{
    if items.len() == 0 {
        seq![]
    } else {
        let rest = memories_of(items.drop_last(), project_id);
        match memory_from_item(items.last(), project_id) {
            Some(m) => rest.push(m),
            None => rest,
        }
    }
}

/// A new memory's kind, title, content and source.
pub open spec fn memory_fields(m: Memory) -> (Seq<char>, Seq<char>, Seq<char>, Seq<char>) {
    (m.kind@, m.title@, m.content@, m.source@)
}

/// A memory not yet saved: no id, no times, in the given book.
pub open spec fn is_new_memory(m: Memory, project_id: Seq<char>) -> bool {
    m.id@.len() == 0 && m.created_at@.len() == 0 && m.updated_at@.len() == 0 && m.project_id@ == project_id
}

fn or_default(s: Option<String>, default: &str) -> (r: String)
    ensures
        r@ == match s {
            Some(t) => t@,
            None => default@,
        },
{
    match s {
        Some(t) => t,
        None => String::from_str(default),
    }
}

/// The memories to save from the model's JSON array, in order, items with
/// blank content skipped; `None` when the JSON is not an array.
pub fn memories_from_json(doc: &JsonValue, project_id: &String) -> (r: Option<Vec<Memory>>)
    ensures
        match r {
            Some(ms) => match *doc {
                JsonValue::Array(items) => {
                    &&& ms@.map_values(|m: Memory| memory_fields(m)) == memories_of(items@, project_id@)
                    &&& forall|i: int| 0 <= i < ms@.len() ==> is_new_memory(#[trigger] ms@[i], project_id@)
                },
                _ => false,
            },
            None => !(doc is Array),
        },
{
    let items = match doc {
        JsonValue::Array(items) => items,
        _ => {
            return None;
        },
    };
    let mut out: Vec<Memory> = Vec::new();
    let mut i: usize = 0;
    assert(items@.take(0) =~= Seq::<JsonValue>::empty());
    assert(out@.map_values(|m: Memory| memory_fields(m)) =~= Seq::<(Seq<char>, Seq<char>, Seq<char>, Seq<char>)>::empty());
    while i < items.len()
        invariant
            i <= items@.len(),
            out@.map_values(|m: Memory| memory_fields(m)) == memories_of(items@.take(i as int), project_id@),
            forall|j: int| 0 <= j < out@.len() ==> is_new_memory(#[trigger] out@[j], project_id@),
        decreases items@.len() - i,
    {
        let item = &items[i];
        assert(items@.take(i + 1).drop_last() =~= items@.take(i as int));
        let content = or_default(str_field(item, "content"), "");
        proof {
            reveal_strlit("");
        }
        if !blank(content.as_str()) {
            let title = or_default(str_field(item, "title"), "未命名记忆");
            let kind = or_default(str_field(item, "kind"), "plot");
            let source = match str_field(item, "source") {
                Some(s) => if !blank(s.as_str()) {
                    s
                } else {
                    String::from_str("历史章节")
                },
                None => String::from_str("历史章节"),
            };
            let m = Memory {
                id: String::new(),
                project_id: project_id.clone(),
                kind,
                title,
                content,
                source,
                created_at: String::new(),
                updated_at: String::new(),
            };
            assert(memory_from_item(*item, project_id@) == Some(memory_fields(m)));
            let ghost prev = out@;
            out.push(m);
            assert(out@.map_values(|m: Memory| memory_fields(m)) =~= prev.map_values(|m: Memory| memory_fields(m)).push(memory_fields(m)));
        } else {
            assert(memory_from_item(*item, project_id@) is None);
        }
        i = i + 1;
    }
    assert(items@.take(items@.len() as int) =~= items@);
    Some(out)
}

/// `v[key]`: the field, or null when there is none.
pub open spec fn at_key(v: JsonValue, key: Seq<char>) -> JsonValue {
    match field_spec(v, key) {
        Some(x) => x,
        None => JsonValue::Null,
    }
}

/// `v[0]`: the first element of an array, or null.
pub open spec fn at_first(v: JsonValue) -> JsonValue {
    match v {
        JsonValue::Array(a) => if a@.len() > 0 {
            a@[0]
        } else {
            JsonValue::Null
        },
        _ => JsonValue::Null,
    }
}

/// `v["choices"][0][part]`.
pub open spec fn choice_part(v: JsonValue, part: Seq<char>) -> JsonValue {
    at_key(at_first(at_key(v, "choices"@)), part)
}

fn first_elem(v: Option<&JsonValue>) -> (r: Option<&JsonValue>)
    ensures
        match r {
            Some(x) => at_first(match v {
                Some(y) => *y,
                None => JsonValue::Null,
            }) == *x,
            None => at_first(match v {
                Some(y) => *y,
                None => JsonValue::Null,
            }) == JsonValue::Null,
        },
{
    match v {
        Some(JsonValue::Array(a)) => if a.len() > 0 {
            Some(&a[0])
        } else {
            None
        },
        _ => None,
    }
}

fn choice<'a>(v: &'a JsonValue, part: &str) -> (r: Option<&'a JsonValue>)
    ensures
        match r {
            Some(x) => choice_part(*v, part@) == *x,
            None => choice_part(*v, part@) == JsonValue::Null,
        },
{
    let choices = field(v, "choices");
    match first_elem(choices) {
        Some(c) => field(c, part),
        None => None,
    }
}

/// The text a streamed chunk adds: `choices[0].delta.content`, when it is
/// a non-empty string.
pub open spec fn delta_spec(v: JsonValue) -> Option<Seq<char>> {
    match str_field_spec(choice_part(v, "delta"@), "content"@) {
        Some(s) => if s.len() > 0 {
            Some(s)
        } else {
            None
        },
        None => None,
    }
}

/// The text a streamed chunk adds.
pub fn delta_content(v: &JsonValue) -> (r: Option<String>)
    ensures
        match r {
            Some(s) => delta_spec(*v) == Some(s@),
            None => delta_spec(*v) is None,
        },
{
    let delta = choice(v, "delta");
    let content = match delta {
        Some(d) => str_field(d, "content"),
        None => None,
    };
    match content {
        Some(s) => if s.as_str().unicode_len() > 0 {
            Some(s)
        } else {
            None
        },
        None => None,
    }
}

/// The error when a model answers with nothing.
pub const NO_CONTENT: &'static str = "模型没有返回内容。";

/// The answer of a non-streamed completion: `choices[0].message.content`,
/// when it is a string that is not blank.
pub open spec fn completion_spec(v: JsonValue) -> Option<Seq<char>> {
    match str_field_spec(choice_part(v, "message"@), "content"@) {
        Some(s) => if !is_blank(s) {
            Some(s)
        } else {
            None
        },
        None => None,
    }
}

/// The answer of a non-streamed completion, or an error when there is none.
pub fn completion_text(v: &JsonValue) -> (r: Result<String, String>)
    ensures
        match r {
            Ok(s) => completion_spec(*v) == Some(s@),
            Err(e) => completion_spec(*v) is None && e@ == NO_CONTENT@,
        },
{
    let message = choice(v, "message");
    let content = match message {
        Some(m) => str_field(m, "content"),
        None => None,
    };
    match content {
        Some(s) => if !blank(s.as_str()) {
            Ok(s)
        } else {
            Err(String::from_str(NO_CONTENT))
        },
        None => Err(String::from_str(NO_CONTENT)),
    }
}

/// The string ids of the items of a list.
pub open spec fn ids_of(items: Seq<JsonValue>) -> Seq<Seq<char>>
    decreases items.len(),
{
    if items.len() == 0 {
        seq![]
    } else {
        match str_field_spec(items.last(), "id"@) {
            Some(s) => ids_of(items.drop_last()).push(s),
            None => ids_of(items.drop_last()),
        }
    }
}

/// The models a `/models` answer lists: the string `id` of each item of
/// its `data` array.
pub open spec fn model_ids_spec(v: JsonValue) -> Seq<Seq<char>> {
    match field_spec(v, "data"@) {
        Some(JsonValue::Array(items)) => ids_of(items@),
        _ => seq![],
    }
}

/// The models a `/models` answer lists.
pub fn model_ids(v: &JsonValue) -> (r: Vec<String>)
    ensures
        r.deep_view() == model_ids_spec(*v),
{
    let mut ids: Vec<String> = Vec::new();
    match field(v, "data") {
        Some(JsonValue::Array(items)) => {
            let mut i: usize = 0;
            assert(items@.take(0) =~= Seq::<JsonValue>::empty());
            while i < items.len()
                invariant
                    i <= items@.len(),
                    ids.deep_view() == ids_of(items@.take(i as int)),
                decreases items@.len() - i,
            {
                assert(items@.take(i + 1).drop_last() =~= items@.take(i as int));
                match str_field(&items[i], "id") {
                    Some(s) => {
                        let ghost prev = ids.deep_view();
                        ids.push(s);
                        assert(ids.deep_view() =~= prev.push(s@));
                    },
                    None => {},
                }
                i = i + 1;
            }
            assert(items@.take(items@.len() as int) =~= items@);
        },
        _ => {
            assert(ids.deep_view() =~= Seq::<Seq<char>>::empty());
        },
    }
    ids
}

/// Every field the metadata prompt asks for is read back: when the answer
/// has the field `title`, `genre`, `stylePrompt` or `description` as a
/// string, that field (trimmed) is what is read for it.
pub proof fn book_meta_reads_prompt_fields(v: JsonValue)
    ensures
        str_field_spec(v, "title"@) matches Some(x) ==> pick_spec(v, title_keys()) == trim(x),
        str_field_spec(v, "genre"@) matches Some(x) ==> pick_spec(v, genre_keys()) == trim(x),
        str_field_spec(v, "stylePrompt"@) matches Some(x) ==> pick_spec(v, style_keys()) == trim(x),
        str_field_spec(v, "description"@) matches Some(x) ==> pick_spec(v, description_keys()) == trim(x),
{
    assert(title_keys()[0] == "title"@);
    assert(genre_keys()[0] == "genre"@);
    assert(style_keys()[0] == "stylePrompt"@);
    assert(description_keys()[0] == "description"@);
}

} // verus!
