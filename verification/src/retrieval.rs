//! Lexical retrieval over a book's objects: Chinese 1/2/3-grams and
//! lower-cased Latin words, minus stop words.

use vstd::prelude::*;
use crate::models::{Chapter, Character, Entry, Memory, Outline, ProjectBundle};
use crate::text::{
    chars_contain, chars_eq, chars_of, clip_str, clip_text, is_white_space, occurs_in, push_char,
    push_text, string_of, trim, trim_chars, white_space,
};

verus! {

/// ASCII letters and digits (`char::is_ascii_alphanumeric`).
pub open spec fn is_ascii_alnum(c: char) -> bool {
    ||| ('0' <= c && c <= '9')
    ||| ('A' <= c && c <= 'Z')
    ||| ('a' <= c && c <= 'z')
}

/// ASCII lower-casing (`char::to_ascii_lowercase`).
pub open spec fn ascii_lower(c: char) -> char {
    if 'A' <= c && c <= 'Z' {
        ((c as u32) + 32) as char
    } else {
        c
    }
}

/// The punctuation that separates tokens.
pub open spec fn is_punct_char(c: char) -> bool {
    ||| c == '，' || c == '。' || c == '、' || c == '；' || c == '：' || c == '！' || c == '？'
    ||| c == '“' || c == '”' || c == '‘' || c == '’' || c == '（' || c == '）' || c == '《'
    ||| c == '》' || c == '—' || c == '…' || c == ',' || c == '.' || c == ';' || c == ':'
    ||| c == '!' || c == '?' || c == '"' || c == '\'' || c == '(' || c == ')' || c == '['
    ||| c == ']' || c == '{' || c == '}' || c == '-' || c == '/' || c == '\\'
}

/// Single-character stop words.
pub open spec fn is_stop_char(c: char) -> bool {
    ||| c == '的' || c == '了' || c == '是' || c == '在' || c == '我' || c == '有' || c == '和'
    ||| c == '就' || c == '不' || c == '人' || c == '都' || c == '一' || c == '上' || c == '也'
    ||| c == '很' || c == '到' || c == '说' || c == '要' || c == '去' || c == '你' || c == '会'
    ||| c == '着' || c == '看' || c == '好' || c == '这' || c == '那' || c == '他' || c == '她'
    ||| c == '它' || c == '们' || c == '与' || c == '及' || c == '或' || c == '并' || c == '把'
    ||| c == '被' || c == '让' || c == '给' || c == '从' || c == '向' || c == '对' || c == '为'
    ||| c == '以' || c == '而' || c == '则' || c == '又' || c == '还' || c == '已' || c == '将'
    ||| c == '能' || c == '可' || c == '却' || c == '只' || c == '再' || c == '更' || c == '最'
    ||| c == 'a'
}

/// Two-character stop words.
pub open spec fn is_stop_pair(a: char, b: char) -> bool {
    ||| (a == '因' && b == '为') || (a == '所' && b == '以') || (a == '但' && b == '是')
    ||| (a == '如' && b == '果') || (a == '然' && b == '后') || (a == '而' && b == '且')
    ||| (a == '一' && b == '个') || (a == '没' && b == '有') || (a == '自' && b == '己')
    ||| (a == '什' && b == '么') || (a == '怎' && b == '么') || (a == '这' && b == '个')
    ||| (a == '那' && b == '个') || (a == 'a' && b == 'n') || (a == 'o' && b == 'f')
    ||| (a == 't' && b == 'o') || (a == 'i' && b == 'n') || (a == 'o' && b == 'n')
    ||| (a == 'o' && b == 'r') || (a == 'i' && b == 's')
}

/// Three-character stop words.
pub open spec fn is_stop_triple(a: char, b: char, c: char) -> bool {
    ||| (a == 't' && b == 'h' && c == 'e')
    ||| (a == 'a' && b == 'n' && c == 'd')
    ||| (a == 'a' && b == 'r' && c == 'e')
}

/// The stop-word list.
pub open spec fn is_stop_word(t: Seq<char>) -> bool {
    ||| t.len() == 1 && is_stop_char(t[0])
    ||| t.len() == 2 && is_stop_pair(t[0], t[1])
    ||| t.len() == 3 && is_stop_triple(t[0], t[1], t[2])
}

/// A character that may stand in a 2- or 3-gram: not ASCII, not white
/// space, not punctuation.
pub open spec fn is_gram_char(c: char) -> bool {
    &&& !(c <= '\u{7f}')
    &&& !is_white_space(c)
    &&& !is_punct_char(c)
}

/// Adds a finished Latin word to the tokens if it has at least two letters
/// and is no stop word.
pub open spec fn flush_word(tokens: Seq<Seq<char>>, word: Seq<char>) -> Seq<Seq<char>> {
    if word.len() >= 2 && !is_stop_word(word) {
        tokens.push(word)
    } else {
        tokens
    }
}

/// The tokens that the character at `i` starts: itself unless it is a stop
/// word, the 2-gram from `i` unless it is a stop word, and the 3-gram from
/// `i`, each n-gram only where all its characters are gram characters.
pub open spec fn grams_at(cs: Seq<char>, i: int) -> Seq<Seq<char>> {
    let one = seq![cs[i]];
    let two = cs.subrange(i, i + 2);
    let three = cs.subrange(i, i + 3);
    let a: Seq<Seq<char>> = if !is_stop_word(one) { seq![one] } else { seq![] };
    let b: Seq<Seq<char>> = if i + 1 < cs.len() && is_gram_char(cs[i]) && is_gram_char(cs[i + 1])
        && !is_stop_word(two) {
        seq![two]
    } else {
        seq![]
    };
    let c: Seq<Seq<char>> = if i + 2 < cs.len() && is_gram_char(cs[i]) && is_gram_char(cs[i + 1])
        && is_gram_char(cs[i + 2]) {
        seq![three]
    } else {
        seq![]
    };
    a + b + c
}

/// The tokens found in the first `k` characters, and the Latin word still
/// being read at that point.
pub open spec fn scan(cs: Seq<char>, k: int) -> (Seq<Seq<char>>, Seq<char>)
    decreases k,
{
    if k <= 0 {
        (seq![], seq![])
    } else {
        let (tokens, word) = scan(cs, k - 1);
        let c = cs[k - 1];
        if is_ascii_alnum(c) {
            (tokens, word.push(ascii_lower(c)))
        } else if is_white_space(c) || is_punct_char(c) {
            (flush_word(tokens, word), seq![])
        } else {
            (flush_word(tokens, word) + grams_at(cs, k - 1), seq![])
        }
    }
}

/// The tokens of a text.
pub open spec fn tokens_of(cs: Seq<char>) -> Seq<Seq<char>> {
    let (tokens, word) = scan(cs, cs.len() as int);
    flush_word(tokens, word)
}

fn ascii_alnum(c: char) -> (r: bool)
    ensures
        r == is_ascii_alnum(c),
{
    ('0' <= c && c <= '9') || ('A' <= c && c <= 'Z') || ('a' <= c && c <= 'z')
}

fn to_lower(c: char) -> (r: char)
    ensures
        r == ascii_lower(c),
{
    if 'A' <= c && c <= 'Z' {
        ((c as u8) + 32) as char
    } else {
        c
    }
}

/// Whether `c` separates tokens as punctuation.
pub fn is_punct(c: char) -> (r: bool)
    ensures
        r == is_punct_char(c),
{
    c == '，' || c == '。' || c == '、' || c == '；' || c == '：' || c == '！' || c == '？' || c == '“'
        || c == '”' || c == '‘' || c == '’' || c == '（' || c == '）' || c == '《' || c == '》' || c
        == '—' || c == '…' || c == ',' || c == '.' || c == ';' || c == ':' || c == '!' || c == '?'
        || c == '"' || c == '\'' || c == '(' || c == ')' || c == '[' || c == ']' || c == '{' || c
        == '}' || c == '-' || c == '/' || c == '\\'
}

fn stop_char(c: char) -> (r: bool)
    ensures
        r == is_stop_char(c),
{
    c == '的' || c == '了' || c == '是' || c == '在' || c == '我' || c == '有' || c == '和' || c == '就'
        || c == '不' || c == '人' || c == '都' || c == '一' || c == '上' || c == '也' || c == '很' || c
        == '到' || c == '说' || c == '要' || c == '去' || c == '你' || c == '会' || c == '着' || c == '看'
        || c == '好' || c == '这' || c == '那' || c == '他' || c == '她' || c == '它' || c == '们' || c
        == '与' || c == '及' || c == '或' || c == '并' || c == '把' || c == '被' || c == '让' || c == '给'
        || c == '从' || c == '向' || c == '对' || c == '为' || c == '以' || c == '而' || c == '则' || c
        == '又' || c == '还' || c == '已' || c == '将' || c == '能' || c == '可' || c == '却' || c == '只'
        || c == '再' || c == '更' || c == '最' || c == 'a'
}

fn stop_pair(a: char, b: char) -> (r: bool)
    ensures
        r == is_stop_pair(a, b),
{
    (a == '因' && b == '为') || (a == '所' && b == '以') || (a == '但' && b == '是') || (a == '如' && b
        == '果') || (a == '然' && b == '后') || (a == '而' && b == '且') || (a == '一' && b == '个') || (a
        == '没' && b == '有') || (a == '自' && b == '己') || (a == '什' && b == '么') || (a == '怎' && b
        == '么') || (a == '这' && b == '个') || (a == '那' && b == '个') || (a == 'a' && b == 'n') || (a
        == 'o' && b == 'f') || (a == 't' && b == 'o') || (a == 'i' && b == 'n') || (a == 'o' && b
        == 'n') || (a == 'o' && b == 'r') || (a == 'i' && b == 's')
}

/// Whether `token` is a stop word.
pub fn is_stop(token: &[char]) -> (r: bool)
    ensures
        r == is_stop_word(token@),
{
    if token.len() == 1 {
        stop_char(token[0])
    } else if token.len() == 2 {
        stop_pair(token[0], token[1])
    } else if token.len() == 3 {
        let (a, b, c) = (token[0], token[1], token[2]);
        (a == 't' && b == 'h' && c == 'e') || (a == 'a' && b == 'n' && c == 'd') || (a == 'a' && b
            == 'r' && c == 'e')
    } else {
        false
    }
}

fn gram_char(c: char) -> (r: bool)
    ensures
        r == is_gram_char(c),
{
    !(c <= '\u{7f}') && !white_space(c) && !is_punct(c)
}

/// Ends the Latin word being read: adds it to `tokens` where it counts as a
/// token, and empties it.
pub fn flush_latin(latin: &mut Vec<char>, tokens: &mut Vec<Vec<char>>)
    ensures
        final(tokens).deep_view() == flush_word(old(tokens).deep_view(), old(latin)@),
        final(latin)@.len() == 0,
{
    if latin.len() >= 2 && !is_stop(latin.as_slice()) {
        let word = latin.clone();
        assert(word.deep_view() =~= word@);
        tokens.push(word);
        assert(tokens.deep_view() =~= old(tokens).deep_view().push(old(latin)@));
    }
    latin.clear();
}

fn push_token(tokens: &mut Vec<Vec<char>>, t: Vec<char>)
    ensures
        final(tokens).deep_view() == old(tokens).deep_view().push(t@),
{
    assert(t.deep_view() =~= t@);
    tokens.push(t);
    assert(tokens.deep_view() =~= old(tokens).deep_view().push(t@));
}

fn push_grams(cs: &[char], i: usize, tokens: &mut Vec<Vec<char>>)
    requires
        i < cs@.len(),
    ensures
        final(tokens).deep_view() == old(tokens).deep_view() + grams_at(cs@, i as int),
{
    let ghost base = old(tokens).deep_view();
    let n = cs.len();
    let one = vec![cs[i]];
    assert(one@ =~= seq![cs@[i as int]]);
    let ghost a: Seq<Seq<char>> = if !is_stop_word(one@) { seq![one@] } else { seq![] };
    if !is_stop(one.as_slice()) {
        push_token(tokens, one);
    }
    assert(tokens.deep_view() =~= base + a);
    let ghost b: Seq<Seq<char>> = if i + 1 < n && is_gram_char(cs@[i as int]) && is_gram_char(
        cs@[i + 1],
    ) && !is_stop_word(cs@.subrange(i as int, i + 2)) {
        seq![cs@.subrange(i as int, i + 2)]
    } else {
        seq![]
    };
    if n - i > 1 && gram_char(cs[i]) && gram_char(cs[i + 1]) {
        let two = vec![cs[i], cs[i + 1]];
        assert(two@ =~= cs@.subrange(i as int, i + 2));
        if !is_stop(two.as_slice()) {
            push_token(tokens, two);
        }
    }
    assert(tokens.deep_view() =~= base + a + b);
    let ghost c: Seq<Seq<char>> = if i + 2 < n && is_gram_char(cs@[i as int]) && is_gram_char(
        cs@[i + 1],
    ) && is_gram_char(cs@[i + 2]) {
        seq![cs@.subrange(i as int, i + 3)]
    } else {
        seq![]
    };
    if n - i > 2 && gram_char(cs[i]) && gram_char(cs[i + 1]) && gram_char(cs[i + 2]) {
        let three = vec![cs[i], cs[i + 1], cs[i + 2]];
        assert(three@ =~= cs@.subrange(i as int, i + 3));
        push_token(tokens, three);
    }
    assert(tokens.deep_view() =~= base + a + b + c);
}

/// The tokens of the characters `cs`.
pub fn tokenize_chars(cs: &[char]) -> (r: Vec<Vec<char>>)
    ensures
        r.deep_view() == tokens_of(cs@),
{
    let mut tokens: Vec<Vec<char>> = Vec::new();
    let mut latin: Vec<char> = Vec::new();
    let n = cs.len();
    let mut i: usize = 0;
    assert(tokens.deep_view() =~= seq![]);
    assert(latin@ =~= seq![]);
    while i < n
        invariant
            i <= n == cs@.len(),
            (tokens.deep_view(), latin@) == scan(cs@, i as int),
        decreases n - i,
    {
        let c = cs[i];
        if ascii_alnum(c) {
            latin.push(to_lower(c));
        } else {
            flush_latin(&mut latin, &mut tokens);
            assert(latin@ =~= seq![]);
            if !(white_space(c) || is_punct(c)) {
                push_grams(cs, i, &mut tokens);
            }
        }
        i = i + 1;
    }
    flush_latin(&mut latin, &mut tokens);
    tokens
}

/// Splits a text into retrieval tokens: each run of ASCII letters and
/// digits becomes one lower-cased word (kept if it has two or more
/// characters and is no stop word); every other character that is neither
/// white space nor punctuation yields itself, and the 2- and 3-grams it
/// starts, as `grams_at` says.
pub fn tokenize(text: &str) -> (r: Vec<String>)
    ensures
        r.deep_view() == tokens_of(text@),
{
    let cs = chars_of(text);
    let toks = tokenize_chars(cs.as_slice());
    let mut r: Vec<String> = Vec::new();
    let mut i: usize = 0;
    while i < toks.len()
        invariant
            i <= toks@.len(),
            toks.deep_view() == tokens_of(text@),
            cs@ == text@,
            r.deep_view() == toks.deep_view().take(i as int),
        decreases toks@.len() - i,
    {
        let s = string_of(toks[i].as_slice());
        assert(toks[i as int].deep_view() =~= toks[i as int]@);
        let ghost prev = r.deep_view();
        r.push(s);
        assert(r.deep_view() =~= prev.push(s@));
        i = i + 1;
        assert(r.deep_view() =~= toks.deep_view().take(i as int));
    }
    assert(toks.deep_view().take(toks@.len() as int) =~= toks.deep_view());
    r
}

/// The characters that separate a character's aliases.
pub open spec fn is_alias_sep(c: char) -> bool {
    c == ',' || c == '，' || c == ';' || c == '；' || c == '、' || c == ' '
}

/// The pieces of `s` between alias separators, empty pieces included
/// (`str::split`).
pub open spec fn split_aliases(s: Seq<char>) -> Seq<Seq<char>>
    decreases s.len(),
{
    if s.len() == 0 {
        seq![seq![]]
    } else {
        let p = split_aliases(s.drop_last());
        if is_alias_sep(s.last()) {
            p.push(seq![])
        } else {
            p.update(p.len() - 1, p.last().push(s.last()))
        }
    }
}

/// An alias piece that, once trimmed, is non-empty and occurs in `query`.
pub open spec fn alias_hit(piece: Seq<char>, query: Seq<char>) -> bool {
    trim(piece).len() > 0 && occurs_in(query, trim(piece))
}

/// Some alias in `aliases` occurs in `query`.
pub open spec fn aliases_hit(aliases: Seq<char>, query: Seq<char>) -> bool {
    exists|k: int| 0 <= k < split_aliases(aliases).len() && alias_hit(#[trigger] split_aliases(aliases)[k], query)
}

/// `query` names character `c`: by its name or by one of its aliases.
pub open spec fn names_character(c: Character, query: Seq<char>) -> bool {
    occurs_in(query, c.name@) || aliases_hit(c.aliases@, query)
}

/// The ids of the characters that `query` names, in order.
pub open spec fn named_character_ids(cs: Seq<Character>, query: Seq<char>) -> Seq<Seq<char>>
    decreases cs.len(),
{
    if cs.len() == 0 {
        seq![]
    } else if names_character(cs.last(), query) {
        named_character_ids(cs.drop_last(), query).push(cs.last().id@)
    } else {
        named_character_ids(cs.drop_last(), query)
    }
}

/// The ids of the entries whose title occurs in `query`, in order.
pub open spec fn named_entry_ids(es: Seq<Entry>, query: Seq<char>) -> Seq<Seq<char>>
    decreases es.len(),
{
    if es.len() == 0 {
        seq![]
    } else if occurs_in(query, es.last().title@) {
        named_entry_ids(es.drop_last(), query).push(es.last().id@)
    } else {
        named_entry_ids(es.drop_last(), query)
    }
}

/// The ids that `query` names: characters, then entries.
pub open spec fn boost_ids(bundle: ProjectBundle, query: Seq<char>) -> Seq<Seq<char>> {
    named_character_ids(bundle.characters@, query) + named_entry_ids(bundle.entries@, query)
}

fn alias_sep(c: char) -> (r: bool)
    ensures
        r == is_alias_sep(c),
{
    c == ',' || c == '，' || c == ';' || c == '；' || c == '、' || c == ' '
}

fn piece_hits(piece: &Vec<char>, query: &[char]) -> (r: bool)
    ensures
        r == alias_hit(piece@, query@),
{
    let t = trim_chars(piece.as_slice());
    t.len() > 0 && chars_contain(query, t.as_slice())
}

/// Whether some alias in `aliases` occurs in `query`.
pub fn aliases_named(aliases: &str, query: &[char]) -> (r: bool)
    ensures
        r == aliases_hit(aliases@, query@),
{
    let al = chars_of(aliases);
    let mut piece: Vec<char> = Vec::new();
    let mut found = false;
    let mut i: usize = 0;
    assert(al@.take(0) =~= Seq::<char>::empty());
    while i < al.len()
        invariant
            i <= al@.len(),
            al@ == aliases@,
            split_aliases(al@.take(i as int)).len() >= 1,
            piece@ == split_aliases(al@.take(i as int)).last(),
            found == exists|k: int|
                0 <= k < split_aliases(al@.take(i as int)).len() - 1 && alias_hit(
                    #[trigger] split_aliases(al@.take(i as int))[k],
                    query@,
                ),
        decreases al@.len() - i,
    {
        let ghost p = split_aliases(al@.take(i as int));
        assert(al@.take(i + 1).drop_last() =~= al@.take(i as int));
        let c = al[i];
        if alias_sep(c) {
            let hit = piece_hits(&piece, query);
            let ghost q = p.push(seq![]);
            assert(split_aliases(al@.take(i + 1)) == q);
            proof {
            assert forall|k: int| 0 <= k < p.len() implies q[k] == p[k] by {}
            if hit {
                assert(q[p.len() - 1] == p.last());
                assert(alias_hit(q[p.len() - 1], query@));
            }
            if found {
                let k = choose|k: int| 0 <= k < p.len() - 1 && alias_hit(#[trigger] p[k], query@);
                assert(alias_hit(q[k], query@));
            }
            if exists|k: int| 0 <= k < q.len() - 1 && alias_hit(#[trigger] q[k], query@) {
                let k = choose|k: int| 0 <= k < q.len() - 1 && alias_hit(#[trigger] q[k], query@);
                assert(q[k] == p[k]);
                if k < p.len() - 1 {
                    assert(found);
                } else {
                    assert(hit);
                }
            }
            }
            found = found || hit;
            piece = Vec::new();
            assert(piece@ =~= q.last());
        } else {
            piece.push(c);
            let ghost q = p.update(p.len() - 1, p.last().push(c));
            assert(split_aliases(al@.take(i + 1)) == q);
            assert forall|k: int| 0 <= k < q.len() - 1 implies q[k] == p[k] by {}
        }
        i = i + 1;
    }
    assert(al@.take(al@.len() as int) =~= al@);
    let last_hit = piece_hits(&piece, query);
    let ghost p = split_aliases(al@);
    assert(found || last_hit <==> aliases_hit(aliases@, query@)) by {
        if last_hit {
            assert(alias_hit(p[p.len() - 1], query@));
        }
    }
    found || last_hit
}

/// Whether `query` names the character `c`.
pub fn names(c: &Character, query: &[char]) -> (r: bool)
    ensures
        r == names_character(*c, query@),
{
    let name = chars_of(c.name.as_str());
    if chars_contain(query, name.as_slice()) {
        return true;
    }
    aliases_named(c.aliases.as_str(), query)
}

/// The ids that `query` names: every character whose name or one of whose
/// aliases occurs in it, then every entry whose title does.
pub fn name_boosts(bundle: &ProjectBundle, query: &str) -> (r: Vec<String>)
    ensures
        r.deep_view() == boost_ids(*bundle, query@),
{
    let q = chars_of(query);
    let mut ids: Vec<String> = Vec::new();
    let mut i: usize = 0;
    assert(bundle.characters@.take(0) =~= Seq::<Character>::empty());
    while i < bundle.characters.len()
        invariant
            i <= bundle.characters@.len(),
            q@ == query@,
            ids.deep_view() == named_character_ids(bundle.characters@.take(i as int), query@),
        decreases bundle.characters@.len() - i,
    {
        let c = &bundle.characters[i];
        assert(bundle.characters@.take(i + 1).drop_last() =~= bundle.characters@.take(i as int));
        if names(c, q.as_slice()) {
            let ghost prev = ids.deep_view();
            ids.push(c.id.clone());
            assert(ids.deep_view() =~= prev.push(c.id@));
        }
        i = i + 1;
    }
    assert(bundle.characters@.take(bundle.characters@.len() as int) =~= bundle.characters@);
    let ghost chars_part = ids.deep_view();
    let mut j: usize = 0;
    assert(bundle.entries@.take(0) =~= Seq::<Entry>::empty());
    assert(chars_part + named_entry_ids(bundle.entries@.take(0), query@) =~= chars_part);
    while j < bundle.entries.len()
        invariant
            j <= bundle.entries@.len(),
            q@ == query@,
            ids.deep_view() == chars_part + named_entry_ids(bundle.entries@.take(j as int), query@),
        decreases bundle.entries@.len() - j,
    {
        let e = &bundle.entries[j];
        assert(bundle.entries@.take(j + 1).drop_last() =~= bundle.entries@.take(j as int));
        let title = chars_of(e.title.as_str());
        if chars_contain(q.as_slice(), title.as_slice()) {
            let ghost prev = ids.deep_view();
            ids.push(e.id.clone());
            assert(ids.deep_view() =~= prev.push(e.id@));
        }
        j = j + 1;
    }
    assert(bundle.entries@.take(bundle.entries@.len() as int) =~= bundle.entries@);
    ids
}

/// Trims `text` and cuts it to at most `max_chars` characters, marking a
/// cut with `…`.
pub fn clip(text: &str, max_chars: usize) -> (r: String)
    ensures
        r@ == clip_text(text@, max_chars as nat),
{
    clip_str(text, max_chars)
}

/// A searchable object: its kind, id, display title and text.
#[derive(Debug)]
pub struct SearchDoc {
    pub kind: String,
    pub id: String,
    pub title: String,
    pub text: String,
}

/// A document's kind, id, title and text as character sequences.
pub type DocView = (Seq<char>, Seq<char>, Seq<char>, Seq<char>);

/// The view of a search document.
pub open spec fn doc_view(d: SearchDoc) -> DocView {
    (d.kind@, d.id@, d.title@, d.text@)
}

/// A line break.
pub open spec fn nl() -> Seq<char> {
    seq!['\n']
}

/// The search document of a character: all of its card, one field a line.
pub open spec fn character_doc(c: Character) -> DocView {
    (
        "character"@,
        c.id@,
        "角色 · "@ + c.name@,
        c.name@ + nl() + c.aliases@ + nl() + c.role@ + nl() + c.personality@ + nl() + c.appearance@
            + nl() + c.background@ + nl() + c.goals@ + nl() + c.relationships@ + nl()
            + c.current_state@ + nl() + c.notes@,
    )
}

/// The search document of an entry.
pub open spec fn entry_doc(e: Entry) -> DocView {
    ("entry"@, e.id@, "条目 · "@ + e.title@, e.category@ + nl() + e.tags@ + nl() + e.content@)
}

/// The search document of an outline node.
pub open spec fn outline_doc(o: Outline) -> DocView {
    ("outline"@, o.id@, "大纲 · "@ + o.title@, o.content@)
}

/// The search document of a chapter: summary, then text.
pub open spec fn chapter_doc(c: Chapter) -> DocView {
    ("chapter"@, c.id@, "章节 · "@ + c.title@, c.summary@ + nl() + c.content@)
}

/// The search document of a memory.
pub open spec fn memory_doc(m: Memory) -> DocView {
    ("memory"@, m.id@, "记忆 · "@ + m.title@, m.kind@ + nl() + m.content@)
}

/// The views of a sequence of search documents.
pub open spec fn doc_views(s: Seq<SearchDoc>) -> Seq<DocView> {
    s.map_values(|d: SearchDoc| doc_view(d))
}

pub open spec fn character_docs(s: Seq<Character>) -> Seq<DocView> {
    s.map_values(|c: Character| character_doc(c))
}

pub open spec fn entry_docs(s: Seq<Entry>) -> Seq<DocView> {
    s.map_values(|e: Entry| entry_doc(e))
}

pub open spec fn outline_docs(s: Seq<Outline>) -> Seq<DocView> {
    s.map_values(|o: Outline| outline_doc(o))
}

pub open spec fn chapter_docs(s: Seq<Chapter>) -> Seq<DocView> {
    s.map_values(|c: Chapter| chapter_doc(c))
}

pub open spec fn memory_docs(s: Seq<Memory>) -> Seq<DocView> {
    s.map_values(|m: Memory| memory_doc(m))
}

/// All search documents of a book: characters, entries, outlines,
/// chapters, memories.
pub open spec fn docs_of(b: ProjectBundle) -> Seq<DocView> {
    character_docs(b.characters@) + entry_docs(b.entries@) + outline_docs(b.outlines@)
        + chapter_docs(b.chapters@) + memory_docs(b.memories@)
}

proof fn lemma_map_push<A, B>(s: Seq<A>, x: A, f: spec_fn(A) -> B)
    ensures
        s.push(x).map_values(f) == s.map_values(f).push(f(x)),
{
    assert(s.push(x).map_values(f) =~= s.map_values(f).push(f(x)));
}

proof fn lemma_take_push<A>(s: Seq<A>, i: int)
    requires
        0 <= i < s.len(),
    ensures
        s.take(i + 1) == s.take(i).push(s[i]),
{
    assert(s.take(i + 1) =~= s.take(i).push(s[i]));
}

fn new_doc(kind: &str, id: &String, title_prefix: &str, title: &String, text: String) -> (r: SearchDoc)
    ensures
        doc_view(r) == (kind@, id@, title_prefix@ + title@, text@),
{
    let mut t = String::from_str(title_prefix);
    push_text(&mut t, title.as_str());
    SearchDoc { kind: String::from_str(kind), id: id.clone(), title: t, text }
}

fn push_line(s: &mut String, t: &String)
    ensures
        final(s)@ == old(s)@ + nl() + t@,
{
    push_char(s, '\n');
    push_text(s, t.as_str());
    assert(final(s)@ =~= old(s)@ + nl() + t@);
}

fn character_search_doc(c: &Character) -> (r: SearchDoc)
    ensures
        doc_view(r) == character_doc(*c),
{
    let mut text = c.name.clone();
    push_line(&mut text, &c.aliases);
    push_line(&mut text, &c.role);
    push_line(&mut text, &c.personality);
    push_line(&mut text, &c.appearance);
    push_line(&mut text, &c.background);
    push_line(&mut text, &c.goals);
    push_line(&mut text, &c.relationships);
    push_line(&mut text, &c.current_state);
    push_line(&mut text, &c.notes);
    new_doc("character", &c.id, "角色 · ", &c.name, text)
}

fn entry_search_doc(e: &Entry) -> (r: SearchDoc)
    ensures
        doc_view(r) == entry_doc(*e),
{
    let mut text = e.category.clone();
    push_line(&mut text, &e.tags);
    push_line(&mut text, &e.content);
    new_doc("entry", &e.id, "条目 · ", &e.title, text)
}

fn outline_search_doc(o: &Outline) -> (r: SearchDoc)
    ensures
        doc_view(r) == outline_doc(*o),
{
    new_doc("outline", &o.id, "大纲 · ", &o.title, o.content.clone())
}

fn chapter_search_doc(c: &Chapter) -> (r: SearchDoc)
    ensures
        doc_view(r) == chapter_doc(*c),
{
    let mut text = c.summary.clone();
    push_line(&mut text, &c.content);
    new_doc("chapter", &c.id, "章节 · ", &c.title, text)
}

fn memory_search_doc(m: &Memory) -> (r: SearchDoc)
    ensures
        doc_view(r) == memory_doc(*m),
{
    let mut text = m.kind.clone();
    push_line(&mut text, &m.content);
    new_doc("memory", &m.id, "记忆 · ", &m.title, text)
}

/// The search documents of a book, in the order characters, entries,
/// outlines, chapters, memories.
pub fn search_docs(bundle: &ProjectBundle) -> (r: Vec<SearchDoc>)
    ensures
        doc_views(r@) == docs_of(*bundle),
{
    let mut docs: Vec<SearchDoc> = Vec::new();
    let mut i: usize = 0;
    while i < bundle.characters.len()
        invariant
            i <= bundle.characters@.len(),
            doc_views(docs@) == character_docs(bundle.characters@.take(i as int)),
        decreases bundle.characters@.len() - i,
    {
        let d = character_search_doc(&bundle.characters[i]);
        proof {
            lemma_map_push(docs@, d, |d: SearchDoc| doc_view(d));
            lemma_take_push(bundle.characters@, i as int);
            lemma_map_push(bundle.characters@.take(i as int), bundle.characters@[i as int], |x: Character| character_doc(x));
        }
        docs.push(d);
        i = i + 1;
        assert(doc_views(docs@) =~= character_docs(bundle.characters@.take(i as int)));
    }
    assert(bundle.characters@.take(i as int) =~= bundle.characters@);
    let ghost p1 = doc_views(docs@);
    let mut i: usize = 0;
    assert(p1 + bundle.entries@.take(0).map_values(|e: Entry| entry_doc(e)) =~= p1);
    while i < bundle.entries.len()
        invariant
            i <= bundle.entries@.len(),
            doc_views(docs@) == p1 + entry_docs(bundle.entries@.take(i as int)),
        decreases bundle.entries@.len() - i,
    {
        let d = entry_search_doc(&bundle.entries[i]);
        proof {
            lemma_map_push(docs@, d, |d: SearchDoc| doc_view(d));
            lemma_take_push(bundle.entries@, i as int);
            lemma_map_push(bundle.entries@.take(i as int), bundle.entries@[i as int], |x: Entry| entry_doc(x));
        }
        docs.push(d);
        i = i + 1;
        assert(doc_views(docs@) =~= p1 + entry_docs(bundle.entries@.take(i as int)));
    }
    assert(bundle.entries@.take(i as int) =~= bundle.entries@);
    let ghost p2 = doc_views(docs@);
    let mut i: usize = 0;
    assert(p2 + bundle.outlines@.take(0).map_values(|o: Outline| outline_doc(o)) =~= p2);
    while i < bundle.outlines.len()
        invariant
            i <= bundle.outlines@.len(),
            doc_views(docs@) == p2 + outline_docs(bundle.outlines@.take(i as int)),
        decreases bundle.outlines@.len() - i,
    {
        let d = outline_search_doc(&bundle.outlines[i]);
        proof {
            lemma_map_push(docs@, d, |d: SearchDoc| doc_view(d));
            lemma_take_push(bundle.outlines@, i as int);
            lemma_map_push(bundle.outlines@.take(i as int), bundle.outlines@[i as int], |x: Outline| outline_doc(x));
        }
        docs.push(d);
        i = i + 1;
        assert(doc_views(docs@) =~= p2 + outline_docs(bundle.outlines@.take(i as int)));
    }
    assert(bundle.outlines@.take(i as int) =~= bundle.outlines@);
    let ghost p3 = doc_views(docs@);
    let mut i: usize = 0;
    assert(p3 + bundle.chapters@.take(0).map_values(|c: Chapter| chapter_doc(c)) =~= p3);
    while i < bundle.chapters.len()
        invariant
            i <= bundle.chapters@.len(),
            doc_views(docs@) == p3 + chapter_docs(bundle.chapters@.take(i as int)),
        decreases bundle.chapters@.len() - i,
    {
        let d = chapter_search_doc(&bundle.chapters[i]);
        proof {
            lemma_map_push(docs@, d, |d: SearchDoc| doc_view(d));
            lemma_take_push(bundle.chapters@, i as int);
            lemma_map_push(bundle.chapters@.take(i as int), bundle.chapters@[i as int], |x: Chapter| chapter_doc(x));
        }
        docs.push(d);
        i = i + 1;
        assert(doc_views(docs@) =~= p3 + chapter_docs(bundle.chapters@.take(i as int)));
    }
    assert(bundle.chapters@.take(i as int) =~= bundle.chapters@);
    let ghost p4 = doc_views(docs@);
    let mut i: usize = 0;
    assert(p4 + bundle.memories@.take(0).map_values(|m: Memory| memory_doc(m)) =~= p4);
    while i < bundle.memories.len()
        invariant
            i <= bundle.memories@.len(),
            doc_views(docs@) == p4 + memory_docs(bundle.memories@.take(i as int)),
        decreases bundle.memories@.len() - i,
    {
        let d = memory_search_doc(&bundle.memories[i]);
        proof {
            lemma_map_push(docs@, d, |d: SearchDoc| doc_view(d));
            lemma_take_push(bundle.memories@, i as int);
            lemma_map_push(bundle.memories@.take(i as int), bundle.memories@[i as int], |x: Memory| memory_doc(x));
        }
        docs.push(d);
        i = i + 1;
        assert(doc_views(docs@) =~= p4 + memory_docs(bundle.memories@.take(i as int)));
    }
    assert(bundle.memories@.take(i as int) =~= bundle.memories@);
    docs
}

/// How many times `x` occurs in `s`.
pub open spec fn count_in(s: Seq<Seq<char>>, x: Seq<char>) -> nat
    decreases s.len(),
{
    if s.len() == 0 {
        0
    } else {
        count_in(s.drop_last(), x) + if s.last() == x { 1nat } else { 0nat }
    }
}

/// The tokens a document is scored on: its title twice, then its text.
pub open spec fn doc_tokens(d: DocView) -> Seq<Seq<char>> {
    tokens_of(d.2 + seq![' '] + d.2 + seq![' '] + d.3)
}

/// What scoring needs to know of one document: its identity and snippet
/// (the text clipped to 280 characters), how often each query token occurs
/// among its tokens, how many tokens it has, and how often the query names
/// it.
#[derive(Debug)]
pub struct SearchCandidate {
    pub kind: String,
    pub id: String,
    pub title: String,
    pub snippet: String,
    pub term_counts: Vec<usize>,
    pub token_count: usize,
    pub boosts: usize,
}

/// `c` is the candidate for document `d` under query tokens `q` and the
/// named ids `named`.
pub open spec fn is_candidate_of(
    c: SearchCandidate,
    d: DocView,
    q: Seq<Seq<char>>,
    named: Seq<Seq<char>>,
) -> bool {
    &&& c.kind@ == d.0
    &&& c.id@ == d.1
    &&& c.title@ == d.2
    &&& c.snippet@ == clip_text(d.3, 280)
    &&& c.token_count == doc_tokens(d).len()
    &&& c.term_counts@.len() == q.len()
    &&& forall|k: int| 0 <= k < q.len() ==> #[trigger] c.term_counts@[k] == count_in(doc_tokens(d), q[k])
    &&& c.boosts == count_in(named, d.1)
}

fn count_tokens(toks: &Vec<Vec<char>>, x: &[char]) -> (r: usize)
    ensures
        r == count_in(toks.deep_view(), x@),
{
    let mut n: usize = 0;
    let mut i: usize = 0;
    assert(toks.deep_view().take(0) =~= Seq::<Seq<char>>::empty());
    while i < toks.len()
        invariant
            i <= toks@.len(),
            n == count_in(toks.deep_view().take(i as int), x@),
            n <= i,
        decreases toks@.len() - i,
    {
        assert(toks.deep_view().take(i + 1).drop_last() =~= toks.deep_view().take(i as int));
        assert(toks[i as int].deep_view() =~= toks[i as int]@);
        if chars_eq(toks[i].as_slice(), x) {
            n = n + 1;
        }
        i = i + 1;
    }
    assert(toks.deep_view().take(toks@.len() as int) =~= toks.deep_view());
    n
}

fn count_ids(ids: &Vec<String>, x: &String) -> (r: usize)
    ensures
        r == count_in(ids.deep_view(), x@),
{
    let mut n: usize = 0;
    let mut i: usize = 0;
    assert(ids.deep_view().take(0) =~= Seq::<Seq<char>>::empty());
    while i < ids.len()
        invariant
            i <= ids@.len(),
            n == count_in(ids.deep_view().take(i as int), x@),
            n <= i,
        decreases ids@.len() - i,
    {
        assert(ids.deep_view().take(i + 1).drop_last() =~= ids.deep_view().take(i as int));
        if ids[i] == *x {
            n = n + 1;
        }
        i = i + 1;
    }
    assert(ids.deep_view().take(ids@.len() as int) =~= ids.deep_view());
    n
}

fn candidate(d: &SearchDoc, query: &Vec<Vec<char>>, named: &Vec<String>) -> (r: SearchCandidate)
    ensures
        is_candidate_of(r, doc_view(*d), query.deep_view(), named.deep_view()),
{
    let mut scored = d.title.clone();
    push_char(&mut scored, ' ');
    push_text(&mut scored, d.title.as_str());
    push_char(&mut scored, ' ');
    push_text(&mut scored, d.text.as_str());
    assert(scored@ =~= d.title@ + seq![' '] + d.title@ + seq![' '] + d.text@);
    let cs = chars_of(scored.as_str());
    let toks = tokenize_chars(cs.as_slice());
    let mut counts: Vec<usize> = Vec::new();
    let mut k: usize = 0;
    while k < query.len()
        invariant
            k <= query@.len(),
            toks.deep_view() == doc_tokens(doc_view(*d)),
            counts@.len() == k,
            forall|j: int| 0 <= j < k ==> #[trigger] counts@[j] == count_in(toks.deep_view(), query.deep_view()[j]),
        decreases query@.len() - k,
    {
        assert(query[k as int].deep_view() =~= query[k as int]@);
        let c = count_tokens(&toks, query[k].as_slice());
        counts.push(c);
        k = k + 1;
    }
    SearchCandidate {
        kind: d.kind.clone(),
        id: d.id.clone(),
        title: d.title.clone(),
        snippet: clip_str(d.text.as_str(), 280),
        term_counts: counts,
        token_count: toks.len(),
        boosts: count_ids(named, &d.id),
    }
}

/// The candidates of a search: one per search document of the book, in
/// document order, scored against the tokens of `query` and the ids
/// `query` names.
pub fn search_candidates(bundle: &ProjectBundle, query: &str) -> (r: Vec<SearchCandidate>)
    ensures
        r@.len() == docs_of(*bundle).len(),
        forall|i: int|
            0 <= i < r@.len() ==> is_candidate_of(
                #[trigger] r@[i],
                docs_of(*bundle)[i],
                tokens_of(query@),
                boost_ids(*bundle, query@),
            ),
{
    let qc = chars_of(query);
    let q = tokenize_chars(qc.as_slice());
    let named = name_boosts(bundle, query);
    let docs = search_docs(bundle);
    let mut r: Vec<SearchCandidate> = Vec::new();
    let mut i: usize = 0;
    while i < docs.len()
        invariant
            i <= docs@.len(),
            doc_views(docs@) == docs_of(*bundle),
            q.deep_view() == tokens_of(query@),
            named.deep_view() == boost_ids(*bundle, query@),
            r@.len() == i,
            forall|j: int|
                0 <= j < i ==> is_candidate_of(
                    #[trigger] r@[j],
                    docs_of(*bundle)[j],
                    tokens_of(query@),
                    boost_ids(*bundle, query@),
                ),
        decreases docs@.len() - i,
    {
        let c = candidate(&docs[i], &q, &named);
        r.push(c);
        i = i + 1;
    }
    r
}

/// A token as tokenization leaves it: non-empty, no stop word, and free of
/// white space, punctuation and ASCII capitals.
pub open spec fn is_clean_token(t: Seq<char>) -> bool {
    &&& t.len() > 0
    &&& !is_stop_word(t)
    &&& forall|j: int|
        0 <= j < t.len() ==> !is_white_space(#[trigger] t[j]) && !is_punct_char(t[j]) && !(
        'A' <= t[j] && t[j] <= 'Z')
}

spec fn is_word_char(c: char) -> bool {
    is_ascii_alnum(c) && !('A' <= c && c <= 'Z')
}

proof fn lemma_flush_clean(tokens: Seq<Seq<char>>, word: Seq<char>)
    requires
        forall|i: int| 0 <= i < tokens.len() ==> is_clean_token(#[trigger] tokens[i]),
        forall|j: int| 0 <= j < word.len() ==> is_word_char(#[trigger] word[j]),
    ensures
        forall|i: int|
            0 <= i < flush_word(tokens, word).len() ==> is_clean_token(
                #[trigger] flush_word(tokens, word)[i],
            ),
{
    if word.len() >= 2 && !is_stop_word(word) {
        assert forall|i: int| 0 <= i < tokens.push(word).len() implies is_clean_token(
            #[trigger] tokens.push(word)[i],
        ) by {
            if i == tokens.len() {
                assert forall|j: int| 0 <= j < word.len() implies !is_white_space(#[trigger] word[j])
                    && !is_punct_char(word[j]) && !('A' <= word[j] && word[j] <= 'Z') by {
                    assert(is_word_char(word[j]));
                }
            }
        }
    }
}

proof fn lemma_grams_clean(cs: Seq<char>, i: int)
    requires
        0 <= i < cs.len(),
        !is_ascii_alnum(cs[i]),
        !is_white_space(cs[i]),
        !is_punct_char(cs[i]),
    ensures
        forall|k: int| 0 <= k < grams_at(cs, i).len() ==> is_clean_token(#[trigger] grams_at(cs, i)[k]),
{
    let one = seq![cs[i]];
    let two = cs.subrange(i, i + 2);
    let three = cs.subrange(i, i + 3);
    assert(!is_stop_word(one) ==> is_clean_token(one));
    if i + 1 < cs.len() && is_gram_char(cs[i]) && is_gram_char(cs[i + 1]) {
        assert(two[0] == cs[i] && two[1] == cs[i + 1]);
        assert(!is_stop_word(two) ==> is_clean_token(two));
    }
    if i + 2 < cs.len() && is_gram_char(cs[i]) && is_gram_char(cs[i + 1]) && is_gram_char(
        cs[i + 2],
    ) {
        assert(three[0] == cs[i] && three[1] == cs[i + 1] && three[2] == cs[i + 2]);
        assert(is_clean_token(three));
    }
}

proof fn lemma_scan_clean(cs: Seq<char>, k: int)
    requires
        0 <= k <= cs.len(),
    ensures
        forall|i: int| 0 <= i < scan(cs, k).0.len() ==> is_clean_token(#[trigger] scan(cs, k).0[i]),
        forall|j: int| 0 <= j < scan(cs, k).1.len() ==> is_word_char(#[trigger] scan(cs, k).1[j]),
    decreases k,
{
    if k > 0 {
        lemma_scan_clean(cs, k - 1);
        let (tokens, word) = scan(cs, k - 1);
        let c = cs[k - 1];
        if is_ascii_alnum(c) {
            let w = word.push(ascii_lower(c));
            assert forall|j: int| 0 <= j < w.len() implies is_word_char(#[trigger] w[j]) by {
                if j < word.len() {
                    assert(w[j] == word[j]);
                }
            }
        } else {
            lemma_flush_clean(tokens, word);
            if !(is_white_space(c) || is_punct_char(c)) {
                lemma_grams_clean(cs, k - 1);
                let f = flush_word(tokens, word);
                let g = grams_at(cs, k - 1);
                assert forall|i: int| 0 <= i < (f + g).len() implies is_clean_token(
                    #[trigger] (f + g)[i],
                ) by {
                    if i < f.len() {
                        assert((f + g)[i] == f[i]);
                    } else {
                        assert((f + g)[i] == g[i - f.len()]);
                    }
                }
            }
        }
    }
}

proof fn lemma_lower_char(c: char)
    ensures
        is_ascii_alnum(ascii_lower(c)) == is_ascii_alnum(c),
        ascii_lower(ascii_lower(c)) == ascii_lower(c),
        !is_ascii_alnum(c) ==> ascii_lower(c) == c,
        is_gram_char(ascii_lower(c)) == is_gram_char(c),
        is_gram_char(c) ==> ascii_lower(c) == c,
{
}

proof fn lemma_scan_lower(cs: Seq<char>, k: int)
    requires
        0 <= k <= cs.len(),
    ensures
        scan(cs, k) == scan(cs.map_values(|c: char| ascii_lower(c)), k),
    decreases k,
{
    if k > 0 {
        let l = cs.map_values(|c: char| ascii_lower(c));
        lemma_scan_lower(cs, k - 1);
        let i = k - 1;
        lemma_lower_char(cs[i]);
        if !is_ascii_alnum(cs[i]) && !(is_white_space(cs[i]) || is_punct_char(cs[i])) {
            assert(l[i] == cs[i]);
            if i + 1 < cs.len() {
                lemma_lower_char(cs[i + 1]);
                assert(is_gram_char(l[i + 1]) == is_gram_char(cs[i + 1]));
                if is_gram_char(cs[i]) && is_gram_char(cs[i + 1]) {
                    assert(l.subrange(i, i + 2) =~= cs.subrange(i, i + 2));
                }
            }
            if i + 2 < cs.len() {
                lemma_lower_char(cs[i + 2]);
                assert(is_gram_char(l[i + 2]) == is_gram_char(cs[i + 2]));
                if is_gram_char(cs[i]) && is_gram_char(cs[i + 1]) && is_gram_char(cs[i + 2]) {
                    assert(l.subrange(i, i + 3) =~= cs.subrange(i, i + 3));
                }
            }
            assert(seq![l[i]] =~= seq![cs[i]]);
            assert(grams_at(l, i) == grams_at(cs, i));
        }
    }
}

/// ASCII case never changes the tokens: a text and its ASCII lower-cased
/// form have the same tokens.
pub proof fn tokens_ignore_ascii_case(cs: Seq<char>)
    ensures
        tokens_of(cs) == tokens_of(cs.map_values(|c: char| ascii_lower(c))),
{
    lemma_scan_lower(cs, cs.len() as int);
}

/// Every token of every text is non-empty, is no stop word, and holds no
/// white space, punctuation or ASCII capital letter.
pub proof fn tokens_are_clean(text: Seq<char>)
    ensures
        forall|i: int| 0 <= i < tokens_of(text).len() ==> is_clean_token(#[trigger] tokens_of(text)[i]),
{
    lemma_scan_clean(text, text.len() as int);
    let (tokens, word) = scan(text, text.len() as int);
    lemma_flush_clean(tokens, word);
}

/// A chapter is found by what it says: among a book's search documents,
/// each chapter has one, of kind `chapter` and with the chapter's id,
/// whose text holds both the chapter's summary and its written text.
pub proof fn chapter_doc_holds_its_text(b: ProjectBundle, i: int)
    requires
        0 <= i < b.chapters@.len(),
    ensures
        exists|j: int|
            0 <= j < docs_of(b).len() && (#[trigger] docs_of(b)[j]).0 == "chapter"@ && docs_of(b)[j].1
                == b.chapters@[i].id@ && occurs_in(docs_of(b)[j].3, b.chapters@[i].content@) && occurs_in(
                docs_of(b)[j].3,
                b.chapters@[i].summary@,
            ),
{
    let c = b.chapters@[i];
    let j = character_docs(b.characters@).len() + entry_docs(b.entries@).len() + outline_docs(b.outlines@).len()
        + i;
    assert(0 <= j < docs_of(b).len());
    let d = docs_of(b)[j];
    assert(d == chapter_doc(c));
    let t = c.summary@ + nl() + c.content@;
    let k: int = c.summary@.len() as int + 1;
    assert(t.subrange(k, k + c.content@.len() as int) =~= c.content@);
    assert(t.subrange(0, 0 + c.summary@.len() as int) =~= c.summary@);
}

} // verus!
