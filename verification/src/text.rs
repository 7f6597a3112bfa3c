//! Character-level text helpers shared by retrieval and prompt assembly.
//!
//! Text is modelled as the sequence of its Unicode scalar values (`s@`).

use vstd::prelude::*;

verus! {

/// The Unicode `White_Space` property, which is what `char::is_whitespace`
/// and `str::trim` go by.
pub open spec fn is_white_space(c: char) -> bool {
    ||| ('\u{9}' <= c && c <= '\u{d}')
    ||| c == ' '
    ||| c == '\u{85}'
    ||| c == '\u{a0}'
    ||| c == '\u{1680}'
    ||| ('\u{2000}' <= c && c <= '\u{200a}')
    ||| c == '\u{2028}'
    ||| c == '\u{2029}'
    ||| c == '\u{202f}'
    ||| c == '\u{205f}'
    ||| c == '\u{3000}'
}

/// `s` without its leading white space.
pub open spec fn trim_front(s: Seq<char>) -> Seq<char>
    decreases s.len(),
{
    if s.len() > 0 && is_white_space(s[0]) {
        trim_front(s.drop_first())
    } else {
        s
    }
}

/// `s` without its trailing white space.
pub open spec fn trim_back(s: Seq<char>) -> Seq<char>
    decreases s.len(),
{
    if s.len() > 0 && is_white_space(s.last()) {
        trim_back(s.drop_last())
    } else {
        s
    }
}

/// `s` without leading and trailing white space, as `str::trim` gives it.
pub open spec fn trim(s: Seq<char>) -> Seq<char> {
    trim_back(trim_front(s))
}

/// Text that holds nothing but white space.
pub open spec fn is_blank(s: Seq<char>) -> bool {
    trim(s).len() == 0
}

/// `needle` occurs in `hay` as a contiguous run (an empty needle always does).
pub open spec fn occurs_in(hay: Seq<char>, needle: Seq<char>) -> bool {
    exists|i: int| 0 <= i <= hay.len() - needle.len() && #[trigger] hay.subrange(i, i + needle.len()) == needle
}

/// Lexicographic order of two texts by code point, which is the order
/// `String`'s `<` gives (UTF-8 preserves code point order).
pub open spec fn text_lt(a: Seq<char>, b: Seq<char>) -> bool
    decreases a.len(),
{
    if a.len() == 0 {
        b.len() > 0
    } else if b.len() == 0 {
        false
    } else if a[0] != b[0] {
        a[0] < b[0]
    } else {
        text_lt(a.drop_first(), b.drop_first())
    }
}

/// The characters of `s`, in order, as a vector.
pub fn chars_of(s: &str) -> (r: Vec<char>)
    ensures
        r@ == s@,
{
    broadcast use vstd::string::axiom_spec_iter;
    let mut r: Vec<char> = Vec::new();
    for c in it: s.chars()
        invariant
            it.seq() == s@,
            r@ == it.seq().take(it.index()),
    {
        r.push(c);
    }
    r
}

/// Appends one character to a string (`String::push`); the contract claims
/// the string afterwards is the old one followed by `c`.
#[verifier::external_body]
pub fn push_char(s: &mut String, c: char)
    ensures
        final(s)@ == old(s)@.push(c),
{
    s.push(c);
}

/// Builds a string holding exactly the characters of `cs`.
pub fn string_of(cs: &[char]) -> (r: String)
    ensures
        r@ == cs@,
{
    let mut r = String::new();
    let mut i: usize = 0;
    while i < cs.len()
        invariant
            i <= cs@.len(),
            r@ == cs@.take(i as int),
        decreases cs@.len() - i,
    {
        push_char(&mut r, cs[i]);
        i = i + 1;
        assert(r@ =~= cs@.take(i as int));
    }
    assert(cs@.take(cs@.len() as int) =~= cs@);
    r
}

/// Appends `t` to `s`.
pub fn push_text(s: &mut String, t: &str)
    ensures
        final(s)@ == old(s)@ + t@,
{
    s.append(t);
}

/// Whether `c` has the Unicode `White_Space` property.
pub fn white_space(c: char) -> (r: bool)
    ensures
        r == is_white_space(c),
{
    ('\u{9}' <= c && c <= '\u{d}') || c == ' ' || c == '\u{85}' || c == '\u{a0}' || c == '\u{1680}'
        || ('\u{2000}' <= c && c <= '\u{200a}') || c == '\u{2028}' || c == '\u{2029}' || c
        == '\u{202f}' || c == '\u{205f}' || c == '\u{3000}'
}

proof fn lemma_trim_front_step(s: Seq<char>, a: int)
    requires
        0 <= a < s.len(),
        is_white_space(s[a]),
    ensures
        trim_front(s.subrange(a, s.len() as int)) == trim_front(s.subrange(a + 1, s.len() as int)),
{
    assert(s.subrange(a, s.len() as int).drop_first() =~= s.subrange(a + 1, s.len() as int));
}

proof fn lemma_trim_back_step(s: Seq<char>, b: int)
    requires
        0 < b <= s.len(),
        is_white_space(s[b - 1]),
    ensures
        trim_back(s.subrange(0, b)) == trim_back(s.subrange(0, b - 1)),
{
    assert(s.subrange(0, b).drop_last() =~= s.subrange(0, b - 1));
}

/// The bounds `(a, b)` of the trimmed part of `cs`: `cs[a..b]` is `trim(cs)`.
pub fn trim_bounds(cs: &[char]) -> (r: (usize, usize))
    ensures
        r.0 <= r.1 <= cs@.len(),
        cs@.subrange(r.0 as int, r.1 as int) == trim(cs@),
{
    let n = cs.len();
    let mut a: usize = 0;
    assert(cs@.subrange(0, n as int) =~= cs@);
    while a < n && white_space(cs[a])
        invariant
            a <= n == cs@.len(),
            trim_front(cs@) == trim_front(cs@.subrange(a as int, n as int)),
        decreases n - a,
    {
        proof {
            lemma_trim_front_step(cs@, a as int);
        }
        a = a + 1;
    }
    let ghost front = cs@.subrange(a as int, n as int);
    assert(trim_front(cs@) == front);
    let mut b: usize = n;
    assert(front.subrange(0, (b - a) as int) =~= front);
    while b > a && white_space(cs[b - 1])
        invariant
            a <= b <= n == cs@.len(),
            front == cs@.subrange(a as int, n as int),
            trim_back(front) == trim_back(front.subrange(0, (b - a) as int)),
        decreases b - a,
    {
        proof {
            lemma_trim_back_step(front, (b - a) as int);
        }
        b = b - 1;
    }
    assert(front.subrange(0, (b - a) as int) =~= cs@.subrange(a as int, b as int));
    (a, b)
}

/// The characters of `cs` without leading and trailing white space.
pub fn trim_chars(cs: &[char]) -> (r: Vec<char>)
    ensures
        r@ == trim(cs@),
{
    let (a, b) = trim_bounds(cs);
    let mut r: Vec<char> = Vec::new();
    let mut i = a;
    while i < b
        invariant
            a <= i <= b <= cs@.len(),
            r@ == cs@.subrange(a as int, i as int),
        decreases b - i,
    {
        r.push(cs[i]);
        i = i + 1;
        assert(r@ =~= cs@.subrange(a as int, i as int));
    }
    r
}

/// `s` without leading and trailing white space (`str::trim`).
pub fn trim_text(s: &str) -> (r: String)
    ensures
        r@ == trim(s@),
{
    let cs = chars_of(s);
    let t = trim_chars(cs.as_slice());
    string_of(t.as_slice())
}

/// `s` trimmed and cut to at most `max` characters; a cut text ends in `…`.
pub open spec fn clip_text(s: Seq<char>, max: nat) -> Seq<char> {
    let t = trim(s);
    if t.len() <= max {
        t
    } else {
        t.take(max as int).push('…')
    }
}

/// A clipped text has at most `max` characters and the cut mark; a text
/// that fits is only trimmed.
pub proof fn clip_is_bounded(s: Seq<char>, max: nat)
    ensures
        clip_text(s, max).len() <= max + 1,
        trim(s).len() <= max ==> clip_text(s, max) == trim(s),
        trim(s).len() > max ==> clip_text(s, max).last() == '…' && clip_text(s, max).len() == max + 1,
{
}

proof fn lemma_trim_front_shape(s: Seq<char>)
    ensures
        trim_front(s).len() == 0 || !is_white_space(trim_front(s)[0]),
    decreases s.len(),
{
    if s.len() > 0 && is_white_space(s[0]) {
        lemma_trim_front_shape(s.drop_first());
    }
}

proof fn lemma_trim_back_shape(s: Seq<char>)
    ensures
        trim_back(s).len() <= s.len(),
        trim_back(s) == s.take(trim_back(s).len() as int),
        trim_back(s).len() == 0 || !is_white_space(trim_back(s).last()),
    decreases s.len(),
{
    if s.len() > 0 && is_white_space(s.last()) {
        lemma_trim_back_shape(s.drop_last());
        assert(s.drop_last().take(trim_back(s).len() as int) =~= s.take(trim_back(s).len() as int));
    } else {
        assert(s.take(s.len() as int) =~= s);
    }
}

/// A trimmed text is empty or starts and ends with no white space.
pub proof fn lemma_trim_shape(s: Seq<char>)
    ensures
        trim(s).len() == 0 || (!is_white_space(trim(s)[0]) && !is_white_space(trim(s).last())),
{
    let f = trim_front(s);
    lemma_trim_front_shape(s);
    lemma_trim_back_shape(f);
    let t = trim_back(f);
    if t.len() > 0 {
        assert(t[0] == f.take(t.len() as int)[0]);
    }
}

/// A text that starts and ends with no white space is its own trim.
proof fn lemma_trim_fixed(s: Seq<char>)
    requires
        s.len() == 0 || (!is_white_space(s[0]) && !is_white_space(s.last())),
    ensures
        trim(s) == s,
{
    assert(trim_front(s) == s);
    assert(trim_back(s) == s);
}

/// Trimming twice is trimming once.
pub proof fn trim_is_idempotent(s: Seq<char>)
    ensures
        trim(trim(s)) == trim(s),
{
    lemma_trim_shape(s);
    lemma_trim_fixed(trim(s));
}

/// Clipping twice to the same length is clipping once.
pub proof fn clip_is_idempotent(s: Seq<char>, max: nat)
    ensures
        clip_text(clip_text(s, max), max) == clip_text(s, max),
{
    let t = trim(s);
    trim_is_idempotent(s);
    if t.len() > max {
        lemma_trim_shape(s);
        let c = t.take(max as int).push('…');
        assert(!is_white_space('…'));
        if max > 0 {
            assert(c[0] == t[0]);
        }
        assert(c.last() == '…');
        lemma_trim_fixed(c);
        assert(c.take(max as int) =~= t.take(max as int));
    }
}

/// Where trimming the front starts: `trim_front(s)` is `s` from `f` on.
proof fn trim_front_start(s: Seq<char>) -> (f: int)
    ensures
        0 <= f <= s.len(),
        trim_front(s) == s.skip(f),
    decreases s.len(),
{
    if s.len() > 0 && is_white_space(s[0]) {
        let g = trim_front_start(s.drop_first());
        assert(s.drop_first().skip(g) =~= s.skip(g + 1));
        g + 1
    } else {
        assert(s.skip(0) =~= s);
        0
    }
}

/// A trimmed text is a run of the text: `trim(s)` is `s[f..f + n]`.
proof fn trim_is_run(s: Seq<char>) -> (f: int)
    ensures
        0 <= f,
        f + trim(s).len() <= s.len(),
        trim(s) == s.subrange(f, f + trim(s).len()),
{
    let f = trim_front_start(s);
    lemma_trim_back_shape(s.skip(f));
    assert(s.skip(f).take(trim(s).len() as int) =~= s.subrange(f, f + trim(s).len()));
    f
}

proof fn lemma_trim_back_keeps(y: Seq<char>, j: int)
    requires
        0 <= j < y.len(),
        !is_white_space(y[j]),
    ensures
        trim_back(y).len() > j,
    decreases y.len(),
{
    if is_white_space(y.last()) {
        lemma_trim_back_keeps(y.drop_last(), j);
    }
}

proof fn lemma_trim_back_concat(p: Seq<char>, y: Seq<char>)
    requires
        trim_back(y).len() > 0,
    ensures
        trim_back(p + y) == p + trim_back(y),
    decreases y.len(),
{
    lemma_trim_back_shape(y);
    if is_white_space(y.last()) {
        assert((p + y).drop_last() =~= p + y.drop_last());
        lemma_trim_back_concat(p, y.drop_last());
    } else {
        assert((p + y).last() == y.last());
    }
}

/// Trimming text that starts with `p` (whose first character is no white
/// space) keeps `p` in front and keeps the trimmed rest `y` inside.
pub proof fn trim_keeps_inner(p: Seq<char>, y: Seq<char>)
    requires
        p.len() > 0,
        !is_white_space(p[0]),
        !is_blank(y),
    ensures
        !is_blank(p + y),
        trim(p + y).take(p.len() as int) == p,
        occurs_in(trim(p + y), trim(y)),
{
    let x = p + y;
    assert(x[0] == p[0]);
    assert(trim_front(x) == x);
    let f = trim_is_run(y);
    let n = trim(y).len() as int;
    lemma_trim_shape(y);
    assert(trim(y)[n - 1] == y[f + n - 1]);
    lemma_trim_back_keeps(y, f + n - 1);
    lemma_trim_back_concat(p, y);
    lemma_trim_back_shape(y);
    let t = trim(x);
    assert(t == p + trim_back(y));
    assert(t.take(p.len() as int) =~= p);
    let i = p.len() + f;
    assert(t.subrange(i, i + n) =~= trim(y));
}

/// The string made of `cs[a..b]`.
pub fn string_of_range(cs: &[char], a: usize, b: usize) -> (r: String)
    requires
        a <= b <= cs@.len(),
    ensures
        r@ == cs@.subrange(a as int, b as int),
{
    let mut r = String::new();
    let mut i = a;
    while i < b
        invariant
            a <= i <= b <= cs@.len(),
            r@ == cs@.subrange(a as int, i as int),
        decreases b - i,
    {
        push_char(&mut r, cs[i]);
        i = i + 1;
        assert(r@ =~= cs@.subrange(a as int, i as int));
    }
    r
}

/// Trims `text` and cuts it to at most `max_chars` characters, marking a
/// cut with `…`.
pub fn clip_str(text: &str, max_chars: usize) -> (r: String)
    ensures
        r@ == clip_text(text@, max_chars as nat),
{
    let cs = chars_of(text);
    let (a, b) = trim_bounds(cs.as_slice());
    if b - a <= max_chars {
        string_of_range(cs.as_slice(), a, b)
    } else {
        let mut r = string_of_range(cs.as_slice(), a, a + max_chars);
        push_char(&mut r, '…');
        assert(cs@.subrange(a as int, a + max_chars) =~= trim(text@).take(max_chars as int));
        r
    }
}

/// The parts joined with `sep` between each two (`[T]::join`).
pub open spec fn join_with(parts: Seq<Seq<char>>, sep: Seq<char>) -> Seq<char>
    decreases parts.len(),
{
    if parts.len() == 0 {
        seq![]
    } else if parts.len() == 1 {
        parts[0]
    } else {
        join_with(parts.drop_last(), sep) + sep + parts.last()
    }
}

/// Joins `parts` with `sep` between each two.
pub fn join(parts: &Vec<String>, sep: &str) -> (r: String)
    ensures
        r@ == join_with(parts.deep_view(), sep@),
{
    let mut r = String::new();
    let mut i: usize = 0;
    assert(parts.deep_view().take(0) =~= Seq::<Seq<char>>::empty());
    while i < parts.len()
        invariant
            i <= parts@.len(),
            r@ == join_with(parts.deep_view().take(i as int), sep@),
        decreases parts@.len() - i,
    {
        let ghost prev = parts.deep_view().take(i as int);
        assert(parts.deep_view().take(i + 1).drop_last() =~= prev);
        if i > 0 {
            push_text(&mut r, sep);
        }
        push_text(&mut r, parts[i].as_str());
        i = i + 1;
        if i == 1 {
            assert(r@ =~= parts.deep_view().take(1)[0]);
        }
    }
    assert(parts.deep_view().take(parts@.len() as int) =~= parts.deep_view());
    r
}

/// Whether `s` holds nothing but white space.
pub fn blank(s: &str) -> (r: bool)
    ensures
        r == is_blank(s@),
{
    let cs = chars_of(s);
    let (a, b) = trim_bounds(cs.as_slice());
    a == b
}

/// Whether two character sequences are equal.
pub fn chars_eq(a: &[char], b: &[char]) -> (r: bool)
    ensures
        r == (a@ == b@),
{
    if a.len() != b.len() {
        return false;
    }
    let mut i: usize = 0;
    while i < a.len()
        invariant
            i <= a@.len() == b@.len(),
            forall|j: int| 0 <= j < i ==> a@[j] == b@[j],
        decreases a@.len() - i,
    {
        if a[i] != b[i] {
            return false;
        }
        i = i + 1;
    }
    assert(a@ =~= b@);
    true
}

/// Whether two texts are equal.
pub fn text_eq(a: &str, b: &str) -> (r: bool)
    ensures
        r == (a@ == b@),
{
    let x = chars_of(a);
    let y = chars_of(b);
    chars_eq(x.as_slice(), y.as_slice())
}

/// Whether `needle` occurs at position `i` of `hay`.
fn occurs_at(hay: &[char], needle: &[char], i: usize) -> (r: bool)
    requires
        i + needle@.len() <= hay@.len(),
    ensures
        r == (hay@.subrange(i as int, i + needle@.len()) == needle@),
{
    let n = hay.len();
    let mut j: usize = 0;
    while j < needle.len()
        invariant
            n == hay@.len(),
            i + needle@.len() <= hay@.len(),
            j <= needle@.len(),
            forall|k: int| 0 <= k < j ==> hay@[i + k] == needle@[k],
        decreases needle@.len() - j,
    {
        if hay[i + j] != needle[j] {
            assert(hay@.subrange(i as int, i + needle@.len())[j as int] != needle@[j as int]);
            return false;
        }
        j = j + 1;
    }
    assert(hay@.subrange(i as int, i + needle@.len()) =~= needle@);
    true
}

/// Whether `needle` occurs in `hay` (`str::contains`).
pub fn chars_contain(hay: &[char], needle: &[char]) -> (r: bool)
    ensures
        r == occurs_in(hay@, needle@),
{
    if needle.len() > hay.len() {
        return false;
    }
    if needle.len() == 0 {
        assert(hay@.subrange(0, 0int + needle@.len()) =~= needle@);
        return true;
    }
    let end = hay.len() - needle.len() + 1;
    let mut i: usize = 0;
    while i < end
        invariant
            end == hay@.len() - needle@.len() + 1,
            i <= end,
            forall|k: int| 0 <= k < i ==> #[trigger] hay@.subrange(k, k + needle@.len()) != needle@,
        decreases end - i,
    {
        if occurs_at(hay, needle, i) {
            return true;
        }
        i = i + 1;
    }
    false
}

/// Whether `needle` occurs in `hay`.
pub fn text_contains(hay: &str, needle: &str) -> (r: bool)
    ensures
        r == occurs_in(hay@, needle@),
{
    let h = chars_of(hay);
    let n = chars_of(needle);
    chars_contain(h.as_slice(), n.as_slice())
}

/// The number of characters of `s`.
pub fn char_count(s: &str) -> (r: usize)
    ensures
        r == s@.len(),
{
    s.unicode_len()
}

/// Whether `a` sorts strictly before `b`.
pub fn text_less(a: &str, b: &str) -> (r: bool)
    ensures
        r == text_lt(a@, b@),
{
    let x = chars_of(a);
    let y = chars_of(b);
    let mut i: usize = 0;
    assert(x@.skip(0) =~= x@);
    assert(y@.skip(0) =~= y@);
    while i < x.len() && i < y.len() && x[i] == y[i]
        invariant
            i <= x@.len(),
            i <= y@.len(),
            text_lt(a@, b@) == text_lt(x@.skip(i as int), y@.skip(i as int)),
            x@ == a@,
            y@ == b@,
        decreases x@.len() - i,
    {
        assert(x@.skip(i as int).drop_first() =~= x@.skip(i + 1));
        assert(y@.skip(i as int).drop_first() =~= y@.skip(i + 1));
        i = i + 1;
    }
    if i == x.len() {
        i < y.len()
    } else if i == y.len() {
        false
    } else {
        x[i] < y[i]
    }
}

} // verus!
