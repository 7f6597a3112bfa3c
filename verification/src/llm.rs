//! The decisions around talking to an OpenAI-compatible chat service:
//! where to send requests, how to authenticate, how to read a stream, and
//! how to report a connection test.

use vstd::prelude::*;
use crate::models::{AppSettings, ConnectionTest};
use crate::text::{
    blank, chars_of, clip_str, clip_text, is_blank, push_char, push_text, string_of, string_of_range,
    text_eq, trim, trim_bounds, trim_chars, trim_text,
};

verus! {

/// `s` without its trailing slashes.
pub open spec fn strip_slashes(s: Seq<char>) -> Seq<char>
    decreases s.len(),
{
    if s.len() > 0 && s.last() == '/' {
        strip_slashes(s.drop_last())
    } else {
        s
    }
}

/// The URL of an API path: the trimmed base URL without trailing slashes,
/// a slash, and the path.
pub open spec fn endpoint_spec(base: Seq<char>, path: Seq<char>) -> Seq<char> {
    strip_slashes(trim(base)) + seq!['/'] + path
}

proof fn lemma_strip_slashes(s: Seq<char>)
    ensures
        strip_slashes(s).len() == 0 || strip_slashes(s).last() != '/',
    decreases s.len(),
{
    if s.len() > 0 && s.last() == '/' {
        lemma_strip_slashes(s.drop_last());
    }
}

/// An endpoint joins base and path with exactly one slash: the base part
/// never ends in a slash of its own.
pub proof fn endpoint_single_slash(base: Seq<char>, path: Seq<char>)
    ensures
        endpoint_spec(base, path) == strip_slashes(trim(base)) + seq!['/'] + path,
        strip_slashes(trim(base)).len() == 0 || strip_slashes(trim(base)).last() != '/',
{
    lemma_strip_slashes(trim(base));
}

/// The URL of an API path under a base URL.
pub fn endpoint(base: &str, path: &str) -> (r: String)
    ensures
        r@ == endpoint_spec(base@, path@),
{
    let cs = chars_of(base);
    let (a, b) = trim_bounds(cs.as_slice());
    let mut e = b;
    assert(cs@.subrange(a as int, e as int) == trim(base@));
    while e > a && cs[e - 1] == '/'
        invariant
            a <= e <= b <= cs@.len(),
            strip_slashes(trim(base@)) == strip_slashes(cs@.subrange(a as int, e as int)),
        decreases e - a,
    {
        assert(cs@.subrange(a as int, e as int).drop_last() =~= cs@.subrange(a as int, e - 1));
        e = e - 1;
    }
    let mut r = string_of_range(cs.as_slice(), a, e);
    push_char(&mut r, '/');
    push_text(&mut r, path);
    r
}

/// An error body as shown to the author: trimmed, cut to 280 characters.
pub fn clip_err(text: &str) -> (r: String)
    ensures
        r@ == clip_text(text@, 280),
{
    clip_str(text, 280)
}

/// The bearer token: the trimmed API key, or `local` when there is none
/// (local services accept any token).
pub open spec fn bearer_spec(s: AppSettings) -> Seq<char> {
    "Bearer "@ + if is_blank(s.api_key@) {
        "local"@
    } else {
        trim(s.api_key@)
    }
}

/// Without an API key the token is `local`, so that local services that
/// want some token accept the request.
pub proof fn keyless_is_local(s: AppSettings)
    requires
        is_blank(s.api_key@),
    ensures
        bearer_spec(s) == "Bearer "@ + "local"@,
{
}

/// The value of the `Authorization` header.
pub fn bearer(settings: &AppSettings) -> (r: String)
    ensures
        r@ == bearer_spec(*settings),
{
    let mut r = String::from_str("Bearer ");
    if blank(settings.api_key.as_str()) {
        push_text(&mut r, "local");
    } else {
        let k = trim_text(settings.api_key.as_str());
        push_text(&mut r, k.as_str());
    }
    r
}

/// The label of the connection mode.
pub open spec fn mode_label_spec(s: AppSettings) -> Seq<char> {
    if s.mode@ == "local"@ {
        "本地模型"@
    } else {
        "在线模型"@
    }
}

/// The label of the connection mode.
pub fn mode_label(settings: &AppSettings) -> (r: &'static str)
    ensures
        r@ == mode_label_spec(*settings),
{
    if text_eq(settings.mode.as_str(), "local") {
        "本地模型"
    } else {
        "在线模型"
    }
}

/// A model is configured: it has a base URL and a model name.
pub open spec fn is_configured(s: AppSettings) -> bool {
    !is_blank(s.base_url@) && !is_blank(s.model@)
}

/// The answer to a connection test before anything is configured.
pub const NOT_CONFIGURED: &'static str = "请先填写接口地址和模型名。";

/// The error when generating with no model configured.
pub const CONFIGURE_FIRST: &'static str = "请先在设置里配置模型地址和模型名。";

/// Refuses to generate when no model is configured.
pub fn require_model(settings: &AppSettings) -> (r: Result<(), String>)
    ensures
        r is Ok <==> is_configured(*settings),
        r matches Err(e) ==> e@ == CONFIGURE_FIRST@,
{
    if blank(settings.base_url.as_str()) || blank(settings.model.as_str()) {
        Err(String::from_str(CONFIGURE_FIRST))
    } else {
        Ok(())
    }
}

/// The outcome of a connection test that cannot start: `Some` exactly when
/// no model is configured.
pub fn connection_precheck(settings: &AppSettings) -> (r: Option<ConnectionTest>)
    ensures
        r is Some <==> !is_configured(*settings),
        r matches Some(t) ==> !t.ok && t.message@ == NOT_CONFIGURED@ && t.models@.len() == 0,
{
    if blank(settings.base_url.as_str()) || blank(settings.model.as_str()) {
        Some(ConnectionTest { ok: false, message: String::from_str(NOT_CONFIGURED), models: Vec::new() })
    } else {
        None
    }
}

/// The decimal digit `d`.
pub open spec fn digit_char(d: nat) -> char {
    ((d + 48) as u8) as char
}

/// `n` in decimal.
pub open spec fn decimal(n: nat) -> Seq<char>
    decreases n,
{
    if n < 10 {
        seq![digit_char(n)]
    } else {
        decimal(n / 10).push(digit_char(n % 10))
    }
}

/// `n` in decimal.
pub fn decimal_text(n: usize) -> (r: String)
    ensures
        r@ == decimal(n as nat),
    decreases n,
{
    let d = (n % 10) as u8;
    let c = (d + 48) as char;
    if n < 10 {
        let mut s = String::new();
        push_char(&mut s, c);
        assert(s@ =~= seq![digit_char(n as nat)]);
        s
    } else {
        let mut s = decimal_text(n / 10);
        push_char(&mut s, c);
        s
    }
}

/// The message of a successful connection test.
pub open spec fn connected_message(s: AppSettings, model_count: nat) -> Seq<char> {
    if model_count == 0 {
        "已连通 "@ + mode_label_spec(s) + " / "@ + s.model@
    } else {
        "已连通 "@ + mode_label_spec(s) + "，当前模型 "@ + s.model@ + "，服务列出 "@ + decimal(model_count)
            + " 个模型。"@
    }
}

/// The report of a connection test: the models the service lists, and
/// whether a short probe chat got an answer (the probe's error when not).
pub fn connection_report(settings: &AppSettings, models: Vec<String>, probe: Result<String, String>) -> (r:
    ConnectionTest)
    ensures
        r.models@ == models@,
        r.ok == probe is Ok,
        match probe {
            Ok(_) => r.message@ == connected_message(*settings, models@.len()),
            Err(e) => r.message == e,
        },
{
    match probe {
        Ok(_) => {
            let n = models.len();
            let mut m = String::from_str("已连通 ");
            push_text(&mut m, mode_label(settings));
            if n == 0 {
                push_text(&mut m, " / ");
                push_text(&mut m, settings.model.as_str());
            } else {
                push_text(&mut m, "，当前模型 ");
                push_text(&mut m, settings.model.as_str());
                push_text(&mut m, "，服务列出 ");
                let d = decimal_text(n);
                push_text(&mut m, d.as_str());
                push_text(&mut m, " 个模型。");
            }
            ConnectionTest { ok: true, message: m, models }
        },
        Err(e) => ConnectionTest { ok: false, message: e, models },
    }
}

/// The error when a stream ends without text.
pub const NO_STREAM_TEXT: &'static str = "模型没有返回内容，请检查地址、模型名和密钥。";

/// The outcome of a stream: its text, or an error when it produced only
/// white space and was not cancelled.
pub fn stream_result(full: String, cancelled: bool) -> (r: Result<String, String>)
    ensures
        match r {
            Ok(s) => s == full && !(is_blank(full@) && !cancelled),
            Err(e) => is_blank(full@) && !cancelled && e@ == NO_STREAM_TEXT@,
        },
{
    if blank(full.as_str()) && !cancelled {
        Err(String::from_str(NO_STREAM_TEXT))
    } else {
        Ok(full)
    }
}

/// The prefix of a server-sent data line.
pub open spec fn data_prefix() -> Seq<char> {
    seq!['d', 'a', 't', 'a', ':']
}

/// The payload of a server-sent event line: what follows `data:`,
/// trimmed, unless it is empty or the end marker `[DONE]`.
pub open spec fn sse_payload_spec(line: Seq<char>) -> Option<Seq<char>> {
    if line.len() >= 5 && line.take(5) == data_prefix() {
        let d = trim(line.skip(5));
        if d.len() == 0 || d == "[DONE]"@ {
            None
        } else {
            Some(d)
        }
    } else {
        None
    }
}

/// The payload of a server-sent event line.
pub fn sse_payload(line: &str) -> (r: Option<String>)
    ensures
        match r {
            Some(s) => sse_payload_spec(line@) == Some(s@),
            None => sse_payload_spec(line@) is None,
        },
{
    let cs = chars_of(line);
    if cs.len() < 5 {
        return None;
    }
    if !(cs[0] == 'd' && cs[1] == 'a' && cs[2] == 't' && cs[3] == 'a' && cs[4] == ':') {
        assert(cs@.take(5) != data_prefix()) by {
            if cs@.take(5) == data_prefix() {
                assert(cs@.take(5)[0] == 'd' && cs@.take(5)[1] == 'a' && cs@.take(5)[2] == 't');
                assert(cs@.take(5)[3] == 'a' && cs@.take(5)[4] == ':');
            }
        }
        return None;
    }
    assert(cs@.take(5) =~= data_prefix());
    let rest = string_of_range(cs.as_slice(), 5, cs.len());
    assert(rest@ =~= line@.skip(5));
    let d = trim_text(rest.as_str());
    if d.as_str().unicode_len() == 0 || text_eq(d.as_str(), "[DONE]") {
        None
    } else {
        Some(d)
    }
}

/// The pieces of `s` between line breaks, empty pieces included.
pub open spec fn split_lines(s: Seq<char>) -> Seq<Seq<char>>
    decreases s.len(),
{
    if s.len() == 0 {
        seq![seq![]]
    } else {
        let p = split_lines(s.drop_last());
        if s.last() == '\n' {
            p.push(seq![])
        } else {
            p.update(p.len() - 1, p.last().push(s.last()))
        }
    }
}

/// Takes the complete lines out of a stream buffer: returns them trimmed,
/// in order, and leaves only the unfinished last line in the buffer.
pub fn drain_lines(buffer: &mut String) -> (r: Vec<String>)
    ensures
        r.deep_view() == split_lines(old(buffer)@).drop_last().map_values(|l: Seq<char>| trim(l)),
        final(buffer)@ == split_lines(old(buffer)@).last(),
{
    let cs = chars_of(buffer.as_str());
    let mut lines: Vec<String> = Vec::new();
    let mut piece: Vec<char> = Vec::new();
    let mut i: usize = 0;
    assert(cs@.take(0) =~= Seq::<char>::empty());
    while i < cs.len()
        invariant
            i <= cs@.len(),
            cs@ == old(buffer)@,
            split_lines(cs@.take(i as int)).len() >= 1,
            piece@ == split_lines(cs@.take(i as int)).last(),
            lines.deep_view() == split_lines(cs@.take(i as int)).drop_last().map_values(
                |l: Seq<char>| trim(l),
            ),
        decreases cs@.len() - i,
    {
        let ghost p = split_lines(cs@.take(i as int));
        assert(cs@.take(i + 1).drop_last() =~= cs@.take(i as int));
        let c = cs[i];
        if c == '\n' {
            let t = trim_chars(piece.as_slice());
            let line = string_of(t.as_slice());
            let ghost prev = lines.deep_view();
            lines.push(line);
            assert(lines.deep_view() =~= prev.push(trim(p.last())));
            piece = Vec::new();
            assert(split_lines(cs@.take(i + 1)) == p.push(seq![]));
            assert(p.push(seq![]).drop_last() =~= p);
            assert(p.drop_last().map_values(|l: Seq<char>| trim(l)).push(trim(p.last())) =~= p.map_values(
                |l: Seq<char>| trim(l),
            ));
            assert(piece@ =~= p.push(seq![]).last());
        } else {
            piece.push(c);
            let ghost q = p.update(p.len() - 1, p.last().push(c));
            assert(split_lines(cs@.take(i + 1)) == q);
            assert(q.drop_last() =~= p.drop_last());
        }
        i = i + 1;
    }
    assert(cs@.take(cs@.len() as int) =~= cs@);
    *buffer = string_of(piece.as_slice());
    lines
}

/// The payloads among `lines`, in order: the data of each event line that
/// has some.
pub open spec fn line_payloads(lines: Seq<Seq<char>>) -> Seq<Seq<char>>
    decreases lines.len(),
{
    if lines.len() == 0 {
        seq![]
    } else {
        let p = line_payloads(lines.drop_last());
        match sse_payload_spec(lines.last()) {
            Some(d) => p.push(d),
            None => p,
        }
    }
}

/// One step of reading a stream. When the run was cancelled it stops
/// (`None`) and leaves the buffer alone. Otherwise the new `piece` is
/// appended to the buffer, the complete lines are taken out of it (the
/// unfinished last line stays), and the payloads of those lines are
/// returned in order.
pub fn stream_step(buffer: &mut String, piece: &str, cancelled: bool) -> (r: Option<Vec<String>>)
    ensures
        cancelled ==> r is None && final(buffer)@ == old(buffer)@,
        !cancelled ==> match r {
            Some(v) => v.deep_view() == line_payloads(
                split_lines(old(buffer)@ + piece@).drop_last().map_values(|l: Seq<char>| trim(l)),
            ) && final(buffer)@ == split_lines(old(buffer)@ + piece@).last(),
            None => false,
        },
{
    if cancelled {
        return None;
    }
    push_text(buffer, piece);
    let lines = drain_lines(buffer);
    let ghost ls = lines.deep_view();
    let mut out: Vec<String> = Vec::new();
    let mut i: usize = 0;
    assert(ls.take(0) =~= Seq::<Seq<char>>::empty());
    while i < lines.len()
        invariant
            i <= lines@.len(),
            ls == lines.deep_view(),
            out.deep_view() == line_payloads(ls.take(i as int)),
        decreases lines@.len() - i,
    {
        assert(ls.take(i + 1).drop_last() =~= ls.take(i as int));
        assert(ls[i as int] == lines@[i as int]@);
        match sse_payload(lines[i].as_str()) {
            Some(d) => {
                let ghost prev = out.deep_view();
                out.push(d);
                assert(out.deep_view() =~= prev.push(d@));
            },
            None => {},
        }
        i = i + 1;
    }
    assert(ls.take(lines@.len() as int) =~= ls);
    Some(out)
}

/// The payload left in the buffer when the stream ends: that of its
/// trimmed text, if any.
pub fn stream_tail(buffer: &str) -> (r: Option<String>)
    ensures
        match r {
            Some(d) => sse_payload_spec(trim(buffer@)) == Some(d@),
            None => sse_payload_spec(trim(buffer@)) is None,
        },
{
    let t = trim_text(buffer);
    sse_payload(t.as_str())
}

/// The token limit of a one-shot completion: the setting, at most 1200.
pub fn brief_max_tokens(settings: &AppSettings) -> (r: u32)
    ensures
        r == if settings.max_tokens <= 1200 {
            settings.max_tokens
        } else {
            1200
        },
{
    if settings.max_tokens <= 1200 {
        settings.max_tokens
    } else {
        1200
    }
}

} // verus!
