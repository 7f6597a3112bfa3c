use mohe::generation::{follow_up, generation_messages, with_summary, FollowUp};
use mohe::json::{
    book_meta_from_json, completion_text, delta_content, extract_json_array, json_object_span,
    memories_from_json, model_ids, JsonValue, NO_BOOK_JSON, NO_BOOK_TITLE, NO_CONTENT,
};
use mohe::llm::{
    bearer, clip_err, connection_precheck, connection_report, decimal_text, drain_lines, endpoint,
    mode_label, require_model, sse_payload, stream_result, stream_step, stream_tail,
    brief_max_tokens, CONFIGURE_FIRST, NOT_CONFIGURED,
    NO_STREAM_TEXT,
};
use mohe::models::{AppSettings, Chapter, ContextPreview};

fn s(x: &str) -> String {
    x.to_string()
}

fn obj(fields: Vec<(&str, JsonValue)>) -> JsonValue {
    JsonValue::Object(fields.into_iter().map(|(k, v)| (s(k), v)).collect())
}

fn st(x: &str) -> JsonValue {
    JsonValue::Str(s(x))
}

#[test]
fn json_spans() {
    assert_eq!(extract_json_array("好的：[{\"a\":1}] 完").as_deref(), Some("[{\"a\":1}]"));
    assert_eq!(extract_json_array("] then ["), None);
    assert_eq!(extract_json_array("none"), None);
    assert_eq!(json_object_span("```json\n{\"title\":\"x\"}\n```").unwrap(), "{\"title\":\"x\"}");
    assert_eq!(json_object_span("no json").unwrap_err(), NO_BOOK_JSON);
    assert_eq!(json_object_span("} {").unwrap_err(), NO_BOOK_JSON);
}

#[test]
fn book_meta_fields() {
    let v = obj(vec![
        ("书名", st(" 烬城夜行 ")),
        ("genre", JsonValue::Number(s("3"))),
        ("体裁", st("都市奇幻")),
        ("style_prompt", st("冷")),
        ("description", st("一句话")),
    ]);
    let m = book_meta_from_json(&v).unwrap();
    assert_eq!(m.title, "烬城夜行");
    assert_eq!(m.genre, "都市奇幻");
    assert_eq!(m.style_prompt, "冷");
    assert_eq!(m.description, "一句话");
    let no_title = obj(vec![("title", st("  ")), ("genre", st("x"))]);
    assert_eq!(book_meta_from_json(&no_title).unwrap_err(), NO_BOOK_TITLE);
    assert_eq!(book_meta_from_json(&JsonValue::Array(vec![])).unwrap_err(), NO_BOOK_TITLE);
}

#[test]
fn memories_from_model_json() {
    let doc = JsonValue::Array(vec![
        obj(vec![("kind", st("world")), ("title", st("夜契")), ("content", st("不可撕")), ("source", st("第一章"))]),
        obj(vec![("content", st("  "))]),
        obj(vec![("content", st("事实")), ("source", st(" "))]),
        st("not an object"),
    ]);
    let ms = memories_from_json(&doc, &s("p1")).unwrap();
    assert_eq!(ms.len(), 2);
    assert_eq!((ms[0].kind.as_str(), ms[0].title.as_str(), ms[0].content.as_str(), ms[0].source.as_str()), ("world", "夜契", "不可撕", "第一章"));
    assert_eq!((ms[1].kind.as_str(), ms[1].title.as_str(), ms[1].source.as_str()), ("plot", "未命名记忆", "历史章节"));
    assert!(ms.iter().all(|m| m.id.is_empty() && m.project_id == "p1" && m.created_at.is_empty()));
    assert!(memories_from_json(&obj(vec![]), &s("p1")).is_none());
}

#[test]
fn chat_answers() {
    let chunk = obj(vec![("choices", JsonValue::Array(vec![obj(vec![("delta", obj(vec![("content", st("雨"))]))])]))]);
    assert_eq!(delta_content(&chunk).as_deref(), Some("雨"));
    let empty = obj(vec![("choices", JsonValue::Array(vec![obj(vec![("delta", obj(vec![("content", st(""))]))])]))]);
    assert_eq!(delta_content(&empty), None);
    assert_eq!(delta_content(&JsonValue::Null), None);
    let answer = obj(vec![("choices", JsonValue::Array(vec![obj(vec![("message", obj(vec![("content", st(" 好 "))]))])]))]);
    assert_eq!(completion_text(&answer).unwrap(), " 好 ");
    let blank = obj(vec![("choices", JsonValue::Array(vec![obj(vec![("message", obj(vec![("content", st(" "))]))])]))]);
    assert_eq!(completion_text(&blank).unwrap_err(), NO_CONTENT);
    let models = obj(vec![("data", JsonValue::Array(vec![obj(vec![("id", st("m1"))]), obj(vec![]), obj(vec![("id", st("m2"))])]))]);
    assert_eq!(model_ids(&models), vec![s("m1"), s("m2")]);
    assert!(model_ids(&obj(vec![("data", st("x"))])).is_empty());
}

#[test]
fn service_urls_and_tokens() {
    assert_eq!(endpoint(" http://127.0.0.1:11434/v1// ", "chat/completions"), "http://127.0.0.1:11434/v1/chat/completions");
    assert_eq!(endpoint("https://api.deepseek.com/v1", "models"), "https://api.deepseek.com/v1/models");
    let mut set = AppSettings::default();
    assert_eq!(bearer(&set), "Bearer local");
    set.api_key = s("  sk-1 ");
    assert_eq!(bearer(&set), "Bearer sk-1");
    assert_eq!(mode_label(&set), "在线模型");
    set.mode = s("local");
    assert_eq!(mode_label(&set), "本地模型");
    assert_eq!(clip_err(&"x".repeat(300)), format!("{}…", "x".repeat(280)));
}

#[test]
fn model_must_be_configured() {
    let mut set = AppSettings::default();
    assert!(require_model(&set).is_ok());
    assert!(connection_precheck(&set).is_none());
    set.model = s("  ");
    assert_eq!(require_model(&set).unwrap_err(), CONFIGURE_FIRST);
    let t = connection_precheck(&set).unwrap();
    assert!(!t.ok);
    assert_eq!(t.message, NOT_CONFIGURED);
    assert!(t.models.is_empty());
}

#[test]
fn connection_reports() {
    let set = AppSettings::default();
    let r = connection_report(&set, vec![], Ok(s("好")));
    assert!(r.ok);
    assert_eq!(r.message, "已连通 在线模型 / deepseek-chat");
    let r2 = connection_report(&set, (0..12).map(|i| format!("m{i}")).collect(), Ok(s("好")));
    assert_eq!(r2.message, "已连通 在线模型，当前模型 deepseek-chat，服务列出 12 个模型。");
    assert_eq!(r2.models.len(), 12);
    let r3 = connection_report(&set, vec![s("m")], Err(s("坏了")));
    assert!(!r3.ok);
    assert_eq!(r3.message, "坏了");
    assert_eq!(decimal_text(0), "0");
    assert_eq!(decimal_text(1203), "1203");
}

#[test]
fn stream_lines() {
    let mut buf = s("data: {\"a\":1}\r\n\ndata: [DO");
    let lines = drain_lines(&mut buf);
    assert_eq!(lines, vec![s("data: {\"a\":1}"), s("")]);
    assert_eq!(buf, "data: [DO");
    buf.push_str("NE]\n");
    let lines2 = drain_lines(&mut buf);
    assert_eq!(lines2, vec![s("data: [DONE]")]);
    assert_eq!(buf, "");
    assert_eq!(sse_payload("data: {\"x\":2} ").as_deref(), Some("{\"x\":2}"));
    assert_eq!(sse_payload("data: [DONE]"), None);
    assert_eq!(sse_payload("data:"), None);
    assert_eq!(sse_payload("event: ping"), None);
    assert_eq!(stream_result(s(" "), false).unwrap_err(), NO_STREAM_TEXT);
    assert_eq!(stream_result(s(" "), true).unwrap(), " ");
    assert_eq!(stream_result(s("雨"), false).unwrap(), "雨");
}

#[test]
fn after_generation() {
    assert_eq!(follow_up("memory", false), FollowUp::SaveMemories);
    assert_eq!(follow_up("summarize", false), FollowUp::SaveSummary);
    assert_eq!(follow_up("summarize", true), FollowUp::Nothing);
    assert_eq!(follow_up("draft", false), FollowUp::Nothing);
    let p = ContextPreview { items: vec![], system_prompt: s("sys"), user_prompt: s("usr") };
    let m = generation_messages(&p);
    assert_eq!((m[0].role.as_str(), m[0].content.as_str()), ("system", "sys"));
    assert_eq!((m[1].role.as_str(), m[1].content.as_str()), ("user", "usr"));
    let c = Chapter {
        id: s("c"),
        project_id: s("p"),
        outline_id: None,
        title: s("t"),
        content: s("x"),
        summary: s("old"),
        order_index: 3,
        status: s("done"),
        created_at: s("a"),
        updated_at: s("b"),
    };
    let c2 = with_summary(c, "  新摘要\n");
    assert_eq!(c2.summary, "新摘要");
    assert_eq!(c2.order_index, 3);
    assert_eq!(c2.content, "x");
}

#[test]
fn stream_steps_and_tail() {
    let mut buf = s("data: {\"a\"");
    let got = stream_step(&mut buf, ":1}\n: ping\ndata: [DONE]\ndata: {\"b\":2}\r\ndata: {\"c", false).unwrap();
    assert_eq!(got, vec![s("{\"a\":1}"), s("{\"b\":2}")]);
    assert_eq!(buf, "data: {\"c");
    assert!(stream_step(&mut buf, "\":3}\n", true).is_none());
    assert_eq!(buf, "data: {\"c");
    assert_eq!(stream_tail("  data: {\"c\":3}  ").as_deref(), Some("{\"c\":3}"));
    assert_eq!(stream_tail("   "), None);
    assert_eq!(stream_tail("data: [DONE]"), None);
}

#[test]
fn one_shot_token_limit() {
    let mut st = AppSettings::default();
    st.max_tokens = 4000;
    assert_eq!(brief_max_tokens(&st), 1200);
    st.max_tokens = 300;
    assert_eq!(brief_max_tokens(&st), 300);
}
