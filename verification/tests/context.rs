use mohe::models::{
    AppSettings, BookMetaSeed, Chapter, Character, ContextItem, Entry, GenerateRequest, Memory,
    Outline, Project, ProjectBundle,
};
use mohe::prompt::{
    book_meta_messages, build_context, compose_query, empty_mark, format_character,
    historical_chapters, previous_summaries, push_unique, retrieval_plan, target_of, trim_budget,
};
use mohe::score::int_score_key;
use mohe::texts::{
    KEEP_DRAFT, KEEP_EXPAND, META_HEAD, META_TAIL, NO_INSTRUCTION, RULES_CHAPTER, RULES_MEMORY,
    TASK_CONTINUE, TASK_MEMORY,
};

fn s(x: &str) -> String {
    x.to_string()
}

fn character(id: &str, name: &str, aliases: &str) -> Character {
    Character {
        id: s(id),
        project_id: s("p"),
        name: s(name),
        aliases: s(aliases),
        role: String::new(),
        personality: String::new(),
        appearance: String::new(),
        background: String::new(),
        goals: String::new(),
        relationships: String::new(),
        current_state: String::new(),
        notes: String::new(),
        created_at: String::new(),
        updated_at: String::new(),
    }
}

fn chapter(id: &str, title: &str, content: &str, summary: &str, order: i64, created: &str) -> Chapter {
    Chapter {
        id: s(id),
        project_id: s("p"),
        outline_id: None,
        title: s(title),
        content: s(content),
        summary: s(summary),
        order_index: order,
        status: s("draft"),
        created_at: s(created),
        updated_at: s(created),
    }
}

fn book() -> ProjectBundle {
    ProjectBundle {
        project: Project {
            id: s("p"),
            title: s("书"),
            genre: s("奇幻"),
            description: s("简介"),
            style_prompt: s("冷"),
            created_at: String::new(),
            updated_at: String::new(),
        },
        characters: vec![character("c1", "沈照", "巡灯人,瞎子沈"), character("c2", "白疏", "小白")],
        entries: vec![Entry {
            id: s("e1"),
            project_id: s("p"),
            title: s("烬城"),
            category: s("地点"),
            content: s("城市"),
            tags: String::new(),
            created_at: String::new(),
            updated_at: String::new(),
        }],
        outlines: vec![Outline {
            id: s("o1"),
            project_id: s("p"),
            parent_id: None,
            title: s("卷一"),
            content: s("大纲内容"),
            order_index: 1,
            status: s("draft"),
            created_at: String::new(),
            updated_at: String::new(),
        }],
        chapters: vec![
            chapter("ch2", "第二章", "正文二", "", 2, "2024-01-02"),
            chapter("ch1", "第一章", "正文一", "摘要一", 1, "2024-01-01"),
        ],
        memories: vec![Memory {
            id: s("m1"),
            project_id: s("p"),
            kind: s("plot"),
            title: s("记忆一"),
            content: s("事实"),
            source: String::new(),
            created_at: String::new(),
            updated_at: String::new(),
        }],
    }
}

fn request(mode: &str, chapter_id: Option<&str>, instruction: &str) -> GenerateRequest {
    GenerateRequest {
        project_id: s("p"),
        chapter_id: chapter_id.map(s),
        outline_id: None,
        character_id: None,
        entry_id: None,
        character_ids: Vec::new(),
        entry_ids: Vec::new(),
        instruction: s(instruction),
        mode: s(mode),
        target: String::new(),
        selected_text: None,
        object_snapshot: None,
    }
}

fn card_c1() -> String {
    s("姓名：沈照\n别称：巡灯人,瞎子沈\n定位：\n性格：\n外貌：\n背景：\n目标：\n关系：\n当前状态：\n备注：")
}

#[test]
fn default_settings() {
    let d = AppSettings::default();
    assert_eq!(d.mode, "online");
    assert_eq!(d.preset, "deepseek");
    assert_eq!(d.base_url, "https://api.deepseek.com/v1");
    assert_eq!(d.model, "deepseek-chat");
    assert_eq!(f32::from_bits(d.temperature_bits), 0.85f32);
    assert_eq!(d.max_tokens, 2048);
    assert_eq!(d.retrieve_k, 8);
    assert_eq!(d.context_budget, 7000);
    assert!(d.include_memories && d.include_retrieval && d.include_outline);
    assert!(d.include_characters && d.include_entries);
    assert!(d.api_key.is_empty() && d.writing_style.is_empty());
}

#[test]
fn target_follows_request() {
    let mut r = request("draft", None, "");
    assert_eq!(target_of(&r), "chapters");
    r.outline_id = Some(s("o1"));
    assert_eq!(target_of(&r), "outlines");
    r.chapter_id = Some(s("ch1"));
    assert_eq!(target_of(&r), "chapters");
    r.entry_id = Some(s("e1"));
    assert_eq!(target_of(&r), "entries");
    r.character_id = Some(s("c1"));
    assert_eq!(target_of(&r), "characters");
    r.mode = s("memory");
    assert_eq!(target_of(&r), "memories");
    r.target = s("  outlines ");
    assert_eq!(target_of(&r), "outlines");
}

#[test]
fn character_card_text() {
    assert_eq!(format_character(&character("c1", "沈照", "巡灯人,瞎子沈")), card_c1());
}

#[test]
fn query_is_composed_line_by_line() {
    let b = book();
    let r = request("continue", Some("ch2"), "让巡灯人出场");
    let q = compose_query(&r, Some(&b.chapters[0]), None, None, None);
    assert_eq!(q, "让巡灯人出场\n第二章\n\n正文二");
}

#[test]
fn history_is_in_book_order() {
    let b = book();
    let h: Vec<String> = historical_chapters(&b, None).into_iter().map(|c| c.id).collect();
    assert_eq!(h, vec!["ch1", "ch2"]);
    let h2: Vec<String> = historical_chapters(&b, Some(&b.chapters[0])).into_iter().map(|c| c.id).collect();
    assert_eq!(h2, vec!["ch1"]);
    assert_eq!(previous_summaries(&b, &b.chapters[0]), "《第一章》：摘要一\n正文一");
    assert_eq!(previous_summaries(&b, &b.chapters[1]), "");
}

#[test]
fn blank_chapters_are_no_history() {
    let mut b = book();
    b.chapters = vec![chapter("x", "空", "  ", "", 1, "a"), chapter("y", "空二", "", " ", 0, "b")];
    assert!(historical_chapters(&b, None).is_empty());
    let ctx = build_context(&b, &AppSettings::default(), &request("memory", None, ""), &Vec::new());
    assert!(ctx.items.iter().all(|it| it.kind != "chapter"));
    let later = b.chapters[0].clone();
    assert_eq!(previous_summaries(&b, &later), "《空二》：");
}

#[test]
fn retrieval_plan_by_mode() {
    let b = book();
    let st = AppSettings::default();
    let p = retrieval_plan(&b, &st, &request("continue", Some("ch2"), "让巡灯人出场")).unwrap();
    assert_eq!(p.query, "让巡灯人出场\n第二章\n\n正文二");
    assert_eq!(p.limit, 8);
    assert!(retrieval_plan(&b, &st, &request("memory", None, "")).is_none());
    let mut off = AppSettings::default();
    off.include_retrieval = false;
    assert!(retrieval_plan(&b, &off, &request("draft", None, "")).is_none());
    let mut zero = AppSettings::default();
    zero.retrieve_k = 0;
    assert_eq!(retrieval_plan(&b, &zero, &request("draft", None, "x")).unwrap().limit, 1);
}

#[test]
fn chapter_context_and_prompts() {
    let b = book();
    let st = AppSettings::default();
    let r = request("continue", Some("ch2"), "让巡灯人出场");
    let retrieved = vec![
        ContextItem { kind: s("chapter"), id: s("ch2"), title: s("章节 · 第二章"), snippet: s("正文二"), score: int_score_key(5) },
        ContextItem { kind: s("entry"), id: s("e1"), title: s("条目 · 烬城"), snippet: s("城市"), score: int_score_key(85) },
        ContextItem { kind: s("character"), id: s("c1"), title: s("角色 · 沈照"), snippet: s("x"), score: int_score_key(100) },
    ];
    let p = build_context(&b, &st, &r, &retrieved);
    let got: Vec<(String, String, u32)> = p.items.iter().map(|i| (i.kind.clone(), i.id.clone(), i.score)).collect();
    assert_eq!(
        got,
        vec![
            (s("summary"), s("prev-ch2"), int_score_key(95)),
            (s("character"), s("c1"), int_score_key(90)),
            (s("entry"), s("e1"), int_score_key(85)),
            (s("memory"), s("m1"), int_score_key(80)),
        ]
    );
    assert_eq!(p.items[0].title, "前文摘要");
    assert_eq!(p.items[0].snippet, "《第一章》：摘要一\n正文一");
    assert_eq!(p.items[1].title, "角色 · 沈照");
    assert_eq!(p.items[1].snippet, card_c1());
    assert_eq!(p.items[3].title, "记忆 · 记忆一");
    assert_eq!(p.items[3].snippet, "事实");
    let system = format!(
        "你是长篇小说创作助手「墨衡」。作者与你轮流改结构化对象：你起草或扩写，作者在中间栏修订，你再根据修订稿扩展。\n书名：《书》\n体裁：奇幻\n简介：简介\n写作风格：冷\n\n{RULES_CHAPTER}"
    );
    assert_eq!(p.system_prompt, system);
    let blocks = format!(
        "## 前文摘要\n《第一章》：摘要一\n正文一\n\n## 角色 · 沈照\n{}\n\n## 条目 · 烬城\n城市\n\n## 记忆 · 记忆一\n事实\n\n",
        card_c1()
    );
    let user = format!(
        "以下是本书的结构化对象、长期记忆与检索结果，生成时必须遵守。\n\n{blocks}\n## 人工修订稿 / 当前对象\n章名：第二章\n摘要：（无）\n正文：\n正文二\n\n\n\n对象：章节\n任务：续写\n任务说明：{TASK_CONTINUE}\n用户指令：让巡灯人出场\n书中已有角色：沈照、白疏"
    );
    assert_eq!(p.user_prompt, user);
}

#[test]
fn memory_context_uses_written_chapters() {
    let b = book();
    let st = AppSettings::default();
    let r = request("memory", None, "");
    let p = build_context(&b, &st, &r, &Vec::new());
    let got: Vec<(String, String, u32)> = p.items.iter().map(|i| (i.kind.clone(), i.id.clone(), i.score)).collect();
    assert_eq!(
        got,
        vec![
            (s("chapter"), s("ch1"), int_score_key(96)),
            (s("chapter"), s("ch2"), int_score_key(95)),
            (s("memory"), s("m1"), int_score_key(80)),
        ]
    );
    assert_eq!(p.items[0].title, "历史章节 · 第一章");
    assert_eq!(p.items[0].snippet, "摘要一\n正文一");
    assert!(p.system_prompt.ends_with(RULES_MEMORY));
    assert!(p.user_prompt.contains(&format!("对象：记忆\n任务：从历史章节提炼记忆\n任务说明：{TASK_MEMORY}\n用户指令：提炼尚未入库的关键事实。")));
}

#[test]
fn picked_and_current_objects() {
    let b = book();
    let mut st = AppSettings::default();
    st.include_memories = false;
    let mut r = request("draft", None, "");
    r.character_id = Some(s("c2"));
    r.character_ids = vec![s("c1"), s("missing"), s("c2")];
    r.entry_ids = vec![s("e1")];
    r.outline_id = Some(s("o1"));
    r.object_snapshot = Some(s(" {} "));
    let p = build_context(&b, &st, &r, &Vec::new());
    let got: Vec<(String, String, u32)> = p.items.iter().map(|i| (i.kind.clone(), i.id.clone(), i.score)).collect();
    // c2 is first offered as picked (98); the current-character offer (99) is a repeat and dropped.
    assert_eq!(
        got,
        vec![
            (s("outline"), s("o1"), int_score_key(99)),
            (s("character"), s("c1"), int_score_key(98)),
            (s("character"), s("c2"), int_score_key(98)),
            (s("entry"), s("e1"), int_score_key(97)),
        ]
    );
    assert_eq!(p.items[0].title, "当前大纲 · 卷一");
    assert_eq!(p.items[3].title, "条目 · 烬城（地点）");
    // target is characters; the "{}" snapshot counts as none, so the stored card is shown.
    assert!(p.user_prompt.contains("## 人工修订稿 / 当前对象\n姓名：白疏\n别称：小白"));
}

#[test]
fn budget_drops_what_does_not_fit() {
    let mk = |id: &str, len: usize| ContextItem {
        kind: s("entry"),
        id: s(id),
        title: String::new(),
        snippet: "字".repeat(len),
        score: 0,
    };
    let kept: Vec<String> = trim_budget(vec![mk("a", 5), mk("b", 6), mk("c", 3), mk("d", 2)], 10)
        .into_iter()
        .map(|i| i.id)
        .collect();
    assert_eq!(kept, vec!["a", "c", "d"]);
    let big: Vec<String> = trim_budget(vec![mk("z", 0), mk("a", 50), mk("b", 1)], 10).into_iter().map(|i| i.id).collect();
    assert_eq!(big, vec!["z", "a"]);
}

#[test]
fn duplicates_are_pushed_once() {
    let mut items = Vec::new();
    let it = |kind: &str, id: &str, sc: u32| ContextItem { kind: s(kind), id: s(id), title: String::new(), snippet: String::new(), score: sc };
    push_unique(&mut items, it("entry", "e1", 1));
    push_unique(&mut items, it("entry", "e1", 9));
    push_unique(&mut items, it("character", "e1", 2));
    assert_eq!(items.len(), 2);
    assert_eq!(items[0].score, 1);
}

#[test]
fn book_meta_prompt() {
    let seed = BookMetaSeed {
        title: s(" 烬城 "),
        genre: String::new(),
        style_prompt: s("冷"),
        description: s("  "),
        instruction: String::new(),
        mode: s("expand"),
    };
    let m = book_meta_messages(&seed);
    assert_eq!(m.len(), 2);
    assert_eq!(m[0].role, "system");
    assert_eq!(m[0].content, format!("{META_HEAD}{KEEP_EXPAND}{META_TAIL}"));
    assert_eq!(m[1].role, "user");
    assert_eq!(
        m[1].content,
        format!("已填书名：烬城\n已填体裁：（空）\n已填文风：冷\n已填简介：（空）\n作者指令：{NO_INSTRUCTION}")
    );
    let mut draft = seed.clone_fields();
    draft.mode = s("draft");
    draft.instruction = s(" 写一本科幻 ");
    let m2 = book_meta_messages(&draft);
    assert_eq!(m2[0].content, format!("{META_HEAD}{KEEP_DRAFT}{META_TAIL}"));
    assert!(m2[1].content.ends_with("作者指令：写一本科幻"));
    assert_eq!(empty_mark(" x "), "x");
}

trait CloneFields {
    fn clone_fields(&self) -> Self;
}

impl CloneFields for BookMetaSeed {
    fn clone_fields(&self) -> Self {
        BookMetaSeed {
            title: self.title.clone(),
            genre: self.genre.clone(),
            style_prompt: self.style_prompt.clone(),
            description: self.description.clone(),
            instruction: self.instruction.clone(),
            mode: self.mode.clone(),
        }
    }
}

#[test]
fn memory_mode_ignores_retrieved() {
    let b = book();
    let st = AppSettings::default();
    let r = request("memory", None, "");
    let hit = ContextItem { kind: s("entry"), id: s("zz"), title: s("检索"), snippet: s("x"), score: int_score_key(99) };
    let with = build_context(&b, &st, &r, &vec![hit]);
    let mut off = AppSettings::default();
    off.include_retrieval = false;
    let without = build_context(&b, &off, &r, &Vec::new());
    let ids = |p: &mohe::models::ContextPreview| p.items.iter().map(|i| i.id.clone()).collect::<Vec<_>>();
    assert_eq!(ids(&with), ids(&without));
    assert_eq!(with.system_prompt, without.system_prompt);
    assert_eq!(with.user_prompt, without.user_prompt);
}
