use mohe::models::{Memory, Outline, Project, ProjectBundle};
use mohe::records::{now, nid, prepare_memory, prepare_outline, prepare_project, stamp_outline, stamp_project};
use mohe::retrieval::{name_boosts, search_candidates, search_docs};
use mohe::seed::{
    demo_chapter, demo_chapter_outlines, demo_characters, demo_entries, demo_memories,
    demo_project, demo_volume, find_demo, PROJECT_TITLE,
};

fn s(x: &str) -> String {
    x.to_string()
}

fn project(id: &str, title: &str, created: &str) -> Project {
    Project {
        id: s(id),
        title: s(title),
        genre: s("g"),
        description: s("d"),
        style_prompt: s("sp"),
        created_at: s(created),
        updated_at: s("old"),
    }
}

fn is_uuid(t: &str) -> bool {
    t.len() == 36
        && t.chars().enumerate().all(|(i, c)| {
            if [8, 13, 18, 23].contains(&i) {
                c == '-'
            } else {
                c.is_ascii_digit() || ('a'..='f').contains(&c)
            }
        })
}

#[test]
fn stamping_new_and_existing() {
    let ts = s("2024-05-01 10:00:00");
    let fresh = s("fresh-id");
    let p = stamp_project(project("", "书", "x"), &ts, &fresh);
    assert_eq!((p.id.as_str(), p.created_at.as_str(), p.updated_at.as_str()), ("fresh-id", "2024-05-01 10:00:00", "2024-05-01 10:00:00"));
    let q = stamp_project(project("p1", "书", "2023-01-01"), &ts, &fresh);
    assert_eq!((q.id.as_str(), q.created_at.as_str(), q.updated_at.as_str()), ("p1", "2023-01-01", "2024-05-01 10:00:00"));
    let r = stamp_project(project("p1", "书", ""), &ts, &fresh);
    assert_eq!(r.created_at, ts);
    assert_eq!(r.title, "书");
    let o = Outline {
        id: s("o"),
        project_id: s("p"),
        parent_id: Some(String::new()),
        title: s("t"),
        content: s("c"),
        order_index: 2,
        status: s("draft"),
        created_at: s("c0"),
        updated_at: s("u0"),
    };
    let o2 = stamp_outline(o, &ts, &fresh);
    assert_eq!(o2.parent_id, None);
    assert_eq!(o2.created_at, "c0");
}

#[test]
fn preparing_gives_ids_and_times() {
    let p = prepare_project(project("", "书", ""));
    assert!(is_uuid(&p.id), "{}", p.id);
    assert_eq!(p.created_at, p.updated_at);
    assert_eq!(p.updated_at.len(), 19);
    let kept = prepare_project(project("keep", "书", "2020"));
    assert_eq!(kept.id, "keep");
    assert_eq!(kept.created_at, "2020");
    let m = prepare_memory(Memory {
        id: String::new(),
        project_id: s("p"),
        kind: s("plot"),
        title: s("t"),
        content: s("c"),
        source: s("src"),
        created_at: String::new(),
        updated_at: String::new(),
    });
    assert!(is_uuid(&m.id));
    let o = prepare_outline(Outline {
        id: s("o"),
        project_id: s("p"),
        parent_id: Some(s("parent")),
        title: s("t"),
        content: s("c"),
        order_index: 1,
        status: s("draft"),
        created_at: String::new(),
        updated_at: String::new(),
    });
    assert_eq!(o.id, "o");
    assert_eq!(o.parent_id.as_deref(), Some("parent"));
}

#[test]
fn demo_book_is_found_once() {
    let list = vec![project("a", "别的书", ""), project("b", "烬城夜行", ""), project("c", "烬城夜行", "")];
    assert_eq!(find_demo(&list), Some(1));
    assert_eq!(find_demo(&vec![project("a", "别的书", "")]), None);
    assert_eq!(PROJECT_TITLE, "烬城夜行");
}

#[test]
fn demo_book_records() {
    let p = demo_project();
    assert_eq!(p.title, "烬城夜行");
    assert_eq!(p.genre, "都市奇幻");
    assert!(p.id.is_empty());
    let pid = s("pid");
    let cs = demo_characters(&pid);
    assert_eq!(cs.iter().map(|c| c.name.as_str()).collect::<Vec<_>>(), vec!["沈照", "白疏"]);
    assert_eq!(cs[0].aliases, "巡灯人,瞎子沈");
    assert!(cs.iter().all(|c| c.project_id == "pid"));
    let es = demo_entries(&pid);
    assert_eq!(es.iter().map(|e| e.title.as_str()).collect::<Vec<_>>(), vec!["烬城", "夜契", "残灯会"]);
    let v = demo_volume(&pid);
    assert_eq!((v.title.as_str(), v.order_index, v.parent_id.is_none()), ("卷一 · 灰信", 1, true));
    let os = demo_chapter_outlines(&pid, &s("vol"));
    assert_eq!(os.len(), 2);
    assert_eq!(os[1].title, "第二章 · 灯芯里的字");
    assert_eq!((os[1].order_index, os[1].status.as_str()), (2, "draft"));
    assert!(os.iter().all(|o| o.parent_id.as_deref() == Some("vol")));
    let ch = demo_chapter(&pid, &s("o1"));
    assert_eq!(ch.outline_id.as_deref(), Some("o1"));
    assert!(ch.content.starts_with("雨先到。"));
    let ms = demo_memories(&pid);
    assert_eq!(ms.iter().map(|m| m.kind.as_str()).collect::<Vec<_>>(), vec!["character", "world"]);
}

#[test]
fn search_over_the_demo_book() {
    let pid = s("p");
    let mut cs = demo_characters(&pid);
    cs[0].id = s("shen");
    cs[1].id = s("bai");
    let mut es = demo_entries(&pid);
    es[0].id = s("city");
    es[1].id = s("pact");
    es[2].id = s("guild");
    let bundle = ProjectBundle {
        project: demo_project(),
        characters: cs,
        entries: es,
        outlines: vec![],
        chapters: vec![],
        memories: vec![],
    };
    assert_eq!(name_boosts(&bundle, "瞎子沈去了烬城"), vec![s("shen"), s("city")]);
    assert_eq!(name_boosts(&bundle, "没有人"), Vec::<String>::new());
    let docs = search_docs(&bundle);
    assert_eq!(docs.len(), 5);
    assert_eq!(docs[0].title, "角色 · 沈照");
    assert_eq!(docs[2].kind, "entry");
    assert_eq!(docs[2].text, format!("地点\n城市,雨,河\n{}", bundle.entries[0].content));
    let cands = search_candidates(&bundle, "烬城 雨");
    assert_eq!(cands.len(), 5);
    let city = &cands[2];
    assert_eq!(city.id, "city");
    assert_eq!(city.boosts, 1);
    // query tokens: 烬, 烬城, 城, 雨
    assert_eq!(city.term_counts.len(), 4);
    assert!(city.term_counts[1] >= 2);
    assert_eq!(cands[0].boosts, 0);
}

#[test]
fn clock_and_ids_have_their_layout() {
    let t: Vec<char> = now().chars().collect();
    assert_eq!(t.len(), 19);
    for (i, c) in t.iter().enumerate() {
        match i {
            4 | 7 => assert_eq!(*c, '-'),
            10 => assert_eq!(*c, ' '),
            13 | 16 => assert_eq!(*c, ':'),
            _ => assert!(c.is_ascii_digit()),
        }
    }
    let id: Vec<char> = nid().chars().collect();
    assert_eq!(id[14], '4');
    assert!(['8', '9', 'a', 'b'].contains(&id[19]));
    let p = prepare_project(project("", "新书", ""));
    assert_eq!(p.created_at, p.updated_at);
    assert_eq!(p.created_at.chars().count(), 19);
}

#[test]
fn reseeding_finds_the_same_book() {
    let mut stored = vec![project("p1", "别的书", "a"), project("p2", PROJECT_TITLE, "b")];
    assert_eq!(find_demo(&stored), Some(1));
    stored.push(project("p3", PROJECT_TITLE, "c"));
    assert_eq!(find_demo(&stored), Some(1));
    assert_eq!(find_demo(&stored), find_demo(&stored));
}

#[test]
fn named_characters_lead_the_boosts() {
    let pid = s("p");
    let mut b = ProjectBundle {
        project: project("p", PROJECT_TITLE, "a"),
        characters: demo_characters(&pid),
        entries: demo_entries(&pid),
        outlines: Vec::new(),
        chapters: Vec::new(),
        memories: Vec::new(),
    };
    for (i, c) in b.characters.iter_mut().enumerate() {
        c.id = format!("c{i}");
    }
    for (i, e) in b.entries.iter_mut().enumerate() {
        e.id = format!("e{i}");
    }
    let query = format!("{}在{}等{}", b.characters[1].name, b.entries[0].title, "瞎子沈");
    let ids = name_boosts(&b, &query);
    assert_eq!(ids, vec![s("c0"), s("c1"), s("e0")]);
}
