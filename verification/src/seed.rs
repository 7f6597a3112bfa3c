//! The demo book, 《烬城夜行》: its records, ready to be saved in order.

use vstd::prelude::*;
use crate::models::{Chapter, Character, Entry, Memory, Outline, Project};

verus! {


pub const PROJECT_TITLE: &'static str = "烬城夜行";

pub const PROJECT_GENRE: &'static str = "都市奇幻";

pub const PROJECT_DESCRIPTION: &'static str = "雨夜的烬城底层，旧契约仍在呼吸。失去夜视的巡灯人沈照，被档案员白疏拽进一场不该被记录的失踪。";

pub const PROJECT_STYLE_PROMPT: &'static str = "冷而克制，短句多，少解释。城市潮湿、灯火脏、对话有潜台词。避免喊口号和穿越式吐槽。";

pub const SHEN_NAME: &'static str = "沈照";

pub const SHEN_ALIASES: &'static str = "巡灯人,瞎子沈";

pub const SHEN_ROLE: &'static str = "主角 / 前巡灯司巡夜官";

pub const SHEN_PERSONALITY: &'static str = "寡言，记账式思维，恨麻烦但停不下来。对 lumina 过敏般厌恶。";

pub const SHEN_APPEARANCE: &'static str = "右眼覆一层薄翳，常戴旧毡帽。左手小指缺一节。穿洗白的青灰风衣。";

pub const SHEN_BACKGROUND: &'static str = "三年前在残灯会后门失去左眼的夜视能力，被巡灯司除名，现以代写文书为生。";

pub const SHEN_GOALS: &'static str = "找到当年夜契被改写的人，并确认自己是否还算活人。";

pub const SHEN_RELATIONSHIPS: &'static str = "白疏是他唯一肯主动联系的人；对残灯会旧人保持礼貌的敌意。";

pub const SHEN_CURRENT_STATE: &'static str = "刚收到一封没有署名的灰信，约他今夜去南桥下。右眼开始能看见灯芯里的字。";

pub const SHEN_NOTES: &'static str = "说话不叫人全名，常用职业或外号。不用感叹号。";

pub const BAI_NAME: &'static str = "白疏";

pub const BAI_ALIASES: &'static str = "小白,档案室的";

pub const BAI_ROLE: &'static str = "档案员 / 引路人";

pub const BAI_PERSONALITY: &'static str = "语速快，爱纠正用词，害怕潮湿却总在雨里出门。表面刻薄，记仇也记恩。";

pub const BAI_APPEARANCE: &'static str = "短发，耳后一颗痣。常把铅笔别在领口，指腹有墨。";

pub const BAI_BACKGROUND: &'static str = "烬城地下档案库编外人员，能看见被墨水吞掉的旧记录。";

pub const BAI_GOALS: &'static str = "把被抹去的失踪者重新写回簿册，哪怕只写一行。";

pub const BAI_RELATIONSHIPS: &'static str = "把沈照当半成品证人；对残灯会账房心怀旧怨。";

pub const BAI_CURRENT_STATE: &'static str = "偷出一页未归档的夜契残片，上面有沈照已烧掉的左眼签名。";

pub const BAI_NOTES: &'static str = "对话里爱用反问。不直说担心。";

pub const CITY_TITLE: &'static str = "烬城";

pub const CITY_CATEGORY: &'static str = "地点";

pub const CITY_CONTENT: &'static str = "沿河而建的旧工业城。白日灰扑扑，夜里灯火像未燃尽的炭。南桥以北是巡灯司旧辖区，以南是残灯会的地面。雨水会把墙上的告示冲成另一种句子。";

pub const CITY_TAGS: &'static str = "城市,雨,河";

pub const PACT_TITLE: &'static str = "夜契";

pub const PACT_CATEGORY: &'static str = "规则";

pub const PACT_CONTENT: &'static str = "用灯芯灰拌墨写成的契约。签下后，签名者在夜间必须履行条款，白天可以假装忘记。撕毁夜契不会取消义务，只会让义务改写到最近的见证人身上。";

pub const PACT_TAGS: &'static str = "契约,灯,规则";

pub const GUILD_TITLE: &'static str = "残灯会";

pub const GUILD_CATEGORY: &'static str = "组织";

pub const GUILD_CONTENT: &'static str = "表面上是南桥旧灯具行会，实际买卖未完成的夜契。账房不记账本，只记账人。后门永远潮湿，门槛下埋着第一盏被熄灭的灯。";

pub const GUILD_TAGS: &'static str = "组织,反派,南桥";

pub const VOLUME_TITLE: &'static str = "卷一 · 灰信";

pub const VOLUME_CONTENT: &'static str = "沈照被一封灰信唤到南桥。白疏出现，出示夜契残片。两人必须在天亮前确认见证人是谁。";

pub const VOLUME_STATUS: &'static str = "writing";

pub const SCENE_ONE_TITLE: &'static str = "第一章 · 南桥下";

pub const SCENE_ONE_CONTENT: &'static str = "雨。灰信。沈照到得比约定早。桥洞里有一盏不该亮的灯。白疏把残片塞进他手里，残片烫得像刚灭的炭。远处有人用职业称呼叫他。";

pub const SCENE_ONE_STATUS: &'static str = "writing";

pub const SCENE_TWO_TITLE: &'static str = "第二章 · 灯芯里的字";

pub const SCENE_TWO_CONTENT: &'static str = "沈照右眼看见灯芯内的条款：见证人栏是空的。白疏坚持空栏比写错更危险。他们前往残灯会后门，却发现门槛下的灯已被挖走。";

pub const SCENE_TWO_STATUS: &'static str = "draft";

pub const CHAPTER_ONE_TITLE: &'static str = "第一章 · 南桥下";

pub const CHAPTER_ONE_CONTENT: &'static str = "雨先到。\n\n沈照把灰信折进帽檐，站在南桥第三根桥柱旁边。水声很旧，像有人在桥肚里反复清嗓子。他数过——从码头到桥洞要走二百四十步，今晚他走了二百三十八步，因为右眼突然能看见表盘上不存在的刻度。\n\n灯亮着。不该亮。\n\n桥洞里那盏灯没有灯罩，灯芯却立得很直，像一截不肯承认自己已死的骨头。沈照没有靠近。他只是把左手插进风衣口袋，摸到缺了一节的小指，确认自己还在。\n\n“巡灯人。”有人在雨里叫他，声音嫌弃得熟练，“你又早到。账上最讨厌早到的人。”\n\n白疏从桥阶上走下来，铅笔还别在领口，头发已经湿了。她把一张焦边残片按进他手里。纸是烫的。\n\n沈照低头。残片上有他的左眼——准确说，是一只被墨水吞到只剩轮廓的眼睛，旁边签着他三年前的名字。";

pub const CHAPTER_ONE_SUMMARY: &'static str = "雨夜南桥，沈照赴灰信之约。桥洞灯不该亮。白疏送来带有他左眼签名的夜契残片。";

pub const CHAPTER_ONE_STATUS: &'static str = "writing";

pub const SIGHT_KIND: &'static str = "character";

pub const SIGHT_TITLE: &'static str = "沈照失去夜视";

pub const SIGHT_CONTENT: &'static str = "三年前在残灯会后门，沈照失去左眼的夜视，被巡灯司除名。右眼近日开始能看见灯芯里的字。";

pub const SIGHT_SOURCE: &'static str = "设定";

pub const UNTEARABLE_KIND: &'static str = "world";

pub const UNTEARABLE_TITLE: &'static str = "夜契不可撕";

pub const UNTEARABLE_CONTENT: &'static str = "撕毁夜契不会取消义务，只会把义务改写到最近的见证人身上。见证人栏为空比填错更危险。";

pub const UNTEARABLE_SOURCE: &'static str = "条目";

/// `x` is a new project with these fields.
pub open spec fn project_is(x: Project, title: Seq<char>, genre: Seq<char>, description: Seq<char>, style_prompt: Seq<char>) -> bool {
    &&& x.id@.len() == 0
    &&& x.created_at@.len() == 0
    &&& x.updated_at@.len() == 0
    &&& x.title@ == title
    &&& x.genre@ == genre
    &&& x.description@ == description
    &&& x.style_prompt@ == style_prompt
}

/// `x` is a new character with these fields.
pub open spec fn character_is(x: Character, project_id: Seq<char>, name: Seq<char>, aliases: Seq<char>, role: Seq<char>, personality: Seq<char>, appearance: Seq<char>, background: Seq<char>, goals: Seq<char>, relationships: Seq<char>, current_state: Seq<char>, notes: Seq<char>) -> bool {
    &&& x.project_id@ == project_id
    &&& x.id@.len() == 0
    &&& x.created_at@.len() == 0
    &&& x.updated_at@.len() == 0
    &&& x.name@ == name
    &&& x.aliases@ == aliases
    &&& x.role@ == role
    &&& x.personality@ == personality
    &&& x.appearance@ == appearance
    &&& x.background@ == background
    &&& x.goals@ == goals
    &&& x.relationships@ == relationships
    &&& x.current_state@ == current_state
    &&& x.notes@ == notes
}

/// `x` is a new entry with these fields.
pub open spec fn entry_is(x: Entry, project_id: Seq<char>, title: Seq<char>, category: Seq<char>, content: Seq<char>, tags: Seq<char>) -> bool {
    &&& x.project_id@ == project_id
    &&& x.id@.len() == 0
    &&& x.created_at@.len() == 0
    &&& x.updated_at@.len() == 0
    &&& x.title@ == title
    &&& x.category@ == category
    &&& x.content@ == content
    &&& x.tags@ == tags
}

/// `x` is a new outline with these fields.
pub open spec fn outline_is(x: Outline, project_id: Seq<char>, title: Seq<char>, content: Seq<char>, status: Seq<char>) -> bool {
    &&& x.project_id@ == project_id
    &&& x.id@.len() == 0
    &&& x.created_at@.len() == 0
    &&& x.updated_at@.len() == 0
    &&& x.title@ == title
    &&& x.content@ == content
    &&& x.status@ == status
}

/// `x` is a new chapter with these fields.
pub open spec fn chapter_is(x: Chapter, project_id: Seq<char>, title: Seq<char>, content: Seq<char>, summary: Seq<char>, status: Seq<char>) -> bool {
    &&& x.project_id@ == project_id
    &&& x.id@.len() == 0
    &&& x.created_at@.len() == 0
    &&& x.updated_at@.len() == 0
    &&& x.title@ == title
    &&& x.content@ == content
    &&& x.summary@ == summary
    &&& x.status@ == status
}

/// `x` is a new memory with these fields.
pub open spec fn memory_is(x: Memory, project_id: Seq<char>, kind: Seq<char>, title: Seq<char>, content: Seq<char>, source: Seq<char>) -> bool {
    &&& x.project_id@ == project_id
    &&& x.id@.len() == 0
    &&& x.created_at@.len() == 0
    &&& x.updated_at@.len() == 0
    &&& x.kind@ == kind
    &&& x.title@ == title
    &&& x.content@ == content
    &&& x.source@ == source
}

/// The title the demo book is found by.
pub open spec fn demo_title() -> Seq<char> {
    PROJECT_TITLE@
}

/// The demo book.
pub fn demo_project() -> (r: Project)
    ensures
        project_is(r, PROJECT_TITLE@, PROJECT_GENRE@, PROJECT_DESCRIPTION@, PROJECT_STYLE_PROMPT@),
{
    Project {
        title: String::from_str(PROJECT_TITLE),
        genre: String::from_str(PROJECT_GENRE),
        description: String::from_str(PROJECT_DESCRIPTION),
        style_prompt: String::from_str(PROJECT_STYLE_PROMPT),
        id: String::new(),
        created_at: String::new(),
        updated_at: String::new(),
    }
}

/// The demo characters, 沈照 and 白疏.
pub fn demo_characters(pid: &String) -> (r: Vec<Character>)
    ensures
        r@.len() == 2,
        character_is(r@[0], pid@, SHEN_NAME@, SHEN_ALIASES@, SHEN_ROLE@, SHEN_PERSONALITY@, SHEN_APPEARANCE@, SHEN_BACKGROUND@, SHEN_GOALS@, SHEN_RELATIONSHIPS@, SHEN_CURRENT_STATE@, SHEN_NOTES@),
        character_is(r@[1], pid@, BAI_NAME@, BAI_ALIASES@, BAI_ROLE@, BAI_PERSONALITY@, BAI_APPEARANCE@, BAI_BACKGROUND@, BAI_GOALS@, BAI_RELATIONSHIPS@, BAI_CURRENT_STATE@, BAI_NOTES@),
{
    let mut r: Vec<Character> = Vec::new();
    r.push(    Character {
            name: String::from_str(SHEN_NAME),
            aliases: String::from_str(SHEN_ALIASES),
            role: String::from_str(SHEN_ROLE),
            personality: String::from_str(SHEN_PERSONALITY),
            appearance: String::from_str(SHEN_APPEARANCE),
            background: String::from_str(SHEN_BACKGROUND),
            goals: String::from_str(SHEN_GOALS),
            relationships: String::from_str(SHEN_RELATIONSHIPS),
            current_state: String::from_str(SHEN_CURRENT_STATE),
            notes: String::from_str(SHEN_NOTES),
            id: String::new(),
            project_id: pid.clone(),
            created_at: String::new(),
            updated_at: String::new(),
        });
    r.push(    Character {
            name: String::from_str(BAI_NAME),
            aliases: String::from_str(BAI_ALIASES),
            role: String::from_str(BAI_ROLE),
            personality: String::from_str(BAI_PERSONALITY),
            appearance: String::from_str(BAI_APPEARANCE),
            background: String::from_str(BAI_BACKGROUND),
            goals: String::from_str(BAI_GOALS),
            relationships: String::from_str(BAI_RELATIONSHIPS),
            current_state: String::from_str(BAI_CURRENT_STATE),
            notes: String::from_str(BAI_NOTES),
            id: String::new(),
            project_id: pid.clone(),
            created_at: String::new(),
            updated_at: String::new(),
        });
    r
}

/// The demo entries: the city, the night pact, the lamp guild.
pub fn demo_entries(pid: &String) -> (r: Vec<Entry>)
    ensures
        r@.len() == 3,
        entry_is(r@[0], pid@, CITY_TITLE@, CITY_CATEGORY@, CITY_CONTENT@, CITY_TAGS@),
        entry_is(r@[1], pid@, PACT_TITLE@, PACT_CATEGORY@, PACT_CONTENT@, PACT_TAGS@),
        entry_is(r@[2], pid@, GUILD_TITLE@, GUILD_CATEGORY@, GUILD_CONTENT@, GUILD_TAGS@),
{
    let mut r: Vec<Entry> = Vec::new();
    r.push(    Entry {
            title: String::from_str(CITY_TITLE),
            category: String::from_str(CITY_CATEGORY),
            content: String::from_str(CITY_CONTENT),
            tags: String::from_str(CITY_TAGS),
            id: String::new(),
            project_id: pid.clone(),
            created_at: String::new(),
            updated_at: String::new(),
        });
    r.push(    Entry {
            title: String::from_str(PACT_TITLE),
            category: String::from_str(PACT_CATEGORY),
            content: String::from_str(PACT_CONTENT),
            tags: String::from_str(PACT_TAGS),
            id: String::new(),
            project_id: pid.clone(),
            created_at: String::new(),
            updated_at: String::new(),
        });
    r.push(    Entry {
            title: String::from_str(GUILD_TITLE),
            category: String::from_str(GUILD_CATEGORY),
            content: String::from_str(GUILD_CONTENT),
            tags: String::from_str(GUILD_TAGS),
            id: String::new(),
            project_id: pid.clone(),
            created_at: String::new(),
            updated_at: String::new(),
        });
    r
}

/// The demo memories.
pub fn demo_memories(pid: &String) -> (r: Vec<Memory>)
    ensures
        r@.len() == 2,
        memory_is(r@[0], pid@, SIGHT_KIND@, SIGHT_TITLE@, SIGHT_CONTENT@, SIGHT_SOURCE@),
        memory_is(r@[1], pid@, UNTEARABLE_KIND@, UNTEARABLE_TITLE@, UNTEARABLE_CONTENT@, UNTEARABLE_SOURCE@),
{
    let mut r: Vec<Memory> = Vec::new();
    r.push(    Memory {
            kind: String::from_str(SIGHT_KIND),
            title: String::from_str(SIGHT_TITLE),
            content: String::from_str(SIGHT_CONTENT),
            source: String::from_str(SIGHT_SOURCE),
            id: String::new(),
            project_id: pid.clone(),
            created_at: String::new(),
            updated_at: String::new(),
        });
    r.push(    Memory {
            kind: String::from_str(UNTEARABLE_KIND),
            title: String::from_str(UNTEARABLE_TITLE),
            content: String::from_str(UNTEARABLE_CONTENT),
            source: String::from_str(UNTEARABLE_SOURCE),
            id: String::new(),
            project_id: pid.clone(),
            created_at: String::new(),
            updated_at: String::new(),
        });
    r
}

/// The demo volume outline, first in order.
pub fn demo_volume(pid: &String) -> (r: Outline)
    ensures
        outline_is(r, pid@, VOLUME_TITLE@, VOLUME_CONTENT@, VOLUME_STATUS@),
        r.parent_id is None,
        r.order_index == 1,
{
    Outline {
        title: String::from_str(VOLUME_TITLE),
        content: String::from_str(VOLUME_CONTENT),
        status: String::from_str(VOLUME_STATUS),
        id: String::new(),
        project_id: pid.clone(),
        parent_id: None,
        order_index: 1,
        created_at: String::new(),
        updated_at: String::new(),
    }
}

/// The demo chapter outlines under the volume `volume_id`.
pub fn demo_chapter_outlines(pid: &String, volume_id: &String) -> (r: Vec<Outline>)
    ensures
        r@.len() == 2,
        outline_is(r@[0], pid@, SCENE_ONE_TITLE@, SCENE_ONE_CONTENT@, SCENE_ONE_STATUS@),
        r@[0].parent_id == Some(*volume_id),
        r@[0].order_index == 1,
        outline_is(r@[1], pid@, SCENE_TWO_TITLE@, SCENE_TWO_CONTENT@, SCENE_TWO_STATUS@),
        r@[1].parent_id == Some(*volume_id),
        r@[1].order_index == 2,
{
    let mut r: Vec<Outline> = Vec::new();
    r.push(    Outline {
            title: String::from_str(SCENE_ONE_TITLE),
            content: String::from_str(SCENE_ONE_CONTENT),
            status: String::from_str(SCENE_ONE_STATUS),
            id: String::new(),
            project_id: pid.clone(),
            parent_id: Some(volume_id.clone()),
            order_index: 1,
            created_at: String::new(),
            updated_at: String::new(),
        });
    r.push(    Outline {
            title: String::from_str(SCENE_TWO_TITLE),
            content: String::from_str(SCENE_TWO_CONTENT),
            status: String::from_str(SCENE_TWO_STATUS),
            id: String::new(),
            project_id: pid.clone(),
            parent_id: Some(volume_id.clone()),
            order_index: 2,
            created_at: String::new(),
            updated_at: String::new(),
        });
    r
}

/// The demo first chapter, under the chapter outline `outline_id`.
pub fn demo_chapter(pid: &String, outline_id: &String) -> (r: Chapter)
    ensures
        chapter_is(r, pid@, CHAPTER_ONE_TITLE@, CHAPTER_ONE_CONTENT@, CHAPTER_ONE_SUMMARY@, CHAPTER_ONE_STATUS@),
        r.outline_id == Some(*outline_id),
        r.order_index == 1,
{
    Chapter {
        title: String::from_str(CHAPTER_ONE_TITLE),
        content: String::from_str(CHAPTER_ONE_CONTENT),
        summary: String::from_str(CHAPTER_ONE_SUMMARY),
        status: String::from_str(CHAPTER_ONE_STATUS),
        id: String::new(),
        project_id: pid.clone(),
        outline_id: Some(outline_id.clone()),
        order_index: 1,
        created_at: String::new(),
        updated_at: String::new(),
    }
}

/// The demo book is at `i` of `s` and nowhere before.
pub open spec fn first_demo_at(s: Seq<Project>, i: int) -> bool {
    &&& 0 <= i < s.len()
    &&& s[i].title@ == demo_title()
    &&& forall|j: int| 0 <= j < i ==> (#[trigger] s[j]).title@ != demo_title()
}

/// Where the demo book is among `projects`, if it is there: the first
/// project titled 烬城夜行.
pub fn find_demo(projects: &Vec<Project>) -> (r: Option<usize>)
    ensures
        match r {
            Some(i) => first_demo_at(projects@, i as int),
            None => forall|j: int| 0 <= j < projects@.len() ==> (#[trigger] projects@[j]).title@ != demo_title(),
        },
{
    let mut i: usize = 0;
    while i < projects.len()
        invariant
            i <= projects@.len(),
            forall|j: int| 0 <= j < i ==> (#[trigger] projects@[j]).title@ != demo_title(),
        decreases projects@.len() - i,
    {
        if crate::text::text_eq(projects[i].title.as_str(), PROJECT_TITLE) {
            return Some(i);
        }
        i = i + 1;
    }
    None
}


/// Seeding again writes nothing: once a book titled 烬城夜行 is among the
/// stored projects, the demo book is found (at that position or before
/// it), and always at the same place, so the same project is handed back.
pub proof fn reseeding_finds_the_book(s: Seq<Project>, j: int)
    requires
        0 <= j < s.len(),
        s[j].title@ == demo_title(),
    ensures
        exists|i: int| i <= j && #[trigger] first_demo_at(s, i),
        forall|i: int, k: int| #[trigger] first_demo_at(s, i) && #[trigger] first_demo_at(s, k) ==> i == k,
    decreases j,
{
    if exists|k: int| 0 <= k < j && (#[trigger] s[k]).title@ == demo_title() {
        let k = choose|k: int| 0 <= k < j && (#[trigger] s[k]).title@ == demo_title();
        reseeding_finds_the_book(s, k);
    } else {
        assert(first_demo_at(s, j));
    }
    assert forall|i: int, k: int| #[trigger] first_demo_at(s, i) && #[trigger] first_demo_at(s, k) implies i == k by {
        if i < k {
            assert(s[i].title@ != demo_title());
        } else if k < i {
            assert(s[k].title@ != demo_title());
        }
    }
}

} // verus!
