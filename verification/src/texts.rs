//! The fixed wording of the prompts.

use vstd::prelude::*;

verus! {

pub const STYLE_FALLBACK: &'static str = "跟随已有章节的语气与节奏。";

pub const RULES_MEMORY: &'static str = "记忆规则：\n\
             1. 记忆只能从已经写下的历史章节里提炼，禁止用大纲、设定或想象补未发生的事。\n\
             2. 每条必须是可核对的事实：谁做了什么、世界规则如何被证实、人物状态变成了什么。\n\
             3. 已有记忆不要重复，只补新事实。\n\
             4. 只输出 JSON 数组，每项含 kind, title, content, source。kind 只能是 plot、character、world。source 写成章名。";

pub const RULES_CHARACTER: &'static str = "角色规则：\n\
             1. 遵守已有记忆、章节事实与其他角色关系，不得和已发生情节冲突。\n\
             2. 若下方有「人工修订稿」，必须原样保留作者写过的事实，只补充空白或明显单薄的字段。\n\
             3. 只输出一个 JSON 对象，字段：name, aliases, role, personality, appearance, background, goals, relationships, currentState, notes。\n\
             4. 不要输出小说正文或解释。";

pub const RULES_ENTRY: &'static str = "条目规则：\n\
             1. 条目是可检索的设定（地点、组织、物品、规则、事件、概念）。\n\
             2. 若有人工修订稿，保留作者已写事实，只扩展说明，不发明与章节/记忆冲突的新规则。\n\
             3. 只输出一个 JSON 对象，字段：title, category, content, tags。\n\
             4. category 只能是：地点、组织、物品、规则、事件、概念、设定。";

pub const RULES_OUTLINE: &'static str = "大纲规则：\n\
             1. 大纲写节拍与必须发生的事，不要写成章节正文。\n\
             2. 若有人工修订稿，保留作者定下的情节点，只把含糊处写具体。\n\
             3. 只输出一个 JSON 对象，字段：title, content。";

pub const RULES_SUMMARY: &'static str = "只根据本章已写正文做第三人称客观摘要，200字以内，供后文检索。只输出摘要，不发明未写情节。";

pub const RULES_CHAPTER: &'static str = "章节规则：\n\
             1. 不得改写角色性格、外貌关键特征、世界规则、专有名词与已发生情节。\n\
             2. 若有人工修订稿或正文，扩写/续写必须承接作者改过的句子，不推翻不复述。\n\
             3. 只写小说正文，不要输出解释、标题或“接下来可以……”。\n\
             4. 文风克制、具体、可感。";

pub const EMPTY_CHARACTER: &'static str = "（当前角色还是空的，请起草。）";

pub const EMPTY_ENTRY: &'static str = "（当前条目还是空的，请起草。）";

pub const EMPTY_OUTLINE: &'static str = "（当前大纲还是空的，请起草。）";

pub const EMPTY_CHAPTER: &'static str = "（当前章节还是空的，请起草。）";

pub const TASK_MEMORY: &'static str = "只从上面的历史章节提炼新的长期记忆。没有章节正文就返回 []。";

pub const TASK_CHARACTER_EXPAND: &'static str = "这是作者改过的角色。保留已写事实，把单薄字段写具体。只输出 JSON。";

pub const TASK_CHARACTER_REWRITE: &'static str = "按用户指令改这份角色，仍只输出 JSON。";

pub const TASK_CHARACTER_DRAFT: &'static str = "根据书稿、记忆与其他对象起草这个角色。只输出 JSON。";

pub const TASK_ENTRY_EXPAND: &'static str = "这是作者改过的条目。保留已写设定，只扩展说明。只输出 JSON。";

pub const TASK_ENTRY_REWRITE: &'static str = "按用户指令改这份条目，仍只输出 JSON。";

pub const TASK_ENTRY_DRAFT: &'static str = "根据书稿、记忆与章节事实起草这个条目。只输出 JSON。";

pub const TASK_OUTLINE_EXPAND: &'static str = "这是作者改过的大纲。保留已定节拍，把含糊处写具体。只输出 JSON。";

pub const TASK_OUTLINE_REWRITE: &'static str = "按用户指令改这份大纲，仍只输出 JSON。";

pub const TASK_OUTLINE_DRAFT: &'static str = "根据角色、条目与记忆起草这份大纲。只输出 JSON，不要写成小说。";

pub const TASK_EXPAND: &'static str = "在作者改过的正文上扩写：加感官与反应，少推进新情节，不发明新设定。";

pub const TASK_REWRITE: &'static str = "按用户指令改写，保持人物与已发生事实一致。只输出正文。";

pub const TASK_SUMMARIZE: &'static str = "客观摘要本章已写事实。只输出摘要。";

pub const TASK_DRAFT: &'static str = "按大纲、角色、条目与记忆写本章初稿。只输出正文。";

pub const TASK_CONTINUE: &'static str = "承接最后一句续写，不要复述已写内容。";

pub const HINT_CONTINUE: &'static str = "按现有节奏续写 800 到 1200 字。";

pub const HINT_CHAPTER_DRAFT: &'static str = "写出本章可用的初稿，800 到 1500 字。";

pub const HINT_EXPAND: &'static str = "在人工修订稿上扩展，不要另起一套。";

pub const HINT_DRAFT: &'static str = "写出一份可给作者改的初稿。";

pub const KEEP_EXPAND: &'static str = "已填写的字段是作者修订稿，必须保留其事实与语气，只补空白或把一句话简介、文风写得更可用。不要另起一本完全不同的书。";

pub const KEEP_DRAFT: &'static str = "已填写的字段优先沿用；空白字段由你起草。书名要像能印在封面的中文题名，不要翻译腔。";

pub const NO_INSTRUCTION: &'static str = "（无额外指令，按已填内容或自拟一本有辨识度的长篇。）";

pub const HINT_MEMORY: &'static str = "提炼尚未入库的关键事实。";

pub const HINT_DEFAULT: &'static str = "按任务要求处理。";

pub const SYSTEM_HEAD: &'static str = "你是长篇小说创作助手「墨衡」。作者与你轮流改结构化对象：你起草或扩写，作者在中间栏修订，你再根据修订稿扩展。\n\
         书名：《";

pub const SYSTEM_GENRE: &'static str = "》\n体裁：";

pub const SYSTEM_DESCRIPTION: &'static str = "\n简介：";

pub const SYSTEM_STYLE: &'static str = "\n写作风格：";

pub const PARAGRAPH: &'static str = "\n\n";

pub const USER_HEAD: &'static str = "以下是本书的结构化对象、长期记忆与检索结果，生成时必须遵守。\n\n";

pub const USER_REVISION: &'static str = "\n## 人工修订稿 / 当前对象\n";

pub const USER_OBJECT: &'static str = "\n\n对象：";

pub const USER_TASK: &'static str = "\n任务：";

pub const USER_TASK_NOTE: &'static str = "\n任务说明：";

pub const USER_INSTRUCTION: &'static str = "\n用户指令：";

pub const USER_CAST: &'static str = "\n书中已有角色：";

pub const SELECTED_HEAD: &'static str = "选中文本：\n";

pub const META_HEAD: &'static str = "你是长篇小说策划助手「墨衡」。开书时先定书名、体裁、文风提示和一句话简介。\n";

pub const META_TAIL: &'static str = "\n\
         只输出一个 JSON 对象，字段必须是：title, genre, stylePrompt, description。\n\
         genre 用短词，如「都市奇幻」「历史」「科幻」「世情」。\n\
         stylePrompt 写给后续章节生成用，短、可执行，例如「冷、短句、少解释」。\n\
         description 一句说清谁要什么、世界有什么不对。不要输出解释。";

} // verus!
