//! The two tools that are not about files: `todowrite` (a stateless task list)
//! and `skill` (a project skill's text).

use vstd::prelude::*;
use crate::json::{Json, JsonV, jget, value_text, items_view, lemma_items_view};
use crate::text::{chars_of, string_of, push_str, dec, dec_string, strs, join_seq, trim_spec,
    utf16_len_spec, utf16_truncate_spec};
use crate::fmt::arg_str_spec;

verus! {

/// The icon of a task status (unknown statuses get the open circle).
pub open spec fn todo_icon_spec(status: Seq<char>) -> Seq<char> {
    if status == "active"@ {
        "◉"@
    } else if status == "completed"@ {
        "✔"@
    } else if status == "cancelled"@ {
        "✕"@
    } else {
        "○"@
    }
}

/// The icon of a task status.
pub fn todo_icon(status: &str) -> (r: &'static str)
    ensures
        r@ == todo_icon_spec(status@),
{
    if crate::json::text_eq(status, "active") {
        "◉"
    } else if crate::json::text_eq(status, "completed") {
        "✔"
    } else if crate::json::text_eq(status, "cancelled") {
        "✕"
    } else {
        "○"
    }
}

/// A task's text: a string as it is, a missing or null content as `undefined`,
/// anything else by its JSON text.
pub open spec fn todo_content(t: JsonV) -> Seq<char> {
    match jget(t, "content"@) {
        Some(JsonV::Str(s)) => s,
        Some(JsonV::Null) => "undefined"@,
        None => "undefined"@,
        Some(other) => value_text(other),
    }
}

/// A task's line: icon and text, the text struck through when completed.
pub open spec fn todo_line(t: JsonV) -> Seq<char> {
    let status = arg_str_spec(t, "status"@);
    if status == "completed"@ {
        todo_icon_spec(status) + " ~~"@ + todo_content(t) + "~~"@
    } else {
        todo_icon_spec(status) + " "@ + todo_content(t)
    }
}

/// The number of completed tasks.
pub open spec fn done_count(ts: Seq<JsonV>) -> nat
    decreases ts.len(),
{
    if ts.len() == 0 {
        0
    } else {
        done_count(ts.drop_last()) + if arg_str_spec(ts.last(), "status"@) == "completed"@ { 1nat } else { 0nat }
    }
}

/// The tasks of the arguments (none unless `todos` is a list).
pub open spec fn todos_of(args: JsonV) -> Seq<JsonV> {
    match jget(args, "todos"@) {
        Some(JsonV::Array(a)) => a,
        _ => Seq::<JsonV>::empty(),
    }
}

/// What `todowrite` answers: the list with the completed count, or the cleared text.
pub open spec fn todowrite_spec(args: JsonV) -> Seq<char> {
    let ts = todos_of(args);
    if ts.len() == 0 {
        "（已清空任务清单）"@
    } else {
        "任务清单（"@ + dec(done_count(ts)) + "/"@ + dec(ts.len()) + " 完成）\n"@
            + join_seq(ts.map_values(|t: JsonV| todo_line(t)), "\n"@)
    }
}

/// What `todowrite` answers.
pub fn todowrite(args: &Json) -> (r: String)
    ensures
        r@ == todowrite_spec(args@),
{
    let todos: Vec<Json> = match args.get("todos") {
        Some(Json::Array(a)) => {
            proof { lemma_items_view(a@); }
            let mut v: Vec<Json> = Vec::new();
            let mut i: usize = 0;
            while i < a.len()
                invariant
                    i <= a@.len(),
                    v@.len() == i,
                    forall|k: int| 0 <= k < i ==> #[trigger] v@[k]@ == a@[k]@,
                decreases a@.len() - i,
            {
                v.push(a[i].deep_clone());
                i += 1;
            }
            proof {
                lemma_items_view(v@);
                assert forall|k: int| 0 <= k < a@.len() implies items_view(v@)[k] == items_view(a@)[k] by {
                    assert(v@[k]@ == a@[k]@);
                }
                assert(items_view(v@) =~= items_view(a@));
            }
            v
        },
        _ => {
            let v: Vec<Json> = Vec::new();
            proof {
                lemma_items_view(v@);
                assert(items_view(v@) =~= Seq::<JsonV>::empty());
            }
            v
        },
    };
    let ghost ts = items_view(todos@);
    assert(ts == todos_of(args@));
    proof { lemma_items_view(todos@); }
    if todos.len() == 0 {
        return String::from_str("（已清空任务清单）");
    }
    let mut lines: Vec<String> = Vec::new();
    let mut done: usize = 0;
    let mut i: usize = 0;
    while i < todos.len()
        invariant
            i <= todos@.len(),
            ts == items_view(todos@),
            ts.len() == todos@.len(),
            forall|k: int| 0 <= k < todos@.len() ==> #[trigger] ts[k] == todos@[k]@,
            done == done_count(ts.take(i as int)),
            done <= i,
            strs(lines@) =~= ts.take(i as int).map_values(|t: JsonV| todo_line(t)),
        decreases todos@.len() - i,
    {
        assert(ts.take(i + 1).drop_last() =~= ts.take(i as int));
        assert(ts.take(i + 1).last() == ts[i as int]);
        let t = &todos[i];
        let status = crate::fmt::arg_str(t, "status");
        let content: String = match t.get("content") {
            Some(Json::Str(s)) => s.clone(),
            Some(Json::Null) => String::from_str("undefined"),
            None => String::from_str("undefined"),
            Some(other) => other.to_text(),
        };
        let mut line = String::from_str(todo_icon(status.as_str()));
        if crate::json::text_eq(status.as_str(), "completed") {
            done = done + 1;
            push_str(&mut line, " ~~");
            push_str(&mut line, content.as_str());
            push_str(&mut line, "~~");
        } else {
            push_str(&mut line, " ");
            push_str(&mut line, content.as_str());
        }
        let ghost before = lines@;
        lines.push(line);
        assert(strs(lines@) =~= strs(before).push(todo_line(ts[i as int])));
        assert(ts.take(i + 1).map_values(|t: JsonV| todo_line(t))
            =~= ts.take(i as int).map_values(|t: JsonV| todo_line(t)).push(todo_line(ts[i as int])));
        i += 1;
    }
    assert(ts.take(todos@.len() as int) =~= ts);
    let mut r = String::from_str("任务清单（");
    push_str(&mut r, dec_string(done as u128).as_str());
    push_str(&mut r, "/");
    push_str(&mut r, dec_string(todos.len() as u128).as_str());
    push_str(&mut r, " 完成）\n");
    push_str(&mut r, crate::text::join_strings(&lines, "\n").as_str());
    r
}

// ---------- skill ----------

/// A skill name: the trimmed argument, without path separators or colons.
pub open spec fn skill_name_spec(args: JsonV) -> Result<Seq<char>, Seq<char>> {
    let name = trim_spec(arg_str_spec(args, "name"@));
    if name.len() == 0 || name.contains('/') || name.contains('\\') || name.contains(':') {
        Err("name 必须是技能名（.agents/skills/ 下的目录名，不含路径分隔符）"@)
    } else {
        Ok(name)
    }
}

fn has_char(v: &[char], c: char) -> (r: bool)
    ensures
        r == v@.contains(c),
{
    let mut i: usize = 0;
    while i < v.len()
        invariant
            i <= v@.len(),
            forall|k: int| 0 <= k < i ==> v@[k] != c,
        decreases v@.len() - i,
    {
        if v[i] == c {
            return true;
        }
        i += 1;
    }
    false
}

/// The skill name of the arguments, or why it is refused.
pub fn skill_name(args: &Json) -> (r: Result<String, String>)
    ensures
        match r {
            Ok(n) => skill_name_spec(args@) == Ok::<Seq<char>, Seq<char>>(n@),
            Err(e) => skill_name_spec(args@) == Err::<Seq<char>, Seq<char>>(e@),
        },
{
    let name = crate::text::trim_chars(&chars_of(crate::fmt::arg_str(args, "name").as_str()));
    if name.len() == 0 || has_char(&name, '/') || has_char(&name, '\\') || has_char(&name, ':') {
        Err(String::from_str("name 必须是技能名（.agents/skills/ 下的目录名，不含路径分隔符）"))
    } else {
        Ok(string_of(&name))
    }
}

/// The files a skill may live in, in the order tried.
pub open spec fn skill_paths_spec(name: Seq<char>) -> Seq<Seq<char>> {
    seq![".agents/skills/"@ + name + "/SKILL.md"@, ".agents/skills/"@ + name + ".md"@]
}

/// The files a skill may live in, in the order tried.
pub fn skill_paths(name: &str) -> (r: Vec<String>)
    ensures
        strs(r@) == skill_paths_spec(name@),
{
    let mut a = String::from_str(".agents/skills/");
    push_str(&mut a, name);
    push_str(&mut a, "/SKILL.md");
    let mut b = String::from_str(".agents/skills/");
    push_str(&mut b, name);
    push_str(&mut b, ".md");
    let mut v: Vec<String> = Vec::new();
    v.push(a);
    v.push(b);
    assert(strs(v@) =~= skill_paths_spec(name@));
    v
}

/// A skill's answer: its text, cut at 65536 UTF-16 units with a notice when longer.
pub open spec fn skill_text_spec(content: Seq<char>) -> Seq<char> {
    if utf16_len_spec(content) > 65536 {
        utf16_truncate_spec(content, 65536) + "\n…（技能内容过长，已截断）"@
    } else {
        content
    }
}

/// A skill's answer.
pub fn skill_text(content: &str) -> (r: String)
    ensures
        r@ == skill_text_spec(content@),
{
    let n = crate::text::utf16_len_chars(&chars_of(content));
    if n > 65536 {
        let mut r = crate::text::utf16_truncate(content, 65536);
        push_str(&mut r, "\n…（技能内容过长，已截断）");
        r
    } else {
        String::from_str(content)
    }
}

/// The answer when no skill file exists.
pub fn skill_missing(name: &str) -> (r: String)
    ensures
        r@ == "技能不存在："@ + name@ + "（可在项目的 .agents/skills/ 目录下创建，可用技能见系统提示中的列表）"@,
{
    let mut r = String::from_str("技能不存在：");
    push_str(&mut r, name);
    push_str(&mut r, "（可在项目的 .agents/skills/ 目录下创建，可用技能见系统提示中的列表）");
    r
}

} // verus!
