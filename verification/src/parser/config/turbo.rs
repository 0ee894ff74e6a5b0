//! Turborepo `turbo.json` pipeline configuration.
use vstd::prelude::*;
use vstd::utf8::{decode_utf8, valid_utf8};
use crate::diagnostic::{DiagnosticCollector, Warning, WarningCode};
use crate::json::{json_get, json_parsed, parse_json, JsonValue};
use crate::model::{dir_parent, sort_spec, sort_strings, CanonicalPath, TextMap};
use crate::parser::config::bundler::config_dir_of;
use crate::parser::config::jsonc::{strip_jsonc_comments, strip_jsonc_spec};
use crate::parser::config::tsconfig::{string_items, views_of_strings};
use crate::syntax::utf8_decode;
use crate::text::{chars_of, replace_char, string_of};

verus! {

/// Turbo pipeline configuration.
#[derive(Debug)]
pub struct TurboConfig {
    pub config_dir: String,
    /// Tasks by name.
    pub pipeline: TextMap<TurboPipelineEntry>,
}

/// One pipeline task.
#[derive(Clone, Debug)]
pub struct TurboPipelineEntry {
    /// Tasks this one depends on, sorted.
    pub depends_on: Vec<String>,
    /// Output globs, sorted.
    pub outputs: Vec<String>,
}

/// The text of a `turbo.json`, when its bytes are UTF-8.
pub open spec fn turbo_text(source: Seq<u8>) -> Option<Seq<char>> {
    if valid_utf8(source) {
        Some(decode_utf8(source))
    } else {
        None
    }
}

/// The document a `turbo.json` text holds, comments and trailing commas
/// removed first.
pub open spec fn turbo_doc(text: Seq<char>) -> Result<JsonValue, Seq<char>> {
    json_parsed(strip_jsonc_spec(text))
}

/// The task members: those of `tasks` (Turbo 2) when it is an object, else
/// those of `pipeline` (Turbo 1); nothing unless the document is an object
/// and one of them is.
pub open spec fn turbo_tasks(v: JsonValue) -> Option<Seq<(String, JsonValue)>> {
    match v {
        JsonValue::Object(_) => match json_get(v, "tasks"@) {
            Some(JsonValue::Object(es)) => Some(es@),
            _ => match json_get(v, "pipeline"@) {
                Some(JsonValue::Object(es)) => Some(es@),
                _ => None,
            },
        },
        _ => None,
    }
}

/// The strings of an array member, if it is one.
pub open spec fn member_strings(v: Option<JsonValue>) -> Seq<Seq<char>> {
    match v {
        Some(JsonValue::Array(items)) => string_items(items@),
        _ => Seq::empty(),
    }
}

/// A task value's dependencies and outputs, each sorted, when it is an object.
pub open spec fn task_entry(v: JsonValue) -> Option<(Seq<Seq<char>>, Seq<Seq<char>>)> {
    match v {
        JsonValue::Object(_) => Some(
            (sort_spec(member_strings(json_get(v, "dependsOn"@))), sort_spec(member_strings(json_get(v, "outputs"@)))),
        ),
        _ => None,
    }
}

/// The entry of task `k`: that of the last member named `k` whose value is an object.
pub open spec fn turbo_last(es: Seq<(String, JsonValue)>, k: Seq<char>) -> Option<(Seq<Seq<char>>, Seq<Seq<char>>)>
    decreases es.len(),
{
    if es.len() == 0 {
        None
    } else if es.last().0@ == k && task_entry(es.last().1) is Some {
        task_entry(es.last().1)
    } else {
        turbo_last(es.drop_last(), k)
    }
}

/// Some member's value is an object.
pub open spec fn has_task(es: Seq<(String, JsonValue)>) -> bool {
    exists|i: int| 0 <= i < es.len() && es[i].1 is Object
}

/// An entry as plain values.
pub open spec fn entry_view(o: Option<TurboPipelineEntry>) -> Option<(Seq<Seq<char>>, Seq<Seq<char>>)> {
    match o {
        Some(e) => Some((views_of_strings(e.depends_on@), views_of_strings(e.outputs@))),
        None => None,
    }
}

/// The strings of an array member, sorted.
fn sorted_member_strings(v: Option<&JsonValue>) -> (r: Vec<String>)
    ensures
        views_of_strings(r@) == sort_spec(member_strings(
            match v {
                Some(x) => Some(*x),
                None => None,
            },
        )),
{
    let mut out: Vec<String> = Vec::new();
    match v {
        Some(JsonValue::Array(items)) => {
            let mut i: usize = 0;
            while i < items.len()
                invariant
                    i <= items@.len(),
                    views_of_strings(out@) == string_items(items@.take(i as int)),
                decreases items.len() - i,
            {
                let ghost o0 = out@;
                assert(items@.take(i + 1).drop_last() =~= items@.take(i as int));
                match &items[i] {
                    JsonValue::Str(s) => {
                        out.push(string_of(&chars_of(s.as_str())));
                        assert(views_of_strings(out@) =~= views_of_strings(o0).push(s@));
                    },
                    _ => {},
                }
                assert(views_of_strings(out@) =~= string_items(items@.take(i + 1)));
                i += 1;
            }
            assert(items@.take(items@.len() as int) =~= items@);
        },
        _ => {
            assert(views_of_strings(out@) =~= Seq::<Seq<char>>::empty());
        },
    }
    sort_strings(&out)
}

/// What [`parse_turbo_config`] gives for the bytes `source` of the file at
/// `path` (`c0` the warnings before, `c1` those after): nothing for bytes
/// that are not UTF-8; `W047TurboConfigParseError` for text that is not
/// JSON; otherwise the tasks of the document, when it names any.
pub open spec fn turbo_result(source: Seq<u8>, path: Seq<char>, r: Option<TurboConfig>, c0: Seq<WarningCode>, c1: Seq<WarningCode>) -> bool {
    match turbo_text(source) {
        None => r is None && c1 == c0,
        Some(text) => match turbo_doc(text) {
            Err(_) => r is None && c1 == c0.push(WarningCode::W047TurboConfigParseError),
            Ok(v) => c1 == c0 && turbo_doc_result(v, path, r),
        },
    }
}

/// What a `turbo.json` document gives, for the file at `path`: its tasks,
/// when it names any.
pub open spec fn turbo_doc_result(v: JsonValue, path: Seq<char>, r: Option<TurboConfig>) -> bool {
    match turbo_tasks(v) {
        None => r is None,
        Some(es) => if has_task(es) {
            r matches Some(c) && c.config_dir@ == config_dir_of(path) && forall|k: Seq<char>|
                #[trigger] entry_view(c.pipeline.spec_get(k)) == turbo_last(es, k)
        } else {
            r is None
        },
    }
}

/// The pipeline a `turbo.json` document gives, for the file at
/// `config_path` (see [`turbo_doc_result`]).
pub fn turbo_from_doc(v: &JsonValue, config_path: &str) -> (r: Option<TurboConfig>)
    ensures
        turbo_doc_result(*v, config_path@, r),
{
    let es = match v {
        JsonValue::Object(_) => match v.get("tasks") {
            Some(JsonValue::Object(es)) => es,
            _ => match v.get("pipeline") {
                Some(JsonValue::Object(es)) => es,
                _ => {
                    return None;
                },
            },
        },
        _ => {
            return None;
        },
    };
    let ghost esv = es@;
    assert(turbo_tasks(*v) == Some(esv));
    let mut pipeline: TextMap<TurboPipelineEntry> = TextMap::new();
    let mut any = false;
    let mut i: usize = 0;
    while i < es.len()
        invariant
            i <= es@.len(),
            esv == es@,
            forall|k: Seq<char>| #[trigger] entry_view(pipeline.spec_get(k)) == turbo_last(esv.take(i as int), k),
            any == has_task(esv.take(i as int)),
            (pipeline.keys().len() > 0) == any,
        decreases es.len() - i,
    {
        let ghost pre = esv.take(i as int);
        let ghost post = esv.take(i + 1);
        assert(post.drop_last() =~= pre);
        assert(post.last() == esv[i as int]);
        match &es[i].1 {
            JsonValue::Object(_) => {
                let task = &es[i].1;
                let depends_on = sorted_member_strings(task.get("dependsOn"));
                let outputs = sorted_member_strings(task.get("outputs"));
                let key = string_of(&chars_of(es[i].0.as_str()));
                let ghost kv = key@;
                let ghost ev = (views_of_strings(depends_on@), views_of_strings(outputs@));
                assert(task_entry(esv[i as int].1) == Some(ev));
                let ghost old_p = pipeline;
                pipeline.insert(key, TurboPipelineEntry { depends_on, outputs });
                proof {
                    assert forall|k: Seq<char>| #[trigger] entry_view(pipeline.spec_get(k)) == turbo_last(post, k) by {
                        if k != kv {
                            assert(pipeline.spec_get(k) == old_p.spec_get(k));
                            assert(entry_view(old_p.spec_get(k)) == turbo_last(pre, k));
                        }
                    }
                    assert(pipeline.keys().contains(kv));
                    assert(has_task(post)) by {
                        assert(post[i as int].1 is Object);
                    }
                }
                any = true;
            },
            _ => {
                proof {
                    assert(has_task(post) == has_task(pre)) by {
                        if has_task(post) {
                            let m = choose|m: int| 0 <= m < post.len() && post[m].1 is Object;
                            assert(m < i);
                            assert(pre[m].1 is Object);
                        }
                        if has_task(pre) {
                            let m = choose|m: int| 0 <= m < pre.len() && pre[m].1 is Object;
                            assert(post[m].1 is Object);
                        }
                    }
                }
            },
        }
        i += 1;
    }
    assert(esv.take(esv.len() as int) =~= esv);
    if !any {
        return None;
    }
    let config_dir = match dir_parent(&chars_of(config_path)) {
        Some(d) => d,
        None => Vec::new(),
    };
    Some(TurboConfig { config_dir: string_of(&config_dir), pipeline })}

/// Parse a `turbo.json`: `None` when it is not UTF-8, when it is not JSON
/// (reported with `W047TurboConfigParseError`), when it holds no `tasks` or
/// `pipeline` object, or when no task is an object; otherwise each task's
/// dependencies and outputs, sorted.
pub fn parse_turbo_config(source: &[u8], config_path: &str, diag: &mut DiagnosticCollector) -> (r: Option<TurboConfig>)
    ensures
        turbo_result(source@, config_path@, r, old(diag).codes(), final(diag).codes()),
{
    let text = match utf8_decode(source) {
        Some(t) => t,
        None => {
            return None;
        },
    };
    let clean = strip_jsonc_comments(text.as_str());
    let v = match parse_json(clean.as_str()) {
        Ok(v) => v,
        Err(e) => {
            let p = replace_char(&chars_of(config_path), '\\', '/');
            diag.warn(Warning {
                code: WarningCode::W047TurboConfigParseError,
                path: CanonicalPath::new(string_of(&p).as_str()),
                message: string_of(&chars_of("failed to parse turbo.json")),
                detail: Some(e),
            });
            return None;
        },
    };
    turbo_from_doc(&v, config_path)
}

} // verus!
