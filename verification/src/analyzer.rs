//! The analyzer: it goes through a program before it runs and reports
//! every task that cannot work as it is written.

use crate::checks::{
    brace_findings, concat3, ensure_balanced_interpolation, finding, findings, get_static_array,
    is_literal, is_literal_no_braces, is_simple_interpolation, is_simple_value, none, one, report,
    resolve_simple_value, static_list, static_value, Diagnostic, Finding, Statics,
};
use crate::fields::as_tasks;
use crate::interp::{text_field, Scope};
use crate::lists::{index_position, is_index_out_of_bounds};
use crate::model::{Program, ProgramLoadContext, Task};
use crate::text::{chars_of, same_text, string_of};
use crate::value::{
    dict_get, dict_has, lemma_dict_position, lemma_dict_view, lemma_list_view, list_view, Json,
    Number, Object, Value,
};
use crate::wildcard::{wildcard_match, wildcard_matches};
use vstd::prelude::*;

verus! {

/// What was found of a path on disk.
pub struct PathProbe {
    pub path: String,
    pub resolved: String,
    pub exists: bool,
    pub is_dir: bool,
}

/// The model of a `PathProbe`.
pub struct Probe {
    pub path: Seq<char>,
    pub resolved: Seq<char>,
    pub exists: bool,
    pub is_dir: bool,
}

impl View for PathProbe {
    type V = Probe;

    open spec fn view(&self) -> Probe {
        Probe {
            path: self.path@,
            resolved: self.resolved@,
            exists: self.exists,
            is_dir: self.is_dir,
        }
    }
}

/// The models of `probes`, in order.
pub open spec fn probes_view(probes: Seq<PathProbe>) -> Seq<Probe> {
    Seq::new(probes.len(), |i: int| probes[i]@)
}

/// All that a task is checked against.
pub struct Surroundings {
    /// Where the list of the task stands: `order`, or `named_tasks.` and a name.
    pub scope_name: Seq<char>,
    /// The names of the named tasks.
    pub named: Seq<Seq<char>>,
    /// The labels of the list of the task.
    pub labels: Seq<Seq<char>>,
    /// What was found of the voice files.
    pub probes: Seq<Probe>,
}

/// Whether `x` is one of `list` at or after `from`.
pub open spec fn listed(list: Seq<Seq<char>>, x: Seq<char>, from: int) -> bool
    decreases list.len() - from,
{
    if from < 0 || from >= list.len() {
        false
    } else {
        list[from] == x || listed(list, x, from + 1)
    }
}

/// The finding that the field `field` is missing.
pub open spec fn missing(task: Seq<(Seq<char>, Json)>, field: Seq<char>) -> Seq<Finding> {
    if dict_has(task, field) {
        none()
    } else {
        one(task, "Missing required field '"@ + field + "'"@)
    }
}

/// The finding that the field `field` is no string: it must be a string,
/// and where it is one group whose value is known, that must be a string.
pub open spec fn string_findings(scope: Scope, task: Seq<(Seq<char>, Json)>, field: Seq<char>) -> Seq<
    Finding,
> {
    match dict_get(task, field) {
        None => none(),
        Some(v) => if v is Text {
            match static_value(scope, v) {
                Some(r) => if r is Text {
                    none()
                } else {
                    one(task, "Field '"@ + field + "' must be a string"@)
                },
                None => none(),
            }
        } else {
            one(task, "Field '"@ + field + "' must be a string"@)
        },
    }
}

/// The finding that the field `field` is neither a number nor a string.
pub open spec fn number_or_string_findings(task: Seq<(Seq<char>, Json)>, field: Seq<char>) -> Seq<
    Finding,
> {
    match dict_get(task, field) {
        None => none(),
        Some(v) => if v is Text || v is Int || v is Real {
            none()
        } else {
            one(task, "Field '"@ + field + "' must be a number or string"@)
        },
    }
}

/// The finding that the field `field` is neither an integer nor a string.
pub open spec fn int_or_string_findings(task: Seq<(Seq<char>, Json)>, field: Seq<char>) -> Seq<
    Finding,
> {
    match dict_get(task, field) {
        None => none(),
        Some(v) => if v is Text || v is Int {
            none()
        } else {
            one(task, "Field '"@ + field + "' must be an int or string"@)
        },
    }
}

/// The finding that the field `field` is no list: it must be a list, or
/// one group whose value is a list or is not known yet.
pub open spec fn array_findings(scope: Scope, task: Seq<(Seq<char>, Json)>, field: Seq<char>) -> Seq<
    Finding,
> {
    match dict_get(task, field) {
        None => none(),
        Some(v) => if v is List {
            none()
        } else {
            match static_value(scope, v) {
                Some(r) => if r is List {
                    none()
                } else {
                    one(task, "Field '"@ + field + "' must be an array"@)
                },
                None => if is_simple_value(v) {
                    none()
                } else {
                    one(task, "Field '"@ + field + "' must be an array"@)
                },
            }
        },
    }
}

/// The finding that the field `field` is no object.
pub open spec fn object_findings(scope: Scope, task: Seq<(Seq<char>, Json)>, field: Seq<char>) -> Seq<
    Finding,
> {
    match dict_get(task, field) {
        None => none(),
        Some(v) => if v is Dict {
            none()
        } else {
            match static_value(scope, v) {
                Some(r) => if r is Dict {
                    none()
                } else {
                    one(task, "Field '"@ + field + "' must be an object"@)
                },
                None => if is_simple_value(v) {
                    none()
                } else {
                    one(task, "Field '"@ + field + "' must be an object"@)
                },
            }
        },
    }
}

/// The finding that the field `field` is no list of objects.
pub open spec fn task_array_findings(scope: Scope, task: Seq<(Seq<char>, Json)>, field: Seq<char>) -> Seq<
    Finding,
> {
    let wrong = one(task, "Field '"@ + field + "' must be an array of objects"@);
    match dict_get(task, field) {
        None => none(),
        Some(Json::List(a)) => if as_tasks(a) is Some {
            none()
        } else {
            wrong
        },
        Some(v) => match static_value(scope, v) {
            Some(Json::List(a)) => if as_tasks(a) is Some {
                none()
            } else {
                wrong
            },
            Some(_) => wrong,
            None => if is_simple_value(v) {
                none()
            } else {
                wrong
            },
        },
    }
}

/// The integer that `v` is, where it is one.
pub open spec fn literal_int(v: Option<Json>) -> Option<int> {
    match v {
        Some(Json::Int(i)) => Some(i),
        _ => None,
    }
}

/// The finding that the position in the field `field` means no place of a
/// list of `len` items. Position 0 is wrong by itself unless `zero_ok` holds.
pub open spec fn position_findings(
    task: Seq<(Seq<char>, Json)>,
    command: Seq<char>,
    field: Seq<char>,
    len: int,
    zero_ok: bool,
) -> Seq<Finding> {
    match literal_int(dict_get(task, field)) {
        None => none(),
        Some(i) => if i == 0 {
            if zero_ok {
                none()
            } else {
                one(task, command + seq![' '] + field + " 0 is invalid (1-based)"@)
            }
        } else if index_position(i, len) is None {
            one(task, command + seq![' '] + field + " out of bounds"@)
        } else {
            none()
        },
    }
}

/// Whether an item of `a` at or after `from` is neither a list nor one group.
pub open spec fn has_bad_concat_item(a: Seq<Json>, from: int) -> bool
    decreases a.len() - from,
{
    if from < 0 || from >= a.len() {
        false
    } else {
        (!(a[from] is List) && !is_simple_value(a[from])) || has_bad_concat_item(a, from + 1)
    }
}

/// Whether a length of `lens` at or after `from` is not `expected`.
pub open spec fn has_other_length(lens: Seq<nat>, expected: nat, from: int) -> bool
    decreases lens.len() - from,
{
    if from < 0 || from >= lens.len() {
        false
    } else {
        lens[from] != expected || has_other_length(lens, expected, from + 1)
    }
}

/// What is wrong with the lists of a `for` from member `from` on: a value
/// that is neither a list nor one group ends the check; lists that are all
/// known must agree in length. `lens` are the lengths of the known lists so far.
pub open spec fn for_list_findings(
    scope: Scope,
    task: Seq<(Seq<char>, Json)>,
    map: Seq<(Seq<char>, Json)>,
    from: int,
    lens: Seq<nat>,
) -> Seq<Finding>
    decreases map.len() - from,
{
    if from < 0 || from >= map.len() {
        if lens.len() == map.len() && lens.len() > 0 && has_other_length(lens, lens[0], 0) {
            one(task, "for lists have differing lengths"@)
        } else {
            none()
        }
    } else {
        match static_list(scope, Some(map[from].1)) {
            Some(a) => for_list_findings(scope, task, map, from + 1, lens.push(a.len())),
            None => if is_simple_value(map[from].1) {
                for_list_findings(scope, task, map, from + 1, lens)
            } else {
                one(
                    task,
                    "for.name_list_map value for '"@ + map[from].0
                        + "' must be a list or simple interpolation"@,
                )
            },
        }
    }
}

/// What the scan of the arms of a `goto_map` has so far: its findings, and
/// the arms whose key and value are literals.
pub struct ArmScan {
    pub found: Seq<Finding>,
    pub literal: Seq<(Seq<char>, Seq<char>)>,
}

/// The scan after the arm `entry`.
pub open spec fn scan_arm(task: Seq<(Seq<char>, Json)>, entry: Json, acc: ArmScan) -> ArmScan {
    match entry {
        Json::Dict(d) => if d.len() != 1 {
            ArmScan { found: acc.found + one(task, "target_maps entries must have 1 key"@), ..acc }
        } else {
            let key = d[0].0;
            let checked = acc.found + (if key.len() == 0 {
                one(task, "target_maps keys must be non-empty strings"@)
            } else {
                none()
            }) + brace_findings(task, "target_maps key"@, key);
            match d[0].1 {
                Json::Text(val) => ArmScan {
                    found: checked + brace_findings(task, "target_maps value"@, val),
                    literal: if is_literal(key) && is_literal(val) {
                        acc.literal.push((key, val))
                    } else {
                        acc.literal
                    },
                },
                _ => ArmScan {
                    found: checked + one(task, "target_maps values must be strings"@),
                    ..acc
                },
            }
        },
        _ => ArmScan { found: acc.found + one(task, "target_maps entries must be objects"@), ..acc },
    }
}

/// The scan after the arms of `maps` from `from` on.
pub open spec fn scan_arms(task: Seq<(Seq<char>, Json)>, maps: Seq<Json>, from: int, acc: ArmScan) -> ArmScan
    decreases maps.len() - from,
{
    if from < 0 || from >= maps.len() {
        acc
    } else {
        scan_arms(task, maps, from + 1, scan_arm(task, maps[from], acc))
    }
}

/// The target of the first of the literal arms at or after `from` whose key matches `text`.
pub open spec fn literal_target(literal: Seq<(Seq<char>, Seq<char>)>, text: Seq<char>, from: int) -> Option<
    Seq<char>,
>
    decreases literal.len() - from,
{
    if from < 0 || from >= literal.len() {
        None
    } else if wildcard_matches(literal[from].0, text) {
        Some(literal[from].1)
    } else {
        literal_target(literal, text, from + 1)
    }
}

/// Whether a member of `d` at or after `from` has the key `NULL`.
pub open spec fn has_null_member(d: Seq<(Seq<char>, Json)>, from: int) -> bool
    decreases d.len() - from,
{
    if from < 0 || from >= d.len() {
        false
    } else {
        d[from].0 == "NULL"@ || has_null_member(d, from + 1)
    }
}

/// Whether an arm of `maps` at or after `from` has the key `NULL`.
pub open spec fn has_null_arm(maps: Seq<Json>, from: int) -> bool
    decreases maps.len() - from,
{
    if from < 0 || from >= maps.len() {
        false
    } else {
        (match maps[from] {
            Json::Dict(d) => has_null_member(d, 0),
            _ => false,
        }) || has_null_arm(maps, from + 1)
    }
}

/// Whether the list in the field `field` has an arm with the key `NULL`.
pub open spec fn has_null_entry(task: Seq<(Seq<char>, Json)>, field: Seq<char>) -> bool {
    match dict_get(task, field) {
        Some(Json::List(maps)) => has_null_arm(maps, 0),
        _ => false,
    }
}

/// What is wrong with the braces of the field `field`, where it is a string.
pub open spec fn field_brace_findings(task: Seq<(Seq<char>, Json)>, field: Seq<char>) -> Seq<Finding> {
    match dict_get(task, field) {
        Some(Json::Text(s)) => brace_findings(task, field, s),
        _ => none(),
    }
}

/// What is wrong with the arms of a `goto_map`: the arms themselves, and,
/// where the text and some arms are literals, a text that no arm matches or
/// a target that is no label of the list.
pub open spec fn target_maps_findings(task: Seq<(Seq<char>, Json)>, around: Surroundings) -> Seq<Finding> {
    match dict_get(task, "target_maps"@) {
        Some(Json::List(maps)) => {
            let scan = scan_arms(
                task,
                maps,
                0,
                ArmScan { found: Seq::empty(), literal: Seq::empty() },
            );
            (if maps.len() == 0 {
                one(task, "goto_map.target_maps must not be empty"@)
            } else {
                none()
            }) + field_brace_findings(task, "text"@) + scan.found + (match dict_get(task, "text"@) {
                Some(Json::Text(text)) => if is_literal(text) && scan.literal.len() > 0 {
                    match literal_target(scan.literal, text, 0) {
                        Some(target) => if target != "CONTINUE"@ && !listed(around.labels, target, 0) {
                            one(
                                task,
                                "goto_map target '"@ + target + "' not found in "@
                                    + around.scope_name,
                            )
                        } else {
                            none()
                        },
                        None => if has_null_arm(maps, 0) {
                            none()
                        } else {
                            one(task, "goto_map has no matches for literal text '"@ + text + "'"@)
                        },
                    }
                } else {
                    none()
                },
                _ => none(),
            })
        },
        _ => none(),
    }
}

/// What is wrong with the arm `entry` of a `replace_map`.
pub open spec fn wildcard_arm_findings(task: Seq<(Seq<char>, Json)>, entry: Json) -> Seq<Finding> {
    match entry {
        Json::Dict(d) => if d.len() != 1 {
            one(task, "wildcard_maps entries must have 1 key"@)
        } else {
            brace_findings(task, "wildcard_maps key"@, d[0].0) + (match d[0].1 {
                Json::Text(val) => brace_findings(task, "wildcard_maps value"@, val),
                _ => one(task, "wildcard_maps values must be strings"@),
            })
        },
        _ => one(task, "wildcard_maps entries must be objects"@),
    }
}

/// What is wrong with the arms of `maps` from `from` on.
pub open spec fn wildcard_arms_findings(task: Seq<(Seq<char>, Json)>, maps: Seq<Json>, from: int) -> Seq<
    Finding,
>
    decreases maps.len() - from,
{
    if from < 0 || from >= maps.len() {
        none()
    } else {
        wildcard_arm_findings(task, maps[from]) + wildcard_arms_findings(task, maps, from + 1)
    }
}

/// What is wrong with the braces of the contents of `msgs` from `from` on.
pub open spec fn message_findings(task: Seq<(Seq<char>, Json)>, msgs: Seq<Json>, from: int) -> Seq<
    Finding,
>
    decreases msgs.len() - from,
{
    if from < 0 || from >= msgs.len() {
        none()
    } else {
        (match msgs[from] {
            Json::Dict(m) => match dict_get(m, "content"@) {
                Some(Json::Text(content)) => brace_findings(task, "chat.messages.content"@, content),
                _ => none(),
            },
            _ => none(),
        }) + message_findings(task, msgs, from + 1)
    }
}

/// The voice file that `task` names, where it names one outright: its
/// `voice_path`, where that is a text that is not empty and has no brace.
pub open spec fn voice_path_of(task: Seq<(Seq<char>, Json)>) -> Option<Seq<char>> {
    match dict_get(task, "voice_path"@) {
        Some(Json::Text(p)) => if p.len() > 0 && !p.contains('{') && !p.contains('}') {
            Some(p)
        } else {
            None
        },
        _ => None,
    }
}

/// The place of the first probe of `path` at or after `from`, or `probes.len()`.
pub open spec fn probe_position(probes: Seq<Probe>, path: Seq<char>, from: int) -> int
    decreases probes.len() - from,
{
    if from < 0 || from >= probes.len() {
        probes.len() as int
    } else if probes[from].path == path {
        from
    } else {
        probe_position(probes, path, from + 1)
    }
}

/// The finding that the voice file of `task` is missing or is a directory,
/// as far as it was probed.
pub open spec fn voice_findings(task: Seq<(Seq<char>, Json)>, probes: Seq<Probe>) -> Seq<Finding> {
    match voice_path_of(task) {
        None => none(),
        Some(path) => {
            let p = probe_position(probes, path, 0);
            if p >= probes.len() {
                none()
            } else if !probes[p].exists {
                one(task, "voice_path does not exist: "@ + probes[p].resolved)
            } else if probes[p].is_dir {
                one(task, "voice_path is a directory: "@ + probes[p].resolved)
            } else {
                none()
            }
        },
    }
}

/// What is wrong with the list of a list command where the list is known
/// before the program runs: an empty list to choose from, an item that
/// cannot be concatenated, a position that means no place.
pub open spec fn static_list_findings(scope: Scope, task: Seq<(Seq<char>, Json)>, cmd: Seq<char>) -> Seq<
    Finding,
> {
    if cmd == "random_choice"@ {
        match static_list(scope, dict_get(task, "list"@)) {
            Some(a) => if a.len() == 0 {
                one(task, "random_choice list is empty"@)
            } else {
                none()
            },
            None => none(),
        }
    } else if cmd == "list_concat"@ {
        match static_list(scope, dict_get(task, "lists"@)) {
            Some(a) => if has_bad_concat_item(a, 0) {
                one(task, "list_concat.lists must contain only arrays or simple interpolations"@)
            } else {
                none()
            },
            None => none(),
        }
    } else if cmd == "list_index"@ {
        match static_list(scope, dict_get(task, "list"@)) {
            Some(a) => position_findings(task, "list_index"@, "index"@, a.len() as int, false),
            None => none(),
        }
    } else {
        match static_list(scope, dict_get(task, "list"@)) {
            Some(a) => position_findings(task, "list_slice"@, "from_index"@, a.len() as int, false)
                + position_findings(task, "list_slice"@, "to_index"@, a.len() as int, true),
            None => none(),
        }
    }
}

/// The finding that a `goto` names no label of its list, or a `run_task` no
/// task of the program. A target with a group in it is not checked, and
/// `CONTINUE` is no label.
pub open spec fn target_findings(task: Seq<(Seq<char>, Json)>, cmd: Seq<char>, around: Surroundings) -> Seq<
    Finding,
> {
    if cmd == "goto"@ {
        match dict_get(task, "name"@) {
            Some(Json::Text(target)) => if is_literal(target) && target != "CONTINUE"@ && !listed(
                around.labels,
                target,
                0,
            ) {
                one(task, "goto target '"@ + target + "' not found in "@ + around.scope_name)
            } else {
                none()
            },
            _ => none(),
        }
    } else {
        match dict_get(task, "task_name"@) {
            Some(Json::Text(n)) => if listed(around.named, n, 0) {
                none()
            } else {
                one(task, "run_task references unknown task '"@ + n + "'"@)
            },
            _ => none(),
        }
    }
}

/// What is wrong with the braces of the field `text_field`, where the maps
/// of the field `maps_field` have an arm for texts without a value.
pub open spec fn null_text_findings(
    task: Seq<(Seq<char>, Json)>,
    maps_field: Seq<char>,
    text_field: Seq<char>,
) -> Seq<Finding> {
    if has_null_entry(task, maps_field) {
        field_brace_findings(task, text_field)
    } else {
        none()
    }
}

/// What is wrong with the arms of a `replace_map`.
pub open spec fn wildcard_maps_findings(task: Seq<(Seq<char>, Json)>) -> Seq<Finding> {
    match dict_get(task, "wildcard_maps"@) {
        Some(Json::List(maps)) => wildcard_arms_findings(task, maps, 0),
        _ => none(),
    }
}

/// What is wrong with the lists of a `for`.
pub open spec fn for_lists_findings(scope: Scope, task: Seq<(Seq<char>, Json)>) -> Seq<Finding> {
    match dict_get(task, "name_list_map"@) {
        Some(Json::Dict(map)) => for_list_findings(scope, task, map, 0, Seq::empty()),
        _ => none(),
    }
}

/// What is wrong with the braces of the messages of a `chat`, where they are known.
pub open spec fn chat_messages_findings(scope: Scope, task: Seq<(Seq<char>, Json)>) -> Seq<Finding> {
    match static_list(scope, dict_get(task, "messages"@)) {
        Some(msgs) => message_findings(task, msgs, 0),
        None => none(),
    }
}

/// What is wrong with the fields of a `print`.
pub open spec fn print_findings(
    scope: Scope,
    task: Seq<(Seq<char>, Json)>,
    cmd: Seq<char>,
    around: Surroundings,
) -> Seq<Finding> {
    missing(task, "text"@)
        + string_findings(scope, task, "text"@)
}

/// What is wrong with the fields of a `sleep`.
pub open spec fn sleep_findings(
    scope: Scope,
    task: Seq<(Seq<char>, Json)>,
    cmd: Seq<char>,
    around: Surroundings,
) -> Seq<Finding> {
    missing(task, "seconds"@)
        + number_or_string_findings(task, "seconds"@)
}

/// What is wrong with the fields of a `set` or an `unescape`.
pub open spec fn store_findings(
    scope: Scope,
    task: Seq<(Seq<char>, Json)>,
    cmd: Seq<char>,
    around: Surroundings,
) -> Seq<Finding> {
    missing(task, "item"@)
        + missing(task, "output_name"@)
        + string_findings(scope, task, "output_name"@)
}

/// What is wrong with the fields of a `write`.
pub open spec fn write_findings(
    scope: Scope,
    task: Seq<(Seq<char>, Json)>,
    cmd: Seq<char>,
    around: Surroundings,
) -> Seq<Finding> {
    missing(task, "item"@)
        + missing(task, "path"@)
        + string_findings(scope, task, "path"@)
}

/// What is wrong with the fields of a `random_choice`.
pub open spec fn random_choice_findings(
    scope: Scope,
    task: Seq<(Seq<char>, Json)>,
    cmd: Seq<char>,
    around: Surroundings,
) -> Seq<Finding> {
    missing(task, "list"@)
        + missing(task, "output_name"@)
        + array_findings(scope, task, "list"@)
        + string_findings(scope, task, "output_name"@)
        + static_list_findings(scope, task, cmd)
}

/// What is wrong with the fields of a `list_join`.
pub open spec fn list_join_findings(
    scope: Scope,
    task: Seq<(Seq<char>, Json)>,
    cmd: Seq<char>,
    around: Surroundings,
) -> Seq<Finding> {
    missing(task, "list"@)
        + missing(task, "before"@)
        + missing(task, "between"@)
        + missing(task, "after"@)
        + missing(task, "output_name"@)
        + array_findings(scope, task, "list"@)
        + string_findings(scope, task, "before"@)
        + string_findings(scope, task, "between"@)
        + string_findings(scope, task, "after"@)
        + string_findings(scope, task, "output_name"@)
}

/// What is wrong with the fields of a `list_concat`.
pub open spec fn list_concat_findings(
    scope: Scope,
    task: Seq<(Seq<char>, Json)>,
    cmd: Seq<char>,
    around: Surroundings,
) -> Seq<Finding> {
    missing(task, "lists"@)
        + missing(task, "output_name"@)
        + array_findings(scope, task, "lists"@)
        + string_findings(scope, task, "output_name"@)
        + static_list_findings(scope, task, cmd)
}

/// What is wrong with the fields of a `list_append` or a `list_remove`.
pub open spec fn list_change_findings(
    scope: Scope,
    task: Seq<(Seq<char>, Json)>,
    cmd: Seq<char>,
    around: Surroundings,
) -> Seq<Finding> {
    missing(task, "list"@)
        + missing(task, "item"@)
        + missing(task, "output_name"@)
        + array_findings(scope, task, "list"@)
        + string_findings(scope, task, "output_name"@)
}

/// What is wrong with the fields of a `list_index`.
pub open spec fn list_index_findings(
    scope: Scope,
    task: Seq<(Seq<char>, Json)>,
    cmd: Seq<char>,
    around: Surroundings,
) -> Seq<Finding> {
    missing(task, "list"@)
        + missing(task, "index"@)
        + missing(task, "output_name"@)
        + array_findings(scope, task, "list"@)
        + int_or_string_findings(task, "index"@)
        + string_findings(scope, task, "output_name"@)
        + static_list_findings(scope, task, cmd)
}

/// What is wrong with the fields of a `list_slice`.
pub open spec fn list_slice_findings(
    scope: Scope,
    task: Seq<(Seq<char>, Json)>,
    cmd: Seq<char>,
    around: Surroundings,
) -> Seq<Finding> {
    missing(task, "list"@)
        + missing(task, "from_index"@)
        + missing(task, "to_index"@)
        + missing(task, "output_name"@)
        + array_findings(scope, task, "list"@)
        + int_or_string_findings(task, "from_index"@)
        + int_or_string_findings(task, "to_index"@)
        + string_findings(scope, task, "output_name"@)
        + static_list_findings(scope, task, cmd)
}

/// What is wrong with the fields of a `user_input`.
pub open spec fn user_input_findings(
    scope: Scope,
    task: Seq<(Seq<char>, Json)>,
    cmd: Seq<char>,
    around: Surroundings,
) -> Seq<Finding> {
    missing(task, "prompt"@)
        + missing(task, "output_name"@)
        + string_findings(scope, task, "prompt"@)
        + string_findings(scope, task, "output_name"@)
}

/// What is wrong with the fields of a `user_choice`.
pub open spec fn user_choice_findings(
    scope: Scope,
    task: Seq<(Seq<char>, Json)>,
    cmd: Seq<char>,
    around: Surroundings,
) -> Seq<Finding> {
    missing(task, "list"@)
        + missing(task, "description"@)
        + missing(task, "output_name"@)
        + array_findings(scope, task, "list"@)
        + string_findings(scope, task, "description"@)
        + string_findings(scope, task, "output_name"@)
}

/// What is wrong with the fields of an `await_insert` or a `label`.
pub open spec fn name_findings(
    scope: Scope,
    task: Seq<(Seq<char>, Json)>,
    cmd: Seq<char>,
    around: Surroundings,
) -> Seq<Finding> {
    missing(task, "name"@)
        + string_findings(scope, task, "name"@)
}

/// What is wrong with the fields of a `goto`.
pub open spec fn goto_findings(
    scope: Scope,
    task: Seq<(Seq<char>, Json)>,
    cmd: Seq<char>,
    around: Surroundings,
) -> Seq<Finding> {
    missing(task, "name"@)
        + string_findings(scope, task, "name"@)
        + target_findings(task, cmd, around)
}

/// What is wrong with the fields of a `goto_map`.
pub open spec fn goto_map_findings(
    scope: Scope,
    task: Seq<(Seq<char>, Json)>,
    cmd: Seq<char>,
    around: Surroundings,
) -> Seq<Finding> {
    missing(task, "text"@)
        + missing(task, "target_maps"@)
        + string_findings(scope, task, "text"@)
        + array_findings(scope, task, "target_maps"@)
        + target_maps_findings(task, around)
        + null_text_findings(task, "target_maps"@, "text"@)
}

/// What is wrong with the fields of a `replace_map`.
pub open spec fn replace_map_findings(
    scope: Scope,
    task: Seq<(Seq<char>, Json)>,
    cmd: Seq<char>,
    around: Surroundings,
) -> Seq<Finding> {
    missing(task, "item"@)
        + missing(task, "output_name"@)
        + missing(task, "wildcard_maps"@)
        + string_findings(scope, task, "output_name"@)
        + array_findings(scope, task, "wildcard_maps"@)
        + wildcard_maps_findings(task)
        + null_text_findings(task, "wildcard_maps"@, "item"@)
}

/// What is wrong with the fields of a `for`.
pub open spec fn for_findings(
    scope: Scope,
    task: Seq<(Seq<char>, Json)>,
    cmd: Seq<char>,
    around: Surroundings,
) -> Seq<Finding> {
    missing(task, "name_list_map"@)
        + missing(task, "tasks"@)
        + object_findings(scope, task, "name_list_map"@)
        + task_array_findings(scope, task, "tasks"@)
        + for_lists_findings(scope, task)
}

/// What is wrong with the fields of a `serial`, a `parallel_wait` or a `parallel_race`.
pub open spec fn tasks_findings(
    scope: Scope,
    task: Seq<(Seq<char>, Json)>,
    cmd: Seq<char>,
    around: Surroundings,
) -> Seq<Finding> {
    missing(task, "tasks"@)
        + task_array_findings(scope, task, "tasks"@)
        + jump_findings(task, cmd)
}

/// A task that asks for a jump: a `goto` or a `goto_map`.
pub open spec fn is_jump(item: Json) -> bool {
    match item {
        Json::Dict(t) => text_field(t, "cmd"@) == Some("goto"@) || text_field(t, "cmd"@) == Some(
            "goto_map"@,
        ),
        _ => false,
    }
}

/// Whether an item of `list` at or after `from` asks for a jump.
pub open spec fn has_jump(list: Seq<Json>, from: int) -> bool
    decreases list.len() - from,
{
    if from < 0 || from >= list.len() {
        false
    } else {
        is_jump(list[from]) || has_jump(list, from + 1)
    }
}

/// The tasks of a `parallel_wait` or a `parallel_race` run side by side, so
/// a jump among them has no task to lead to: it is a finding.
pub open spec fn jump_findings(task: Seq<(Seq<char>, Json)>, cmd: Seq<char>) -> Seq<Finding> {
    if (cmd == "parallel_wait"@ || cmd == "parallel_race"@) && (match dict_get(task, "tasks"@) {
        Some(Json::List(sub)) => has_jump(sub, 0),
        _ => false,
    }) {
        one(task, "'"@ + cmd + "' cannot hold a goto or a goto_map among its tasks"@)
    } else {
        none()
    }
}

/// What is wrong with the fields of a `run_task`.
pub open spec fn run_task_findings(
    scope: Scope,
    task: Seq<(Seq<char>, Json)>,
    cmd: Seq<char>,
    around: Surroundings,
) -> Seq<Finding> {
    missing(task, "task_name"@)
        + string_findings(scope, task, "task_name"@)
        + target_findings(task, cmd, around)
}

/// What is wrong with the fields of a `delete` or a `delete_except`.
pub open spec fn wildcards_findings(
    scope: Scope,
    task: Seq<(Seq<char>, Json)>,
    cmd: Seq<char>,
    around: Surroundings,
) -> Seq<Finding> {
    missing(task, "wildcards"@)
        + array_findings(scope, task, "wildcards"@)
}

/// What is wrong with the fields of a `math`.
pub open spec fn math_findings(
    scope: Scope,
    task: Seq<(Seq<char>, Json)>,
    cmd: Seq<char>,
    around: Surroundings,
) -> Seq<Finding> {
    missing(task, "input"@)
        + missing(task, "output_name"@)
        + string_findings(scope, task, "input"@)
        + string_findings(scope, task, "output_name"@)
}

/// What is wrong with the fields of a `chat`.
pub open spec fn chat_findings(
    scope: Scope,
    task: Seq<(Seq<char>, Json)>,
    cmd: Seq<char>,
    around: Surroundings,
) -> Seq<Finding> {
    missing(task, "messages"@)
        + missing(task, "output_name"@)
        + array_findings(scope, task, "messages"@)
        + string_findings(scope, task, "output_name"@)
        + voice_findings(task, around.probes)
        + chat_messages_findings(scope, task)
}

/// What is wrong with the fields of a `speak`.
pub open spec fn speak_findings(
    scope: Scope,
    task: Seq<(Seq<char>, Json)>,
    cmd: Seq<char>,
    around: Surroundings,
) -> Seq<Finding> {
    missing(task, "text"@)
        + missing(task, "voice_path"@)
        + string_findings(scope, task, "text"@)
        + string_findings(scope, task, "voice_path"@)
        + voice_findings(task, around.probes)
}

/// What is wrong with the fields of the command `cmd` of `task`.
pub open spec fn command_findings(
    scope: Scope,
    task: Seq<(Seq<char>, Json)>,
    cmd: Seq<char>,
    around: Surroundings,
) -> Seq<Finding> {
    if cmd == "print"@ {
        print_findings(scope, task, cmd, around)
    } else if cmd == "clear"@ {
        none()
    } else if cmd == "sleep"@ {
        sleep_findings(scope, task, cmd, around)
    } else if cmd == "set"@ {
        store_findings(scope, task, cmd, around)
    } else if cmd == "unescape"@ {
        store_findings(scope, task, cmd, around)
    } else if cmd == "write"@ {
        write_findings(scope, task, cmd, around)
    } else if cmd == "show_inserts"@ {
        none()
    } else if cmd == "random_choice"@ {
        random_choice_findings(scope, task, cmd, around)
    } else if cmd == "list_join"@ {
        list_join_findings(scope, task, cmd, around)
    } else if cmd == "list_concat"@ {
        list_concat_findings(scope, task, cmd, around)
    } else if cmd == "list_append"@ {
        list_change_findings(scope, task, cmd, around)
    } else if cmd == "list_remove"@ {
        list_change_findings(scope, task, cmd, around)
    } else if cmd == "list_index"@ {
        list_index_findings(scope, task, cmd, around)
    } else if cmd == "list_slice"@ {
        list_slice_findings(scope, task, cmd, around)
    } else if cmd == "user_input"@ {
        user_input_findings(scope, task, cmd, around)
    } else if cmd == "user_choice"@ {
        user_choice_findings(scope, task, cmd, around)
    } else if cmd == "await_insert"@ {
        name_findings(scope, task, cmd, around)
    } else if cmd == "label"@ {
        name_findings(scope, task, cmd, around)
    } else if cmd == "goto"@ {
        goto_findings(scope, task, cmd, around)
    } else if cmd == "goto_map"@ {
        goto_map_findings(scope, task, cmd, around)
    } else if cmd == "replace_map"@ {
        replace_map_findings(scope, task, cmd, around)
    } else if cmd == "for"@ {
        for_findings(scope, task, cmd, around)
    } else if cmd == "serial"@ {
        tasks_findings(scope, task, cmd, around)
    } else if cmd == "parallel_wait"@ {
        tasks_findings(scope, task, cmd, around)
    } else if cmd == "parallel_race"@ {
        tasks_findings(scope, task, cmd, around)
    } else if cmd == "run_task"@ {
        run_task_findings(scope, task, cmd, around)
    } else if cmd == "delete"@ {
        wildcards_findings(scope, task, cmd, around)
    } else if cmd == "delete_except"@ {
        wildcards_findings(scope, task, cmd, around)
    } else if cmd == "math"@ {
        math_findings(scope, task, cmd, around)
    } else if cmd == "chat"@ {
        chat_findings(scope, task, cmd, around)
    } else if cmd == "speak"@ {
        speak_findings(scope, task, cmd, around)
    } else {
        one(task, "Unknown cmd '"@ + cmd + "'"@)
    }
}

/// What is wrong with `task`.
pub open spec fn task_findings(scope: Scope, task: Seq<(Seq<char>, Json)>, around: Surroundings) -> Seq<
    Finding,
> {
    match text_field(task, "cmd"@) {
        None => one(task, "Task missing 'cmd' string"@),
        Some(cmd) => command_findings(scope, task, cmd, around),
    }
}

/// What the scan for the labels of a list has so far.
pub struct LabelScan {
    pub labels: Seq<Seq<char>>,
    pub found: Seq<Finding>,
}

/// The scan after the item `item`: a label adds its name, and is reported
/// where its name is no string or was there before.
pub open spec fn scan_label(item: Json, acc: LabelScan) -> LabelScan {
    match item {
        Json::Dict(task) => if text_field(task, "cmd"@) == Some("label"@) {
            match text_field(task, "name"@) {
                None => LabelScan {
                    found: acc.found + one(task, "label.name must be a string"@),
                    ..acc
                },
                Some(name) => if listed(acc.labels, name, 0) {
                    LabelScan {
                        found: acc.found + one(
                            task,
                            "Label '"@ + name + "' is not unique in its list of tasks"@,
                        ),
                        ..acc
                    }
                } else {
                    LabelScan { labels: acc.labels.push(name), ..acc }
                },
            }
        } else {
            acc
        },
        _ => acc,
    }
}

/// The scan after the items of `list` from `from` on.
pub open spec fn scan_labels(list: Seq<Json>, from: int, acc: LabelScan) -> LabelScan
    decreases list.len() - from,
{
    if from < 0 || from >= list.len() {
        acc
    } else {
        scan_labels(list, from + 1, scan_label(list[from], acc))
    }
}

/// The labels of `list` and what is wrong with them.
pub open spec fn labels_of(list: Seq<Json>) -> LabelScan {
    scan_labels(list, 0, LabelScan { labels: Seq::empty(), found: Seq::empty() })
}

/// Whether an item of `a` at or after `from` is an object.
pub open spec fn has_object(a: Seq<Json>, from: int) -> bool
    decreases a.len() - from,
{
    if from < 0 || from >= a.len() {
        false
    } else {
        a[from] is Dict || has_object(a, from + 1)
    }
}

/// What is wrong with the tasks of `list`: with its labels, then with each
/// task and with the tasks inside it.
pub open spec fn list_findings(
    scope: Scope,
    list: Seq<Json>,
    scope_name: Seq<char>,
    named: Seq<Seq<char>>,
    probes: Seq<Probe>,
) -> Seq<Finding>
    decreases list, list.len() + 1,
{
    let scan = labels_of(list);
    scan.found + each_findings(
        scope,
        list,
        Surroundings { scope_name, named, labels: scan.labels, probes },
        0,
    )
}

/// What is wrong with the tasks of `list` from `from` on.
pub open spec fn each_findings(scope: Scope, list: Seq<Json>, around: Surroundings, from: int) -> Seq<
    Finding,
>
    decreases list, list.len() - from,
{
    if from < 0 || from >= list.len() {
        none()
    } else {
        (match list[from] {
            Json::Dict(task) => task_findings(scope, task, around) + (match dict_get(task, "tasks"@) {
                Some(Json::List(sub)) => {
                    proof {
                        lemma_dict_position(task, "tasks"@);
                    }
                    if has_object(sub, 0) {
                        list_findings(scope, sub, around.scope_name, around.named, around.probes)
                    } else {
                        none()
                    }
                },
                _ => none(),
            }),
            _ => none(),
        }) + each_findings(scope, list, around, from + 1)
    }
}

/// What a task is checked against, as the analyzer holds it.
pub struct Around<'a> {
    pub scope_name: &'a str,
    pub named: &'a Vec<String>,
    pub labels: &'a Vec<String>,
    pub probes: &'a Vec<PathProbe>,
}

impl<'a> View for Around<'a> {
    type V = Surroundings;

    open spec fn view(&self) -> Surroundings {
        Surroundings {
            scope_name: self.scope_name@,
            named: crate::model::texts_of(self.named@),
            labels: crate::model::texts_of(self.labels@),
            probes: probes_view(self.probes@),
        }
    }
}

fn is_listed(list: &Vec<String>, x: &str) -> (r: bool)
    ensures
        r == listed(crate::model::texts_of(list@), x@, 0),
{
    let wanted = x.to_owned();
    let ghost texts = crate::model::texts_of(list@);
    let mut i: usize = 0;
    while i < list.len()
        invariant
            i <= list.len(),
            wanted@ == x@,
            texts == crate::model::texts_of(list@),
            listed(texts, x@, 0) == listed(texts, x@, i as int),
        decreases list.len() - i,
    {
        if list[i] == wanted {
            return true;
        }
        i += 1;
    }
    false
}

fn require_field(task: &Task, field: &str, diags: &mut Vec<Diagnostic>)
    ensures
        findings(final(diags)@) == findings(old(diags)@) + missing(task@, field@),
{
    if !task.contains_key(field) {
        report(diags, task, concat3("Missing required field '", field, "'"));
    } else {
        assert(findings(diags@) =~= findings(old(diags)@) + missing(task@, field@));
    }
}

fn require_string(
    task: &Task,
    field: &str,
    statics: &Statics,
    ctx: &ProgramLoadContext,
    diags: &mut Vec<Diagnostic>,
)
    ensures
        findings(final(diags)@) == findings(old(diags)@) + string_findings(
            statics.scope(*ctx),
            task@,
            field@,
        ),
{
    let ok = match task.get(field) {
        None => true,
        Some(v) => if v.is_string() {
            match resolve_simple_value(v, statics, ctx) {
                Some(r) => r.is_string(),
                None => true,
            }
        } else {
            false
        },
    };
    if !ok {
        report(diags, task, concat3("Field '", field, "' must be a string"));
    } else {
        assert(findings(diags@) =~= findings(old(diags)@) + none());
    }
}

fn require_number_or_string(task: &Task, field: &str, diags: &mut Vec<Diagnostic>)
    ensures
        findings(final(diags)@) == findings(old(diags)@) + number_or_string_findings(task@, field@),
{
    let ok = match task.get(field) {
        None => true,
        Some(v) => v.is_string() || v.is_number(),
    };
    if !ok {
        report(diags, task, concat3("Field '", field, "' must be a number or string"));
    } else {
        assert(findings(diags@) =~= findings(old(diags)@) + none());
    }
}

fn require_int_or_string(task: &Task, field: &str, diags: &mut Vec<Diagnostic>)
    ensures
        findings(final(diags)@) == findings(old(diags)@) + int_or_string_findings(task@, field@),
{
    let ok = match task.get(field) {
        None => true,
        Some(v) => v.is_string() || v.as_i64().is_some(),
    };
    if !ok {
        report(diags, task, concat3("Field '", field, "' must be an int or string"));
    } else {
        assert(findings(diags@) =~= findings(old(diags)@) + none());
    }
}

fn require_array(
    task: &Task,
    field: &str,
    statics: &Statics,
    ctx: &ProgramLoadContext,
    diags: &mut Vec<Diagnostic>,
)
    ensures
        findings(final(diags)@) == findings(old(diags)@) + array_findings(
            statics.scope(*ctx),
            task@,
            field@,
        ),
{
    let ok = match task.get(field) {
        None => true,
        Some(v) => if v.is_array() {
            true
        } else {
            match resolve_simple_value(v, statics, ctx) {
                Some(r) => r.is_array(),
                None => is_simple_interpolation(v),
            }
        },
    };
    if !ok {
        report(diags, task, concat3("Field '", field, "' must be an array"));
    } else {
        assert(findings(diags@) =~= findings(old(diags)@) + none());
    }
}

fn require_object(
    task: &Task,
    field: &str,
    statics: &Statics,
    ctx: &ProgramLoadContext,
    diags: &mut Vec<Diagnostic>,
)
    ensures
        findings(final(diags)@) == findings(old(diags)@) + object_findings(
            statics.scope(*ctx),
            task@,
            field@,
        ),
{
    let ok = match task.get(field) {
        None => true,
        Some(v) => if v.is_object() {
            true
        } else {
            match resolve_simple_value(v, statics, ctx) {
                Some(r) => r.is_object(),
                None => is_simple_interpolation(v),
            }
        },
    };
    if !ok {
        report(diags, task, concat3("Field '", field, "' must be an object"));
    } else {
        assert(findings(diags@) =~= findings(old(diags)@) + none());
    }
}

fn all_objects(a: &Vec<Value>) -> (r: bool)
    ensures
        r == (as_tasks(list_view(a@)) is Some),
{
    proof {
        lemma_list_view(a@);
    }
    let mut i: usize = 0;
    while i < a.len()
        invariant
            i <= a.len(),
            list_view(a@).len() == a@.len(),
            forall|k: int| 0 <= k < a@.len() ==> list_view(a@)[k] == a@[k]@,
            forall|k: int| 0 <= k < i ==> (#[trigger] list_view(a@)[k]) is Dict,
        decreases a.len() - i,
    {
        if !a[i].is_object() {
            assert(!(list_view(a@)[i as int] is Dict));
            return false;
        }
        i += 1;
    }
    true
}

fn require_task_array(
    task: &Task,
    field: &str,
    statics: &Statics,
    ctx: &ProgramLoadContext,
    diags: &mut Vec<Diagnostic>,
)
    ensures
        findings(final(diags)@) == findings(old(diags)@) + task_array_findings(
            statics.scope(*ctx),
            task@,
            field@,
        ),
{
    let ok = match task.get(field) {
        None => true,
        Some(Value::Array(a)) => all_objects(a),
        Some(v) => match resolve_simple_value(v, statics, ctx) {
            Some(Value::Array(a)) => all_objects(&a),
            Some(_) => false,
            None => is_simple_interpolation(v),
        },
    };
    if !ok {
        report(diags, task, concat3("Field '", field, "' must be an array of objects"));
    } else {
        assert(findings(diags@) =~= findings(old(diags)@) + none());
    }
}

fn check_position(
    task: &Task,
    command: &str,
    field: &str,
    len: usize,
    zero_ok: bool,
    diags: &mut Vec<Diagnostic>,
)
    ensures
        findings(final(diags)@) == findings(old(diags)@) + position_findings(
            task@,
            command@,
            field@,
            len as int,
            zero_ok,
        ),
{
    let index = match task.get(field) {
        Some(Value::Number(Number::Int(i))) => Some(*i),
        _ => None,
    };
    let ghost before = findings(diags@);
    match index {
        Some(i) => {
            if i == 0 {
                if !zero_ok {
                    let mut m = chars_of(command);
                    m.push(' ');
                    crate::text::append_chars(&mut m, &chars_of(field));
                    crate::text::append_chars(&mut m, &chars_of(" 0 is invalid (1-based)"));
                    assert(m@ =~= command@ + seq![' '] + field@ + " 0 is invalid (1-based)"@);
                    report(diags, task, string_of(&m));
                }
            } else if is_index_out_of_bounds(i, len) {
                let mut m = chars_of(command);
                m.push(' ');
                crate::text::append_chars(&mut m, &chars_of(field));
                crate::text::append_chars(&mut m, &chars_of(" out of bounds"));
                assert(m@ =~= command@ + seq![' '] + field@ + " out of bounds"@);
                report(diags, task, string_of(&m));
            }
        },
        None => {},
    }
    assert(findings(diags@) =~= before + position_findings(
        task@,
        command@,
        field@,
        len as int,
        zero_ok,
    ));
}

fn check_field_braces(task: &Task, field: &str, diags: &mut Vec<Diagnostic>)
    ensures
        findings(final(diags)@) == findings(old(diags)@) + field_brace_findings(task@, field@),
{
    match task.get(field) {
        Some(Value::String(s)) => {
            ensure_balanced_interpolation(task, field, s.as_str(), diags);
        },
        _ => {
            assert(findings(diags@) =~= findings(old(diags)@) + none());
        },
    }
}

fn has_null_member_in(m: &Object) -> (r: bool)
    ensures
        r == has_null_member(m@, 0),
{
    proof {
        lemma_dict_view(m.entries@);
    }
    let mut i: usize = 0;
    while i < m.entries.len()
        invariant
            i <= m.entries.len(),
            m@.len() == m.entries@.len(),
            forall|k: int| 0 <= k < m@.len() ==> m@[k] == (m.entries@[k].0@, m.entries@[k].1@),
            has_null_member(m@, 0) == has_null_member(m@, i as int),
        decreases m.entries.len() - i,
    {
        if same_text(m.entries[i].0.as_str(), "NULL") {
            return true;
        }
        i += 1;
    }
    false
}

/// Whether the list in the field `field` of `task` has an arm with the key `NULL`.
pub fn has_null_map_entry(task: &Task, field: &str) -> (r: bool)
    ensures
        r == has_null_entry(task@, field@),
{
    match task.get(field) {
        Some(Value::Array(maps)) => {
            let ghost items = list_view(maps@);
            proof {
                lemma_list_view(maps@);
            }
            let mut i: usize = 0;
            while i < maps.len()
                invariant
                    i <= maps.len(),
                    items == list_view(maps@),
                    items.len() == maps@.len(),
                    forall|k: int| 0 <= k < items.len() ==> items[k] == maps@[k]@,
                    has_null_entry(task@, field@) == has_null_arm(items, 0),
                    has_null_arm(items, 0) == has_null_arm(items, i as int),
                decreases maps.len() - i,
            {
                match &maps[i] {
                    Value::Object(m) => {
                        if has_null_member_in(m) {
                            return true;
                        }
                    },
                    _ => {},
                }
                i += 1;
            }
            false
        },
        _ => false,
    }
}

/// `a`, `b`, `c` and `d` one after another.
fn concat4(a: &str, b: &str, c: &str, d: &str) -> (r: String)
    ensures
        r@ == a@ + b@ + c@ + d@,
{
    let mut out = chars_of(a);
    crate::text::append_chars(&mut out, &chars_of(b));
    crate::text::append_chars(&mut out, &chars_of(c));
    crate::text::append_chars(&mut out, &chars_of(d));
    string_of(&out)
}

/// The texts of `pairs`, in order.
pub open spec fn pairs_view(pairs: Seq<(String, String)>) -> Seq<(Seq<char>, Seq<char>)> {
    Seq::new(pairs.len(), |i: int| (pairs[i].0@, pairs[i].1@))
}

/// What an arm adds to the findings does not depend on the findings before it.
proof fn lemma_scan_arm_prefix(
    task: Seq<(Seq<char>, Json)>,
    entry: Json,
    head: Seq<Finding>,
    acc: ArmScan,
)
    ensures
        scan_arm(task, entry, ArmScan { found: head + acc.found, literal: acc.literal }) == (ArmScan {
            found: head + scan_arm(task, entry, acc).found,
            literal: scan_arm(task, entry, acc).literal,
        }),
{
    let shifted = scan_arm(task, entry, ArmScan { found: head + acc.found, literal: acc.literal });
    let plain = scan_arm(task, entry, acc);
    assert(shifted.found =~= head + plain.found);
}

fn check_arm(task: &Task, entry: &Value, literal: &mut Vec<(String, String)>, diags: &mut Vec<Diagnostic>)
    ensures
        ({
            let acc = ArmScan { found: findings(old(diags)@), literal: pairs_view(old(literal)@) };
            let next = scan_arm(task@, entry@, acc);
            findings(final(diags)@) == next.found && pairs_view(final(literal)@) == next.literal
        }),
{
    let ghost base = findings(diags@);
    match entry {
        Value::Object(m) => {
            proof {
                lemma_dict_view(m.entries@);
            }
            if m.entries.len() != 1 {
                report(diags, task, "target_maps entries must have 1 key".to_owned());
                return ;
            }
            let key = m.entries[0].0.as_str();
            if key.unicode_len() == 0 {
                report(diags, task, "target_maps keys must be non-empty strings".to_owned());
            }
            ensure_balanced_interpolation(task, "target_maps key", key, diags);
            let ghost checked = findings(diags@);
            assert(checked =~= base + (if key@.len() == 0 {
                one(task@, "target_maps keys must be non-empty strings"@)
            } else {
                none()
            }) + brace_findings(task@, "target_maps key"@, key@));
            match &m.entries[0].1 {
                Value::String(val) => {
                    ensure_balanced_interpolation(task, "target_maps value", val.as_str(), diags);
                    if is_literal_no_braces(key) && is_literal_no_braces(val.as_str()) {
                        let ghost before = literal@;
                        literal.push((m.entries[0].0.clone(), val.clone()));
                        assert(pairs_view(literal@) =~= pairs_view(before).push((key@, val@)));
                    }
                },
                _ => {
                    report(diags, task, "target_maps values must be strings".to_owned());
                },
            }
        },
        _ => {
            report(diags, task, "target_maps entries must be objects".to_owned());
        },
    }
}

fn find_literal_target(literal: &Vec<(String, String)>, text: &str) -> (r: Option<String>)
    ensures
        match r {
            Some(t) => literal_target(pairs_view(literal@), text@, 0) == Some(t@),
            None => literal_target(pairs_view(literal@), text@, 0) is None,
        },
{
    let ghost pv = pairs_view(literal@);
    let mut i: usize = 0;
    while i < literal.len()
        invariant
            i <= literal.len(),
            pv == pairs_view(literal@),
            literal_target(pv, text@, 0) == literal_target(pv, text@, i as int),
        decreases literal.len() - i,
    {
        if wildcard_match(literal[i].0.as_str(), text) {
            return Some(literal[i].1.clone());
        }
        i += 1;
    }
    None
}

fn has_null_arm_in(maps: &Vec<Value>) -> (r: bool)
    ensures
        r == has_null_arm(list_view(maps@), 0),
{
    let ghost items = list_view(maps@);
    proof {
        lemma_list_view(maps@);
    }
    let mut i: usize = 0;
    while i < maps.len()
        invariant
            i <= maps.len(),
            items == list_view(maps@),
            items.len() == maps@.len(),
            forall|k: int| 0 <= k < items.len() ==> items[k] == maps@[k]@,
            has_null_arm(items, 0) == has_null_arm(items, i as int),
        decreases maps.len() - i,
    {
        match &maps[i] {
            Value::Object(m) => {
                if has_null_member_in(m) {
                    return true;
                }
            },
            _ => {},
        }
        i += 1;
    }
    false
}

fn check_target_maps(task: &Task, around: &Around, diags: &mut Vec<Diagnostic>)
    ensures
        findings(final(diags)@) == findings(old(diags)@) + target_maps_findings(task@, around@),
{
    let ghost base = findings(diags@);
    let maps = match task.get("target_maps") {
        Some(Value::Array(maps)) => maps,
        _ => {
            assert(findings(diags@) =~= base + none());
            return ;
        },
    };
    let ghost items = list_view(maps@);
    proof {
        lemma_list_view(maps@);
    }
    if maps.len() == 0 {
        report(diags, task, "goto_map.target_maps must not be empty".to_owned());
    }
    check_field_braces(task, "text", diags);
    let ghost head = findings(diags@);
    assert(head =~= base + (if items.len() == 0 {
        one(task@, "goto_map.target_maps must not be empty"@)
    } else {
        none()
    }) + field_brace_findings(task@, "text"@));
    let mut literal: Vec<(String, String)> = Vec::new();
    let ghost mut scan = ArmScan { found: Seq::empty(), literal: Seq::empty() };
    let mut i: usize = 0;
    assert(pairs_view(literal@) =~= scan.literal);
    assert(findings(diags@) =~= head + scan.found);
    while i < maps.len()
        invariant
            i <= maps.len(),
            items == list_view(maps@),
            items.len() == maps@.len(),
            forall|k: int| 0 <= k < items.len() ==> items[k] == maps@[k]@,
            findings(diags@) == head + scan.found,
            pairs_view(literal@) == scan.literal,
            scan_arms(task@, items, 0, ArmScan { found: Seq::empty(), literal: Seq::empty() })
                == scan_arms(task@, items, i as int, scan),
        decreases maps.len() - i,
    {
        check_arm(task, &maps[i], &mut literal, diags);
        proof {
            lemma_scan_arm_prefix(task@, items[i as int], head, scan);
            scan = scan_arm(task@, items[i as int], scan);
        }
        i += 1;
    }
    match task.get("text") {
        Some(Value::String(text)) => {
            if is_literal_no_braces(text.as_str()) && literal.len() > 0 {
                match find_literal_target(&literal, text.as_str()) {
                    Some(target) => {
                        if !same_text(target.as_str(), "CONTINUE") && !is_listed(
                            around.labels,
                            target.as_str(),
                        ) {
                            report(
                                diags,
                                task,
                                concat4(
                                    "goto_map target '",
                                    target.as_str(),
                                    "' not found in ",
                                    around.scope_name,
                                ),
                            );
                        }
                    },
                    None => {
                        if !has_null_arm_in(maps) {
                            report(
                                diags,
                                task,
                                concat3("goto_map has no matches for literal text '", text.as_str(), "'"),
                            );
                        }
                    },
                }
            }
        },
        _ => {},
    }
    assert(findings(diags@) =~= base + target_maps_findings(task@, around@));
}

fn check_wildcard_arm(task: &Task, entry: &Value, diags: &mut Vec<Diagnostic>)
    ensures
        findings(final(diags)@) == findings(old(diags)@) + wildcard_arm_findings(task@, entry@),
{
    let ghost base = findings(diags@);
    match entry {
        Value::Object(m) => {
            proof {
                lemma_dict_view(m.entries@);
            }
            if m.entries.len() != 1 {
                report(diags, task, "wildcard_maps entries must have 1 key".to_owned());
                return ;
            }
            ensure_balanced_interpolation(task, "wildcard_maps key", m.entries[0].0.as_str(), diags);
            match &m.entries[0].1 {
                Value::String(val) => {
                    ensure_balanced_interpolation(task, "wildcard_maps value", val.as_str(), diags);
                },
                _ => {
                    report(diags, task, "wildcard_maps values must be strings".to_owned());
                },
            }
            assert(findings(diags@) =~= base + wildcard_arm_findings(task@, entry@));
        },
        _ => {
            report(diags, task, "wildcard_maps entries must be objects".to_owned());
        },
    }
}

fn check_wildcard_arms(task: &Task, diags: &mut Vec<Diagnostic>)
    ensures
        findings(final(diags)@) == findings(old(diags)@) + wildcard_maps_findings(task@),
{
    let ghost base = findings(diags@);
    match task.get("wildcard_maps") {
        Some(Value::Array(maps)) => {
            let ghost items = list_view(maps@);
            proof {
                lemma_list_view(maps@);
            }
            let mut i: usize = 0;
            let ghost mut done: Seq<Finding> = Seq::empty();
            assert(findings(diags@) =~= base + done);
            while i < maps.len()
                invariant
                    i <= maps.len(),
                    items == list_view(maps@),
                    items.len() == maps@.len(),
                    forall|k: int| 0 <= k < items.len() ==> items[k] == maps@[k]@,
                    findings(diags@) == base + done,
                    wildcard_arms_findings(task@, items, 0) == done + wildcard_arms_findings(
                        task@,
                        items,
                        i as int,
                    ),
                decreases maps.len() - i,
            {
                check_wildcard_arm(task, &maps[i], diags);
                proof {
                    let piece = wildcard_arm_findings(task@, items[i as int]);
                    assert(base + done + piece =~= base + (done + piece));
                    assert(done + (piece + wildcard_arms_findings(task@, items, i + 1)) =~= (done
                        + piece) + wildcard_arms_findings(task@, items, i + 1));
                    done = done + piece;
                }
                i += 1;
            }
            assert(done + none() =~= done);
        },
        _ => {
            assert(findings(diags@) =~= base + none());
        },
    }
}

fn check_messages(task: &Task, msgs: &Vec<Value>, diags: &mut Vec<Diagnostic>)
    ensures
        findings(final(diags)@) == findings(old(diags)@) + message_findings(
            task@,
            list_view(msgs@),
            0,
        ),
{
    let ghost base = findings(diags@);
    let ghost items = list_view(msgs@);
    proof {
        lemma_list_view(msgs@);
    }
    let mut i: usize = 0;
    let ghost mut done: Seq<Finding> = Seq::empty();
    assert(findings(diags@) =~= base + done);
    while i < msgs.len()
        invariant
            i <= msgs.len(),
            items == list_view(msgs@),
            items.len() == msgs@.len(),
            forall|k: int| 0 <= k < items.len() ==> items[k] == msgs@[k]@,
            findings(diags@) == base + done,
            message_findings(task@, items, 0) == done + message_findings(task@, items, i as int),
        decreases msgs.len() - i,
    {
        let ghost before = findings(diags@);
        match &msgs[i] {
            Value::Object(m) => match m.get("content") {
                Some(Value::String(content)) => {
                    ensure_balanced_interpolation(
                        task,
                        "chat.messages.content",
                        content.as_str(),
                        diags,
                    );
                },
                _ => {},
            },
            _ => {},
        }
        proof {
            let piece = match items[i as int] {
                Json::Dict(m) => match dict_get(m, "content"@) {
                    Some(Json::Text(content)) => brace_findings(
                        task@,
                        "chat.messages.content"@,
                        content,
                    ),
                    _ => none(),
                },
                _ => none(),
            };
            assert(findings(diags@) =~= before + piece);
            assert(base + done + piece =~= base + (done + piece));
            assert(done + (piece + message_findings(task@, items, i + 1)) =~= (done + piece)
                + message_findings(task@, items, i + 1));
            done = done + piece;
        }
        i += 1;
    }
    assert(done + none() =~= done);
}

/// The voice file that `task` names outright, where it names one.
pub fn literal_voice_path(task: &Task) -> (r: Option<String>)
    ensures
        match r {
            Some(p) => voice_path_of(task@) == Some(p@),
            None => voice_path_of(task@) is None,
        },
{
    match task.get("voice_path") {
        Some(Value::String(p)) => {
            let c = chars_of(p.as_str());
            let open = crate::text::find_from(&c, '{', 0);
            let close = crate::text::find_from(&c, '}', 0);
            proof {
                if open < c.len() {
                    assert(c@.contains('{'));
                }
                if close < c.len() {
                    assert(c@.contains('}'));
                }
            }
            if c.len() > 0 && open >= c.len() && close >= c.len() {
                Some(p.clone())
            } else {
                None
            }
        },
        _ => None,
    }
}

fn validate_voice_path(task: &Task, probes: &Vec<PathProbe>, diags: &mut Vec<Diagnostic>)
    ensures
        findings(final(diags)@) == findings(old(diags)@) + voice_findings(
            task@,
            probes_view(probes@),
        ),
{
    let ghost base = findings(diags@);
    let ghost pv = probes_view(probes@);
    match literal_voice_path(task) {
        None => {},
        Some(path) => {
            let mut i: usize = 0;
            while i < probes.len() && !(probes[i].path == path)
                invariant
                    i <= probes.len(),
                    pv == probes_view(probes@),
                    probe_position(pv, path@, 0) == probe_position(pv, path@, i as int),
                decreases probes.len() - i,
            {
                i += 1;
            }
            if i < probes.len() {
                if !probes[i].exists {
                    report(
                        diags,
                        task,
                        concat3("voice_path does not exist: ", probes[i].resolved.as_str(), ""),
                    );
                    assert("voice_path does not exist: "@ + probes@[i as int].resolved@ + ""@
                        =~= "voice_path does not exist: "@ + probes@[i as int].resolved@) by {
                        reveal_strlit("");
                    }
                } else if probes[i].is_dir {
                    report(
                        diags,
                        task,
                        concat3("voice_path is a directory: ", probes[i].resolved.as_str(), ""),
                    );
                    assert("voice_path is a directory: "@ + probes@[i as int].resolved@ + ""@
                        =~= "voice_path is a directory: "@ + probes@[i as int].resolved@) by {
                        reveal_strlit("");
                    }
                }
            }
        },
    }
    assert(findings(diags@) =~= base + voice_findings(task@, pv));
}

fn check_for_lists(task: &Task, statics: &Statics, ctx: &ProgramLoadContext, diags: &mut Vec<Diagnostic>)
    ensures
        findings(final(diags)@) == findings(old(diags)@) + for_lists_findings(
            statics.scope(*ctx),
            task@,
        ),
{
    let ghost base = findings(diags@);
    let ghost scope = statics.scope(*ctx);
    match task.get("name_list_map") {
        Some(Value::Object(m)) => {
            let ghost map = m@;
            proof {
                lemma_dict_view(m.entries@);
            }
            let mut lens: Vec<usize> = Vec::new();
            let mut i: usize = 0;
            assert(lens@.map_values(|x: usize| x as nat) =~= Seq::<nat>::empty());
            while i < m.entries.len()
                invariant
                    i <= m.entries.len(),
                    scope == statics.scope(*ctx),
                    map == m@,
                    map.len() == m.entries@.len(),
                    forall|k: int|
                        0 <= k < map.len() ==> map[k] == (m.entries@[k].0@, m.entries@[k].1@),
                    findings(diags@) == base,
                    base == findings(old(diags)@),
                    dict_get(task@, "name_list_map"@) == Some(Json::Dict(map)),
                    lens@.len() <= i,
                    for_list_findings(scope, task@, map, 0, Seq::empty()) == for_list_findings(
                        scope,
                        task@,
                        map,
                        i as int,
                        lens@.map_values(|x: usize| x as nat),
                    ),
                decreases m.entries.len() - i,
            {
                let ghost so_far = lens@.map_values(|x: usize| x as nat);
                match get_static_array(Some(&m.entries[i].1), statics, ctx) {
                    Some(a) => {
                        proof {
                            lemma_list_view(a@);
                        }
                        lens.push(a.len());
                        assert(lens@.map_values(|x: usize| x as nat) =~= so_far.push(
                            a@.len() as nat,
                        ));
                    },
                    None => {
                        if !is_simple_interpolation(&m.entries[i].1) {
                            report(
                                diags,
                                task,
                                concat3(
                                    "for.name_list_map value for '",
                                    m.entries[i].0.as_str(),
                                    "' must be a list or simple interpolation",
                                ),
                            );
                            return ;
                        }
                    },
                }
                i += 1;
            }
            let ghost all = lens@.map_values(|x: usize| x as nat);
            let mut differ = false;
            if lens.len() == m.entries.len() && lens.len() > 0 {
                let expected = lens[0];
                let mut k: usize = 0;
                while k < lens.len() && !differ
                    invariant
                        k <= lens.len(),
                        lens.len() > 0,
                        expected == lens@[0],
                        all == lens@.map_values(|x: usize| x as nat),
                        differ ==> has_other_length(all, all[0], 0),
                        !differ ==> has_other_length(all, all[0], 0) == has_other_length(
                            all,
                            all[0],
                            k as int,
                        ),
                    decreases lens.len() - k, !differ as int,
                {
                    if lens[k] != expected {
                        differ = true;
                    } else {
                        k += 1;
                    }
                }
            }
            if differ {
                report(diags, task, "for lists have differing lengths".to_owned());
            } else {
                assert(findings(diags@) =~= base + none());
            }
        },
        _ => {
            assert(findings(diags@) =~= base + none());
        },
    }
}

fn has_bad_item(a: &Vec<Value>) -> (r: bool)
    ensures
        r == has_bad_concat_item(list_view(a@), 0),
{
    let ghost items = list_view(a@);
    proof {
        lemma_list_view(a@);
    }
    let mut i: usize = 0;
    while i < a.len()
        invariant
            i <= a.len(),
            items == list_view(a@),
            items.len() == a@.len(),
            forall|k: int| 0 <= k < items.len() ==> items[k] == a@[k]@,
            has_bad_concat_item(items, 0) == has_bad_concat_item(items, i as int),
        decreases a.len() - i,
    {
        if !a[i].is_array() && !is_simple_interpolation(&a[i]) {
            return true;
        }
        i += 1;
    }
    false
}

fn check_static_list(
    task: &Task,
    cmd: &str,
    statics: &Statics,
    ctx: &ProgramLoadContext,
    diags: &mut Vec<Diagnostic>,
)
    requires
        cmd@ == "random_choice"@ || cmd@ == "list_concat"@ || cmd@ == "list_index"@ || cmd@
            == "list_slice"@,
    ensures
        findings(final(diags)@) == findings(old(diags)@) + static_list_findings(
            statics.scope(*ctx),
            task@,
            cmd@,
        ),
{
    let ghost base = findings(diags@);
    if same_text(cmd, "random_choice") {
        match get_static_array(task.get("list"), statics, ctx) {
            Some(a) => {
                proof {
                    lemma_list_view(a@);
                }
                if a.len() == 0 {
                    report(diags, task, "random_choice list is empty".to_owned());
                }
            },
            None => {},
        }
    } else if same_text(cmd, "list_concat") {
        match get_static_array(task.get("lists"), statics, ctx) {
            Some(a) => {
                if has_bad_item(&a) {
                    report(
                        diags,
                        task,
                        "list_concat.lists must contain only arrays or simple interpolations".to_owned(),
                    );
                }
            },
            None => {},
        }
    } else if same_text(cmd, "list_index") {
        match get_static_array(task.get("list"), statics, ctx) {
            Some(a) => {
                proof {
                    lemma_list_view(a@);
                }
                check_position(task, "list_index", "index", a.len(), false, diags);
            },
            None => {},
        }
    } else {
        match get_static_array(task.get("list"), statics, ctx) {
            Some(a) => {
                proof {
                    lemma_list_view(a@);
                }
                check_position(task, "list_slice", "from_index", a.len(), false, diags);
                check_position(task, "list_slice", "to_index", a.len(), true, diags);
            },
            None => {},
        }
    }
    assert(findings(diags@) =~= base + static_list_findings(statics.scope(*ctx), task@, cmd@));
}

fn check_targets(task: &Task, cmd: &str, around: &Around, diags: &mut Vec<Diagnostic>)
    requires
        cmd@ == "goto"@ || cmd@ == "run_task"@,
    ensures
        findings(final(diags)@) == findings(old(diags)@) + target_findings(task@, cmd@, around@),
{
    let ghost base = findings(diags@);
    if same_text(cmd, "goto") {
        match task.get("name") {
            Some(Value::String(target)) => {
                if is_literal_no_braces(target.as_str()) && !same_text(target.as_str(), "CONTINUE")
                    && !is_listed(around.labels, target.as_str()) {
                    report(
                        diags,
                        task,
                        concat4("goto target '", target.as_str(), "' not found in ", around.scope_name),
                    );
                }
            },
            _ => {},
        }
    } else {
        match task.get("task_name") {
            Some(Value::String(n)) => {
                if !is_listed(around.named, n.as_str()) {
                    report(
                        diags,
                        task,
                        concat3("run_task references unknown task '", n.as_str(), "'"),
                    );
                }
            },
            _ => {},
        }
    }
    assert(findings(diags@) =~= base + target_findings(task@, cmd@, around@));
}

fn check_chat_messages(task: &Task, statics: &Statics, ctx: &ProgramLoadContext, diags: &mut Vec<Diagnostic>)
    ensures
        findings(final(diags)@) == findings(old(diags)@) + chat_messages_findings(
            statics.scope(*ctx),
            task@,
        ),
{
    match get_static_array(task.get("messages"), statics, ctx) {
        Some(msgs) => {
            check_messages(task, &msgs, diags);
        },
        None => {
            assert(findings(diags@) =~= findings(old(diags)@) + none());
        },
    }
}

fn check_null_text(task: &Task, maps_field: &str, text_field: &str, diags: &mut Vec<Diagnostic>)
    ensures
        findings(final(diags)@) == findings(old(diags)@) + null_text_findings(
            task@,
            maps_field@,
            text_field@,
        ),
{
    if has_null_map_entry(task, maps_field) {
        check_field_braces(task, text_field, diags);
    } else {
        assert(findings(diags@) =~= findings(old(diags)@) + none());
    }
}

fn check_print(
    task: &Task,
    cmd: &str,
    around: &Around,
    statics: &Statics,
    ctx: &ProgramLoadContext,
    diags: &mut Vec<Diagnostic>,
)
    ensures
        findings(final(diags)@) == findings(old(diags)@) + print_findings(
            statics.scope(*ctx),
            task@,
            cmd@,
            around@,
        ),
{
    let ghost base = findings(diags@);
    let ghost scope = statics.scope(*ctx);
    require_field(task, "text", diags);
    assert(findings(diags@) =~= base + (missing(task@, "text"@)));
    require_string(task, "text", statics, ctx, diags);
    assert(findings(diags@) =~= base + (missing(task@, "text"@)
        + string_findings(scope, task@, "text"@)));
}

fn check_sleep(
    task: &Task,
    cmd: &str,
    around: &Around,
    statics: &Statics,
    ctx: &ProgramLoadContext,
    diags: &mut Vec<Diagnostic>,
)
    ensures
        findings(final(diags)@) == findings(old(diags)@) + sleep_findings(
            statics.scope(*ctx),
            task@,
            cmd@,
            around@,
        ),
{
    let ghost base = findings(diags@);
    let ghost scope = statics.scope(*ctx);
    require_field(task, "seconds", diags);
    assert(findings(diags@) =~= base + (missing(task@, "seconds"@)));
    require_number_or_string(task, "seconds", diags);
    assert(findings(diags@) =~= base + (missing(task@, "seconds"@)
        + number_or_string_findings(task@, "seconds"@)));
}

fn check_store(
    task: &Task,
    cmd: &str,
    around: &Around,
    statics: &Statics,
    ctx: &ProgramLoadContext,
    diags: &mut Vec<Diagnostic>,
)
    ensures
        findings(final(diags)@) == findings(old(diags)@) + store_findings(
            statics.scope(*ctx),
            task@,
            cmd@,
            around@,
        ),
{
    let ghost base = findings(diags@);
    let ghost scope = statics.scope(*ctx);
    require_field(task, "item", diags);
    assert(findings(diags@) =~= base + (missing(task@, "item"@)));
    require_field(task, "output_name", diags);
    assert(findings(diags@) =~= base + (missing(task@, "item"@)
        + missing(task@, "output_name"@)));
    require_string(task, "output_name", statics, ctx, diags);
    assert(findings(diags@) =~= base + (missing(task@, "item"@)
        + missing(task@, "output_name"@)
        + string_findings(scope, task@, "output_name"@)));
}

fn check_write(
    task: &Task,
    cmd: &str,
    around: &Around,
    statics: &Statics,
    ctx: &ProgramLoadContext,
    diags: &mut Vec<Diagnostic>,
)
    ensures
        findings(final(diags)@) == findings(old(diags)@) + write_findings(
            statics.scope(*ctx),
            task@,
            cmd@,
            around@,
        ),
{
    let ghost base = findings(diags@);
    let ghost scope = statics.scope(*ctx);
    require_field(task, "item", diags);
    assert(findings(diags@) =~= base + (missing(task@, "item"@)));
    require_field(task, "path", diags);
    assert(findings(diags@) =~= base + (missing(task@, "item"@)
        + missing(task@, "path"@)));
    require_string(task, "path", statics, ctx, diags);
    assert(findings(diags@) =~= base + (missing(task@, "item"@)
        + missing(task@, "path"@)
        + string_findings(scope, task@, "path"@)));
}

#[verifier::rlimit(60)]
fn check_random_choice(
    task: &Task,
    cmd: &str,
    around: &Around,
    statics: &Statics,
    ctx: &ProgramLoadContext,
    diags: &mut Vec<Diagnostic>,
)
    requires
        cmd@ == "random_choice"@,
    ensures
        findings(final(diags)@) == findings(old(diags)@) + random_choice_findings(
            statics.scope(*ctx),
            task@,
            cmd@,
            around@,
        ),
{
    let ghost base = findings(diags@);
    let ghost scope = statics.scope(*ctx);
    require_field(task, "list", diags);
    assert(findings(diags@) =~= base + (missing(task@, "list"@)));
    require_field(task, "output_name", diags);
    assert(findings(diags@) =~= base + (missing(task@, "list"@)
        + missing(task@, "output_name"@)));
    require_array(task, "list", statics, ctx, diags);
    assert(findings(diags@) =~= base + (missing(task@, "list"@)
        + missing(task@, "output_name"@)
        + array_findings(scope, task@, "list"@)));
    require_string(task, "output_name", statics, ctx, diags);
    assert(findings(diags@) =~= base + (missing(task@, "list"@)
        + missing(task@, "output_name"@)
        + array_findings(scope, task@, "list"@)
        + string_findings(scope, task@, "output_name"@)));
    check_static_list(task, cmd, statics, ctx, diags);
    assert(findings(diags@) =~= base + (missing(task@, "list"@)
        + missing(task@, "output_name"@)
        + array_findings(scope, task@, "list"@)
        + string_findings(scope, task@, "output_name"@)
        + static_list_findings(scope, task@, cmd@)));
}

#[verifier::rlimit(60)]
fn check_list_join(
    task: &Task,
    cmd: &str,
    around: &Around,
    statics: &Statics,
    ctx: &ProgramLoadContext,
    diags: &mut Vec<Diagnostic>,
)
    ensures
        findings(final(diags)@) == findings(old(diags)@) + list_join_findings(
            statics.scope(*ctx),
            task@,
            cmd@,
            around@,
        ),
{
    let ghost base = findings(diags@);
    let ghost scope = statics.scope(*ctx);
    require_field(task, "list", diags);
    assert(findings(diags@) =~= base + (missing(task@, "list"@)));
    require_field(task, "before", diags);
    assert(findings(diags@) =~= base + (missing(task@, "list"@)
        + missing(task@, "before"@)));
    require_field(task, "between", diags);
    assert(findings(diags@) =~= base + (missing(task@, "list"@)
        + missing(task@, "before"@)
        + missing(task@, "between"@)));
    require_field(task, "after", diags);
    assert(findings(diags@) =~= base + (missing(task@, "list"@)
        + missing(task@, "before"@)
        + missing(task@, "between"@)
        + missing(task@, "after"@)));
    require_field(task, "output_name", diags);
    assert(findings(diags@) =~= base + (missing(task@, "list"@)
        + missing(task@, "before"@)
        + missing(task@, "between"@)
        + missing(task@, "after"@)
        + missing(task@, "output_name"@)));
    require_array(task, "list", statics, ctx, diags);
    assert(findings(diags@) =~= base + (missing(task@, "list"@)
        + missing(task@, "before"@)
        + missing(task@, "between"@)
        + missing(task@, "after"@)
        + missing(task@, "output_name"@)
        + array_findings(scope, task@, "list"@)));
    require_string(task, "before", statics, ctx, diags);
    assert(findings(diags@) =~= base + (missing(task@, "list"@)
        + missing(task@, "before"@)
        + missing(task@, "between"@)
        + missing(task@, "after"@)
        + missing(task@, "output_name"@)
        + array_findings(scope, task@, "list"@)
        + string_findings(scope, task@, "before"@)));
    require_string(task, "between", statics, ctx, diags);
    assert(findings(diags@) =~= base + (missing(task@, "list"@)
        + missing(task@, "before"@)
        + missing(task@, "between"@)
        + missing(task@, "after"@)
        + missing(task@, "output_name"@)
        + array_findings(scope, task@, "list"@)
        + string_findings(scope, task@, "before"@)
        + string_findings(scope, task@, "between"@)));
    require_string(task, "after", statics, ctx, diags);
    assert(findings(diags@) =~= base + (missing(task@, "list"@)
        + missing(task@, "before"@)
        + missing(task@, "between"@)
        + missing(task@, "after"@)
        + missing(task@, "output_name"@)
        + array_findings(scope, task@, "list"@)
        + string_findings(scope, task@, "before"@)
        + string_findings(scope, task@, "between"@)
        + string_findings(scope, task@, "after"@)));
    require_string(task, "output_name", statics, ctx, diags);
    assert(findings(diags@) =~= base + (missing(task@, "list"@)
        + missing(task@, "before"@)
        + missing(task@, "between"@)
        + missing(task@, "after"@)
        + missing(task@, "output_name"@)
        + array_findings(scope, task@, "list"@)
        + string_findings(scope, task@, "before"@)
        + string_findings(scope, task@, "between"@)
        + string_findings(scope, task@, "after"@)
        + string_findings(scope, task@, "output_name"@)));
}

#[verifier::rlimit(60)]
fn check_list_concat(
    task: &Task,
    cmd: &str,
    around: &Around,
    statics: &Statics,
    ctx: &ProgramLoadContext,
    diags: &mut Vec<Diagnostic>,
)
    requires
        cmd@ == "list_concat"@,
    ensures
        findings(final(diags)@) == findings(old(diags)@) + list_concat_findings(
            statics.scope(*ctx),
            task@,
            cmd@,
            around@,
        ),
{
    let ghost base = findings(diags@);
    let ghost scope = statics.scope(*ctx);
    require_field(task, "lists", diags);
    assert(findings(diags@) =~= base + (missing(task@, "lists"@)));
    require_field(task, "output_name", diags);
    assert(findings(diags@) =~= base + (missing(task@, "lists"@)
        + missing(task@, "output_name"@)));
    require_array(task, "lists", statics, ctx, diags);
    assert(findings(diags@) =~= base + (missing(task@, "lists"@)
        + missing(task@, "output_name"@)
        + array_findings(scope, task@, "lists"@)));
    require_string(task, "output_name", statics, ctx, diags);
    assert(findings(diags@) =~= base + (missing(task@, "lists"@)
        + missing(task@, "output_name"@)
        + array_findings(scope, task@, "lists"@)
        + string_findings(scope, task@, "output_name"@)));
    check_static_list(task, cmd, statics, ctx, diags);
    assert(findings(diags@) =~= base + (missing(task@, "lists"@)
        + missing(task@, "output_name"@)
        + array_findings(scope, task@, "lists"@)
        + string_findings(scope, task@, "output_name"@)
        + static_list_findings(scope, task@, cmd@)));
}

#[verifier::rlimit(60)]
fn check_list_change(
    task: &Task,
    cmd: &str,
    around: &Around,
    statics: &Statics,
    ctx: &ProgramLoadContext,
    diags: &mut Vec<Diagnostic>,
)
    ensures
        findings(final(diags)@) == findings(old(diags)@) + list_change_findings(
            statics.scope(*ctx),
            task@,
            cmd@,
            around@,
        ),
{
    let ghost base = findings(diags@);
    let ghost scope = statics.scope(*ctx);
    require_field(task, "list", diags);
    assert(findings(diags@) =~= base + (missing(task@, "list"@)));
    require_field(task, "item", diags);
    assert(findings(diags@) =~= base + (missing(task@, "list"@)
        + missing(task@, "item"@)));
    require_field(task, "output_name", diags);
    assert(findings(diags@) =~= base + (missing(task@, "list"@)
        + missing(task@, "item"@)
        + missing(task@, "output_name"@)));
    require_array(task, "list", statics, ctx, diags);
    assert(findings(diags@) =~= base + (missing(task@, "list"@)
        + missing(task@, "item"@)
        + missing(task@, "output_name"@)
        + array_findings(scope, task@, "list"@)));
    require_string(task, "output_name", statics, ctx, diags);
    assert(findings(diags@) =~= base + (missing(task@, "list"@)
        + missing(task@, "item"@)
        + missing(task@, "output_name"@)
        + array_findings(scope, task@, "list"@)
        + string_findings(scope, task@, "output_name"@)));
}

#[verifier::rlimit(60)]
fn check_list_index(
    task: &Task,
    cmd: &str,
    around: &Around,
    statics: &Statics,
    ctx: &ProgramLoadContext,
    diags: &mut Vec<Diagnostic>,
)
    requires
        cmd@ == "list_index"@,
    ensures
        findings(final(diags)@) == findings(old(diags)@) + list_index_findings(
            statics.scope(*ctx),
            task@,
            cmd@,
            around@,
        ),
{
    let ghost base = findings(diags@);
    let ghost scope = statics.scope(*ctx);
    require_field(task, "list", diags);
    assert(findings(diags@) =~= base + (missing(task@, "list"@)));
    require_field(task, "index", diags);
    assert(findings(diags@) =~= base + (missing(task@, "list"@)
        + missing(task@, "index"@)));
    require_field(task, "output_name", diags);
    assert(findings(diags@) =~= base + (missing(task@, "list"@)
        + missing(task@, "index"@)
        + missing(task@, "output_name"@)));
    require_array(task, "list", statics, ctx, diags);
    assert(findings(diags@) =~= base + (missing(task@, "list"@)
        + missing(task@, "index"@)
        + missing(task@, "output_name"@)
        + array_findings(scope, task@, "list"@)));
    require_int_or_string(task, "index", diags);
    assert(findings(diags@) =~= base + (missing(task@, "list"@)
        + missing(task@, "index"@)
        + missing(task@, "output_name"@)
        + array_findings(scope, task@, "list"@)
        + int_or_string_findings(task@, "index"@)));
    require_string(task, "output_name", statics, ctx, diags);
    assert(findings(diags@) =~= base + (missing(task@, "list"@)
        + missing(task@, "index"@)
        + missing(task@, "output_name"@)
        + array_findings(scope, task@, "list"@)
        + int_or_string_findings(task@, "index"@)
        + string_findings(scope, task@, "output_name"@)));
    check_static_list(task, cmd, statics, ctx, diags);
    assert(findings(diags@) =~= base + (missing(task@, "list"@)
        + missing(task@, "index"@)
        + missing(task@, "output_name"@)
        + array_findings(scope, task@, "list"@)
        + int_or_string_findings(task@, "index"@)
        + string_findings(scope, task@, "output_name"@)
        + static_list_findings(scope, task@, cmd@)));
}

#[verifier::rlimit(60)]
fn check_list_slice(
    task: &Task,
    cmd: &str,
    around: &Around,
    statics: &Statics,
    ctx: &ProgramLoadContext,
    diags: &mut Vec<Diagnostic>,
)
    requires
        cmd@ == "list_slice"@,
    ensures
        findings(final(diags)@) == findings(old(diags)@) + list_slice_findings(
            statics.scope(*ctx),
            task@,
            cmd@,
            around@,
        ),
{
    let ghost base = findings(diags@);
    let ghost scope = statics.scope(*ctx);
    require_field(task, "list", diags);
    assert(findings(diags@) =~= base + (missing(task@, "list"@)));
    require_field(task, "from_index", diags);
    assert(findings(diags@) =~= base + (missing(task@, "list"@)
        + missing(task@, "from_index"@)));
    require_field(task, "to_index", diags);
    assert(findings(diags@) =~= base + (missing(task@, "list"@)
        + missing(task@, "from_index"@)
        + missing(task@, "to_index"@)));
    require_field(task, "output_name", diags);
    assert(findings(diags@) =~= base + (missing(task@, "list"@)
        + missing(task@, "from_index"@)
        + missing(task@, "to_index"@)
        + missing(task@, "output_name"@)));
    require_array(task, "list", statics, ctx, diags);
    assert(findings(diags@) =~= base + (missing(task@, "list"@)
        + missing(task@, "from_index"@)
        + missing(task@, "to_index"@)
        + missing(task@, "output_name"@)
        + array_findings(scope, task@, "list"@)));
    require_int_or_string(task, "from_index", diags);
    assert(findings(diags@) =~= base + (missing(task@, "list"@)
        + missing(task@, "from_index"@)
        + missing(task@, "to_index"@)
        + missing(task@, "output_name"@)
        + array_findings(scope, task@, "list"@)
        + int_or_string_findings(task@, "from_index"@)));
    require_int_or_string(task, "to_index", diags);
    assert(findings(diags@) =~= base + (missing(task@, "list"@)
        + missing(task@, "from_index"@)
        + missing(task@, "to_index"@)
        + missing(task@, "output_name"@)
        + array_findings(scope, task@, "list"@)
        + int_or_string_findings(task@, "from_index"@)
        + int_or_string_findings(task@, "to_index"@)));
    require_string(task, "output_name", statics, ctx, diags);
    assert(findings(diags@) =~= base + (missing(task@, "list"@)
        + missing(task@, "from_index"@)
        + missing(task@, "to_index"@)
        + missing(task@, "output_name"@)
        + array_findings(scope, task@, "list"@)
        + int_or_string_findings(task@, "from_index"@)
        + int_or_string_findings(task@, "to_index"@)
        + string_findings(scope, task@, "output_name"@)));
    check_static_list(task, cmd, statics, ctx, diags);
    assert(findings(diags@) =~= base + (missing(task@, "list"@)
        + missing(task@, "from_index"@)
        + missing(task@, "to_index"@)
        + missing(task@, "output_name"@)
        + array_findings(scope, task@, "list"@)
        + int_or_string_findings(task@, "from_index"@)
        + int_or_string_findings(task@, "to_index"@)
        + string_findings(scope, task@, "output_name"@)
        + static_list_findings(scope, task@, cmd@)));
}

fn check_user_input(
    task: &Task,
    cmd: &str,
    around: &Around,
    statics: &Statics,
    ctx: &ProgramLoadContext,
    diags: &mut Vec<Diagnostic>,
)
    ensures
        findings(final(diags)@) == findings(old(diags)@) + user_input_findings(
            statics.scope(*ctx),
            task@,
            cmd@,
            around@,
        ),
{
    let ghost base = findings(diags@);
    let ghost scope = statics.scope(*ctx);
    require_field(task, "prompt", diags);
    assert(findings(diags@) =~= base + (missing(task@, "prompt"@)));
    require_field(task, "output_name", diags);
    assert(findings(diags@) =~= base + (missing(task@, "prompt"@)
        + missing(task@, "output_name"@)));
    require_string(task, "prompt", statics, ctx, diags);
    assert(findings(diags@) =~= base + (missing(task@, "prompt"@)
        + missing(task@, "output_name"@)
        + string_findings(scope, task@, "prompt"@)));
    require_string(task, "output_name", statics, ctx, diags);
    assert(findings(diags@) =~= base + (missing(task@, "prompt"@)
        + missing(task@, "output_name"@)
        + string_findings(scope, task@, "prompt"@)
        + string_findings(scope, task@, "output_name"@)));
}

#[verifier::rlimit(60)]
fn check_user_choice(
    task: &Task,
    cmd: &str,
    around: &Around,
    statics: &Statics,
    ctx: &ProgramLoadContext,
    diags: &mut Vec<Diagnostic>,
)
    ensures
        findings(final(diags)@) == findings(old(diags)@) + user_choice_findings(
            statics.scope(*ctx),
            task@,
            cmd@,
            around@,
        ),
{
    let ghost base = findings(diags@);
    let ghost scope = statics.scope(*ctx);
    require_field(task, "list", diags);
    assert(findings(diags@) =~= base + (missing(task@, "list"@)));
    require_field(task, "description", diags);
    assert(findings(diags@) =~= base + (missing(task@, "list"@)
        + missing(task@, "description"@)));
    require_field(task, "output_name", diags);
    assert(findings(diags@) =~= base + (missing(task@, "list"@)
        + missing(task@, "description"@)
        + missing(task@, "output_name"@)));
    require_array(task, "list", statics, ctx, diags);
    assert(findings(diags@) =~= base + (missing(task@, "list"@)
        + missing(task@, "description"@)
        + missing(task@, "output_name"@)
        + array_findings(scope, task@, "list"@)));
    require_string(task, "description", statics, ctx, diags);
    assert(findings(diags@) =~= base + (missing(task@, "list"@)
        + missing(task@, "description"@)
        + missing(task@, "output_name"@)
        + array_findings(scope, task@, "list"@)
        + string_findings(scope, task@, "description"@)));
    require_string(task, "output_name", statics, ctx, diags);
    assert(findings(diags@) =~= base + (missing(task@, "list"@)
        + missing(task@, "description"@)
        + missing(task@, "output_name"@)
        + array_findings(scope, task@, "list"@)
        + string_findings(scope, task@, "description"@)
        + string_findings(scope, task@, "output_name"@)));
}

fn check_name(
    task: &Task,
    cmd: &str,
    around: &Around,
    statics: &Statics,
    ctx: &ProgramLoadContext,
    diags: &mut Vec<Diagnostic>,
)
    ensures
        findings(final(diags)@) == findings(old(diags)@) + name_findings(
            statics.scope(*ctx),
            task@,
            cmd@,
            around@,
        ),
{
    let ghost base = findings(diags@);
    let ghost scope = statics.scope(*ctx);
    require_field(task, "name", diags);
    assert(findings(diags@) =~= base + (missing(task@, "name"@)));
    require_string(task, "name", statics, ctx, diags);
    assert(findings(diags@) =~= base + (missing(task@, "name"@)
        + string_findings(scope, task@, "name"@)));
}

fn check_goto(
    task: &Task,
    cmd: &str,
    around: &Around,
    statics: &Statics,
    ctx: &ProgramLoadContext,
    diags: &mut Vec<Diagnostic>,
)
    requires
        cmd@ == "goto"@,
    ensures
        findings(final(diags)@) == findings(old(diags)@) + goto_findings(
            statics.scope(*ctx),
            task@,
            cmd@,
            around@,
        ),
{
    let ghost base = findings(diags@);
    let ghost scope = statics.scope(*ctx);
    require_field(task, "name", diags);
    assert(findings(diags@) =~= base + (missing(task@, "name"@)));
    require_string(task, "name", statics, ctx, diags);
    assert(findings(diags@) =~= base + (missing(task@, "name"@)
        + string_findings(scope, task@, "name"@)));
    check_targets(task, cmd, around, diags);
    assert(findings(diags@) =~= base + (missing(task@, "name"@)
        + string_findings(scope, task@, "name"@)
        + target_findings(task@, cmd@, around@)));
}

#[verifier::rlimit(60)]
fn check_goto_map(
    task: &Task,
    cmd: &str,
    around: &Around,
    statics: &Statics,
    ctx: &ProgramLoadContext,
    diags: &mut Vec<Diagnostic>,
)
    ensures
        findings(final(diags)@) == findings(old(diags)@) + goto_map_findings(
            statics.scope(*ctx),
            task@,
            cmd@,
            around@,
        ),
{
    let ghost base = findings(diags@);
    let ghost scope = statics.scope(*ctx);
    require_field(task, "text", diags);
    assert(findings(diags@) =~= base + (missing(task@, "text"@)));
    require_field(task, "target_maps", diags);
    assert(findings(diags@) =~= base + (missing(task@, "text"@)
        + missing(task@, "target_maps"@)));
    require_string(task, "text", statics, ctx, diags);
    assert(findings(diags@) =~= base + (missing(task@, "text"@)
        + missing(task@, "target_maps"@)
        + string_findings(scope, task@, "text"@)));
    require_array(task, "target_maps", statics, ctx, diags);
    assert(findings(diags@) =~= base + (missing(task@, "text"@)
        + missing(task@, "target_maps"@)
        + string_findings(scope, task@, "text"@)
        + array_findings(scope, task@, "target_maps"@)));
    check_target_maps(task, around, diags);
    assert(findings(diags@) =~= base + (missing(task@, "text"@)
        + missing(task@, "target_maps"@)
        + string_findings(scope, task@, "text"@)
        + array_findings(scope, task@, "target_maps"@)
        + target_maps_findings(task@, around@)));
    check_null_text(task, "target_maps", "text", diags);
    assert(findings(diags@) =~= base + (missing(task@, "text"@)
        + missing(task@, "target_maps"@)
        + string_findings(scope, task@, "text"@)
        + array_findings(scope, task@, "target_maps"@)
        + target_maps_findings(task@, around@)
        + null_text_findings(task@, "target_maps"@, "text"@)));
}

#[verifier::rlimit(60)]
fn check_replace_map(
    task: &Task,
    cmd: &str,
    around: &Around,
    statics: &Statics,
    ctx: &ProgramLoadContext,
    diags: &mut Vec<Diagnostic>,
)
    ensures
        findings(final(diags)@) == findings(old(diags)@) + replace_map_findings(
            statics.scope(*ctx),
            task@,
            cmd@,
            around@,
        ),
{
    let ghost base = findings(diags@);
    let ghost scope = statics.scope(*ctx);
    require_field(task, "item", diags);
    assert(findings(diags@) =~= base + (missing(task@, "item"@)));
    require_field(task, "output_name", diags);
    assert(findings(diags@) =~= base + (missing(task@, "item"@)
        + missing(task@, "output_name"@)));
    require_field(task, "wildcard_maps", diags);
    assert(findings(diags@) =~= base + (missing(task@, "item"@)
        + missing(task@, "output_name"@)
        + missing(task@, "wildcard_maps"@)));
    require_string(task, "output_name", statics, ctx, diags);
    assert(findings(diags@) =~= base + (missing(task@, "item"@)
        + missing(task@, "output_name"@)
        + missing(task@, "wildcard_maps"@)
        + string_findings(scope, task@, "output_name"@)));
    require_array(task, "wildcard_maps", statics, ctx, diags);
    assert(findings(diags@) =~= base + (missing(task@, "item"@)
        + missing(task@, "output_name"@)
        + missing(task@, "wildcard_maps"@)
        + string_findings(scope, task@, "output_name"@)
        + array_findings(scope, task@, "wildcard_maps"@)));
    check_wildcard_arms(task, diags);
    assert(findings(diags@) =~= base + (missing(task@, "item"@)
        + missing(task@, "output_name"@)
        + missing(task@, "wildcard_maps"@)
        + string_findings(scope, task@, "output_name"@)
        + array_findings(scope, task@, "wildcard_maps"@)
        + wildcard_maps_findings(task@)));
    check_null_text(task, "wildcard_maps", "item", diags);
    assert(findings(diags@) =~= base + (missing(task@, "item"@)
        + missing(task@, "output_name"@)
        + missing(task@, "wildcard_maps"@)
        + string_findings(scope, task@, "output_name"@)
        + array_findings(scope, task@, "wildcard_maps"@)
        + wildcard_maps_findings(task@)
        + null_text_findings(task@, "wildcard_maps"@, "item"@)));
}

#[verifier::rlimit(60)]
fn check_for(
    task: &Task,
    cmd: &str,
    around: &Around,
    statics: &Statics,
    ctx: &ProgramLoadContext,
    diags: &mut Vec<Diagnostic>,
)
    ensures
        findings(final(diags)@) == findings(old(diags)@) + for_findings(
            statics.scope(*ctx),
            task@,
            cmd@,
            around@,
        ),
{
    let ghost base = findings(diags@);
    let ghost scope = statics.scope(*ctx);
    require_field(task, "name_list_map", diags);
    assert(findings(diags@) =~= base + (missing(task@, "name_list_map"@)));
    require_field(task, "tasks", diags);
    assert(findings(diags@) =~= base + (missing(task@, "name_list_map"@)
        + missing(task@, "tasks"@)));
    require_object(task, "name_list_map", statics, ctx, diags);
    assert(findings(diags@) =~= base + (missing(task@, "name_list_map"@)
        + missing(task@, "tasks"@)
        + object_findings(scope, task@, "name_list_map"@)));
    require_task_array(task, "tasks", statics, ctx, diags);
    assert(findings(diags@) =~= base + (missing(task@, "name_list_map"@)
        + missing(task@, "tasks"@)
        + object_findings(scope, task@, "name_list_map"@)
        + task_array_findings(scope, task@, "tasks"@)));
    check_for_lists(task, statics, ctx, diags);
    assert(findings(diags@) =~= base + (missing(task@, "name_list_map"@)
        + missing(task@, "tasks"@)
        + object_findings(scope, task@, "name_list_map"@)
        + task_array_findings(scope, task@, "tasks"@)
        + for_lists_findings(scope, task@)));
}

/// Whether `item` asks for a jump.
fn is_jump_task(item: &Value) -> (r: bool)
    ensures
        r == is_jump(item@),
{
    match item {
        Value::Object(t) => match t.get("cmd") {
            Some(Value::String(c)) => same_text(c.as_str(), "goto") || same_text(
                c.as_str(),
                "goto_map",
            ),
            _ => false,
        },
        _ => false,
    }
}

/// Whether an item of `a` asks for a jump.
fn has_jump_in(a: &Vec<Value>) -> (r: bool)
    ensures
        r == has_jump(list_view(a@), 0),
{
    let ghost items = list_view(a@);
    proof {
        lemma_list_view(a@);
    }
    let mut i: usize = 0;
    while i < a.len()
        invariant
            i <= a.len(),
            items == list_view(a@),
            items.len() == a@.len(),
            forall|k: int| 0 <= k < items.len() ==> items[k] == a@[k]@,
            has_jump(items, 0) == has_jump(items, i as int),
        decreases a.len() - i,
    {
        if is_jump_task(&a[i]) {
            return true;
        }
        i += 1;
    }
    false
}

/// Reports a jump among the tasks of a `parallel_wait` or a `parallel_race`.
fn check_jumps(task: &Task, cmd: &str, diags: &mut Vec<Diagnostic>)
    ensures
        findings(final(diags)@) == findings(old(diags)@) + jump_findings(task@, cmd@),
{
    let among = if same_text(cmd, "parallel_wait") || same_text(cmd, "parallel_race") {
        match task.get("tasks") {
            Some(Value::Array(sub)) => has_jump_in(sub),
            _ => false,
        }
    } else {
        false
    };
    if among {
        report(diags, task, concat3("'", cmd, "' cannot hold a goto or a goto_map among its tasks"));
    } else {
        assert(findings(diags@) =~= findings(old(diags)@) + none());
    }
}

fn check_tasks(
    task: &Task,
    cmd: &str,
    around: &Around,
    statics: &Statics,
    ctx: &ProgramLoadContext,
    diags: &mut Vec<Diagnostic>,
)
    ensures
        findings(final(diags)@) == findings(old(diags)@) + tasks_findings(
            statics.scope(*ctx),
            task@,
            cmd@,
            around@,
        ),
{
    let ghost base = findings(diags@);
    let ghost scope = statics.scope(*ctx);
    require_field(task, "tasks", diags);
    assert(findings(diags@) =~= base + (missing(task@, "tasks"@)));
    require_task_array(task, "tasks", statics, ctx, diags);
    assert(findings(diags@) =~= base + (missing(task@, "tasks"@)
        + task_array_findings(scope, task@, "tasks"@)));
    check_jumps(task, cmd, diags);
    assert(findings(diags@) =~= base + (missing(task@, "tasks"@)
        + task_array_findings(scope, task@, "tasks"@)
        + jump_findings(task@, cmd@)));
}

fn check_run_task(
    task: &Task,
    cmd: &str,
    around: &Around,
    statics: &Statics,
    ctx: &ProgramLoadContext,
    diags: &mut Vec<Diagnostic>,
)
    requires
        cmd@ == "run_task"@,
    ensures
        findings(final(diags)@) == findings(old(diags)@) + run_task_findings(
            statics.scope(*ctx),
            task@,
            cmd@,
            around@,
        ),
{
    let ghost base = findings(diags@);
    let ghost scope = statics.scope(*ctx);
    require_field(task, "task_name", diags);
    assert(findings(diags@) =~= base + (missing(task@, "task_name"@)));
    require_string(task, "task_name", statics, ctx, diags);
    assert(findings(diags@) =~= base + (missing(task@, "task_name"@)
        + string_findings(scope, task@, "task_name"@)));
    check_targets(task, cmd, around, diags);
    assert(findings(diags@) =~= base + (missing(task@, "task_name"@)
        + string_findings(scope, task@, "task_name"@)
        + target_findings(task@, cmd@, around@)));
}

fn check_wildcards(
    task: &Task,
    cmd: &str,
    around: &Around,
    statics: &Statics,
    ctx: &ProgramLoadContext,
    diags: &mut Vec<Diagnostic>,
)
    ensures
        findings(final(diags)@) == findings(old(diags)@) + wildcards_findings(
            statics.scope(*ctx),
            task@,
            cmd@,
            around@,
        ),
{
    let ghost base = findings(diags@);
    let ghost scope = statics.scope(*ctx);
    require_field(task, "wildcards", diags);
    assert(findings(diags@) =~= base + (missing(task@, "wildcards"@)));
    require_array(task, "wildcards", statics, ctx, diags);
    assert(findings(diags@) =~= base + (missing(task@, "wildcards"@)
        + array_findings(scope, task@, "wildcards"@)));
}

fn check_math(
    task: &Task,
    cmd: &str,
    around: &Around,
    statics: &Statics,
    ctx: &ProgramLoadContext,
    diags: &mut Vec<Diagnostic>,
)
    ensures
        findings(final(diags)@) == findings(old(diags)@) + math_findings(
            statics.scope(*ctx),
            task@,
            cmd@,
            around@,
        ),
{
    let ghost base = findings(diags@);
    let ghost scope = statics.scope(*ctx);
    require_field(task, "input", diags);
    assert(findings(diags@) =~= base + (missing(task@, "input"@)));
    require_field(task, "output_name", diags);
    assert(findings(diags@) =~= base + (missing(task@, "input"@)
        + missing(task@, "output_name"@)));
    require_string(task, "input", statics, ctx, diags);
    assert(findings(diags@) =~= base + (missing(task@, "input"@)
        + missing(task@, "output_name"@)
        + string_findings(scope, task@, "input"@)));
    require_string(task, "output_name", statics, ctx, diags);
    assert(findings(diags@) =~= base + (missing(task@, "input"@)
        + missing(task@, "output_name"@)
        + string_findings(scope, task@, "input"@)
        + string_findings(scope, task@, "output_name"@)));
}

#[verifier::rlimit(60)]
fn check_chat(
    task: &Task,
    cmd: &str,
    around: &Around,
    statics: &Statics,
    ctx: &ProgramLoadContext,
    diags: &mut Vec<Diagnostic>,
)
    ensures
        findings(final(diags)@) == findings(old(diags)@) + chat_findings(
            statics.scope(*ctx),
            task@,
            cmd@,
            around@,
        ),
{
    let ghost base = findings(diags@);
    let ghost scope = statics.scope(*ctx);
    require_field(task, "messages", diags);
    assert(findings(diags@) =~= base + (missing(task@, "messages"@)));
    require_field(task, "output_name", diags);
    assert(findings(diags@) =~= base + (missing(task@, "messages"@)
        + missing(task@, "output_name"@)));
    require_array(task, "messages", statics, ctx, diags);
    assert(findings(diags@) =~= base + (missing(task@, "messages"@)
        + missing(task@, "output_name"@)
        + array_findings(scope, task@, "messages"@)));
    require_string(task, "output_name", statics, ctx, diags);
    assert(findings(diags@) =~= base + (missing(task@, "messages"@)
        + missing(task@, "output_name"@)
        + array_findings(scope, task@, "messages"@)
        + string_findings(scope, task@, "output_name"@)));
    validate_voice_path(task, around.probes, diags);
    assert(findings(diags@) =~= base + (missing(task@, "messages"@)
        + missing(task@, "output_name"@)
        + array_findings(scope, task@, "messages"@)
        + string_findings(scope, task@, "output_name"@)
        + voice_findings(task@, around@.probes)));
    check_chat_messages(task, statics, ctx, diags);
    assert(findings(diags@) =~= base + (missing(task@, "messages"@)
        + missing(task@, "output_name"@)
        + array_findings(scope, task@, "messages"@)
        + string_findings(scope, task@, "output_name"@)
        + voice_findings(task@, around@.probes)
        + chat_messages_findings(scope, task@)));
}

#[verifier::rlimit(60)]
fn check_speak(
    task: &Task,
    cmd: &str,
    around: &Around,
    statics: &Statics,
    ctx: &ProgramLoadContext,
    diags: &mut Vec<Diagnostic>,
)
    ensures
        findings(final(diags)@) == findings(old(diags)@) + speak_findings(
            statics.scope(*ctx),
            task@,
            cmd@,
            around@,
        ),
{
    let ghost base = findings(diags@);
    let ghost scope = statics.scope(*ctx);
    require_field(task, "text", diags);
    assert(findings(diags@) =~= base + (missing(task@, "text"@)));
    require_field(task, "voice_path", diags);
    assert(findings(diags@) =~= base + (missing(task@, "text"@)
        + missing(task@, "voice_path"@)));
    require_string(task, "text", statics, ctx, diags);
    assert(findings(diags@) =~= base + (missing(task@, "text"@)
        + missing(task@, "voice_path"@)
        + string_findings(scope, task@, "text"@)));
    require_string(task, "voice_path", statics, ctx, diags);
    assert(findings(diags@) =~= base + (missing(task@, "text"@)
        + missing(task@, "voice_path"@)
        + string_findings(scope, task@, "text"@)
        + string_findings(scope, task@, "voice_path"@)));
    validate_voice_path(task, around.probes, diags);
    assert(findings(diags@) =~= base + (missing(task@, "text"@)
        + missing(task@, "voice_path"@)
        + string_findings(scope, task@, "text"@)
        + string_findings(scope, task@, "voice_path"@)
        + voice_findings(task@, around@.probes)));
}

/// Reports what is wrong with the fields of the command `cmd` of `task`.
fn validate_command(
    task: &Task,
    cmd: &str,
    around: &Around,
    statics: &Statics,
    ctx: &ProgramLoadContext,
    diags: &mut Vec<Diagnostic>,
)
    ensures
        findings(final(diags)@) == findings(old(diags)@) + command_findings(
            statics.scope(*ctx),
            task@,
            cmd@,
            around@,
        ),
{
    if same_text(cmd, "print") {
        check_print(task, cmd, around, statics, ctx, diags);
    } else if same_text(cmd, "clear") {
        assert(findings(diags@) =~= findings(old(diags)@) + none());
    } else if same_text(cmd, "sleep") {
        check_sleep(task, cmd, around, statics, ctx, diags);
    } else if same_text(cmd, "set") {
        check_store(task, cmd, around, statics, ctx, diags);
    } else if same_text(cmd, "unescape") {
        check_store(task, cmd, around, statics, ctx, diags);
    } else if same_text(cmd, "write") {
        check_write(task, cmd, around, statics, ctx, diags);
    } else if same_text(cmd, "show_inserts") {
        assert(findings(diags@) =~= findings(old(diags)@) + none());
    } else if same_text(cmd, "random_choice") {
        check_random_choice(task, cmd, around, statics, ctx, diags);
    } else if same_text(cmd, "list_join") {
        check_list_join(task, cmd, around, statics, ctx, diags);
    } else if same_text(cmd, "list_concat") {
        check_list_concat(task, cmd, around, statics, ctx, diags);
    } else if same_text(cmd, "list_append") {
        check_list_change(task, cmd, around, statics, ctx, diags);
    } else if same_text(cmd, "list_remove") {
        check_list_change(task, cmd, around, statics, ctx, diags);
    } else if same_text(cmd, "list_index") {
        check_list_index(task, cmd, around, statics, ctx, diags);
    } else if same_text(cmd, "list_slice") {
        check_list_slice(task, cmd, around, statics, ctx, diags);
    } else if same_text(cmd, "user_input") {
        check_user_input(task, cmd, around, statics, ctx, diags);
    } else if same_text(cmd, "user_choice") {
        check_user_choice(task, cmd, around, statics, ctx, diags);
    } else if same_text(cmd, "await_insert") {
        check_name(task, cmd, around, statics, ctx, diags);
    } else if same_text(cmd, "label") {
        check_name(task, cmd, around, statics, ctx, diags);
    } else if same_text(cmd, "goto") {
        check_goto(task, cmd, around, statics, ctx, diags);
    } else if same_text(cmd, "goto_map") {
        check_goto_map(task, cmd, around, statics, ctx, diags);
    } else if same_text(cmd, "replace_map") {
        check_replace_map(task, cmd, around, statics, ctx, diags);
    } else if same_text(cmd, "for") {
        check_for(task, cmd, around, statics, ctx, diags);
    } else if same_text(cmd, "serial") {
        check_tasks(task, cmd, around, statics, ctx, diags);
    } else if same_text(cmd, "parallel_wait") {
        check_tasks(task, cmd, around, statics, ctx, diags);
    } else if same_text(cmd, "parallel_race") {
        check_tasks(task, cmd, around, statics, ctx, diags);
    } else if same_text(cmd, "run_task") {
        check_run_task(task, cmd, around, statics, ctx, diags);
    } else if same_text(cmd, "delete") {
        check_wildcards(task, cmd, around, statics, ctx, diags);
    } else if same_text(cmd, "delete_except") {
        check_wildcards(task, cmd, around, statics, ctx, diags);
    } else if same_text(cmd, "math") {
        check_math(task, cmd, around, statics, ctx, diags);
    } else if same_text(cmd, "chat") {
        check_chat(task, cmd, around, statics, ctx, diags);
    } else if same_text(cmd, "speak") {
        check_speak(task, cmd, around, statics, ctx, diags);
    } else {
        report(diags, task, concat3("Unknown cmd '", cmd, "'"));
    }
}

/// Reports what is wrong with `task`.
pub fn validate_task(
    task: &Task,
    around: &Around,
    statics: &Statics,
    ctx: &ProgramLoadContext,
    diags: &mut Vec<Diagnostic>,
)
    ensures
        findings(final(diags)@) == findings(old(diags)@) + task_findings(
            statics.scope(*ctx),
            task@,
            around@,
        ),
{
    match task.get("cmd") {
        Some(Value::String(cmd)) => {
            validate_command(task, cmd.as_str(), around, statics, ctx, diags);
        },
        _ => {
            report(diags, task, "Task missing 'cmd' string".to_owned());
        },
    }
}

fn check_label(item: &Value, labels: &mut Vec<String>, diags: &mut Vec<Diagnostic>)
    ensures
        ({
            let acc = LabelScan {
                labels: crate::model::texts_of(old(labels)@),
                found: findings(old(diags)@),
            };
            let next = scan_label(item@, acc);
            crate::model::texts_of(final(labels)@) == next.labels && findings(final(diags)@)
                == next.found
        }),
{
    match item {
        Value::Object(task) => {
            let is_label = match task.get("cmd") {
                Some(Value::String(c)) => same_text(c.as_str(), "label"),
                _ => false,
            };
            if is_label {
                match task.get("name") {
                    Some(Value::String(name)) => {
                        if is_listed(labels, name.as_str()) {
                            report(
                                diags,
                                task,
                                concat3("Label '", name.as_str(), "' is not unique in its list of tasks"),
                            );
                        } else {
                            let ghost before = labels@;
                            labels.push(name.clone());
                            assert(crate::model::texts_of(labels@) =~= crate::model::texts_of(
                                before,
                            ).push(name@));
                        }
                    },
                    _ => {
                        report(diags, task, "label.name must be a string".to_owned());
                    },
                }
            }
        },
        _ => {},
    }
}

/// The labels of `list`; what is wrong with them is reported.
pub fn collect_labels_for_list(list: &Vec<Value>, diags: &mut Vec<Diagnostic>) -> (labels: Vec<String>)
    ensures
        crate::model::texts_of(labels@) == labels_of(list_view(list@)).labels,
        findings(final(diags)@) == findings(old(diags)@) + labels_of(list_view(list@)).found,
{
    let ghost base = findings(diags@);
    let ghost items = list_view(list@);
    proof {
        lemma_list_view(list@);
    }
    let mut labels: Vec<String> = Vec::new();
    let mut i: usize = 0;
    let ghost mut acc = LabelScan { labels: Seq::empty(), found: Seq::empty() };
    assert(crate::model::texts_of(labels@) =~= acc.labels);
    assert(findings(diags@) =~= base + acc.found);
    while i < list.len()
        invariant
            i <= list.len(),
            items == list_view(list@),
            items.len() == list@.len(),
            forall|k: int| 0 <= k < items.len() ==> items[k] == list@[k]@,
            crate::model::texts_of(labels@) == acc.labels,
            findings(diags@) == base + acc.found,
            labels_of(items) == scan_labels(items, i as int, acc),
        decreases list.len() - i,
    {
        let ghost before = findings(diags@);
        check_label(&list[i], &mut labels, diags);
        proof {
            let shifted = scan_label(
                items[i as int],
                LabelScan { labels: acc.labels, found: before },
            );
            let next = scan_label(items[i as int], acc);
            assert(shifted.labels == next.labels);
            assert(shifted.found =~= base + next.found);
            acc = next;
        }
        i += 1;
    }
    labels
}

fn has_object_in(a: &Vec<Value>) -> (r: bool)
    ensures
        r == has_object(list_view(a@), 0),
{
    let ghost items = list_view(a@);
    proof {
        lemma_list_view(a@);
    }
    let mut i: usize = 0;
    while i < a.len()
        invariant
            i <= a.len(),
            items == list_view(a@),
            items.len() == a@.len(),
            forall|k: int| 0 <= k < items.len() ==> items[k] == a@[k]@,
            has_object(items, 0) == has_object(items, i as int),
        decreases a.len() - i,
    {
        if a[i].is_object() {
            return true;
        }
        i += 1;
    }
    false
}

/// Reports what is wrong with the tasks of `list`, which stands at `scope_name`.
pub fn analyze_task_list(
    list: &Vec<Value>,
    scope_name: &str,
    named: &Vec<String>,
    statics: &Statics,
    ctx: &ProgramLoadContext,
    probes: &Vec<PathProbe>,
    diags: &mut Vec<Diagnostic>,
)
    ensures
        findings(final(diags)@) == findings(old(diags)@) + list_findings(
            statics.scope(*ctx),
            list_view(list@),
            scope_name@,
            crate::model::texts_of(named@),
            probes_view(probes@),
        ),
    decreases list,
{
    let ghost base = findings(diags@);
    let ghost scope = statics.scope(*ctx);
    let ghost items = list_view(list@);
    proof {
        lemma_list_view(list@);
    }
    let labels = collect_labels_for_list(list, diags);
    let around = Around { scope_name, named, labels: &labels, probes };
    let ghost head = findings(diags@);
    let ghost mut done: Seq<Finding> = Seq::empty();
    let mut i: usize = 0;
    assert(head =~= head + done);
    while i < list.len()
        invariant
            i <= list.len(),
            scope == statics.scope(*ctx),
            items == list_view(list@),
            items.len() == list@.len(),
            forall|k: int| 0 <= k < items.len() ==> items[k] == list@[k]@,
            around.scope_name == scope_name,
            around.named == named,
            around.probes == probes,
            findings(diags@) == head + done,
            each_findings(scope, items, around@, 0) == done + each_findings(
                scope,
                items,
                around@,
                i as int,
            ),
        decreases list.len() - i,
    {
        let ghost before = findings(diags@);
        match &list[i] {
            Value::Object(task) => {
                validate_task(task, &around, statics, ctx, diags);
                let p = task.position("tasks");
                proof {
                    lemma_dict_view(task.entries@);
                    lemma_dict_position(task@, "tasks"@);
                }
                if p < task.entries.len() {
                    match &task.entries[p].1 {
                        Value::Array(sub) => {
                            if has_object_in(sub) {
                                assert(decreases_to!(*list => list[i as int]));
                                assert(list[i as int]->Object_0 == *task);
                                assert(decreases_to!(task.entries => task.entries[p as int]));
                                assert(task.entries[p as int].1->Array_0 == *sub);
                                analyze_task_list(sub, scope_name, named, statics, ctx, probes, diags);
                            }
                        },
                        _ => {},
                    }
                }
            },
            _ => {},
        }
        proof {
            let piece = match items[i as int] {
                Json::Dict(task) => task_findings(scope, task, around@) + (match dict_get(
                    task,
                    "tasks"@,
                ) {
                    Some(Json::List(sub)) => if has_object(sub, 0) {
                        list_findings(scope, sub, around@.scope_name, around@.named, around@.probes)
                    } else {
                        none()
                    },
                    _ => none(),
                }),
                _ => none(),
            };
            assert(findings(diags@) =~= before + piece);
            assert(head + done + piece =~= head + (done + piece));
            assert(done + (piece + each_findings(scope, items, around@, i + 1)) =~= (done + piece)
                + each_findings(scope, items, around@, i + 1));
            done = done + piece;
        }
        i += 1;
    }
    assert(done + none() =~= done);
    assert(findings(diags@) =~= base + list_findings(
        scope,
        items,
        scope_name@,
        crate::model::texts_of(named@),
        probes_view(probes@),
    ));
}

/// The tasks of `tasks` as values, in order.
pub open spec fn as_values(tasks: Seq<Seq<(Seq<char>, Json)>>) -> Seq<Json> {
    Seq::new(tasks.len(), |i: int| Json::Dict(tasks[i]))
}

/// The names of the named tasks, in order.
pub open spec fn names_of(named: Seq<(Seq<char>, Seq<(Seq<char>, Json)>)>) -> Seq<Seq<char>> {
    Seq::new(named.len(), |i: int| named[i].0)
}

/// What is wrong with the named tasks from `from` on, each a list by itself
/// that stands at `named_tasks.` and its name.
pub open spec fn named_findings(
    scope: Scope,
    named: Seq<(Seq<char>, Seq<(Seq<char>, Json)>)>,
    probes: Seq<Probe>,
    from: int,
) -> Seq<Finding>
    decreases named.len() - from,
{
    if from < 0 || from >= named.len() {
        none()
    } else {
        list_findings(
            scope,
            seq![Json::Dict(named[from].1)],
            "named_tasks."@ + named[from].0,
            names_of(named),
            probes,
        ) + named_findings(scope, named, probes, from + 1)
    }
}

/// The inserts that the program begins with: none where its state has none.
pub open spec fn default_inserts(default_state: Seq<(Seq<char>, Json)>) -> Seq<(Seq<char>, Json)> {
    match dict_get(default_state, "inserts"@) {
        Some(Json::Dict(m)) => m,
        _ => Seq::empty(),
    }
}

/// `acc` followed by the patterns of the names that the named tasks from
/// `from` on store under.
pub open spec fn named_producers(
    named: Seq<(Seq<char>, Seq<(Seq<char>, Json)>)>,
    from: int,
    acc: Seq<Seq<char>>,
) -> Seq<Seq<char>>
    decreases named.len() - from,
{
    if from < 0 || from >= named.len() {
        acc
    } else {
        named_producers(
            named,
            from + 1,
            crate::reach::producers_of(seq![Json::Dict(named[from].1)], 0, acc),
        )
    }
}

/// The findings for the keys of the named tasks from `from` on that cannot have a value.
pub open spec fn named_reach_findings(
    named: Seq<(Seq<char>, Seq<(Seq<char>, Json)>)>,
    from: int,
    sources: crate::reach::Sources,
) -> Seq<Finding>
    decreases named.len() - from,
{
    if from < 0 || from >= named.len() {
        none()
    } else {
        crate::reach::list_reach_findings(seq![Json::Dict(named[from].1)], 0, sources)
            + named_reach_findings(named, from + 1, sources)
    }
}

/// What the keys of a program can get their values from.
pub open spec fn program_sources(
    default_state: Seq<(Seq<char>, Json)>,
    order: Seq<Seq<(Seq<char>, Json)>>,
    named: Seq<(Seq<char>, Seq<(Seq<char>, Json)>)>,
    ctx: ProgramLoadContext,
) -> crate::reach::Sources {
    crate::reach::Sources {
        inserts: default_inserts(default_state),
        dir_keys: crate::model::texts_of(ctx.inserts_dir_keys@),
        producers: named_producers(
            named,
            0,
            crate::reach::producers_of(as_values(order), 0, Seq::empty()),
        ),
    }
}

/// Everything that is wrong with a program: with the tasks of `order`, then
/// with each named task; then the keys of `order` and of the named tasks
/// that cannot have a value.
pub open spec fn program_findings(
    default_state: Seq<(Seq<char>, Json)>,
    order: Seq<Seq<(Seq<char>, Json)>>,
    named: Seq<(Seq<char>, Seq<(Seq<char>, Json)>)>,
    ctx: ProgramLoadContext,
    probes: Seq<Probe>,
) -> Seq<Finding> {
    let scope = crate::checks::analysis_scope(default_inserts(default_state), ctx);
    let sources = program_sources(default_state, order, named, ctx);
    list_findings(scope, as_values(order), "order"@, names_of(named), probes) + named_findings(
        scope,
        named,
        probes,
        0,
    ) + crate::reach::list_reach_findings(as_values(order), 0, sources) + named_reach_findings(
        named,
        0,
        sources,
    )
}

/// Goes through `program` and returns everything that is wrong with it;
/// `probes` says what was found of the voice files that its tasks name. The
/// program can run just when nothing is returned.
pub fn analyze_program(program: &Program, ctx: &ProgramLoadContext, probes: &Vec<PathProbe>) -> (r:
    Result<(), Vec<Diagnostic>>)
    ensures
        match r {
            Ok(_) => program_findings(
                program.default_state@,
                crate::fields::tasks_view(program.order@),
                crate::engine::named_view(program.named_tasks@),
                *ctx,
                probes_view(probes@),
            ).len() == 0,
            Err(diags) => diags@.len() > 0 && findings(diags@) == program_findings(
                program.default_state@,
                crate::fields::tasks_view(program.order@),
                crate::engine::named_view(program.named_tasks@),
                *ctx,
                probes_view(probes@),
            ),
        },
{
    let inserts = match program.default_state.get("inserts") {
        Some(Value::Object(m)) => m.clone(),
        _ => Object::new(),
    };
    let statics = Statics::new(inserts);
    let ghost scope = statics.scope(*ctx);
    assert(statics.clock.hour_minute@ =~= Seq::<char>::empty());
    assert(statics.clock.hour_minute_second@ =~= Seq::<char>::empty());
    assert(scope == crate::checks::analysis_scope(default_inserts(program.default_state@), *ctx));
    let ghost named = crate::engine::named_view(program.named_tasks@);
    let mut names: Vec<String> = Vec::new();
    let mut i: usize = 0;
    while i < program.named_tasks.len()
        invariant
            i <= program.named_tasks.len(),
            names@.len() == i,
            forall|k: int| 0 <= k < i ==> names@[k]@ == program.named_tasks@[k].0@,
        decreases program.named_tasks.len() - i,
    {
        names.push(program.named_tasks[i].0.clone());
        i += 1;
    }
    assert(crate::model::texts_of(names@) =~= names_of(named));
    let mut order: Vec<Value> = Vec::new();
    let mut k: usize = 0;
    while k < program.order.len()
        invariant
            k <= program.order.len(),
            order@.len() == k,
            forall|q: int| 0 <= q < k ==> order@[q]@ == Json::Dict(program.order@[q]@),
        decreases program.order.len() - k,
    {
        order.push(Value::Object(program.order[k].clone()));
        k += 1;
    }
    proof {
        lemma_list_view(order@);
        assert(list_view(order@) =~= as_values(crate::fields::tasks_view(program.order@)));
    }
    let mut diags: Vec<Diagnostic> = Vec::new();
    assert(findings(diags@) =~= Seq::<Finding>::empty());
    analyze_task_list(&order, "order", &names, &statics, ctx, probes, &mut diags);
    let ghost head = findings(diags@);
    let ghost mut done: Seq<Finding> = Seq::empty();
    let mut j: usize = 0;
    assert(head =~= head + done);
    while j < program.named_tasks.len()
        invariant
            j <= program.named_tasks.len(),
            scope == statics.scope(*ctx),
            named == crate::engine::named_view(program.named_tasks@),
            crate::model::texts_of(names@) == names_of(named),
            findings(diags@) == head + done,
            named_findings(scope, named, probes_view(probes@), 0) == done + named_findings(
                scope,
                named,
                probes_view(probes@),
                j as int,
            ),
        decreases program.named_tasks.len() - j,
    {
        let mut single: Vec<Value> = Vec::new();
        single.push(Value::Object(program.named_tasks[j].1.clone()));
        proof {
            lemma_list_view(single@);
            assert(list_view(single@) =~= seq![Json::Dict(named[j as int].1)]);
        }
        let mut place = chars_of("named_tasks.");
        crate::text::append_chars(&mut place, &chars_of(program.named_tasks[j].0.as_str()));
        let scope_name = string_of(&place);
        analyze_task_list(&single, scope_name.as_str(), &names, &statics, ctx, probes, &mut diags);
        proof {
            let piece = list_findings(
                scope,
                seq![Json::Dict(named[j as int].1)],
                "named_tasks."@ + named[j as int].0,
                names_of(named),
                probes_view(probes@),
            );
            assert(head + done + piece =~= head + (done + piece));
            assert(done + (piece + named_findings(scope, named, probes_view(probes@), j + 1)) =~= (
            done + piece) + named_findings(scope, named, probes_view(probes@), j + 1));
            done = done + piece;
        }
        j += 1;
    }
    assert(done + none() =~= done);
    let ghost structure = findings(diags@);
    let mut producers: Vec<String> = Vec::new();
    assert(crate::model::texts_of(producers@) =~= Seq::<Seq<char>>::empty());
    crate::reach::collect_producers(&order, &mut producers);
    let mut n: usize = 0;
    while n < program.named_tasks.len()
        invariant
            n <= program.named_tasks.len(),
            named == crate::engine::named_view(program.named_tasks@),
            named_producers(
                named,
                0,
                crate::reach::producers_of(
                    as_values(crate::fields::tasks_view(program.order@)),
                    0,
                    Seq::empty(),
                ),
            ) == named_producers(named, n as int, crate::model::texts_of(producers@)),
        decreases program.named_tasks.len() - n,
    {
        let mut single: Vec<Value> = Vec::new();
        single.push(Value::Object(program.named_tasks[n].1.clone()));
        proof {
            lemma_list_view(single@);
            assert(list_view(single@) =~= seq![Json::Dict(named[n as int].1)]);
        }
        crate::reach::collect_producers(&single, &mut producers);
        n += 1;
    }
    let known = crate::reach::Known {
        inserts: &statics.inserts,
        dir_keys: &ctx.inserts_dir_keys,
        producers: &producers,
    };
    let ghost sources = program_sources(
        program.default_state@,
        crate::fields::tasks_view(program.order@),
        named,
        *ctx,
    );
    assert(known@ == sources);
    crate::reach::check_list_keys(&order, &known, &mut diags);
    let ghost reached = findings(diags@);
    let ghost mut seen: Seq<Finding> = Seq::empty();
    let mut m: usize = 0;
    assert(reached =~= reached + seen);
    while m < program.named_tasks.len()
        invariant
            m <= program.named_tasks.len(),
            named == crate::engine::named_view(program.named_tasks@),
            known@ == sources,
            findings(diags@) == reached + seen,
            named_reach_findings(named, 0, sources) == seen + named_reach_findings(
                named,
                m as int,
                sources,
            ),
        decreases program.named_tasks.len() - m,
    {
        let mut single: Vec<Value> = Vec::new();
        single.push(Value::Object(program.named_tasks[m].1.clone()));
        proof {
            lemma_list_view(single@);
            assert(list_view(single@) =~= seq![Json::Dict(named[m as int].1)]);
        }
        crate::reach::check_list_keys(&single, &known, &mut diags);
        proof {
            let piece = crate::reach::list_reach_findings(
                seq![Json::Dict(named[m as int].1)],
                0,
                sources,
            );
            assert(reached + seen + piece =~= reached + (seen + piece));
            assert(seen + (piece + named_reach_findings(named, m + 1, sources)) =~= (seen + piece)
                + named_reach_findings(named, m + 1, sources));
            seen = seen + piece;
        }
        m += 1;
    }
    assert(seen + none() =~= seen);
    if diags.len() == 0 {
        Ok(())
    } else {
        Err(diags)
    }
}

} // verus!
