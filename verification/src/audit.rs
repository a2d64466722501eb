//! Session audit logs: where they are written and the events they record
//! (a session's start, each `container exec` it runs, its end), as JSON.

use vstd::prelude::*;
use crate::json::{JsonValue, JsonView, members_view, items_view, lemma_members_view, lemma_items_view};
use crate::number::{signed_decimal, i64_to_string, decimal, u64_to_string};
use crate::runtime_config::{minsert, obj_insert};
use crate::sandbox::pair_views;
use crate::text::{chars_of, string_views, trim, trim_str};

verus! {

/// The audit log of a session: none without `--audit-log`; with a blank
/// value, `<home>/.cache/muthr/audit/<ts>-<container>.ndjson`; else the
/// path given.
pub open spec fn spec_audit_log_path(flag: Option<Seq<char>>, home: Seq<char>, ts: i64, container_id: Seq<char>) -> Option<
    Seq<char>,
> {
    match flag {
        None => None,
        Some(p) => if trim(p).len() == 0 {
            Some(home + "/.cache/muthr/audit/"@ + signed_decimal(ts as int) + "-"@ + container_id + ".ndjson"@)
        } else {
            Some(p)
        },
    }
}

/// Where a session's audit log is written.
pub fn audit_log_path(flag: Option<&str>, home: &str, ts: i64, container_id: &str) -> (r: Option<String>)
    ensures
        match r {
            Some(s) => spec_audit_log_path(
                match flag {
                    Some(f) => Some(f@),
                    None => None,
                },
                home@,
                ts,
                container_id@,
            ) == Some(s@),
            None => spec_audit_log_path(
                match flag {
                    Some(f) => Some(f@),
                    None => None,
                },
                home@,
                ts,
                container_id@,
            ) is None,
        },
{
    match flag {
        None => None,
        Some(p) => if trim_str(p).len() == 0 {
            let mut s = String::from_str(home);
            s.append("/.cache/muthr/audit/");
            s.append(i64_to_string(ts).as_str());
            s.append("-");
            s.append(container_id);
            s.append(".ndjson");
            Some(s)
        } else {
            Some(String::from_str(p))
        },
    }
}

/// The members of an object filled with the pairs in order, a later value
/// of a key replacing an earlier one.
pub open spec fn env_members(pairs: Seq<(Seq<char>, Seq<char>)>) -> Seq<(Seq<char>, JsonView)>
    decreases pairs.len(),
{
    if pairs.len() == 0 {
        Seq::empty()
    } else {
        minsert(env_members(pairs.drop_last()), pairs.last().0, JsonView::Str(pairs.last().1))
    }
}

/// The pairs as a JSON object of strings.
pub fn env_object(pairs: &Vec<(String, String)>) -> (r: JsonValue)
    ensures
        r@ == JsonView::Object(env_members(pair_views(pairs@))),
{
    let mut es: Vec<(String, JsonValue)> = Vec::new();
    let mut i: usize = 0;
    assert(pair_views(pairs@).take(0) =~= Seq::<(Seq<char>, Seq<char>)>::empty());
    proof {
        lemma_members_view(es@, 0);
    }
    while i < pairs.len()
        invariant
            i <= pairs.len(),
            members_view(es@, es@.len() as int) == env_members(pair_views(pairs@).take(i as int)),
        decreases pairs.len() - i,
    {
        assert(pair_views(pairs@).take(i + 1).drop_last() =~= pair_views(pairs@).take(i as int));
        assert(pair_views(pairs@).take(i + 1).last() == pair_views(pairs@)[i as int]);
        obj_insert(&mut es, pairs[i].0.as_str(), JsonValue::Str(pairs[i].1.clone()));
        i += 1;
    }
    assert(pair_views(pairs@).take(pairs.len() as int) =~= pair_views(pairs@));
    JsonValue::Object(es)
}

/// Strings as a JSON array.
pub fn string_array(v: &Vec<String>) -> (r: JsonValue)
    ensures
        r@ == JsonView::Array(Seq::new(v@.len(), |i: int| JsonView::Str(v@[i]@))),
{
    let mut items: Vec<JsonValue> = Vec::new();
    let mut i: usize = 0;
    while i < v.len()
        invariant
            i <= v.len(),
            items@.len() == i,
            forall|j: int| 0 <= j < i ==> (#[trigger] items@[j])@ == JsonView::Str(v@[j]@),
        decreases v.len() - i,
    {
        items.push(JsonValue::Str(v[i].clone()));
        i += 1;
    }
    proof {
        lemma_items_view(items@, items@.len() as int);
        assert(items_view(items@, items@.len() as int) =~= Seq::new(v@.len(), |i: int| JsonView::Str(v@[i]@)));
    }
    JsonValue::Array(items)
}

fn member(k: &str, v: JsonValue) -> (r: (String, JsonValue))
    ensures
        r.0@ == k@,
        r.1 == v,
{
    (String::from_str(k), v)
}

/// The event that opens a session's log.
pub open spec fn session_start_event(
    ts: i64,
    container_id: Seq<char>,
    workdir: Seq<char>,
    tty: bool,
    requires_tty: bool,
    runtime_env: Seq<(Seq<char>, JsonView)>,
    target_args: Option<Seq<Seq<char>>>,
) -> JsonView {
    let base = seq![
        ("event"@, JsonView::Str("session_start"@)),
        ("ts"@, JsonView::Number(signed_decimal(ts as int))),
        ("container_id"@, JsonView::Str(container_id)),
        ("workdir"@, JsonView::Str(workdir)),
        ("tty"@, JsonView::Bool(tty)),
        ("requires_tty"@, JsonView::Bool(requires_tty)),
        ("runtime_env"@, JsonView::Object(runtime_env)),
    ];
    JsonView::Object(
        match target_args {
            Some(a) => base.push(("target_args"@, JsonView::Array(Seq::new(a.len(), |i: int| JsonView::Str(a[i]))))),
            None => base,
        },
    )
}

/// The event that opens a session's log: when, which sandbox, where, on a
/// terminal or not, the audited runtime variables, and the command when
/// the session runs one.
pub fn session_start(
    ts: i64,
    container_id: &str,
    workdir: &str,
    tty: bool,
    requires_tty: bool,
    runtime_env: &Vec<(String, String)>,
    target_args: Option<&Vec<String>>,
) -> (r: JsonValue)
    ensures
        r@ == session_start_event(
            ts,
            container_id@,
            workdir@,
            tty,
            requires_tty,
            env_members(crate::sandbox::spec_env_summary(pair_views(runtime_env@))),
            match target_args {
                Some(a) => Some(string_views(a@)),
                None => None,
            },
        ),
{
    let summary = crate::sandbox::runtime_env_summary(runtime_env);
    let env = env_object(&summary);
    let mut f: Vec<(String, JsonValue)> = Vec::new();
    f.push(member("event", JsonValue::Str(String::from_str("session_start"))));
    f.push(member("ts", JsonValue::Number(i64_to_string(ts))));
    f.push(member("container_id", JsonValue::Str(String::from_str(container_id))));
    f.push(member("workdir", JsonValue::Str(String::from_str(workdir))));
    f.push(member("tty", JsonValue::Bool(tty)));
    f.push(member("requires_tty", JsonValue::Bool(requires_tty)));
    f.push(member("runtime_env", env));
    match target_args {
        Some(a) => {
            f.push(member("target_args", string_array(a)));
            proof {
                lemma_members_view(f@, 8);
                assert(Seq::new(string_views(a@).len(), |i: int| JsonView::Str(string_views(a@)[i])) =~= Seq::new(
                    a@.len(),
                    |i: int| JsonView::Str(a@[i]@),
                ));
            }
        },
        None => {
            proof {
                lemma_members_view(f@, 7);
            }
        },
    }
    let r = JsonValue::Object(f);
    assert(r@ == session_start_event(
        ts,
        container_id@,
        workdir@,
        tty,
        requires_tty,
        env_members(crate::sandbox::spec_env_summary(pair_views(runtime_env@))),
        match target_args {
            Some(a) => Some(string_views(a@)),
            None => None,
        },
    )) by {
        assert(members_view(f@, f@.len() as int) =~= match target_args {
            Some(a) => seq![
                ("event"@, JsonView::Str("session_start"@)),
                ("ts"@, JsonView::Number(signed_decimal(ts as int))),
                ("container_id"@, JsonView::Str(container_id@)),
                ("workdir"@, JsonView::Str(workdir@)),
                ("tty"@, JsonView::Bool(tty)),
                ("requires_tty"@, JsonView::Bool(requires_tty)),
                ("runtime_env"@, JsonView::Object(env_members(crate::sandbox::spec_env_summary(pair_views(runtime_env@))))),
            ].push(("target_args"@, JsonView::Array(Seq::new(string_views(a@).len(), |i: int| JsonView::Str(string_views(a@)[i]))))),
            None => seq![
                ("event"@, JsonView::Str("session_start"@)),
                ("ts"@, JsonView::Number(signed_decimal(ts as int))),
                ("container_id"@, JsonView::Str(container_id@)),
                ("workdir"@, JsonView::Str(workdir@)),
                ("tty"@, JsonView::Bool(tty)),
                ("requires_tty"@, JsonView::Bool(requires_tty)),
                ("runtime_env"@, JsonView::Object(env_members(crate::sandbox::spec_env_summary(pair_views(runtime_env@))))),
            ],
        });
    }
    r
}

/// The event of one `container exec` of a session: its arguments and
/// whether it runs on a terminal; `sandbox shell` also records the audited
/// runtime variables.
pub fn exec_invocation(
    ts: i64,
    container_id: &str,
    argv: &Vec<String>,
    tty: bool,
    runtime_env: Option<&Vec<(String, String)>>,
) -> (r: JsonValue)
    ensures
        r@ == JsonView::Object(
            seq![
                ("event"@, JsonView::Str("exec_invocation"@)),
                ("ts"@, JsonView::Number(signed_decimal(ts as int))),
                ("container_id"@, JsonView::Str(container_id@)),
                ("argv"@, JsonView::Array(Seq::new(argv@.len(), |i: int| JsonView::Str(argv@[i]@)))),
                ("tty"@, JsonView::Bool(tty)),
            ] + match runtime_env {
                Some(e) => seq![
                    (
                        "runtime_env"@,
                        JsonView::Object(env_members(crate::sandbox::spec_env_summary(pair_views(e@)))),
                    ),
                ],
                None => Seq::empty(),
            },
        ),
{
    let mut f: Vec<(String, JsonValue)> = Vec::new();
    f.push(member("event", JsonValue::Str(String::from_str("exec_invocation"))));
    f.push(member("ts", JsonValue::Number(i64_to_string(ts))));
    f.push(member("container_id", JsonValue::Str(String::from_str(container_id))));
    f.push(member("argv", string_array(argv)));
    f.push(member("tty", JsonValue::Bool(tty)));
    match runtime_env {
        Some(e) => {
            let summary = crate::sandbox::runtime_env_summary(e);
            f.push(member("runtime_env", env_object(&summary)));
            proof {
                lemma_members_view(f@, 6);
            }
        },
        None => {
            proof {
                lemma_members_view(f@, 5);
            }
        },
    }
    let r = JsonValue::Object(f);
    assert(members_view(f@, f@.len() as int) =~= seq![
        ("event"@, JsonView::Str("exec_invocation"@)),
        ("ts"@, JsonView::Number(signed_decimal(ts as int))),
        ("container_id"@, JsonView::Str(container_id@)),
        ("argv"@, JsonView::Array(Seq::new(argv@.len(), |i: int| JsonView::Str(argv@[i]@)))),
        ("tty"@, JsonView::Bool(tty)),
    ] + match runtime_env {
        Some(e) => seq![
            ("runtime_env"@, JsonView::Object(env_members(crate::sandbox::spec_env_summary(pair_views(e@))))),
        ],
        None => Seq::empty(),
    });
    r
}

/// The event that closes a session's log: the exit code (`null` when the
/// command was ended by a signal) and, for sessions that time themselves,
/// the duration in milliseconds.
pub fn session_exit(ts: i64, container_id: &str, exit_code: Option<i32>, duration_ms: Option<u64>) -> (r: JsonValue)
    ensures
        r@ == JsonView::Object(
            seq![
                ("event"@, JsonView::Str("session_exit"@)),
                ("ts"@, JsonView::Number(signed_decimal(ts as int))),
                ("container_id"@, JsonView::Str(container_id@)),
                ("exit_code"@, match exit_code {
                    Some(c) => JsonView::Number(signed_decimal(c as int)),
                    None => JsonView::Null,
                }),
            ] + match duration_ms {
                Some(d) => seq![("duration_ms"@, JsonView::Number(decimal(d as nat)))],
                None => Seq::empty(),
            },
        ),
{
    let mut f: Vec<(String, JsonValue)> = Vec::new();
    f.push(member("event", JsonValue::Str(String::from_str("session_exit"))));
    f.push(member("ts", JsonValue::Number(i64_to_string(ts))));
    f.push(member("container_id", JsonValue::Str(String::from_str(container_id))));
    let code = match exit_code {
        Some(c) => JsonValue::Number(i64_to_string(c as i64)),
        None => JsonValue::Null,
    };
    f.push(member("exit_code", code));
    match duration_ms {
        Some(d) => {
            f.push(member("duration_ms", JsonValue::Number(u64_to_string(d))));
            proof {
                lemma_members_view(f@, 5);
            }
        },
        None => {
            proof {
                lemma_members_view(f@, 4);
            }
        },
    }
    assert(members_view(f@, f@.len() as int) =~= seq![
        ("event"@, JsonView::Str("session_exit"@)),
        ("ts"@, JsonView::Number(signed_decimal(ts as int))),
        ("container_id"@, JsonView::Str(container_id@)),
        ("exit_code"@, match exit_code {
            Some(c) => JsonView::Number(signed_decimal(c as int)),
            None => JsonView::Null,
        }),
    ] + match duration_ms {
        Some(d) => seq![("duration_ms"@, JsonView::Number(decimal(d as nat)))],
        None => Seq::empty(),
    });
    JsonValue::Object(f)
}

} // verus!
