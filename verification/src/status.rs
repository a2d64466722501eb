//! What the status commands report: the state of the inference runtimes,
//! of the services containers and of the project sandboxes, as text lines
//! and as JSON.

use vstd::prelude::*;
use crate::containers::{
    ContainerListItem, SandboxRow, listing_rows, sort_rows, sandbox_rows, rows_view, raw_id, raw_state,
    running_state, is_running_state, first_some,
};
use crate::json::{JsonValue, JsonView, jget, jget_opt, jstr_opt, members_view, items_view, lemma_members_view, lemma_items_view};
use crate::text::{chars_eq, chars_of, has_prefix, slice_chars, starts_with, string_from_chars, trim, trim_str, views};
use crate::ui::{pad, pad_text};

verus! {

/// What `engine status` knows of a runtime: its name, the model recorded
/// as active (empty when none) and whether its server runs.
#[derive(Debug, Clone, PartialEq, Eq)]
pub struct RuntimeState {
    pub name: String,
    pub model: String,
    pub running: bool,
}

/// The model recorded as active: the trimmed content of the runtime's
/// active-preset file, empty when it cannot be read.
pub fn recorded_model(content: Option<&str>) -> (r: String)
    ensures
        r@ == match content {
            Some(c) => trim(c@),
            None => Seq::<char>::empty(),
        },
{
    match content {
        Some(c) => string_from_chars(&trim_str(c)),
        None => String::new(),
    }
}

/// The state of the inference plane as a whole.
#[derive(Debug, Clone, Copy, PartialEq, Eq)]
pub enum OverallState {
    /// No runtime has an active model.
    NotConfigured,
    /// Some runtime has an active model and some server runs.
    Running,
    /// Some runtime has an active model and no server runs.
    ConfiguredStopped,
}

/// Some runtime has an active model.
pub open spec fn any_configured(rs: Seq<RuntimeState>) -> bool {
    exists|i: int| 0 <= i < rs.len() && (#[trigger] rs[i]).model@.len() > 0
}

/// Some runtime's server runs.
pub open spec fn any_running(rs: Seq<RuntimeState>) -> bool {
    exists|i: int| 0 <= i < rs.len() && (#[trigger] rs[i]).running
}

/// The overall state of the runtimes.
pub open spec fn spec_overall_state(rs: Seq<RuntimeState>) -> OverallState {
    if !any_configured(rs) {
        OverallState::NotConfigured
    } else if any_running(rs) {
        OverallState::Running
    } else {
        OverallState::ConfiguredStopped
    }
}

/// Works out the overall state of the runtimes.
pub fn overall_state(rs: &Vec<RuntimeState>) -> (r: OverallState)
    ensures
        r == spec_overall_state(rs@),
{
    let mut configured = false;
    let mut running = false;
    let mut i: usize = 0;
    while i < rs.len()
        invariant
            i <= rs.len(),
            configured == exists|j: int| 0 <= j < i && (#[trigger] rs@[j]).model@.len() > 0,
            running == exists|j: int| 0 <= j < i && (#[trigger] rs@[j]).running,
        decreases rs.len() - i,
    {
        if chars_of(rs[i].model.as_str()).len() > 0 {
            configured = true;
        }
        if rs[i].running {
            running = true;
        }
        i += 1;
    }
    if !configured {
        OverallState::NotConfigured
    } else if running {
        OverallState::Running
    } else {
        OverallState::ConfiguredStopped
    }
}

/// The word for a state in the JSON report.
pub open spec fn spec_state_word(s: OverallState) -> Seq<char> {
    match s {
        OverallState::NotConfigured => "not_configured"@,
        OverallState::Running => "running"@,
        OverallState::ConfiguredStopped => "configured_stopped"@,
    }
}

/// The word for a state in the JSON report.
pub fn state_word(s: OverallState) -> (r: &'static str)
    ensures
        r@ == spec_state_word(s),
{
    match s {
        OverallState::NotConfigured => "not_configured",
        OverallState::Running => "running",
        OverallState::ConfiguredStopped => "configured_stopped",
    }
}

/// The first line of the text report.
pub fn state_headline(s: OverallState) -> (r: &'static str)
    ensures
        r@ == match s {
            OverallState::NotConfigured => "muthr: not configured"@,
            OverallState::Running => "muthr: running"@,
            OverallState::ConfiguredStopped => "muthr: configured, stopped"@,
        },
{
    match s {
        OverallState::NotConfigured => "muthr: not configured",
        OverallState::Running => "muthr: running",
        OverallState::ConfiguredStopped => "muthr: configured, stopped",
    }
}

/// The two lines of a runtime in the text report: its active model (or
/// `(none)`), and whether its server runs; the runtime's name padded to 10
/// characters.
pub open spec fn spec_runtime_lines(name: Seq<char>, model: Seq<char>, running: bool) -> (Seq<char>, Seq<char>) {
    (
        if model.len() == 0 {
            "  engine "@ + pad(name, 10) + " (none)"@
        } else {
            "  engine "@ + pad(name, 10) + " active      "@ + model
        },
        "  server "@ + pad(name, 10) + (if running {
            " running"@
        } else {
            " stopped"@
        }),
    )
}

/// The lines of a runtime in the text report.
pub fn runtime_lines(r: &RuntimeState) -> (out: (String, String))
    ensures
        (out.0@, out.1@) == spec_runtime_lines(r.name@, r.model@, r.running),
{
    let padded = pad_text(r.name.as_str(), 10);
    let mut first = String::from_str("  engine ");
    first.append(padded.as_str());
    if chars_of(r.model.as_str()).len() == 0 {
        first.append(" (none)");
    } else {
        first.append(" active      ");
        first.append(r.model.as_str());
    }
    let mut second = String::from_str("  server ");
    second.append(padded.as_str());
    if r.running {
        second.append(" running");
    } else {
        second.append(" stopped");
    }
    (first, second)
}

/// The JSON report of a runtime: its model (`null` when none) and whether
/// its server runs.
pub open spec fn runtime_json(model: Seq<char>, running: bool) -> JsonView {
    JsonView::Object(
        seq![
            ("model"@, if model.len() == 0 {
                JsonView::Null
            } else {
                JsonView::Str(model)
            }),
            ("server_running"@, JsonView::Bool(running)),
        ],
    )
}

/// The JSON report of `engine status`: the overall state and each runtime
/// under its name.
pub open spec fn spec_status_json(rs: Seq<RuntimeState>) -> JsonView {
    JsonView::Object(
        seq![
            ("state"@, JsonView::Str(spec_state_word(spec_overall_state(rs)))),
            (
                "runtimes"@,
                JsonView::Object(
                    Seq::new(rs.len(), |i: int| (rs[i].name@, runtime_json(rs[i].model@, rs[i].running))),
                ),
            ),
        ],
    )
}

/// The JSON report of `engine status`.
pub fn status_json(rs: &Vec<RuntimeState>) -> (r: JsonValue)
    ensures
        r@ == spec_status_json(rs@),
{
    let mut entries: Vec<(String, JsonValue)> = Vec::new();
    let mut i: usize = 0;
    while i < rs.len()
        invariant
            i <= rs.len(),
            entries@.len() == i,
            forall|j: int|
                0 <= j < i ==> (#[trigger] entries@[j]).0@ == rs@[j].name@ && entries@[j].1@ == runtime_json(
                    rs@[j].model@,
                    rs@[j].running,
                ),
        decreases rs.len() - i,
    {
        let model = if chars_of(rs[i].model.as_str()).len() == 0 {
            JsonValue::Null
        } else {
            JsonValue::Str(rs[i].model.clone())
        };
        let mut fields: Vec<(String, JsonValue)> = Vec::new();
        fields.push((String::from_str("model"), model));
        fields.push((String::from_str("server_running"), JsonValue::Bool(rs[i].running)));
        proof {
            lemma_members_view(fields@, 2);
            assert(members_view(fields@, 2) =~= seq![
                ("model"@, if rs@[i as int].model@.len() == 0 {
                    JsonView::Null
                } else {
                    JsonView::Str(rs@[i as int].model@)
                }),
                ("server_running"@, JsonView::Bool(rs@[i as int].running)),
            ]);
        }
        entries.push((rs[i].name.clone(), JsonValue::Object(fields)));
        i += 1;
    }
    proof {
        lemma_members_view(entries@, entries@.len() as int);
        assert(members_view(entries@, entries@.len() as int) =~= Seq::new(
            rs@.len(),
            |i: int| (rs@[i].name@, runtime_json(rs@[i].model@, rs@[i].running)),
        ));
    }
    let state = overall_state(rs);
    let mut top: Vec<(String, JsonValue)> = Vec::new();
    top.push((String::from_str("state"), JsonValue::Str(String::from_str(state_word(state)))));
    top.push((String::from_str("runtimes"), JsonValue::Object(entries)));
    proof {
        lemma_members_view(top@, 2);
        assert(members_view(top@, 2) =~= seq![
            ("state"@, JsonView::Str(spec_state_word(spec_overall_state(rs@)))),
            (
                "runtimes"@,
                JsonView::Object(
                    Seq::new(rs@.len(), |i: int| (rs@[i].name@, runtime_json(rs@[i].model@, rs@[i].running))),
                ),
            ),
        ]);
    }
    JsonValue::Object(top)
}

/// The id of a listed container as `engine status` reads it: as the
/// services commands do, the empty id when there is none.
pub open spec fn status_id(item: JsonView) -> Seq<char> {
    match raw_id(item) {
        Some(s) => s,
        None => Seq::empty(),
    }
}

/// Whether the first listed container with the id runs (its state, read
/// as the services commands read it, is `running` in any case); none when
/// no container has the id.
pub open spec fn spec_service_state(items: Seq<JsonValue>, id: Seq<char>) -> Option<bool>
    decreases items.len(),
{
    if items.len() == 0 {
        None
    } else if status_id(items[0]@) == id {
        Some(
            match raw_state(items[0]@) {
                Some(s) => is_running_state(s),
                None => false,
            },
        )
    } else {
        spec_service_state(items.drop_first(), id)
    }
}

/// Whether the services container `id` runs, as `engine status` reports
/// it.
pub fn service_state(items: &Vec<JsonValue>, id: &str) -> (r: Option<bool>)
    ensures
        r == spec_service_state(items@, id@),
{
    let mut i: usize = 0;
    assert(items@.skip(0) =~= items@);
    while i < items.len()
        invariant
            i <= items.len(),
            spec_service_state(items@, id@) == spec_service_state(items@.skip(i as int), id@),
        decreases items.len() - i,
    {
        assert(items@.skip(i as int)[0] == items@[i as int]);
        assert(items@.skip(i as int).drop_first() =~= items@.skip(i + 1));
        let it = &items[i];
        let item_id = match crate::containers::raw_item_id(it) {
            Some(s) => chars_of(s),
            None => Vec::new(),
        };
        if chars_eq(&item_id, &chars_of(id)) {
            let st = match it.get("status") {
                Some(v) => match v.get("state") {
                    Some(x) => x.as_str(),
                    None => None,
                },
                None => None,
            };
            let state = match st {
                Some(s) => Some(s),
                None => match it.get("state") {
                    Some(x) => x.as_str(),
                    None => None,
                },
            };
            return Some(
                match state {
                    Some(s) => running_state(s),
                    None => false,
                },
            );
        }
        i += 1;
    }
    None
}

/// A sandbox's name without the `muthr-` prefix.
pub open spec fn strip_muthr(name: Seq<char>) -> Seq<char> {
    if has_prefix(name, "muthr-"@) {
        name.skip(6)
    } else {
        name
    }
}

/// The rows of the sandbox section of `engine status`: the sorted rows of
/// the listed sandboxes, by name without the prefix, each name once (its
/// first row).
pub open spec fn status_rows_of(rows: Seq<(Seq<char>, Seq<char>, Seq<char>)>) -> Seq<(Seq<char>, Seq<char>)>
    decreases rows.len(),
{
    if rows.len() == 0 {
        Seq::empty()
    } else {
        let rest = status_rows_of(rows.drop_last());
        let t = strip_muthr(rows.last().0);
        if exists|i: int| 0 <= i < rest.len() && (#[trigger] rest[i]).0 == t {
            rest
        } else {
            rest.push((t, rows.last().1))
        }
    }
}

/// The sandbox rows of `engine status`.
pub fn status_rows(items: &Vec<ContainerListItem>) -> (r: Vec<(String, String)>)
    ensures
        crate::sandbox::pair_views(r@) == status_rows_of(sort_rows(listing_rows(items@))),
{
    let rows = sandbox_rows(items);
    let ghost rv = rows_view(rows@);
    let mut out: Vec<(String, String)> = Vec::new();
    let mut i: usize = 0;
    assert(rv.take(0) =~= Seq::<(Seq<char>, Seq<char>, Seq<char>)>::empty());
    while i < rows.len()
        invariant
            i <= rows.len(),
            rv == rows_view(rows@),
            crate::sandbox::pair_views(out@) == status_rows_of(rv.take(i as int)),
        decreases rows.len() - i,
    {
        assert(rv.take(i + 1).drop_last() =~= rv.take(i as int));
        assert(rv.take(i + 1).last() == crate::containers::row_view(rows@[i as int]));
        let name = chars_of(rows[i].name.as_str());
        let prefix = chars_of("muthr-");
        proof {
            reveal_strlit("muthr-");
        }
        let token = if starts_with(&name, &prefix) {
            let t = slice_chars(&name, 6, name.len());
            assert(name@.skip(6) =~= name@.subrange(6, name@.len() as int));
            t
        } else {
            name
        };
        let ghost rest = crate::sandbox::pair_views(out@);
        let mut seen = false;
        let mut j: usize = 0;
        while j < out.len()
            invariant
                j <= out.len(),
                rest == crate::sandbox::pair_views(out@),
                seen == exists|q: int| 0 <= q < j && (#[trigger] rest[q]).0 == token@,
            decreases out.len() - j,
        {
            assert(rest[j as int].0 == out@[j as int].0@);
            if chars_eq(&chars_of(out[j].0.as_str()), &token) {
                seen = true;
            }
            j += 1;
        }
        if !seen {
            out.push((string_from_chars(&token), rows[i].status.clone()));
            assert(crate::sandbox::pair_views(out@) =~= rest.push((token@, rows@[i as int].status@)));
        }
        i += 1;
    }
    assert(rv.take(rows.len() as int) =~= rv);
    out
}

/// The line of a sandbox in `engine status`: a branch of the tree (the
/// last one closes it), the name padded to 20 characters, the state.
pub open spec fn spec_tree_line(token: Seq<char>, status: Seq<char>, last: bool) -> Seq<char> {
    (if last {
        "    └─"@
    } else {
        "    ├─"@
    }) + " "@ + pad(token, 20) + " "@ + status
}

/// The line of a sandbox in `engine status`.
pub fn tree_line(token: &str, status: &str, last: bool) -> (r: String)
    ensures
        r@ == spec_tree_line(token@, status@, last),
{
    let mut s = String::from_str(if last {
        "    └─"
    } else {
        "    ├─"
    });
    s.append(" ");
    s.append(pad_text(token, 20).as_str());
    s.append(" ");
    s.append(status);
    s
}

/// The line of a sandbox in `sandbox ls`: its name padded to 30
/// characters, its state and its mount.
pub fn listing_line(row: &SandboxRow) -> (r: String)
    ensures
        r@ == "  "@ + pad(row.name@, 30) + " "@ + row.status@ + "  mount: "@ + row.mount@,
{
    let mut s = String::from_str("  ");
    s.append(pad_text(row.name.as_str(), 30).as_str());
    s.append(" ");
    s.append(row.status.as_str());
    s.append("  mount: ");
    s.append(row.mount.as_str());
    s
}

/// The JSON of a row of `sandbox ls`.
pub fn row_json(row: &SandboxRow) -> (r: JsonValue)
    ensures
        r@ == JsonView::Object(
            seq![
                ("name"@, JsonView::Str(row.name@)),
                ("status"@, JsonView::Str(row.status@)),
                ("mount"@, JsonView::Str(row.mount@)),
            ],
        ),
{
    let mut f: Vec<(String, JsonValue)> = Vec::new();
    f.push((String::from_str("name"), JsonValue::Str(row.name.clone())));
    f.push((String::from_str("status"), JsonValue::Str(row.status.clone())));
    f.push((String::from_str("mount"), JsonValue::Str(row.mount.clone())));
    proof {
        lemma_members_view(f@, 3);
        assert(members_view(f@, 3) =~= seq![
            ("name"@, JsonView::Str(row.name@)),
            ("status"@, JsonView::Str(row.status@)),
            ("mount"@, JsonView::Str(row.mount@)),
        ]);
    }
    JsonValue::Object(f)
}

/// The word for whether a container runs.
pub open spec fn run_word(running: bool) -> Seq<char> {
    if running {
        "running"@
    } else {
        "stopped"@
    }
}

/// The JSON report of `services status`: the services container's state
/// and the SearXNG container's (`null` when it does not exist).
pub fn services_json(running: bool, searxng: Option<bool>) -> (r: JsonValue)
    ensures
        r@ == JsonView::Object(
            seq![
                ("name"@, JsonView::Str("muthr-services"@)),
                ("status"@, JsonView::Str(run_word(running))),
                ("searxng"@, match searxng {
                    Some(s) => JsonView::Str(run_word(s)),
                    None => JsonView::Null,
                }),
            ],
        ),
{
    let mut f: Vec<(String, JsonValue)> = Vec::new();
    f.push((String::from_str("name"), JsonValue::Str(String::from_str("muthr-services"))));
    f.push((String::from_str("status"), JsonValue::Str(String::from_str(if running {
        "running"
    } else {
        "stopped"
    }))));
    let s = match searxng {
        Some(r) => JsonValue::Str(String::from_str(if r {
            "running"
        } else {
            "stopped"
        })),
        None => JsonValue::Null,
    };
    f.push((String::from_str("searxng"), s));
    proof {
        lemma_members_view(f@, 3);
        assert(members_view(f@, 3) =~= seq![
            ("name"@, JsonView::Str("muthr-services"@)),
            ("status"@, JsonView::Str(run_word(running))),
            ("searxng"@, match searxng {
                Some(s) => JsonView::Str(run_word(s)),
                None => JsonView::Null,
            }),
        ]);
    }
    JsonValue::Object(f)
}

} // verus!
