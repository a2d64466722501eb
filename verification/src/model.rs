//! The model that the inference server has loaded, read from its
//! `/v1/models` answer, and the model and context window a sandbox is
//! provisioned for.

use vstd::prelude::*;
use crate::json::{JsonValue, JsonView, jget, jget_opt, jstr_opt, jitems, ju64, items_view, lemma_items_view};
use crate::number::u64_to_string;
use crate::text::{chars_eq, chars_of, has_char, contains_char, string_from_chars, trim, trim_str};
use crate::workspace::{path_file_name, file_name};

verus! {

/// The state of a model as the server reports it.
#[derive(Debug, Clone)]
pub struct ModelStatus {
    pub value: String,
}

/// A model as the server lists it.
#[derive(Debug)]
pub struct ModelInfo {
    pub id: String,
    pub status: ModelStatus,
    pub meta: Option<JsonValue>,
}

/// The items of the answer's `data` array (none when it has none).
pub open spec fn data_items(json: JsonView) -> Seq<JsonView> {
    match jget(json, "data"@) {
        Some(d) => match jitems(d) {
            Some(xs) => xs,
            None => Seq::empty(),
        },
        None => Seq::empty(),
    }
}

/// An item of a loaded model: it has an `id` and a `status` whose `value`
/// is the string `loaded`.
pub open spec fn is_loaded(item: JsonView) -> bool {
    &&& jget(item, "id"@) is Some
    &&& jget(item, "status"@) is Some
    &&& jstr_opt(jget_opt(jget(item, "status"@), "value"@)) == Some("loaded"@)
}

/// The first item of a loaded model.
pub open spec fn first_loaded(xs: Seq<JsonView>) -> Option<JsonView>
    decreases xs.len(),
{
    if xs.len() == 0 {
        None
    } else if is_loaded(xs[0]) {
        Some(xs[0])
    } else {
        first_loaded(xs.drop_first())
    }
}

/// The id the server gives for its loaded model: the first loaded item's
/// `id`, or the empty string when that is no string; none when no model is
/// loaded.
pub open spec fn spec_loaded_model(json: JsonView) -> Option<Seq<char>> {
    match first_loaded(data_items(json)) {
        Some(it) => Some(
            match jstr_opt(jget(it, "id"@)) {
                Some(s) => s,
                None => Seq::empty(),
            },
        ),
        None => None,
    }
}

/// The context size an item reports: its `meta.n_ctx` as an unsigned
/// number.
pub open spec fn item_n_ctx(item: JsonView) -> Option<nat> {
    match jget_opt(jget(item, "meta"@), "n_ctx"@) {
        Some(v) => ju64(v),
        None => None,
    }
}

/// The context window of the loaded model: that of the first loaded item
/// that reports one, cut to 32 bits; 16000 when none does.
pub open spec fn ctx_from(xs: Seq<JsonView>) -> nat
    decreases xs.len(),
{
    if xs.len() == 0 {
        16000
    } else if is_loaded(xs[0]) && item_n_ctx(xs[0]) is Some {
        item_n_ctx(xs[0]).unwrap() % 0x1_0000_0000
    } else {
        ctx_from(xs.drop_first())
    }
}

fn data_of(json: &JsonValue) -> (r: Option<&Vec<JsonValue>>)
    ensures
        match r {
            Some(xs) => data_items(json@) == items_view(xs@, xs@.len() as int),
            None => data_items(json@) == Seq::<JsonView>::empty(),
        },
{
    match json.get("data") {
        Some(d) => d.as_array(),
        None => None,
    }
}

fn loaded(item: &JsonValue) -> (r: bool)
    ensures
        r == is_loaded(item@),
{
    match (item.get("id"), item.get("status")) {
        (Some(_), Some(status)) => match status.get("value") {
            Some(v) => match v.as_str() {
                Some(s) => chars_eq(&chars_of(s), &chars_of("loaded")),
                None => false,
            },
            None => false,
        },
        _ => false,
    }
}

fn n_ctx(item: &JsonValue) -> (r: Option<u64>)
    ensures
        match r {
            Some(n) => item_n_ctx(item@) == Some(n as nat),
            None => item_n_ctx(item@) is None,
        },
{
    match item.get("meta") {
        Some(m) => match m.get("n_ctx") {
            Some(v) => v.as_u64(),
            None => None,
        },
        None => None,
    }
}

/// The id of the model the server has loaded, from its `/v1/models`
/// answer.
pub fn loaded_model(json: &JsonValue) -> (r: Option<String>)
    ensures
        match r {
            Some(s) => spec_loaded_model(json@) == Some(s@),
            None => spec_loaded_model(json@) is None,
        },
{
    let xs = match data_of(json) {
        Some(xs) => xs,
        None => return None,
    };
    proof {
        lemma_items_view(xs@, xs@.len() as int);
    }
    let ghost vs = items_view(xs@, xs@.len() as int);
    let mut i: usize = 0;
    assert(vs.skip(0) =~= vs);
    while i < xs.len()
        invariant
            i <= xs.len(),
            vs == data_items(json@),
            vs.len() == xs.len(),
            forall|j: int| 0 <= j < xs.len() ==> #[trigger] vs[j] == xs@[j]@,
            first_loaded(vs) == first_loaded(vs.skip(i as int)),
        decreases xs.len() - i,
    {
        assert(vs.skip(i as int)[0] == vs[i as int]);
        assert(vs.skip(i as int).drop_first() =~= vs.skip(i + 1));
        if loaded(&xs[i]) {
            let id = match xs[i].get("id") {
                Some(v) => match v.as_str() {
                    Some(s) => String::from_str(s),
                    None => String::new(),
                },
                None => String::new(),
            };
            return Some(id);
        }
        i += 1;
    }
    None
}

/// The context window of the model the server has loaded, from its
/// `/v1/models` answer.
pub fn loaded_ctx_window(json: &JsonValue) -> (r: u32)
    ensures
        r as nat == ctx_from(data_items(json@)),
{
    let xs = match data_of(json) {
        Some(xs) => xs,
        None => return 16000,
    };
    proof {
        lemma_items_view(xs@, xs@.len() as int);
    }
    let ghost vs = items_view(xs@, xs@.len() as int);
    let mut i: usize = 0;
    assert(vs.skip(0) =~= vs);
    while i < xs.len()
        invariant
            i <= xs.len(),
            vs == data_items(json@),
            vs.len() == xs.len(),
            forall|j: int| 0 <= j < xs.len() ==> #[trigger] vs[j] == xs@[j]@,
            ctx_from(vs) == ctx_from(vs.skip(i as int)),
        decreases xs.len() - i,
    {
        assert(vs.skip(i as int)[0] == vs[i as int]);
        assert(vs.skip(i as int).drop_first() =~= vs.skip(i + 1));
        if loaded(&xs[i]) {
            if let Some(n) = n_ctx(&xs[i]) {
                let cut: u32 = (n % 0x1_0000_0000) as u32;
                return cut;
            }
        }
        i += 1;
    }
    16000
}

/// The query for the loaded model's id.
pub open spec fn id_query() -> Seq<char> {
    ".data[] | select(.status.value == \"loaded\") | .id"@
}

/// The query for the loaded model's context size.
pub open spec fn ctx_query() -> Seq<char> {
    ".data[] | select(.status.value == \"loaded\") | .meta.n_ctx"@
}

/// What a query of the `/v1/models` answer gives: at the first loaded
/// item, its id (or the empty string) for the id query, its context size
/// in decimal (or `16000`) for the context query; any other query passes
/// over it. The empty string when no item answers.
pub open spec fn spec_extract_field(xs: Seq<JsonView>, field: Seq<char>) -> Seq<char>
    decreases xs.len(),
{
    if xs.len() == 0 {
        Seq::empty()
    } else if is_loaded(xs[0]) && field == id_query() {
        match jstr_opt(jget(xs[0], "id"@)) {
            Some(s) => s,
            None => Seq::empty(),
        }
    } else if is_loaded(xs[0]) && field == ctx_query() {
        match item_n_ctx(xs[0]) {
            Some(n) => crate::number::decimal(n),
            None => "16000"@,
        }
    } else {
        spec_extract_field(xs.drop_first(), field)
    }
}

/// Answers one of the two queries of the `/v1/models` answer.
pub fn extract_field(json: &JsonValue, field: &str) -> (r: String)
    ensures
        r@ == spec_extract_field(data_items(json@), field@),
{
    let xs = match data_of(json) {
        Some(xs) => xs,
        None => return String::new(),
    };
    proof {
        lemma_items_view(xs@, xs@.len() as int);
    }
    let f = chars_of(field);
    let is_id = chars_eq(&f, &chars_of(".data[] | select(.status.value == \"loaded\") | .id"));
    let is_ctx = chars_eq(&f, &chars_of(".data[] | select(.status.value == \"loaded\") | .meta.n_ctx"));
    let ghost vs = items_view(xs@, xs@.len() as int);
    let mut i: usize = 0;
    assert(vs.skip(0) =~= vs);
    while i < xs.len()
        invariant
            i <= xs.len(),
            vs == data_items(json@),
            vs.len() == xs.len(),
            forall|j: int| 0 <= j < xs.len() ==> #[trigger] vs[j] == xs@[j]@,
            spec_extract_field(vs, field@) == spec_extract_field(vs.skip(i as int), field@),
            is_id == (field@ == id_query()),
            is_ctx == (field@ == ctx_query()),
        decreases xs.len() - i,
    {
        assert(vs.skip(i as int)[0] == vs[i as int]);
        assert(vs.skip(i as int).drop_first() =~= vs.skip(i + 1));
        if loaded(&xs[i]) {
            if is_id {
                return match xs[i].get("id") {
                    Some(v) => match v.as_str() {
                        Some(s) => String::from_str(s),
                        None => String::new(),
                    },
                    None => String::new(),
                };
            }
            if is_ctx {
                return match n_ctx(&xs[i]) {
                    Some(n) => u64_to_string(n),
                    None => String::from_str("16000"),
                };
            }
        }
        i += 1;
    }
    String::new()
}

/// A model name a sandbox can take: a path's file name when the name
/// holds `/` or `\`, else the name itself.
pub open spec fn spec_model_leaf(name: Seq<char>) -> Seq<char> {
    if has_char(name, '/') || has_char(name, '\\') {
        match path_file_name(name) {
            Some(f) => f,
            None => name,
        }
    } else {
        name
    }
}

/// The model a sandbox is provisioned for: the one the server reports
/// (`polled`), reduced to its file name; when the server reports none, or
/// it reduces to a blank name, the model recorded as active (`recorded`,
/// trimmed, if not blank), else the configured default profile (if not
/// blank), else the runtime's default model.
pub open spec fn spec_active_model(
    configured: Option<Seq<char>>,
    runtime_default: Seq<char>,
    recorded: Option<Seq<char>>,
    polled: Option<Seq<char>>,
) -> Seq<char> {
    let default_model = match configured {
        Some(c) => if trim(c).len() > 0 {
            c
        } else {
            runtime_default
        },
        None => runtime_default,
    };
    let fallback = match recorded {
        Some(r) => if trim(r).len() > 0 {
            trim(r)
        } else {
            default_model
        },
        None => default_model,
    };
    let parsed = match polled {
        Some(p) => p,
        None => fallback,
    };
    let leaf = spec_model_leaf(parsed);
    if trim(leaf).len() == 0 {
        fallback
    } else {
        leaf
    }
}

/// Chooses the model a sandbox is provisioned for.
pub fn active_model(
    configured: Option<&str>,
    runtime_default: &str,
    recorded: Option<&str>,
    polled: Option<&str>,
) -> (r: String)
    ensures
        r@ == spec_active_model(
            match configured {
                Some(c) => Some(c@),
                None => None,
            },
            runtime_default@,
            match recorded {
                Some(c) => Some(c@),
                None => None,
            },
            match polled {
                Some(c) => Some(c@),
                None => None,
            },
        ),
{
    let default_model: String = match configured {
        Some(c) => if trim_str(c).len() > 0 {
            String::from_str(c)
        } else {
            String::from_str(runtime_default)
        },
        None => String::from_str(runtime_default),
    };
    let fallback: String = match recorded {
        Some(r) => {
            let t = trim_str(r);
            if t.len() > 0 {
                string_from_chars(&t)
            } else {
                default_model
            }
        },
        None => default_model,
    };
    let parsed: String = match polled {
        Some(p) => String::from_str(p),
        None => fallback.clone(),
    };
    let pc = chars_of(parsed.as_str());
    let leaf: String = if contains_char(&pc, '/') || contains_char(&pc, '\\') {
        match file_name(parsed.as_str()) {
            Some(f) => f,
            None => parsed,
        }
    } else {
        parsed
    };
    if trim_str(leaf.as_str()).len() == 0 {
        fallback
    } else {
        leaf
    }
}

/// The context window a sandbox is provisioned for: the model's, but at
/// least 131072 (which it is when the server reports none).
pub open spec fn spec_provision_ctx(model_ctx: Option<u32>) -> u32 {
    let c = match model_ctx {
        Some(c) => c,
        None => 131072,
    };
    if c > 131072 {
        c
    } else {
        131072
    }
}

/// Chooses the context window a sandbox is provisioned for.
pub fn provision_ctx(model_ctx: Option<u32>) -> (r: u32)
    ensures
        r == spec_provision_ctx(model_ctx),
{
    let c = match model_ctx {
        Some(c) => c,
        None => 131072,
    };
    if c > 131072 {
        c
    } else {
        131072
    }
}

} // verus!
