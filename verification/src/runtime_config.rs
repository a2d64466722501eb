//! The opencode configuration a sandbox runs with: the template's
//! placeholders filled in, and the model, agents and the `llama-cpp`
//! provider pointed at the preset's primary model.

use vstd::prelude::*;
use crate::json::{
    JsonValue, JsonView, json_view, items_view, members_view, member, lemma_items_view, lemma_members_view,
};
use crate::number::{decimal, u64_to_string};
use crate::preset::Preset;
use crate::sandbox::pair_views;
use crate::text::{chars_eq, chars_of, matches_at, push_all, string_from_chars};

verus! {

/// `str::replace` with a non-empty pattern: every occurrence of `p`, read
/// from the left without overlaps, replaced by `t`.
pub open spec fn replace_all(s: Seq<char>, p: Seq<char>, t: Seq<char>) -> Seq<char>
    decreases s.len(),
{
    if p.len() == 0 || s.len() < p.len() {
        s
    } else if s.take(p.len() as int) == p {
        t + replace_all(s.skip(p.len() as int), p, t)
    } else {
        seq![s[0]] + replace_all(s.drop_first(), p, t)
    }
}

/// Each replacement applied in turn.
pub open spec fn replace_each(s: Seq<char>, reps: Seq<(Seq<char>, Seq<char>)>) -> Seq<char>
    decreases reps.len(),
{
    if reps.len() == 0 {
        s
    } else {
        replace_all(replace_each(s, reps.drop_last()), reps.last().0, reps.last().1)
    }
}

/// Replaces every occurrence of `p` in `s` by `t`.
pub fn replace_str(s: &Vec<char>, p: &Vec<char>, t: &Vec<char>) -> (r: Vec<char>)
    requires
        p.len() > 0,
    ensures
        r@ == replace_all(s@, p@, t@),
{
    let mut out: Vec<char> = Vec::new();
    let mut i: usize = 0;
    assert(s@.skip(0) =~= s@);
    while i < s.len()
        invariant
            i <= s.len(),
            p.len() > 0,
            out@ + replace_all(s@.skip(i as int), p@, t@) == replace_all(s@, p@, t@),
        decreases s.len() - i,
    {
        let ghost rest = s@.skip(i as int);
        if p.len() <= s.len() - i && matches_at(s, i, p) {
            assert(rest.take(p.len() as int) =~= s@.subrange(i as int, i + p.len()));
            assert(rest.skip(p.len() as int) =~= s@.skip(i + p.len()));
            push_all(&mut out, t);
            i += p.len();
            assert(out@ + replace_all(s@.skip(i as int), p@, t@) =~= replace_all(s@, p@, t@));
        } else {
            proof {
                if rest.len() >= p.len() {
                    assert(rest.take(p.len() as int) =~= s@.subrange(i as int, i + p.len()));
                }
            }
            assert(rest.drop_first() =~= s@.skip(i + 1));
            assert(rest[0] == s@[i as int]);
            let ghost before = out@;
            out.push(s[i]);
            i += 1;
            assert(out@ + replace_all(s@.skip(i as int), p@, t@) =~= before + (seq![rest[0]] + replace_all(
                rest.drop_first(),
                p@,
                t@,
            )));
        }
    }
    assert(replace_all(s@.skip(i as int), p@, t@) =~= Seq::<char>::empty()) by {
        assert(s@.skip(i as int) =~= Seq::<char>::empty());
    }
    assert(out@ + Seq::<char>::empty() =~= out@);
    out
}

/// A JSON value with the replacements applied to every string in it (not
/// to keys).
pub open spec fn json_replace(v: JsonView, reps: Seq<(Seq<char>, Seq<char>)>) -> JsonView
    decreases v, 0int,
{
    match v {
        JsonView::Str(s) => JsonView::Str(replace_each(s, reps)),
        JsonView::Array(xs) => JsonView::Array(replace_items(xs, xs.len() as int, reps)),
        JsonView::Object(ms) => JsonView::Object(replace_members(ms, ms.len() as int, reps)),
        _ => v,
    }
}

/// The first `n` items with the replacements applied.
pub open spec fn replace_items(xs: Seq<JsonView>, n: int, reps: Seq<(Seq<char>, Seq<char>)>) -> Seq<JsonView>
    decreases xs, n,
{
    if n <= 0 || n > xs.len() {
        Seq::empty()
    } else {
        replace_items(xs, n - 1, reps).push(json_replace(xs[n - 1], reps))
    }
}

/// The first `n` members with the replacements applied to their values.
pub open spec fn replace_members(ms: Seq<(Seq<char>, JsonView)>, n: int, reps: Seq<(Seq<char>, Seq<char>)>) -> Seq<
    (Seq<char>, JsonView),
>
    decreases ms, n,
{
    if n <= 0 || n > ms.len() {
        Seq::empty()
    } else {
        replace_members(ms, n - 1, reps).push((ms[n - 1].0, json_replace(ms[n - 1].1, reps)))
    }
}

proof fn lemma_replace_items(xs: Seq<JsonView>, n: int, reps: Seq<(Seq<char>, Seq<char>)>)
    requires
        0 <= n <= xs.len(),
    ensures
        replace_items(xs, n, reps).len() == n,
        forall|i: int| 0 <= i < n ==> #[trigger] replace_items(xs, n, reps)[i] == json_replace(xs[i], reps),
    decreases n,
{
    if n > 0 {
        lemma_replace_items(xs, n - 1, reps);
        assert forall|i: int| 0 <= i < n implies #[trigger] replace_items(xs, n, reps)[i] == json_replace(
            xs[i],
            reps,
        ) by {
            if i < n - 1 {
                assert(replace_items(xs, n, reps)[i] == replace_items(xs, n - 1, reps)[i]);
            }
        }
    }
}

proof fn lemma_replace_members(ms: Seq<(Seq<char>, JsonView)>, n: int, reps: Seq<(Seq<char>, Seq<char>)>)
    requires
        0 <= n <= ms.len(),
    ensures
        replace_members(ms, n, reps).len() == n,
        forall|i: int|
            0 <= i < n ==> #[trigger] replace_members(ms, n, reps)[i] == (ms[i].0, json_replace(ms[i].1, reps)),
    decreases n,
{
    if n > 0 {
        lemma_replace_members(ms, n - 1, reps);
        assert forall|i: int| 0 <= i < n implies #[trigger] replace_members(ms, n, reps)[i] == (
            ms[i].0,
            json_replace(ms[i].1, reps),
        ) by {
            if i < n - 1 {
                assert(replace_members(ms, n, reps)[i] == replace_members(ms, n - 1, reps)[i]);
            }
        }
    }
}

/// Patterns that are not empty.
pub open spec fn nonempty_patterns(reps: Seq<(Seq<char>, Seq<char>)>) -> bool {
    forall|i: int| 0 <= i < reps.len() ==> (#[trigger] reps[i]).0.len() > 0
}

fn replace_each_exec(s: &str, reps: &Vec<(String, String)>) -> (r: String)
    requires
        nonempty_patterns(pair_views(reps@)),
    ensures
        r@ == replace_each(s@, pair_views(reps@)),
{
    let mut cur = chars_of(s);
    let mut i: usize = 0;
    assert(pair_views(reps@).take(0) =~= Seq::<(Seq<char>, Seq<char>)>::empty());
    while i < reps.len()
        invariant
            i <= reps.len(),
            nonempty_patterns(pair_views(reps@)),
            cur@ == replace_each(s@, pair_views(reps@).take(i as int)),
        decreases reps.len() - i,
    {
        assert(pair_views(reps@).take(i + 1).drop_last() =~= pair_views(reps@).take(i as int));
        assert(pair_views(reps@).take(i + 1).last() == pair_views(reps@)[i as int]);
        assert(pair_views(reps@)[i as int].0.len() > 0);
        let p = chars_of(reps[i].0.as_str());
        let t = chars_of(reps[i].1.as_str());
        cur = replace_str(&cur, &p, &t);
        i += 1;
    }
    assert(pair_views(reps@).take(reps.len() as int) =~= pair_views(reps@));
    string_from_chars(&cur)
}

/// The value with the replacements applied to every string in it.
#[verifier::loop_isolation(false)]
pub fn replace_placeholders(v: &JsonValue, reps: &Vec<(String, String)>) -> (r: JsonValue)
    requires
        nonempty_patterns(pair_views(reps@)),
    ensures
        r@ == json_replace(v@, pair_views(reps@)),
    decreases v,
{
    match v {
        JsonValue::Null => JsonValue::Null,
        JsonValue::Bool(b) => JsonValue::Bool(*b),
        JsonValue::Number(n) => JsonValue::Number(n.clone()),
        JsonValue::Str(s) => JsonValue::Str(replace_each_exec(s.as_str(), reps)),
        JsonValue::Array(xs) => {
            let mut out: Vec<JsonValue> = Vec::new();
            let mut i: usize = 0;
            while i < xs.len()
                invariant
                    i <= xs.len(),
                    out@.len() == i,
                    nonempty_patterns(pair_views(reps@)),
                    forall|j: int| 0 <= j < i ==> #[trigger] json_view(out@[j]) == json_replace(json_view(xs@[j]), pair_views(reps@)),
                decreases xs.len() - i,
            {
                let c = replace_placeholders(&xs[i], reps);
                out.push(c);
                i += 1;
            }
            proof {
                lemma_items_view(out@, out@.len() as int);
                lemma_items_view(xs@, xs@.len() as int);
                let ix = items_view(xs@, xs@.len() as int);
                lemma_replace_items(ix, ix.len() as int, pair_views(reps@));
                assert(items_view(out@, out@.len() as int) =~= replace_items(ix, ix.len() as int, pair_views(reps@)));
            }
            JsonValue::Array(out)
        },
        JsonValue::Object(es) => {
            let mut out: Vec<(String, JsonValue)> = Vec::new();
            let mut i: usize = 0;
            while i < es.len()
                invariant
                    i <= es.len(),
                    out@.len() == i,
                    nonempty_patterns(pair_views(reps@)),
                    forall|j: int|
                        0 <= j < i ==> (#[trigger] out@[j]).0@ == es@[j].0@ && json_view(out@[j].1) == json_replace(
                            json_view(es@[j].1),
                            pair_views(reps@),
                        ),
                decreases es.len() - i,
            {
                let c = replace_placeholders(&es[i].1, reps);
                out.push((es[i].0.clone(), c));
                i += 1;
            }
            proof {
                lemma_members_view(out@, out@.len() as int);
                lemma_members_view(es@, es@.len() as int);
                let mv = members_view(es@, es@.len() as int);
                lemma_replace_members(mv, mv.len() as int, pair_views(reps@));
                assert(members_view(out@, out@.len() as int) =~= replace_members(
                    mv,
                    mv.len() as int,
                    pair_views(reps@),
                ));
            }
            JsonValue::Object(out)
        },
    }
}

/// The index of the first member with `key`.
pub open spec fn member_index(ms: Seq<(Seq<char>, JsonView)>, key: Seq<char>) -> Option<int>
    decreases ms.len(),
{
    if ms.len() == 0 {
        None
    } else if ms[0].0 == key {
        Some(0)
    } else {
        match member_index(ms.drop_first(), key) {
            Some(i) => Some(i + 1),
            None => None,
        }
    }
}

/// The first member with a key is where `member_index` says, and
/// `member` gives its value.
pub proof fn lemma_member_index(ms: Seq<(Seq<char>, JsonView)>, key: Seq<char>)
    ensures
        match member_index(ms, key) {
            Some(i) => 0 <= i < ms.len() && ms[i].0 == key && (forall|j: int| 0 <= j < i ==> (#[trigger] ms[j]).0 != key)
                && member(ms, key) == Some(ms[i].1),
            None => (forall|j: int| 0 <= j < ms.len() ==> (#[trigger] ms[j]).0 != key) && member(ms, key) is None,
        },
    decreases ms.len(),
{
    if ms.len() > 0 && ms[0].0 != key {
        let t = ms.drop_first();
        lemma_member_index(t, key);
        match member_index(t, key) {
            Some(i) => {
                assert forall|j: int| 0 <= j < i + 1 implies (#[trigger] ms[j]).0 != key by {
                    if j > 0 {
                        assert(ms[j] == t[j - 1]);
                    }
                }
            },
            None => {
                assert forall|j: int| 0 <= j < ms.len() implies (#[trigger] ms[j]).0 != key by {
                    if j > 0 {
                        assert(ms[j] == t[j - 1]);
                    }
                }
            },
        }
    }
}

/// `Map::insert` on an object's members: the value of the member with
/// `key` replaced in place, or a new member at the end.
pub open spec fn minsert(ms: Seq<(Seq<char>, JsonView)>, key: Seq<char>, v: JsonView) -> Seq<(Seq<char>, JsonView)> {
    match member_index(ms, key) {
        Some(i) => ms.update(i, (key, v)),
        None => ms.push((key, v)),
    }
}

fn member_pos(es: &Vec<(String, JsonValue)>, key: &str) -> (r: Option<usize>)
    ensures
        match r {
            Some(i) => member_index(members_view(es@, es@.len() as int), key@) == Some(i as int) && i < es.len(),
            None => member_index(members_view(es@, es@.len() as int), key@) is None,
        },
{
    proof {
        lemma_members_view(es@, es@.len() as int);
        lemma_member_index(members_view(es@, es@.len() as int), key@);
    }
    let ghost ms = members_view(es@, es@.len() as int);
    let k = chars_of(key);
    let mut i: usize = 0;
    while i < es.len()
        invariant
            i <= es.len(),
            ms == members_view(es@, es@.len() as int),
            ms.len() == es.len(),
            forall|j: int| 0 <= j < es.len() ==> #[trigger] ms[j] == (es@[j].0@, json_view(es@[j].1)),
            forall|j: int| 0 <= j < i ==> (#[trigger] ms[j]).0 != key@,
            k@ == key@,
            match member_index(ms, key@) {
                Some(x) => 0 <= x < ms.len() && ms[x].0 == key@ && (forall|j: int|
                    0 <= j < x ==> (#[trigger] ms[j]).0 != key@),
                None => forall|j: int| 0 <= j < ms.len() ==> (#[trigger] ms[j]).0 != key@,
            },
        decreases es.len() - i,
    {
        if chars_eq(&chars_of(es[i].0.as_str()), &k) {
            proof {
                assert(ms[i as int].0 == key@);
                match member_index(ms, key@) {
                    Some(x) => {
                        if x < i as int {
                        } else if x > i as int {
                            assert(ms[i as int].0 != key@);
                        }
                    },
                    None => {
                        assert(ms[i as int].0 != key@);
                    },
                }
            }
            return Some(i);
        }
        i += 1;
    }
    None
}

proof fn lemma_members_update(es: Seq<(String, JsonValue)>, i: int, x: (String, JsonValue))
    requires
        0 <= i < es.len(),
    ensures
        members_view(es.update(i, x), es.len() as int) == members_view(es, es.len() as int).update(
            i,
            (x.0@, json_view(x.1)),
        ),
{
    lemma_members_view(es, es.len() as int);
    lemma_members_view(es.update(i, x), es.len() as int);
    assert(members_view(es.update(i, x), es.len() as int) =~= members_view(es, es.len() as int).update(
        i,
        (x.0@, json_view(x.1)),
    ));
}

proof fn lemma_members_push(es: Seq<(String, JsonValue)>, x: (String, JsonValue))
    ensures
        members_view(es.push(x), es.len() + 1int) == members_view(es, es.len() as int).push((x.0@, json_view(x.1))),
{
    lemma_members_view(es, es.len() as int);
    lemma_members_view(es.push(x), es.len() + 1int);
    assert(members_view(es.push(x), es.len() + 1int) =~= members_view(es, es.len() as int).push(
        (x.0@, json_view(x.1)),
    ));
}

/// Sets the member `key` of an object's members to `v`.
pub fn obj_insert(es: &mut Vec<(String, JsonValue)>, key: &str, v: JsonValue)
    ensures
        members_view(final(es)@, final(es)@.len() as int) == minsert(
            members_view(old(es)@, old(es)@.len() as int),
            key@,
            v@,
        ),
{
    let ghost s = es@;
    match member_pos(es, key) {
        Some(i) => {
            let _old = es.remove(i);
            es.insert(i, (String::from_str(key), v));
            proof {
                assert(es@ =~= s.update(i as int, es@[i as int]));
                lemma_members_update(s, i as int, es@[i as int]);
            }
        },
        None => {
            es.push((String::from_str(key), v));
            proof {
                assert(es@ =~= s.push(es@[s.len() as int]));
                lemma_members_push(s, es@[s.len() as int]);
            }
        },
    }
}

/// The reference opencode gives a model of the `llama-cpp` provider.
pub open spec fn model_ref(id: Seq<char>) -> Seq<char> {
    "llama-cpp/"@ + id
}

/// An agent's configuration with its model set, when it is an object.
pub open spec fn with_model(cfg: JsonView, id: Seq<char>) -> JsonView {
    match cfg {
        JsonView::Object(o) => JsonView::Object(minsert(o, "model"@, JsonView::Str(model_ref(id)))),
        _ => cfg,
    }
}

/// Every agent's configuration with its model set.
pub open spec fn agents_with_model(ag: Seq<(Seq<char>, JsonView)>, id: Seq<char>) -> Seq<(Seq<char>, JsonView)> {
    Seq::new(ag.len(), |i: int| (ag[i].0, with_model(ag[i].1, id)))
}

/// The `options` of the `llama-cpp` provider: its base URL on the host.
pub open spec fn provider_options(port: u16) -> JsonView {
    JsonView::Object(seq![("baseURL"@, JsonView::Str("http://host.lima.internal:"@ + decimal(port as nat) + "/v1"@))])
}

/// The `models` of the `llama-cpp` provider: the model, with tools and its
/// context window, and an output limit of 8192.
pub open spec fn provider_models(id: Seq<char>, ctx: u32) -> JsonView {
    JsonView::Object(
        seq![
            (
                id,
                JsonView::Object(
                    seq![
                        ("name"@, JsonView::Str(id)),
                        ("tools"@, JsonView::Bool(true)),
                        ("context_window"@, JsonView::Number(decimal(ctx as nat))),
                        (
                            "limit"@,
                            JsonView::Object(
                                seq![
                                    ("context"@, JsonView::Number(decimal(ctx as nat))),
                                    ("output"@, JsonView::Number("8192"@)),
                                ],
                            ),
                        ),
                    ],
                ),
            ),
        ],
    )
}

/// The `llama-cpp` provider's configuration pointed at the model.
pub open spec fn point_provider(po: Seq<(Seq<char>, JsonView)>, id: Seq<char>, ctx: u32, port: u16) -> Seq<
    (Seq<char>, JsonView),
> {
    minsert(minsert(po, "options"@, provider_options(port)), "models"@, provider_models(id, ctx))
}

/// A configuration object pointed at the model: `model` and `small_model`,
/// the model of every agent, and the `llama-cpp` provider.
pub open spec fn point_config(ms: Seq<(Seq<char>, JsonView)>, id: Seq<char>, ctx: u32, port: u16) -> Seq<
    (Seq<char>, JsonView),
> {
    let m1 = minsert(minsert(ms, "model"@, JsonView::Str(model_ref(id))), "small_model"@, JsonView::Str(model_ref(id)));
    let m2 = match member(m1, "agent"@) {
        Some(JsonView::Object(ag)) => minsert(m1, "agent"@, JsonView::Object(agents_with_model(ag, id))),
        _ => m1,
    };
    match member(m2, "provider"@) {
        Some(JsonView::Object(pv)) => match member(pv, "llama-cpp"@) {
            Some(JsonView::Object(po)) => minsert(
                m2,
                "provider"@,
                JsonView::Object(minsert(pv, "llama-cpp"@, JsonView::Object(point_provider(po, id, ctx, port)))),
            ),
            _ => m2,
        },
        _ => m2,
    }
}

/// The placeholders of the template and what fills them.
pub open spec fn placeholders(id: Seq<char>, ctx: u32, port: u16, mount: Seq<char>) -> Seq<(Seq<char>, Seq<char>)> {
    seq![
        ("__CTX_WINDOW__"@, decimal(ctx as nat)),
        ("__DEFAULT_MODEL__"@, id),
        ("__LLAMA_PORT__"@, decimal(port as nat)),
        ("__INJECTED_MOUNT_POINT__"@, mount),
    ]
}

/// The runtime configuration made from the template: the placeholders
/// filled in everywhere; then, when it is an object, pointed at the model.
pub open spec fn spec_runtime_config(config: JsonView, id: Seq<char>, ctx: u32, port: u16, mount: Seq<char>) -> JsonView {
    match json_replace(config, placeholders(id, ctx, port, mount)) {
        JsonView::Object(ms) => JsonView::Object(point_config(ms, id, ctx, port)),
        other => other,
    }
}

fn model_ref_exec(id: &str) -> (r: String)
    ensures
        r@ == model_ref(id@),
{
    let mut s = String::from_str("llama-cpp/");
    s.append(id);
    s
}

/// Takes the value of the member at `i` out, leaving `null` in its place.
fn take_value(es: &mut Vec<(String, JsonValue)>, i: usize) -> (r: JsonValue)
    requires
        i < old(es)@.len(),
    ensures
        r == old(es)@[i as int].1,
        final(es)@ == old(es)@.update(i as int, (old(es)@[i as int].0, JsonValue::Null)),
{
    let ghost s = es@;
    let (k, v) = es.remove(i);
    es.insert(i, (k, JsonValue::Null));
    assert(es@ =~= s.update(i as int, (s[i as int].0, JsonValue::Null)));
    v
}

/// Puts a value into the member at `i`.
fn put_value(es: &mut Vec<(String, JsonValue)>, i: usize, v: JsonValue)
    requires
        i < old(es)@.len(),
    ensures
        final(es)@ == old(es)@.update(i as int, (old(es)@[i as int].0, v)),
{
    let ghost s = es@;
    let (k, _) = es.remove(i);
    es.insert(i, (k, v));
    assert(es@ =~= s.update(i as int, (s[i as int].0, v)));
}

/// The member at `i` with its value mapped: the members' values change
/// there only.
proof fn lemma_value_replaced(before: Seq<(String, JsonValue)>, i: int, v: JsonValue)
    requires
        0 <= i < before.len(),
    ensures
        members_view(before.update(i, (before[i].0, v)), before.len() as int) == members_view(
            before,
            before.len() as int,
        ).update(i, (members_view(before, before.len() as int)[i].0, json_view(v))),
{
    lemma_members_view(before, before.len() as int);
    lemma_members_update(before, i, (before[i].0, v));
}

fn with_model_exec(v: JsonValue, id: &str) -> (r: JsonValue)
    ensures
        r@ == with_model(v@, id@),
{
    match v {
        JsonValue::Object(mut o) => {
            obj_insert(&mut o, "model", JsonValue::Str(model_ref_exec(id)));
            JsonValue::Object(o)
        },
        other => other,
    }
}

fn agents_with_model_exec(ag: &mut Vec<(String, JsonValue)>, id: &str)
    ensures
        members_view(final(ag)@, final(ag)@.len() as int) == agents_with_model(
            members_view(old(ag)@, old(ag)@.len() as int),
            id@,
        ),
{
    let ghost s = members_view(ag@, ag@.len() as int);
    proof {
        lemma_members_view(ag@, ag@.len() as int);
    }
    let mut i: usize = 0;
    while i < ag.len()
        invariant
            i <= ag.len(),
            s.len() == ag.len(),
            forall|j: int|
                0 <= j < i ==> (#[trigger] ag@[j]).0@ == s[j].0 && json_view(ag@[j].1) == with_model(s[j].1, id@),
            forall|j: int| i <= j < ag.len() ==> (#[trigger] ag@[j]).0@ == s[j].0 && json_view(ag@[j].1) == s[j].1,
        decreases ag.len() - i,
    {
        let ghost before = ag@;
        let v = take_value(ag, i);
        let nv = with_model_exec(v, id);
        put_value(ag, i, nv);
        assert(ag@ == before.update(i as int, (before[i as int].0, nv)));
        i += 1;
    }
    proof {
        lemma_members_view(ag@, ag@.len() as int);
    }
    assert(members_view(ag@, ag@.len() as int) =~= agents_with_model(s, id@));
}

fn with_agents_exec(v: JsonValue, id: &str) -> (r: JsonValue)
    ensures
        r@ == match v@ {
            JsonView::Object(ag) => JsonView::Object(agents_with_model(ag, id@)),
            _ => v@,
        },
{
    match v {
        JsonValue::Object(mut ag) => {
            agents_with_model_exec(&mut ag, id);
            JsonValue::Object(ag)
        },
        other => other,
    }
}

fn decimal_string(n: u64) -> (r: String)
    ensures
        r@ == decimal(n as nat),
{
    u64_to_string(n)
}

fn provider_options_exec(port: u16) -> (r: JsonValue)
    ensures
        r@ == provider_options(port),
{
    let mut url = String::from_str("http://host.lima.internal:");
    url.append(decimal_string(port as u64).as_str());
    url.append("/v1");
    let mut o: Vec<(String, JsonValue)> = Vec::new();
    o.push((String::from_str("baseURL"), JsonValue::Str(url)));
    proof {
        lemma_members_view(o@, 1);
        assert(members_view(o@, 1) =~= seq![("baseURL"@, JsonView::Str("http://host.lima.internal:"@ + decimal(port as nat) + "/v1"@))]);
    }
    JsonValue::Object(o)
}

fn provider_models_exec(id: &str, ctx: u32) -> (r: JsonValue)
    ensures
        r@ == provider_models(id@, ctx),
{
    let mut limit: Vec<(String, JsonValue)> = Vec::new();
    limit.push((String::from_str("context"), JsonValue::Number(decimal_string(ctx as u64))));
    limit.push((String::from_str("output"), JsonValue::Number(String::from_str("8192"))));
    proof {
        lemma_members_view(limit@, 2);
        assert(members_view(limit@, 2) =~= seq![
            ("context"@, JsonView::Number(decimal(ctx as nat))),
            ("output"@, JsonView::Number("8192"@)),
        ]);
    }
    let mut inner: Vec<(String, JsonValue)> = Vec::new();
    inner.push((String::from_str("name"), JsonValue::Str(String::from_str(id))));
    inner.push((String::from_str("tools"), JsonValue::Bool(true)));
    inner.push((String::from_str("context_window"), JsonValue::Number(decimal_string(ctx as u64))));
    inner.push((String::from_str("limit"), JsonValue::Object(limit)));
    proof {
        lemma_members_view(inner@, 4);
        assert(members_view(inner@, 4) =~= seq![
            ("name"@, JsonView::Str(id@)),
            ("tools"@, JsonView::Bool(true)),
            ("context_window"@, JsonView::Number(decimal(ctx as nat))),
            (
                "limit"@,
                JsonView::Object(
                    seq![
                        ("context"@, JsonView::Number(decimal(ctx as nat))),
                        ("output"@, JsonView::Number("8192"@)),
                    ],
                ),
            ),
        ]);
    }
    let mut models: Vec<(String, JsonValue)> = Vec::new();
    models.push((String::from_str(id), JsonValue::Object(inner)));
    proof {
        lemma_members_view(models@, 1);
    }
    let r = JsonValue::Object(models);
    assert(r@ == provider_models(id@, ctx)) by {
        assert(members_view(models@, 1) =~= seq![(id@, models@[0].1@)]);
    }
    r
}

/// The `llama-cpp` provider's configuration pointed at the model, when it
/// is an object.
pub open spec fn point_provider_value(v: JsonView, id: Seq<char>, ctx: u32, port: u16) -> JsonView {
    match v {
        JsonView::Object(po) => JsonView::Object(point_provider(po, id, ctx, port)),
        _ => v,
    }
}

fn point_provider_value_exec(v: JsonValue, id: &str, ctx: u32, port: u16) -> (r: JsonValue)
    ensures
        r@ == point_provider_value(v@, id@, ctx, port),
{
    match v {
        JsonValue::Object(mut po) => {
            obj_insert(&mut po, "options", provider_options_exec(port));
            obj_insert(&mut po, "models", provider_models_exec(id, ctx));
            JsonValue::Object(po)
        },
        other => other,
    }
}

/// The `provider` value with its `llama-cpp` member pointed at the model.
pub open spec fn point_providers(v: JsonView, id: Seq<char>, ctx: u32, port: u16) -> JsonView {
    match v {
        JsonView::Object(pv) => match member(pv, "llama-cpp"@) {
            Some(JsonView::Object(po)) => JsonView::Object(
                minsert(pv, "llama-cpp"@, JsonView::Object(point_provider(po, id, ctx, port))),
            ),
            _ => v,
        },
        _ => v,
    }
}

/// Replaces the value of the member at `i`, given where the first member
/// with `key` is: the result is the members with that member set.
proof fn lemma_set_found(
    before: Seq<(String, JsonValue)>,
    i: int,
    key: Seq<char>,
    v: JsonValue,
)
    requires
        0 <= i < before.len(),
        member_index(members_view(before, before.len() as int), key) == Some(i),
    ensures
        members_view(before.update(i, (before[i].0, v)), before.len() as int) == minsert(
            members_view(before, before.len() as int),
            key,
            json_view(v),
        ),
        member(members_view(before, before.len() as int), key) == Some(json_view(before[i].1)),
{
    lemma_members_view(before, before.len() as int);
    lemma_member_index(members_view(before, before.len() as int), key);
    lemma_value_replaced(before, i, v);
}

/// Keeping the value of the member at `i` keeps the members.
proof fn lemma_set_same(before: Seq<(String, JsonValue)>, i: int, v: JsonValue)
    requires
        0 <= i < before.len(),
        json_view(v) == json_view(before[i].1),
    ensures
        members_view(before.update(i, (before[i].0, v)), before.len() as int) == members_view(
            before,
            before.len() as int,
        ),
{
    lemma_members_view(before, before.len() as int);
    lemma_value_replaced(before, i, v);
    let m = members_view(before, before.len() as int);
    assert(m[i] == (before[i].0@, json_view(before[i].1)));
    assert(m.update(i, (m[i].0, json_view(v))) =~= m);
}

fn point_providers_exec(v: JsonValue, id: &str, ctx: u32, port: u16) -> (r: JsonValue)
    ensures
        r@ == point_providers(v@, id@, ctx, port),
{
    match v {
        JsonValue::Object(mut pv) => {
            proof {
                lemma_member_index(members_view(pv@, pv@.len() as int), "llama-cpp"@);
            }
            match member_pos(&pv, "llama-cpp") {
                Some(j) => {
                    let ghost before = pv@;
                    let inner = take_value(&mut pv, j);
                    let ghost inner_v = inner@;
                    let is_obj = match &inner {
                        JsonValue::Object(_) => true,
                        _ => false,
                    };
                    let nv = point_provider_value_exec(inner, id, ctx, port);
                    put_value(&mut pv, j, nv);
                    assert(pv@ =~= before.update(j as int, (before[j as int].0, nv)));
                    proof {
                        lemma_set_found(before, j as int, "llama-cpp"@, nv);
                        if !is_obj {
                            lemma_set_same(before, j as int, nv);
                        }
                        let pm = members_view(before, before.len() as int);
                        assert(v@ == JsonView::Object(pm));
                        assert(member(pm, "llama-cpp"@) == Some(inner_v));
                    }
                    JsonValue::Object(pv)
                },
                None => JsonValue::Object(pv),
            }
        },
        other => other,
    }
}

fn point_config_exec(es: &mut Vec<(String, JsonValue)>, id: &str, ctx: u32, port: u16)
    ensures
        members_view(final(es)@, final(es)@.len() as int) == point_config(
            members_view(old(es)@, old(es)@.len() as int),
            id@,
            ctx,
            port,
        ),
{
    obj_insert(es, "model", JsonValue::Str(model_ref_exec(id)));
    obj_insert(es, "small_model", JsonValue::Str(model_ref_exec(id)));
    let ghost m1 = members_view(es@, es@.len() as int);
    proof {
        lemma_member_index(m1, "agent"@);
    }
    match member_pos(es, "agent") {
        Some(i) => {
            let ghost before = es@;
            let v = take_value(es, i);
            let is_obj = match &v {
                JsonValue::Object(_) => true,
                _ => false,
            };
            let nv = with_agents_exec(v, id);
            put_value(es, i, nv);
            assert(es@ =~= before.update(i as int, (before[i as int].0, nv)));
            proof {
                lemma_set_found(before, i as int, "agent"@, nv);
                if !is_obj {
                    lemma_set_same(before, i as int, nv);
                }
            }
        },
        None => {},
    }
    let ghost m2 = members_view(es@, es@.len() as int);
    assert(m2 == match member(m1, "agent"@) {
        Some(JsonView::Object(ag)) => minsert(m1, "agent"@, JsonView::Object(agents_with_model(ag, id@))),
        _ => m1,
    });
    proof {
        lemma_member_index(m2, "provider"@);
    }
    match member_pos(es, "provider") {
        Some(i) => {
            let ghost before = es@;
            let v = take_value(es, i);
            let ghost vv = v@;
            let nv = point_providers_exec(v, id, ctx, port);
            put_value(es, i, nv);
            assert(es@ =~= before.update(i as int, (before[i as int].0, nv)));
            proof {
                lemma_set_found(before, i as int, "provider"@, nv);
                if nv@ == vv {
                    lemma_set_same(before, i as int, nv);
                }
            }
        },
        None => {},
    }
}

/// The runtime configuration of opencode made from the template `config`
/// (already read as JSON) for the model `id` with context window `ctx`,
/// served on `port`, with the workspace mounted at `mount`.
pub fn runtime_config_value(config: &JsonValue, id: &str, ctx: u32, port: u16, mount: &str) -> (r: JsonValue)
    ensures
        r@ == spec_runtime_config(config@, id@, ctx, port, mount@),
{
    let mut reps: Vec<(String, String)> = Vec::new();
    reps.push((String::from_str("__CTX_WINDOW__"), decimal_string(ctx as u64)));
    reps.push((String::from_str("__DEFAULT_MODEL__"), String::from_str(id)));
    reps.push((String::from_str("__LLAMA_PORT__"), decimal_string(port as u64)));
    reps.push((String::from_str("__INJECTED_MOUNT_POINT__"), String::from_str(mount)));
    proof {
        reveal_strlit("__CTX_WINDOW__");
        reveal_strlit("__DEFAULT_MODEL__");
        reveal_strlit("__LLAMA_PORT__");
        reveal_strlit("__INJECTED_MOUNT_POINT__");
        assert(pair_views(reps@) =~= placeholders(id@, ctx, port, mount@));
    }
    let replaced = replace_placeholders(config, &reps);
    match replaced {
        JsonValue::Object(mut es) => {
            point_config_exec(&mut es, id, ctx, port);
            JsonValue::Object(es)
        },
        other => other,
    }
}

/// The template's text with its context-window placeholder filled in, as
/// it is before the template is read as JSON.
pub fn fill_ctx_window(content: &str, ctx: u32) -> (r: String)
    ensures
        r@ == replace_all(content@, "__CTX_WINDOW__"@, decimal(ctx as nat)),
{
    proof {
        reveal_strlit("__CTX_WINDOW__");
    }
    let out = replace_str(&chars_of(content), &chars_of("__CTX_WINDOW__"), &chars_of(decimal_string(ctx as u64).as_str()));
    string_from_chars(&out)
}

/// Why a runtime configuration could not be made.
#[derive(Debug, Clone, Copy, PartialEq, Eq)]
pub enum RuntimeConfigError {
    /// The preset has no slot.
    NoSlots,
}

/// The model and context window a runtime configuration is made for: the
/// preset's first slot's name and context size, 200000 when it sets none.
pub fn runtime_model(preset: &Preset) -> (r: Result<(String, u32), RuntimeConfigError>)
    ensures
        match r {
            Ok((id, ctx)) => preset.slots@.len() > 0 && id@ == preset.slots@[0].name@ && ctx == slot_ctx(preset.slots@[0]) && ctx == match preset.slots@[0].ctx_size {
                Some(c) => c,
                None => 200000,
            },
            Err(e) => preset.slots@.len() == 0 && e == RuntimeConfigError::NoSlots,
        },
{
    if preset.slots.len() == 0 {
        return Err(RuntimeConfigError::NoSlots);
    }
    let slot = &preset.slots[0];
    let ctx = match slot.ctx_size {
        Some(c) => c,
        None => 200000,
    };
    Ok((slot.name.clone(), ctx))
}

/// The template of the runtime configuration.
pub fn runtime_template_file(home: &str) -> (r: String)
    ensures
        r@ == home@ + "/.config/muthr/clients/opencode-config.json"@,
{
    let mut s = String::from_str(home);
    s.append("/.config/muthr/clients/opencode-config.json");
    s
}

/// Where the runtime configurations are written.
pub fn runtime_dir(home: &str) -> (r: String)
    ensures
        r@ == home@ + "/.cache/muthr/opencode_runtimes"@,
{
    let mut s = String::from_str(home);
    s.append("/.cache/muthr/opencode_runtimes");
    s
}

/// The file name of the runtime configuration of a preset.
pub fn runtime_file_name(preset_name: &str) -> (r: String)
    ensures
        r@ == "opencode-runtime-"@ + preset_name@ + ".json"@,
{
    let mut s = String::from_str("opencode-runtime-");
    s.append(preset_name);
    s.append(".json");
    s
}

/// `member` finds the first member with the key.
proof fn lemma_member_first(ms: Seq<(Seq<char>, JsonView)>, key: Seq<char>, i: int)
    requires
        0 <= i < ms.len(),
        ms[i].0 == key,
        forall|j: int| 0 <= j < i ==> (#[trigger] ms[j]).0 != key,
    ensures
        member(ms, key) == Some(ms[i].1),
    decreases i,
{
    if i > 0 {
        let t = ms.drop_first();
        assert forall|j: int| 0 <= j < i - 1 implies (#[trigger] t[j]).0 != key by {
            assert(t[j] == ms[j + 1]);
        }
        lemma_member_first(t, key, i - 1);
    }
}

/// `member` finds nothing where no member has the key.
proof fn lemma_member_absent(ms: Seq<(Seq<char>, JsonView)>, key: Seq<char>)
    requires
        forall|j: int| 0 <= j < ms.len() ==> (#[trigger] ms[j]).0 != key,
    ensures
        member(ms, key) is None,
    decreases ms.len(),
{
    if ms.len() > 0 {
        let t = ms.drop_first();
        assert forall|j: int| 0 <= j < t.len() implies (#[trigger] t[j]).0 != key by {
            assert(t[j] == ms[j + 1]);
        }
        lemma_member_absent(t, key);
    }
}

/// After `minsert`, the key holds the inserted value and every other key
/// holds what it held before.
pub proof fn lemma_member_minsert(ms: Seq<(Seq<char>, JsonView)>, key: Seq<char>, v: JsonView, other: Seq<char>)
    ensures
        member(minsert(ms, key, v), key) == Some(v),
        other != key ==> member(minsert(ms, key, v), other) == member(ms, other),
{
    lemma_member_index(ms, key);
    lemma_member_index(ms, other);
    let r = minsert(ms, key, v);
    match member_index(ms, key) {
        Some(i) => {
            lemma_member_first(r, key, i);
            assert forall|j: int| 0 <= j < r.len() implies (#[trigger] r[j]).0 == ms[j].0 by {}
            if other != key {
                match member_index(ms, other) {
                    Some(i2) => {
                        assert(r[i2] == ms[i2]);
                        lemma_member_first(r, other, i2);
                    },
                    None => {
                        lemma_member_absent(r, other);
                    },
                }
            }
        },
        None => {
            lemma_member_first(r, key, ms.len() as int);
            if other != key {
                match member_index(ms, other) {
                    Some(i2) => {
                        assert(r[i2] == ms[i2]);
                        lemma_member_first(r, other, i2);
                    },
                    None => {
                        assert forall|j: int| 0 <= j < r.len() implies (#[trigger] r[j]).0 != other by {
                            if j < ms.len() {
                                assert(r[j] == ms[j]);
                            }
                        }
                        lemma_member_absent(r, other);
                    },
                }
            }
        },
    }
}

/// A runtime configuration made from an object template names the preset's
/// model, as a model of the `llama-cpp` provider, both as `model` and as
/// `small_model`, whatever the template held there.
pub proof fn law_runtime_config_names_model(config: JsonView, id: Seq<char>, ctx: u32, port: u16, mount: Seq<char>)
    requires
        config is Object,
    ensures
        crate::json::jget(spec_runtime_config(config, id, ctx, port, mount), "model"@) == Some(
            JsonView::Str(model_ref(id)),
        ),
        crate::json::jget(spec_runtime_config(config, id, ctx, port, mount), "small_model"@) == Some(
            JsonView::Str(model_ref(id)),
        ),
{
    reveal_strlit("model");
    reveal_strlit("small_model");
    reveal_strlit("agent");
    reveal_strlit("provider");
    let ms = match json_replace(config, placeholders(id, ctx, port, mount)) {
        JsonView::Object(ms) => ms,
        _ => Seq::empty(),
    };
    let m = JsonView::Str(model_ref(id));
    let m0 = minsert(ms, "model"@, m);
    let m1 = minsert(m0, "small_model"@, m);
    lemma_member_minsert(ms, "model"@, m, "small_model"@);
    lemma_member_minsert(m0, "small_model"@, m, "model"@);
    lemma_member_minsert(m0, "small_model"@, m, "small_model"@);
    assert(member(m1, "model"@) == Some(m));
    assert(member(m1, "small_model"@) == Some(m));
    let m2 = match member(m1, "agent"@) {
        Some(JsonView::Object(ag)) => minsert(m1, "agent"@, JsonView::Object(agents_with_model(ag, id))),
        _ => m1,
    };
    match member(m1, "agent"@) {
        Some(JsonView::Object(ag)) => {
            let a = JsonView::Object(agents_with_model(ag, id));
            lemma_member_minsert(m1, "agent"@, a, "model"@);
            lemma_member_minsert(m1, "agent"@, a, "small_model"@);
        },
        _ => {},
    }
    assert(member(m2, "model"@) == Some(m));
    assert(member(m2, "small_model"@) == Some(m));
    match member(m2, "provider"@) {
        Some(JsonView::Object(pv)) => match member(pv, "llama-cpp"@) {
            Some(JsonView::Object(po)) => {
                let p = JsonView::Object(
                    minsert(pv, "llama-cpp"@, JsonView::Object(point_provider(po, id, ctx, port))),
                );
                lemma_member_minsert(m2, "provider"@, p, "model"@);
                lemma_member_minsert(m2, "provider"@, p, "small_model"@);
            },
            _ => {},
        },
        _ => {},
    }
    assert(point_config(ms, id, ctx, port) == (match member(m2, "provider"@) {
        Some(JsonView::Object(pv)) => match member(pv, "llama-cpp"@) {
            Some(JsonView::Object(po)) => minsert(
                m2,
                "provider"@,
                JsonView::Object(minsert(pv, "llama-cpp"@, JsonView::Object(point_provider(po, id, ctx, port)))),
            ),
            _ => m2,
        },
        _ => m2,
    }));
}

/// Replacing placeholders keeps an object's members: each key holds its
/// value with the placeholders replaced.
proof fn lemma_member_replaced(ms: Seq<(Seq<char>, JsonView)>, key: Seq<char>, reps: Seq<(Seq<char>, Seq<char>)>)
    ensures
        member(replace_members(ms, ms.len() as int, reps), key) == match member(ms, key) {
            Some(v) => Some(json_replace(v, reps)),
            None => None,
        },
{
    let rm = replace_members(ms, ms.len() as int, reps);
    lemma_replace_members(ms, ms.len() as int, reps);
    lemma_member_index(ms, key);
    match member_index(ms, key) {
        Some(i) => {
            assert forall|j: int| 0 <= j < i implies (#[trigger] rm[j]).0 != key by {
                assert(rm[j] == (ms[j].0, json_replace(ms[j].1, reps)));
            }
            lemma_member_first(rm, key, i);
        },
        None => {
            assert forall|j: int| 0 <= j < rm.len() implies (#[trigger] rm[j]).0 != key by {
                assert(rm[j] == (ms[j].0, json_replace(ms[j].1, reps)));
            }
            lemma_member_absent(rm, key);
        },
    }
}

/// The context window a runtime configuration is made for: the slot's
/// context size, 200000 when it sets none.
pub open spec fn slot_ctx(s: crate::preset::Slot) -> u32 {
    match s.ctx_size {
        Some(c) => c,
        None => 200000,
    }
}

/// The `llama-cpp` member of a configuration's `provider`.
pub open spec fn llama_provider(v: JsonView) -> Option<JsonView> {
    crate::json::jget_opt(crate::json::jget(v, "provider"@), "llama-cpp"@)
}

/// The entry for model `name` among the `llama-cpp` provider's models.
pub open spec fn provider_model(v: JsonView, name: Seq<char>) -> Option<JsonView> {
    crate::json::jget_opt(crate::json::jget_opt(llama_provider(v), "models"@), name)
}

/// Where the template configures the `llama-cpp` provider as an object, the
/// runtime configuration made for a preset points it at the host: its
/// `options.baseURL` is `http://host.lima.internal:<port>/v1`, and its
/// model, named after the preset's first slot, carries that name, may use
/// tools, and has that slot's context size (200000 when it sets none) as
/// `context_window` and as its context limit, with an output limit of 8192.
pub proof fn law_runtime_config_points_provider(config: JsonView, preset: Preset, port: u16, mount: Seq<char>)
    requires
        preset.slots@.len() > 0,
        llama_provider(config) matches Some(JsonView::Object(_)),
    ensures
        crate::json::jget_opt(
            crate::json::jget_opt(
                llama_provider(
                    spec_runtime_config(config, preset.slots@[0].name@, slot_ctx(preset.slots@[0]), port, mount),
                ),
                "options"@,
            ),
            "baseURL"@,
        ) == Some(JsonView::Str("http://host.lima.internal:"@ + decimal(port as nat) + "/v1"@)),
        crate::json::jget_opt(
            crate::json::jget_opt(
                crate::json::jget_opt(
                    llama_provider(
                        spec_runtime_config(config, preset.slots@[0].name@, slot_ctx(preset.slots@[0]), port, mount),
                    ),
                    "models"@,
                ),
                preset.slots@[0].name@,
            ),
            "context_window"@,
        ) == Some(JsonView::Number(decimal(slot_ctx(preset.slots@[0]) as nat))),
        crate::json::jget_opt(
            provider_model(
                spec_runtime_config(config, preset.slots@[0].name@, slot_ctx(preset.slots@[0]), port, mount),
                preset.slots@[0].name@,
            ),
            "tools"@,
        ) == Some(JsonView::Bool(true)),
        crate::json::jget_opt(
            provider_model(
                spec_runtime_config(config, preset.slots@[0].name@, slot_ctx(preset.slots@[0]), port, mount),
                preset.slots@[0].name@,
            ),
            "name"@,
        ) == Some(JsonView::Str(preset.slots@[0].name@)),
        crate::json::jget_opt(
            crate::json::jget_opt(
                provider_model(
                    spec_runtime_config(config, preset.slots@[0].name@, slot_ctx(preset.slots@[0]), port, mount),
                    preset.slots@[0].name@,
                ),
                "limit"@,
            ),
            "context"@,
        ) == Some(JsonView::Number(decimal(slot_ctx(preset.slots@[0]) as nat))),
        crate::json::jget_opt(
            crate::json::jget_opt(
                provider_model(
                    spec_runtime_config(config, preset.slots@[0].name@, slot_ctx(preset.slots@[0]), port, mount),
                    preset.slots@[0].name@,
                ),
                "limit"@,
            ),
            "output"@,
        ) == Some(JsonView::Number("8192"@)),
{
    reveal_strlit("model");
    reveal_strlit("small_model");
    reveal_strlit("agent");
    reveal_strlit("provider");
    reveal_strlit("llama-cpp");
    reveal_strlit("options");
    reveal_strlit("models");
    reveal_strlit("name");
    reveal_strlit("tools");
    reveal_strlit("context_window");
    reveal_strlit("baseURL");
    assert("model"@[0] != "provider"@[0]);
    assert("small_model"@[0] != "provider"@[0]);
    assert("agent"@[0] != "provider"@[0]);
    assert("options"@[0] != "models"@[0]);
    assert("name"@[0] != "context_window"@[0]);
    assert("tools"@[0] != "context_window"@[0]);
    reveal_strlit("limit");
    reveal_strlit("context");
    reveal_strlit("output");
    assert("name"@[0] != "tools"@[0]);
    assert("name"@[0] != "limit"@[0]);
    assert("tools"@[0] != "limit"@[0]);
    assert("context_window"@[0] != "limit"@[0]);
    assert("context"@[0] != "output"@[0]);
    let id = preset.slots@[0].name@;
    let ctx = slot_ctx(preset.slots@[0]);
    let reps = placeholders(id, ctx, port, mount);
    let ms = match config {
        JsonView::Object(ms) => ms,
        _ => Seq::empty(),
    };
    let pv = match member(ms, "provider"@) {
        Some(JsonView::Object(pv)) => pv,
        _ => Seq::empty(),
    };
    let po = match member(pv, "llama-cpp"@) {
        Some(JsonView::Object(po)) => po,
        _ => Seq::empty(),
    };
    let rm = replace_members(ms, ms.len() as int, reps);
    let rpv = replace_members(pv, pv.len() as int, reps);
    let rpo = replace_members(po, po.len() as int, reps);
    lemma_member_replaced(ms, "provider"@, reps);
    lemma_member_replaced(pv, "llama-cpp"@, reps);
    assert(json_replace(config, reps) == JsonView::Object(rm));
    assert(member(rm, "provider"@) == Some(JsonView::Object(rpv)));
    assert(member(rpv, "llama-cpp"@) == Some(JsonView::Object(rpo)));
    let m = JsonView::Str(model_ref(id));
    let m0 = minsert(rm, "model"@, m);
    let m1 = minsert(m0, "small_model"@, m);
    lemma_member_minsert(rm, "model"@, m, "provider"@);
    lemma_member_minsert(m0, "small_model"@, m, "provider"@);
    let m2 = match member(m1, "agent"@) {
        Some(JsonView::Object(ag)) => minsert(m1, "agent"@, JsonView::Object(agents_with_model(ag, id))),
        _ => m1,
    };
    match member(m1, "agent"@) {
        Some(JsonView::Object(ag)) => {
            lemma_member_minsert(m1, "agent"@, JsonView::Object(agents_with_model(ag, id)), "provider"@);
        },
        _ => {},
    }
    assert(member(m2, "provider"@) == Some(JsonView::Object(rpv)));
    let pp = point_provider(rpo, id, ctx, port);
    let np = JsonView::Object(minsert(rpv, "llama-cpp"@, JsonView::Object(pp)));
    let fin = minsert(m2, "provider"@, np);
    assert(point_config(rm, id, ctx, port) == fin);
    lemma_member_minsert(m2, "provider"@, np, "provider"@);
    lemma_member_minsert(rpv, "llama-cpp"@, JsonView::Object(pp), "llama-cpp"@);
    let p1 = minsert(rpo, "options"@, provider_options(port));
    lemma_member_minsert(rpo, "options"@, provider_options(port), "options"@);
    lemma_member_minsert(p1, "models"@, provider_models(id, ctx), "options"@);
    lemma_member_minsert(p1, "models"@, provider_models(id, ctx), "models"@);
    assert(llama_provider(spec_runtime_config(config, id, ctx, port, mount)) == Some(JsonView::Object(pp)));
    let inner = seq![
        ("name"@, JsonView::Str(id)),
        ("tools"@, JsonView::Bool(true)),
        ("context_window"@, JsonView::Number(decimal(ctx as nat))),
        (
            "limit"@,
            JsonView::Object(
                seq![("context"@, JsonView::Number(decimal(ctx as nat))), ("output"@, JsonView::Number("8192"@))],
            ),
        ),
    ];
    assert(inner[0].0 != "context_window"@ && inner[1].0 != "context_window"@);
    lemma_member_first(inner, "context_window"@, 2);
    lemma_member_first(inner, "name"@, 0);
    assert(inner[0].0 != "tools"@);
    lemma_member_first(inner, "tools"@, 1);
    assert(inner[0].0 != "limit"@ && inner[1].0 != "limit"@ && inner[2].0 != "limit"@);
    lemma_member_first(inner, "limit"@, 3);
    let lim = seq![("context"@, JsonView::Number(decimal(ctx as nat))), ("output"@, JsonView::Number("8192"@))];
    lemma_member_first(lim, "context"@, 0);
    assert(lim[0].0 != "output"@);
    lemma_member_first(lim, "output"@, 1);
    let models_ms = seq![(id, JsonView::Object(inner))];
    lemma_member_first(models_ms, id, 0);
    let opts_ms = seq![("baseURL"@, JsonView::Str("http://host.lima.internal:"@ + decimal(port as nat) + "/v1"@))];
    lemma_member_first(opts_ms, "baseURL"@, 0);
}

} // verus!
