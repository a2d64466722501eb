//! JSON values as the `container` CLI and the inference server hand them
//! over, and the few ways the library reads and edits them.

use vstd::prelude::*;
use crate::number::{parse_bounded, parse_unsigned_bounded};
use crate::text::{chars_eq, chars_of};

verus! {

/// A JSON value. A number keeps its text; an object keeps its members in
/// order, each key at most once.
#[derive(Debug)]
pub enum JsonValue {
    Null,
    Bool(bool),
    Number(String),
    Str(String),
    Array(Vec<JsonValue>),
    Object(Vec<(String, JsonValue)>),
}

/// The value of a [`JsonValue`].
pub enum JsonView {
    Null,
    Bool(bool),
    Number(Seq<char>),
    Str(Seq<char>),
    Array(Seq<JsonView>),
    Object(Seq<(Seq<char>, JsonView)>),
}

/// The value of a JSON value.
pub open spec fn json_view(v: JsonValue) -> JsonView
    decreases v, 0int,
{
    match v {
        JsonValue::Null => JsonView::Null,
        JsonValue::Bool(b) => JsonView::Bool(b),
        JsonValue::Number(n) => JsonView::Number(n@),
        JsonValue::Str(s) => JsonView::Str(s@),
        JsonValue::Array(xs) => JsonView::Array(items_view(xs@, xs@.len() as int)),
        JsonValue::Object(es) => JsonView::Object(members_view(es@, es@.len() as int)),
    }
}

/// The values of the first `n` items.
pub open spec fn items_view(xs: Seq<JsonValue>, n: int) -> Seq<JsonView>
    decreases xs, n,
{
    if n <= 0 || n > xs.len() {
        Seq::empty()
    } else {
        items_view(xs, n - 1).push(json_view(xs[n - 1]))
    }
}

/// The values of the first `n` members.
pub open spec fn members_view(es: Seq<(String, JsonValue)>, n: int) -> Seq<(Seq<char>, JsonView)>
    decreases es, n,
{
    if n <= 0 || n > es.len() {
        Seq::empty()
    } else {
        members_view(es, n - 1).push((es[n - 1].0@, json_view(es[n - 1].1)))
    }
}

impl View for JsonValue {
    type V = JsonView;

    open spec fn view(&self) -> JsonView {
        json_view(*self)
    }
}

/// The first `n` item values have the items' values, in order.
pub proof fn lemma_items_view(xs: Seq<JsonValue>, n: int)
    requires
        0 <= n <= xs.len(),
    ensures
        items_view(xs, n).len() == n,
        forall|i: int| 0 <= i < n ==> #[trigger] items_view(xs, n)[i] == json_view(xs[i]),
    decreases n,
{
    if n > 0 {
        lemma_items_view(xs, n - 1);
        assert forall|i: int| 0 <= i < n implies #[trigger] items_view(xs, n)[i] == json_view(xs[i]) by {
            if i < n - 1 {
                assert(items_view(xs, n)[i] == items_view(xs, n - 1)[i]);
            }
        }
    }
}

/// The first `n` member values have the members' keys and values, in order.
pub proof fn lemma_members_view(es: Seq<(String, JsonValue)>, n: int)
    requires
        0 <= n <= es.len(),
    ensures
        members_view(es, n).len() == n,
        forall|i: int|
            0 <= i < n ==> #[trigger] members_view(es, n)[i] == (es[i].0@, json_view(es[i].1)),
    decreases n,
{
    if n > 0 {
        lemma_members_view(es, n - 1);
        assert forall|i: int| 0 <= i < n implies #[trigger] members_view(es, n)[i] == (
            es[i].0@,
            json_view(es[i].1),
        ) by {
            if i < n - 1 {
                assert(members_view(es, n)[i] == members_view(es, n - 1)[i]);
            }
        }
    }
}

/// The value of the first member with `key`.
pub open spec fn member(ms: Seq<(Seq<char>, JsonView)>, key: Seq<char>) -> Option<JsonView>
    decreases ms.len(),
{
    if ms.len() == 0 {
        None
    } else if ms[0].0 == key {
        Some(ms[0].1)
    } else {
        member(ms.drop_first(), key)
    }
}

/// `Value::get` with a key: the member's value, for an object that has it.
pub open spec fn jget(v: JsonView, key: Seq<char>) -> Option<JsonView> {
    match v {
        JsonView::Object(ms) => member(ms, key),
        _ => None,
    }
}

/// `Value::as_str`.
pub open spec fn jstr(v: JsonView) -> Option<Seq<char>> {
    match v {
        JsonView::Str(s) => Some(s),
        _ => None,
    }
}

/// `Value::as_array`.
pub open spec fn jitems(v: JsonView) -> Option<Seq<JsonView>> {
    match v {
        JsonView::Array(xs) => Some(xs),
        _ => None,
    }
}

/// `Value::as_u64`: a number written with decimal digits alone whose value
/// fits in 64 bits.
pub open spec fn ju64(v: JsonView) -> Option<nat> {
    match v {
        JsonView::Number(t) => if t.len() > 0 && t[0] == '+' {
            None
        } else {
            parse_bounded(t, u64::MAX as nat)
        },
        _ => None,
    }
}

/// `jget` through an optional value.
pub open spec fn jget_opt(v: Option<JsonView>, key: Seq<char>) -> Option<JsonView> {
    match v {
        Some(x) => jget(x, key),
        None => None,
    }
}

/// `jstr` through an optional value.
pub open spec fn jstr_opt(v: Option<JsonView>) -> Option<Seq<char>> {
    match v {
        Some(x) => jstr(x),
        None => None,
    }
}

/// The value of the first member with `key`.
pub fn lookup_member<'a>(es: &'a Vec<(String, JsonValue)>, key: &str) -> (r: Option<&'a JsonValue>)
    ensures
        match r {
            Some(x) => member(members_view(es@, es@.len() as int), key@) == Some(x@),
            None => member(members_view(es@, es@.len() as int), key@) is None,
        },
{
    proof {
        lemma_members_view(es@, es@.len() as int);
    }
    let ghost ms = members_view(es@, es@.len() as int);
    let k = chars_of(key);
    let mut i: usize = 0;
    assert(ms.skip(0) =~= ms);
    while i < es.len()
        invariant
            i <= es.len(),
            ms == members_view(es@, es@.len() as int),
            ms.len() == es.len(),
            forall|j: int| 0 <= j < es.len() ==> #[trigger] ms[j] == (es@[j].0@, json_view(es@[j].1)),
            member(ms, key@) == member(ms.skip(i as int), key@),
            k@ == key@,
        decreases es.len() - i,
    {
        assert(ms.skip(i as int)[0] == ms[i as int]);
        assert(ms.skip(i as int).drop_first() =~= ms.skip(i + 1));
        if chars_eq(&chars_of(es[i].0.as_str()), &k) {
            return Some(&es[i].1);
        }
        i += 1;
    }
    None
}

impl JsonValue {
    /// `Value::get` with a key.
    pub fn get(&self, key: &str) -> (r: Option<&JsonValue>)
        ensures
            match r {
                Some(x) => jget(self@, key@) == Some(x@),
                None => jget(self@, key@) is None,
            },
    {
        match self {
            JsonValue::Object(es) => lookup_member(es, key),
            _ => None,
        }
    }

    /// `Value::as_str`.
    pub fn as_str(&self) -> (r: Option<&str>)
        ensures
            match r {
                Some(s) => jstr(self@) == Some(s@),
                None => jstr(self@) is None,
            },
    {
        match self {
            JsonValue::Str(s) => Some(s.as_str()),
            _ => None,
        }
    }

    /// `Value::as_array`.
    pub fn as_array(&self) -> (r: Option<&Vec<JsonValue>>)
        ensures
            match r {
                Some(xs) => jitems(self@) == Some(items_view(xs@, xs@.len() as int)),
                None => jitems(self@) is None,
            },
    {
        match self {
            JsonValue::Array(xs) => Some(xs),
            _ => None,
        }
    }

    /// `Value::as_u64`.
    pub fn as_u64(&self) -> (r: Option<u64>)
        ensures
            match r {
                Some(n) => ju64(self@) == Some(n as nat),
                None => ju64(self@) is None,
            },
    {
        match self {
            JsonValue::Number(t) => {
                let c = chars_of(t.as_str());
                if c.len() > 0 && c[0] == '+' {
                    None
                } else {
                    parse_unsigned_bounded(&c, u64::MAX)
                }
            },
            _ => None,
        }
    }

    /// A copy of the value.
    #[verifier::loop_isolation(false)]
    pub fn copy(&self) -> (r: JsonValue)
        ensures
            r@ == self@,
        decreases self,
    {
        match self {
            JsonValue::Null => JsonValue::Null,
            JsonValue::Bool(b) => JsonValue::Bool(*b),
            JsonValue::Number(n) => JsonValue::Number(n.clone()),
            JsonValue::Str(s) => JsonValue::Str(s.clone()),
            JsonValue::Array(xs) => {
                let mut out: Vec<JsonValue> = Vec::new();
                let mut i: usize = 0;
                proof {
                    lemma_items_view(xs@, xs@.len() as int);
                }
                while i < xs.len()
                    invariant
                        i <= xs.len(),
                        out@.len() == i,
                        forall|j: int| 0 <= j < i ==> #[trigger] json_view(out@[j]) == json_view(xs@[j]),
                    decreases xs.len() - i,
                {
                    let c = xs[i].copy();
                    out.push(c);
                    i += 1;
                }
                proof {
                    lemma_items_view(out@, out@.len() as int);
                    assert(items_view(out@, out@.len() as int) =~= items_view(xs@, xs@.len() as int));
                }
                JsonValue::Array(out)
            },
            JsonValue::Object(es) => {
                let mut out: Vec<(String, JsonValue)> = Vec::new();
                let mut i: usize = 0;
                proof {
                    lemma_members_view(es@, es@.len() as int);
                }
                while i < es.len()
                    invariant
                        i <= es.len(),
                        out@.len() == i,
                        forall|j: int|
                            0 <= j < i ==> (#[trigger] out@[j]).0@ == es@[j].0@ && json_view(out@[j].1)
                                == json_view(es@[j].1),
                    decreases es.len() - i,
                {
                    let c = es[i].1.copy();
                    out.push((es[i].0.clone(), c));
                    i += 1;
                }
                proof {
                    lemma_members_view(out@, out@.len() as int);
                    assert(members_view(out@, out@.len() as int) =~= members_view(es@, es@.len() as int));
                }
                JsonValue::Object(out)
            },
        }
    }
}

} // verus!
