//! What `container list --all --format json` reports, read as the commands
//! that manage sandboxes read it: ids, states and labels of containers, the
//! managed project sandboxes among them, which of them a cleanup removes,
//! and the rows of `sandbox ls`.

use vstd::prelude::*;
use crate::json::{
    JsonValue, JsonView, jget, jget_opt, jstr, jstr_opt, jitems, member, members_view, lookup_member,
    lemma_members_view, lemma_items_view, items_view,
};
use crate::order::{lex_lt, strictly_sorted, insert_sorted, chars_lt};
use crate::sandbox::{is_sandbox_id, sandbox_id, opt_string};
use crate::text::{
    ascii_lower_seq, chars_eq, chars_of, has_prefix, lower_ascii, starts_with, string_from_chars,
    string_views, trim, trim_ws, views,
};

verus! {

/// The first of two options that is present.
pub open spec fn first_some<T>(a: Option<T>, b: Option<T>) -> Option<T> {
    if a is Some {
        a
    } else {
        b
    }
}

/// The `configuration` of a listed container, as the `container` CLI
/// reports it under one of its spellings.
#[derive(Debug)]
pub struct ContainerConfiguration {
    pub id: Option<String>,
    pub id_alias: Option<String>,
    pub labels: Option<Vec<(String, JsonValue)>>,
    pub labels_alias: Option<Vec<(String, JsonValue)>>,
}

/// A listed container, with the fields under each spelling the `container`
/// CLI may use.
#[derive(Debug)]
pub struct ContainerListItem {
    pub id: Option<String>,
    pub id_alias: Option<String>,
    pub status: Option<JsonValue>,
    pub status_alias: Option<JsonValue>,
    pub state: Option<String>,
    pub state_alias: Option<String>,
    pub configuration: Option<ContainerConfiguration>,
    pub configuration_alias: Option<ContainerConfiguration>,
}

/// The configuration in effect: the first spelling present.
pub open spec fn item_configuration(item: ContainerListItem) -> Option<ContainerConfiguration> {
    first_some(item.configuration, item.configuration_alias)
}

/// A container's id: its own, else its configuration's.
pub open spec fn item_id(item: ContainerListItem) -> Option<Seq<char>> {
    first_some(
        first_some(opt_string(item.id), opt_string(item.id_alias)),
        match item_configuration(item) {
            Some(c) => first_some(opt_string(c.id), opt_string(c.id_alias)),
            None => None,
        },
    )
}

/// The state a `status` value gives: the value itself when it is a string,
/// else its `state` (or `State`) member when that is a string.
pub open spec fn status_text(v: JsonView) -> Option<Seq<char>> {
    match jstr(v) {
        Some(s) => Some(s),
        None => jstr_opt(first_some(jget(v, "state"@), jget(v, "State"@))),
    }
}

/// A container's state: from its `status` when that gives one, else its
/// `state`.
pub open spec fn item_status(item: ContainerListItem) -> Option<Seq<char>> {
    let from_status = match first_some(item.status, item.status_alias) {
        Some(v) => status_text(v@),
        None => None,
    };
    first_some(from_status, first_some(opt_string(item.state), opt_string(item.state_alias)))
}

/// A container's labels, from its configuration.
pub open spec fn item_labels(item: ContainerListItem) -> Option<Seq<(Seq<char>, JsonView)>> {
    match item_configuration(item) {
        Some(c) => match first_some(c.labels, c.labels_alias) {
            Some(ls) => Some(members_view(ls@, ls@.len() as int)),
            None => None,
        },
        None => None,
    }
}

/// The string value of a container's label `key`.
pub open spec fn item_label(item: ContainerListItem, key: Seq<char>) -> Option<Seq<char>> {
    match item_labels(item) {
        Some(ms) => jstr_opt(member(ms, key)),
        None => None,
    }
}

/// Some key records an applied profile: it starts with `muthr.profile.`.
pub open spec fn has_profile_key(ms: Seq<(Seq<char>, JsonView)>) -> bool {
    exists|i: int| 0 <= i < ms.len() && has_prefix(#[trigger] ms[i].0, "muthr.profile."@)
}

/// Some label of the container records an applied profile.
pub open spec fn item_has_profile_label(item: ContainerListItem) -> bool {
    match item_labels(item) {
        Some(ms) => has_profile_key(ms),
        None => false,
    }
}

/// A state that says the container runs (`running`, in any case).
pub open spec fn is_running_state(s: Seq<char>) -> bool {
    ascii_lower_seq(s) == "running"@
}

/// The container runs.
pub open spec fn item_running(item: ContainerListItem) -> bool {
    match item_status(item) {
        Some(s) => is_running_state(s),
        None => false,
    }
}

/// A sandbox that muthr manages for a project: labelled
/// `muthr.managed=true` and `muthr.owner=project`.
pub open spec fn item_managed_project(item: ContainerListItem) -> bool {
    item_label(item, "muthr.managed"@) == Some("true"@) && item_label(item, "muthr.owner"@) == Some("project"@)
}

/// Whether a state says the container runs.
pub fn running_state(s: &str) -> (r: bool)
    ensures
        r == is_running_state(s@),
{
    chars_eq(&lower_ascii(&chars_of(s)), &chars_of("running"))
}

fn first_str<'a>(a: &'a Option<String>, b: &'a Option<String>) -> (r: Option<&'a str>)
    ensures
        match r {
            Some(s) => first_some(opt_string(*a), opt_string(*b)) == Some(s@),
            None => first_some(opt_string(*a), opt_string(*b)) is None,
        },
{
    match a {
        Some(s) => Some(s.as_str()),
        None => match b {
            Some(s) => Some(s.as_str()),
            None => None,
        },
    }
}

fn opt_str_eq(o: Option<&str>, s: &str) -> (r: bool)
    ensures
        r == (match o {
            Some(x) => x@ == s@,
            None => false,
        }),
{
    match o {
        Some(x) => chars_eq(&chars_of(x), &chars_of(s)),
        None => false,
    }
}

impl ContainerListItem {
    /// The configuration in effect.
    pub fn configuration_ref(&self) -> (r: Option<&ContainerConfiguration>)
        ensures
            match r {
                Some(c) => item_configuration(*self) == Some(*c),
                None => item_configuration(*self) is None,
            },
    {
        match &self.configuration {
            Some(c) => Some(c),
            None => match &self.configuration_alias {
                Some(c) => Some(c),
                None => None,
            },
        }
    }

    /// The container's id.
    pub fn id(&self) -> (r: Option<&str>)
        ensures
            match r {
                Some(s) => item_id(*self) == Some(s@),
                None => item_id(*self) is None,
            },
    {
        match first_str(&self.id, &self.id_alias) {
            Some(s) => Some(s),
            None => match self.configuration_ref() {
                Some(c) => first_str(&c.id, &c.id_alias),
                None => None,
            },
        }
    }

    /// The container's state.
    pub fn status_state(&self) -> (r: Option<&str>)
        ensures
            match r {
                Some(s) => item_status(*self) == Some(s@),
                None => item_status(*self) is None,
            },
    {
        let st: Option<&JsonValue> = match &self.status {
            Some(v) => Some(v),
            None => match &self.status_alias {
                Some(v) => Some(v),
                None => None,
            },
        };
        let from_status: Option<&str> = match st {
            Some(v) => match v.as_str() {
                Some(s) => Some(s),
                None => {
                    let inner = match v.get("state") {
                        Some(x) => Some(x),
                        None => v.get("State"),
                    };
                    match inner {
                        Some(x) => x.as_str(),
                        None => None,
                    }
                },
            },
            None => None,
        };
        match from_status {
            Some(s) => Some(s),
            None => first_str(&self.state, &self.state_alias),
        }
    }

    /// The labels in effect.
    pub fn labels_ref(&self) -> (r: Option<&Vec<(String, JsonValue)>>)
        ensures
            match r {
                Some(ls) => item_labels(*self) == Some(members_view(ls@, ls@.len() as int)),
                None => item_labels(*self) is None,
            },
    {
        match self.configuration_ref() {
            Some(c) => match &c.labels {
                Some(ls) => Some(ls),
                None => match &c.labels_alias {
                    Some(ls) => Some(ls),
                    None => None,
                },
            },
            None => None,
        }
    }

    /// The string value of the label `key`.
    pub fn label(&self, key: &str) -> (r: Option<&str>)
        ensures
            match r {
                Some(s) => item_label(*self, key@) == Some(s@),
                None => item_label(*self, key@) is None,
            },
    {
        match self.labels_ref() {
            Some(ls) => match lookup_member(ls, key) {
                Some(v) => v.as_str(),
                None => None,
            },
            None => None,
        }
    }

    /// Whether a label records an applied profile.
    pub fn has_profile_label(&self) -> (r: bool)
        ensures
            r == item_has_profile_label(*self),
    {
        match self.labels_ref() {
            Some(ls) => {
                proof {
                    lemma_members_view(ls@, ls@.len() as int);
                }
                let ghost ms = members_view(ls@, ls@.len() as int);
                let prefix = chars_of("muthr.profile.");
                let mut i: usize = 0;
                while i < ls.len()
                    invariant
                        i <= ls.len(),
                        ms == members_view(ls@, ls@.len() as int),
                        ms.len() == ls.len(),
                        forall|j: int| 0 <= j < ls.len() ==> #[trigger] ms[j] == (ls@[j].0@, ls@[j].1@),
                        forall|j: int| 0 <= j < i ==> !has_prefix(#[trigger] ms[j].0, "muthr.profile."@),
                        prefix@ == "muthr.profile."@,
                        item_labels(*self) == Some(ms),
                    decreases ls.len() - i,
                {
                    if starts_with(&chars_of(ls[i].0.as_str()), &prefix) {
                        assert(ms[i as int].0 == ls@[i as int].0@);
                        assert(has_prefix(ms[i as int].0, "muthr.profile."@));
                        assert(has_profile_key(ms));
                        return true;
                    }
                    i += 1;
                }
                false
            },
            None => false,
        }
    }

    /// Whether the container runs.
    pub fn is_running(&self) -> (r: bool)
        ensures
            r == item_running(*self),
    {
        match self.status_state() {
            Some(s) => running_state(s),
            None => false,
        }
    }

    /// Whether the container is a sandbox muthr manages for a project.
    pub fn is_managed_project(&self) -> (r: bool)
        ensures
            r == item_managed_project(*self),
    {
        opt_str_eq(self.label("muthr.managed"), "true") && opt_str_eq(self.label("muthr.owner"), "project")
    }
}

/// Some listed container has the id `id`.
pub open spec fn listed(items: Seq<ContainerListItem>, id: Seq<char>) -> bool {
    exists|i: int| 0 <= i < items.len() && item_id(#[trigger] items[i]) == Some(id)
}

/// Some listed container with the id `id` runs.
pub open spec fn listed_running(items: Seq<ContainerListItem>, id: Seq<char>) -> bool {
    exists|i: int| 0 <= i < items.len() && item_id(#[trigger] items[i]) == Some(id) && item_running(items[i])
}

/// Whether a container with the id is listed.
pub fn container_listed(items: &Vec<ContainerListItem>, id: &str) -> (r: bool)
    ensures
        r == listed(items@, id@),
{
    let mut i: usize = 0;
    while i < items.len()
        invariant
            i <= items.len(),
            forall|j: int| 0 <= j < i ==> item_id(#[trigger] items@[j]) != Some(id@),
        decreases items.len() - i,
    {
        if opt_str_eq(items[i].id(), id) {
            return true;
        }
        i += 1;
    }
    false
}

/// Whether a container with the id is listed as running.
pub fn container_listed_running(items: &Vec<ContainerListItem>, id: &str) -> (r: bool)
    ensures
        r == listed_running(items@, id@),
{
    let mut i: usize = 0;
    while i < items.len()
        invariant
            i <= items.len(),
            forall|j: int|
                0 <= j < i ==> !(item_id(#[trigger] items@[j]) == Some(id@) && item_running(items@[j])),
        decreases items.len() - i,
    {
        if opt_str_eq(items[i].id(), id) && items[i].is_running() {
            return true;
        }
        i += 1;
    }
    false
}

/// The ids of the managed project sandboxes among the listed containers.
pub open spec fn managed_sandbox_ids(items: Seq<ContainerListItem>) -> Set<Seq<char>> {
    Set::new(
        |id: Seq<char>|
            exists|i: int|
                0 <= i < items.len() && item_id(#[trigger] items[i]) == Some(id) && is_sandbox_id(id)
                    && item_managed_project(items[i]),
    )
}

/// The managed project sandboxes, sorted, each once.
pub fn managed_project_sandboxes(items: &Vec<ContainerListItem>) -> (r: Vec<String>)
    ensures
        strictly_sorted(string_views(r@)),
        string_views(r@).to_set() == managed_sandbox_ids(items@),
{
    let mut acc: Vec<Vec<char>> = Vec::new();
    let mut i: usize = 0;
    while i < items.len()
        invariant
            i <= items.len(),
            strictly_sorted(views(acc@)),
            views(acc@).to_set() == managed_sandbox_ids(items@.take(i as int)),
        decreases items.len() - i,
    {
        let ghost before = managed_sandbox_ids(items@.take(i as int));
        let ghost after = managed_sandbox_ids(items@.take(i + 1));
        match items[i].id() {
            Some(id) => {
                if sandbox_id(id) && items[i].is_managed_project() {
                    insert_sorted(&mut acc, chars_of(id));
                    assert(after =~= before.insert(id@)) by {
                        assert forall|x: Seq<char>| after.contains(x) implies before.insert(id@).contains(x) by {
                            let k = choose|k: int|
                                0 <= k < i + 1 && item_id(#[trigger] items@.take(i + 1)[k]) == Some(x)
                                    && is_sandbox_id(x) && item_managed_project(items@.take(i + 1)[k]);
                            if k < i {
                                assert(items@.take(i as int)[k] == items@.take(i + 1)[k]);
                            }
                        }
                        assert forall|x: Seq<char>| before.insert(id@).contains(x) implies after.contains(x) by {
                            if x == id@ {
                                assert(items@.take(i + 1)[i as int] == items@[i as int]);
                            } else {
                                let k = choose|k: int|
                                    0 <= k < i && item_id(#[trigger] items@.take(i as int)[k]) == Some(x)
                                        && is_sandbox_id(x) && item_managed_project(items@.take(i as int)[k]);
                                assert(items@.take(i + 1)[k] == items@.take(i as int)[k]);
                            }
                        }
                    }
                } else {
                    assert(after =~= before) by {
                        assert forall|x: Seq<char>| after.contains(x) implies before.contains(x) by {
                            let k = choose|k: int|
                                0 <= k < i + 1 && item_id(#[trigger] items@.take(i + 1)[k]) == Some(x)
                                    && is_sandbox_id(x) && item_managed_project(items@.take(i + 1)[k]);
                            if k < i {
                                assert(items@.take(i as int)[k] == items@.take(i + 1)[k]);
                            } else {
                                assert(items@.take(i + 1)[k] == items@[i as int]);
                            }
                        }
                        assert forall|x: Seq<char>| before.contains(x) implies after.contains(x) by {
                            let k = choose|k: int|
                                0 <= k < i && item_id(#[trigger] items@.take(i as int)[k]) == Some(x)
                                    && is_sandbox_id(x) && item_managed_project(items@.take(i as int)[k]);
                            assert(items@.take(i + 1)[k] == items@.take(i as int)[k]);
                        }
                    }
                }
            },
            None => {
                assert(after =~= before) by {
                    assert forall|x: Seq<char>| after.contains(x) implies before.contains(x) by {
                        let k = choose|k: int|
                            0 <= k < i + 1 && item_id(#[trigger] items@.take(i + 1)[k]) == Some(x)
                                && is_sandbox_id(x) && item_managed_project(items@.take(i + 1)[k]);
                        if k < i {
                            assert(items@.take(i as int)[k] == items@.take(i + 1)[k]);
                        } else {
                            assert(items@.take(i + 1)[k] == items@[i as int]);
                        }
                    }
                    assert forall|x: Seq<char>| before.contains(x) implies after.contains(x) by {
                        let k = choose|k: int|
                            0 <= k < i && item_id(#[trigger] items@.take(i as int)[k]) == Some(x)
                                && is_sandbox_id(x) && item_managed_project(items@.take(i as int)[k]);
                        assert(items@.take(i + 1)[k] == items@.take(i as int)[k]);
                    }
                }
            },
        }
        i += 1;
    }
    assert(items@.take(items.len() as int) =~= items@);
    let r = crate::text::chars_to_strings(&acc);
    r
}

/// What a cleanup of untracked sandboxes does with a listed container.
#[derive(Debug, Clone, Copy, PartialEq, Eq)]
pub enum CleanupVerdict {
    /// It reports no id: left alone.
    NoId,
    /// It is no project sandbox (no `muthr-` prefix, or a services
    /// container): left alone.
    NotSandbox,
    /// It lacks the labels of a managed project sandbox: left alone.
    Unlabeled,
    /// A profile was applied to it (its profile cache exists or a label
    /// records one): left alone.
    ProfileApplied,
    /// It runs: left alone.
    Running,
    /// It is removed.
    Remove,
}

/// The verdict on a listed container, given whether its profile cache
/// file exists.
pub open spec fn spec_cleanup_verdict(item: ContainerListItem, profile_cache_exists: bool) -> CleanupVerdict {
    match item_id(item) {
        None => CleanupVerdict::NoId,
        Some(id) => if !is_sandbox_id(id) {
            CleanupVerdict::NotSandbox
        } else if !item_managed_project(item) {
            CleanupVerdict::Unlabeled
        } else if profile_cache_exists || item_has_profile_label(item) {
            CleanupVerdict::ProfileApplied
        } else if item_running(item) {
            CleanupVerdict::Running
        } else {
            CleanupVerdict::Remove
        },
    }
}

/// Decides what a cleanup of untracked sandboxes does with a container.
pub fn cleanup_verdict(item: &ContainerListItem, profile_cache_exists: bool) -> (r: CleanupVerdict)
    ensures
        r == spec_cleanup_verdict(*item, profile_cache_exists),
{
    match item.id() {
        None => CleanupVerdict::NoId,
        Some(id) => if !sandbox_id(id) {
            CleanupVerdict::NotSandbox
        } else if !item.is_managed_project() {
            CleanupVerdict::Unlabeled
        } else if profile_cache_exists || item.has_profile_label() {
            CleanupVerdict::ProfileApplied
        } else if item.is_running() {
            CleanupVerdict::Running
        } else {
            CleanupVerdict::Remove
        },
    }
}

/// A cleanup removes only stopped, managed project sandboxes that no
/// profile was ever applied to.
pub proof fn law_cleanup_removes_only_untracked(item: ContainerListItem, profile_cache_exists: bool)
    ensures
        spec_cleanup_verdict(item, profile_cache_exists) == CleanupVerdict::Remove ==> {
            &&& item_id(item) matches Some(id) && is_sandbox_id(id)
            &&& item_managed_project(item)
            &&& !profile_cache_exists
            &&& !item_has_profile_label(item)
            &&& !item_running(item)
        },
{
}

/// A row of `sandbox ls`.
#[derive(Debug, Clone, PartialEq, Eq)]
pub struct SandboxRow {
    pub name: String,
    pub status: String,
    pub mount: String,
}

/// The value of a row: name, status, mount.
pub open spec fn row_view(r: SandboxRow) -> (Seq<char>, Seq<char>, Seq<char>) {
    (r.name@, r.status@, r.mount@)
}

/// The values of rows.
pub open spec fn rows_view(rs: Seq<SandboxRow>) -> Seq<(Seq<char>, Seq<char>, Seq<char>)> {
    rs.map_values(|r: SandboxRow| row_view(r))
}

/// `x` inserted after every row whose name does not come after its name.
pub open spec fn insert_row(s: Seq<(Seq<char>, Seq<char>, Seq<char>)>, x: (Seq<char>, Seq<char>, Seq<char>)) -> Seq<
    (Seq<char>, Seq<char>, Seq<char>),
>
    decreases s.len(),
{
    if s.len() == 0 {
        seq![x]
    } else if lex_lt(x.0, s[0].0) {
        seq![x] + s
    } else {
        seq![s[0]] + insert_row(s.drop_first(), x)
    }
}

/// The rows sorted by name, rows with equal names in their order (the
/// stable sort of `sort_by` on the names).
pub open spec fn sort_rows(rows: Seq<(Seq<char>, Seq<char>, Seq<char>)>) -> Seq<(Seq<char>, Seq<char>, Seq<char>)>
    decreases rows.len(),
{
    if rows.len() == 0 {
        rows
    } else {
        insert_row(sort_rows(rows.drop_last()), rows.last())
    }
}

/// The rows of `sandbox ls` before sorting: each listed project sandbox
/// (`muthr-` prefix, not a services container) with its state, `unknown`
/// when it reports none, and the guest workspace.
pub open spec fn listing_rows(items: Seq<ContainerListItem>) -> Seq<(Seq<char>, Seq<char>, Seq<char>)>
    decreases items.len(),
{
    if items.len() == 0 {
        Seq::empty()
    } else {
        let rest = listing_rows(items.drop_last());
        let it = items.last();
        match item_id(it) {
            Some(id) => if is_sandbox_id(id) {
                rest.push(
                    (
                        id,
                        match item_status(it) {
                            Some(s) => s,
                            None => "unknown"@,
                        },
                        "/workspace"@,
                    ),
                )
            } else {
                rest
            },
            None => rest,
        }
    }
}

proof fn lemma_insert_row_at(
    s: Seq<(Seq<char>, Seq<char>, Seq<char>)>,
    x: (Seq<char>, Seq<char>, Seq<char>),
    j: int,
)
    requires
        0 <= j <= s.len(),
        forall|k: int| 0 <= k < j ==> !lex_lt(x.0, #[trigger] s[k].0),
        j == s.len() || lex_lt(x.0, s[j].0),
    ensures
        insert_row(s, x) == s.insert(j, x),
    decreases s.len(),
{
    if s.len() == 0 {
        assert(s.insert(j, x) =~= seq![x]);
    } else if j == 0 {
        assert(s.insert(0, x) =~= seq![x] + s);
    } else {
        assert(!lex_lt(x.0, s[0].0));
        let t = s.drop_first();
        assert forall|k: int| 0 <= k < j - 1 implies !lex_lt(x.0, #[trigger] t[k].0) by {
            assert(t[k] == s[k + 1]);
        }
        if j < s.len() {
            assert(t[j - 1] == s[j]);
        }
        lemma_insert_row_at(t, x, j - 1);
        assert(seq![s[0]] + t.insert(j - 1, x) =~= s.insert(j, x));
    }
}

fn insert_row_exec(v: &mut Vec<SandboxRow>, x: SandboxRow)
    ensures
        rows_view(final(v)@) == insert_row(rows_view(old(v)@), row_view(x)),
{
    let ghost s = rows_view(v@);
    let name = chars_of(x.name.as_str());
    let mut j: usize = 0;
    while j < v.len() && !chars_lt(&name, &chars_of(v[j].name.as_str()))
        invariant
            j <= v.len(),
            rows_view(v@) == s,
            name@ == x.name@,
            forall|k: int| 0 <= k < j ==> !lex_lt(x.name@, #[trigger] s[k].0),
        decreases v.len() - j,
    {
        j += 1;
    }
    proof {
        lemma_insert_row_at(s, row_view(x), j as int);
    }
    v.insert(j, x);
    assert(rows_view(v@) =~= s.insert(j as int, row_view(x)));
}

/// The rows of `sandbox ls`: the listed project sandboxes with their state
/// and mount, sorted by name.
pub fn sandbox_rows(items: &Vec<ContainerListItem>) -> (r: Vec<SandboxRow>)
    ensures
        rows_view(r@) == sort_rows(listing_rows(items@)),
{
    let mut out: Vec<SandboxRow> = Vec::new();
    let mut i: usize = 0;
    assert(items@.take(0) =~= Seq::<ContainerListItem>::empty());
    while i < items.len()
        invariant
            i <= items.len(),
            rows_view(out@) == sort_rows(listing_rows(items@.take(i as int))),
        decreases items.len() - i,
    {
        let ghost t = items@.take(i + 1);
        assert(t.drop_last() =~= items@.take(i as int));
        assert(t.last() == items@[i as int]);
        match items[i].id() {
            Some(id) => {
                if sandbox_id(id) {
                    let status = match items[i].status_state() {
                        Some(s) => String::from_str(s),
                        None => String::from_str("unknown"),
                    };
                    let row = SandboxRow {
                        name: String::from_str(id),
                        status,
                        mount: String::from_str("/workspace"),
                    };
                    let ghost rv = row_view(row);
                    insert_row_exec(&mut out, row);
                    assert(listing_rows(t) == listing_rows(items@.take(i as int)).push(rv));
                    assert(listing_rows(t).drop_last() =~= listing_rows(items@.take(i as int)));
                }
            },
            None => {},
        }
        i += 1;
    }
    assert(items@.take(items.len() as int) =~= items@);
    out
}

/// Rows in order of their names (rows with equal names in any order).
pub open spec fn sorted_by_name(s: Seq<(Seq<char>, Seq<char>, Seq<char>)>) -> bool {
    forall|i: int, j: int| 0 <= i < j < s.len() ==> !lex_lt(s[j].0, s[i].0)
}

/// Sorting keeps every row and orders the rows by name.
pub proof fn law_sorted_rows_ordered(rows: Seq<(Seq<char>, Seq<char>, Seq<char>)>)
    ensures
        sort_rows(rows).len() == rows.len(),
        sort_rows(rows).to_multiset() == rows.to_multiset(),
        sorted_by_name(sort_rows(rows)),
    decreases rows.len(),
{
    broadcast use vstd::seq_lib::group_to_multiset_ensures;

    if rows.len() > 0 {
        law_sorted_rows_ordered(rows.drop_last());
        lemma_insert_row_props(sort_rows(rows.drop_last()), rows.last());
        assert(rows.drop_last().push(rows.last()) =~= rows);
    } else {
        assert(rows.to_multiset() =~= vstd::multiset::Multiset::empty());
    }
}

proof fn lemma_insert_row_props(s: Seq<(Seq<char>, Seq<char>, Seq<char>)>, x: (Seq<char>, Seq<char>, Seq<char>))
    requires
        sorted_by_name(s),
    ensures
        insert_row(s, x).len() == s.len() + 1,
        insert_row(s, x).to_multiset() == s.to_multiset().insert(x),
        sorted_by_name(insert_row(s, x)),
    decreases s.len(),
{
    broadcast use vstd::seq_lib::group_to_multiset_ensures, vstd::multiset::group_multiset_axioms;

    if s.len() == 0 {
        assert(seq![x] =~= Seq::<(Seq<char>, Seq<char>, Seq<char>)>::empty().push(x));
        assert(s.to_multiset() =~= vstd::multiset::Multiset::empty());
    } else if lex_lt(x.0, s[0].0) {
        let r = seq![x] + s;
        vstd::seq_lib::lemma_multiset_commutative(seq![x], s);
        assert(seq![x] =~= Seq::<(Seq<char>, Seq<char>, Seq<char>)>::empty().push(x));
        assert(Seq::<(Seq<char>, Seq<char>, Seq<char>)>::empty().to_multiset() =~= vstd::multiset::Multiset::empty());
        assert(r.to_multiset() =~= s.to_multiset().insert(x));
        assert forall|i: int, j: int| 0 <= i < j < r.len() implies !lex_lt(r[j].0, r[i].0) by {
            if i == 0 {
                assert(r[j] == s[j - 1]);
                if lex_lt(s[j - 1].0, x.0) {
                    crate::order::lemma_lex_transitive(s[j - 1].0, x.0, s[0].0);
                    if j - 1 == 0 {
                        crate::order::lemma_lex_irreflexive(s[0].0);
                    }
                }
            } else {
                assert(r[i] == s[i - 1]);
                assert(r[j] == s[j - 1]);
            }
        }
    } else {
        let t = s.drop_first();
        assert forall|i: int, j: int| 0 <= i < j < t.len() implies !lex_lt(t[j].0, t[i].0) by {
            assert(t[i] == s[i + 1]);
            assert(t[j] == s[j + 1]);
        }
        lemma_insert_row_props(t, x);
        let it = insert_row(t, x);
        let r = seq![s[0]] + it;
        vstd::seq_lib::lemma_multiset_commutative(seq![s[0]], it);
        vstd::seq_lib::lemma_multiset_commutative(seq![s[0]], t);
        assert(seq![s[0]] + t =~= s);
        assert(r.to_multiset() =~= s.to_multiset().insert(x));
        assert forall|i: int, j: int| 0 <= i < j < r.len() implies !lex_lt(r[j].0, r[i].0) by {
            if i == 0 {
                assert(r[j] == it[j - 1]);
                let e = it[j - 1];
                assert(it.contains(e));
                assert(it.to_multiset().count(e) > 0);
                if e != x {
                    assert(t.to_multiset().count(e) > 0);
                    assert(t.contains(e));
                    let k = choose|k: int| 0 <= k < t.len() && t[k] == e;
                    assert(s[k + 1] == e);
                }
            } else {
                assert(r[i] == it[i - 1]);
                assert(r[j] == it[j - 1]);
            }
        }
    }
}

/// An optional reference's value.
pub open spec fn opt_view(o: Option<&JsonValue>) -> Option<JsonView> {
    match o {
        Some(x) => Some(x@),
        None => None,
    }
}

fn get_opt<'a>(v: Option<&'a JsonValue>, key: &str) -> (r: Option<&'a JsonValue>)
    ensures
        opt_view(r) == jget_opt(opt_view(v), key@),
{
    match v {
        Some(x) => x.get(key),
        None => None,
    }
}

fn str_opt<'a>(v: Option<&'a JsonValue>) -> (r: Option<&'a str>)
    ensures
        match r {
            Some(s) => jstr_opt(opt_view(v)) == Some(s@),
            None => jstr_opt(opt_view(v)) is None,
        },
{
    match v {
        Some(x) => x.as_str(),
        None => None,
    }
}

fn or_opt<'a>(a: Option<&'a JsonValue>, b: Option<&'a JsonValue>) -> (r: Option<&'a JsonValue>)
    ensures
        opt_view(r) == first_some(opt_view(a), opt_view(b)),
{
    match a {
        Some(x) => Some(x),
        None => b,
    }
}

fn or_str<'a>(a: Option<&'a str>, b: Option<&'a str>) -> (r: Option<&'a str>)
    ensures
        r == first_some(a, b),
{
    match a {
        Some(x) => Some(x),
        None => b,
    }
}

/// The id that the services and diagnostics commands read from a listed
/// container: its `id` when a string, else its configuration's `id` when a
/// string.
pub open spec fn raw_id(item: JsonView) -> Option<Seq<char>> {
    first_some(jstr_opt(jget(item, "id"@)), jstr_opt(jget_opt(jget(item, "configuration"@), "id"@)))
}

/// The string value of the label `key` in a listed container's
/// configuration.
pub open spec fn raw_label(item: JsonView, key: Seq<char>) -> Option<Seq<char>> {
    jstr_opt(jget_opt(jget_opt(jget(item, "configuration"@), "labels"@), key))
}

/// A listed container's state as the services commands read it: its
/// `status.state`, else its `state`.
pub open spec fn raw_state(item: JsonView) -> Option<Seq<char>> {
    first_some(jstr_opt(jget_opt(jget(item, "status"@), "state"@)), jstr_opt(jget(item, "state"@)))
}

/// The id of a listed container, as the services and diagnostics commands
/// read it.
pub fn raw_item_id(item: &JsonValue) -> (r: Option<&str>)
    ensures
        match r {
            Some(x) => raw_id(item@) == Some(x@),
            None => raw_id(item@) is None,
        },
{
    or_str(str_opt(item.get("id")), str_opt(get_opt(item.get("configuration"), "id")))
}

/// The value of a label of a listed container.
pub fn raw_item_label<'a>(item: &'a JsonValue, key: &str) -> (r: Option<&'a str>)
    ensures
        match r {
            Some(x) => raw_label(item@, key@) == Some(x@),
            None => raw_label(item@, key@) is None,
        },
{
    str_opt(get_opt(get_opt(item.get("configuration"), "labels"), key))
}

/// A listed container (read as the services commands read it) has the id.
pub open spec fn raw_listed(items: Seq<JsonValue>, id: Seq<char>) -> bool {
    exists|i: int| 0 <= i < items.len() && raw_id(#[trigger] items[i]@) == Some(id)
}

/// A listed container with the id is in the state `running`.
pub open spec fn raw_listed_running(items: Seq<JsonValue>, id: Seq<char>) -> bool {
    exists|i: int|
        0 <= i < items.len() && raw_id(#[trigger] items[i]@) == Some(id) && raw_state(items[i]@) == Some(
            "running"@,
        )
}

/// A listed container with the id has the label `key` set to `expected`.
pub open spec fn raw_listed_with_label(items: Seq<JsonValue>, id: Seq<char>, key: Seq<char>, expected: Seq<char>) -> bool {
    exists|i: int|
        0 <= i < items.len() && raw_id(#[trigger] items[i]@) == Some(id) && raw_label(items[i]@, key) == Some(
            expected,
        )
}

fn str_is(o: Option<&str>, s: &str) -> (r: bool)
    ensures
        r == (o matches Some(x) && x@ == s@),
{
    opt_str_eq(o, s)
}

/// Whether the services commands find a container with the id.
pub fn services_container_exists(items: &Vec<JsonValue>, id: &str) -> (r: bool)
    ensures
        r == raw_listed(items@, id@),
{
    let mut i: usize = 0;
    while i < items.len()
        invariant
            i <= items.len(),
            forall|j: int| 0 <= j < i ==> raw_id(#[trigger] items@[j]@) != Some(id@),
        decreases items.len() - i,
    {
        if str_is(raw_item_id(&items[i]), id) {
            return true;
        }
        i += 1;
    }
    false
}

/// Whether the services commands find the container with the id running.
pub fn services_container_running(items: &Vec<JsonValue>, id: &str) -> (r: bool)
    ensures
        r == raw_listed_running(items@, id@),
{
    let mut i: usize = 0;
    while i < items.len()
        invariant
            i <= items.len(),
            forall|j: int|
                0 <= j < i ==> !(raw_id(#[trigger] items@[j]@) == Some(id@) && raw_state(items@[j]@) == Some(
                    "running"@,
                )),
        decreases items.len() - i,
    {
        let it = &items[i];
        let state = or_str(str_opt(get_opt(it.get("status"), "state")), str_opt(it.get("state")));
        if str_is(raw_item_id(it), id) && str_is(state, "running") {
            return true;
        }
        i += 1;
    }
    false
}

/// Whether the services commands find the container with the id labelled
/// `key=expected`.
pub fn services_container_has_label(items: &Vec<JsonValue>, id: &str, key: &str, expected: &str) -> (r: bool)
    ensures
        r == raw_listed_with_label(items@, id@, key@, expected@),
{
    let mut i: usize = 0;
    while i < items.len()
        invariant
            i <= items.len(),
            forall|j: int|
                0 <= j < i ==> !(raw_id(#[trigger] items@[j]@) == Some(id@) && raw_label(items@[j]@, key@)
                    == Some(expected@)),
        decreases items.len() - i,
    {
        if str_is(raw_item_id(&items[i]), id) && str_is(raw_item_label(&items[i], key), expected) {
            return true;
        }
        i += 1;
    }
    false
}

/// The listed containers that the diagnostics count as managed: an id
/// starting with `muthr-` and the label `muthr.managed=true`.
pub open spec fn managed_count(items: Seq<JsonValue>) -> nat
    decreases items.len(),
{
    if items.len() == 0 {
        0
    } else {
        managed_count(items.drop_last()) + if raw_id(items.last()@) matches Some(id) && has_prefix(
            id,
            "muthr-"@,
        ) && raw_label(items.last()@, "muthr.managed"@) == Some("true"@) {
            1nat
        } else {
            0nat
        }
    }
}

/// How many managed containers the diagnostics report.
pub fn managed_container_count(items: &Vec<JsonValue>) -> (r: usize)
    ensures
        r == managed_count(items@),
{
    let mut n: usize = 0;
    let mut i: usize = 0;
    assert(items@.take(0) =~= Seq::<JsonValue>::empty());
    while i < items.len()
        invariant
            i <= items.len(),
            n == managed_count(items@.take(i as int)),
            n <= i,
        decreases items.len() - i,
    {
        assert(items@.take(i + 1).drop_last() =~= items@.take(i as int));
        let counted = match raw_item_id(&items[i]) {
            Some(id) => starts_with(&chars_of(id), &chars_of("muthr-")) && str_is(
                raw_item_label(&items[i], "muthr.managed"),
                "true",
            ),
            None => false,
        };
        if counted {
            n += 1;
        }
        i += 1;
    }
    assert(items@.take(items.len() as int) =~= items@);
    n
}

/// The first of three members present.
pub open spec fn get3(v: JsonView, a: Seq<char>, b: Seq<char>, c: Seq<char>) -> Option<JsonView> {
    first_some(jget(v, a), first_some(jget(v, b), jget(v, c)))
}

/// The configuration of a listed container as shutdown reads it, under any
/// of its four spellings.
pub open spec fn shutdown_configuration(item: JsonView) -> Option<JsonView> {
    first_some(
        jget(item, "configuration"@),
        first_some(jget(item, "Configuration"@), first_some(jget(item, "config"@), jget(item, "Config"@))),
    )
}

/// The id of a listed container as shutdown reads it.
pub open spec fn shutdown_id(item: JsonView) -> Option<Seq<char>> {
    first_some(
        jstr_opt(get3(item, "id"@, "ID"@, "Id"@)),
        jstr_opt(
            match shutdown_configuration(item) {
                Some(c) => get3(c, "id"@, "ID"@, "Id"@),
                None => None,
            },
        ),
    )
}

/// The labels of a listed container as shutdown reads them.
pub open spec fn shutdown_labels(item: JsonView) -> Option<JsonView> {
    match shutdown_configuration(item) {
        Some(c) => first_some(jget(c, "labels"@), jget(c, "Labels"@)),
        None => None,
    }
}

/// A listed container that shutdown stops: a managed project sandbox.
pub open spec fn shutdown_target(item: JsonView) -> Option<Seq<char>> {
    match shutdown_id(item) {
        Some(id) => if is_sandbox_id(id) && jstr_opt(jget_opt(shutdown_labels(item), "muthr.managed"@)) == Some(
            "true"@,
        ) && jstr_opt(jget_opt(shutdown_labels(item), "muthr.owner"@)) == Some("project"@) {
            Some(id)
        } else {
            None
        },
        None => None,
    }
}

/// The sandboxes shutdown stops, in the order listed.
pub open spec fn shutdown_targets(items: Seq<JsonValue>) -> Seq<Seq<char>>
    decreases items.len(),
{
    if items.len() == 0 {
        Seq::empty()
    } else {
        match shutdown_target(items.last()@) {
            Some(id) => shutdown_targets(items.drop_last()).push(id),
            None => shutdown_targets(items.drop_last()),
        }
    }
}

/// Shutdown stops only managed project sandboxes: every target is a
/// sandbox id (never a services container) labelled as managed and owned
/// by a project.
pub proof fn law_shutdown_stops_only_sandboxes(items: Seq<JsonValue>)
    ensures
        forall|k: int| 0 <= k < shutdown_targets(items).len() ==> is_sandbox_id(#[trigger] shutdown_targets(items)[k]),
        forall|k: int|
            #![trigger shutdown_targets(items)[k]]
            0 <= k < shutdown_targets(items).len() ==> exists|i: int|
                0 <= i < items.len() && #[trigger] shutdown_target(items[i]@) == Some(shutdown_targets(items)[k]),
    decreases items.len(),
{
    if items.len() > 0 {
        let d = items.drop_last();
        law_shutdown_stops_only_sandboxes(d);
        let prev = shutdown_targets(d);
        let r = shutdown_targets(items);
        assert forall|k: int| 0 <= k < r.len() implies is_sandbox_id(#[trigger] r[k]) && exists|i: int|
            0 <= i < items.len() && #[trigger] shutdown_target(items[i]@) == Some(r[k]) by {
            if k < prev.len() {
                assert(r[k] == prev[k]);
                let i = choose|i: int| 0 <= i < d.len() && #[trigger] shutdown_target(d[i]@) == Some(prev[k]);
                assert(items[i] == d[i]);
            } else {
                assert(shutdown_target(items[items.len() - 1]@) == Some(r[k]));
            }
        }
    }
}

fn get3_exec<'a>(v: &'a JsonValue, a: &str, b: &str, c: &str) -> (r: Option<&'a JsonValue>)
    ensures
        opt_view(r) == get3(v@, a@, b@, c@),
{
    or_opt(v.get(a), or_opt(v.get(b), v.get(c)))
}

fn shutdown_target_exec(item: &JsonValue) -> (r: Option<String>)
    ensures
        match r {
            Some(s) => shutdown_target(item@) == Some(s@),
            None => shutdown_target(item@) is None,
        },
{
    let conf = or_opt(
        item.get("configuration"),
        or_opt(item.get("Configuration"), or_opt(item.get("config"), item.get("Config"))),
    );
    let conf_id = match conf {
        Some(c) => get3_exec(c, "id", "ID", "Id"),
        None => None,
    };
    let id = or_str(str_opt(get3_exec(item, "id", "ID", "Id")), str_opt(conf_id));
    let labels = match conf {
        Some(c) => or_opt(c.get("labels"), c.get("Labels")),
        None => None,
    };
    match id {
        Some(id) => if sandbox_id(id) && str_is(str_opt(get_opt(labels, "muthr.managed")), "true") && str_is(
            str_opt(get_opt(labels, "muthr.owner")),
            "project",
        ) {
            Some(String::from_str(id))
        } else {
            None
        },
        None => None,
    }
}

/// The managed project sandboxes that shutdown stops, in the order listed.
pub fn shutdown_sandboxes(items: &Vec<JsonValue>) -> (r: Vec<String>)
    ensures
        string_views(r@) == shutdown_targets(items@),
{
    let mut out: Vec<String> = Vec::new();
    let mut i: usize = 0;
    assert(items@.take(0) =~= Seq::<JsonValue>::empty());
    while i < items.len()
        invariant
            i <= items.len(),
            string_views(out@) == shutdown_targets(items@.take(i as int)),
        decreases items.len() - i,
    {
        assert(items@.take(i + 1).drop_last() =~= items@.take(i as int));
        if let Some(id) = shutdown_target_exec(&items[i]) {
            let ghost before = string_views(out@);
            out.push(id);
            assert(string_views(out@) =~= before.push(id@));
        }
        i += 1;
    }
    assert(items@.take(items.len() as int) =~= items@);
    out
}

/// A gateway a candidate value gives: a string that is not blank, trimmed.
pub open spec fn usable_gateway(c: Option<JsonView>) -> Option<Seq<char>> {
    match jstr_opt(c) {
        Some(ip) => if trim(ip).len() > 0 {
            Some(trim(ip))
        } else {
            None
        },
        None => None,
    }
}

/// The gateway of the first subnet listed under `key`.
pub open spec fn first_subnet_gateway(entry: JsonView, key: Seq<char>, field: Seq<char>) -> Option<JsonView> {
    match jget(entry, key) {
        Some(v) => match jitems(v) {
            Some(xs) => if xs.len() > 0 {
                jget(xs[0], field)
            } else {
                None
            },
            None => None,
        },
        None => None,
    }
}

/// Where a container network may report its gateway, in the order looked
/// at.
pub open spec fn gateway_candidates(e: JsonView) -> Seq<Option<JsonView>> {
    seq![
        jget(e, "gateway"@),
        jget(e, "Gateway"@),
        jget_opt(jget(e, "status"@), "ipv4Gateway"@),
        jget_opt(jget(e, "status"@), "ipv6Gateway"@),
        jget_opt(jget(e, "status"@), "gateway"@),
        jget_opt(jget(e, "Status"@), "IPv4Gateway"@),
        jget_opt(jget(e, "Status"@), "IPv6Gateway"@),
        jget_opt(jget(e, "Status"@), "Gateway"@),
        jget_opt(jget(e, "ipam"@), "gateway"@),
        jget_opt(jget(e, "IPAM"@), "Gateway"@),
        first_subnet_gateway(e, "subnets"@, "gateway"@),
        first_subnet_gateway(e, "Subnets"@, "Gateway"@),
    ]
}

/// The first usable gateway among candidates.
pub open spec fn first_usable(cs: Seq<Option<JsonView>>) -> Option<Seq<char>>
    decreases cs.len(),
{
    if cs.len() == 0 {
        None
    } else if usable_gateway(cs[0]) is Some {
        usable_gateway(cs[0])
    } else {
        first_usable(cs.drop_first())
    }
}

/// The gateway of the first network entry that reports a usable one.
pub open spec fn spec_network_gateway(entries: Seq<JsonValue>) -> Option<Seq<char>>
    decreases entries.len(),
{
    if entries.len() == 0 {
        None
    } else if first_usable(gateway_candidates(entries[0]@)) is Some {
        first_usable(gateway_candidates(entries[0]@))
    } else {
        spec_network_gateway(entries.drop_first())
    }
}

fn usable_gateway_exec(c: Option<&JsonValue>) -> (r: Option<String>)
    ensures
        match r {
            Some(s) => usable_gateway(opt_view(c)) == Some(s@),
            None => usable_gateway(opt_view(c)) is None,
        },
{
    match str_opt(c) {
        Some(ip) => {
            let t = crate::text::trim_str(ip);
            if t.len() > 0 {
                Some(string_from_chars(&t))
            } else {
                None
            }
        },
        None => None,
    }
}

fn first_subnet_exec<'a>(e: &'a JsonValue, key: &str, field: &str) -> (r: Option<&'a JsonValue>)
    ensures
        opt_view(r) == first_subnet_gateway(e@, key@, field@),
{
    match e.get(key) {
        Some(v) => match v.as_array() {
            Some(xs) => if xs.len() > 0 {
                proof {
                    lemma_items_view(xs@, xs@.len() as int);
                }
                xs[0].get(field)
            } else {
                proof {
                    lemma_items_view(xs@, xs@.len() as int);
                }
                None
            },
            None => None,
        },
        None => None,
    }
}

fn entry_gateway(e: &JsonValue) -> (r: Option<String>)
    ensures
        match r {
            Some(s) => first_usable(gateway_candidates(e@)) == Some(s@),
            None => first_usable(gateway_candidates(e@)) is None,
        },
{
    let status = e.get("status");
    let status_up = e.get("Status");
    let cands: Vec<Option<&JsonValue>> = vec![
        e.get("gateway"),
        e.get("Gateway"),
        get_opt(status, "ipv4Gateway"),
        get_opt(status, "ipv6Gateway"),
        get_opt(status, "gateway"),
        get_opt(status_up, "IPv4Gateway"),
        get_opt(status_up, "IPv6Gateway"),
        get_opt(status_up, "Gateway"),
        get_opt(e.get("ipam"), "gateway"),
        get_opt(e.get("IPAM"), "Gateway"),
        first_subnet_exec(e, "subnets", "gateway"),
        first_subnet_exec(e, "Subnets", "Gateway"),
    ];
    let ghost cs = gateway_candidates(e@);
    assert(cands@.len() == cs.len());
    assert forall|j: int| 0 <= j < cs.len() implies opt_view(#[trigger] cands@[j]) == cs[j] by {
    }
    let mut i: usize = 0;
    assert(cs.skip(0) =~= cs);
    while i < cands.len()
        invariant
            i <= cands.len() == cs.len(),
            forall|j: int| 0 <= j < cs.len() ==> opt_view(#[trigger] cands@[j]) == cs[j],
            first_usable(cs) == first_usable(cs.skip(i as int)),
            cs == gateway_candidates(e@),
        decreases cands.len() - i,
    {
        assert(cs.skip(i as int)[0] == cs[i as int]);
        assert(cs.skip(i as int).drop_first() =~= cs.skip(i + 1));
        if let Some(g) = usable_gateway_exec(cands[i]) {
            return Some(g);
        }
        i += 1;
    }
    None
}

/// The host gateway that `container network list --format json` reports:
/// the first network entry's first usable gateway.
pub fn network_gateway(entries: &Vec<JsonValue>) -> (r: Option<String>)
    ensures
        match r {
            Some(s) => spec_network_gateway(entries@) == Some(s@),
            None => spec_network_gateway(entries@) is None,
        },
{
    let mut i: usize = 0;
    assert(entries@.skip(0) =~= entries@);
    while i < entries.len()
        invariant
            i <= entries.len(),
            spec_network_gateway(entries@) == spec_network_gateway(entries@.skip(i as int)),
        decreases entries.len() - i,
    {
        assert(entries@.skip(i as int)[0] == entries@[i as int]);
        assert(entries@.skip(i as int).drop_first() =~= entries@.skip(i + 1));
        if let Some(g) = entry_gateway(&entries[i]) {
            return Some(g);
        }
        i += 1;
    }
    None
}

} // verus!
