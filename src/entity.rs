use vstd::prelude::*;

use crate::equality::{bool_change, text_change, views, push_bool_change, push_text_change, DiffView, Difference, LooksLike};
use crate::text::{keys_match, opt_eq, opt_view, same_key};

verus! {

/// A lightweight reference to another resource: its id in the system that
/// issued it, its name and whether it is disabled.
#[derive(Debug)]
pub struct BaseEntity {
    pub id: String,
    pub name: String,
    pub disabled: bool,
}

impl Clone for BaseEntity {
    fn clone(&self) -> (r: Self)
        ensures
            r == *self,
    {
        BaseEntity { id: self.id.clone(), name: self.name.clone(), disabled: self.disabled }
    }
}

impl View for BaseEntity {
    type V = BaseEntity;

    open spec fn view(&self) -> BaseEntity {
        *self
    }
}

impl LooksLike for BaseEntity {
    open spec fn spec_same(a: BaseEntity, b: BaseEntity) -> bool {
        same_key(a.name@, b.name@)
    }

    open spec fn spec_diffs(a: BaseEntity, b: BaseEntity) -> Seq<DiffView> {
        text_change("name"@, a.name@, b.name@) + bool_change("disabled"@, a.disabled, b.disabled)
    }

    proof fn lemma_same_is_equivalence(a: BaseEntity, b: BaseEntity, c: BaseEntity) {
    }

    open spec fn spec_wf(a: BaseEntity) -> bool {
        true
    }

    proof fn lemma_no_self_difference(a: BaseEntity) {
    }

    fn differences(&self, other: &Self) -> (r: Vec<Difference>) {
        let mut diffs: Vec<Difference> = Vec::new();
        assert(views(diffs@) =~= Seq::<DiffView>::empty());
        push_text_change(&mut diffs, "name", &self.name, &other.name);
        push_bool_change(&mut diffs, "disabled", self.disabled, other.disabled);
        diffs
    }

    fn looks_like(&self, other: &Self) -> (r: bool) {
        self.differences(other).len() == 0
    }

    fn is_same_resource(&self, other: &Self) -> (r: bool) {
        keys_match(&self.name, &other.name)
    }

    fn duplicate(&self) -> (r: Self) {
        self.clone()
    }
}

} // verus!

verus! {

/// A point in time, as seconds and nanoseconds since the Unix epoch (UTC).
#[derive(Debug, Clone, Copy, PartialEq, Eq)]
pub struct Timestamp {
    pub seconds: i64,
    pub nanos: u32,
}

impl Default for Timestamp {
    fn default() -> (r: Self)
        ensures
            r.seconds == 0 && r.nanos == 0,
    {
        Timestamp { seconds: 0, nanos: 0 }
    }
}

/// A reference to a user or a group as the platform reports it in audit fields.
/// Two selections are equal when their names are.
#[derive(Debug)]
pub struct UserGroupSelection {
    pub id: Option<String>,
    pub name: Option<String>,
}

impl Clone for UserGroupSelection {
    fn clone(&self) -> (r: Self)
        ensures
            r == *self,
    {
        UserGroupSelection { id: clone_opt_string(&self.id), name: clone_opt_string(&self.name) }
    }
}

impl Default for UserGroupSelection {
    fn default() -> (r: Self)
        ensures
            r.id.is_none() && r.name.is_none(),
    {
        UserGroupSelection { id: None, name: None }
    }
}

impl PartialEq for UserGroupSelection {
    fn eq(&self, other: &Self) -> (r: bool) {
        opt_eq(&self.name, &other.name)
    }
}

impl vstd::std_specs::cmp::PartialEqSpecImpl for UserGroupSelection {
    open spec fn obeys_eq_spec() -> bool {
        true
    }

    open spec fn eq_spec(&self, other: &UserGroupSelection) -> bool {
        opt_view(self.name) == opt_view(other.name)
    }
}

impl UserGroupSelection {
    /// The text shown for a selection: `UserGroupSelection: <name>`, or
    /// `UserGroupSelection: None` when it has no name.
    pub fn describe(&self) -> (r: String)
        ensures
            r@ == selection_text(opt_view(self.name)),
    {
        match &self.name {
            Some(n) => String::from_str("UserGroupSelection: ").concat(n.as_str()),
            None => String::from_str("UserGroupSelection: None"),
        }
    }
}

pub open spec fn selection_text(name: Option<Seq<char>>) -> Seq<char> {
    match name {
        Some(n) => "UserGroupSelection: "@ + n,
        None => "UserGroupSelection: None"@,
    }
}

/// Copies an optional string.
pub fn clone_opt_string(o: &Option<String>) -> (r: Option<String>)
    ensures
        r == *o,
{
    match o {
        Some(s) => Some(s.clone()),
        None => None,
    }
}

/// Copies an optional selection.
pub fn clone_opt_selection(o: &Option<UserGroupSelection>) -> (r: Option<UserGroupSelection>)
    ensures
        r == *o,
{
    match o {
        Some(s) => Some(s.clone()),
        None => None,
    }
}

/// Copies a list of strings.
pub fn clone_strings(v: &Vec<String>) -> (r: Vec<String>)
    ensures
        r@ == v@,
{
    let mut out: Vec<String> = Vec::new();
    let mut i: usize = 0;
    while i < v.len()
        invariant
            i <= v.len(),
            out@ == v@.subrange(0, i as int),
        decreases v.len() - i,
    {
        out.push(v[i].clone());
        i += 1;
        assert(out@ =~= v@.subrange(0, i as int));
    }
    assert(v@.subrange(0, v.len() as int) =~= v@);
    out
}

/// Copies a list of stubs.
pub fn clone_entities(v: &Vec<BaseEntity>) -> (r: Vec<BaseEntity>)
    ensures
        r@ == v@,
{
    let mut out: Vec<BaseEntity> = Vec::new();
    let mut i: usize = 0;
    while i < v.len()
        invariant
            i <= v.len(),
            out@ == v@.subrange(0, i as int),
        decreases v.len() - i,
    {
        out.push(v[i].clone());
        i += 1;
        assert(out@ =~= v@.subrange(0, i as int));
    }
    assert(v@.subrange(0, v.len() as int) =~= v@);
    out
}

/// Copies an optional list of strings.
pub fn clone_opt_strings(o: &Option<Vec<String>>) -> (r: Option<Vec<String>>)
    ensures
        r matches Some(v) ==> o matches Some(w) && v@ == w@,
        r is None <==> o is None,
{
    match o {
        Some(v) => Some(clone_strings(v)),
        None => None,
    }
}

} // verus!
