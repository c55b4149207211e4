use vstd::prelude::*;

use crate::entity::BaseEntity;
use crate::equality::LooksLike;
use crate::groups::{Group, GroupView};
use crate::plan::{find_first, first_match, is_first_match, seq_view};
use crate::roles::Role;
use crate::users::{User, UserView};
use crate::migrator::SwimlaneMigratorError;

verus! {

/// A resource kind whose values carry the identifier their system gave them.
pub trait Identified: LooksLike {
    spec fn spec_id(v: Self::V) -> Seq<char>;

    fn resource_id(&self) -> (r: &String)
        ensures
            r@ == Self::spec_id(self@),
    ;
}

impl Identified for BaseEntity {
    open spec fn spec_id(v: Self::V) -> Seq<char> {
        v.id@
    }

    fn resource_id(&self) -> (r: &String) {
        &self.id
    }
}

impl Identified for Group {
    open spec fn spec_id(v: Self::V) -> Seq<char> {
        v.id
    }

    fn resource_id(&self) -> (r: &String) {
        &self.id
    }
}

impl Identified for Role {
    open spec fn spec_id(v: Self::V) -> Seq<char> {
        v.id
    }

    fn resource_id(&self) -> (r: &String) {
        &self.id
    }
}

impl Identified for User {
    open spec fn spec_id(v: Self::V) -> Seq<char> {
        v.id
    }

    fn resource_id(&self) -> (r: &String) {
        &self.id
    }
}

/// An identifier translation table: pairs of a source-system id and the
/// destination-system id of the same resource. A lookup takes the first pair
/// with the given source id.
#[derive(Debug)]
pub struct IdTable {
    pub entries: Vec<(String, String)>,
}

impl View for IdTable {
    type V = Seq<(Seq<char>, Seq<char>)>;

    open spec fn view(&self) -> Seq<(Seq<char>, Seq<char>)> {
        self.entries@.map_values(|e: (String, String)| (e.0@, e.1@))
    }
}

/// `j` is the first pair of `t` for source id `k`.
pub open spec fn is_first_entry(t: Seq<(Seq<char>, Seq<char>)>, k: Seq<char>, j: int) -> bool {
    0 <= j < t.len() && t[j].0 == k && forall|l: int| 0 <= l < j ==> (#[trigger] t[l]).0 != k
}

/// Whether `t` has a pair for source id `k`.
pub open spec fn has_entry(t: Seq<(Seq<char>, Seq<char>)>, k: Seq<char>) -> bool {
    exists|j: int| 0 <= j < t.len() && (#[trigger] t[j]).0 == k
}

/// The destination id that `t` gives for source id `k`.
pub open spec fn lookup(t: Seq<(Seq<char>, Seq<char>)>, k: Seq<char>) -> Option<Seq<char>> {
    if exists|j: int| is_first_entry(t, k, j) {
        Some(t[choose|j: int| is_first_entry(t, k, j)].1)
    } else {
        None
    }
}

/// The id a reference is written with: its translation, or itself when `t` has none.
pub open spec fn translated(t: Seq<(Seq<char>, Seq<char>)>, k: Seq<char>) -> Seq<char> {
    match lookup(t, k) {
        Some(v) => v,
        None => k,
    }
}

proof fn lemma_lookup_is(t: Seq<(Seq<char>, Seq<char>)>, k: Seq<char>, j: int)
    requires
        is_first_entry(t, k, j),
    ensures
        lookup(t, k) == Some(t[j].1),
{
    let c = choose|j: int| is_first_entry(t, k, j);
    assert(is_first_entry(t, k, c));
    if c < j {
        assert(t[c].0 != k);
    } else if c > j {
        assert(t[j].0 != k);
    }
}

proof fn lemma_lookup_none(t: Seq<(Seq<char>, Seq<char>)>, k: Seq<char>)
    requires
        !has_entry(t, k),
    ensures
        lookup(t, k) is None,
{
    if exists|j: int| is_first_entry(t, k, j) {
        let j = choose|j: int| is_first_entry(t, k, j);
        assert(t[j].0 == k);
    }
}

/// The pairs of the table of a kind: for each source resource that has a match
/// in the destination, its id and the id of its first match, in source order.
pub open spec fn table_spec<T: Identified>(s: Seq<T::V>, d: Seq<T::V>) -> Seq<(Seq<char>, Seq<char>)>
    decreases s.len(),
{
    if s.len() == 0 {
        seq![]
    } else {
        table_spec::<T>(s.drop_last(), d) + match first_match::<T>(s.last(), d) {
            Some(j) => seq![(T::spec_id(s.last()), T::spec_id(d[j]))],
            None => seq![],
        }
    }
}

impl IdTable {
    pub fn new() -> (r: IdTable)
        ensures
            r@.len() == 0,
    {
        IdTable { entries: Vec::new() }
    }

    /// The destination id recorded for a source id.
    pub fn get(&self, k: &String) -> (r: Option<&String>)
        ensures
            r matches Some(v) ==> lookup(self@, k@) == Some(v@),
            r is None <==> lookup(self@, k@) is None,
    {
        let ghost t = self@;
        let mut j: usize = 0;
        while j < self.entries.len()
            invariant
                j <= self.entries.len(),
                t == self@,
                t.len() == self.entries.len(),
                forall|l: int| 0 <= l < j ==> (#[trigger] t[l]).0 != k@,
            decreases self.entries.len() - j,
        {
            assert(t[j as int] == (self.entries@[j as int].0@, self.entries@[j as int].1@));
            if self.entries[j].0 == *k {
                proof { lemma_lookup_is(t, k@, j as int); }
                return Some(&self.entries[j].1);
            }
            j += 1;
        }
        proof { lemma_lookup_none(t, k@); }
        None
    }

    /// Whether a source id has a translation.
    pub fn contains_key(&self, k: &String) -> (r: bool)
        ensures
            r == (lookup(self@, k@) is Some),
    {
        self.get(k).is_some()
    }

    /// Records the destination id of a source resource, ahead of any earlier
    /// record for the same source id (used once a resource has been created).
    pub fn insert(&mut self, source_id: String, dest_id: String)
        ensures
            lookup(final(self)@, source_id@) == Some(dest_id@),
            forall|k: Seq<char>| k != source_id@ ==> lookup(#[trigger] final(self)@, k) == lookup(old(self)@, k),
    {
        let ghost t = self@;
        let ghost sid = source_id@;
        let ghost did = dest_id@;
        self.entries.insert(0, (source_id, dest_id));
        let ghost n = self@;
        assert(n =~= seq![(sid, did)] + t);
        assert(is_first_entry(n, sid, 0));
        proof { lemma_lookup_is(n, sid, 0); }
        assert forall|k: Seq<char>| k != sid implies lookup(#[trigger] self@, k) == lookup(t, k) by {
            if has_entry(t, k) {
                let j = choose|j: int| is_first_entry(t, k, j);
                assert(is_first_entry(t, k, j)) by {
                    let w = choose|w: int| 0 <= w < t.len() && (#[trigger] t[w]).0 == k;
                    lemma_first_exists(t, k, w);
                }
                assert(is_first_entry(n, k, j + 1)) by {
                    assert forall|l: int| 0 <= l < j + 1 implies (#[trigger] n[l]).0 != k by {
                        if l > 0 {
                            assert(n[l] == t[l - 1]);
                        }
                    }
                }
                lemma_lookup_is(n, k, j + 1);
                lemma_lookup_is(t, k, j);
            } else {
                lemma_lookup_none(t, k);
                assert(!has_entry(n, k)) by {
                    if has_entry(n, k) {
                        let w = choose|w: int| 0 <= w < n.len() && (#[trigger] n[w]).0 == k;
                        assert(w > 0);
                        assert(t[w - 1] == n[w]);
                    }
                }
                lemma_lookup_none(n, k);
            }
        }
    }
}

proof fn lemma_first_exists(t: Seq<(Seq<char>, Seq<char>)>, k: Seq<char>, w: int)
    requires
        0 <= w < t.len(),
        t[w].0 == k,
    ensures
        exists|j: int| is_first_entry(t, k, j),
    decreases w,
{
    if exists|l: int| 0 <= l < w && (#[trigger] t[l]).0 == k {
        let l = choose|l: int| 0 <= l < w && (#[trigger] t[l]).0 == k;
        lemma_first_exists(t, k, l);
    } else {
        assert(is_first_entry(t, k, w));
    }
}

/// Builds the translation table of a kind from its source and destination
/// collections, matching by natural key.
pub fn build_id_table<T: Identified>(source: &Vec<T>, target: &Vec<T>) -> (r: IdTable)
    ensures
        r@ == table_spec::<T>(seq_view(source@), seq_view(target@)),
{
    let ghost sv = seq_view(source@);
    let ghost tv = seq_view(target@);
    let mut table = IdTable::new();
    assert(table@ =~= table_spec::<T>(sv.subrange(0, 0), tv));
    let mut i: usize = 0;
    while i < source.len()
        invariant
            i <= source.len(),
            sv == seq_view(source@),
            tv == seq_view(target@),
            sv.len() == source.len(),
            tv.len() == target.len(),
            table@ == table_spec::<T>(sv.subrange(0, i as int), tv),
        decreases source.len() - i,
    {
        let s = &source[i];
        let ghost before = table@;
        let ghost p = sv.subrange(0, i as int + 1);
        assert(p.drop_last() =~= sv.subrange(0, i as int));
        assert(sv[i as int] == s@);
        assert(p.last() == s@);
        let found = find_first(s, target);
        match found {
            Some(j) => {
                assert(is_first_match::<T>(s@, tv, j as int));
                proof { crate::plan::lemma_first_match_is::<T>(s@, tv, j as int); }
                assert(tv[j as int] == target@[j as int]@);
                let sid = s.resource_id().clone();
                let did = target[j].resource_id().clone();
                table.entries.push((sid, did));
                assert(table@ =~= before.push((T::spec_id(s@), T::spec_id(tv[j as int]))));
            },
            None => {
                proof { crate::plan::lemma_first_match_none::<T>(s@, tv); }
            },
        }
        assert(table@ =~= table_spec::<T>(sv.subrange(0, i as int + 1), tv));
        i += 1;
    }
    assert(sv.subrange(0, source.len() as int) =~= sv);
    table
}

} // verus!

verus! {

/// Whether the source id `k` has a destination id in `t`.
pub open spec fn resolves(t: Seq<(Seq<char>, Seq<char>)>, k: Seq<char>) -> bool {
    lookup(t, k) is Some
}

/// Whether every stub of `stubs` resolves in `t`.
pub open spec fn all_resolve(stubs: Seq<BaseEntity>, t: Seq<(Seq<char>, Seq<char>)>) -> bool {
    forall|i: int| 0 <= i < stubs.len() ==> resolves(t, #[trigger] stubs[i].id@)
}

/// `i` is the first stub of `stubs` that does not resolve in `t`.
pub open spec fn first_unresolved(stubs: Seq<BaseEntity>, t: Seq<(Seq<char>, Seq<char>)>, i: int) -> bool {
    &&& 0 <= i < stubs.len()
    &&& !resolves(t, stubs[i].id@)
    &&& forall|l: int| 0 <= l < i ==> resolves(t, #[trigger] stubs[l].id@)
}

/// `new` is `old` with each id written through `t`; names and flags are kept.
pub open spec fn stubs_translated(new: Seq<BaseEntity>, old: Seq<BaseEntity>, t: Seq<(Seq<char>, Seq<char>)>) -> bool {
    &&& new.len() == old.len()
    &&& forall|i: int| #![trigger new[i]] 0 <= i < new.len() ==> {
        &&& new[i].name == old[i].name
        &&& new[i].disabled == old[i].disabled
        &&& new[i].id@ == translated(t, old[i].id@)
    }
}

/// Rewrites the id of each stub to its destination id; a stub without a
/// translation keeps its id.
pub fn adapt_stubs(stubs: &Vec<BaseEntity>, t: &IdTable) -> (r: Vec<BaseEntity>)
    ensures
        stubs_translated(r@, stubs@, t@),
{
    let mut out: Vec<BaseEntity> = Vec::new();
    let mut i: usize = 0;
    while i < stubs.len()
        invariant
            i <= stubs.len(),
            stubs_translated(out@, stubs@.subrange(0, i as int), t@),
        decreases stubs.len() - i,
    {
        let s = &stubs[i];
        let id = match t.get(&s.id) {
            Some(v) => v.clone(),
            None => s.id.clone(),
        };
        out.push(BaseEntity { id, name: s.name.clone(), disabled: s.disabled });
        i += 1;
    }
    assert(stubs@.subrange(0, stubs.len() as int) =~= stubs@);
    out
}

/// Rewrites the id of each stub to its destination id, or names the first stub
/// that has none.
pub fn resolve_stubs(stubs: &Vec<BaseEntity>, t: &IdTable) -> (r: Result<Vec<BaseEntity>, String>)
    ensures
        r is Ok <==> all_resolve(stubs@, t@),
        r matches Ok(v) ==> stubs_translated(v@, stubs@, t@),
        r matches Err(n) ==> exists|i: int| first_unresolved(stubs@, t@, i) && n@ == stubs@[i].name@,
{
    let mut out: Vec<BaseEntity> = Vec::new();
    let mut i: usize = 0;
    while i < stubs.len()
        invariant
            i <= stubs.len(),
            stubs_translated(out@, stubs@.subrange(0, i as int), t@),
            forall|l: int| 0 <= l < i ==> resolves(t@, #[trigger] stubs@[l].id@),
        decreases stubs.len() - i,
    {
        let s = &stubs[i];
        match t.get(&s.id) {
            Some(v) => {
                out.push(BaseEntity { id: v.clone(), name: s.name.clone(), disabled: s.disabled });
            },
            None => {
                assert(first_unresolved(stubs@, t@, i as int));
                return Err(s.name.clone());
            },
        }
        i += 1;
    }
    assert(stubs@.subrange(0, stubs.len() as int) =~= stubs@);
    Ok(out)
}

} // verus!

verus! {

/// The source id `k` written through `t`.
fn translate_id(k: &String, t: &IdTable) -> (r: String)
    ensures
        r@ == translated(t@, k@),
{
    match t.get(k) {
        Some(v) => v.clone(),
        None => k.clone(),
    }
}

/// Rewrites a group's own id and the ids of its nested users, roles and groups
/// to destination-system ids; references without a translation are left as they are.
pub fn adapt_group(group: &mut Group, group_ids: &IdTable, user_ids: &IdTable, role_ids: &IdTable)
    ensures
        final(group)@.id == translated(group_ids@, old(group)@.id),
        final(group)@.name == old(group)@.name,
        final(group)@.description == old(group)@.description,
        final(group)@.disabled == old(group)@.disabled,
        stubs_translated(final(group)@.users, old(group)@.users, user_ids@),
        stubs_translated(final(group)@.roles, old(group)@.roles, role_ids@),
        stubs_translated(final(group)@.groups, old(group)@.groups, group_ids@),
{
    group.id = translate_id(&group.id, group_ids);
    group.users = adapt_stubs(&group.users, user_ids);
    group.roles = adapt_stubs(&group.roles, role_ids);
    group.groups = adapt_stubs(&group.groups, group_ids);
}

/// Rewrites the ids of a user's roles and groups to destination-system ids;
/// references without a translation are left as they are.
pub fn adapt_user(user: &mut User, group_ids: &IdTable, role_ids: &IdTable)
    ensures
        final(user)@ == (UserView { roles: final(user)@.roles, groups: final(user)@.groups, ..old(user)@ }),
        stubs_translated(final(user)@.roles, old(user)@.roles, role_ids@),
        stubs_translated(final(user)@.groups, old(user)@.groups, group_ids@),
{
    user.roles = adapt_stubs(&user.roles, role_ids);
    user.groups = adapt_stubs(&user.groups, group_ids);
}

/// Whether every nested reference of a group has a destination id.
pub open spec fn group_resolvable(
    g: GroupView,
    group_ids: Seq<(Seq<char>, Seq<char>)>,
    user_ids: Seq<(Seq<char>, Seq<char>)>,
    role_ids: Seq<(Seq<char>, Seq<char>)>,
) -> bool {
    all_resolve(g.groups, group_ids) && all_resolve(g.roles, role_ids) && all_resolve(g.users, user_ids)
}

/// `g` is `src` with every nested reference written with its destination id;
/// its own id may differ.
pub open spec fn group_resolved(
    g: GroupView,
    src: GroupView,
    group_ids: Seq<(Seq<char>, Seq<char>)>,
    user_ids: Seq<(Seq<char>, Seq<char>)>,
    role_ids: Seq<(Seq<char>, Seq<char>)>,
) -> bool {
    &&& g.name == src.name
    &&& g.description == src.description
    &&& g.disabled == src.disabled
    &&& stubs_translated(g.groups, src.groups, group_ids)
    &&& stubs_translated(g.roles, src.roles, role_ids)
    &&& stubs_translated(g.users, src.users, user_ids)
}

/// Whether every role and group reference of a user has a destination id.
pub open spec fn user_resolvable(u: UserView, group_ids: Seq<(Seq<char>, Seq<char>)>, role_ids: Seq<(Seq<char>, Seq<char>)>) -> bool {
    all_resolve(u.roles, role_ids) && all_resolve(u.groups, group_ids)
}

/// `u` is `src` with every role and group reference written with its
/// destination id; its own id may differ.
pub open spec fn user_resolved(
    u: UserView,
    src: UserView,
    group_ids: Seq<(Seq<char>, Seq<char>)>,
    role_ids: Seq<(Seq<char>, Seq<char>)>,
) -> bool {
    &&& u == (UserView { id: u.id, roles: u.roles, groups: u.groups, ..src })
    &&& stubs_translated(u.roles, src.roles, role_ids)
    &&& stubs_translated(u.groups, src.groups, group_ids)
}

/// A copy of `group` ready to be written to the destination: every nested
/// reference carries its destination id. Child groups are checked first, then
/// roles, then users; the first reference without a translation is named in
/// the error.
pub fn resolve_group(group: &Group, group_ids: &IdTable, user_ids: &IdTable, role_ids: &IdTable) -> (r: Result<Group, SwimlaneMigratorError>)
    ensures
        r is Ok <==> group_resolvable(group@, group_ids@, user_ids@, role_ids@),
        r matches Ok(g) ==> group_resolved(g@, group@, group_ids@, user_ids@, role_ids@) && g@.id == group@.id,
        r matches Err(SwimlaneMigratorError::MissingGroup { group_name }) ==> exists|i: int|
            first_unresolved(group@.groups, group_ids@, i) && group_name@ == group@.groups[i].name@,
        r matches Err(SwimlaneMigratorError::MissingRole { role_name }) ==> all_resolve(group@.groups, group_ids@)
            && exists|i: int| first_unresolved(group@.roles, role_ids@, i) && role_name@ == group@.roles[i].name@,
        r matches Err(SwimlaneMigratorError::MissingUser { user_name }) ==> all_resolve(group@.groups, group_ids@)
            && all_resolve(group@.roles, role_ids@)
            && exists|i: int| first_unresolved(group@.users, user_ids@, i) && user_name@ == group@.users[i].name@,
        !(r matches Err(SwimlaneMigratorError::SwimlaneError { .. })),
{
    let mut g = group.clone();
    match resolve_stubs(&group.groups, group_ids) {
        Ok(v) => { g.groups = v; },
        Err(n) => {
            proof {
                let i = choose|i: int| first_unresolved(group.groups@, group_ids@, i) && n@ == group.groups@[i].name@;
                assert(first_unresolved(group@.groups, group_ids@, i));
            }
            return Err(SwimlaneMigratorError::MissingGroup { group_name: n });
        },
    }
    match resolve_stubs(&group.roles, role_ids) {
        Ok(v) => { g.roles = v; },
        Err(n) => {
            proof {
                let i = choose|i: int| first_unresolved(group.roles@, role_ids@, i) && n@ == group.roles@[i].name@;
                assert(first_unresolved(group@.roles, role_ids@, i));
            }
            return Err(SwimlaneMigratorError::MissingRole { role_name: n });
        },
    }
    match resolve_stubs(&group.users, user_ids) {
        Ok(v) => { g.users = v; },
        Err(n) => {
            proof {
                let i = choose|i: int| first_unresolved(group.users@, user_ids@, i) && n@ == group.users@[i].name@;
                assert(first_unresolved(group@.users, user_ids@, i));
            }
            return Err(SwimlaneMigratorError::MissingUser { user_name: n });
        },
    }
    Ok(g)
}

/// A copy of `user` ready to be written to the destination: every role and
/// group reference carries its destination id. Roles are checked first, then
/// groups; the first reference without a translation is named in the error.
pub fn resolve_user(user: &User, group_ids: &IdTable, role_ids: &IdTable) -> (r: Result<User, SwimlaneMigratorError>)
    ensures
        r is Ok <==> user_resolvable(user@, group_ids@, role_ids@),
        r matches Ok(u) ==> user_resolved(u@, user@, group_ids@, role_ids@) && u@.id == user@.id,
        r matches Err(SwimlaneMigratorError::MissingRole { role_name }) ==> exists|i: int|
            first_unresolved(user@.roles, role_ids@, i) && role_name@ == user@.roles[i].name@,
        r matches Err(SwimlaneMigratorError::MissingGroup { group_name }) ==> all_resolve(user@.roles, role_ids@)
            && exists|i: int| first_unresolved(user@.groups, group_ids@, i) && group_name@ == user@.groups[i].name@,
        !(r matches Err(SwimlaneMigratorError::SwimlaneError { .. })),
        !(r matches Err(SwimlaneMigratorError::MissingUser { .. })),
{
    let mut u = user.clone();
    match resolve_stubs(&user.roles, role_ids) {
        Ok(v) => { u.roles = v; },
        Err(n) => {
            proof {
                let i = choose|i: int| first_unresolved(user.roles@, role_ids@, i) && n@ == user.roles@[i].name@;
                assert(first_unresolved(user@.roles, role_ids@, i));
            }
            return Err(SwimlaneMigratorError::MissingRole { role_name: n });
        },
    }
    match resolve_stubs(&user.groups, group_ids) {
        Ok(v) => { u.groups = v; },
        Err(n) => {
            proof {
                let i = choose|i: int| first_unresolved(user.groups@, group_ids@, i) && n@ == user.groups@[i].name@;
                assert(first_unresolved(user@.groups, group_ids@, i));
            }
            return Err(SwimlaneMigratorError::MissingGroup { group_name: n });
        },
    }
    Ok(u)
}

} // verus!
