use vstd::prelude::*;

use crate::entity::{clone_entities, clone_opt_string, clone_opt_strings, BaseEntity, Timestamp, UserGroupSelection};
use crate::equality::{
    bool_change, list_change, opt_change, push_bool_change, push_list_change, push_opt_change,
    push_text_change, text_change, views, lemma_list_change_self, DiffView, Difference, LooksLike,
};
use crate::text::{keys_match, opt_view, same_key};

verus! {

/// A group of the platform, with its nested users, groups and roles as stubs.
#[derive(Debug)]
pub struct Group {
    pub id: String,
    pub name: String,
    pub description: Option<String>,
    pub users: Vec<BaseEntity>,
    pub groups: Vec<BaseEntity>,
    pub roles: Vec<BaseEntity>,
    pub created_date: Timestamp,
    pub modified_date: Timestamp,
    pub disabled: bool,
    pub active_directory_guids: Option<Vec<String>>,
    pub created_by_user: UserGroupSelection,
    pub modified_by_user: UserGroupSelection,
}

/// What a group holds, with its lists as sequences.
pub struct GroupView {
    pub id: Seq<char>,
    pub name: Seq<char>,
    pub description: Option<Seq<char>>,
    pub users: Seq<BaseEntity>,
    pub groups: Seq<BaseEntity>,
    pub roles: Seq<BaseEntity>,
    pub disabled: bool,
}

impl View for Group {
    type V = GroupView;

    open spec fn view(&self) -> GroupView {
        GroupView {
            id: self.id@,
            name: self.name@,
            description: opt_view(self.description),
            users: self.users@,
            groups: self.groups@,
            roles: self.roles@,
            disabled: self.disabled,
        }
    }
}

impl Clone for Group {
    fn clone(&self) -> (r: Self)
        ensures
            r@ == self@,
    {
        Group {
            id: self.id.clone(),
            name: self.name.clone(),
            description: clone_opt_string(&self.description),
            users: clone_entities(&self.users),
            groups: clone_entities(&self.groups),
            roles: clone_entities(&self.roles),
            created_date: self.created_date,
            modified_date: self.modified_date,
            disabled: self.disabled,
            active_directory_guids: clone_opt_strings(&self.active_directory_guids),
            created_by_user: self.created_by_user.clone(),
            modified_by_user: self.modified_by_user.clone(),
        }
    }
}

impl Default for Group {
    fn default() -> (r: Self)
        ensures
            r@.id.len() == 0 && r@.name.len() == 0 && r@.description is None,
            r@.users.len() == 0 && r@.groups.len() == 0 && r@.roles.len() == 0,
            !r@.disabled,
    {
        Group {
            id: String::new(),
            name: String::new(),
            description: None,
            users: Vec::new(),
            groups: Vec::new(),
            roles: Vec::new(),
            created_date: Timestamp { seconds: 0, nanos: 0 },
            modified_date: Timestamp { seconds: 0, nanos: 0 },
            disabled: false,
            active_directory_guids: None,
            created_by_user: UserGroupSelection { id: None, name: None },
            modified_by_user: UserGroupSelection { id: None, name: None },
        }
    }
}

/// The differences of a source group against a destination group: name,
/// disabled flag and description, then the nested users, roles and groups.
pub open spec fn group_diffs(a: GroupView, b: GroupView) -> Seq<DiffView> {
    text_change("name"@, a.name, b.name) + bool_change("disabled"@, a.disabled, b.disabled)
        + opt_change("description"@, a.description, b.description)
        + list_change("users"@, a.users, b.users)
        + list_change("roles"@, a.roles, b.roles)
        + list_change("groups"@, a.groups, b.groups)
}

impl LooksLike for Group {
    open spec fn spec_same(a: GroupView, b: GroupView) -> bool {
        same_key(a.name, b.name)
    }

    open spec fn spec_diffs(a: GroupView, b: GroupView) -> Seq<DiffView> {
        group_diffs(a, b)
    }

    proof fn lemma_same_is_equivalence(a: GroupView, b: GroupView, c: GroupView) {
    }

    open spec fn spec_wf(a: GroupView) -> bool {
        true
    }

    proof fn lemma_no_self_difference(a: GroupView) {
        lemma_list_change_self("users"@, a.users);
        lemma_list_change_self("roles"@, a.roles);
        lemma_list_change_self("groups"@, a.groups);
    }

    fn differences(&self, other: &Self) -> (r: Vec<Difference>) {
        let mut diffs: Vec<Difference> = Vec::new();
        assert(views(diffs@) =~= Seq::<DiffView>::empty());
        push_text_change(&mut diffs, "name", &self.name, &other.name);
        push_bool_change(&mut diffs, "disabled", self.disabled, other.disabled);
        push_opt_change(&mut diffs, "description", &self.description, &other.description);
        push_list_change(&mut diffs, "users", &self.users, &other.users);
        push_list_change(&mut diffs, "roles", &self.roles, &other.roles);
        push_list_change(&mut diffs, "groups", &self.groups, &other.groups);
        assert(views(diffs@) =~= group_diffs(self@, other@));
        diffs
    }

    fn looks_like(&self, other: &Self) -> (r: bool) {
        self.differences(other).len() == 0
    }

    fn is_same_resource(&self, other: &Self) -> (r: bool) {
        keys_match(&self.name, &other.name)
    }

    fn duplicate(&self) -> (r: Self) {
        self.clone()
    }
}

} // verus!
