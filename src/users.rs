use vstd::prelude::*;

use crate::entity::{clone_opt_selection, clone_entities, clone_opt_string, BaseEntity, Timestamp, UserGroupSelection, selection_text};
use crate::equality::{
    bool_change, complex_change, list_change, opt_change, push_bool_change, push_complex_change,
    push_list_change, push_opt_change, push_text_change, text_change, views, lemma_list_change_self,
    DiffView, Difference, LooksLike,
};
use crate::text::{keys_match, opt_eq, opt_text, opt_view, same_key};

verus! {

/// The unit in which a user's session timeout is counted.
#[derive(Debug, Clone, Copy, PartialEq, Eq)]
pub enum SessionTimeoutType {
    Minutes,
    Hours,
}

/// A user of the platform, with its roles and groups as stubs.
#[derive(Debug)]
pub struct User {
    pub id: String,
    pub user_name: String,
    pub email: String,
    pub first_name: Option<String>,
    pub last_name: Option<String>,
    pub name: String,
    pub display_name: Option<String>,
    pub disabled: bool,
    pub favorites: Vec<(String, String)>,
    pub middle_initial: Option<String>,
    pub active: bool,
    pub last_password_changed_date: Timestamp,
    pub password_reset_required: bool,
    pub session_timeout_type: SessionTimeoutType,
    pub primary_group: Option<UserGroupSelection>,
    pub groups: Vec<BaseEntity>,
    pub roles: Vec<BaseEntity>,
    pub created_date: Timestamp,
    pub modified_date: Timestamp,
    pub created_by_user: Option<UserGroupSelection>,
    pub modified_by_user: Option<UserGroupSelection>,
    pub password_complexity_score: Option<i32>,
    pub is_system_user: bool,
    pub timezone_id: String,
    pub is_otp_verified: bool,
    pub is_otp_user: bool,
    pub is_otp_enforced: bool,
    pub is_otp_exempted: bool,
    pub is_ldap_user: bool,
    pub is_locked: bool,
    pub current_failed_log_in_attempts: i32,
    pub phone_number: Option<String>,
    pub last_login: Option<Timestamp>,
    pub active_directory_guid: Option<String>,
    pub domain: Option<String>,
    pub avatar: Option<String>,
    pub default_workspace_id: Option<String>,
    pub default_dashboard_id: Option<String>,
}

/// What a user holds as compared and migrated. The primary group is kept as
/// the name of the selection, which is what selections are compared by.
pub struct UserView {
    pub id: Seq<char>,
    pub user_name: Seq<char>,
    pub email: Seq<char>,
    pub first_name: Option<Seq<char>>,
    pub last_name: Option<Seq<char>>,
    pub middle_initial: Option<Seq<char>>,
    pub display_name: Option<Seq<char>>,
    pub disabled: bool,
    pub avatar: Option<Seq<char>>,
    pub timezone_id: Seq<char>,
    pub phone_number: Option<Seq<char>>,
    pub primary_group: Option<Option<Seq<char>>>,
    pub groups: Seq<BaseEntity>,
    pub roles: Seq<BaseEntity>,
}

pub open spec fn selection_view(o: Option<UserGroupSelection>) -> Option<Option<Seq<char>>> {
    match o {
        Some(s) => Some(opt_view(s.name)),
        None => None,
    }
}

impl View for User {
    type V = UserView;

    open spec fn view(&self) -> UserView {
        UserView {
            id: self.id@,
            user_name: self.user_name@,
            email: self.email@,
            first_name: opt_view(self.first_name),
            last_name: opt_view(self.last_name),
            middle_initial: opt_view(self.middle_initial),
            display_name: opt_view(self.display_name),
            disabled: self.disabled,
            avatar: opt_view(self.avatar),
            timezone_id: self.timezone_id@,
            phone_number: opt_view(self.phone_number),
            primary_group: selection_view(self.primary_group),
            groups: self.groups@,
            roles: self.roles@,
        }
    }
}

fn clone_pairs(v: &Vec<(String, String)>) -> (r: Vec<(String, String)>)
    ensures
        r@ == v@,
{
    let mut out: Vec<(String, String)> = Vec::new();
    let mut i: usize = 0;
    while i < v.len()
        invariant
            i <= v.len(),
            out@ == v@.subrange(0, i as int),
        decreases v.len() - i,
    {
        out.push((v[i].0.clone(), v[i].1.clone()));
        i += 1;
        assert(out@ =~= v@.subrange(0, i as int));
    }
    assert(v@.subrange(0, v.len() as int) =~= v@);
    out
}

impl Clone for User {
    fn clone(&self) -> (r: Self)
        ensures
            r@ == self@,
    {
        User {
            id: self.id.clone(),
            user_name: self.user_name.clone(),
            email: self.email.clone(),
            first_name: clone_opt_string(&self.first_name),
            last_name: clone_opt_string(&self.last_name),
            name: self.name.clone(),
            display_name: clone_opt_string(&self.display_name),
            disabled: self.disabled,
            favorites: clone_pairs(&self.favorites),
            middle_initial: clone_opt_string(&self.middle_initial),
            active: self.active,
            last_password_changed_date: self.last_password_changed_date,
            password_reset_required: self.password_reset_required,
            session_timeout_type: self.session_timeout_type,
            primary_group: clone_opt_selection(&self.primary_group),
            groups: clone_entities(&self.groups),
            roles: clone_entities(&self.roles),
            created_date: self.created_date,
            modified_date: self.modified_date,
            created_by_user: clone_opt_selection(&self.created_by_user),
            modified_by_user: clone_opt_selection(&self.modified_by_user),
            password_complexity_score: self.password_complexity_score,
            is_system_user: self.is_system_user,
            timezone_id: self.timezone_id.clone(),
            is_otp_verified: self.is_otp_verified,
            is_otp_user: self.is_otp_user,
            is_otp_enforced: self.is_otp_enforced,
            is_otp_exempted: self.is_otp_exempted,
            is_ldap_user: self.is_ldap_user,
            is_locked: self.is_locked,
            current_failed_log_in_attempts: self.current_failed_log_in_attempts,
            phone_number: clone_opt_string(&self.phone_number),
            last_login: self.last_login,
            active_directory_guid: clone_opt_string(&self.active_directory_guid),
            domain: clone_opt_string(&self.domain),
            avatar: clone_opt_string(&self.avatar),
            default_workspace_id: clone_opt_string(&self.default_workspace_id),
            default_dashboard_id: clone_opt_string(&self.default_dashboard_id),
        }
    }
}

/// The text of an optional selection in a report: its description, or nothing.
pub open spec fn opt_selection_text(o: Option<Option<Seq<char>>>) -> Seq<char> {
    match o {
        Some(n) => selection_text(n),
        None => Seq::empty(),
    }
}

/// The change reported for the primary group, compared by name.
pub open spec fn selection_change(current: Option<Option<Seq<char>>>, new: Option<Option<Seq<char>>>) -> Seq<DiffView> {
    if current == new {
        seq![]
    } else {
        seq![DiffView::UpdatingField {
            field: "primary_group"@,
            current_value: opt_selection_text(current),
            new_value: opt_selection_text(new),
        }]
    }
}

/// The differences of a source user against a destination user.
pub open spec fn user_diffs(a: UserView, b: UserView) -> Seq<DiffView> {
    opt_change("display_name"@, a.display_name, b.display_name)
        + bool_change("disabled"@, a.disabled, b.disabled)
        + complex_change("avatar"@, a.avatar != b.avatar)
        + text_change("timezone_id"@, a.timezone_id, b.timezone_id)
        + text_change("email"@, a.email, b.email)
        + opt_change("phone_number"@, a.phone_number, b.phone_number)
        + opt_change("first_name"@, a.first_name, b.first_name)
        + opt_change("middle_initial"@, a.middle_initial, b.middle_initial)
        + opt_change("last_name"@, a.last_name, b.last_name)
        + list_change("roles"@, a.roles, b.roles)
        + list_change("groups"@, a.groups, b.groups)
        + selection_change(a.primary_group, b.primary_group)
}

fn selection_eq(a: &Option<UserGroupSelection>, b: &Option<UserGroupSelection>) -> (r: bool)
    ensures
        r == (selection_view(*a) == selection_view(*b)),
{
    match (a, b) {
        (Some(x), Some(y)) => opt_eq(&x.name, &y.name),
        (None, None) => true,
        _ => false,
    }
}

fn selection_to_string(o: &Option<UserGroupSelection>) -> (r: String)
    ensures
        r@ == opt_selection_text(selection_view(*o)),
{
    match o {
        Some(s) => s.describe(),
        None => String::new(),
    }
}

fn views_push(ds: &mut Vec<Difference>, d: Difference)
    ensures
        views(final(ds)@) == views(old(ds)@).push(d@),
{
    ds.push(d);
    assert(views(ds@) =~= views(old(ds)@).push(d@));
}

impl LooksLike for User {
    open spec fn spec_same(a: UserView, b: UserView) -> bool {
        same_key(a.user_name, b.user_name)
    }

    open spec fn spec_diffs(a: UserView, b: UserView) -> Seq<DiffView> {
        user_diffs(a, b)
    }

    proof fn lemma_same_is_equivalence(a: UserView, b: UserView, c: UserView) {
    }

    open spec fn spec_wf(a: UserView) -> bool {
        true
    }

    proof fn lemma_no_self_difference(a: UserView) {
        lemma_list_change_self("roles"@, a.roles);
        lemma_list_change_self("groups"@, a.groups);
    }

    fn differences(&self, other: &Self) -> (r: Vec<Difference>) {
        let mut diffs: Vec<Difference> = Vec::new();
        assert(views(diffs@) =~= Seq::<DiffView>::empty());
        push_opt_change(&mut diffs, "display_name", &self.display_name, &other.display_name);
        push_bool_change(&mut diffs, "disabled", self.disabled, other.disabled);
        push_complex_change(&mut diffs, "avatar", !opt_eq(&self.avatar, &other.avatar));
        push_text_change(&mut diffs, "timezone_id", &self.timezone_id, &other.timezone_id);
        push_text_change(&mut diffs, "email", &self.email, &other.email);
        push_opt_change(&mut diffs, "phone_number", &self.phone_number, &other.phone_number);
        push_opt_change(&mut diffs, "first_name", &self.first_name, &other.first_name);
        push_opt_change(&mut diffs, "middle_initial", &self.middle_initial, &other.middle_initial);
        push_opt_change(&mut diffs, "last_name", &self.last_name, &other.last_name);
        push_list_change(&mut diffs, "roles", &self.roles, &other.roles);
        push_list_change(&mut diffs, "groups", &self.groups, &other.groups);
        let ghost before = views(diffs@);
        if !selection_eq(&self.primary_group, &other.primary_group) {
            let d = Difference::UpdatingField {
                field: String::from_str("primary_group"),
                current_value: selection_to_string(&self.primary_group),
                new_value: selection_to_string(&other.primary_group),
            };
            views_push(&mut diffs, d);
        }
        assert(views(diffs@) =~= before + selection_change(self@.primary_group, other@.primary_group));
        assert(views(diffs@) =~= user_diffs(self@, other@));
        diffs
    }

    fn looks_like(&self, other: &Self) -> (r: bool) {
        self.differences(other).len() == 0
    }

    fn is_same_resource(&self, other: &Self) -> (r: bool) {
        keys_match(&self.user_name, &other.user_name)
    }

    fn duplicate(&self) -> (r: Self) {
        self.clone()
    }
}

/// The request that creates a user on the platform.
#[derive(Debug)]
pub struct UserCreationRequest {
    pub user_name: String,
    pub notify: bool,
    pub first_name: Option<String>,
    pub last_name: Option<String>,
    pub middle_initial: Option<String>,
    pub display_name: Option<String>,
    pub password: String,
    pub confirm_password: String,
    pub email: String,
    pub groups: Vec<BaseEntity>,
    pub roles: Vec<BaseEntity>,
}

impl UserCreationRequest {
    /// The creation request for a user: its names, email, groups and roles, no
    /// notification and an empty password.
    pub fn from_user(item: User) -> (r: UserCreationRequest)
        ensures
            r.user_name == item.user_name,
            !r.notify,
            r.first_name == item.first_name,
            r.last_name == item.last_name,
            r.middle_initial == item.middle_initial,
            r.display_name == item.display_name,
            r.password@.len() == 0,
            r.confirm_password@.len() == 0,
            r.email == item.email,
            r.groups == item.groups,
            r.roles == item.roles,
    {
        UserCreationRequest {
            user_name: item.user_name,
            notify: false,
            first_name: item.first_name,
            last_name: item.last_name,
            middle_initial: item.middle_initial,
            display_name: item.display_name,
            password: String::new(),
            confirm_password: String::new(),
            email: item.email,
            groups: item.groups,
            roles: item.roles,
        }
    }
}

} // verus!
