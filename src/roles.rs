use vstd::prelude::*;

use crate::entity::{clone_opt_selection, clone_entities, clone_opt_string, BaseEntity, Timestamp, UserGroupSelection};
use crate::equality::{
    bool_change, list_change, opt_change, push_bool_change, push_list_change, push_opt_change,
    push_text_change, text_change, views, lemma_list_change_self, lemma_views_push, DiffView, Difference, LooksLike,
};
use crate::text::{decimal_text, keys_match, opt_view, same_key, u16_to_string};

verus! {

/// What a permission entry applies to.
#[derive(Debug, Clone, Copy, PartialEq, Eq)]
pub enum PermissionType {
    Role,
    Global,
    Application,
    Report,
    Dashboard,
    Workspace,
}

/// The access levels of the fields of one permission, keyed by field name
/// (each name at most once).
#[derive(Debug)]
pub struct Access {
    pub _type: String,
    pub permissions: Vec<(String, u16)>,
}

/// One entry of a permission matrix.
#[derive(Debug)]
pub struct Permission {
    pub _type: String,
    pub type_: PermissionType,
    pub id: String,
    pub name: String,
    pub access: u16,
    pub fields: Access,
}

/// The permissions of a role or an application, keyed by permission id
/// (each id at most once).
#[derive(Debug)]
pub struct PermissionMatrix {
    pub _type: String,
    pub permissions: Vec<Permission>,
}

/// A field access entry as name and level.
pub open spec fn access_entry(e: (String, u16)) -> (Seq<char>, u16) {
    (e.0@, e.1)
}

/// The entries of an access map as names and levels.
pub open spec fn access_view(a: Access) -> Seq<(Seq<char>, u16)> {
    a.permissions@.map_values(|e: (String, u16)| access_entry(e))
}

/// A permission as compared: its name, level and field access.
pub struct PermissionView {
    pub name: Seq<char>,
    pub access: u16,
    pub fields: Seq<(Seq<char>, u16)>,
}

pub open spec fn permission_view(p: Permission) -> PermissionView {
    PermissionView { name: p.name@, access: p.access, fields: access_view(p.fields) }
}

pub open spec fn matrix_view(m: PermissionMatrix) -> Seq<PermissionView> {
    m.permissions@.map_values(|p: Permission| permission_view(p))
}

/// `j` is the first entry of `ys` whose field name is `k`.
pub open spec fn is_first_key(k: Seq<char>, ys: Seq<(Seq<char>, u16)>, j: int) -> bool {
    0 <= j < ys.len() && ys[j].0 == k && forall|l: int| 0 <= l < j ==> (#[trigger] ys[l]).0 != k
}

pub open spec fn key_position(k: Seq<char>, ys: Seq<(Seq<char>, u16)>) -> Option<int> {
    if exists|j: int| is_first_key(k, ys, j) {
        Some(choose|j: int| is_first_key(k, ys, j))
    } else {
        None
    }
}

pub open spec fn has_key(k: Seq<char>, ys: Seq<(Seq<char>, u16)>) -> bool {
    exists|j: int| 0 <= j < ys.len() && (#[trigger] ys[j]).0 == k
}

/// What one field entry of the source reports against the destination: a
/// changed level, or an added field.
pub open spec fn access_entry_change(x: (Seq<char>, u16), ys: Seq<(Seq<char>, u16)>) -> Seq<DiffView> {
    match key_position(x.0, ys) {
        Some(j) => if x.1 == ys[j].1 {
            seq![]
        } else {
            seq![DiffView::UpdatingField {
                field: x.0,
                current_value: decimal_text(x.1 as nat),
                new_value: decimal_text(ys[j].1 as nat),
            }]
        },
        None => seq![DiffView::AddingItem { field: "permissions"@, item: x.0 }],
    }
}

pub open spec fn access_source_changes(xs: Seq<(Seq<char>, u16)>, ys: Seq<(Seq<char>, u16)>) -> Seq<DiffView>
    decreases xs.len(),
{
    if xs.len() == 0 {
        seq![]
    } else {
        access_source_changes(xs.drop_last(), ys) + access_entry_change(xs.last(), ys)
    }
}

pub open spec fn access_removed(xs: Seq<(Seq<char>, u16)>, ys: Seq<(Seq<char>, u16)>) -> Seq<DiffView>
    decreases ys.len(),
{
    if ys.len() == 0 {
        seq![]
    } else {
        access_removed(xs, ys.drop_last()) + if has_key(ys.last().0, xs) {
            seq![]
        } else {
            seq![DiffView::RemovingItem { field: "permissions"@, item: ys.last().0 }]
        }
    }
}

/// The differences of two field access maps: changed levels and added fields in
/// source order, then removed fields in destination order.
pub open spec fn access_diffs(xs: Seq<(Seq<char>, u16)>, ys: Seq<(Seq<char>, u16)>) -> Seq<DiffView> {
    access_source_changes(xs, ys) + access_removed(xs, ys)
}

proof fn lemma_key_position_is(k: Seq<char>, ys: Seq<(Seq<char>, u16)>, j: int)
    requires
        is_first_key(k, ys, j),
    ensures
        key_position(k, ys) == Some(j),
{
    let c = choose|j: int| is_first_key(k, ys, j);
    assert(is_first_key(k, ys, c));
    if c < j {
        assert(ys[c].0 != k);
    } else if c > j {
        assert(ys[j].0 != k);
    }
}

proof fn lemma_key_position_none(k: Seq<char>, ys: Seq<(Seq<char>, u16)>)
    requires
        !has_key(k, ys),
    ensures
        key_position(k, ys) is None,
{
    if exists|j: int| is_first_key(k, ys, j) {
        let j = choose|j: int| is_first_key(k, ys, j);
        assert(ys[j].0 == k);
    }
}

/// The first entry of `ys` with field name `k`.
fn find_field(k: &String, ys: &Vec<(String, u16)>) -> (r: Option<usize>)
    ensures
        r matches Some(j) ==> is_first_key(k@, ys@.map_values(|e: (String, u16)| access_entry(e)), j as int),
        r is None ==> !has_key(k@, ys@.map_values(|e: (String, u16)| access_entry(e))),
{
    let ghost yv = ys@.map_values(|e: (String, u16)| access_entry(e));
    let mut j: usize = 0;
    while j < ys.len()
        invariant
            j <= ys.len(),
            yv == ys@.map_values(|e: (String, u16)| access_entry(e)),
            forall|l: int| 0 <= l < j ==> (#[trigger] yv[l]).0 != k@,
        decreases ys.len() - j,
    {
        assert(yv[j as int] == access_entry(ys@[j as int]));
        if ys[j].0 == *k {
            return Some(j);
        }
        j += 1;
    }
    None
}

impl Access {
    /// The differences of this field access map (source) against `other`
    /// (destination): a changed level is reported under the field's name, a
    /// field of the source alone is added, a field of the destination alone is
    /// removed.
    pub fn differences(&self, other: &Access) -> (r: Vec<Difference>)
        ensures
            views(r@) == access_diffs(access_view(*self), access_view(*other)),
    {
        let ghost xv = access_view(*self);
        let ghost yv = access_view(*other);
        let mut diffs: Vec<Difference> = Vec::new();
        assert(views(diffs@) =~= access_source_changes(xv.subrange(0, 0), yv));
        let mut i: usize = 0;
        while i < self.permissions.len()
            invariant
                i <= self.permissions.len(),
                xv == access_view(*self),
                yv == access_view(*other),
                xv.len() == self.permissions.len(),
                views(diffs@) == access_source_changes(xv.subrange(0, i as int), yv),
            decreases self.permissions.len() - i,
        {
            let key = &self.permissions[i].0;
            let value = self.permissions[i].1;
            let ghost before = views(diffs@);
            let ghost p = xv.subrange(0, i as int + 1);
            assert(p.drop_last() =~= xv.subrange(0, i as int));
            assert(p.last() == xv[i as int]);
            assert(xv[i as int] == (key@, value));
            match find_field(key, &other.permissions) {
                Some(j) => {
                    proof { lemma_key_position_is(key@, yv, j as int); }
                    let other_value = other.permissions[j].1;
                    assert(yv[j as int] == access_entry(other.permissions@[j as int]));
                    if value != other_value {
                        let d = Difference::UpdatingField {
                            field: key.clone(),
                            current_value: u16_to_string(value),
                            new_value: u16_to_string(other_value),
                        };
                        proof { lemma_views_push(diffs@, d); }
                        diffs.push(d);
                    }
                },
                None => {
                    proof { lemma_key_position_none(key@, yv); }
                    let d = Difference::AddingItem { field: String::from_str("permissions"), item: key.clone() };
                    proof { lemma_views_push(diffs@, d); }
                    diffs.push(d);
                },
            }
            assert(views(diffs@) =~= before + access_entry_change(xv[i as int], yv));
            i += 1;
        }
        assert(xv.subrange(0, self.permissions.len() as int) =~= xv);
        let ghost mid = views(diffs@);
        assert(views(diffs@) =~= mid + access_removed(xv, yv.subrange(0, 0)));
        let mut k: usize = 0;
        while k < other.permissions.len()
            invariant
                k <= other.permissions.len(),
                xv == access_view(*self),
                yv == access_view(*other),
                yv.len() == other.permissions.len(),
                views(diffs@) == mid + access_removed(xv, yv.subrange(0, k as int)),
            decreases other.permissions.len() - k,
        {
            let key = &other.permissions[k].0;
            let ghost before = views(diffs@);
            let ghost p = yv.subrange(0, k as int + 1);
            assert(p.drop_last() =~= yv.subrange(0, k as int));
            assert(p.last() == yv[k as int]);
            assert(yv[k as int] == access_entry(other.permissions@[k as int]));
            let found = find_field(key, &self.permissions);
            if found.is_none() {
                let d = Difference::RemovingItem { field: String::from_str("permissions"), item: key.clone() };
                proof { lemma_views_push(diffs@, d); }
                diffs.push(d);
            } else {
                proof {
                    let j = found.unwrap() as int;
                    assert(xv[j].0 == key@);
                }
            }
            assert(views(diffs@) =~= mid + access_removed(xv, yv.subrange(0, k as int + 1)));
            k += 1;
        }
        assert(yv.subrange(0, other.permissions.len() as int) =~= yv);
        diffs
    }

    /// Whether the two field access maps agree.
    pub fn looks_like(&self, other: &Access) -> (r: bool)
        ensures
            r == (access_diffs(access_view(*self), access_view(*other)).len() == 0),
    {
        self.differences(other).len() == 0
    }
}

/// `j` is the first permission of `ys` named `n`.
pub open spec fn is_first_named(n: Seq<char>, ys: Seq<PermissionView>, j: int) -> bool {
    0 <= j < ys.len() && ys[j].name == n && forall|l: int| 0 <= l < j ==> (#[trigger] ys[l]).name != n
}

pub open spec fn name_position(n: Seq<char>, ys: Seq<PermissionView>) -> Option<int> {
    if exists|j: int| is_first_named(n, ys, j) {
        Some(choose|j: int| is_first_named(n, ys, j))
    } else {
        None
    }
}

pub open spec fn has_name(n: Seq<char>, ys: Seq<PermissionView>) -> bool {
    exists|j: int| 0 <= j < ys.len() && (#[trigger] ys[j]).name == n
}

/// What one permission of the source reports against the destination. Entries
/// are matched by name, since ids differ between systems: a changed level, a
/// change in the field access (reported as a whole), or an added permission.
pub open spec fn permission_change(x: PermissionView, ys: Seq<PermissionView>) -> Seq<DiffView> {
    match name_position(x.name, ys) {
        Some(j) => (if x.access == ys[j].access {
            seq![]
        } else {
            seq![DiffView::UpdatingField {
                field: "permissions."@ + x.name + ".access"@,
                current_value: decimal_text(x.access as nat),
                new_value: decimal_text(ys[j].access as nat),
            }]
        }) + (if access_diffs(x.fields, ys[j].fields).len() == 0 {
            seq![]
        } else {
            seq![DiffView::UpdatingComplexField { field: "permissions."@ + x.name + ".fields"@ }]
        }),
        None => seq![DiffView::AddingItem { field: "permissions"@, item: x.name }],
    }
}

pub open spec fn matrix_source_changes(xs: Seq<PermissionView>, ys: Seq<PermissionView>) -> Seq<DiffView>
    decreases xs.len(),
{
    if xs.len() == 0 {
        seq![]
    } else {
        matrix_source_changes(xs.drop_last(), ys) + permission_change(xs.last(), ys)
    }
}

pub open spec fn matrix_removed(xs: Seq<PermissionView>, ys: Seq<PermissionView>) -> Seq<DiffView>
    decreases ys.len(),
{
    if ys.len() == 0 {
        seq![]
    } else {
        matrix_removed(xs, ys.drop_last()) + if has_name(ys.last().name, xs) {
            seq![]
        } else {
            seq![DiffView::RemovingItem { field: "permissions"@, item: ys.last().name }]
        }
    }
}

/// The differences of two permission matrices: the changes of each source
/// permission in source order, then the permissions of the destination alone.
pub open spec fn matrix_diffs(xs: Seq<PermissionView>, ys: Seq<PermissionView>) -> Seq<DiffView> {
    matrix_source_changes(xs, ys) + matrix_removed(xs, ys)
}

proof fn lemma_name_position_is(n: Seq<char>, ys: Seq<PermissionView>, j: int)
    requires
        is_first_named(n, ys, j),
    ensures
        name_position(n, ys) == Some(j),
{
    let c = choose|j: int| is_first_named(n, ys, j);
    assert(is_first_named(n, ys, c));
    if c < j {
        assert(ys[c].name != n);
    } else if c > j {
        assert(ys[j].name != n);
    }
}

proof fn lemma_name_position_none(n: Seq<char>, ys: Seq<PermissionView>)
    requires
        !has_name(n, ys),
    ensures
        name_position(n, ys) is None,
{
    if exists|j: int| is_first_named(n, ys, j) {
        let j = choose|j: int| is_first_named(n, ys, j);
        assert(ys[j].name == n);
    }
}

/// The first permission of `ys` named `n`.
fn find_permission(n: &String, ys: &Vec<Permission>) -> (r: Option<usize>)
    ensures
        r matches Some(j) ==> is_first_named(n@, ys@.map_values(|p: Permission| permission_view(p)), j as int),
        r is None ==> !has_name(n@, ys@.map_values(|p: Permission| permission_view(p))),
{
    let ghost yv = ys@.map_values(|p: Permission| permission_view(p));
    let mut j: usize = 0;
    while j < ys.len()
        invariant
            j <= ys.len(),
            yv == ys@.map_values(|p: Permission| permission_view(p)),
            forall|l: int| 0 <= l < j ==> (#[trigger] yv[l]).name != n@,
        decreases ys.len() - j,
    {
        assert(yv[j as int] == permission_view(ys@[j as int]));
        if ys[j].name == *n {
            return Some(j);
        }
        j += 1;
    }
    None
}

/// `permissions.<name>.<part>`, the field under which a permission's change is reported.
fn permission_field(name: &String, part: &str) -> (r: String)
    ensures
        r@ == "permissions."@ + name@ + "."@ + part@,
{
    String::from_str("permissions.").concat(name.as_str()).concat(".").concat(part)
}

impl PermissionMatrix {
    /// The differences of this matrix (source) against `other` (destination).
    pub fn differences(&self, other: &PermissionMatrix) -> (r: Vec<Difference>)
        ensures
            views(r@) == matrix_diffs(matrix_view(*self), matrix_view(*other)),
    {
        let ghost xv = matrix_view(*self);
        let ghost yv = matrix_view(*other);
        let mut diffs: Vec<Difference> = Vec::new();
        assert(views(diffs@) =~= matrix_source_changes(xv.subrange(0, 0), yv));
        let mut i: usize = 0;
        while i < self.permissions.len()
            invariant
                i <= self.permissions.len(),
                xv == matrix_view(*self),
                yv == matrix_view(*other),
                xv.len() == self.permissions.len(),
                views(diffs@) == matrix_source_changes(xv.subrange(0, i as int), yv),
            decreases self.permissions.len() - i,
        {
            let value = &self.permissions[i];
            let ghost before = views(diffs@);
            let ghost p = xv.subrange(0, i as int + 1);
            assert(p.drop_last() =~= xv.subrange(0, i as int));
            assert(p.last() == xv[i as int]);
            assert(xv[i as int] == permission_view(*value));
            match find_permission(&value.name, &other.permissions) {
                Some(j) => {
                    proof { lemma_name_position_is(value.name@, yv, j as int); }
                    let other_permission = &other.permissions[j];
                    assert(yv[j as int] == permission_view(*other_permission));
                    if value.access != other_permission.access {
                        let d = Difference::UpdatingField {
                            field: permission_field(&value.name, "access"),
                            current_value: u16_to_string(value.access),
                            new_value: u16_to_string(other_permission.access),
                        };
                        proof {
                            reveal_strlit("access");
                            reveal_strlit(".access");
                            reveal_strlit(".");
                        }
                        assert("permissions."@ + value.name@ + "."@ + "access"@ =~= "permissions."@ + value.name@ + ".access"@);
                        proof { lemma_views_push(diffs@, d); }
                        diffs.push(d);
                    }
                    let field_differences = value.fields.differences(&other_permission.fields);
                    if field_differences.len() != 0 {
                        let d = Difference::UpdatingComplexField { field: permission_field(&value.name, "fields") };
                        proof {
                            reveal_strlit("fields");
                            reveal_strlit(".fields");
                            reveal_strlit(".");
                        }
                        assert("permissions."@ + value.name@ + "."@ + "fields"@ =~= "permissions."@ + value.name@ + ".fields"@);
                        proof { lemma_views_push(diffs@, d); }
                        diffs.push(d);
                    }
                },
                None => {
                    proof { lemma_name_position_none(value.name@, yv); }
                    let d = Difference::AddingItem { field: String::from_str("permissions"), item: value.name.clone() };
                    proof { lemma_views_push(diffs@, d); }
                    diffs.push(d);
                },
            }
            assert(views(diffs@) =~= before + permission_change(xv[i as int], yv));
            i += 1;
        }
        assert(xv.subrange(0, self.permissions.len() as int) =~= xv);
        let ghost mid = views(diffs@);
        assert(views(diffs@) =~= mid + matrix_removed(xv, yv.subrange(0, 0)));
        let mut k: usize = 0;
        while k < other.permissions.len()
            invariant
                k <= other.permissions.len(),
                xv == matrix_view(*self),
                yv == matrix_view(*other),
                yv.len() == other.permissions.len(),
                views(diffs@) == mid + matrix_removed(xv, yv.subrange(0, k as int)),
            decreases other.permissions.len() - k,
        {
            let value = &other.permissions[k];
            let ghost before = views(diffs@);
            let ghost p = yv.subrange(0, k as int + 1);
            assert(p.drop_last() =~= yv.subrange(0, k as int));
            assert(p.last() == yv[k as int]);
            assert(yv[k as int] == permission_view(*value));
            let found = find_permission(&value.name, &self.permissions);
            if found.is_none() {
                let d = Difference::RemovingItem { field: String::from_str("permissions"), item: value.name.clone() };
                proof { lemma_views_push(diffs@, d); }
                diffs.push(d);
            } else {
                proof {
                    let j = found.unwrap() as int;
                    assert(xv[j].name == value.name@);
                }
            }
            assert(views(diffs@) =~= mid + matrix_removed(xv, yv.subrange(0, k as int + 1)));
            k += 1;
        }
        assert(yv.subrange(0, other.permissions.len() as int) =~= yv);
        diffs
    }

    /// Whether the two matrices agree.
    pub fn looks_like(&self, other: &PermissionMatrix) -> (r: bool)
        ensures
            r == (matrix_diffs(matrix_view(*self), matrix_view(*other)).len() == 0),
    {
        self.differences(other).len() == 0
    }
}

impl Clone for Access {
    fn clone(&self) -> (r: Self)
        ensures
            r._type == self._type,
            r.permissions@ == self.permissions@,
    {
        let mut out: Vec<(String, u16)> = Vec::new();
        let mut i: usize = 0;
        while i < self.permissions.len()
            invariant
                i <= self.permissions.len(),
                out@ == self.permissions@.subrange(0, i as int),
            decreases self.permissions.len() - i,
        {
            out.push((self.permissions[i].0.clone(), self.permissions[i].1));
            i += 1;
            assert(out@ =~= self.permissions@.subrange(0, i as int));
        }
        assert(self.permissions@.subrange(0, self.permissions.len() as int) =~= self.permissions@);
        Access { _type: self._type.clone(), permissions: out }
    }
}

impl Clone for Permission {
    fn clone(&self) -> (r: Self)
        ensures
            permission_view(r) == permission_view(*self),
            r.id == self.id,
            r.type_ == self.type_,
    {
        Permission {
            _type: self._type.clone(),
            type_: self.type_,
            id: self.id.clone(),
            name: self.name.clone(),
            access: self.access,
            fields: self.fields.clone(),
        }
    }
}

impl Clone for PermissionMatrix {
    fn clone(&self) -> (r: Self)
        ensures
            matrix_view(r) == matrix_view(*self),
    {
        let ghost sv = matrix_view(*self);
        let mut out: Vec<Permission> = Vec::new();
        let mut i: usize = 0;
        while i < self.permissions.len()
            invariant
                i <= self.permissions.len(),
                sv == matrix_view(*self),
                sv.len() == self.permissions.len(),
                out@.map_values(|p: Permission| permission_view(p)) == sv.subrange(0, i as int),
            decreases self.permissions.len() - i,
        {
            let p = self.permissions[i].clone();
            assert(sv[i as int] == permission_view(self.permissions@[i as int]));
            let ghost before = out@.map_values(|p: Permission| permission_view(p));
            out.push(p);
            assert(out@.map_values(|p: Permission| permission_view(p)) =~= before.push(permission_view(p)));
            i += 1;
            assert(out@.map_values(|p: Permission| permission_view(p)) =~= sv.subrange(0, i as int));
        }
        assert(sv.subrange(0, self.permissions.len() as int) =~= sv);
        PermissionMatrix { _type: self._type.clone(), permissions: out }
    }
}

/// A role of the platform.
#[derive(Debug)]
pub struct Role {
    pub id: String,
    pub name: String,
    pub disabled: bool,
    pub description: Option<String>,
    pub permissions: PermissionMatrix,
    pub created_date: Timestamp,
    pub modified_date: Timestamp,
    pub created_by_user: Option<UserGroupSelection>,
    pub modified_by_user: Option<UserGroupSelection>,
    pub groups: Vec<BaseEntity>,
    pub roles: Option<Vec<BaseEntity>>,
    pub users: Vec<BaseEntity>,
}

/// What a role holds as compared and migrated.
pub struct RoleView {
    pub id: Seq<char>,
    pub name: Seq<char>,
    pub disabled: bool,
    pub description: Option<Seq<char>>,
    pub permissions: Seq<PermissionView>,
    pub groups: Seq<BaseEntity>,
    pub users: Seq<BaseEntity>,
}

impl View for Role {
    type V = RoleView;

    open spec fn view(&self) -> RoleView {
        RoleView {
            id: self.id@,
            name: self.name@,
            disabled: self.disabled,
            description: opt_view(self.description),
            permissions: matrix_view(self.permissions),
            groups: self.groups@,
            users: self.users@,
        }
    }
}

fn clone_opt_entities(o: &Option<Vec<BaseEntity>>) -> (r: Option<Vec<BaseEntity>>)
    ensures
        r is None <==> o is None,
{
    match o {
        Some(v) => Some(clone_entities(v)),
        None => None,
    }
}

impl Clone for Role {
    fn clone(&self) -> (r: Self)
        ensures
            r@ == self@,
    {
        Role {
            id: self.id.clone(),
            name: self.name.clone(),
            disabled: self.disabled,
            description: clone_opt_string(&self.description),
            permissions: self.permissions.clone(),
            created_date: self.created_date,
            modified_date: self.modified_date,
            created_by_user: clone_opt_selection(&self.created_by_user),
            modified_by_user: clone_opt_selection(&self.modified_by_user),
            groups: clone_entities(&self.groups),
            roles: clone_opt_entities(&self.roles),
            users: clone_entities(&self.users),
        }
    }
}

/// The differences of a source role against a destination role: name, disabled
/// flag, description and the nested users.
pub open spec fn role_diffs(a: RoleView, b: RoleView) -> Seq<DiffView> {
    text_change("name"@, a.name, b.name) + bool_change("disabled"@, a.disabled, b.disabled)
        + opt_change("description"@, a.description, b.description)
        + list_change("users"@, a.users, b.users)
}

impl LooksLike for Role {
    open spec fn spec_same(a: RoleView, b: RoleView) -> bool {
        same_key(a.name, b.name)
    }

    open spec fn spec_diffs(a: RoleView, b: RoleView) -> Seq<DiffView> {
        role_diffs(a, b)
    }

    proof fn lemma_same_is_equivalence(a: RoleView, b: RoleView, c: RoleView) {
    }

    open spec fn spec_wf(a: RoleView) -> bool {
        true
    }

    proof fn lemma_no_self_difference(a: RoleView) {
        lemma_list_change_self("users"@, a.users);
    }

    fn differences(&self, other: &Self) -> (r: Vec<Difference>) {
        let mut diffs: Vec<Difference> = Vec::new();
        assert(views(diffs@) =~= Seq::<DiffView>::empty());
        push_text_change(&mut diffs, "name", &self.name, &other.name);
        push_bool_change(&mut diffs, "disabled", self.disabled, other.disabled);
        push_opt_change(&mut diffs, "description", &self.description, &other.description);
        push_list_change(&mut diffs, "users", &self.users, &other.users);
        assert(views(diffs@) =~= role_diffs(self@, other@));
        diffs
    }

    fn looks_like(&self, other: &Self) -> (r: bool) {
        self.differences(other).len() == 0
    }

    fn is_same_resource(&self, other: &Self) -> (r: bool) {
        keys_match(&self.name, &other.name)
    }

    fn duplicate(&self) -> (r: Self) {
        self.clone()
    }
}

/// No two entries of a field access map share a field name.
pub open spec fn access_keys_unique(xs: Seq<(Seq<char>, u16)>) -> bool {
    forall|i: int, j: int| 0 <= i < xs.len() && 0 <= j < xs.len() && i != j ==> (#[trigger] xs[i]).0 != (#[trigger] xs[j]).0
}

/// No two permissions of a matrix share a name, and each field access map has
/// unique field names.
pub open spec fn matrix_wf(ms: Seq<PermissionView>) -> bool {
    &&& forall|i: int, j: int| 0 <= i < ms.len() && 0 <= j < ms.len() && i != j ==> (#[trigger] ms[i]).name != (#[trigger] ms[j]).name
    &&& forall|i: int| 0 <= i < ms.len() ==> access_keys_unique(#[trigger] ms[i].fields)
}

/// `x` is at the first entry of `ys` with its name, with the same level.
pub open spec fn key_found(x: (Seq<char>, u16), ys: Seq<(Seq<char>, u16)>) -> bool {
    exists|j: int| #[trigger] is_first_key(x.0, ys, j) && ys[j].1 == x.1
}

/// `x` is the first permission of `ys` with its name.
pub open spec fn permission_found(x: PermissionView, ys: Seq<PermissionView>) -> bool {
    exists|j: int| #[trigger] is_first_named(x.name, ys, j) && ys[j] == x
}

proof fn lemma_access_source_none(xs: Seq<(Seq<char>, u16)>, ys: Seq<(Seq<char>, u16)>)
    requires
        forall|i: int| 0 <= i < xs.len() ==> key_found(#[trigger] xs[i], ys),
    ensures
        access_source_changes(xs, ys).len() == 0,
    decreases xs.len(),
{
    if xs.len() > 0 {
        let p = xs.drop_last();
        assert forall|i: int| 0 <= i < p.len() implies key_found(#[trigger] p[i], ys) by {
            assert(p[i] == xs[i]);
        }
        lemma_access_source_none(p, ys);
        let x = xs[xs.len() - 1];
        assert(key_found(x, ys));
        let j = choose|j: int| #[trigger] is_first_key(x.0, ys, j) && ys[j].1 == x.1;
        lemma_key_position_is(x.0, ys, j);
    }
}

proof fn lemma_access_removed_none(xs: Seq<(Seq<char>, u16)>, ys: Seq<(Seq<char>, u16)>)
    requires
        forall|k: int| 0 <= k < ys.len() ==> has_key((#[trigger] ys[k]).0, xs),
    ensures
        access_removed(xs, ys).len() == 0,
    decreases ys.len(),
{
    if ys.len() > 0 {
        let p = ys.drop_last();
        assert forall|k: int| 0 <= k < p.len() implies has_key((#[trigger] p[k]).0, xs) by {
            assert(p[k] == ys[k]);
        }
        lemma_access_removed_none(xs, p);
        assert(has_key(ys[ys.len() - 1].0, xs));
    }
}

/// A field access map with unique names shows no difference against itself.
pub proof fn lemma_access_self(xs: Seq<(Seq<char>, u16)>)
    requires
        access_keys_unique(xs),
    ensures
        access_diffs(xs, xs).len() == 0,
{
    assert forall|i: int| 0 <= i < xs.len() implies key_found(#[trigger] xs[i], xs) by {
        assert(is_first_key(xs[i].0, xs, i));
    }
    lemma_access_source_none(xs, xs);
    assert forall|k: int| 0 <= k < xs.len() implies has_key((#[trigger] xs[k]).0, xs) by {
        assert(xs[k].0 == xs[k].0);
    }
    lemma_access_removed_none(xs, xs);
}

proof fn lemma_matrix_source_none(xs: Seq<PermissionView>, ys: Seq<PermissionView>)
    requires
        forall|i: int| 0 <= i < xs.len() ==> permission_found(#[trigger] xs[i], ys),
        forall|i: int| 0 <= i < xs.len() ==> access_keys_unique(#[trigger] xs[i].fields),
    ensures
        matrix_source_changes(xs, ys).len() == 0,
    decreases xs.len(),
{
    if xs.len() > 0 {
        let p = xs.drop_last();
        assert forall|i: int| 0 <= i < p.len() implies permission_found(#[trigger] p[i], ys) by {
            assert(p[i] == xs[i]);
        }
        assert forall|i: int| 0 <= i < p.len() implies access_keys_unique(#[trigger] p[i].fields) by {
            assert(p[i] == xs[i]);
        }
        lemma_matrix_source_none(p, ys);
        let x = xs[xs.len() - 1];
        assert(permission_found(x, ys));
        let j = choose|j: int| #[trigger] is_first_named(x.name, ys, j) && ys[j] == x;
        lemma_name_position_is(x.name, ys, j);
        assert(access_keys_unique(xs[xs.len() - 1].fields));
        lemma_access_self(x.fields);
    }
}

proof fn lemma_matrix_removed_none(xs: Seq<PermissionView>, ys: Seq<PermissionView>)
    requires
        forall|k: int| 0 <= k < ys.len() ==> has_name((#[trigger] ys[k]).name, xs),
    ensures
        matrix_removed(xs, ys).len() == 0,
    decreases ys.len(),
{
    if ys.len() > 0 {
        let p = ys.drop_last();
        assert forall|k: int| 0 <= k < p.len() implies has_name((#[trigger] p[k]).name, xs) by {
            assert(p[k] == ys[k]);
        }
        lemma_matrix_removed_none(xs, p);
        assert(has_name(ys[ys.len() - 1].name, xs));
    }
}

/// A well-formed permission matrix shows no difference against itself.
pub proof fn lemma_matrix_self(ms: Seq<PermissionView>)
    requires
        matrix_wf(ms),
    ensures
        matrix_diffs(ms, ms).len() == 0,
{
    assert forall|i: int| 0 <= i < ms.len() implies permission_found(#[trigger] ms[i], ms) by {
        assert(is_first_named(ms[i].name, ms, i));
    }
    lemma_matrix_source_none(ms, ms);
    assert forall|k: int| 0 <= k < ms.len() implies has_name((#[trigger] ms[k]).name, ms) by {
        assert(ms[k].name == ms[k].name);
    }
    lemma_matrix_removed_none(ms, ms);
}

} // verus!
