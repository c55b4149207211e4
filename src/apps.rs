use vstd::prelude::*;

use crate::entity::{clone_opt_string, clone_strings, Timestamp, UserGroupSelection};
use crate::equality::{
    bool_change, complex_change, opt_change, push_bool_change, push_complex_change, push_opt_change,
    push_text_change, text_change, views, DiffView, Difference, LooksLike,
};
use crate::roles::{lemma_matrix_self, matrix_diffs, matrix_view, matrix_wf, PermissionMatrix, PermissionView};
use crate::translate::{lookup, IdTable};
use crate::workspaces::normalise_workspaces;
use crate::text::{keys_match, opt_view, same_key};

verus! {

/// The kind of an application field, as the platform names it.
#[derive(Debug, Clone, Copy, PartialEq, Eq)]
pub enum FieldType {
    /// The platform's `none` kind.
    Unset,
    Text,
    Numeric,
    ValuesList,
    Date,
    UserGroup,
    Attachment,
    Tracking,
    Reference,
    Comments,
    History,
    List,
}

/// The kind of an element of an application's layout.
#[derive(Debug, Clone, Copy, PartialEq, Eq)]
pub enum LayoutType {
    Field,
    Section,
    HtmlObject,
    Tab,
    Integration,
    Tabs,
    Widget,
    OrchestrationTask,
}

/// What every application field has.
#[derive(Debug, Clone, PartialEq, Eq)]
pub struct BaseField {
    pub _type: String,
    pub id: String,
    pub name: String,
    pub key: String,
    pub supports_multiple_output_mappings: bool,
    pub required: bool,
    pub read_only: bool,
    pub field_type: FieldType,
}

/// The tracking-id field every application has.
#[derive(Debug, Clone, PartialEq, Eq)]
pub struct TrackingIdField {
    pub _type: String,
    /// The prefix of the application, followed by a hyphen, e.g. `APP-`.
    pub prefix: String,
    pub id: String,
    pub name: String,
    pub key: String,
    pub read_only: bool,
    pub supports_multiple_output_mappings: bool,
}

/// A numeric field.
#[derive(Debug, Clone, PartialEq, Eq)]
pub struct NumericField {
    pub base: BaseField,
    pub step: u64,
    pub unique: bool,
    pub prefix: String,
    pub suffix: String,
    pub format: String,
    pub min: Option<i64>,
    pub max: Option<i64>,
    pub formula: Option<String>,
}

/// A list of numbers.
#[derive(Debug, Clone, PartialEq, Eq)]
pub struct NumericListField {
    pub base: BaseField,
    pub input_type: String,
    pub item_step: u64,
    pub item_min: Option<i64>,
    pub item_max: Option<i64>,
    pub max_items: Option<u64>,
    pub min_items: Option<u64>,
}

/// How the length of a text is bounded.
#[derive(Debug, Clone, Copy, PartialEq, Eq)]
pub enum TextLengthType {
    /// No bound (the platform's `none`).
    Unbounded,
    Characters,
    Words,
}

/// A list of texts.
#[derive(Debug, Clone, PartialEq, Eq)]
pub struct TextListField {
    pub base: BaseField,
    pub input_type: String,
    pub item_length_type: TextLengthType,
    pub item_step: i64,
}

/// One choice of a selection field.
#[derive(Debug, Clone, PartialEq, Eq)]
pub struct ValuesListValue {
    pub _type: String,
    pub id: String,
    pub name: String,
    pub selected: bool,
    pub description: String,
    pub other_text: bool,
    pub other_text_description: String,
    pub other_text_default_value: String,
    pub other_text_required: String,
}

/// A single-select, multi-select, radio-button or checkbox field.
#[derive(Debug, Clone, PartialEq, Eq)]
pub struct SelectionField {
    pub base: BaseField,
    pub values: Vec<ValuesListValue>,
    pub control_type: String,
    pub selection_type: String,
}

/// Whether a user-group member is a user or a group.
#[derive(Debug, Clone, Copy, PartialEq, Eq)]
pub enum UserGroupItemType {
    User,
    Group,
}

/// Whether a user-group field offers users or groups.
#[derive(Debug, Clone, Copy, PartialEq, Eq)]
pub enum UserGroupSelectionType {
    Users,
    Groups,
}

/// One member a user-group field offers.
#[derive(Debug, Clone, PartialEq, Eq)]
pub struct UserGroupValue {
    pub _type: String,
    pub item_type: UserGroupItemType,
    pub selection_type: UserGroupSelectionType,
    pub id: String,
    pub name: String,
}

/// The names of a user-group field's members with their ids, as pairs
/// (each name at most once).
#[derive(Debug, Clone, PartialEq, Eq)]
pub struct ReverseValueMap {
    pub _type: String,
    pub values: Vec<(String, String)>,
}

/// A default value of a user-group field (its content is not modelled).
#[derive(Debug, Clone, Copy, PartialEq, Eq)]
pub struct UserGroupDefaultValue {}

/// A field that holds users or groups.
#[derive(Debug, Clone, PartialEq, Eq)]
pub struct UserGroupField {
    pub base: BaseField,
    pub show_all_users: bool,
    pub show_all_groups: bool,
    pub members: Vec<UserGroupValue>,
    pub defaults: Vec<UserGroupDefaultValue>,
    pub reverse_value_map: ReverseValueMap,
}

/// A field of an application, by kind.
#[derive(Debug)]
pub enum Field {
    SingleLineText(BaseField),
    MultiLineText(BaseField),
    Email(BaseField),
    Telephone(BaseField),
    Url(BaseField),
    IpAddress(BaseField),
    RichText(BaseField),
    Json(BaseField),
    TextList(TextListField),
    Numeric(NumericField),
    NumericList(NumericListField),
    DateTime(BaseField),
    Date(BaseField),
    Time(BaseField),
    TimeSpan(BaseField),
    FirstCreated(BaseField),
    LastUpdated(BaseField),
    SingleSelect(SelectionField),
    MultiSelect(SelectionField),
    RadioButtons(SelectionField),
    Checkboxes(SelectionField),
    SingleUserGroup(UserGroupField),
    MultiUserGroup(UserGroupField),
    CreatedBy(UserGroupField),
    LastUpdatedBy(UserGroupField),
    Correlation(BaseField),
    SingleReference(BaseField),
    MultiReference(BaseField),
    GridReference(BaseField),
    TrackingId(TrackingIdField),
    Attachment(BaseField),
    Comments(BaseField),
    History(BaseField),
}

/// A field as compared: the position of its kind among the variants, and its name.
pub struct FieldView {
    pub kind: int,
    pub name: Seq<char>,
}

impl View for Field {
    type V = FieldView;

    open spec fn view(&self) -> FieldView {
        match self {
            Field::SingleLineText(f) => FieldView { kind: 0, name: f.name@ },
            Field::MultiLineText(f) => FieldView { kind: 1, name: f.name@ },
            Field::Email(f) => FieldView { kind: 2, name: f.name@ },
            Field::Telephone(f) => FieldView { kind: 3, name: f.name@ },
            Field::Url(f) => FieldView { kind: 4, name: f.name@ },
            Field::IpAddress(f) => FieldView { kind: 5, name: f.name@ },
            Field::RichText(f) => FieldView { kind: 6, name: f.name@ },
            Field::Json(f) => FieldView { kind: 7, name: f.name@ },
            Field::TextList(f) => FieldView { kind: 8, name: f.base.name@ },
            Field::Numeric(f) => FieldView { kind: 9, name: f.base.name@ },
            Field::NumericList(f) => FieldView { kind: 10, name: f.base.name@ },
            Field::DateTime(f) => FieldView { kind: 11, name: f.name@ },
            Field::Date(f) => FieldView { kind: 12, name: f.name@ },
            Field::Time(f) => FieldView { kind: 13, name: f.name@ },
            Field::TimeSpan(f) => FieldView { kind: 14, name: f.name@ },
            Field::FirstCreated(f) => FieldView { kind: 15, name: f.name@ },
            Field::LastUpdated(f) => FieldView { kind: 16, name: f.name@ },
            Field::SingleSelect(f) => FieldView { kind: 17, name: f.base.name@ },
            Field::MultiSelect(f) => FieldView { kind: 18, name: f.base.name@ },
            Field::RadioButtons(f) => FieldView { kind: 19, name: f.base.name@ },
            Field::Checkboxes(f) => FieldView { kind: 20, name: f.base.name@ },
            Field::SingleUserGroup(f) => FieldView { kind: 21, name: f.base.name@ },
            Field::MultiUserGroup(f) => FieldView { kind: 22, name: f.base.name@ },
            Field::CreatedBy(f) => FieldView { kind: 23, name: f.base.name@ },
            Field::LastUpdatedBy(f) => FieldView { kind: 24, name: f.base.name@ },
            Field::Correlation(f) => FieldView { kind: 25, name: f.name@ },
            Field::SingleReference(f) => FieldView { kind: 26, name: f.name@ },
            Field::MultiReference(f) => FieldView { kind: 27, name: f.name@ },
            Field::GridReference(f) => FieldView { kind: 28, name: f.name@ },
            Field::TrackingId(f) => FieldView { kind: 29, name: f.name@ },
            Field::Attachment(f) => FieldView { kind: 30, name: f.name@ },
            Field::Comments(f) => FieldView { kind: 31, name: f.name@ },
            Field::History(f) => FieldView { kind: 32, name: f.name@ },
        }
    }
}

impl Clone for Field {
    fn clone(&self) -> (r: Self)
        ensures
            r@ == self@,
    {
        match self {
            Field::SingleLineText(f) => Field::SingleLineText(clone_base(f)),
            Field::MultiLineText(f) => Field::MultiLineText(clone_base(f)),
            Field::Email(f) => Field::Email(clone_base(f)),
            Field::Telephone(f) => Field::Telephone(clone_base(f)),
            Field::Url(f) => Field::Url(clone_base(f)),
            Field::IpAddress(f) => Field::IpAddress(clone_base(f)),
            Field::RichText(f) => Field::RichText(clone_base(f)),
            Field::Json(f) => Field::Json(clone_base(f)),
            Field::TextList(f) => Field::TextList(clone_textlistfield(f)),
            Field::Numeric(f) => Field::Numeric(clone_numericfield(f)),
            Field::NumericList(f) => Field::NumericList(clone_numericlistfield(f)),
            Field::DateTime(f) => Field::DateTime(clone_base(f)),
            Field::Date(f) => Field::Date(clone_base(f)),
            Field::Time(f) => Field::Time(clone_base(f)),
            Field::TimeSpan(f) => Field::TimeSpan(clone_base(f)),
            Field::FirstCreated(f) => Field::FirstCreated(clone_base(f)),
            Field::LastUpdated(f) => Field::LastUpdated(clone_base(f)),
            Field::SingleSelect(f) => Field::SingleSelect(clone_selectionfield(f)),
            Field::MultiSelect(f) => Field::MultiSelect(clone_selectionfield(f)),
            Field::RadioButtons(f) => Field::RadioButtons(clone_selectionfield(f)),
            Field::Checkboxes(f) => Field::Checkboxes(clone_selectionfield(f)),
            Field::SingleUserGroup(f) => Field::SingleUserGroup(clone_usergroupfield(f)),
            Field::MultiUserGroup(f) => Field::MultiUserGroup(clone_usergroupfield(f)),
            Field::CreatedBy(f) => Field::CreatedBy(clone_usergroupfield(f)),
            Field::LastUpdatedBy(f) => Field::LastUpdatedBy(clone_usergroupfield(f)),
            Field::Correlation(f) => Field::Correlation(clone_base(f)),
            Field::SingleReference(f) => Field::SingleReference(clone_base(f)),
            Field::MultiReference(f) => Field::MultiReference(clone_base(f)),
            Field::GridReference(f) => Field::GridReference(clone_base(f)),
            Field::TrackingId(f) => Field::TrackingId(clone_trackingidfield(f)),
            Field::Attachment(f) => Field::Attachment(clone_base(f)),
            Field::Comments(f) => Field::Comments(clone_base(f)),
            Field::History(f) => Field::History(clone_base(f)),
        }
    }
}

fn clone_base(f: &BaseField) -> (r: BaseField)
    ensures
        r.name == f.name,
{
    BaseField {
        _type: f._type.clone(),
        id: f.id.clone(),
        name: f.name.clone(),
        key: f.key.clone(),
        supports_multiple_output_mappings: f.supports_multiple_output_mappings,
        required: f.required,
        read_only: f.read_only,
        field_type: f.field_type,
    }
}

fn clone_opt(o: &Option<String>) -> (r: Option<String>)
    ensures
        r == *o,
{
    match o {
        Some(s) => Some(s.clone()),
        None => None,
    }
}

fn clone_textlistfield(f: &TextListField) -> (r: TextListField)
    ensures
        r.base.name == f.base.name,
{
    TextListField {
        base: clone_base(&f.base),
        input_type: f.input_type.clone(),
        item_length_type: f.item_length_type,
        item_step: f.item_step,
    }
}

fn clone_numericfield(f: &NumericField) -> (r: NumericField)
    ensures
        r.base.name == f.base.name,
{
    NumericField {
        base: clone_base(&f.base),
        step: f.step,
        unique: f.unique,
        prefix: f.prefix.clone(),
        suffix: f.suffix.clone(),
        format: f.format.clone(),
        min: f.min,
        max: f.max,
        formula: clone_opt(&f.formula),
    }
}

fn clone_numericlistfield(f: &NumericListField) -> (r: NumericListField)
    ensures
        r.base.name == f.base.name,
{
    NumericListField {
        base: clone_base(&f.base),
        input_type: f.input_type.clone(),
        item_step: f.item_step,
        item_min: f.item_min,
        item_max: f.item_max,
        max_items: f.max_items,
        min_items: f.min_items,
    }
}

fn clone_selectionfield(f: &SelectionField) -> (r: SelectionField)
    ensures
        r.base.name == f.base.name,
{
    SelectionField {
        base: clone_base(&f.base),
        values: f.values.clone(),
        control_type: f.control_type.clone(),
        selection_type: f.selection_type.clone(),
    }
}

fn clone_usergroupfield(f: &UserGroupField) -> (r: UserGroupField)
    ensures
        r.base.name == f.base.name,
{
    UserGroupField {
        base: clone_base(&f.base),
        show_all_users: f.show_all_users,
        show_all_groups: f.show_all_groups,
        members: f.members.clone(),
        defaults: f.defaults.clone(),
        reverse_value_map: f.reverse_value_map.clone(),
    }
}

fn clone_trackingidfield(f: &TrackingIdField) -> (r: TrackingIdField)
    ensures
        r.name == f.name,
{
    TrackingIdField {
        _type: f._type.clone(),
        prefix: f.prefix.clone(),
        id: f.id.clone(),
        name: f.name.clone(),
        key: f.key.clone(),
        read_only: f.read_only,
        supports_multiple_output_mappings: f.supports_multiple_output_mappings,
    }
}

impl Field {
    /// The name of the field, whatever its kind.
    pub fn name(&self) -> (r: String)
        ensures
            r@ == self@.name,
    {
        match self {
            Field::SingleLineText(f) => f.name.clone(),
            Field::MultiLineText(f) => f.name.clone(),
            Field::Email(f) => f.name.clone(),
            Field::Telephone(f) => f.name.clone(),
            Field::Url(f) => f.name.clone(),
            Field::IpAddress(f) => f.name.clone(),
            Field::RichText(f) => f.name.clone(),
            Field::Json(f) => f.name.clone(),
            Field::TextList(f) => f.base.name.clone(),
            Field::Numeric(f) => f.base.name.clone(),
            Field::NumericList(f) => f.base.name.clone(),
            Field::DateTime(f) => f.name.clone(),
            Field::Date(f) => f.name.clone(),
            Field::Time(f) => f.name.clone(),
            Field::TimeSpan(f) => f.name.clone(),
            Field::FirstCreated(f) => f.name.clone(),
            Field::LastUpdated(f) => f.name.clone(),
            Field::SingleSelect(f) => f.base.name.clone(),
            Field::MultiSelect(f) => f.base.name.clone(),
            Field::RadioButtons(f) => f.base.name.clone(),
            Field::Checkboxes(f) => f.base.name.clone(),
            Field::SingleUserGroup(f) => f.base.name.clone(),
            Field::MultiUserGroup(f) => f.base.name.clone(),
            Field::CreatedBy(f) => f.base.name.clone(),
            Field::LastUpdatedBy(f) => f.base.name.clone(),
            Field::Correlation(f) => f.name.clone(),
            Field::SingleReference(f) => f.name.clone(),
            Field::MultiReference(f) => f.name.clone(),
            Field::GridReference(f) => f.name.clone(),
            Field::TrackingId(f) => f.name.clone(),
            Field::Attachment(f) => f.name.clone(),
            Field::Comments(f) => f.name.clone(),
            Field::History(f) => f.name.clone(),
        }
    }

    /// The position of the field's kind among the variants.
    fn kind(&self) -> (r: u8)
        ensures
            r as int == self@.kind,
    {
        match self {
            Field::SingleLineText(_) => 0,
            Field::MultiLineText(_) => 1,
            Field::Email(_) => 2,
            Field::Telephone(_) => 3,
            Field::Url(_) => 4,
            Field::IpAddress(_) => 5,
            Field::RichText(_) => 6,
            Field::Json(_) => 7,
            Field::TextList(_) => 8,
            Field::Numeric(_) => 9,
            Field::NumericList(_) => 10,
            Field::DateTime(_) => 11,
            Field::Date(_) => 12,
            Field::Time(_) => 13,
            Field::TimeSpan(_) => 14,
            Field::FirstCreated(_) => 15,
            Field::LastUpdated(_) => 16,
            Field::SingleSelect(_) => 17,
            Field::MultiSelect(_) => 18,
            Field::RadioButtons(_) => 19,
            Field::Checkboxes(_) => 20,
            Field::SingleUserGroup(_) => 21,
            Field::MultiUserGroup(_) => 22,
            Field::CreatedBy(_) => 23,
            Field::LastUpdatedBy(_) => 24,
            Field::Correlation(_) => 25,
            Field::SingleReference(_) => 26,
            Field::MultiReference(_) => 27,
            Field::GridReference(_) => 28,
            Field::TrackingId(_) => 29,
            Field::Attachment(_) => 30,
            Field::Comments(_) => 31,
            Field::History(_) => 32,
        }
    }
}

impl LooksLike for Field {
    /// Two fields are the same field when they are of the same kind and have the same name.
    open spec fn spec_same(a: FieldView, b: FieldView) -> bool {
        a.kind == b.kind && a.name == b.name
    }

    /// Fields are not compared beyond their identity.
    open spec fn spec_diffs(a: FieldView, b: FieldView) -> Seq<DiffView> {
        seq![]
    }

    proof fn lemma_same_is_equivalence(a: FieldView, b: FieldView, c: FieldView) {
    }

    open spec fn spec_wf(a: FieldView) -> bool {
        true
    }

    proof fn lemma_no_self_difference(a: FieldView) {
    }

    fn differences(&self, other: &Self) -> (r: Vec<Difference>) {
        let r: Vec<Difference> = Vec::new();
        assert(views(r@) =~= Seq::<DiffView>::empty());
        r
    }

    fn looks_like(&self, other: &Self) -> (r: bool) {
        true
    }

    fn is_same_resource(&self, other: &Self) -> (r: bool) {
        self.kind() == other.kind() && self.name() == other.name()
    }

    fn duplicate(&self) -> (r: Self) {
        self.clone()
    }
}

/// Whether some field of `ys` is the same field as `x`.
pub open spec fn field_in(x: FieldView, ys: Seq<FieldView>) -> bool {
    exists|j: int| 0 <= j < ys.len() && Field::spec_same(x, #[trigger] ys[j])
}

pub open spec fn field_views(v: Seq<Field>) -> Seq<FieldView> {
    v.map_values(|f: Field| f@)
}

/// `AddingItem` for each field of `xs` that `ys` lacks, in the order of `xs`.
pub open spec fn fields_added(xs: Seq<FieldView>, ys: Seq<FieldView>) -> Seq<DiffView>
    decreases xs.len(),
{
    if xs.len() == 0 {
        seq![]
    } else {
        fields_added(xs.drop_last(), ys) + if field_in(xs.last(), ys) {
            seq![]
        } else {
            seq![DiffView::AddingItem { field: "fields"@, item: xs.last().name }]
        }
    }
}

/// `RemovingItem` for each field of `ys` that `xs` lacks, in the order of `ys`.
pub open spec fn fields_removed(xs: Seq<FieldView>, ys: Seq<FieldView>) -> Seq<DiffView>
    decreases ys.len(),
{
    if ys.len() == 0 {
        seq![]
    } else {
        fields_removed(xs, ys.drop_last()) + if field_in(ys.last(), xs) {
            seq![]
        } else {
            seq![DiffView::RemovingItem { field: "fields"@, item: ys.last().name }]
        }
    }
}

fn has_field(x: &Field, ys: &Vec<Field>) -> (r: bool)
    ensures
        r == field_in(x@, field_views(ys@)),
{
    let ghost yv = field_views(ys@);
    let mut j: usize = 0;
    while j < ys.len()
        invariant
            j <= ys.len(),
            yv == field_views(ys@),
            forall|k: int| 0 <= k < j ==> !Field::spec_same(x@, #[trigger] yv[k]),
        decreases ys.len() - j,
    {
        assert(yv[j as int] == ys@[j as int]@);
        if x.is_same_resource(&ys[j]) {
            return true;
        }
        j += 1;
    }
    false
}

/// The differences of the fields of two applications: the fields of the source
/// alone are added, those of the destination alone are removed; fields present
/// in both are matched by kind and name and not compared further.
pub fn fields_differences(source: &Vec<Field>, dest: &Vec<Field>) -> (r: Vec<Difference>)
    ensures
        views(r@) == fields_added(field_views(source@), field_views(dest@)) + fields_removed(
            field_views(source@),
            field_views(dest@),
        ),
{
    let ghost sv = field_views(source@);
    let ghost dv = field_views(dest@);
    let mut diffs: Vec<Difference> = Vec::new();
    assert(views(diffs@) =~= fields_added(sv.subrange(0, 0), dv));
    let mut i: usize = 0;
    while i < source.len()
        invariant
            i <= source.len(),
            sv == field_views(source@),
            dv == field_views(dest@),
            sv.len() == source.len(),
            views(diffs@) == fields_added(sv.subrange(0, i as int), dv),
        decreases source.len() - i,
    {
        let f = &source[i];
        let ghost before = views(diffs@);
        let ghost p = sv.subrange(0, i as int + 1);
        assert(p.drop_last() =~= sv.subrange(0, i as int));
        assert(sv[i as int] == f@);
        assert(p.last() == f@);
        if !has_field(f, dest) {
            let d = Difference::AddingItem { field: String::from_str("fields"), item: f.name() };
            diffs.push(d);
            assert(views(diffs@) =~= before.push(d@));
        }
        assert(views(diffs@) =~= fields_added(sv.subrange(0, i as int + 1), dv));
        i += 1;
    }
    assert(sv.subrange(0, source.len() as int) =~= sv);
    let ghost mid = views(diffs@);
    assert(views(diffs@) =~= mid + fields_removed(sv, dv.subrange(0, 0)));
    let mut k: usize = 0;
    while k < dest.len()
        invariant
            k <= dest.len(),
            sv == field_views(source@),
            dv == field_views(dest@),
            dv.len() == dest.len(),
            views(diffs@) == mid + fields_removed(sv, dv.subrange(0, k as int)),
        decreases dest.len() - k,
    {
        let f = &dest[k];
        let ghost before = views(diffs@);
        let ghost p = dv.subrange(0, k as int + 1);
        assert(p.drop_last() =~= dv.subrange(0, k as int));
        assert(dv[k as int] == f@);
        assert(p.last() == f@);
        if !has_field(f, source) {
            let d = Difference::RemovingItem { field: String::from_str("fields"), item: f.name() };
            diffs.push(d);
            assert(views(diffs@) =~= before.push(d@));
        }
        assert(views(diffs@) =~= mid + fields_removed(sv, dv.subrange(0, k as int + 1)));
        k += 1;
    }
    assert(dv.subrange(0, dest.len() as int) =~= dv);
    diffs
}

/// An element of an application's layout, with what identifies it: a field
/// element by the field it shows, a tab set by the names of its tabs, the
/// others by name. Placement and nested elements are not modelled.
#[derive(Debug, Clone, PartialEq, Eq)]
pub enum LayoutNode {
    Field { id: String, field_id: String },
    Section { id: String, name: String },
    HtmlObject { id: String, name: String },
    Integration { id: String, name: String },
    Tabs { id: String, tab_names: Vec<String> },
    Widget { id: String, name: String },
}

/// Whether every string of `xs` is in `ys`.
pub open spec fn all_in(xs: Seq<String>, ys: Seq<String>) -> bool {
    forall|i: int| 0 <= i < xs.len() ==> #[trigger] str_in(xs[i], ys)
}

/// Whether some string of `ys` equals `x`.
pub open spec fn str_in(x: String, ys: Seq<String>) -> bool {
    exists|j: int| 0 <= j < ys.len() && ys[j]@ == x@
}

/// Whether two layout elements are the same element.
pub open spec fn same_layout(a: LayoutNode, b: LayoutNode) -> bool {
    match (a, b) {
        (LayoutNode::Field { field_id: x, .. }, LayoutNode::Field { field_id: y, .. }) => x@ == y@,
        (LayoutNode::Section { name: x, .. }, LayoutNode::Section { name: y, .. }) => x@ == y@,
        (LayoutNode::Integration { name: x, .. }, LayoutNode::Integration { name: y, .. }) => x@ == y@,
        (LayoutNode::Widget { name: x, .. }, LayoutNode::Widget { name: y, .. }) => x@ == y@,
        (LayoutNode::HtmlObject { name: x, .. }, LayoutNode::HtmlObject { name: y, .. }) => x@ == y@,
        (LayoutNode::Tabs { tab_names: x, .. }, LayoutNode::Tabs { tab_names: y, .. }) => all_in(x@, y@),
        _ => false,
    }
}

fn string_in(x: &String, ys: &Vec<String>) -> (r: bool)
    ensures
        r == str_in(*x, ys@),
{
    let mut j: usize = 0;
    while j < ys.len()
        invariant
            j <= ys.len(),
            forall|k: int| 0 <= k < j ==> ys@[k]@ != x@,
        decreases ys.len() - j,
    {
        if ys[j] == *x {
            return true;
        }
        j += 1;
    }
    false
}

fn all_strings_in(x: &Vec<String>, y: &Vec<String>) -> (r: bool)
    ensures
        r == all_in(x@, y@),
{
    let mut i: usize = 0;
    while i < x.len()
        invariant
            i <= x.len(),
            forall|k: int| 0 <= k < i ==> #[trigger] str_in(x@[k], y@),
        decreases x.len() - i,
    {
        if !string_in(&x[i], y) {
            assert(!str_in(x@[i as int], y@));
            return false;
        }
        i += 1;
    }
    true
}

impl LayoutNode {
    /// Whether two layout elements are the same element.
    pub fn is_same_resource(&self, other: &LayoutNode) -> (r: bool)
        ensures
            r == same_layout(*self, *other),
    {
        match (self, other) {
            (LayoutNode::Field { field_id: x, .. }, LayoutNode::Field { field_id: y, .. }) => *x == *y,
            (LayoutNode::Section { name: x, .. }, LayoutNode::Section { name: y, .. }) => *x == *y,
            (LayoutNode::Integration { name: x, .. }, LayoutNode::Integration { name: y, .. }) => *x == *y,
            (LayoutNode::Widget { name: x, .. }, LayoutNode::Widget { name: y, .. }) => *x == *y,
            (LayoutNode::HtmlObject { name: x, .. }, LayoutNode::HtmlObject { name: y, .. }) => *x == *y,
            (LayoutNode::Tabs { tab_names: x, .. }, LayoutNode::Tabs { tab_names: y, .. }) => all_strings_in(x, y),
            _ => false,
        }
    }
}

/// An application, without its floating-point display settings.
#[derive(Debug)]
pub struct Application {
    pub _type: String,
    pub id: String,
    pub name: String,
    pub acronym: String,
    pub description: Option<String>,
    pub tracking_field_id: String,
    pub layout: Vec<LayoutNode>,
    pub fields: Vec<Field>,
    pub workspaces: Vec<String>,
    pub create_workspace: bool,
    pub created_date: Timestamp,
    pub created_by_user: UserGroupSelection,
    pub modified_date: Timestamp,
    pub modified_by_user: UserGroupSelection,
    pub time_tracking_enabled: bool,
    pub permissions: PermissionMatrix,
    pub uid: String,
    pub version: i32,
    pub disabled: bool,
}

/// What an application holds as compared.
pub struct ApplicationView {
    pub id: Seq<char>,
    pub name: Seq<char>,
    pub acronym: Seq<char>,
    pub description: Option<Seq<char>>,
    pub disabled: bool,
    pub time_tracking_enabled: bool,
    pub fields: Seq<FieldView>,
    pub workspaces: Seq<Seq<char>>,
    pub layout_len: nat,
    pub permissions: Seq<PermissionView>,
}

impl View for Application {
    type V = ApplicationView;

    open spec fn view(&self) -> ApplicationView {
        ApplicationView {
            id: self.id@,
            name: self.name@,
            acronym: self.acronym@,
            description: opt_view(self.description),
            disabled: self.disabled,
            time_tracking_enabled: self.time_tracking_enabled,
            fields: field_views(self.fields@),
            workspaces: self.workspaces@.map_values(|w: String| w@),
            layout_len: self.layout@.len(),
            permissions: matrix_view(self.permissions),
        }
    }
}

fn clone_fields(v: &Vec<Field>) -> (r: Vec<Field>)
    ensures
        field_views(r@) == field_views(v@),
{
    let mut out: Vec<Field> = Vec::new();
    let mut i: usize = 0;
    while i < v.len()
        invariant
            i <= v.len(),
            field_views(out@) == field_views(v@).subrange(0, i as int),
        decreases v.len() - i,
    {
        let ghost before = field_views(out@);
        let f = v[i].clone();
        out.push(f);
        assert(field_views(out@) =~= before.push(v@[i as int]@));
        i += 1;
        assert(field_views(out@) =~= field_views(v@).subrange(0, i as int));
    }
    assert(field_views(v@).subrange(0, v.len() as int) =~= field_views(v@));
    out
}

impl Clone for Application {
    fn clone(&self) -> (r: Self)
        ensures
            r@ == self@,
    {
        Application {
            _type: self._type.clone(),
            id: self.id.clone(),
            name: self.name.clone(),
            acronym: self.acronym.clone(),
            description: clone_opt_string(&self.description),
            tracking_field_id: self.tracking_field_id.clone(),
            layout: self.layout.clone(),
            fields: clone_fields(&self.fields),
            workspaces: clone_strings(&self.workspaces),
            create_workspace: self.create_workspace,
            created_date: self.created_date,
            created_by_user: self.created_by_user.clone(),
            modified_date: self.modified_date,
            modified_by_user: self.modified_by_user.clone(),
            time_tracking_enabled: self.time_tracking_enabled,
            permissions: self.permissions.clone(),
            uid: self.uid.clone(),
            version: self.version,
            disabled: self.disabled,
        }
    }
}

/// `AddingItem` for each string of `xs` absent from `ys`, in the order of `xs`.
pub open spec fn strings_added(field: Seq<char>, xs: Seq<Seq<char>>, ys: Seq<Seq<char>>) -> Seq<DiffView>
    decreases xs.len(),
{
    if xs.len() == 0 {
        seq![]
    } else {
        strings_added(field, xs.drop_last(), ys) + if ys.contains(xs.last()) {
            seq![]
        } else {
            seq![DiffView::AddingItem { field, item: xs.last() }]
        }
    }
}

/// `RemovingItem` for each string of `ys` absent from `xs`, in the order of `ys`.
pub open spec fn strings_removed(field: Seq<char>, xs: Seq<Seq<char>>, ys: Seq<Seq<char>>) -> Seq<DiffView>
    decreases ys.len(),
{
    if ys.len() == 0 {
        seq![]
    } else {
        strings_removed(field, xs, ys.drop_last()) + if xs.contains(ys.last()) {
            seq![]
        } else {
            seq![DiffView::RemovingItem { field, item: ys.last() }]
        }
    }
}

fn push_string_list_change(diffs: &mut Vec<Difference>, field: &str, source: &Vec<String>, dest: &Vec<String>)
    ensures
        views(final(diffs)@) == views(old(diffs)@) + strings_added(
            field@,
            source@.map_values(|w: String| w@),
            dest@.map_values(|w: String| w@),
        ) + strings_removed(field@, source@.map_values(|w: String| w@), dest@.map_values(|w: String| w@)),
{
    let ghost sv = source@.map_values(|w: String| w@);
    let ghost dv = dest@.map_values(|w: String| w@);
    let ghost start = views(diffs@);
    assert(views(diffs@) =~= start + strings_added(field@, sv.subrange(0, 0), dv));
    let mut i: usize = 0;
    while i < source.len()
        invariant
            i <= source.len(),
            sv == source@.map_values(|w: String| w@),
            dv == dest@.map_values(|w: String| w@),
            sv.len() == source.len(),
            dv.len() == dest.len(),
            views(diffs@) == start + strings_added(field@, sv.subrange(0, i as int), dv),
        decreases source.len() - i,
    {
        let ghost before = views(diffs@);
        let ghost p = sv.subrange(0, i as int + 1);
        assert(p.drop_last() =~= sv.subrange(0, i as int));
        assert(sv[i as int] == source@[i as int]@);
        let found = string_in(&source[i], dest);
        proof {
            if found {
                let j = choose|j: int| 0 <= j < dest@.len() && dest@[j]@ == source@[i as int]@;
                assert(dv[j] == dest@[j]@);
            } else {
                assert forall|j: int| 0 <= j < dv.len() implies dv[j] != sv[i as int] by {
                    assert(dv[j] == dest@[j]@);
                }
            }
        }
        if !found {
            let d = Difference::AddingItem { field: String::from_str(field), item: source[i].clone() };
            diffs.push(d);
            assert(views(diffs@) =~= before.push(d@));
        }
        assert(views(diffs@) =~= start + strings_added(field@, p, dv));
        i += 1;
    }
    assert(sv.subrange(0, source.len() as int) =~= sv);
    let ghost mid = views(diffs@);
    assert(views(diffs@) =~= mid + strings_removed(field@, sv, dv.subrange(0, 0)));
    let mut k: usize = 0;
    while k < dest.len()
        invariant
            k <= dest.len(),
            sv == source@.map_values(|w: String| w@),
            dv == dest@.map_values(|w: String| w@),
            sv.len() == source.len(),
            dv.len() == dest.len(),
            views(diffs@) == mid + strings_removed(field@, sv, dv.subrange(0, k as int)),
        decreases dest.len() - k,
    {
        let ghost before = views(diffs@);
        let ghost p = dv.subrange(0, k as int + 1);
        assert(p.drop_last() =~= dv.subrange(0, k as int));
        assert(dv[k as int] == dest@[k as int]@);
        let found = string_in(&dest[k], source);
        proof {
            if found {
                let j = choose|j: int| 0 <= j < source@.len() && source@[j]@ == dest@[k as int]@;
                assert(sv[j] == source@[j]@);
            } else {
                assert forall|j: int| 0 <= j < sv.len() implies sv[j] != dv[k as int] by {
                    assert(sv[j] == source@[j]@);
                }
            }
        }
        if !found {
            let d = Difference::RemovingItem { field: String::from_str(field), item: dest[k].clone() };
            diffs.push(d);
            assert(views(diffs@) =~= before.push(d@));
        }
        assert(views(diffs@) =~= mid + strings_removed(field@, sv, p));
        k += 1;
    }
    assert(dv.subrange(0, dest.len() as int) =~= dv);
}

/// The differences of a source application against a destination application:
/// name, acronym, disabled flag, description, time tracking, the fields, the
/// workspaces, the layout (as a whole, when the number of elements differs)
/// and the permissions.
pub open spec fn application_diffs(a: ApplicationView, b: ApplicationView) -> Seq<DiffView> {
    text_change("name"@, a.name, b.name) + text_change("acronym"@, a.acronym, b.acronym)
        + bool_change("disabled"@, a.disabled, b.disabled)
        + opt_change("description"@, a.description, b.description)
        + bool_change("time_tracking_enabled"@, a.time_tracking_enabled, b.time_tracking_enabled)
        + (fields_added(a.fields, b.fields) + fields_removed(a.fields, b.fields))
        + strings_added("workspaces"@, a.workspaces, b.workspaces)
        + strings_removed("workspaces"@, a.workspaces, b.workspaces)
        + complex_change("layout"@, a.layout_len != b.layout_len)
        + matrix_diffs(a.permissions, b.permissions)
}

proof fn lemma_fields_self(xs: Seq<FieldView>, ys: Seq<FieldView>)
    requires
        forall|i: int| 0 <= i < xs.len() ==> field_in(#[trigger] xs[i], ys),
        forall|k: int| 0 <= k < ys.len() ==> field_in(#[trigger] ys[k], xs),
    ensures
        fields_added(xs, ys).len() == 0,
        fields_removed(xs, ys).len() == 0,
    decreases xs.len() + ys.len(),
{
    if xs.len() > 0 {
        let p = xs.drop_last();
        assert forall|i: int| 0 <= i < p.len() implies field_in(#[trigger] p[i], ys) by {
            assert(p[i] == xs[i]);
        }
        assert(field_in(xs[xs.len() - 1], ys));
        lemma_fields_added_none(p, ys);
    }
    if ys.len() > 0 {
        let q = ys.drop_last();
        assert forall|k: int| 0 <= k < q.len() implies field_in(#[trigger] q[k], xs) by {
            assert(q[k] == ys[k]);
        }
        assert(field_in(ys[ys.len() - 1], xs));
        lemma_fields_removed_none(xs, q);
    }
}

proof fn lemma_fields_added_none(xs: Seq<FieldView>, ys: Seq<FieldView>)
    requires
        forall|i: int| 0 <= i < xs.len() ==> field_in(#[trigger] xs[i], ys),
    ensures
        fields_added(xs, ys).len() == 0,
    decreases xs.len(),
{
    if xs.len() > 0 {
        let p = xs.drop_last();
        assert forall|i: int| 0 <= i < p.len() implies field_in(#[trigger] p[i], ys) by {
            assert(p[i] == xs[i]);
        }
        assert(field_in(xs[xs.len() - 1], ys));
        lemma_fields_added_none(p, ys);
    }
}

proof fn lemma_fields_removed_none(xs: Seq<FieldView>, ys: Seq<FieldView>)
    requires
        forall|k: int| 0 <= k < ys.len() ==> field_in(#[trigger] ys[k], xs),
    ensures
        fields_removed(xs, ys).len() == 0,
    decreases ys.len(),
{
    if ys.len() > 0 {
        let q = ys.drop_last();
        assert forall|k: int| 0 <= k < q.len() implies field_in(#[trigger] q[k], xs) by {
            assert(q[k] == ys[k]);
        }
        assert(field_in(ys[ys.len() - 1], xs));
        lemma_fields_removed_none(xs, q);
    }
}

proof fn lemma_strings_added_none(field: Seq<char>, xs: Seq<Seq<char>>, ys: Seq<Seq<char>>)
    requires
        forall|i: int| 0 <= i < xs.len() ==> ys.contains(#[trigger] xs[i]),
    ensures
        strings_added(field, xs, ys).len() == 0,
    decreases xs.len(),
{
    if xs.len() > 0 {
        let p = xs.drop_last();
        assert forall|i: int| 0 <= i < p.len() implies ys.contains(#[trigger] p[i]) by {
            assert(p[i] == xs[i]);
        }
        assert(ys.contains(xs[xs.len() - 1]));
        lemma_strings_added_none(field, p, ys);
    }
}

proof fn lemma_strings_removed_none(field: Seq<char>, xs: Seq<Seq<char>>, ys: Seq<Seq<char>>)
    requires
        forall|k: int| 0 <= k < ys.len() ==> xs.contains(#[trigger] ys[k]),
    ensures
        strings_removed(field, xs, ys).len() == 0,
    decreases ys.len(),
{
    if ys.len() > 0 {
        let q = ys.drop_last();
        assert forall|k: int| 0 <= k < q.len() implies xs.contains(#[trigger] q[k]) by {
            assert(q[k] == ys[k]);
        }
        assert(xs.contains(ys[ys.len() - 1]));
        lemma_strings_removed_none(field, xs, q);
    }
}

impl LooksLike for Application {
    open spec fn spec_same(a: ApplicationView, b: ApplicationView) -> bool {
        same_key(a.name, b.name)
    }

    open spec fn spec_diffs(a: ApplicationView, b: ApplicationView) -> Seq<DiffView> {
        application_diffs(a, b)
    }

    /// Permission names are unique, and so are the field names of each permission.
    open spec fn spec_wf(a: ApplicationView) -> bool {
        matrix_wf(a.permissions)
    }

    proof fn lemma_same_is_equivalence(a: ApplicationView, b: ApplicationView, c: ApplicationView) {
    }

    proof fn lemma_no_self_difference(a: ApplicationView) {
        assert forall|i: int| 0 <= i < a.fields.len() implies field_in(#[trigger] a.fields[i], a.fields) by {
            assert(Field::spec_same(a.fields[i], a.fields[i]));
        }
        lemma_fields_self(a.fields, a.fields);
        assert forall|i: int| 0 <= i < a.workspaces.len() implies a.workspaces.contains(#[trigger] a.workspaces[i]) by {
        }
        lemma_strings_added_none("workspaces"@, a.workspaces, a.workspaces);
        lemma_strings_removed_none("workspaces"@, a.workspaces, a.workspaces);
        lemma_matrix_self(a.permissions);
    }

    fn differences(&self, other: &Self) -> (r: Vec<Difference>) {
        let mut diffs: Vec<Difference> = Vec::new();
        assert(views(diffs@) =~= Seq::<DiffView>::empty());
        push_text_change(&mut diffs, "name", &self.name, &other.name);
        push_text_change(&mut diffs, "acronym", &self.acronym, &other.acronym);
        push_bool_change(&mut diffs, "disabled", self.disabled, other.disabled);
        push_opt_change(&mut diffs, "description", &self.description, &other.description);
        push_bool_change(&mut diffs, "time_tracking_enabled", self.time_tracking_enabled, other.time_tracking_enabled);
        let ghost before_fields = views(diffs@);
        let field_diffs = fields_differences(&self.fields, &other.fields);
        let mut k: usize = 0;
        while k < field_diffs.len()
            invariant
                k <= field_diffs.len(),
                views(diffs@) == before_fields + views(field_diffs@).subrange(0, k as int),
            decreases field_diffs.len() - k,
        {
            let ghost b = views(diffs@);
            let d = clone_difference(&field_diffs[k]);
            diffs.push(d);
            assert(views(diffs@) =~= b.push(field_diffs@[k as int]@));
            k += 1;
            assert(views(diffs@) =~= before_fields + views(field_diffs@).subrange(0, k as int));
        }
        assert(views(field_diffs@).subrange(0, field_diffs.len() as int) =~= views(field_diffs@));
        push_string_list_change(&mut diffs, "workspaces", &self.workspaces, &other.workspaces);
        push_complex_change(&mut diffs, "layout", self.layout.len() != other.layout.len());
        let ghost before_matrix = views(diffs@);
        let matrix = self.permissions.differences(&other.permissions);
        let mut m: usize = 0;
        while m < matrix.len()
            invariant
                m <= matrix.len(),
                views(diffs@) == before_matrix + views(matrix@).subrange(0, m as int),
            decreases matrix.len() - m,
        {
            let ghost b = views(diffs@);
            let d = clone_difference(&matrix[m]);
            diffs.push(d);
            assert(views(diffs@) =~= b.push(matrix@[m as int]@));
            m += 1;
            assert(views(diffs@) =~= before_matrix + views(matrix@).subrange(0, m as int));
        }
        assert(views(matrix@).subrange(0, matrix.len() as int) =~= views(matrix@));
        assert(views(diffs@) =~= application_diffs(self@, other@));
        diffs
    }

    fn looks_like(&self, other: &Self) -> (r: bool) {
        self.differences(other).len() == 0
    }

    fn is_same_resource(&self, other: &Self) -> (r: bool) {
        keys_match(&self.name, &other.name)
    }

    fn duplicate(&self) -> (r: Self) {
        self.clone()
    }
}

/// A copy of a difference.
fn clone_difference(d: &Difference) -> (r: Difference)
    ensures
        r@ == d@,
{
    match d {
        Difference::UpdatingField { field, current_value, new_value } => Difference::UpdatingField {
            field: field.clone(),
            current_value: current_value.clone(),
            new_value: new_value.clone(),
        },
        Difference::AddingItem { field, item } => Difference::AddingItem { field: field.clone(), item: item.clone() },
        Difference::RemovingItem { field, item } => Difference::RemovingItem { field: field.clone(), item: item.clone() },
        Difference::UpdatingComplexField { field } => Difference::UpdatingComplexField { field: field.clone() },
    }
}

impl Application {
    /// The application with each workspace reference written through `table`
    /// (ids to names, or back), or `None` when a workspace is not in the table.
    pub fn normalise_workspaces(&self, table: &IdTable) -> (r: Option<Application>)
        ensures
            r is Some <==> forall|i: int| 0 <= i < self.workspaces.len() ==> lookup(table@, #[trigger] self.workspaces@[i]@) is Some,
            r matches Some(a) ==> a.workspaces.len() == self.workspaces.len() && (forall|i: int|
                0 <= i < a.workspaces.len() ==> lookup(table@, #[trigger] self.workspaces@[i]@) == Some(a.workspaces@[i]@))
                && a@.name == self@.name && a@.fields == self@.fields && a@.permissions == self@.permissions,
    {
        match normalise_workspaces(&self.workspaces, table) {
            Some(ws) => {
                let mut a = self.clone();
                a.workspaces = ws;
                Some(a)
            },
            None => None,
        }
    }

    /// The application as first created on a destination: without fields or layout.
    pub fn blank_copy(&self) -> (r: Application)
        ensures
            r.fields.len() == 0,
            r.layout.len() == 0,
            r@.name == self@.name,
            r@.acronym == self@.acronym,
            r@.workspaces == self@.workspaces,
            r@.permissions == self@.permissions,
    {
        let mut a = self.clone();
        a.fields = Vec::new();
        a.layout = Vec::new();
        a
    }
}

} // verus!
