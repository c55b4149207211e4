use vstd::prelude::*;

verus! {

/// What a workflow action does.
#[derive(Debug, Clone, Copy, PartialEq, Eq)]
pub enum ActionType {
    ShowHide,
    ReadOnly,
    SetValue,
    Integration,
    FilterValues,
    Notification,
    Required,
    CreateNewRecord,
    FormattedExport,
    ToggleTimeTracking,
}

/// What a layout action does to an element.
#[derive(Debug, Clone, Copy, PartialEq, Eq)]
pub enum LayoutActionType {
    Hide,
    Show,
    ReadOnly,
    Editable,
    Expand,
    Collapse,
}

/// The state an action puts a field in.
#[derive(Debug, Clone, Copy, PartialEq, Eq)]
pub enum FieldState {
    Required,
    Read,
    Write,
}

/// Layout actions by element id (each id at most once).
#[derive(Debug, Clone, PartialEq, Eq)]
pub struct LayoutActions {
    pub _type: String,
    pub permissions: Vec<(String, LayoutActionType)>,
}

/// Field states by field id (each id at most once).
#[derive(Debug, Clone, PartialEq, Eq)]
pub struct FieldStates {
    pub _type: String,
    pub permissions: Vec<(String, FieldState)>,
}

/// An action of a workflow stage.
#[derive(Debug, Clone, PartialEq, Eq)]
pub struct Action {
    pub id: String,
    pub action_type: ActionType,
    pub disabled: bool,
    pub name: String,
    pub parent_id: String,
    pub layout_actions: Option<LayoutActions>,
    pub field_states: Option<FieldStates>,
}

/// How a workflow condition compares.
#[derive(Debug, Clone, Copy, PartialEq, Eq)]
pub enum ConditionType {
    DefaultActions,
    Equals,
    Contains,
    Excludes,
    DoesNotEqual,
    LessThan,
    LessThanOrEqual,
    GreaterThan,
    GreaterThanOrEqual,
    Regex,
    HasValue,
    DoesNotHaveValue,
    HasBeenModified,
}

/// How the conditions of a stage combine; `Zero` stands for the platform's `0`.
#[derive(Debug, Clone, Copy, PartialEq, Eq)]
pub enum EvalType {
    Zero,
    And,
    Or,
}

/// A condition of a workflow stage.
#[derive(Debug, Clone, PartialEq, Eq)]
pub struct Condition {
    pub condition_type: String,
    pub field_id: String,
    pub reference_field_conjunction: EvalType,
    pub is_case_sensitive: Option<bool>,
}

/// How a repeat filters the records it runs on.
#[derive(Debug, Clone, Copy, PartialEq, Eq)]
pub enum RepeatFilterType {
    /// No filter (the platform's `none`).
    Unfiltered,
    Excludes,
    GreaterThanOrEqual,
    Regex,
}

/// A repeated group of actions.
#[derive(Debug, Clone, PartialEq, Eq)]
pub struct Repeat {
    pub id: String,
    pub name: String,
    pub parent_id: String,
    pub field_id: String,
    pub actions: Vec<Action>,
    pub disabled: bool,
    pub filter_type: RepeatFilterType,
    pub filter_value: Option<String>,
}

/// A stage of a workflow, with its nested stages.
#[derive(Debug)]
pub struct Stage {
    pub id: String,
    pub name: String,
    pub disabled: bool,
    pub parent_id: Option<String>,
    pub condition_type: Option<ConditionType>,
    pub eval_type: Option<EvalType>,
    pub conditions: Vec<Condition>,
    pub actions: Vec<Action>,
    pub repeats: Vec<Repeat>,
    pub stages: Vec<Stage>,
}

} // verus!
