use vstd::prelude::*;

verus! {

/// What a task runs and how it is packaged.
#[derive(Debug, Clone, PartialEq, Eq)]
pub struct ActionDescriptor {
    pub id: String,
    pub name: String,
    pub disabled: bool,
    pub description: Option<String>,
    pub action_type: String,
    pub action_id: Option<String>,
    pub family: Option<String>,
    pub base64_image: String,
    pub asset_dependency_type: Option<String>,
    pub asset_dependency_version: Option<String>,
    pub python_version: Option<String>,
    pub script_file: Option<String>,
    pub version: Option<String>,
}

/// The action of a task, with its script when it has one.
#[derive(Debug, Clone, PartialEq, Eq)]
pub struct TaskAction {
    pub readonly: bool,
    pub action_type: String,
    pub descriptor: ActionDescriptor,
    pub script: Option<String>,
}

/// A task in full.
#[derive(Debug, Clone, PartialEq, Eq)]
pub struct Task {
    pub id: String,
    pub name: String,
    pub description: Option<String>,
    pub valid: bool,
    pub disabled: bool,
    pub application_id: Option<String>,
    pub action: TaskAction,
}

/// A task as listed.
#[derive(Debug, Clone, PartialEq, Eq)]
pub struct LightTask {
    pub id: String,
    pub name: String,
    pub disabled: bool,
    pub application_id: Option<String>,
    pub action_type: String,
}

} // verus!
