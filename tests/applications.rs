use swimlane_migrator::apps::{Application, BaseField, Field, FieldType, LayoutNode};
use swimlane_migrator::entity::{Timestamp, UserGroupSelection};
use swimlane_migrator::equality::{Difference, LooksLike};
use swimlane_migrator::plan::{reconcile, MigrationPlan};
use swimlane_migrator::roles::PermissionMatrix;
use swimlane_migrator::workspaces::{normalise_workspaces, workspace_table, Workspace};

fn text_field(name: &str) -> Field {
    Field::SingleLineText(BaseField {
        _type: "text".to_string(),
        id: format!("f-{}", name),
        name: name.to_string(),
        key: name.to_lowercase(),
        supports_multiple_output_mappings: false,
        required: false,
        read_only: false,
        field_type: FieldType::Text,
    })
}

fn app(id: &str, name: &str) -> Application {
    Application {
        _type: "app".to_string(),
        id: id.to_string(),
        name: name.to_string(),
        acronym: "APP".to_string(),
        description: None,
        tracking_field_id: "t".to_string(),
        layout: vec![],
        fields: vec![],
        workspaces: vec![],
        create_workspace: false,
        created_date: Timestamp::default(),
        created_by_user: UserGroupSelection::default(),
        modified_date: Timestamp::default(),
        modified_by_user: UserGroupSelection::default(),
        time_tracking_enabled: false,
        permissions: PermissionMatrix {
            _type: "PermissionMatrix".to_string(),
            permissions: vec![],
        },
        uid: "u".to_string(),
        version: 1,
        disabled: false,
    }
}

fn workspace(id: &str, name: &str) -> Workspace {
    Workspace {
        _type: "ws".to_string(),
        id: id.to_string(),
        uid: "u".to_string(),
        description: None,
        version: 1,
        name: name.to_string(),
        disabled: false,
        applications: vec![],
        dashboards: vec![],
        modified_by_user: None,
        created_by_user: None,
        modified_date: Timestamp::default(),
        created_date: Timestamp::default(),
        permissions: PermissionMatrix {
            _type: "PermissionMatrix".to_string(),
            permissions: vec![],
        },
    }
}

#[test]
fn application_differences_in_order() {
    let mut a = app("1", "Cases");
    let mut b = app("2", "Cases");
    a.acronym = "CAS".to_string();
    a.fields = vec![text_field("Title")];
    a.workspaces = vec!["Ops".to_string()];
    b.workspaces = vec!["Sec".to_string()];
    b.layout = vec![LayoutNode::Section {
        id: "s".to_string(),
        name: "Main".to_string(),
    }];
    assert_eq!(
        a.differences(&b),
        vec![
            Difference::UpdatingField {
                field: "acronym".to_string(),
                current_value: "CAS".to_string(),
                new_value: "APP".to_string(),
            },
            Difference::AddingItem {
                field: "fields".to_string(),
                item: "Title".to_string(),
            },
            Difference::AddingItem {
                field: "workspaces".to_string(),
                item: "Ops".to_string(),
            },
            Difference::RemovingItem {
                field: "workspaces".to_string(),
                item: "Sec".to_string(),
            },
            Difference::UpdatingComplexField {
                field: "layout".to_string(),
            },
        ]
    );
    assert!(a.looks_like(&a.clone()));
}

#[test]
fn applications_reconcile_by_name() {
    let source = vec![app("1", "Cases"), app("2", "Assets")];
    let target = vec![app("9", "cases")];
    let plan = reconcile(&source, &target);
    assert_eq!(plan.len(), 2);
    assert!(matches!(plan[0], MigrationPlan::Update { .. }));
    match &plan[1] {
        MigrationPlan::Create { source_resource } => assert_eq!(source_resource.name, "Assets"),
        _ => panic!("expected a create"),
    }
}

#[test]
fn blank_copy_drops_fields_and_layout() {
    let mut a = app("1", "Cases");
    a.fields = vec![text_field("Title")];
    a.layout = vec![LayoutNode::Field {
        id: "l".to_string(),
        field_id: "f-Title".to_string(),
    }];
    let b = a.blank_copy();
    assert!(b.fields.is_empty());
    assert!(b.layout.is_empty());
    assert_eq!(b.name, "Cases");
}

#[test]
fn layout_elements_match() {
    let tabs = |names: &[&str]| LayoutNode::Tabs {
        id: "t".to_string(),
        tab_names: names.iter().map(|n| n.to_string()).collect(),
    };
    assert!(tabs(&["A"]).is_same_resource(&tabs(&["B", "A"])));
    assert!(!tabs(&["A", "C"]).is_same_resource(&tabs(&["A"])));
    let f1 = LayoutNode::Field { id: "1".to_string(), field_id: "x".to_string() };
    let f2 = LayoutNode::Field { id: "2".to_string(), field_id: "x".to_string() };
    let s = LayoutNode::Section { id: "1".to_string(), name: "x".to_string() };
    assert!(f1.is_same_resource(&f2));
    assert!(!f1.is_same_resource(&s));
}

#[test]
fn workspace_ids_and_names_translate_both_ways() {
    let table = workspace_table(&vec![("w1".to_string(), "Ops".to_string())]);
    assert_eq!(
        normalise_workspaces(&vec!["w1".to_string()], &table),
        Some(vec!["Ops".to_string()])
    );
    assert_eq!(
        normalise_workspaces(&vec!["Ops".to_string()], &table),
        Some(vec!["w1".to_string()])
    );
    assert_eq!(normalise_workspaces(&vec!["w2".to_string()], &table), None);
    let mut a = app("1", "Cases");
    a.workspaces = vec!["w1".to_string()];
    let n = a.normalise_workspaces(&table).unwrap();
    assert_eq!(n.workspaces, vec!["Ops".to_string()]);
}

#[test]
fn workspace_differences() {
    let mut a = workspace("1", "Ops");
    let b = workspace("2", "ops");
    assert!(a.is_same_resource(&b));
    a.disabled = true;
    assert_eq!(
        a.differences(&b),
        vec![
            Difference::UpdatingField {
                field: "name".to_string(),
                current_value: "Ops".to_string(),
                new_value: "ops".to_string(),
            },
            Difference::UpdatingField {
                field: "disabled".to_string(),
                current_value: "true".to_string(),
                new_value: "false".to_string(),
            },
        ]
    );
}
