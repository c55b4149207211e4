use swimlane_migrator::entity::BaseEntity;
use swimlane_migrator::entity::Timestamp;
use swimlane_migrator::equality::{Difference, LooksLike};
use swimlane_migrator::groups::Group;
use swimlane_migrator::migrator::apply_order;
use swimlane_migrator::plan::{reconcile, MigrationPlan};
use swimlane_migrator::roles::{PermissionMatrix, Role};

fn group(id: &str, name: &str, description: Option<&str>) -> Group {
    let mut g = Group::default();
    g.id = id.to_string();
    g.name = name.to_string();
    g.description = description.map(|d| d.to_string());
    g
}

fn role(id: &str, name: &str) -> Role {
    Role {
        id: id.to_string(),
        name: name.to_string(),
        disabled: false,
        description: None,
        permissions: PermissionMatrix {
            _type: "PermissionMatrix".to_string(),
            permissions: vec![],
        },
        created_date: Timestamp::default(),
        modified_date: Timestamp::default(),
        created_by_user: None,
        modified_by_user: None,
        groups: vec![],
        roles: None,
        users: vec![],
    }
}

fn entry_name(e: &MigrationPlan<Group>) -> String {
    match e {
        MigrationPlan::Create { source_resource } => format!("create {}", source_resource.name),
        MigrationPlan::Update { source_resource, target_resource } => {
            format!("update {} {}", source_resource.name, target_resource.name)
        }
        MigrationPlan::Delete { target_resource } => format!("delete {}", target_resource.name),
    }
}

#[test]
fn missing_group_is_created() {
    let source = vec![group("s1", "Tier-1", Some("x"))];
    let target = vec![group("d1", "Other", None)];
    let plan = reconcile(&source, &target);
    let names: Vec<String> = plan.iter().map(entry_name).collect();
    assert_eq!(names, vec!["create Tier-1".to_string(), "delete Other".to_string()]);
    let plan = reconcile(&source, &vec![]);
    assert_eq!(plan.len(), 1);
    match &plan[0] {
        MigrationPlan::Create { source_resource } => {
            assert_eq!(source_resource.name, "Tier-1");
            assert_eq!(source_resource.description, Some("x".to_string()));
        }
        _ => panic!("expected a create"),
    }
}

#[test]
fn matching_ignores_case_of_names() {
    let source = vec![group("s1", "Tier-1", Some("x"))];
    let target = vec![group("d1", "tier-1", Some("x"))];
    let plan = reconcile(&source, &target);
    let names: Vec<String> = plan.iter().map(entry_name).collect();
    assert_eq!(names, vec!["update Tier-1 tier-1".to_string()]);
}

#[test]
fn changed_description_is_an_update() {
    let source = vec![group("s1", "A", Some("new"))];
    let target = vec![group("d1", "A", Some("old"))];
    let plan = reconcile(&source, &target);
    assert_eq!(plan.len(), 1);
    match &plan[0] {
        MigrationPlan::Update { source_resource, target_resource } => {
            assert_eq!(source_resource.description, Some("new".to_string()));
            assert_eq!(target_resource.description, Some("old".to_string()));
            assert_eq!(target_resource.id, "d1");
            let differences = source_resource.differences(target_resource);
            assert_eq!(
                differences,
                vec![Difference::UpdatingField {
                    field: "description".to_string(),
                    current_value: "new".to_string(),
                    new_value: "old".to_string(),
                }]
            );
            assert_eq!(differences[0].describe(), "description: 'old' -> 'new'");
        }
        _ => panic!("expected an update"),
    }
}

#[test]
fn role_absent_from_source_is_deleted() {
    let source = vec![role("s1", "Admin")];
    let target = vec![role("d1", "Admin"), role("d2", "Legacy")];
    let plan = reconcile(&source, &target);
    assert_eq!(plan.len(), 1);
    match &plan[0] {
        MigrationPlan::Delete { target_resource } => {
            assert_eq!(target_resource.name, "Legacy");
            assert_eq!(target_resource.id, "d2");
        }
        _ => panic!("expected a delete"),
    }
}

#[test]
fn alike_resources_give_no_entry() {
    let source = vec![group("s1", "A", None), group("s2", "B", None)];
    let target = vec![group("d2", "B", None), group("d1", "A", None)];
    assert!(reconcile(&source, &target).is_empty());
    assert!(reconcile::<Group>(&vec![], &vec![]).is_empty());
}

#[test]
fn every_key_lands_in_one_category() {
    let source = vec![
        group("s1", "same", None),
        group("s2", "changed", Some("new")),
        group("s3", "fresh", None),
    ];
    let target = vec![
        group("d1", "stale", None),
        group("d2", "Changed", Some("old")),
        group("d3", "same", None),
    ];
    let plan = reconcile(&source, &target);
    let names: Vec<String> = plan.iter().map(entry_name).collect();
    assert_eq!(
        names,
        vec![
            "update changed Changed".to_string(),
            "create fresh".to_string(),
            "delete stale".to_string(),
        ]
    );
}

#[test]
fn plan_of_applied_destination_is_empty() {
    let source = vec![
        group("s1", "same", None),
        group("s2", "changed", Some("new")),
        group("s3", "fresh", None),
    ];
    let target = vec![
        group("d1", "stale", None),
        group("d2", "changed", Some("old")),
        group("d3", "same", None),
    ];
    let plan = reconcile(&source, &target);
    // Apply the plan: keep what no entry touches, then write what it creates or updates.
    let mut applied: Vec<Group> = vec![];
    for t in &target {
        let touched = plan.iter().any(|e| match e {
            MigrationPlan::Update { target_resource, .. } => target_resource.id == t.id,
            MigrationPlan::Delete { target_resource } => target_resource.id == t.id,
            _ => false,
        });
        if !touched {
            applied.push(t.clone());
        }
    }
    for e in &plan {
        match e {
            MigrationPlan::Create { source_resource } => applied.push(source_resource.clone()),
            MigrationPlan::Update { source_resource, target_resource } => {
                let mut g = source_resource.clone();
                g.id = target_resource.id.clone();
                applied.push(g);
            }
            _ => {}
        }
    }
    assert!(reconcile(&source, &applied).is_empty());
}

#[test]
fn user_kind_applies_deletions_first() {
    let source = vec![group("s1", "fresh", None), group("s2", "changed", Some("new"))];
    let target = vec![group("d1", "stale", None), group("d2", "changed", None)];
    let plan = reconcile(&source, &target);
    let names: Vec<String> = plan.iter().map(entry_name).collect();
    assert_eq!(
        names,
        vec![
            "create fresh".to_string(),
            "update changed changed".to_string(),
            "delete stale".to_string(),
        ]
    );
    assert_eq!(apply_order(&plan, true), vec![2, 0, 1]);
    assert_eq!(apply_order(&plan, false), vec![0, 1]);
}

#[test]
fn updates_follow_creates_in_apply_order() {
    let source = vec![group("s1", "changed", Some("new")), group("s2", "fresh", None)];
    let target = vec![group("d1", "changed", None)];
    let plan = reconcile(&source, &target);
    let names: Vec<String> = plan.iter().map(entry_name).collect();
    assert_eq!(names, vec!["update changed changed".to_string(), "create fresh".to_string()]);
    assert_eq!(apply_order(&plan, false), vec![1, 0]);
}

#[test]
fn nested_stub_change_makes_an_update() {
    let mut a = group("s1", "A", None);
    a.roles = vec![BaseEntity {
        id: "r1".to_string(),
        name: "Tier-1".to_string(),
        disabled: false,
    }];
    let b = group("d1", "A", None);
    let plan = reconcile(&vec![a], &vec![b]);
    assert_eq!(plan.len(), 1);
    assert!(matches!(plan[0], MigrationPlan::Update { .. }));
}
