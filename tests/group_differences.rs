use swimlane_migrator::entity::BaseEntity;
use swimlane_migrator::equality::{Difference, LooksLike};
use swimlane_migrator::groups::Group;

#[test]
fn test_name_inequality_triggers_difference() {
    let mut source_group = Group::default();
    let mut target_group = Group::default();
    source_group.name = "Group 1".to_string();
    target_group.name = "Group 2".to_string();

    let differences = source_group.differences(&target_group);
    assert_eq!(differences.len(), 1);
    assert_eq!(
        differences[0],
        Difference::UpdatingField {
            field: "name".to_string(),
            current_value: "Group 1".to_string(),
            new_value: "Group 2".to_string(),
        }
    );
}

#[test]
fn test_disabled_inequality_triggers_difference() {
    let mut source_group = Group::default();
    let mut target_group = Group::default();
    source_group.disabled = true;
    target_group.disabled = false;

    let differences = source_group.differences(&target_group);
    assert_eq!(differences.len(), 1);
    assert_eq!(
        differences[0],
        Difference::UpdatingField {
            field: "disabled".to_string(),
            current_value: true.to_string(),
            new_value: false.to_string(),
        }
    );
}

#[test]
fn test_description_inequality_triggers_difference() {
    let mut source_group = Group::default();
    let mut target_group = Group::default();
    source_group.description = Some("Description 1".to_string());
    target_group.description = Some("Description 2".to_string());

    let differences = source_group.differences(&target_group);
    assert_eq!(differences.len(), 1);
    assert_eq!(
        differences[0],
        Difference::UpdatingField {
            field: "description".to_string(),
            current_value: "Description 1".to_string(),
            new_value: "Description 2".to_string(),
        }
    );
}

#[test]
fn test_users_inequality_triggers_difference() {
    let mut source_group = Group::default();
    let target_group = Group::default();
    source_group.users = vec![BaseEntity {
        id: "1234".to_string(),
        name: "User 1".to_string(),
        disabled: false,
    }];

    let differences = source_group.differences(&target_group);
    assert_eq!(differences.len(), 1);
    assert_eq!(
        differences[0],
        Difference::AddingItem {
            field: "users".to_string(),
            item: "User 1".to_string()
        }
    )
}

#[test]
fn test_roles_inequality_triggers_difference() {
    let mut source_group = Group::default();
    let target_group = Group::default();
    source_group.roles = vec![BaseEntity {
        id: "1234".to_string(),
        name: "Role 1".to_string(),
        disabled: false,
    }];

    let differences = source_group.differences(&target_group);
    assert_eq!(differences.len(), 1);
    assert_eq!(
        differences[0],
        Difference::AddingItem {
            field: "roles".to_string(),
            item: "Role 1".to_string()
        }
    )
}

#[test]
fn removed_child_group_is_reported() {
    let source_group = Group::default();
    let mut target_group = Group::default();
    target_group.groups = vec![BaseEntity {
        id: "9".to_string(),
        name: "Child".to_string(),
        disabled: false,
    }];
    let differences = source_group.differences(&target_group);
    assert_eq!(
        differences,
        vec![Difference::RemovingItem {
            field: "groups".to_string(),
            item: "Child".to_string()
        }]
    );
}

#[test]
fn nested_stubs_match_by_name_whatever_their_ids() {
    let mut source_group = Group::default();
    let mut target_group = Group::default();
    source_group.users = vec![BaseEntity {
        id: "1".to_string(),
        name: "alice".to_string(),
        disabled: false,
    }];
    target_group.users = vec![BaseEntity {
        id: "77".to_string(),
        name: "Alice".to_string(),
        disabled: false,
    }];
    assert!(source_group.differences(&target_group).is_empty());
    assert!(source_group.looks_like(&target_group));
}

#[test]
fn looks_like_agrees_with_differences() {
    let mut a = Group::default();
    let b = Group::default();
    assert!(a.looks_like(&b));
    assert!(a.differences(&b).is_empty());
    a.description = Some("x".to_string());
    assert!(!a.looks_like(&b));
    assert_eq!(a.differences(&b).len(), 1);
}

#[test]
fn present_empty_and_absent_description_differ() {
    let mut a = Group::default();
    let b = Group::default();
    a.description = Some(String::new());
    let differences = a.differences(&b);
    assert_eq!(
        differences,
        vec![Difference::UpdatingField {
            field: "description".to_string(),
            current_value: String::new(),
            new_value: String::new(),
        }]
    );
}

#[test]
fn group_identity_ignores_case() {
    let mut a = Group::default();
    let mut b = Group::default();
    a.name = "Tier-1".to_string();
    b.name = "tier-1".to_string();
    assert!(a.is_same_resource(&b));
    b.name = "tier-2".to_string();
    assert!(!a.is_same_resource(&b));
}

#[test]
fn difference_descriptions() {
    let d = Difference::UpdatingField {
        field: "description".to_string(),
        current_value: "new".to_string(),
        new_value: "old".to_string(),
    };
    assert_eq!(d.describe(), "description: 'old' -> 'new'");
    let d = Difference::AddingItem {
        field: "users".to_string(),
        item: "bob".to_string(),
    };
    assert_eq!(d.describe(), "+users: bob");
    let d = Difference::RemovingItem {
        field: "roles".to_string(),
        item: "admin".to_string(),
    };
    assert_eq!(d.describe(), "-roles: admin");
    let d = Difference::UpdatingComplexField {
        field: "avatar".to_string(),
    };
    assert_eq!(d.describe(), "avatar will be updated");
}

#[test]
fn base_entity_differences() {
    let a = BaseEntity {
        id: "1".to_string(),
        name: "x".to_string(),
        disabled: true,
    };
    let b = BaseEntity {
        id: "2".to_string(),
        name: "x".to_string(),
        disabled: false,
    };
    assert_eq!(
        a.differences(&b),
        vec![Difference::UpdatingField {
            field: "disabled".to_string(),
            current_value: "true".to_string(),
            new_value: "false".to_string(),
        }]
    );
    assert!(!a.looks_like(&b));
    assert!(a.is_same_resource(&b));
}
