use swimlane_migrator::equality::Difference;
use swimlane_migrator::roles::{Access, Permission, PermissionMatrix, PermissionType};

fn permission(id: &str, name: &str, access: u16, fields: Vec<(String, u16)>) -> Permission {
    Permission {
        _type: "permission".to_string(),
        id: id.to_string(),
        type_: PermissionType::Role,
        name: name.to_string(),
        access,
        fields: Access {
            _type: "access".to_string(),
            permissions: fields,
        },
    }
}

fn matrix(permissions: Vec<Permission>) -> PermissionMatrix {
    PermissionMatrix {
        _type: "PermissionMatrix".to_string(),
        permissions,
    }
}

#[test]
fn test_permission_matrix_identical_permissions_different_ids_difference_is_0() {
    let field_perms = vec![("field 1".to_string(), 0), ("field 2".to_string(), 0)];
    let matrix1 = matrix(vec![permission("1", "TIER-1", 0, field_perms.clone())]);
    let matrix2 = matrix(vec![permission("3", "TIER-1", 0, field_perms.clone())]);

    let differences = matrix1.differences(&matrix2);
    assert_eq!(differences.len(), 0);
}

#[test]
fn test_permission_matrix_missing_field_increments_difference() {
    let field_perms = vec![("field 1".to_string(), 0), ("field 2".to_string(), 0)];
    let matrix1 = matrix(vec![permission("1", "TIER-1", 0, field_perms.clone())]);
    let matrix2 = matrix(vec![]);

    let differences = matrix1.differences(&matrix2);
    assert_eq!(differences.len(), 1);
}

#[test]
fn test_permission_matrix_extra_field_increments_difference() {
    let field_perms = vec![("field 1".to_string(), 0), ("field 2".to_string(), 0)];
    let matrix1 = matrix(vec![]);
    let matrix2 = matrix(vec![permission("1", "TIER-1", 0, field_perms.clone())]);

    let differences = matrix1.differences(&matrix2);
    assert_eq!(differences.len(), 1);
}

#[test]
fn test_permission_matrix_same_permission_name_different_permission_level_incremements_difference() {
    let matrix1_permissions = vec![permission("1", "TIER-1", 0, vec![])];
    let mut matrix2_permissions = matrix1_permissions.clone();
    matrix2_permissions[0].access = 1;
    let matrix1 = matrix(matrix1_permissions);
    let matrix2 = matrix(matrix2_permissions);

    let differences = matrix1.differences(&matrix2);
    assert_eq!(differences.len(), 1);
}

#[test]
fn test_permission_matrix_same_permission_name_different_field_permissions_incremements_difference() {
    let matrix1 = matrix(vec![permission("1", "TIER-1", 0, vec![("field 1".to_string(), 0)])]);
    let matrix2 = matrix(vec![permission("1", "TIER-1", 0, vec![("field 1".to_string(), 1)])]);

    let differences = matrix1.differences(&matrix2);
    assert_eq!(differences.len(), 1);
}

#[test]
fn permission_level_change_is_reported_in_decimal() {
    let matrix1 = matrix(vec![permission("1", "Admins", 7, vec![])]);
    let matrix2 = matrix(vec![permission("2", "Admins", 15, vec![])]);
    assert_eq!(
        matrix1.differences(&matrix2),
        vec![Difference::UpdatingField {
            field: "permissions.Admins.access".to_string(),
            current_value: "7".to_string(),
            new_value: "15".to_string(),
        }]
    );
}

#[test]
fn field_access_change_is_reported_as_a_whole() {
    let matrix1 = matrix(vec![permission("1", "Admins", 1, vec![("f".to_string(), 2)])]);
    let matrix2 = matrix(vec![permission("1", "Admins", 1, vec![])]);
    assert_eq!(
        matrix1.differences(&matrix2),
        vec![Difference::UpdatingComplexField {
            field: "permissions.Admins.fields".to_string(),
        }]
    );
}

#[test]
fn access_differences_in_detail() {
    let a = Access {
        _type: "access".to_string(),
        permissions: vec![("f1".to_string(), 1), ("f2".to_string(), 2)],
    };
    let b = Access {
        _type: "access".to_string(),
        permissions: vec![("f1".to_string(), 300), ("f3".to_string(), 0)],
    };
    assert_eq!(
        a.differences(&b),
        vec![
            Difference::UpdatingField {
                field: "f1".to_string(),
                current_value: "1".to_string(),
                new_value: "300".to_string(),
            },
            Difference::AddingItem {
                field: "permissions".to_string(),
                item: "f2".to_string(),
            },
            Difference::RemovingItem {
                field: "permissions".to_string(),
                item: "f3".to_string(),
            },
        ]
    );
    assert!(!a.looks_like(&b));
    assert!(a.looks_like(&a.clone()));
}

#[test]
fn matrix_added_and_removed_permissions_are_named() {
    let matrix1 = matrix(vec![permission("1", "A", 0, vec![])]);
    let matrix2 = matrix(vec![permission("2", "B", 0, vec![])]);
    assert_eq!(
        matrix1.differences(&matrix2),
        vec![
            Difference::AddingItem {
                field: "permissions".to_string(),
                item: "A".to_string(),
            },
            Difference::RemovingItem {
                field: "permissions".to_string(),
                item: "B".to_string(),
            },
        ]
    );
}
