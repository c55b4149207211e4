use swimlane_migrator::entity::{BaseEntity, Timestamp, UserGroupSelection};
use swimlane_migrator::equality::{Difference, LooksLike};
use swimlane_migrator::groups::Group;
use swimlane_migrator::migrator::{
    check_distinct_servers, prepare_group_write, prepare_user_write, SwimlaneMigratorError,
    SwimlaneMigratorNewError, WriteAction,
};
use swimlane_migrator::plan::{reconcile, MigrationPlan};
use swimlane_migrator::translate::{adapt_group, adapt_user, build_id_table, resolve_stubs, IdTable};
use swimlane_migrator::users::{SessionTimeoutType, User, UserCreationRequest};

fn stub(id: &str, name: &str) -> BaseEntity {
    BaseEntity {
        id: id.to_string(),
        name: name.to_string(),
        disabled: false,
    }
}

fn group(id: &str, name: &str) -> Group {
    let mut g = Group::default();
    g.id = id.to_string();
    g.name = name.to_string();
    g
}

fn user(id: &str, user_name: &str) -> User {
    User {
        id: id.to_string(),
        user_name: user_name.to_string(),
        email: format!("{}@example.com", user_name),
        first_name: None,
        last_name: None,
        name: user_name.to_string(),
        display_name: None,
        disabled: false,
        favorites: vec![],
        middle_initial: None,
        active: true,
        last_password_changed_date: Timestamp::default(),
        password_reset_required: false,
        session_timeout_type: SessionTimeoutType::Minutes,
        primary_group: None,
        groups: vec![],
        roles: vec![],
        created_date: Timestamp::default(),
        modified_date: Timestamp::default(),
        created_by_user: None,
        modified_by_user: None,
        password_complexity_score: None,
        is_system_user: false,
        timezone_id: "UTC".to_string(),
        is_otp_verified: false,
        is_otp_user: false,
        is_otp_enforced: false,
        is_otp_exempted: false,
        is_ldap_user: false,
        is_locked: false,
        current_failed_log_in_attempts: 0,
        phone_number: None,
        last_login: None,
        active_directory_guid: None,
        domain: None,
        avatar: None,
        default_workspace_id: None,
        default_dashboard_id: None,
    }
}

fn table(pairs: &[(&str, &str)]) -> IdTable {
    let mut t = IdTable::new();
    for (s, d) in pairs.iter().rev() {
        t.insert(s.to_string(), d.to_string());
    }
    t
}

#[test]
fn created_user_gets_destination_role_id() {
    let mut alice = user("u1", "alice");
    alice.roles = vec![stub("src-tier1", "Tier-1")];
    let plan = reconcile(&vec![alice], &vec![]);
    let roles = table(&[("src-tier1", "dst-tier1")]);
    let groups = IdTable::new();
    match prepare_user_write(&plan[0], &groups, &roles) {
        Ok(WriteAction::Create { resource }) => {
            assert_eq!(resource.roles.len(), 1);
            assert_eq!(resource.roles[0].id, "dst-tier1");
            assert_eq!(resource.roles[0].name, "Tier-1");
            assert_eq!(resource.id, "u1");
        }
        _ => panic!("expected a create"),
    }
}

#[test]
fn created_user_with_unknown_role_is_refused() {
    let mut alice = user("u1", "alice");
    alice.roles = vec![stub("src-tier1", "Tier-1")];
    let plan = reconcile(&vec![alice], &vec![]);
    let result = prepare_user_write(&plan[0], &IdTable::new(), &IdTable::new());
    assert_eq!(
        result.err(),
        Some(SwimlaneMigratorError::MissingRole {
            role_name: "Tier-1".to_string()
        })
    );
}

#[test]
fn updated_user_takes_destination_id() {
    let mut source = user("u1", "alice");
    source.display_name = Some("Alice".to_string());
    source.groups = vec![stub("g1", "Ops")];
    let target = user("u9", "ALICE");
    let plan = reconcile(&vec![source], &vec![target]);
    assert_eq!(plan.len(), 1);
    let groups = table(&[("g1", "g9")]);
    match prepare_user_write(&plan[0], &groups, &IdTable::new()) {
        Ok(WriteAction::Update { resource }) => {
            assert_eq!(resource.id, "u9");
            assert_eq!(resource.groups[0].id, "g9");
            assert_eq!(resource.display_name, Some("Alice".to_string()));
        }
        _ => panic!("expected an update"),
    }
}

#[test]
fn missing_group_of_user_is_named() {
    let mut source = user("u1", "alice");
    source.groups = vec![stub("g1", "Ops")];
    let plan = reconcile(&vec![source], &vec![]);
    let result = prepare_user_write(&plan[0], &IdTable::new(), &IdTable::new());
    assert_eq!(
        result.err(),
        Some(SwimlaneMigratorError::MissingGroup {
            group_name: "Ops".to_string()
        })
    );
}

#[test]
fn deleted_user_is_deleted_by_id() {
    let plan = reconcile(&vec![], &vec![user("u7", "gone")]);
    match prepare_user_write(&plan[0], &IdTable::new(), &IdTable::new()) {
        Ok(WriteAction::Delete { id }) => assert_eq!(id, "u7"),
        _ => panic!("expected a delete"),
    }
}

#[test]
fn group_write_checks_groups_then_roles_then_users() {
    let mut g = group("s1", "Parent");
    g.groups = vec![stub("c1", "Child")];
    g.roles = vec![stub("r1", "Role")];
    g.users = vec![stub("u1", "User")];
    let plan = reconcile(&vec![g], &vec![]);
    let e = prepare_group_write(&plan[0], &IdTable::new(), &IdTable::new(), &IdTable::new());
    assert_eq!(
        e.err(),
        Some(SwimlaneMigratorError::MissingGroup {
            group_name: "Child".to_string()
        })
    );
    let groups = table(&[("c1", "c9")]);
    let e = prepare_group_write(&plan[0], &groups, &IdTable::new(), &IdTable::new());
    assert_eq!(
        e.err(),
        Some(SwimlaneMigratorError::MissingRole {
            role_name: "Role".to_string()
        })
    );
    let roles = table(&[("r1", "r9")]);
    let e = prepare_group_write(&plan[0], &groups, &IdTable::new(), &roles);
    assert_eq!(
        e.err(),
        Some(SwimlaneMigratorError::MissingUser {
            user_name: "User".to_string()
        })
    );
    let users = table(&[("u1", "u9")]);
    match prepare_group_write(&plan[0], &groups, &users, &roles) {
        Ok(WriteAction::Create { resource }) => {
            assert_eq!(resource.groups[0].id, "c9");
            assert_eq!(resource.roles[0].id, "r9");
            assert_eq!(resource.users[0].id, "u9");
            assert_eq!(resource.id, "s1");
        }
        _ => panic!("expected a create"),
    }
}

#[test]
fn id_table_matches_by_name_ignoring_case() {
    let source = vec![group("s1", "Tier-1"), group("s2", "Only-Source")];
    let target = vec![group("d0", "Other"), group("d1", "TIER-1")];
    let t = build_id_table(&source, &target);
    assert_eq!(t.get(&"s1".to_string()), Some(&"d1".to_string()));
    assert_eq!(t.get(&"s2".to_string()), None);
    assert!(!t.contains_key(&"d1".to_string()));
}

#[test]
fn insert_records_a_created_resource() {
    let mut t = table(&[("a", "1")]);
    t.insert("b".to_string(), "2".to_string());
    t.insert("a".to_string(), "3".to_string());
    assert_eq!(t.get(&"a".to_string()), Some(&"3".to_string()));
    assert_eq!(t.get(&"b".to_string()), Some(&"2".to_string()));
}

#[test]
fn adapt_group_rewrites_known_ids_only() {
    let mut g = group("1234", "G");
    g.users = vec![stub("u1", "U1"), stub("u2", "U2")];
    g.groups = vec![stub("1234", "Self")];
    let groups = table(&[("1234", "9012")]);
    let users = table(&[("u1", "x1")]);
    adapt_group(&mut g, &groups, &users, &IdTable::new());
    assert_eq!(g.id, "9012");
    assert_eq!(g.users[0].id, "x1");
    assert_eq!(g.users[1].id, "u2");
    assert_eq!(g.groups[0].id, "9012");
    assert_eq!(g.name, "G");
}

#[test]
fn adapt_user_rewrites_roles_and_groups() {
    let mut u = user("u1", "alice");
    u.roles = vec![stub("r1", "R")];
    u.groups = vec![stub("g1", "G"), stub("g2", "H")];
    adapt_user(&mut u, &table(&[("g2", "G2")]), &table(&[("r1", "R1")]));
    assert_eq!(u.roles[0].id, "R1");
    assert_eq!(u.groups[0].id, "g1");
    assert_eq!(u.groups[1].id, "G2");
    assert_eq!(u.id, "u1");
}

#[test]
fn resolve_stubs_names_first_unresolved() {
    let stubs = vec![stub("a", "A"), stub("b", "B"), stub("c", "C")];
    let t = table(&[("a", "1")]);
    assert_eq!(resolve_stubs(&stubs, &t).err(), Some("B".to_string()));
    let t = table(&[("a", "1"), ("b", "2"), ("c", "3")]);
    let r = resolve_stubs(&stubs, &t).ok().unwrap();
    let ids: Vec<String> = r.iter().map(|s| s.id.clone()).collect();
    assert_eq!(ids, vec!["1".to_string(), "2".to_string(), "3".to_string()]);
    assert!(resolve_stubs(&vec![], &IdTable::new()).is_ok());
}

#[test]
fn identical_servers_are_refused() {
    let a = "https://a.example.com".to_string();
    let b = "https://b.example.com".to_string();
    assert_eq!(
        check_distinct_servers(&a, &a),
        Err(SwimlaneMigratorNewError::SourceAndDestinationAreIdentical)
    );
    assert_eq!(check_distinct_servers(&a, &b), Ok(()));
}

#[test]
fn error_messages() {
    let e = SwimlaneMigratorError::MissingRole {
        role_name: "Tier-1".to_string(),
    };
    assert_eq!(e.describe(), "Role not found: Tier-1");
    let e = SwimlaneMigratorError::MissingGroup {
        group_name: "Ops".to_string(),
    };
    assert_eq!(e.describe(), "Group not found: Ops");
    let e = SwimlaneMigratorError::MissingUser {
        user_name: "bob".to_string(),
    };
    assert_eq!(e.describe(), "User not found: bob");
}

#[test]
fn user_differences_in_order() {
    let mut a = user("u1", "alice");
    let mut b = user("u2", "alice");
    a.avatar = Some("AAAA".to_string());
    a.email = "a@x".to_string();
    b.email = "b@x".to_string();
    a.primary_group = Some(UserGroupSelection {
        id: Some("1".to_string()),
        name: Some("Ops".to_string()),
    });
    b.roles = vec![stub("r", "Reader")];
    let differences = a.differences(&b);
    assert_eq!(
        differences,
        vec![
            Difference::UpdatingComplexField {
                field: "avatar".to_string()
            },
            Difference::UpdatingField {
                field: "email".to_string(),
                current_value: "a@x".to_string(),
                new_value: "b@x".to_string(),
            },
            Difference::RemovingItem {
                field: "roles".to_string(),
                item: "Reader".to_string(),
            },
            Difference::UpdatingField {
                field: "primary_group".to_string(),
                current_value: "UserGroupSelection: Ops".to_string(),
                new_value: String::new(),
            },
        ]
    );
    assert!(a.is_same_resource(&b));
}

#[test]
fn primary_groups_compare_by_name() {
    let mut a = user("u1", "alice");
    let mut b = user("u2", "alice");
    a.primary_group = Some(UserGroupSelection {
        id: Some("1".to_string()),
        name: Some("Ops".to_string()),
    });
    b.primary_group = Some(UserGroupSelection {
        id: Some("2".to_string()),
        name: Some("Ops".to_string()),
    });
    assert!(a.looks_like(&b));
    assert_eq!(
        UserGroupSelection { id: None, name: None }.describe(),
        "UserGroupSelection: None"
    );
}

#[test]
fn creation_request_copies_user() {
    let mut u = user("u1", "alice");
    u.first_name = Some("Alice".to_string());
    u.roles = vec![stub("r", "R")];
    let r = UserCreationRequest::from_user(u);
    assert_eq!(r.user_name, "alice");
    assert_eq!(r.first_name, Some("Alice".to_string()));
    assert!(!r.notify);
    assert_eq!(r.password, "");
    assert_eq!(r.confirm_password, "");
    assert_eq!(r.email, "alice@example.com");
    assert_eq!(r.roles.len(), 1);
}

#[test]
fn id_table_over_stubs_of_tasks() {
    let source = vec![stub("t1", "Enrich IP"), stub("t2", "Notify")];
    let target = vec![stub("x9", "enrich ip")];
    let t = build_id_table(&source, &target);
    assert_eq!(t.get(&"t1".to_string()), Some(&"x9".to_string()));
    assert_eq!(t.get(&"t2".to_string()), None);
}
