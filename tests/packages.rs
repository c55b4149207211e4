use swimlane_migrator::apps::{fields_differences, BaseField, Field, FieldType, TrackingIdField};
use swimlane_migrator::equality::{Difference, LooksLike};
use swimlane_migrator::packages::{parse_package_version, ParsePackageVersionError};
use swimlane_migrator::paging::{next_page, MAX_ITEMS_PER_PAGE};

#[test]
fn test_parse_package_version() {
    assert_eq!(
        parse_package_version(""),
        Err(ParsePackageVersionError::Empty)
    );
    assert_eq!(
        parse_package_version("package"),
        Err(ParsePackageVersionError::InvalidFormat(
            "package".to_string()
        ))
    );
    assert_eq!(
        parse_package_version("package=="),
        Err(ParsePackageVersionError::InvalidFormat(
            "package==".to_string()
        ))
    );
    assert_eq!(parse_package_version("package==1.0.0"), Ok("1.0.0".to_string()));
}

#[test]
fn package_version_edge_cases() {
    assert_eq!(parse_package_version("   "), Err(ParsePackageVersionError::Empty));
    assert_eq!(parse_package_version("  requests==2.31.0 \n"), Ok("2.31.0".to_string()));
    assert_eq!(parse_package_version("a==1==2"), Ok("1".to_string()));
    assert_eq!(parse_package_version("a===1"), Ok("=1".to_string()));
    assert_eq!(parse_package_version("a===="), Ok(String::new()));
    assert_eq!(
        parse_package_version(" pkg= "),
        Err(ParsePackageVersionError::InvalidFormat("pkg=".to_string()))
    );
}

#[test]
fn paging_stops_on_a_short_page() {
    assert_eq!(MAX_ITEMS_PER_PAGE, 100);
    assert_eq!(next_page(0, 100), Some(1));
    assert_eq!(next_page(3, 99), None);
    assert_eq!(next_page(0, 0), None);
    assert_eq!(next_page(usize::MAX, 100), None);
}

fn base(name: &str) -> BaseField {
    BaseField {
        _type: "field".to_string(),
        id: format!("id-{}", name),
        name: name.to_string(),
        key: name.to_lowercase(),
        supports_multiple_output_mappings: false,
        required: false,
        read_only: false,
        field_type: FieldType::Text,
    }
}

#[test]
fn field_names_and_identity() {
    let a = Field::SingleLineText(base("Title"));
    let b = Field::Email(base("Title"));
    let c = Field::SingleLineText(base("Title"));
    let t = Field::TrackingId(TrackingIdField {
        _type: "tracking".to_string(),
        prefix: "APP-".to_string(),
        id: "t".to_string(),
        name: "Tracking Id".to_string(),
        key: "tracking-id".to_string(),
        read_only: true,
        supports_multiple_output_mappings: false,
    });
    assert_eq!(a.name(), "Title");
    assert_eq!(t.name(), "Tracking Id");
    assert!(!a.is_same_resource(&b));
    assert!(a.is_same_resource(&c));
    assert!(a.differences(&c).is_empty());
}

#[test]
fn fields_added_and_removed() {
    let source = vec![Field::SingleLineText(base("Title")), Field::Email(base("Contact"))];
    let dest = vec![Field::SingleLineText(base("Title")), Field::Url(base("Link"))];
    assert_eq!(
        fields_differences(&source, &dest),
        vec![
            Difference::AddingItem {
                field: "fields".to_string(),
                item: "Contact".to_string(),
            },
            Difference::RemovingItem {
                field: "fields".to_string(),
                item: "Link".to_string(),
            },
        ]
    );
    assert!(fields_differences(&source, &source.clone()).is_empty());
}

use swimlane_migrator::migrator::is_https_url;
use swimlane_migrator::packages::{parse_requirements, plan_requirements, PipPackage, UploadRequirementsError};

fn lines(ls: &[&str]) -> Vec<String> {
    ls.iter().map(|l| l.to_string()).collect()
}

fn installed(name: &str, version: Option<&str>) -> PipPackage {
    PipPackage {
        name: name.to_string(),
        version: version.map(|v| v.to_string()),
        python_version: "Python3".to_string(),
        id: None,
        requires: None,
        license: None,
        author_email: None,
        author: None,
        home_page: None,
        summary: None,
        disabled: None,
    }
}

#[test]
fn requirements_are_read_lowercased_in_order() {
    let r = parse_requirements(&lines(&["Requests==2.31.0", "  # a comment", " PyYAML==6.0 "]));
    assert_eq!(
        r,
        Ok(vec![
            ("requests".to_string(), "2.31.0".to_string()),
            ("pyyaml".to_string(), "6.0".to_string()),
        ])
    );
    assert_eq!(parse_requirements(&vec![]), Ok(vec![]));
}

#[test]
fn bad_requirement_line_is_refused() {
    let r = parse_requirements(&lines(&["a==1", "b"]));
    assert_eq!(
        r,
        Err(UploadRequirementsError::InvalidFormat {
            line_number: 2,
            line: "b".to_string()
        })
    );
    let r = parse_requirements(&lines(&["a==1==2"]));
    assert_eq!(
        r,
        Err(UploadRequirementsError::InvalidFormat {
            line_number: 1,
            line: "a==1==2".to_string()
        })
    );
    let r = parse_requirements(&lines(&[""]));
    assert_eq!(
        r,
        Err(UploadRequirementsError::InvalidFormat {
            line_number: 1,
            line: String::new()
        })
    );
}

#[test]
fn duplicate_requirement_is_refused() {
    let r = parse_requirements(&lines(&["a==1", "# x", "A==2"]));
    assert_eq!(
        r,
        Err(UploadRequirementsError::DuplicatePackage {
            key: "a".to_string(),
            line_number: 3,
            existing_value: "1".to_string(),
            new_value: "2".to_string(),
        })
    );
}

#[test]
fn requirements_plan_installs_and_replaces() {
    let reqs = vec![
        ("new".to_string(), "1.0".to_string()),
        ("old".to_string(), "2.0".to_string()),
        ("same".to_string(), "3.0".to_string()),
    ];
    let have = vec![installed("old", Some("1.0")), installed("same", Some("3.0"))];
    let plan = plan_requirements(&reqs, &have);
    assert_eq!(plan.to_uninstall, vec!["old".to_string()]);
    assert_eq!(
        plan.to_install,
        vec![
            ("new".to_string(), "1.0".to_string()),
            ("old".to_string(), "2.0".to_string()),
        ]
    );
}

#[test]
fn freeze_lines() {
    assert_eq!(installed("numpy", Some("1.26")).freeze_line(), "numpy==1.26");
    assert_eq!(installed("numpy", None).freeze_line(), "numpy==latest");
}

#[test]
fn server_addresses_must_use_https() {
    assert!(is_https_url("https://example.com"));
    assert!(!is_https_url("http://example.com"));
    assert!(!is_https_url("https:/"));
}
