use repomng::name_policy::InvalidName;
use repomng::repository::{list_repositories, DiscoveryError, Repository};

#[test]
fn create_plan_for_nested_name() {
    let repo = Repository::new("team/x".to_string(), "d".to_string());
    let plan = repo.create().unwrap();
    assert_eq!(plan.path, "team/x.git");
    assert_eq!(plan.description_path, "team/x.git/description");
    assert_eq!(plan.description, "d");
}

#[test]
fn create_plan_for_top_level_name() {
    let repo = Repository::new("alpha".to_string(), String::new());
    let plan = repo.create().unwrap();
    assert_eq!(plan.path, "alpha.git");
    assert_eq!(plan.description_path, "alpha.git/description");
    assert_eq!(plan.description, "");
}

#[test]
fn create_refuses_name_with_suffix() {
    let repo = Repository::new("bad/name.git".to_string(), String::new());
    assert!(matches!(repo.create(), Err(InvalidName)));
}

#[test]
fn create_refuses_empty_and_traversing_names() {
    for name in ["", "..", "a/../b", "team/", "a b"] {
        let repo = Repository::new(name.to_string(), "x".to_string());
        assert!(repo.create().is_err(), "{name}");
    }
}

#[test]
fn read_builds_record_with_description() {
    let r = Repository::read("grp/beta".to_string(), true, Some("Beta".to_string())).unwrap();
    assert_eq!(r.name, "grp/beta");
    assert_eq!(r.description, "Beta");
}

#[test]
fn read_defaults_missing_description_to_empty() {
    let r = Repository::read("alpha".to_string(), true, None).unwrap();
    assert_eq!(r.name, "alpha");
    assert_eq!(r.description, "");
}

#[test]
fn read_reports_unopenable_repository() {
    let r = Repository::read("alpha".to_string(), false, Some("x".to_string()));
    assert_eq!(r.unwrap_err(), DiscoveryError::NotARepository);
}

#[test]
fn list_keeps_records_in_order_and_drops_errors() {
    let items = vec![
        Err(DiscoveryError::InvalidEntry),
        Ok(Repository::new("a".to_string(), "1".to_string())),
        Err(DiscoveryError::ReadError),
        Ok(Repository::new("b/c".to_string(), String::new())),
        Err(DiscoveryError::NotARepository),
    ];
    let list = list_repositories(items);
    assert_eq!(list.len(), 2);
    assert_eq!(list[0].name, "a");
    assert_eq!(list[0].description, "1");
    assert_eq!(list[1].name, "b/c");
    assert_eq!(list[1].description, "");
}

#[test]
fn list_of_nothing_is_empty() {
    assert!(list_repositories(Vec::new()).is_empty());
    assert!(list_repositories(vec![Err(DiscoveryError::ReadError)]).is_empty());
}
