use dbus_explorer::discovery::{dedup_names, select_public_names, select_walk_names, sort_names,
    sort_services};
use dbus_explorer::error::AppError;
use dbus_explorer::records::ServiceInfo;
use dbus_explorer::utils::{validate_object_path, validate_service_name};

fn strings(v: &[&str]) -> Vec<String> {
    v.iter().map(|s| s.to_string()).collect()
}

#[test]
fn public_names_are_filtered_sorted_and_deduplicated() {
    let names = strings(&[
        "org.zzz.Last",
        ":1.17",
        "com.example.Foo",
        "org.zzz.Last",
        ":1.2",
        "com.example.Bar",
    ]);
    let r = select_public_names(names);
    assert_eq!(r, ["com.example.Bar", "com.example.Foo", "org.zzz.Last"]);
}

#[test]
fn walk_selection_honours_the_substring_filter() {
    let names = strings(&[
        "com.example.Foo",
        "org.other.Bar",
        ":1.5",
        "net.example",
        "exampleish",
    ]);
    let r = select_walk_names(&names, Some("example"));
    assert_eq!(r, ["com.example.Foo", "net.example", "exampleish"]);
    let all = select_walk_names(&names, None);
    assert_eq!(
        all,
        ["com.example.Foo", "org.other.Bar", "net.example", "exampleish"]
    );
}

#[test]
fn sort_names_orders_lexicographically() {
    let r = sort_names(strings(&["b", "a", "ab", "a", ""]));
    assert_eq!(r, ["", "a", "a", "ab", "b"]);
}

#[test]
fn dedup_removes_repeated_neighbours() {
    let r = dedup_names(strings(&["a", "a", "b", "b", "b", "c"]));
    assert_eq!(r, ["a", "b", "c"]);
}

fn service(name: &str) -> ServiceInfo {
    ServiceInfo {
        name: name.to_string(),
        owner: None,
        objects: Vec::new(),
        error: None,
    }
}

#[test]
fn services_sort_by_name() {
    let r = sort_services(vec![service("zeta"), service("alpha"), service("middle")]);
    let names: Vec<&str> = r.iter().map(|s| s.name.as_str()).collect();
    assert_eq!(names, ["alpha", "middle", "zeta"]);
}

#[test]
fn service_name_validation_accepts_the_usual_names() {
    assert!(validate_service_name("org.freedesktop.DBus").is_ok());
    assert!(validate_service_name("com.example_1.Foo-Bar").is_ok());
    assert!(validate_service_name(&"a".repeat(255)).is_ok());
}

#[test]
fn service_name_validation_rejects_each_fault() {
    match validate_service_name("") {
        Err(AppError::InvalidInput(m)) => assert_eq!(m, "Service name cannot be empty"),
        other => panic!("unexpected: {other:?}"),
    }
    match validate_service_name(&"a".repeat(256)) {
        Err(AppError::InvalidInput(m)) => assert_eq!(m, "Service name too long"),
        other => panic!("unexpected: {other:?}"),
    }
    match validate_service_name("org/slash") {
        Err(AppError::InvalidInput(m)) => {
            assert_eq!(m, "Invalid characters in service name")
        }
        other => panic!("unexpected: {other:?}"),
    }
    assert!(validate_service_name("with space").is_err());
    assert!(validate_service_name(":1.5").is_err());
}

#[test]
fn object_path_validation_accepts_paths() {
    assert!(validate_object_path("/").is_ok());
    assert!(validate_object_path("/com/example/Foo_1-x").is_ok());
}

#[test]
fn object_path_validation_rejects_each_fault() {
    match validate_object_path("") {
        Err(AppError::InvalidInput(m)) => assert_eq!(m, "Object path cannot be empty"),
        other => panic!("unexpected: {other:?}"),
    }
    match validate_object_path("no/leading/slash") {
        Err(AppError::InvalidInput(m)) => {
            assert_eq!(m, "Object path must start with '/'")
        }
        other => panic!("unexpected: {other:?}"),
    }
    let long = format!("/{}", "a".repeat(1024));
    match validate_object_path(&long) {
        Err(AppError::InvalidInput(m)) => assert_eq!(m, "Object path too long"),
        other => panic!("unexpected: {other:?}"),
    }
    match validate_object_path("/dot.ted") {
        Err(AppError::InvalidInput(m)) => {
            assert_eq!(m, "Invalid characters in object path")
        }
        other => panic!("unexpected: {other:?}"),
    }
}

#[test]
fn error_messages_are_carried() {
    let e = AppError::ServiceNotFound("x.y".to_string());
    assert_eq!(e.message(), "x.y");
}
