use dbus_explorer::records::ServiceInfo;
use dbus_explorer::walker::{build_object_record, IntrospectReply, ObjectWalk};

/// Drives a walk against a static in-memory graph: each path maps to a
/// fixed reply, and a path outside the graph faults like a missing object.
fn walk_graph(service: &str, graph: &[(&str, IntrospectReply)]) -> ServiceInfo {
    let mut walk = ObjectWalk::new(service);
    while let Some(path) = walk.next_path() {
        let reply = graph
            .iter()
            .find(|(p, _)| *p == path)
            .map(|(_, r)| clone_reply(r))
            .unwrap_or_else(|| {
                IntrospectReply::CallFault(
                    "org.freedesktop.DBus.Error.UnknownMethod: no such object".to_string(),
                )
            });
        walk.record(reply);
    }
    walk.into_service_record(None)
}

fn clone_reply(r: &IntrospectReply) -> IntrospectReply {
    match r {
        IntrospectReply::Schema(x) => IntrospectReply::Schema(x.clone()),
        IntrospectReply::CallFault(m) => IntrospectReply::CallFault(m.clone()),
    }
}

fn schema(children: &[&str]) -> IntrospectReply {
    let mut xml = String::from("<node><interface name=\"com.example.I\"/>");
    for c in children {
        xml.push_str(&format!("<node name=\"{c}\"/>"));
    }
    xml.push_str("</node>");
    IntrospectReply::Schema(xml)
}

fn sorted_paths(record: &ServiceInfo) -> Vec<String> {
    let mut paths: Vec<String> = record.objects.iter().map(|o| o.path.clone()).collect();
    paths.sort();
    paths
}

#[test]
fn walks_a_small_tree_completely() {
    let graph = [
        ("/", schema(&["a", "b"])),
        ("/a", schema(&["x"])),
        ("/b", schema(&[])),
        ("/a/x", schema(&[])),
    ];
    let record = walk_graph("com.example.Svc", &graph);
    assert_eq!(record.name, "com.example.Svc");
    assert!(record.error.is_none());
    assert_eq!(sorted_paths(&record), ["/", "/a", "/a/x", "/b"]);
    for o in &record.objects {
        assert!(o.error.is_none());
        assert_eq!(o.interfaces.len(), 1);
    }
}

#[test]
fn declared_cycle_terminates_and_visits_each_path_once() {
    // "/a" advertises child "b" and "/a/b" advertises "a" again: the walk
    // terminates, "/a" is visited exactly once, and the one new path the
    // declared cycle produces is recorded as a failure, never expanded.
    let graph = [
        ("/", schema(&["a"])),
        ("/a", schema(&["b"])),
        ("/a/b", schema(&["a"])),
    ];
    let record = walk_graph("svc", &graph);
    let visits_of_a = record.objects.iter().filter(|o| o.path == "/a").count();
    assert_eq!(visits_of_a, 1);
    assert_eq!(sorted_paths(&record), ["/", "/a", "/a/b", "/a/b/a"]);
    let unrolled = record.objects.iter().find(|o| o.path == "/a/b/a").unwrap();
    assert!(unrolled.error.is_some());
}

#[test]
fn a_re_advertised_child_is_enqueued_once() {
    let graph = [
        ("/", schema(&["a", "a"])),
        ("/a", schema(&[])),
    ];
    let record = walk_graph("svc", &graph);
    let visits_of_a = record.objects.iter().filter(|o| o.path == "/a").count();
    assert_eq!(visits_of_a, 1);
    assert_eq!(sorted_paths(&record), ["/", "/a"]);
}

#[test]
fn rewalking_an_unchanged_graph_finds_the_same_paths() {
    let graph = [
        ("/", schema(&["n2", "n1"])),
        ("/n1", schema(&["deep"])),
        ("/n2", schema(&[])),
        ("/n1/deep", schema(&[])),
    ];
    let first = walk_graph("svc", &graph);
    let second = walk_graph("svc", &graph);
    assert_eq!(sorted_paths(&first), sorted_paths(&second));
}

#[test]
fn root_failure_yields_exactly_one_errored_object() {
    let graph = [(
        "/",
        IntrospectReply::CallFault(
            "org.freedesktop.DBus.Error.AccessDenied: not allowed".to_string(),
        ),
    )];
    let record = walk_graph("svc", &graph);
    assert_eq!(record.objects.len(), 1);
    let root = &record.objects[0];
    assert_eq!(root.path, "/");
    assert_eq!(
        root.error.as_deref(),
        Some("Access denied - not authorized to introspect this object")
    );
    assert!(root.interfaces.is_empty());
    assert!(root.child_nodes.is_empty());
    assert!(record.error.is_none());
}

#[test]
fn malformed_root_schema_stops_the_walk() {
    let graph = [("/", IntrospectReply::Schema("<node".to_string()))];
    let record = walk_graph("svc", &graph);
    assert_eq!(record.objects.len(), 1);
    assert_eq!(
        record.objects[0].error.as_deref(),
        Some("XML parsing failed: Failed to parse D-Bus introspection XML for svc:/: malformed schema document")
    );
}

#[test]
fn failed_child_is_recorded_but_not_expanded() {
    // "/secret" faults; although its (unknown) children can never be seen,
    // the object itself must appear with its classified error.
    let graph = [
        ("/", schema(&["secret", "open"])),
        (
            "/secret",
            IntrospectReply::CallFault(
                "org.freedesktop.DBus.Error.AccessDenied".to_string(),
            ),
        ),
        ("/open", schema(&[])),
    ];
    let record = walk_graph("svc", &graph);
    assert_eq!(sorted_paths(&record), ["/", "/open", "/secret"]);
    let secret = record.objects.iter().find(|o| o.path == "/secret").unwrap();
    assert_eq!(
        secret.error.as_deref(),
        Some("Access denied - not authorized to introspect this object")
    );
}

#[test]
fn fault_classification_distinguishes_the_three_kinds() {
    let denied = build_object_record(
        "svc",
        "/p",
        IntrospectReply::CallFault("err: org.freedesktop.DBus.Error.AccessDenied".to_string()),
    );
    assert_eq!(
        denied.error.as_deref(),
        Some("Access denied - not authorized to introspect this object")
    );
    let unsupported = build_object_record(
        "svc",
        "/p",
        IntrospectReply::CallFault("org.freedesktop.DBus.Error.UnknownMethod".to_string()),
    );
    assert_eq!(
        unsupported.error.as_deref(),
        Some("Object does not support introspection")
    );
    let generic = build_object_record(
        "svc",
        "/p",
        IntrospectReply::CallFault("connection reset".to_string()),
    );
    assert_eq!(
        generic.error.as_deref(),
        Some("Introspection failed: connection reset")
    );
}

#[test]
fn successful_record_carries_interfaces_and_children() {
    let r = build_object_record("svc", "/a", schema(&["kid"]));
    assert!(r.error.is_none());
    assert_eq!(r.path, "/a");
    assert_eq!(r.interfaces.len(), 1);
    assert_eq!(r.interfaces[0].name, "com.example.I");
    assert_eq!(r.child_nodes, ["kid"]);
}

#[test]
fn owner_is_kept_on_the_record() {
    let graph = [("/", schema(&[]))];
    let mut walk = ObjectWalk::new("svc");
    while let Some(path) = walk.next_path() {
        let _ = &path;
        walk.record(clone_reply(&graph[0].1));
    }
    let record = walk.into_service_record(Some(":1.42".to_string()));
    assert_eq!(record.owner.as_deref(), Some(":1.42"));
}

#[test]
fn an_empty_finished_walk_synthesizes_an_error() {
    // an empty result with no explanatory fault is disallowed
    let walk = ObjectWalk {
        service: "svc".to_string(),
        pending: Vec::new(),
        visited: Vec::new(),
        objects: Vec::new(),
    };
    let record = walk.into_service_record(None);
    assert_eq!(
        record.error.as_deref(),
        Some("No accessible objects found or service not authorized")
    );
    assert!(record.objects.is_empty());
}
