use dbus_explorer::records::{ArgumentInfo, InterfaceInfo, MethodInfo, ObjectInfo, PropertyInfo,
    ServiceInfo, SignalInfo};
use dbus_explorer::templates::{build_breadcrumb_navigation, build_object_flat_list, html_escape,
    render_all_services_content, render_child_object_links, render_dbus_types_reference,
    render_object_details, render_service_content, render_service_list, usize_to_string,
    PageTemplate};
use dbus_explorer::utils::find_child_objects;

fn plain_object(path: &str) -> ObjectInfo {
    ObjectInfo {
        path: path.to_string(),
        interfaces: Vec::new(),
        error: None,
        child_nodes: Vec::new(),
    }
}

fn object_with_method(path: &str) -> ObjectInfo {
    ObjectInfo {
        path: path.to_string(),
        interfaces: vec![InterfaceInfo {
            name: "com.example.I".to_string(),
            methods: vec![MethodInfo {
                name: "Ping".to_string(),
                arguments: Vec::new(),
                return_values: Vec::new(),
                description: None,
            }],
            properties: Vec::new(),
            signals: Vec::new(),
            description: None,
        }],
        error: None,
        child_nodes: Vec::new(),
    }
}

#[test]
fn escaping_replaces_the_five_metacharacters() {
    assert_eq!(html_escape("a&b<c>d\"e'f"), "a&amp;b&lt;c&gt;d&quot;e&#x27;f");
    assert_eq!(html_escape("plain"), "plain");
    assert_eq!(html_escape(""), "");
}

#[test]
fn decimal_rendering_is_exact() {
    assert_eq!(usize_to_string(0), "0");
    assert_eq!(usize_to_string(7), "7");
    assert_eq!(usize_to_string(10), "10");
    assert_eq!(usize_to_string(90210), "90210");
}

#[test]
fn page_template_wraps_title_and_body() {
    let page = PageTemplate::new("My <Title>", "BODY".to_string());
    assert_eq!(page.title, "My <Title>");
    let html = page.render();
    assert!(html.starts_with("<!DOCTYPE html>"));
    assert!(html.contains("<title>D-Bus Explorer - My <Title></title>"));
    assert!(html.contains("<h1>My <Title></h1>"));
    assert!(html.contains("BODY"));
    assert!(html.ends_with("</body>\n</html>"));
}

#[test]
fn types_reference_lists_the_signature_codes() {
    let r = render_dbus_types_reference();
    assert!(r.starts_with("\n<hr>\n<h3>D-Bus Type Reference</h3>"));
    assert!(r.contains("<code>a</code>"));
    assert!(r.contains("Dictionary entry"));
}

#[test]
fn service_list_links_and_percent_encodes() {
    // a name needing percent-encoding shows the wrapper really encodes
    let names = vec!["com.example one".to_string()];
    let r = render_service_list(&names);
    assert!(r.contains("href=\"/local/dbus_explorer/app/service/com.example%20one\""));
    assert!(r.contains(">com.example one</a>"));
    assert!(r.contains("View all services and objects"));
}

#[test]
fn object_details_render_methods_properties_and_signals() {
    let object = ObjectInfo {
        path: "/x".to_string(),
        interfaces: vec![InterfaceInfo {
            name: "com.example.I".to_string(),
            methods: vec![MethodInfo {
                name: "Add".to_string(),
                arguments: vec![
                    ArgumentInfo {
                        name: Some("x".to_string()),
                        type_signature: "i".to_string(),
                        direction: Some("in".to_string()),
                        description: None,
                    },
                    ArgumentInfo {
                        name: None,
                        type_signature: "u".to_string(),
                        direction: None,
                        description: None,
                    },
                ],
                return_values: vec![ArgumentInfo {
                    name: Some("sum".to_string()),
                    type_signature: "i".to_string(),
                    direction: Some("out".to_string()),
                    description: None,
                }],
                description: Some("adds".to_string()),
            }],
            properties: vec![PropertyInfo {
                name: "Level".to_string(),
                type_signature: "u".to_string(),
                access: "readwrite".to_string(),
                description: None,
            }],
            signals: vec![SignalInfo {
                name: "Changed".to_string(),
                arguments: Vec::new(),
                description: None,
            }],
            description: Some("an interface".to_string()),
        }],
        error: None,
        child_nodes: Vec::new(),
    };
    let r = render_object_details(&object);
    assert!(r.contains("<h4>Interface: com.example.I</h4>"));
    assert!(r.contains("<p><em>an interface</em></p>"));
    assert!(r.contains("<strong>Add(x: i, _: u)</strong> \u{2192} sum: i"));
    assert!(r.contains("<br><em>adds</em>"));
    assert!(r.contains("<strong>Level</strong> u [readwrite]"));
    assert!(r.contains("<h5>Signals:</h5>"));
    assert!(r.contains("<strong>Changed()</strong>"));
}

#[test]
fn object_details_show_the_error_alone() {
    let mut o = plain_object("/x");
    o.error = Some("went <wrong>".to_string());
    let r = render_object_details(&o);
    assert_eq!(
        r,
        "<div class=\"error\"><strong>Error:</strong> went &lt;wrong&gt;</div>"
    );
}

#[test]
fn empty_interface_is_called_out() {
    let o = ObjectInfo {
        path: "/x".to_string(),
        interfaces: vec![InterfaceInfo {
            name: "i".to_string(),
            methods: Vec::new(),
            properties: Vec::new(),
            signals: Vec::new(),
            description: None,
        }],
        error: None,
        child_nodes: Vec::new(),
    };
    let r = render_object_details(&o);
    assert!(r.contains("No exposed methods, properties, or signals"));
}

#[test]
fn find_child_objects_picks_direct_children_sorted() {
    let objects = vec![
        plain_object("/a/b/c"),
        object_with_method("/a/z"),
        object_with_method("/a/b"),
        plain_object("/a"),
        plain_object("/other"),
    ];
    let children = find_child_objects(&objects, "/a");
    let paths: Vec<&str> = children.iter().map(|o| o.path.as_str()).collect();
    assert_eq!(paths, ["/a/b", "/a/z"]);
}

#[test]
fn find_child_objects_skips_failed_objects() {
    let mut failed = plain_object("/a/bad");
    failed.error = Some("nope".to_string());
    let objects = vec![failed, plain_object("/a/good"), plain_object("/a")];
    let children = find_child_objects(&objects, "/a");
    let paths: Vec<&str> = children.iter().map(|o| o.path.as_str()).collect();
    assert_eq!(paths, ["/a/good"]);
}

#[test]
fn flat_list_sorts_and_marks_navigation_objects() {
    let objects = vec![object_with_method("/b"), plain_object("/a")];
    let r = build_object_flat_list(&objects, "svc");
    let a = r.find("<strong>/a</strong> <em>(navigation only)</em>").unwrap();
    let b = r.find(">/b</a> <em>(1 interface)</em>").unwrap();
    assert!(a < b);
    assert!(r.starts_with("<ul>"));
    assert!(r.ends_with("</ul>"));
}

#[test]
fn child_links_section_counts_interfaces() {
    let objects = vec![object_with_method("/a/b"), plain_object("/a")];
    let children = find_child_objects(&objects, "/a");
    let r = render_child_object_links(&children, "svc");
    assert!(r.starts_with("<h2>Child Objects</h2><ul>"));
    assert!(r.contains(">/a/b</a> <em>(1 interface)</em>"));
    let none = render_child_object_links(&Vec::new(), "svc");
    assert_eq!(none, "");
}

#[test]
fn breadcrumbs_link_every_ancestor_but_the_last() {
    let r = build_breadcrumb_navigation("com.example", "/a/b/c");
    assert!(r.starts_with("<div class=\"navigation\">"));
    assert!(r.contains("<a href=\"/local/dbus_explorer/app\">Home</a>"));
    assert!(r.contains("/local/dbus_explorer/app/service/com.example\">com.example</a>"));
    assert!(r.contains("/local/dbus_explorer/app/service/com.example/a\">a</a>"));
    assert!(r.contains("/local/dbus_explorer/app/service/com.example/a%2Fb\">b</a>"));
    assert!(r.ends_with(" / c</div>"));
    let root = build_breadcrumb_navigation("com.example", "/");
    assert!(root.ends_with(" / /</div>"));
}

#[test]
fn service_content_shows_owner_objects_and_failures() {
    let mut failed = plain_object("/gone");
    failed.error = Some("lost".to_string());
    let svc = ServiceInfo {
        name: "svc".to_string(),
        owner: Some(":1.9".to_string()),
        objects: vec![plain_object("/"), failed],
        error: None,
    };
    let r = render_service_content(&svc, "svc");
    assert!(r.contains("<strong>Service Owner:</strong> :1.9"));
    assert!(r.contains("<h2>Objects</h2>"));
    assert!(r.contains("<h2>Objects with Errors</h2>"));
    assert!(r.contains("<li><strong>/gone</strong>: lost</li>"));
}

#[test]
fn service_content_stops_at_a_top_level_error() {
    let svc = ServiceInfo {
        name: "svc".to_string(),
        owner: None,
        objects: Vec::new(),
        error: Some("No accessible objects found or service not authorized".to_string()),
    };
    let r = render_service_content(&svc, "svc");
    assert_eq!(
        r,
        "<div class=\"error\"><strong>Error:</strong> No accessible objects found or service not authorized</div>"
    );
}

#[test]
fn all_services_view_nests_objects() {
    let svc_ok = ServiceInfo {
        name: "a.svc".to_string(),
        owner: None,
        objects: vec![object_with_method("/")],
        error: None,
    };
    let svc_bad = ServiceInfo {
        name: "b.svc".to_string(),
        owner: None,
        objects: Vec::new(),
        error: Some("down".to_string()),
    };
    let r = render_all_services_content(&vec![svc_ok, svc_bad]);
    assert!(r.contains("<h2>Service: a.svc</h2>"));
    assert!(r.contains("<h3>Object: /</h3>"));
    assert!(r.contains("<h2>Service: b.svc</h2>"));
    assert!(r.contains("<div class=\"error\"><strong>Error:</strong> down</div>"));
}
