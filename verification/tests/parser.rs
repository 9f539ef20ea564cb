use dbus_explorer::schema::parse_introspection_xml;

fn parse_ok(xml: &str) -> (Vec<dbus_explorer::records::InterfaceInfo>, Vec<String>) {
    parse_introspection_xml(xml, "com.example.Svc", "/").expect("well-formed schema text")
}

#[test]
fn malformed_documents_are_rejected_with_context() {
    let cases = [
        "",
        "not xml at all",
        "<node>",
        "<node><interface></node>",
        "<node></other>",
        "<node><interface/></node><extra/>",
        "<node><interface name=></interface></node>",
        "<node><interface name=\"a\"><method/></interface></node>",
        "<node><node/></node>",
        "<node><interface name=\"a\"><property name=\"p\" type=\"s\"/></interface></node>",
        "<node><interface name=\"a\"><annotation name=\"x\"/></interface></node>",
        "<node><interface name=\"a\"><method name=\"m\"><arg name=\"x\"/></method></interface></node>",
        "<node attr=\"unterminated></node>",
        "<node><interface name=\"a\" x=\"&unknown;\"/></node>",
    ];
    for xml in cases {
        let r = parse_introspection_xml(xml, "svc", "/p");
        match r {
            Err(msg) => assert_eq!(
                msg,
                "Failed to parse D-Bus introspection XML for svc:/p: malformed schema document"
            ),
            Ok(_) => panic!("accepted malformed document: {xml}"),
        }
    }
}

#[test]
fn counts_and_first_description_win() {
    let xml = "<?xml version=\"1.0\"?>\n\
        <!DOCTYPE node PUBLIC \"-//freedesktop//DTD D-BUS Object Introspection 1.0//EN\" \"http://www.freedesktop.org/standards/dbus/1.0/introspect.dtd\">\n\
        <node>\n\
          <interface name=\"com.example.Iface\">\n\
            <annotation name=\"org.freedesktop.DBus.Description\" value=\"first\"/>\n\
            <annotation name=\"org.freedesktop.DBus.Description\" value=\"second\"/>\n\
            <method name=\"A\"/>\n\
            <method name=\"B\"><arg type=\"s\"/></method>\n\
            <property name=\"P\" type=\"u\" access=\"read\"/>\n\
            <signal name=\"S\"><arg name=\"v\" type=\"i\" direction=\"out\"/></signal>\n\
          </interface>\n\
        </node>";
    let (interfaces, nodes) = parse_ok(xml);
    assert_eq!(interfaces.len(), 1);
    let f = &interfaces[0];
    assert_eq!(f.name, "com.example.Iface");
    assert_eq!(f.methods.len(), 2);
    assert_eq!(f.properties.len(), 1);
    assert_eq!(f.signals.len(), 1);
    assert_eq!(f.description.as_deref(), Some("first"));
    assert!(nodes.is_empty());
    // signal arguments keep their direction and are never partitioned
    assert_eq!(f.signals[0].arguments.len(), 1);
    assert_eq!(f.signals[0].arguments[0].direction.as_deref(), Some("out"));
    // properties carry name, type and access through
    assert_eq!(f.properties[0].name, "P");
    assert_eq!(f.properties[0].type_signature, "u");
    assert_eq!(f.properties[0].access, "read");
}

#[test]
fn method_arguments_partition_by_direction() {
    let xml = "<node><interface name=\"i\"><method name=\"m\">\
        <arg name=\"x\" type=\"s\" direction=\"in\"/>\
        <arg name=\"y\" type=\"i\" direction=\"out\"/>\
        </method></interface></node>";
    let (interfaces, _) = parse_ok(xml);
    let m = &interfaces[0].methods[0];
    assert_eq!(m.arguments.len(), 1);
    assert_eq!(m.arguments[0].name.as_deref(), Some("x"));
    assert_eq!(m.arguments[0].type_signature, "s");
    assert_eq!(m.return_values.len(), 1);
    assert_eq!(m.return_values[0].name.as_deref(), Some("y"));
    assert_eq!(m.return_values[0].type_signature, "i");
}

#[test]
fn unmarked_arguments_stay_inputs() {
    let xml = "<node><interface name=\"i\"><method name=\"m\">\
        <arg type=\"s\"/><arg type=\"b\" direction=\"out\"/><arg type=\"u\" direction=\"in\"/>\
        </method></interface></node>";
    let (interfaces, _) = parse_ok(xml);
    let m = &interfaces[0].methods[0];
    assert_eq!(m.arguments.len(), 2);
    assert_eq!(m.arguments[0].type_signature, "s");
    assert_eq!(m.arguments[0].name, None);
    assert_eq!(m.arguments[1].type_signature, "u");
    assert_eq!(m.return_values.len(), 1);
    assert_eq!(m.return_values[0].type_signature, "b");
}

#[test]
fn child_nodes_are_collected_in_order() {
    let xml = "<node name=\"root\"><node name=\"b\"/><node name=\"a\"><node name=\"nested\"/></node></node>";
    let (interfaces, nodes) = parse_ok(xml);
    assert!(interfaces.is_empty());
    // nested child declarations are traversal data of their own object, not of this one
    assert_eq!(nodes, ["b", "a"]);
}

#[test]
fn unknown_elements_and_text_are_ignored() {
    let xml = "<node><!-- a comment --><docs>prose text</docs>\
        <interface name=\"i\"><tp:docstring xmlns:tp=\"x\">doc</tp:docstring><method name=\"m\"/></interface>\
        <node name=\"kid\"/></node>";
    let (interfaces, nodes) = parse_ok(xml);
    assert_eq!(interfaces.len(), 1);
    assert_eq!(interfaces[0].methods.len(), 1);
    assert_eq!(nodes, ["kid"]);
}

#[test]
fn entities_decode_inside_attribute_values() {
    let xml = "<node><interface name=\"a&amp;b&lt;c&gt;d&quot;e&apos;f\"/></node>";
    let (interfaces, _) = parse_ok(xml);
    assert_eq!(interfaces[0].name, "a&b<c>d\"e'f");
}

#[test]
fn empty_interface_has_no_entries() {
    let xml = "<node><interface name=\"only\"/></node>";
    let (interfaces, nodes) = parse_ok(xml);
    assert_eq!(interfaces.len(), 1);
    assert!(interfaces[0].methods.is_empty());
    assert!(interfaces[0].properties.is_empty());
    assert!(interfaces[0].signals.is_empty());
    assert!(interfaces[0].description.is_none());
    assert!(nodes.is_empty());
}

#[test]
fn whitespace_and_quote_styles_are_accepted() {
    let xml = "<node >\n  <interface   name = 'i' >\n    <method  name = 'm' ></method >\n  </interface >\n</node >";
    let (interfaces, _) = parse_ok(xml);
    assert_eq!(interfaces[0].name, "i");
    assert_eq!(interfaces[0].methods.len(), 1);
}
