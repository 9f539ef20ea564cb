use vstd::prelude::*;

use crate::chars::{chars_to_string, str_eq, str_to_chars};
use crate::utils::{ref_models, sort_objects_by_path};
use crate::records::{interface_model, object_model, objects_model, opt_view, service_model,
    strs_view, ArgumentInfo, ArgumentModel, InterfaceInfo, InterfaceModel, MethodInfo,
    MethodModel, ObjectInfo, ObjectModel, PropertyInfo, PropertyModel, ServiceInfo, ServiceModel,
    SignalInfo, SignalModel};

verus! {

// ===========================================================================
// Presentation: building the pages that show a discovery's results.
//
// Everything here is plain text construction over the records; each builder
// is specified by a spec function giving the exact text it produces.
// ===========================================================================

/// What `urlencoding::encode` returns; it depends on the input alone.
pub uninterp spec fn url_encoded(s: Seq<char>) -> Seq<char>;

/// Relies on `urlencoding::encode`: percent-encodes every byte except
/// alphanumerics and `-`, `_`, `.`, `~`, a pure function of its input.
#[verifier::external_body]
fn url_encode(s: &str) -> (r: String)
    ensures
        r@ == url_encoded(s@),
        s@.len() == 0 ==> r@.len() == 0,
{
    urlencoding::encode(s).into_owned()
}

/// What one character contributes to escaped text.
pub open spec fn escape_char(c: char) -> Seq<char> {
    if c == '&' {
        "&amp;"@
    } else if c == '<' {
        "&lt;"@
    } else if c == '>' {
        "&gt;"@
    } else if c == '"' {
        "&quot;"@
    } else if c == '\'' {
        "&#x27;"@
    } else {
        seq![c]
    }
}

/// Text with markup metacharacters replaced by character references.
pub open spec fn spec_html_escape(s: Seq<char>) -> Seq<char>
    decreases s.len(),
{
    if s.len() == 0 {
        Seq::empty()
    } else {
        spec_html_escape(s.drop_last()) + escape_char(s.last())
    }
}

/// Escapes text for inclusion in a page.
pub fn html_escape(text: &str) -> (r: String)
    ensures
        r@ == spec_html_escape(text@),
{
    let chars = str_to_chars(text);
    let mut out: Vec<char> = Vec::new();
    let mut i: usize = 0;
    proof {
        assert(text@.take(0) =~= Seq::<char>::empty());
        assert(out@ =~= spec_html_escape(text@.take(0)));
    }
    while i < chars.len()
        invariant
            i <= chars@.len(),
            chars@ == text@,
            out@ == spec_html_escape(text@.take(i as int)),
        decreases chars@.len() - i,
    {
        let ghost before = out@;
        let c = chars[i];
        if c == '&' {
            out.push('&');
            out.push('a');
            out.push('m');
            out.push('p');
            out.push(';');
            proof {
                reveal_strlit("&amp;");
                assert(out@ =~= before + escape_char(c));
            }
        } else if c == '<' {
            out.push('&');
            out.push('l');
            out.push('t');
            out.push(';');
            proof {
                reveal_strlit("&lt;");
                assert(out@ =~= before + escape_char(c));
            }
        } else if c == '>' {
            out.push('&');
            out.push('g');
            out.push('t');
            out.push(';');
            proof {
                reveal_strlit("&gt;");
                assert(out@ =~= before + escape_char(c));
            }
        } else if c == '"' {
            out.push('&');
            out.push('q');
            out.push('u');
            out.push('o');
            out.push('t');
            out.push(';');
            proof {
                reveal_strlit("&quot;");
                assert(out@ =~= before + escape_char(c));
            }
        } else if c == '\'' {
            out.push('&');
            out.push('#');
            out.push('x');
            out.push('2');
            out.push('7');
            out.push(';');
            proof {
                reveal_strlit("&#x27;");
                assert(out@ =~= before + escape_char(c));
            }
        } else {
            out.push(c);
            proof {
                assert(out@ =~= before + escape_char(c));
            }
        }
        proof {
            assert(text@.take(i + 1).drop_last() =~= text@.take(i as int));
            assert(text@.take(i + 1).last() == text@[i as int]);
            assert(out@ =~= spec_html_escape(text@.take(i + 1)));
        }
        i += 1;
    }
    proof {
        assert(text@.take(text@.len() as int) =~= text@);
    }
    chars_to_string(&out)
}

// ---------------------------------------------------------------------------
// The page frame
// ---------------------------------------------------------------------------

/// A page: a title and its body markup.
pub struct PageTemplate {
    pub title: String,
    pub body: String,
}

/// The text of a whole page with the given title and body.
pub open spec fn spec_page(title: Seq<char>, body: Seq<char>) -> Seq<char> {
    page_head_text() + title + page_mid_text() + title + page_body_open_text() + body
        + page_tail_text()
}

pub open spec fn page_head_text() -> Seq<char> {
    "<!DOCTYPE html>\n<html>\n<head>\n    <title>D-Bus Explorer - "@
}

pub open spec fn page_mid_text() -> Seq<char> {
    "</title>\n    <style>\n        body { font-family: 'Courier New', 'Monaco', 'Menlo', monospace; margin: 20px; }\n        table { font-family: 'Courier New', 'Monaco', 'Menlo', monospace; border-collapse: collapse; width: 100%; }\n        th, td { border: 1px solid #ddd; padding: 8px; text-align: left; }\n        th { background-color: #f2f2f2; }\n        code { background-color: #f0f0f0; padding: 2px 4px; border-radius: 3px; }\n        .navigation { margin-bottom: 20px; padding: 10px; background-color: #f8f9fa; border-radius: 4px; }\n        .error { color: #d32f2f; background: #ffebee; padding: 15px; border-radius: 4px; margin: 10px 0; }\n        .interface { margin: 20px 0; padding: 15px; border: 1px solid #ddd; border-radius: 4px; }\n        .method, .property, .signal { margin: 10px 0; padding: 8px; background-color: #f8f9fa; border-radius: 3px; }\n    </style>\n</head>\n<body>\n    <h1>"@
}

pub open spec fn page_body_open_text() -> Seq<char> {
    "</h1>\n    "@
}

pub open spec fn page_tail_text() -> Seq<char> {
    "\n</body>\n</html>"@
}

impl PageTemplate {
    /// A page with the given title and body.
    pub fn new(title: &str, body: String) -> (r: PageTemplate)
        ensures
            r.title@ == title@,
            r.body@ == body@,
    {
        PageTemplate { title: String::from_str(title), body }
    }

    /// The page's full text.
    pub fn render(self) -> (r: String)
        ensures
            r@ == spec_page(self.title@, self.body@),
    {
        let mut r = String::from_str(
            "<!DOCTYPE html>\n<html>\n<head>\n    <title>D-Bus Explorer - ",
        );
        r.append(self.title.as_str());
        r.append(
            "</title>\n    <style>\n        body { font-family: 'Courier New', 'Monaco', 'Menlo', monospace; margin: 20px; }\n        table { font-family: 'Courier New', 'Monaco', 'Menlo', monospace; border-collapse: collapse; width: 100%; }\n        th, td { border: 1px solid #ddd; padding: 8px; text-align: left; }\n        th { background-color: #f2f2f2; }\n        code { background-color: #f0f0f0; padding: 2px 4px; border-radius: 3px; }\n        .navigation { margin-bottom: 20px; padding: 10px; background-color: #f8f9fa; border-radius: 4px; }\n        .error { color: #d32f2f; background: #ffebee; padding: 15px; border-radius: 4px; margin: 10px 0; }\n        .interface { margin: 20px 0; padding: 15px; border: 1px solid #ddd; border-radius: 4px; }\n        .method, .property, .signal { margin: 10px 0; padding: 8px; background-color: #f8f9fa; border-radius: 3px; }\n    </style>\n</head>\n<body>\n    <h1>",
        );
        r.append(self.title.as_str());
        r.append("</h1>\n    ");
        r.append(self.body.as_str());
        r.append("\n</body>\n</html>");
        r
    }
}

// ---------------------------------------------------------------------------
// Fixed reference material
// ---------------------------------------------------------------------------

/// The text of the type-signature reference table.
pub open spec fn dbus_types_reference_text() -> Seq<char> {
    "\n<hr>\n<h3>D-Bus Type Reference</h3>\n<table>\n<tr><th>Type</th><th>Description</th><th>Example</th></tr>\n<tr><td><code>b</code></td><td>Boolean</td><td>true, false</td></tr>\n<tr><td><code>y</code></td><td>Byte (8-bit unsigned)</td><td>255</td></tr>\n<tr><td><code>n</code></td><td>Int16 (16-bit signed)</td><td>-32768</td></tr>\n<tr><td><code>q</code></td><td>UInt16 (16-bit unsigned)</td><td>65535</td></tr>\n<tr><td><code>i</code></td><td>Int32 (32-bit signed)</td><td>-2147483648</td></tr>\n<tr><td><code>u</code></td><td>UInt32 (32-bit unsigned)</td><td>4294967295</td></tr>\n<tr><td><code>x</code></td><td>Int64 (64-bit signed)</td><td>-9223372036854775808</td></tr>\n<tr><td><code>t</code></td><td>UInt64 (64-bit unsigned)</td><td>18446744073709551615</td></tr>\n<tr><td><code>d</code></td><td>Double (IEEE 754)</td><td>3.14159</td></tr>\n<tr><td><code>s</code></td><td>String (UTF-8)</td><td>\"Hello World\"</td></tr>\n<tr><td><code>o</code></td><td>Object path</td><td>/com/example/Object</td></tr>\n<tr><td><code>g</code></td><td>Signature</td><td>s, i, as</td></tr>\n<tr><td><code>v</code></td><td>Variant (any type)</td><td>Any of the above</td></tr>\n<tr><td><code>a</code></td><td>Array prefix</td><td><code>as</code> = array of strings</td></tr>\n<tr><td><code>()</code></td><td>Struct</td><td><code>(si)</code> = struct with string and int</td></tr>\n<tr><td><code>{}</code></td><td>Dictionary entry</td><td><code>a{sv}</code> = array of string-variant pairs</td></tr>\n</table>\n<p><em>Common patterns: <code>as</code> = string array, <code>a{sv}</code> = property map, <code>a(ssss)</code> = array of 4-string structs</em></p>\n"@
}

/// The type-signature reference table shown under each object page.
pub fn render_dbus_types_reference() -> (r: String)
    ensures
        r@ == dbus_types_reference_text(),
{
    String::from_str(
        "\n<hr>\n<h3>D-Bus Type Reference</h3>\n<table>\n<tr><th>Type</th><th>Description</th><th>Example</th></tr>\n<tr><td><code>b</code></td><td>Boolean</td><td>true, false</td></tr>\n<tr><td><code>y</code></td><td>Byte (8-bit unsigned)</td><td>255</td></tr>\n<tr><td><code>n</code></td><td>Int16 (16-bit signed)</td><td>-32768</td></tr>\n<tr><td><code>q</code></td><td>UInt16 (16-bit unsigned)</td><td>65535</td></tr>\n<tr><td><code>i</code></td><td>Int32 (32-bit signed)</td><td>-2147483648</td></tr>\n<tr><td><code>u</code></td><td>UInt32 (32-bit unsigned)</td><td>4294967295</td></tr>\n<tr><td><code>x</code></td><td>Int64 (64-bit signed)</td><td>-9223372036854775808</td></tr>\n<tr><td><code>t</code></td><td>UInt64 (64-bit unsigned)</td><td>18446744073709551615</td></tr>\n<tr><td><code>d</code></td><td>Double (IEEE 754)</td><td>3.14159</td></tr>\n<tr><td><code>s</code></td><td>String (UTF-8)</td><td>\"Hello World\"</td></tr>\n<tr><td><code>o</code></td><td>Object path</td><td>/com/example/Object</td></tr>\n<tr><td><code>g</code></td><td>Signature</td><td>s, i, as</td></tr>\n<tr><td><code>v</code></td><td>Variant (any type)</td><td>Any of the above</td></tr>\n<tr><td><code>a</code></td><td>Array prefix</td><td><code>as</code> = array of strings</td></tr>\n<tr><td><code>()</code></td><td>Struct</td><td><code>(si)</code> = struct with string and int</td></tr>\n<tr><td><code>{}</code></td><td>Dictionary entry</td><td><code>a{sv}</code> = array of string-variant pairs</td></tr>\n</table>\n<p><em>Common patterns: <code>as</code> = string array, <code>a{sv}</code> = property map, <code>a(ssss)</code> = array of 4-string structs</em></p>\n",
    )
}

// ---------------------------------------------------------------------------
// The service list
// ---------------------------------------------------------------------------

/// One service entry of the landing page's list.
pub open spec fn service_list_item_text(name: Seq<char>) -> Seq<char> {
    "    <li><a href=\"/local/dbus_explorer/app/service/"@ + url_encoded(name) + "\">"@
        + spec_html_escape(name) + "</a></li>\n"@
}

/// The service entries from `i` on, in order.
pub open spec fn service_list_items_text(names: Seq<Seq<char>>, i: int) -> Seq<char>
    decreases names.len() - i,
{
    if !(0 <= i < names.len()) {
        Seq::empty()
    } else {
        service_list_item_text(names[i]) + service_list_items_text(names, i + 1)
    }
}

/// The landing page's list of services.
pub open spec fn service_list_text(names: Seq<Seq<char>>) -> Seq<char> {
    "\n<h2>Services</h2>\n<ul>\n"@ + service_list_items_text(names, 0)
        + "</ul>\n<h2>All Services and Objects</h2>\n<p><a href=\"/local/dbus_explorer/app/all\">View all services and objects (flattened)</a></p>\n"@
}

/// The landing page's service list: one link per name, then the link to the
/// flattened view.
pub fn render_service_list(service_names: &Vec<String>) -> (r: String)
    ensures
        r@ == service_list_text(strs_view(service_names@)),
{
    let ghost names_v = strs_view(service_names@);
    let mut items = String::new();
    let mut i: usize = service_names.len();
    proof {
        assert(items@ =~= service_list_items_text(names_v, i as int));
    }
    while i > 0
        invariant
            i <= service_names@.len(),
            names_v == strs_view(service_names@),
            items@ == service_list_items_text(names_v, i as int),
        decreases i,
    {
        i -= 1;
        let name = service_names[i].as_str();
        let mut item = String::from_str("    <li><a href=\"/local/dbus_explorer/app/service/");
        item.append(url_encode(name).as_str());
        item.append("\">");
        item.append(html_escape(name).as_str());
        item.append("</a></li>\n");
        item.append(items.as_str());
        items = item;
        proof {
            assert(items@ =~= service_list_items_text(names_v, i as int));
        }
    }
    let mut r = String::from_str("\n<h2>Services</h2>\n<ul>\n");
    r.append(items.as_str());
    r.append(
        "</ul>\n<h2>All Services and Objects</h2>\n<p><a href=\"/local/dbus_explorer/app/all\">View all services and objects (flattened)</a></p>\n",
    );
    r
}


// ---------------------------------------------------------------------------
// Decimal rendering
// ---------------------------------------------------------------------------

/// The digit character for one decimal digit.
pub open spec fn digit_char(d: nat) -> char {
    if d == 0 {
        '0'
    } else if d == 1 {
        '1'
    } else if d == 2 {
        '2'
    } else if d == 3 {
        '3'
    } else if d == 4 {
        '4'
    } else if d == 5 {
        '5'
    } else if d == 6 {
        '6'
    } else if d == 7 {
        '7'
    } else if d == 8 {
        '8'
    } else {
        '9'
    }
}

/// The decimal text of a number.
pub open spec fn spec_udec(n: nat) -> Seq<char>
    decreases n,
{
    if n < 10 {
        seq![digit_char(n)]
    } else {
        spec_udec(n / 10).push(digit_char(n % 10))
    }
}

fn digit_str(d: usize) -> (r: &'static str)
    requires
        d < 10,
    ensures
        r@ == seq![digit_char(d as nat)],
{
    proof {
        reveal_strlit("0");
        reveal_strlit("1");
        reveal_strlit("2");
        reveal_strlit("3");
        reveal_strlit("4");
        reveal_strlit("5");
        reveal_strlit("6");
        reveal_strlit("7");
        reveal_strlit("8");
        reveal_strlit("9");
        assert("0"@ =~= seq!['0']);
        assert("1"@ =~= seq!['1']);
        assert("2"@ =~= seq!['2']);
        assert("3"@ =~= seq!['3']);
        assert("4"@ =~= seq!['4']);
        assert("5"@ =~= seq!['5']);
        assert("6"@ =~= seq!['6']);
        assert("7"@ =~= seq!['7']);
        assert("8"@ =~= seq!['8']);
        assert("9"@ =~= seq!['9']);
    }
    if d == 0 {
        "0"
    } else if d == 1 {
        "1"
    } else if d == 2 {
        "2"
    } else if d == 3 {
        "3"
    } else if d == 4 {
        "4"
    } else if d == 5 {
        "5"
    } else if d == 6 {
        "6"
    } else if d == 7 {
        "7"
    } else if d == 8 {
        "8"
    } else {
        "9"
    }
}

/// The decimal text of a count.
pub fn usize_to_string(n: usize) -> (r: String)
    ensures
        r@ == spec_udec(n as nat),
    decreases n,
{
    if n < 10 {
        String::from_str(digit_str(n))
    } else {
        let mut r = usize_to_string(n / 10);
        r.append(digit_str(n % 10));
        proof {
            assert(r@ =~= spec_udec((n / 10) as nat).push(digit_char((n % 10) as nat)));
        }
        r
    }
}

// ---------------------------------------------------------------------------
// Object details
// ---------------------------------------------------------------------------

/// How an argument is shown: its name, or an underscore when unnamed, then
/// its opaque type signature.
pub open spec fn arg_item_text(a: ArgumentModel) -> Seq<char> {
    (match a.name {
        Some(n) => n,
        None => "_"@,
    }) + ": "@ + a.type_signature
}

/// The arguments from `i` on, comma-separated.
pub open spec fn args_join_text(args: Seq<ArgumentModel>, i: int) -> Seq<char>
    decreases args.len() - i,
{
    if !(0 <= i < args.len()) {
        Seq::empty()
    } else if i == args.len() - 1 {
        arg_item_text(args[i])
    } else {
        arg_item_text(args[i]) + ", "@ + args_join_text(args, i + 1)
    }
}

fn args_join(args: &Vec<ArgumentInfo>) -> (r: String)
    ensures
        r@ == args_join_text(crate::records::args_model(args@), 0),
{
    let ghost am = crate::records::args_model(args@);
    let mut acc = String::new();
    let mut i: usize = args.len();
    proof {
        assert(acc@ =~= args_join_text(am, i as int));
    }
    while i > 0
        invariant
            i <= args@.len(),
            am == crate::records::args_model(args@),
            acc@ == args_join_text(am, i as int),
        decreases i,
    {
        i -= 1;
        let mut item = match &args[i].name {
            Some(n) => String::from_str(n.as_str()),
            None => String::from_str("_"),
        };
        item.append(": ");
        item.append(args[i].type_signature.as_str());
        proof {
            assert(item@ =~= arg_item_text(am[i as int]));
        }
        if i + 1 < args.len() {
            item.append(", ");
            item.append(acc.as_str());
            acc = item;
        } else {
            acc = item;
        }
        proof {
            assert(acc@ =~= args_join_text(am, i as int));
        }
    }
    acc
}

/// The trailing description note, when there is one.
pub open spec fn desc_note_text(d: Option<Seq<char>>) -> Seq<char> {
    match d {
        Some(t) => "<br><em>"@ + spec_html_escape(t) + "</em>"@,
        None => Seq::empty(),
    }
}

fn desc_note(d: &Option<String>) -> (r: String)
    ensures
        r@ == desc_note_text(opt_view(*d)),
{
    match d {
        Some(t) => {
            let mut r = String::from_str("<br><em>");
            r.append(html_escape(t.as_str()).as_str());
            r.append("</em>");
            r
        },
        None => String::new(),
    }
}

/// One method's block: name, inputs, return values if any, description.
pub open spec fn method_text(m: MethodModel) -> Seq<char> {
    "<div class=\"method\">\n<strong>"@ + spec_html_escape(m.name) + "("@ + args_join_text(
        m.arguments,
        0,
    ) + ")</strong>"@ + (if m.return_values.len() > 0 {
        " \u{2192} "@ + args_join_text(m.return_values, 0)
    } else {
        Seq::empty()
    }) + desc_note_text(m.description) + "</div>"@
}

fn method_block(m: &MethodInfo) -> (r: String)
    ensures
        r@ == method_text(crate::records::method_model(*m)),
{
    let mut r = String::from_str("<div class=\"method\">\n<strong>");
    r.append(html_escape(m.name.as_str()).as_str());
    r.append("(");
    r.append(args_join(&m.arguments).as_str());
    r.append(")</strong>");
    if m.return_values.len() > 0 {
        r.append(" \u{2192} ");
        r.append(args_join(&m.return_values).as_str());
    }
    r.append(desc_note(&m.description).as_str());
    r.append("</div>");
    r
}

/// The method blocks from `i` on.
pub open spec fn methods_text(ms: Seq<MethodModel>, i: int) -> Seq<char>
    decreases ms.len() - i,
{
    if !(0 <= i < ms.len()) {
        Seq::empty()
    } else {
        method_text(ms[i]) + methods_text(ms, i + 1)
    }
}

/// One property's block: name, type signature, access mode, description.
pub open spec fn property_text(p: PropertyModel) -> Seq<char> {
    "<div class=\"property\">\n<strong>"@ + spec_html_escape(p.name) + "</strong> "@
        + spec_html_escape(p.type_signature) + " ["@ + spec_html_escape(p.access) + "]"@
        + desc_note_text(p.description) + "</div>"@
}

fn property_block(p: &PropertyInfo) -> (r: String)
    ensures
        r@ == property_text(crate::records::property_model(*p)),
{
    let mut r = String::from_str("<div class=\"property\">\n<strong>");
    r.append(html_escape(p.name.as_str()).as_str());
    r.append("</strong> ");
    r.append(html_escape(p.type_signature.as_str()).as_str());
    r.append(" [");
    r.append(html_escape(p.access.as_str()).as_str());
    r.append("]");
    r.append(desc_note(&p.description).as_str());
    r.append("</div>");
    r
}

/// The property blocks from `i` on.
pub open spec fn properties_text(ps: Seq<PropertyModel>, i: int) -> Seq<char>
    decreases ps.len() - i,
{
    if !(0 <= i < ps.len()) {
        Seq::empty()
    } else {
        property_text(ps[i]) + properties_text(ps, i + 1)
    }
}

/// One signal's block: name, arguments, description.
pub open spec fn signal_text(s: SignalModel) -> Seq<char> {
    "<div class=\"signal\">\n<strong>"@ + spec_html_escape(s.name) + "("@ + args_join_text(
        s.arguments,
        0,
    ) + ")</strong>"@ + desc_note_text(s.description) + "</div>"@
}

fn signal_block(s: &SignalInfo) -> (r: String)
    ensures
        r@ == signal_text(crate::records::signal_model(*s)),
{
    let mut r = String::from_str("<div class=\"signal\">\n<strong>");
    r.append(html_escape(s.name.as_str()).as_str());
    r.append("(");
    r.append(args_join(&s.arguments).as_str());
    r.append(")</strong>");
    r.append(desc_note(&s.description).as_str());
    r.append("</div>");
    r
}

/// The signal blocks from `i` on.
pub open spec fn signals_text(ss: Seq<SignalModel>, i: int) -> Seq<char>
    decreases ss.len() - i,
{
    if !(0 <= i < ss.len()) {
        Seq::empty()
    } else {
        signal_text(ss[i]) + signals_text(ss, i + 1)
    }
}

/// Whether an interface exposes anything at all.
pub open spec fn interface_has_content(f: InterfaceModel) -> bool {
    f.methods.len() > 0 || f.properties.len() > 0 || f.signals.len() > 0
}

/// One interface's section.
pub open spec fn interface_text(f: InterfaceModel) -> Seq<char> {
    "<div class=\"interface\">\n<h4>Interface: "@ + spec_html_escape(f.name) + "</h4>"@ + (
    match f.description {
        Some(d) => "<p><em>"@ + spec_html_escape(d) + "</em></p>"@,
        None => Seq::empty(),
    }) + (if !interface_has_content(f) {
        "<p><em>No exposed methods, properties, or signals</em></p>"@
    } else {
        Seq::empty()
    }) + (if f.methods.len() > 0 {
        "<h5>Methods:</h5>"@ + methods_text(f.methods, 0)
    } else {
        Seq::empty()
    }) + (if f.properties.len() > 0 {
        "<h5>Properties:</h5>"@ + properties_text(f.properties, 0)
    } else {
        Seq::empty()
    }) + (if f.signals.len() > 0 {
        "<h5>Signals:</h5>"@ + signals_text(f.signals, 0)
    } else {
        Seq::empty()
    }) + "</div>"@
}

#[verifier::rlimit(100)]
fn interface_section(f: &InterfaceInfo) -> (r: String)
    ensures
        r@ == interface_text(interface_model(*f)),
{
    let ghost fm = interface_model(*f);
    let mut r = String::from_str("<div class=\"interface\">\n<h4>Interface: ");
    r.append(html_escape(f.name.as_str()).as_str());
    r.append("</h4>");
    match &f.description {
        Some(d) => {
            r.append("<p><em>");
            r.append(html_escape(d.as_str()).as_str());
            r.append("</em></p>");
        },
        None => {},
    }
    let has_content = f.methods.len() > 0 || f.properties.len() > 0 || f.signals.len() > 0;
    proof {
        assert(has_content == interface_has_content(fm));
    }
    if !has_content {
        r.append("<p><em>No exposed methods, properties, or signals</em></p>");
    }
    if f.methods.len() > 0 {
        r.append("<h5>Methods:</h5>");
        let mut acc = String::new();
        let mut i: usize = f.methods.len();
        proof {
            assert(acc@ =~= methods_text(fm.methods, i as int));
        }
        while i > 0
            invariant
                i <= f.methods@.len(),
                fm == interface_model(*f),
                acc@ == methods_text(fm.methods, i as int),
            decreases i,
        {
            i -= 1;
            let mut item = method_block(&f.methods[i]);
            item.append(acc.as_str());
            acc = item;
            proof {
                assert(acc@ =~= methods_text(fm.methods, i as int));
            }
        }
        r.append(acc.as_str());
    }
    if f.properties.len() > 0 {
        r.append("<h5>Properties:</h5>");
        let mut acc = String::new();
        let mut i: usize = f.properties.len();
        proof {
            assert(acc@ =~= properties_text(fm.properties, i as int));
        }
        while i > 0
            invariant
                i <= f.properties@.len(),
                fm == interface_model(*f),
                acc@ == properties_text(fm.properties, i as int),
            decreases i,
        {
            i -= 1;
            let mut item = property_block(&f.properties[i]);
            item.append(acc.as_str());
            acc = item;
            proof {
                assert(acc@ =~= properties_text(fm.properties, i as int));
            }
        }
        r.append(acc.as_str());
    }
    if f.signals.len() > 0 {
        r.append("<h5>Signals:</h5>");
        let mut acc = String::new();
        let mut i: usize = f.signals.len();
        proof {
            assert(acc@ =~= signals_text(fm.signals, i as int));
        }
        while i > 0
            invariant
                i <= f.signals@.len(),
                fm == interface_model(*f),
                acc@ == signals_text(fm.signals, i as int),
            decreases i,
        {
            i -= 1;
            let mut item = signal_block(&f.signals[i]);
            item.append(acc.as_str());
            acc = item;
            proof {
                assert(acc@ =~= signals_text(fm.signals, i as int));
            }
        }
        r.append(acc.as_str());
    }
    r.append("</div>");
    r
}

/// The interface sections from `i` on.
pub open spec fn interfaces_text(fs: Seq<InterfaceModel>, i: int) -> Seq<char>
    decreases fs.len() - i,
{
    if !(0 <= i < fs.len()) {
        Seq::empty()
    } else {
        interface_text(fs[i]) + interfaces_text(fs, i + 1)
    }
}

/// An object's detail view: its error when fetching failed, otherwise every
/// interface with its methods, properties and signals.
pub open spec fn object_details_text(o: ObjectModel) -> Seq<char> {
    match o.error {
        Some(e) => "<div class=\"error\"><strong>Error:</strong> "@ + spec_html_escape(e)
            + "</div>"@,
        None => interfaces_text(o.interfaces, 0),
    }
}

/// The detail view of one object.
pub fn render_object_details(object: &ObjectInfo) -> (r: String)
    ensures
        r@ == object_details_text(object_model(*object)),
{
    let ghost om = object_model(*object);
    match &object.error {
        Some(e) => {
            let mut r = String::from_str("<div class=\"error\"><strong>Error:</strong> ");
            r.append(html_escape(e.as_str()).as_str());
            r.append("</div>");
            r
        },
        None => {
            let mut acc = String::new();
            let mut i: usize = object.interfaces.len();
            proof {
                assert(acc@ =~= interfaces_text(om.interfaces, i as int));
            }
            while i > 0
                invariant
                    i <= object.interfaces@.len(),
                    om == object_model(*object),
                    om.error is None,
                    acc@ == interfaces_text(om.interfaces, i as int),
                decreases i,
            {
                i -= 1;
                let mut item = interface_section(&object.interfaces[i]);
                item.append(acc.as_str());
                acc = item;
                proof {
                    assert(acc@ =~= interfaces_text(om.interfaces, i as int));
                }
            }
            acc
        },
    }
}


// ---------------------------------------------------------------------------
// Object lists
// ---------------------------------------------------------------------------

/// The path as it appears in a page address: the root becomes empty, a
/// leading separator is dropped, anything else is kept as it is.
pub open spec fn url_path_of(path: Seq<char>) -> Seq<char> {
    if path == seq!['/'] {
        Seq::empty()
    } else if path.len() > 0 && path[0] == '/' {
        path.skip(1)
    } else {
        path
    }
}

fn url_path(path: &str) -> (r: String)
    ensures
        r@ == url_path_of(path@),
{
    proof {
        reveal_strlit("/");
        assert("/"@ =~= seq!['/']);
    }
    let n = path.unicode_len();
    if str_eq(path, "/") {
        String::new()
    } else if n > 0 && path.get_char(0) == '/' {
        let r = String::from_str(path.substring_char(1, n));
        proof {
            assert(r@ =~= path@.skip(1));
        }
        r
    } else {
        String::from_str(path)
    }
}

/// The anchor linking to one object's page.
pub open spec fn object_link_text(service: Seq<char>, path: Seq<char>) -> Seq<char> {
    "<a href=\"/local/dbus_explorer/app/service/"@ + url_encoded(service) + "/"@ + url_encoded(
        url_path_of(path),
    ) + "\">"@ + spec_html_escape(path) + "</a>"@
}

fn object_link(service: &str, path: &str) -> (r: String)
    ensures
        r@ == object_link_text(service@, path@),
{
    let mut r = String::from_str("<a href=\"/local/dbus_explorer/app/service/");
    r.append(url_encode(service).as_str());
    r.append("/");
    r.append(url_encode(url_path(path).as_str()).as_str());
    r.append("\">");
    r.append(html_escape(path).as_str());
    r.append("</a>");
    r
}

/// How many interfaces from `i` on expose anything.
pub open spec fn content_count(fs: Seq<InterfaceModel>, i: int) -> int
    decreases fs.len() - i,
{
    if !(0 <= i < fs.len()) {
        0
    } else if interface_has_content(fs[i]) {
        1 + content_count(fs, i + 1)
    } else {
        content_count(fs, i + 1)
    }
}

/// The note after an object link summarizing its interfaces.
pub open spec fn count_note_text(total: nat, with_content: nat) -> Seq<char> {
    if total == 0 {
        Seq::empty()
    } else {
        let plural: Seq<char> = if total == 1 {
            ""@
        } else {
            "s"@
        };
        if with_content == total {
            " <em>("@ + spec_udec(total) + " interface"@ + plural + ")</em>"@
        } else if with_content > 0 {
            " <em>("@ + spec_udec(with_content) + " of "@ + spec_udec(total) + " interface"@
                + plural + " with content)</em>"@
        } else {
            " <em>("@ + spec_udec(total) + " interface"@ + plural + ", no content)</em>"@
        }
    }
}

/// One object's entry in a list of objects: a link with an interface
/// summary when it exposes interfaces, a plain marker when it only serves
/// navigation.
pub open spec fn object_item_text(service: Seq<char>, o: ObjectModel) -> Seq<char> {
    "<li>"@ + (if content_count(o.interfaces, 0) > 0 {
        object_link_text(service, o.path) + count_note_text(
            o.interfaces.len(),
            content_count(o.interfaces, 0) as nat,
        )
    } else {
        "<strong>"@ + spec_html_escape(o.path) + "</strong> <em>(navigation only)</em>"@
    }) + "</li>"@
}

fn interfaces_with_content(fs: &Vec<InterfaceInfo>) -> (r: usize)
    ensures
        r as int == content_count(crate::records::interfaces_model(fs@), 0),
        r <= fs@.len(),
{
    let ghost fm = crate::records::interfaces_model(fs@);
    let mut count: usize = 0;
    let mut i: usize = fs.len();
    proof {
        assert(count as int == content_count(fm, i as int));
    }
    while i > 0
        invariant
            i <= fs@.len(),
            fm == crate::records::interfaces_model(fs@),
            count as int == content_count(fm, i as int),
            count + i <= fs@.len() <= usize::MAX,
        decreases i,
    {
        i -= 1;
        let f = &fs[i];
        if f.methods.len() > 0 || f.properties.len() > 0 || f.signals.len() > 0 {
            count += 1;
        }
        proof {
            assert(count as int == content_count(fm, i as int));
        }
    }
    count
}

fn object_item(service: &str, o: &ObjectInfo) -> (r: String)
    ensures
        r@ == object_item_text(service@, object_model(*o)),
{
    let ghost om = object_model(*o);
    proof {
        assert(om.interfaces =~= crate::records::interfaces_model(o.interfaces@));
    }
    let with_content = interfaces_with_content(&o.interfaces);
    let mut r = String::from_str("<li>");
    if with_content > 0 {
        r.append(object_link(service, o.path.as_str()).as_str());
        let total = o.interfaces.len();
        if total > 0 {
            let plural: &str = if total == 1 {
                ""
            } else {
                "s"
            };
            if with_content == total {
                r.append(" <em>(");
                r.append(usize_to_string(total).as_str());
                r.append(" interface");
                r.append(plural);
                r.append(")</em>");
            } else if with_content > 0 {
                r.append(" <em>(");
                r.append(usize_to_string(with_content).as_str());
                r.append(" of ");
                r.append(usize_to_string(total).as_str());
                r.append(" interface");
                r.append(plural);
                r.append(" with content)</em>");
            } else {
                r.append(" <em>(");
                r.append(usize_to_string(total).as_str());
                r.append(" interface");
                r.append(plural);
                r.append(", no content)</em>");
            }
        }
    } else {
        r.append("<strong>");
        r.append(html_escape(o.path.as_str()).as_str());
        r.append("</strong> <em>(navigation only)</em>");
    }
    r.append("</li>");
    r
}

/// The entries of the flattened object list from `i` on; a failed object is
/// left out here and reported separately.
pub open spec fn flat_items_text(service: Seq<char>, objs: Seq<ObjectModel>, i: int) -> Seq<char>
    decreases objs.len() - i,
{
    if !(0 <= i < objs.len()) {
        Seq::empty()
    } else if objs[i].error is Some {
        flat_items_text(service, objs, i + 1)
    } else {
        object_item_text(service, objs[i]) + flat_items_text(service, objs, i + 1)
    }
}

/// The flattened list of one service's reachable objects, sorted by path,
/// each linking to its page.
pub fn build_object_flat_list(objects: &Vec<ObjectInfo>, service_name: &str) -> (r: String)
    ensures
        exists|sorted: Seq<ObjectModel>|
            #[trigger] sorted.to_multiset() == objects_model(objects@).to_multiset() && (
            forall|i: int, j: int|
                0 <= i < j < sorted.len() ==> crate::chars::lex_leq(
                    (#[trigger] sorted[i]).path,
                    (#[trigger] sorted[j]).path,
                )) && r@ == "<ul>"@ + flat_items_text(service_name@, sorted, 0) + "</ul>"@,
{
    let mut refs: Vec<&ObjectInfo> = Vec::new();
    let mut i: usize = 0;
    proof {
        assert(objects_model(objects@).take(0) =~= Seq::<ObjectModel>::empty());
        assert(ref_models(refs@) =~= objects_model(objects@).take(0));
    }
    while i < objects.len()
        invariant
            i <= objects@.len(),
            ref_models(refs@) == objects_model(objects@).take(i as int),
        decreases objects@.len() - i,
    {
        let ghost before = ref_models(refs@);
        refs.push(&objects[i]);
        proof {
            assert(ref_models(refs@) =~= before.push(objects_model(objects@)[i as int]));
            assert(objects_model(objects@).take(i + 1) =~= objects_model(objects@).take(
                i as int,
            ).push(objects_model(objects@)[i as int]));
        }
        i += 1;
    }
    proof {
        assert(objects_model(objects@).take(objects@.len() as int) =~= objects_model(objects@));
    }
    let sorted_refs = sort_objects_by_path(refs);
    let ghost sorted = ref_models(sorted_refs@);
    let mut items = String::new();
    let mut k: usize = sorted_refs.len();
    proof {
        assert(items@ =~= flat_items_text(service_name@, sorted, k as int));
    }
    while k > 0
        invariant
            k <= sorted_refs@.len(),
            sorted == ref_models(sorted_refs@),
            items@ == flat_items_text(service_name@, sorted, k as int),
        decreases k,
    {
        k -= 1;
        let o = sorted_refs[k];
        if o.error.is_none() {
            let mut item = object_item(service_name, o);
            item.append(items.as_str());
            items = item;
        }
        proof {
            assert(items@ =~= flat_items_text(service_name@, sorted, k as int));
        }
    }
    let mut r = String::from_str("<ul>");
    r.append(items.as_str());
    r.append("</ul>");
    r
}

/// The entries of a child-object list from `i` on; children are handed in
/// already selected, so nothing is skipped.
pub open spec fn child_items_text(service: Seq<char>, objs: Seq<ObjectModel>, i: int) -> Seq<char>
    decreases objs.len() - i,
{
    if !(0 <= i < objs.len()) {
        Seq::empty()
    } else {
        object_item_text(service, objs[i]) + child_items_text(service, objs, i + 1)
    }
}

/// The section linking to an object's direct children, empty when there are
/// none.
pub open spec fn child_links_text(service: Seq<char>, objs: Seq<ObjectModel>) -> Seq<char> {
    if objs.len() == 0 {
        Seq::empty()
    } else {
        "<h2>Child Objects</h2><ul>"@ + child_items_text(service, objs, 0) + "</ul>"@
    }
}

/// The child-object section of an object's page.
pub fn render_child_object_links(child_objects: &Vec<&ObjectInfo>, service_name: &str) -> (r:
    String)
    ensures
        r@ == child_links_text(service_name@, ref_models(child_objects@)),
{
    let ghost cm = ref_models(child_objects@);
    if child_objects.len() == 0 {
        return String::new();
    }
    let mut items = String::new();
    let mut k: usize = child_objects.len();
    proof {
        assert(items@ =~= child_items_text(service_name@, cm, k as int));
    }
    while k > 0
        invariant
            k <= child_objects@.len(),
            cm == ref_models(child_objects@),
            items@ == child_items_text(service_name@, cm, k as int),
        decreases k,
    {
        k -= 1;
        let mut item = object_item(service_name, child_objects[k]);
        item.append(items.as_str());
        items = item;
        proof {
            assert(items@ =~= child_items_text(service_name@, cm, k as int));
        }
    }
    let mut r = String::from_str("<h2>Child Objects</h2><ul>");
    r.append(items.as_str());
    r.append("</ul>");
    r
}

// ---------------------------------------------------------------------------
// Page bodies
// ---------------------------------------------------------------------------

/// The failed-object entries from `i` on.
pub open spec fn error_items_text(objs: Seq<ObjectModel>, i: int) -> Seq<char>
    decreases objs.len() - i,
{
    if !(0 <= i < objs.len()) {
        Seq::empty()
    } else {
        (match objs[i].error {
            Some(e) => "<li><strong>"@ + spec_html_escape(objs[i].path) + "</strong>: "@
                + spec_html_escape(e) + "</li>"@,
            None => Seq::empty(),
        }) + error_items_text(objs, i + 1)
    }
}

/// Whether any object carries an error.
pub open spec fn has_error_object(objs: Seq<ObjectModel>) -> bool {
    exists|k: int| 0 <= k < objs.len() && (#[trigger] objs[k]).error is Some
}

/// The failed-objects section, empty when every object was fetched.
pub open spec fn error_objects_text(objs: Seq<ObjectModel>) -> Seq<char> {
    if has_error_object(objs) {
        "<h2>Objects with Errors</h2><ul>"@ + error_items_text(objs, 0) + "</ul>"@
    } else {
        Seq::empty()
    }
}

/// The opening of a service page: the owner when one was resolved.
pub open spec fn owner_note_text(owner: Option<Seq<char>>) -> Seq<char> {
    match owner {
        Some(o) => "<div class=\"service-info\"><strong>Service Owner:</strong> "@
            + spec_html_escape(o) + "</div>"@,
        None => Seq::empty(),
    }
}

/// The error banner of a page.
pub open spec fn error_banner_text(e: Seq<char>) -> Seq<char> {
    "<div class=\"error\"><strong>Error:</strong> "@ + spec_html_escape(e) + "</div>"@
}

/// One service's page body: its owner, then either its top-level error or
/// the flattened object list followed by the objects that failed.
pub fn render_service_content(service_info: &ServiceInfo, service_name: &str) -> (r: String)
    ensures
        ({
            let m = service_model(*service_info);
            match m.error {
                Some(e) => r@ == owner_note_text(m.owner) + error_banner_text(e),
                None => exists|sorted: Seq<ObjectModel>|
                    #[trigger] sorted.to_multiset() == m.objects.to_multiset() && (forall|
                        i: int,
                        j: int,
                    |
                        0 <= i < j < sorted.len() ==> crate::chars::lex_leq(
                            (#[trigger] sorted[i]).path,
                            (#[trigger] sorted[j]).path,
                        )) && r@ == owner_note_text(m.owner) + "<h2>Objects</h2>"@ + "<ul>"@
                        + flat_items_text(service_name@, sorted, 0) + "</ul>"@
                        + error_objects_text(m.objects),
            }
        }),
{
    let ghost m = service_model(*service_info);
    let mut r = String::new();
    match &service_info.owner {
        Some(o) => {
            r.append("<div class=\"service-info\"><strong>Service Owner:</strong> ");
            r.append(html_escape(o.as_str()).as_str());
            r.append("</div>");
        },
        None => {},
    }
    proof {
        assert(r@ =~= owner_note_text(m.owner));
    }
    match &service_info.error {
        Some(e) => {
            r.append("<div class=\"error\"><strong>Error:</strong> ");
            r.append(html_escape(e.as_str()).as_str());
            r.append("</div>");
            return r;
        },
        None => {},
    }
    r.append("<h2>Objects</h2>");
    r.append(build_object_flat_list(&service_info.objects, service_name).as_str());
    proof {
        assert(m.objects =~= objects_model(service_info.objects@));
    }
    let mut has_err = false;
    let mut i: usize = 0;
    while i < service_info.objects.len()
        invariant
            i <= service_info.objects@.len(),
            m == service_model(*service_info),
            has_err == (exists|k: int|
                0 <= k < i && (#[trigger] objects_model(service_info.objects@)[k]).error
                    is Some),
        decreases service_info.objects@.len() - i,
    {
        if service_info.objects[i].error.is_some() {
            has_err = true;
            proof {
                assert((objects_model(service_info.objects@)[i as int]).error is Some);
            }
        }
        i += 1;
    }
    proof {
        assert(has_err == has_error_object(m.objects));
    }
    if has_err {
        r.append("<h2>Objects with Errors</h2><ul>");
        let mut items = String::new();
        let mut k: usize = service_info.objects.len();
        proof {
            assert(items@ =~= error_items_text(m.objects, k as int));
        }
        while k > 0
            invariant
                k <= service_info.objects@.len(),
                m == service_model(*service_info),
                items@ == error_items_text(m.objects, k as int),
            decreases k,
        {
            k -= 1;
            let o = &service_info.objects[k];
            match &o.error {
                Some(e) => {
                    let mut item = String::from_str("<li><strong>");
                    item.append(html_escape(o.path.as_str()).as_str());
                    item.append("</strong>: ");
                    item.append(html_escape(e.as_str()).as_str());
                    item.append("</li>");
                    item.append(items.as_str());
                    items = item;
                },
                None => {},
            }
            proof {
                assert(items@ =~= error_items_text(m.objects, k as int));
            }
        }
        r.append(items.as_str());
        r.append("</ul>");
    }
    r
}

/// One service's block in the flattened all-services view.
pub open spec fn service_block_text(s: ServiceModel) -> Seq<char> {
    "<h2>Service: "@ + spec_html_escape(s.name) + "</h2>"@ + (match s.error {
        Some(e) => error_banner_text(e),
        None => service_objects_text(s.objects, 0),
    })
}

/// The object blocks of one service from `i` on.
pub open spec fn service_objects_text(objs: Seq<ObjectModel>, i: int) -> Seq<char>
    decreases objs.len() - i,
{
    if !(0 <= i < objs.len()) {
        Seq::empty()
    } else {
        "<h3>Object: "@ + spec_html_escape(objs[i].path) + "</h3>"@ + object_details_text(
            objs[i],
        ) + service_objects_text(objs, i + 1)
    }
}

/// The service blocks from `i` on.
pub open spec fn services_blocks_text(svcs: Seq<ServiceModel>, i: int) -> Seq<char>
    decreases svcs.len() - i,
{
    if !(0 <= i < svcs.len()) {
        Seq::empty()
    } else {
        service_block_text(svcs[i]) + services_blocks_text(svcs, i + 1)
    }
}

/// The body of the all-services page: every service with its full object
/// details, or its error.
pub fn render_all_services_content(services: &Vec<ServiceInfo>) -> (r: String)
    ensures
        r@ == services_blocks_text(crate::discovery::services_model(services@), 0),
{
    let ghost sm = crate::discovery::services_model(services@);
    let mut acc = String::new();
    let mut i: usize = services.len();
    proof {
        assert(acc@ =~= services_blocks_text(sm, i as int));
    }
    while i > 0
        invariant
            i <= services@.len(),
            sm == crate::discovery::services_model(services@),
            acc@ == services_blocks_text(sm, i as int),
        decreases i,
    {
        i -= 1;
        let s = &services[i];
        let mut block = String::from_str("<h2>Service: ");
        block.append(html_escape(s.name.as_str()).as_str());
        block.append("</h2>");
        match &s.error {
            Some(e) => {
                block.append("<div class=\"error\"><strong>Error:</strong> ");
                block.append(html_escape(e.as_str()).as_str());
                block.append("</div>");
            },
            None => {
                let ghost om = objects_model(s.objects@);
                proof {
                    assert(om =~= sm[i as int].objects);
                }
                let mut objs = String::new();
                let mut k: usize = s.objects.len();
                proof {
                    assert(objs@ =~= service_objects_text(om, k as int));
                }
                while k > 0
                    invariant
                        k <= s.objects@.len(),
                        om == objects_model(s.objects@),
                        objs@ == service_objects_text(om, k as int),
                    decreases k,
                {
                    k -= 1;
                    let o = &s.objects[k];
                    let mut ob = String::from_str("<h3>Object: ");
                    ob.append(html_escape(o.path.as_str()).as_str());
                    ob.append("</h3>");
                    ob.append(render_object_details(o).as_str());
                    ob.append(objs.as_str());
                    objs = ob;
                    proof {
                        assert(objs@ =~= service_objects_text(om, k as int));
                    }
                }
                block.append(objs.as_str());
            },
        }
        block.append(acc.as_str());
        acc = block;
        proof {
            assert(acc@ =~= services_blocks_text(sm, i as int));
        }
    }
    acc
}


// ---------------------------------------------------------------------------
// Breadcrumbs
// ---------------------------------------------------------------------------

/// The non-empty segments of `s` between path separators, from `i` on,
/// with `cur` the partial segment read so far.
pub open spec fn split_segments(s: Seq<char>, i: int, cur: Seq<char>) -> Seq<Seq<char>>
    decreases s.len() - i,
{
    if !(0 <= i < s.len()) {
        if cur.len() > 0 {
            seq![cur]
        } else {
            Seq::empty()
        }
    } else if s[i] == '/' {
        (if cur.len() > 0 {
            seq![cur]
        } else {
            Seq::empty()
        }) + split_segments(s, i + 1, Seq::empty())
    } else {
        split_segments(s, i + 1, cur.push(s[i]))
    }
}

fn path_segments(path: &str) -> (r: Vec<String>)
    ensures
        strs_view(r@) == split_segments(path@, 0, Seq::empty()),
{
    let chars = str_to_chars(path);
    let mut segs: Vec<String> = Vec::new();
    let mut cur: Vec<char> = Vec::new();
    let mut i: usize = 0;
    proof {
        assert(strs_view(segs@) =~= Seq::<Seq<char>>::empty());
        assert(strs_view(segs@) + split_segments(path@, i as int, cur@) =~= split_segments(
            path@,
            0,
            Seq::empty(),
        ));
    }
    while i < chars.len()
        invariant
            i <= chars@.len(),
            chars@ == path@,
            strs_view(segs@) + split_segments(path@, i as int, cur@) == split_segments(
                path@,
                0,
                Seq::empty(),
            ),
        decreases chars@.len() - i,
    {
        let ghost segs0 = strs_view(segs@);
        let ghost cur0 = cur@;
        let c = chars[i];
        if c == '/' {
            if cur.len() > 0 {
                let seg = chars_to_string(&cur);
                segs.push(seg);
                cur = Vec::new();
                proof {
                    assert(strs_view(segs@) =~= segs0.push(cur0));
                    assert(strs_view(segs@) + split_segments(path@, i + 1, cur@)
                        =~= segs0 + split_segments(path@, i as int, cur0));
                }
            } else {
                proof {
                    assert(cur0 =~= Seq::<char>::empty());
                    assert(strs_view(segs@) + split_segments(path@, i + 1, cur@)
                        =~= segs0 + split_segments(path@, i as int, cur0));
                }
            }
        } else {
            cur.push(c);
            proof {
                assert(cur@ =~= cur0.push(path@[i as int]));
                assert(strs_view(segs@) + split_segments(path@, i + 1, cur@)
                    =~= segs0 + split_segments(path@, i as int, cur0));
            }
        }
        i += 1;
    }
    if cur.len() > 0 {
        let ghost segs0 = strs_view(segs@);
        let ghost cur0 = cur@;
        let seg = chars_to_string(&cur);
        segs.push(seg);
        proof {
            assert(strs_view(segs@) =~= segs0.push(cur0));
            assert(strs_view(segs@) =~= segs0 + split_segments(path@, path@.len() as int, cur0));
        }
    } else {
        proof {
            assert(strs_view(segs@) =~= strs_view(segs@) + split_segments(
                path@,
                path@.len() as int,
                cur@,
            ));
        }
    }
    segs
}

/// The path made of the first `k + 1` segments, separators restored.
pub open spec fn prefix_path(segs: Seq<Seq<char>>, k: int) -> Seq<char>
    decreases k,
{
    if k <= 0 {
        seq!['/'] + segs[0]
    } else {
        prefix_path(segs, k - 1) + seq!['/'] + segs[k]
    }
}

/// One breadcrumb: the last segment is plain text, every other one links
/// to its own page.
pub open spec fn crumb_text(service: Seq<char>, segs: Seq<Seq<char>>, k: int) -> Seq<char> {
    if k == segs.len() - 1 {
        spec_html_escape(segs[k])
    } else {
        "<a href=\"/local/dbus_explorer/app/service/"@ + url_encoded(service) + "/"@
            + url_encoded(prefix_path(segs, k).skip(1)) + "\">"@ + spec_html_escape(segs[k])
            + "</a>"@
    }
}

/// The separator-prefixed breadcrumbs from `k` on.
pub open spec fn crumbs_text(service: Seq<char>, segs: Seq<Seq<char>>, k: int) -> Seq<char>
    decreases segs.len() - k,
{
    if !(0 <= k < segs.len()) {
        Seq::empty()
    } else {
        " / "@ + crumb_text(service, segs, k) + crumbs_text(service, segs, k + 1)
    }
}

/// The home link every page's navigation opens with.
pub open spec fn home_link_text() -> Seq<char> {
    "<a href=\"/local/dbus_explorer/app\">Home</a>"@
}

/// The link to a service's own page.
pub open spec fn service_link_text(service: Seq<char>) -> Seq<char> {
    "<a href=\"/local/dbus_explorer/app/service/"@ + url_encoded(service) + "\">"@
        + spec_html_escape(service) + "</a>"@
}

/// The navigation bar of an object's page.
pub open spec fn breadcrumb_text(service: Seq<char>, path: Seq<char>) -> Seq<char> {
    "<div class=\"navigation\">"@ + home_link_text() + " / "@ + service_link_text(service) + (
    if path == seq!['/'] {
        " / /"@
    } else {
        crumbs_text(service, split_segments(path, 0, Seq::empty()), 0)
    }) + "</div>"@
}

/// The navigation bar for one object page: home, the service, and one
/// crumb per path segment, the last one unlinked.
pub fn build_breadcrumb_navigation(service_name: &str, object_path: &str) -> (r: String)
    ensures
        r@ == breadcrumb_text(service_name@, object_path@),
{
    proof {
        reveal_strlit("/");
        assert("/"@ =~= seq!['/']);
    }
    let mut r = String::from_str("<div class=\"navigation\">");
    r.append("<a href=\"/local/dbus_explorer/app\">Home</a>");
    r.append(" / ");
    r.append("<a href=\"/local/dbus_explorer/app/service/");
    r.append(url_encode(service_name).as_str());
    r.append("\">");
    r.append(html_escape(service_name).as_str());
    r.append("</a>");
    if str_eq(object_path, "/") {
        r.append(" / /");
    } else {
        let segs = path_segments(object_path);
        let ghost segs_v = strs_view(segs@);
        let mut cp = String::new();
        let mut k: usize = 0;
        let ghost base = r@;
        proof {
            assert(base + crumbs_text(service_name@, segs_v, 0) =~= base + crumbs_text(
                service_name@,
                segs_v,
                k as int,
            ));
        }
        while k < segs.len()
            invariant
                k <= segs@.len(),
                segs_v == strs_view(segs@),
                k == 0 ==> cp@ =~= Seq::<char>::empty(),
                k > 0 ==> cp@ == prefix_path(segs_v, k - 1),
                r@ + crumbs_text(service_name@, segs_v, k as int) == base + crumbs_text(
                    service_name@,
                    segs_v,
                    0,
                ),
            decreases segs@.len() - k,
        {
            let ghost r0 = r@;
            let ghost cp0 = cp@;
            cp.append("/");
            cp.append(segs[k].as_str());
            proof {
                reveal_strlit("/");
                assert("/"@ =~= seq!['/']);
                if k == 0 {
                    assert(cp0 =~= Seq::<char>::empty());
                    assert(cp@ =~= seq!['/'] + segs_v[0]);
                } else {
                    assert(cp@ =~= prefix_path(segs_v, k - 1) + seq!['/'] + segs_v[k as int]);
                }
                assert(cp@ == prefix_path(segs_v, k as int));
            }
            r.append(" / ");
            if k + 1 == segs.len() {
                r.append(html_escape(segs[k].as_str()).as_str());
            } else {
                r.append("<a href=\"/local/dbus_explorer/app/service/");
                r.append(url_encode(service_name).as_str());
                r.append("/");
                let n = cp.unicode_len();
                proof {
                    assert(cp@.len() > 0);
                }
                r.append(url_encode(cp.as_str().substring_char(1, n)).as_str());
                r.append("\">");
                r.append(html_escape(segs[k].as_str()).as_str());
                r.append("</a>");
            }
            proof {
                assert(r@ =~= r0 + (" / "@ + crumb_text(service_name@, segs_v, k as int)));
                assert(r@ + crumbs_text(service_name@, segs_v, k + 1) =~= r0 + crumbs_text(
                    service_name@,
                    segs_v,
                    k as int,
                ));
            }
            k += 1;
        }
        proof {
            assert(r@ =~= base + crumbs_text(service_name@, segs_v, 0));
        }
    }
    r.append("</div>");
    proof {
        assert(r@ =~= breadcrumb_text(service_name@, object_path@));
    }
    r
}

} // verus!
