use vstd::prelude::*;

use crate::chars::{chars_eq_str, chars_to_string, str_to_chars, sub_chars};
use crate::seqs::lemma_filter_step;
use crate::records::{arg_model, args_model, interface_model, interfaces_model, method_model,
    opt_view, property_model, signal_model, strs_view, ArgumentInfo, ArgumentModel, InterfaceInfo,
    InterfaceModel, MethodInfo, MethodModel, PropertyInfo, PropertyModel, SignalInfo, SignalModel};
use crate::xml::{attrs_view, elem_view, elems_view, parse_document, SpecAttr, SpecElem, XmlAttr,
    XmlElem, spec_document};

verus! {

// ===========================================================================
// Schema-document decoding, stage two: from the element tree to records.
//
// A decoded schema lists the interfaces of one object and the names of its
// child nodes.  Unrecognized elements are ignored for forward compatibility;
// a recognized element missing a required attribute makes the whole document
// malformed.  Descriptions come from the documentation-convention annotation
// key, first occurrence in document order winning.  Method arguments
// explicitly marked "out" become return values; everything else, marked or
// not, stays an input argument.  Signal arguments keep their direction tag
// and are never partitioned.
// ===========================================================================

/// The documentation-convention annotation key that carries descriptions.
pub open spec fn description_key() -> Seq<char> {
    "org.freedesktop.DBus.Description"@
}

/// The model of a decoded schema.
#[verifier::ext_equal]
pub struct SchemaModel {
    pub interfaces: Seq<InterfaceModel>,
    pub child_nodes: Seq<Seq<char>>,
}

// ---------------------------------------------------------------------------
// Attribute lookup
// ---------------------------------------------------------------------------

/// The value of the first attribute at or after `i` named `name`.
pub open spec fn spec_find_attr(attrs: Seq<SpecAttr>, i: int, name: Seq<char>) -> Option<Seq<char>>
    decreases attrs.len() - i,
{
    if !(0 <= i < attrs.len()) {
        None
    } else if attrs[i].name == name {
        Some(attrs[i].value)
    } else {
        spec_find_attr(attrs, i + 1, name)
    }
}

fn find_attr(attrs: &Vec<XmlAttr>, i: usize, name: &str) -> (r: Option<Vec<char>>)
    requires
        i <= attrs@.len(),
    ensures
        match (r, spec_find_attr(attrs_view(attrs@), i as int, name@)) {
            (Some(v), Some(m)) => v@ == m,
            (None, None) => true,
            _ => false,
        },
    decreases attrs@.len() - i,
{
    if i >= attrs.len() {
        None
    } else if chars_eq_str(&attrs[i].name, name) {
        let v = sub_chars(&attrs[i].value, 0, attrs[i].value.len());
        proof {
            assert(v@ =~= attrs@[i as int].value@);
        }
        Some(v)
    } else {
        find_attr(attrs, i + 1, name)
    }
}

fn opt_string_of(o: Option<Vec<char>>) -> (r: Option<String>)
    ensures
        opt_view(r) == match o {
            Some(v) => Some(v@),
            None => None::<Seq<char>>,
        },
{
    match o {
        Some(v) => Some(chars_to_string(&v)),
        None => None,
    }
}

// ---------------------------------------------------------------------------
// Arguments
// ---------------------------------------------------------------------------

/// Whether an argument is explicitly marked "out".
pub open spec fn arg_is_out(a: ArgumentModel) -> bool {
    a.direction == Some("out"@)
}

/// The argument an `arg` element denotes; its type attribute is required.
pub open spec fn spec_arg_of(e: SpecElem) -> Option<ArgumentModel> {
    match spec_find_attr(e.attrs, 0, "type"@) {
        Some(t) => Some(
            ArgumentModel {
                name: spec_find_attr(e.attrs, 0, "name"@),
                type_signature: t,
                direction: spec_find_attr(e.attrs, 0, "direction"@),
                description: None,
            },
        ),
        None => None,
    }
}

fn arg_record(e: &XmlElem) -> (r: Option<ArgumentInfo>)
    ensures
        match (r, spec_arg_of(elem_view(*e))) {
            (Some(a), Some(m)) => arg_model(a) == m,
            (None, None) => true,
            _ => false,
        },
{
    match find_attr(&e.attrs, 0, "type") {
        Some(t) => {
            let name = opt_string_of(find_attr(&e.attrs, 0, "name"));
            let direction = opt_string_of(find_attr(&e.attrs, 0, "direction"));
            Some(
                ArgumentInfo {
                    name,
                    type_signature: chars_to_string(&t),
                    direction,
                    description: None,
                },
            )
        },
        None => None,
    }
}

/// The arguments denoted by the `arg` children at or after `i`, in order.
pub open spec fn spec_args_of(kids: Seq<SpecElem>, i: int) -> Option<Seq<ArgumentModel>>
    decreases kids.len() - i,
{
    if !(0 <= i < kids.len()) {
        Some(Seq::empty())
    } else if kids[i].name == "arg"@ {
        match spec_arg_of(kids[i]) {
            Some(a) => match spec_args_of(kids, i + 1) {
                Some(rest) => Some(seq![a] + rest),
                None => None,
            },
            None => None,
        }
    } else {
        spec_args_of(kids, i + 1)
    }
}

fn args_from(kids: &Vec<XmlElem>, i: usize) -> (r: Option<Vec<ArgumentInfo>>)
    requires
        i <= kids@.len(),
    ensures
        match (r, spec_args_of(elems_view(kids@), i as int)) {
            (Some(v), Some(m)) => args_model(v@) == m,
            (None, None) => true,
            _ => false,
        },
    decreases kids@.len() - i,
{
    if i >= kids.len() {
        let v: Vec<ArgumentInfo> = Vec::new();
        proof {
            assert(args_model(v@) =~= Seq::<ArgumentModel>::empty());
        }
        Some(v)
    } else if chars_eq_str(&kids[i].name, "arg") {
        match arg_record(&kids[i]) {
            Some(a) => match args_from(kids, i + 1) {
                Some(mut rest) => {
                    let ghost head = arg_model(a);
                    let ghost tail = rest@;
                    rest.insert(0, a);
                    proof {
                        assert(args_model(rest@) =~= seq![head] + args_model(tail));
                    }
                    Some(rest)
                },
                None => None,
            },
            None => None,
        }
    } else {
        args_from(kids, i + 1)
    }
}

/// The "out"-marked arguments, in order.
pub open spec fn out_args(args: Seq<ArgumentModel>) -> Seq<ArgumentModel> {
    args.filter(|a: ArgumentModel| arg_is_out(a))
}

/// The arguments not marked "out", in order.
pub open spec fn in_args(args: Seq<ArgumentModel>) -> Seq<ArgumentModel> {
    args.filter(|a: ArgumentModel| !arg_is_out(a))
}

/// A copy of an optional string with the same text.
fn clone_opt_string(o: &Option<String>) -> (r: Option<String>)
    ensures
        opt_view(r) == opt_view(*o),
{
    match o {
        Some(s) => Some(s.clone()),
        None => None,
    }
}

/// A copy of an argument record with the same model.
fn clone_arg(a: &ArgumentInfo) -> (r: ArgumentInfo)
    ensures
        arg_model(r) == arg_model(*a),
{
    ArgumentInfo {
        name: clone_opt_string(&a.name),
        type_signature: a.type_signature.clone(),
        direction: clone_opt_string(&a.direction),
        description: clone_opt_string(&a.description),
    }
}

/// Splits a method's arguments: explicitly "out"-marked ones become return
/// values, everything else stays an input argument.
pub fn split_args(args: Vec<ArgumentInfo>) -> (r: (Vec<ArgumentInfo>, Vec<ArgumentInfo>))
    ensures
        args_model(r.0@) == in_args(args_model(args@)),
        args_model(r.1@) == out_args(args_model(args@)),
{
    let ghost all = args_model(args@);
    let mut ins: Vec<ArgumentInfo> = Vec::new();
    let mut outs: Vec<ArgumentInfo> = Vec::new();
    let mut i: usize = 0;
    proof {
        reveal(Seq::filter);
        assert(all.take(0) =~= Seq::<ArgumentModel>::empty());
        assert(args_model(ins@) =~= in_args(all.take(0)));
        assert(args_model(outs@) =~= out_args(all.take(0)));
    }
    while i < args.len()
        invariant
            i <= args@.len(),
            all == args_model(args@),
            args_model(ins@) == in_args(all.take(i as int)),
            args_model(outs@) == out_args(all.take(i as int)),
        decreases args@.len() - i,
    {
        let a = clone_arg(&args[i]);
        proof {
            assert(arg_model(a) == all[i as int]);
        }
        let is_out = match &a.direction {
            Some(d) => crate::chars::str_eq(d.as_str(), "out"),
            None => false,
        };
        proof {
            assert(is_out == arg_is_out(all[i as int]));
            assert(all.take(i + 1) =~= all.take(i as int).push(all[i as int]));
            lemma_filter_step(
                all.take(i as int),
                all[i as int],
                |x: ArgumentModel| arg_is_out(x),
            );
            lemma_filter_step(
                all.take(i as int),
                all[i as int],
                |x: ArgumentModel| !arg_is_out(x),
            );
        }
        if is_out {
            let ghost before = outs@;
            outs.push(a);
            proof {
                assert(args_model(outs@) =~= args_model(before).push(arg_model(a)));
            }
        } else {
            let ghost before = ins@;
            ins.push(a);
            proof {
                assert(args_model(ins@) =~= args_model(before).push(arg_model(a)));
            }
        }
        i += 1;
    }
    proof {
        assert(all.take(args@.len() as int) =~= all);
    }
    (ins, outs)
}

// ---------------------------------------------------------------------------
// Descriptions from annotations
// ---------------------------------------------------------------------------

/// Scans the `annotation` children at or after `i`.  Every annotation must
/// carry a name and a value; the result is the value of the first one whose
/// name is the documentation key, if any.  The outer option is the fault.
pub open spec fn spec_desc_of(kids: Seq<SpecElem>, i: int) -> Option<Option<Seq<char>>>
    decreases kids.len() - i,
{
    if !(0 <= i < kids.len()) {
        Some(None)
    } else if kids[i].name == "annotation"@ {
        match (
            spec_find_attr(kids[i].attrs, 0, "name"@),
            spec_find_attr(kids[i].attrs, 0, "value"@),
        ) {
            (Some(an), Some(av)) => match spec_desc_of(kids, i + 1) {
                Some(rest) => if an == description_key() {
                    Some(Some(av))
                } else {
                    Some(rest)
                },
                None => None,
            },
            _ => None,
        }
    } else {
        spec_desc_of(kids, i + 1)
    }
}

fn desc_from(kids: &Vec<XmlElem>, i: usize) -> (r: Option<Option<String>>)
    requires
        i <= kids@.len(),
    ensures
        match (r, spec_desc_of(elems_view(kids@), i as int)) {
            (Some(d), Some(m)) => opt_view(d) == m,
            (None, None) => true,
            _ => false,
        },
    decreases kids@.len() - i,
{
    if i >= kids.len() {
        Some(None)
    } else if chars_eq_str(&kids[i].name, "annotation") {
        let an = find_attr(&kids[i].attrs, 0, "name");
        let av = find_attr(&kids[i].attrs, 0, "value");
        match (an, av) {
            (Some(an), Some(av)) => match desc_from(kids, i + 1) {
                Some(rest) => if chars_eq_str(&an, "org.freedesktop.DBus.Description") {
                    Some(Some(chars_to_string(&av)))
                } else {
                    Some(rest)
                },
                None => None,
            },
            _ => None,
        }
    } else {
        desc_from(kids, i + 1)
    }
}


// ---------------------------------------------------------------------------
// Methods, properties and signals
// ---------------------------------------------------------------------------

/// The method a `method` element denotes; the name attribute is required,
/// its arguments are partitioned by direction, and its description comes
/// from the first documentation annotation.
pub open spec fn spec_method_of(e: SpecElem) -> Option<MethodModel> {
    match spec_find_attr(e.attrs, 0, "name"@) {
        Some(n) => match spec_args_of(e.children, 0) {
            Some(args) => match spec_desc_of(e.children, 0) {
                Some(d) => Some(
                    MethodModel {
                        name: n,
                        arguments: in_args(args),
                        return_values: out_args(args),
                        description: d,
                    },
                ),
                None => None,
            },
            None => None,
        },
        None => None,
    }
}

fn method_record(e: &XmlElem) -> (r: Option<MethodInfo>)
    ensures
        match (r, spec_method_of(elem_view(*e))) {
            (Some(m), Some(sm)) => method_model(m) == sm,
            (None, None) => true,
            _ => false,
        },
{
    proof {
        assert(elem_view(*e).children =~= elems_view(e.children@));
    }
    match find_attr(&e.attrs, 0, "name") {
        Some(n) => match args_from(&e.children, 0) {
            Some(args) => match desc_from(&e.children, 0) {
                Some(d) => {
                    let (ins, outs) = split_args(args);
                    Some(
                        MethodInfo {
                            name: chars_to_string(&n),
                            arguments: ins,
                            return_values: outs,
                            description: d,
                        },
                    )
                },
                None => None,
            },
            None => None,
        },
        None => None,
    }
}

/// The methods denoted by the `method` children at or after `i`, in order.
pub open spec fn spec_methods_of(kids: Seq<SpecElem>, i: int) -> Option<Seq<MethodModel>>
    decreases kids.len() - i,
{
    if !(0 <= i < kids.len()) {
        Some(Seq::empty())
    } else if kids[i].name == "method"@ {
        match spec_method_of(kids[i]) {
            Some(m) => match spec_methods_of(kids, i + 1) {
                Some(rest) => Some(seq![m] + rest),
                None => None,
            },
            None => None,
        }
    } else {
        spec_methods_of(kids, i + 1)
    }
}

fn methods_from(kids: &Vec<XmlElem>, i: usize) -> (r: Option<Vec<MethodInfo>>)
    requires
        i <= kids@.len(),
    ensures
        match (r, spec_methods_of(elems_view(kids@), i as int)) {
            (Some(v), Some(m)) => v@.map_values(|x: MethodInfo| method_model(x)) == m,
            (None, None) => true,
            _ => false,
        },
    decreases kids@.len() - i,
{
    if i >= kids.len() {
        let v: Vec<MethodInfo> = Vec::new();
        proof {
            assert(v@.map_values(|x: MethodInfo| method_model(x)) =~= Seq::<
                MethodModel,
            >::empty());
        }
        Some(v)
    } else if chars_eq_str(&kids[i].name, "method") {
        match method_record(&kids[i]) {
            Some(m) => match methods_from(kids, i + 1) {
                Some(mut rest) => {
                    let ghost head = method_model(m);
                    let ghost tail = rest@;
                    rest.insert(0, m);
                    proof {
                        assert(rest@.map_values(|x: MethodInfo| method_model(x)) =~= seq![head]
                            + tail.map_values(|x: MethodInfo| method_model(x)));
                    }
                    Some(rest)
                },
                None => None,
            },
            None => None,
        }
    } else {
        methods_from(kids, i + 1)
    }
}

/// The property a `property` element denotes; name, type and access are all
/// required, and its annotations must themselves be well-formed, though
/// properties never take a description from them.
pub open spec fn spec_property_of(e: SpecElem) -> Option<PropertyModel> {
    match (
        spec_find_attr(e.attrs, 0, "name"@),
        spec_find_attr(e.attrs, 0, "type"@),
        spec_find_attr(e.attrs, 0, "access"@),
    ) {
        (Some(n), Some(t), Some(a)) => match spec_desc_of(e.children, 0) {
            Some(_d) => Some(
                PropertyModel { name: n, type_signature: t, access: a, description: None },
            ),
            None => None,
        },
        _ => None,
    }
}

fn property_record(e: &XmlElem) -> (r: Option<PropertyInfo>)
    ensures
        match (r, spec_property_of(elem_view(*e))) {
            (Some(p), Some(sp)) => property_model(p) == sp,
            (None, None) => true,
            _ => false,
        },
{
    proof {
        assert(elem_view(*e).children =~= elems_view(e.children@));
    }
    let n = find_attr(&e.attrs, 0, "name");
    let t = find_attr(&e.attrs, 0, "type");
    let a = find_attr(&e.attrs, 0, "access");
    match (n, t, a) {
        (Some(n), Some(t), Some(a)) => match desc_from(&e.children, 0) {
            Some(_d) => Some(
                PropertyInfo {
                    name: chars_to_string(&n),
                    type_signature: chars_to_string(&t),
                    access: chars_to_string(&a),
                    description: None,
                },
            ),
            None => None,
        },
        _ => None,
    }
}

/// The properties denoted by the `property` children at or after `i`.
pub open spec fn spec_properties_of(kids: Seq<SpecElem>, i: int) -> Option<Seq<PropertyModel>>
    decreases kids.len() - i,
{
    if !(0 <= i < kids.len()) {
        Some(Seq::empty())
    } else if kids[i].name == "property"@ {
        match spec_property_of(kids[i]) {
            Some(p) => match spec_properties_of(kids, i + 1) {
                Some(rest) => Some(seq![p] + rest),
                None => None,
            },
            None => None,
        }
    } else {
        spec_properties_of(kids, i + 1)
    }
}

fn properties_from(kids: &Vec<XmlElem>, i: usize) -> (r: Option<Vec<PropertyInfo>>)
    requires
        i <= kids@.len(),
    ensures
        match (r, spec_properties_of(elems_view(kids@), i as int)) {
            (Some(v), Some(m)) => v@.map_values(|x: PropertyInfo| property_model(x)) == m,
            (None, None) => true,
            _ => false,
        },
    decreases kids@.len() - i,
{
    if i >= kids.len() {
        let v: Vec<PropertyInfo> = Vec::new();
        proof {
            assert(v@.map_values(|x: PropertyInfo| property_model(x)) =~= Seq::<
                PropertyModel,
            >::empty());
        }
        Some(v)
    } else if chars_eq_str(&kids[i].name, "property") {
        match property_record(&kids[i]) {
            Some(p) => match properties_from(kids, i + 1) {
                Some(mut rest) => {
                    let ghost head = property_model(p);
                    let ghost tail = rest@;
                    rest.insert(0, p);
                    proof {
                        assert(rest@.map_values(|x: PropertyInfo| property_model(x)) =~= seq![
                            head,
                        ] + tail.map_values(|x: PropertyInfo| property_model(x)));
                    }
                    Some(rest)
                },
                None => None,
            },
            None => None,
        }
    } else {
        properties_from(kids, i + 1)
    }
}

/// The signal a `signal` element denotes; the name attribute is required
/// and its arguments keep their direction tags, never partitioned.
pub open spec fn spec_signal_of(e: SpecElem) -> Option<SignalModel> {
    match spec_find_attr(e.attrs, 0, "name"@) {
        Some(n) => match spec_args_of(e.children, 0) {
            Some(args) => match spec_desc_of(e.children, 0) {
                Some(d) => Some(SignalModel { name: n, arguments: args, description: d }),
                None => None,
            },
            None => None,
        },
        None => None,
    }
}

fn signal_record(e: &XmlElem) -> (r: Option<SignalInfo>)
    ensures
        match (r, spec_signal_of(elem_view(*e))) {
            (Some(s), Some(ss)) => signal_model(s) == ss,
            (None, None) => true,
            _ => false,
        },
{
    proof {
        assert(elem_view(*e).children =~= elems_view(e.children@));
    }
    match find_attr(&e.attrs, 0, "name") {
        Some(n) => match args_from(&e.children, 0) {
            Some(args) => match desc_from(&e.children, 0) {
                Some(d) => Some(
                    SignalInfo { name: chars_to_string(&n), arguments: args, description: d },
                ),
                None => None,
            },
            None => None,
        },
        None => None,
    }
}

/// The signals denoted by the `signal` children at or after `i`.
pub open spec fn spec_signals_of(kids: Seq<SpecElem>, i: int) -> Option<Seq<SignalModel>>
    decreases kids.len() - i,
{
    if !(0 <= i < kids.len()) {
        Some(Seq::empty())
    } else if kids[i].name == "signal"@ {
        match spec_signal_of(kids[i]) {
            Some(s) => match spec_signals_of(kids, i + 1) {
                Some(rest) => Some(seq![s] + rest),
                None => None,
            },
            None => None,
        }
    } else {
        spec_signals_of(kids, i + 1)
    }
}

fn signals_from(kids: &Vec<XmlElem>, i: usize) -> (r: Option<Vec<SignalInfo>>)
    requires
        i <= kids@.len(),
    ensures
        match (r, spec_signals_of(elems_view(kids@), i as int)) {
            (Some(v), Some(m)) => v@.map_values(|x: SignalInfo| signal_model(x)) == m,
            (None, None) => true,
            _ => false,
        },
    decreases kids@.len() - i,
{
    if i >= kids.len() {
        let v: Vec<SignalInfo> = Vec::new();
        proof {
            assert(v@.map_values(|x: SignalInfo| signal_model(x)) =~= Seq::<
                SignalModel,
            >::empty());
        }
        Some(v)
    } else if chars_eq_str(&kids[i].name, "signal") {
        match signal_record(&kids[i]) {
            Some(sg) => match signals_from(kids, i + 1) {
                Some(mut rest) => {
                    let ghost head = signal_model(sg);
                    let ghost tail = rest@;
                    rest.insert(0, sg);
                    proof {
                        assert(rest@.map_values(|x: SignalInfo| signal_model(x)) =~= seq![head]
                            + tail.map_values(|x: SignalInfo| signal_model(x)));
                    }
                    Some(rest)
                },
                None => None,
            },
            None => None,
        }
    } else {
        signals_from(kids, i + 1)
    }
}

// ---------------------------------------------------------------------------
// Interfaces and whole schemas
// ---------------------------------------------------------------------------

/// The interface an `interface` element denotes.
pub open spec fn spec_interface_of(e: SpecElem) -> Option<InterfaceModel> {
    match spec_find_attr(e.attrs, 0, "name"@) {
        Some(n) => match (
            spec_methods_of(e.children, 0),
            spec_properties_of(e.children, 0),
            spec_signals_of(e.children, 0),
        ) {
            (Some(ms), Some(ps), Some(sgs)) => match spec_desc_of(e.children, 0) {
                Some(d) => Some(
                    InterfaceModel {
                        name: n,
                        methods: ms,
                        properties: ps,
                        signals: sgs,
                        description: d,
                    },
                ),
                None => None,
            },
            _ => None,
        },
        None => None,
    }
}

fn interface_record(e: &XmlElem) -> (r: Option<InterfaceInfo>)
    ensures
        match (r, spec_interface_of(elem_view(*e))) {
            (Some(f), Some(sf)) => interface_model(f) == sf,
            (None, None) => true,
            _ => false,
        },
{
    proof {
        assert(elem_view(*e).children =~= elems_view(e.children@));
    }
    match find_attr(&e.attrs, 0, "name") {
        Some(n) => {
            let ms = methods_from(&e.children, 0);
            let ps = properties_from(&e.children, 0);
            let sgs = signals_from(&e.children, 0);
            match (ms, ps, sgs) {
                (Some(ms), Some(ps), Some(sgs)) => match desc_from(&e.children, 0) {
                    Some(d) => Some(
                        InterfaceInfo {
                            name: chars_to_string(&n),
                            methods: ms,
                            properties: ps,
                            signals: sgs,
                            description: d,
                        },
                    ),
                    None => None,
                },
                _ => None,
            }
        },
        None => None,
    }
}

/// The interfaces denoted by the `interface` children at or after `i`.
pub open spec fn spec_interfaces_of(kids: Seq<SpecElem>, i: int) -> Option<Seq<InterfaceModel>>
    decreases kids.len() - i,
{
    if !(0 <= i < kids.len()) {
        Some(Seq::empty())
    } else if kids[i].name == "interface"@ {
        match spec_interface_of(kids[i]) {
            Some(f) => match spec_interfaces_of(kids, i + 1) {
                Some(rest) => Some(seq![f] + rest),
                None => None,
            },
            None => None,
        }
    } else {
        spec_interfaces_of(kids, i + 1)
    }
}

fn interfaces_from(kids: &Vec<XmlElem>, i: usize) -> (r: Option<Vec<InterfaceInfo>>)
    requires
        i <= kids@.len(),
    ensures
        match (r, spec_interfaces_of(elems_view(kids@), i as int)) {
            (Some(v), Some(m)) => interfaces_model(v@) == m,
            (None, None) => true,
            _ => false,
        },
    decreases kids@.len() - i,
{
    if i >= kids.len() {
        let v: Vec<InterfaceInfo> = Vec::new();
        proof {
            assert(interfaces_model(v@) =~= Seq::<InterfaceModel>::empty());
        }
        Some(v)
    } else if chars_eq_str(&kids[i].name, "interface") {
        match interface_record(&kids[i]) {
            Some(f) => match interfaces_from(kids, i + 1) {
                Some(mut rest) => {
                    let ghost head = interface_model(f);
                    let ghost tail = rest@;
                    rest.insert(0, f);
                    proof {
                        assert(interfaces_model(rest@) =~= seq![head] + interfaces_model(tail));
                    }
                    Some(rest)
                },
                None => None,
            },
            None => None,
        }
    } else {
        interfaces_from(kids, i + 1)
    }
}

/// The names advertised by the `node` children at or after `i`; each such
/// child must carry a name attribute.
pub open spec fn spec_nodes_of(kids: Seq<SpecElem>, i: int) -> Option<Seq<Seq<char>>>
    decreases kids.len() - i,
{
    if !(0 <= i < kids.len()) {
        Some(Seq::empty())
    } else if kids[i].name == "node"@ {
        match spec_find_attr(kids[i].attrs, 0, "name"@) {
            Some(n) => match spec_nodes_of(kids, i + 1) {
                Some(rest) => Some(seq![n] + rest),
                None => None,
            },
            None => None,
        }
    } else {
        spec_nodes_of(kids, i + 1)
    }
}

fn nodes_from(kids: &Vec<XmlElem>, i: usize) -> (r: Option<Vec<String>>)
    requires
        i <= kids@.len(),
    ensures
        match (r, spec_nodes_of(elems_view(kids@), i as int)) {
            (Some(v), Some(m)) => strs_view(v@) == m,
            (None, None) => true,
            _ => false,
        },
    decreases kids@.len() - i,
{
    if i >= kids.len() {
        let v: Vec<String> = Vec::new();
        proof {
            assert(strs_view(v@) =~= Seq::<Seq<char>>::empty());
        }
        Some(v)
    } else if chars_eq_str(&kids[i].name, "node") {
        match find_attr(&kids[i].attrs, 0, "name") {
            Some(n) => match nodes_from(kids, i + 1) {
                Some(mut rest) => {
                    let ghost tail = rest@;
                    let n = chars_to_string(&n);
                    let ghost head = n@;
                    rest.insert(0, n);
                    proof {
                        assert(strs_view(rest@) =~= seq![head] + strs_view(tail));
                    }
                    Some(rest)
                },
                None => None,
            },
            None => None,
        }
    } else {
        nodes_from(kids, i + 1)
    }
}

/// The schema a whole document denotes: the root element's interfaces and
/// advertised child-node names.  The root element's own name and any other
/// content are ignored.
pub open spec fn spec_schema_of(root: SpecElem) -> Option<SchemaModel> {
    match (spec_interfaces_of(root.children, 0), spec_nodes_of(root.children, 0)) {
        (Some(ifs), Some(ns)) => Some(SchemaModel { interfaces: ifs, child_nodes: ns }),
        _ => None,
    }
}

/// What schema text denotes: nothing at all when the document is malformed,
/// otherwise its interfaces and child-node names.
pub open spec fn spec_parse_schema(s: Seq<char>) -> Option<SchemaModel> {
    match spec_document(s) {
        Some(root) => spec_schema_of(root),
        None => None,
    }
}

/// The text of the fault reported for malformed schema text fetched from
/// `service` at `path`.
pub open spec fn parse_fault_text(service: Seq<char>, path: Seq<char>) -> Seq<char> {
    "Failed to parse D-Bus introspection XML for "@ + service + ":"@ + path
        + ": malformed schema document"@
}

/// Decodes raw schema text into interfaces and child-node names.  Exactly
/// the malformed documents are rejected, with a fault naming the service and
/// path the text came from; a success decodes the document faithfully and
/// completely.
pub fn parse_introspection_xml(xml: &str, service_name: &str, object_path: &str) -> (r: Result<
    (Vec<InterfaceInfo>, Vec<String>),
    String,
>)
    ensures
        match r {
            Ok(p) => spec_parse_schema(xml@) == Some(
                SchemaModel { interfaces: interfaces_model(p.0@), child_nodes: strs_view(p.1@) },
            ),
            Err(m) => spec_parse_schema(xml@) is None && m@ == parse_fault_text(
                service_name@,
                object_path@,
            ),
        },
{
    let chars = str_to_chars(xml);
    let parsed = parse_document(&chars);
    match parsed {
        Some(root) => {
            proof {
                assert(elem_view(root).children =~= elems_view(root.children@));
            }
            let ifs = interfaces_from(&root.children, 0);
            let ns = nodes_from(&root.children, 0);
            match (ifs, ns) {
                (Some(ifs), Some(ns)) => {
                    proof {
                        assert(spec_parse_schema(xml@) == Some(
                            SchemaModel {
                                interfaces: interfaces_model(ifs@),
                                child_nodes: strs_view(ns@),
                            },
                        ));
                    }
                    Ok((ifs, ns))
                },
                _ => Err(parse_fault_message(service_name, object_path)),
            }
        },
        None => Err(parse_fault_message(service_name, object_path)),
    }
}

fn parse_fault_message(service_name: &str, object_path: &str) -> (r: String)
    ensures
        r@ == parse_fault_text(service_name@, object_path@),
{
    let mut r = String::from_str("Failed to parse D-Bus introspection XML for ");
    r.append(service_name);
    r.append(":");
    r.append(object_path);
    r.append(": malformed schema document");
    r
}


// ---------------------------------------------------------------------------
// Laws of the decoded shape
// ---------------------------------------------------------------------------

/// How many children at or after `i` bear the given element name.
pub open spec fn count_named(kids: Seq<SpecElem>, i: int, name: Seq<char>) -> int
    decreases kids.len() - i,
{
    if !(0 <= i < kids.len()) {
        0
    } else if kids[i].name == name {
        1 + count_named(kids, i + 1, name)
    } else {
        count_named(kids, i + 1, name)
    }
}

/// The value of the first documentation annotation at or after `i`, if any.
pub open spec fn first_description(kids: Seq<SpecElem>, i: int) -> Option<Seq<char>>
    decreases kids.len() - i,
{
    if !(0 <= i < kids.len()) {
        None
    } else if kids[i].name == "annotation"@ && spec_find_attr(kids[i].attrs, 0, "name"@)
        == Some(description_key()) {
        spec_find_attr(kids[i].attrs, 0, "value"@)
    } else {
        first_description(kids, i + 1)
    }
}

proof fn lemma_methods_count(kids: Seq<SpecElem>, i: int)
    requires
        0 <= i <= kids.len(),
        spec_methods_of(kids, i) is Some,
    ensures
        spec_methods_of(kids, i).unwrap().len() == count_named(kids, i, "method"@),
    decreases kids.len() - i,
{
    if i < kids.len() {
        lemma_methods_count(kids, i + 1);
    }
}

proof fn lemma_properties_count(kids: Seq<SpecElem>, i: int)
    requires
        0 <= i <= kids.len(),
        spec_properties_of(kids, i) is Some,
    ensures
        spec_properties_of(kids, i).unwrap().len() == count_named(kids, i, "property"@),
    decreases kids.len() - i,
{
    if i < kids.len() {
        lemma_properties_count(kids, i + 1);
    }
}

proof fn lemma_signals_count(kids: Seq<SpecElem>, i: int)
    requires
        0 <= i <= kids.len(),
        spec_signals_of(kids, i) is Some,
    ensures
        spec_signals_of(kids, i).unwrap().len() == count_named(kids, i, "signal"@),
    decreases kids.len() - i,
{
    if i < kids.len() {
        lemma_signals_count(kids, i + 1);
    }
}

proof fn lemma_desc_first(kids: Seq<SpecElem>, i: int)
    requires
        0 <= i <= kids.len(),
        spec_desc_of(kids, i) is Some,
    ensures
        spec_desc_of(kids, i).unwrap() == first_description(kids, i),
    decreases kids.len() - i,
{
    if i < kids.len() {
        lemma_desc_first(kids, i + 1);
    }
}

/// A well-formed interface element decodes to exactly one method, property
/// and signal record per correspondingly named child, in document order, and
/// its description is the value of the first documentation annotation —
/// later duplicates change nothing.
pub proof fn lemma_interface_shape(e: SpecElem)
    requires
        spec_interface_of(e) is Some,
    ensures
        spec_interface_of(e).unwrap().methods.len() == count_named(e.children, 0, "method"@),
        spec_interface_of(e).unwrap().properties.len() == count_named(
            e.children,
            0,
            "property"@,
        ),
        spec_interface_of(e).unwrap().signals.len() == count_named(e.children, 0, "signal"@),
        spec_interface_of(e).unwrap().description == first_description(e.children, 0),
{
    lemma_methods_count(e.children, 0);
    lemma_properties_count(e.children, 0);
    lemma_signals_count(e.children, 0);
    lemma_desc_first(e.children, 0);
}

} // verus!
