use vstd::prelude::*;

verus! {

// ===========================================================================
// Executable records
//
// The immutable output of a discovery call: one ServiceInfo per service,
// holding ObjectInfo records for every path reached from "/", each of which
// decodes into interfaces, methods, properties and signals.  Type-signature
// strings are carried through opaquely and never interpreted here.
// ===========================================================================

/// One argument of a method or signal: an optional name, an opaque
/// type-signature string, an optional direction tag ("in" or "out") and an
/// optional description.
#[derive(Debug, Clone)]
pub struct ArgumentInfo {
    pub name: Option<String>,
    pub type_signature: String,
    pub direction: Option<String>,
    pub description: Option<String>,
}

/// One method of an interface: input arguments and return values are kept
/// apart; the description comes from a documentation annotation.
#[derive(Debug, Clone)]
pub struct MethodInfo {
    pub name: String,
    pub arguments: Vec<ArgumentInfo>,
    pub return_values: Vec<ArgumentInfo>,
    pub description: Option<String>,
}

/// One property of an interface; `access` is "read", "write" or "readwrite".
#[derive(Debug, Clone)]
pub struct PropertyInfo {
    pub name: String,
    pub type_signature: String,
    pub access: String,
    pub description: Option<String>,
}

/// One signal of an interface; its arguments keep their direction tag and
/// are never partitioned.
#[derive(Debug, Clone)]
pub struct SignalInfo {
    pub name: String,
    pub arguments: Vec<ArgumentInfo>,
    pub description: Option<String>,
}

/// One interface of an object, with its methods, properties and signals in
/// document order.
#[derive(Debug, Clone)]
pub struct InterfaceInfo {
    pub name: String,
    pub methods: Vec<MethodInfo>,
    pub properties: Vec<PropertyInfo>,
    pub signals: Vec<SignalInfo>,
    pub description: Option<String>,
}

/// One addressable object of a service.  An object without an error decodes
/// the fetched schema faithfully; one with an error has empty interfaces and
/// is never expanded further.  `child_nodes` drives the traversal only.
#[derive(Debug, Clone)]
pub struct ObjectInfo {
    pub path: String,
    pub interfaces: Vec<InterfaceInfo>,
    pub error: Option<String>,
    pub child_nodes: Vec<String>,
}

/// The record of one discovered service: its name, the unique owner id if
/// one could be resolved, every object reached from the root path, and a
/// top-level error when nothing at all was reachable.
#[derive(Debug, Clone)]
pub struct ServiceInfo {
    pub name: String,
    pub owner: Option<String>,
    pub objects: Vec<ObjectInfo>,
    pub error: Option<String>,
}

// ===========================================================================
// Mathematical models
//
// Each record has a model holding the same data over Seq<char>, so that
// contracts can state what a record is without mentioning the executable
// representation.
// ===========================================================================

#[verifier::ext_equal]
pub struct ArgumentModel {
    pub name: Option<Seq<char>>,
    pub type_signature: Seq<char>,
    pub direction: Option<Seq<char>>,
    pub description: Option<Seq<char>>,
}

#[verifier::ext_equal]
pub struct MethodModel {
    pub name: Seq<char>,
    pub arguments: Seq<ArgumentModel>,
    pub return_values: Seq<ArgumentModel>,
    pub description: Option<Seq<char>>,
}

#[verifier::ext_equal]
pub struct PropertyModel {
    pub name: Seq<char>,
    pub type_signature: Seq<char>,
    pub access: Seq<char>,
    pub description: Option<Seq<char>>,
}

#[verifier::ext_equal]
pub struct SignalModel {
    pub name: Seq<char>,
    pub arguments: Seq<ArgumentModel>,
    pub description: Option<Seq<char>>,
}

#[verifier::ext_equal]
pub struct InterfaceModel {
    pub name: Seq<char>,
    pub methods: Seq<MethodModel>,
    pub properties: Seq<PropertyModel>,
    pub signals: Seq<SignalModel>,
    pub description: Option<Seq<char>>,
}

#[verifier::ext_equal]
pub struct ObjectModel {
    pub path: Seq<char>,
    pub interfaces: Seq<InterfaceModel>,
    pub error: Option<Seq<char>>,
    pub child_nodes: Seq<Seq<char>>,
}

#[verifier::ext_equal]
pub struct ServiceModel {
    pub name: Seq<char>,
    pub owner: Option<Seq<char>>,
    pub objects: Seq<ObjectModel>,
    pub error: Option<Seq<char>>,
}

/// The view of an optional string.
pub open spec fn opt_view(o: Option<String>) -> Option<Seq<char>> {
    match o {
        Some(s) => Some(s@),
        None => None,
    }
}

pub open spec fn arg_model(a: ArgumentInfo) -> ArgumentModel {
    ArgumentModel {
        name: opt_view(a.name),
        type_signature: a.type_signature@,
        direction: opt_view(a.direction),
        description: opt_view(a.description),
    }
}

pub open spec fn args_model(s: Seq<ArgumentInfo>) -> Seq<ArgumentModel> {
    s.map_values(|a: ArgumentInfo| arg_model(a))
}

pub open spec fn method_model(m: MethodInfo) -> MethodModel {
    MethodModel {
        name: m.name@,
        arguments: args_model(m.arguments@),
        return_values: args_model(m.return_values@),
        description: opt_view(m.description),
    }
}

pub open spec fn property_model(p: PropertyInfo) -> PropertyModel {
    PropertyModel {
        name: p.name@,
        type_signature: p.type_signature@,
        access: p.access@,
        description: opt_view(p.description),
    }
}

pub open spec fn signal_model(s: SignalInfo) -> SignalModel {
    SignalModel {
        name: s.name@,
        arguments: args_model(s.arguments@),
        description: opt_view(s.description),
    }
}

pub open spec fn interface_model(i: InterfaceInfo) -> InterfaceModel {
    InterfaceModel {
        name: i.name@,
        methods: i.methods@.map_values(|m: MethodInfo| method_model(m)),
        properties: i.properties@.map_values(|p: PropertyInfo| property_model(p)),
        signals: i.signals@.map_values(|s: SignalInfo| signal_model(s)),
        description: opt_view(i.description),
    }
}

pub open spec fn interfaces_model(s: Seq<InterfaceInfo>) -> Seq<InterfaceModel> {
    s.map_values(|i: InterfaceInfo| interface_model(i))
}

/// The view of a sequence of strings.
pub open spec fn strs_view(s: Seq<String>) -> Seq<Seq<char>> {
    s.map_values(|x: String| x@)
}

pub open spec fn object_model(o: ObjectInfo) -> ObjectModel {
    ObjectModel {
        path: o.path@,
        interfaces: interfaces_model(o.interfaces@),
        error: opt_view(o.error),
        child_nodes: strs_view(o.child_nodes@),
    }
}

pub open spec fn objects_model(s: Seq<ObjectInfo>) -> Seq<ObjectModel> {
    s.map_values(|o: ObjectInfo| object_model(o))
}

pub open spec fn service_model(s: ServiceInfo) -> ServiceModel {
    ServiceModel {
        name: s.name@,
        owner: opt_view(s.owner),
        objects: objects_model(s.objects@),
        error: opt_view(s.error),
    }
}

} // verus!
