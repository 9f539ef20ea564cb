use vstd::prelude::*;

use crate::chars::{contains_seq, contains_str, path_join, spec_path_join, str_eq};
use crate::records::{object_model, objects_model, opt_view, service_model, strs_view,
    ObjectInfo, ObjectModel, ServiceInfo, ServiceModel};
use crate::schema::{parse_fault_text, parse_introspection_xml, spec_parse_schema};

verus! {

broadcast use vstd::seq_lib::group_seq_properties;

// ===========================================================================
// The object-graph walker.
//
// Given one service, the walker drives a worklist traversal of the object
// graph advertised by the service's own schemas, starting at the root path
// "/".  The caller fetches one schema per request: `next_path` names the
// path to introspect, `record` takes the outcome back, classifies it, and
// appends one object record, enqueueing newly advertised children.  An
// explicit visited set guarantees that no path is ever enqueued twice, so a
// cyclic or inconsistent self-reported topology cannot make the walk loop.
// A failed object is recorded but never expanded.
// ===========================================================================

/// The outcome of one introspection call, as handed back by the transport:
/// either raw schema text or the transport's fault text.
pub enum IntrospectReply {
    Schema(String),
    CallFault(String),
}

/// The model of an introspection outcome.
pub enum ReplyModel {
    Schema(Seq<char>),
    CallFault(Seq<char>),
}

pub open spec fn reply_view(r: IntrospectReply) -> ReplyModel {
    match r {
        IntrospectReply::Schema(x) => ReplyModel::Schema(x@),
        IntrospectReply::CallFault(m) => ReplyModel::CallFault(m@),
    }
}

// ---------------------------------------------------------------------------
// Fault classification and object records
// ---------------------------------------------------------------------------

pub open spec fn access_denied_text() -> Seq<char> {
    "Access denied - not authorized to introspect this object"@
}

pub open spec fn unsupported_text() -> Seq<char> {
    "Object does not support introspection"@
}

pub open spec fn no_objects_text() -> Seq<char> {
    "No accessible objects found or service not authorized"@
}

/// The per-object error text for a transport fault: an authorization fault
/// code means access was denied, an unknown-method fault means the object
/// does not implement reflection, and anything else is kept verbatim behind
/// a generic prefix.
pub open spec fn classify_fault(msg: Seq<char>) -> Seq<char> {
    if contains_seq(msg, "org.freedesktop.DBus.Error.AccessDenied"@) {
        access_denied_text()
    } else if contains_seq(msg, "org.freedesktop.DBus.Error.UnknownMethod"@) {
        unsupported_text()
    } else {
        "Introspection failed: "@ + msg
    }
}

fn classify_fault_message(msg: &str) -> (r: String)
    ensures
        r@ == classify_fault(msg@),
{
    if contains_str(msg, "org.freedesktop.DBus.Error.AccessDenied") {
        String::from_str("Access denied - not authorized to introspect this object")
    } else if contains_str(msg, "org.freedesktop.DBus.Error.UnknownMethod") {
        String::from_str("Object does not support introspection")
    } else {
        let mut r = String::from_str("Introspection failed: ");
        r.append(msg);
        r
    }
}

/// The object record one introspection outcome denotes.  A schema that
/// decodes yields the object's interfaces and child names; a malformed
/// schema or a transport fault yields an error record with no interfaces
/// and no children.
pub open spec fn spec_object_record(
    service: Seq<char>,
    path: Seq<char>,
    reply: ReplyModel,
) -> ObjectModel {
    match reply {
        ReplyModel::Schema(x) => match spec_parse_schema(x) {
            Some(m) => ObjectModel {
                path: path,
                interfaces: m.interfaces,
                error: None,
                child_nodes: m.child_nodes,
            },
            None => ObjectModel {
                path: path,
                interfaces: Seq::empty(),
                error: Some("XML parsing failed: "@ + parse_fault_text(service, path)),
                child_nodes: Seq::empty(),
            },
        },
        ReplyModel::CallFault(m) => ObjectModel {
            path: path,
            interfaces: Seq::empty(),
            error: Some(classify_fault(m)),
            child_nodes: Seq::empty(),
        },
    }
}

/// Turns one introspection outcome for `(service_name, object_path)` into
/// the object's record, classifying faults and decoding schema text.
pub fn build_object_record(
    service_name: &str,
    object_path: &str,
    reply: IntrospectReply,
) -> (r: ObjectInfo)
    ensures
        object_model(r) == spec_object_record(service_name@, object_path@, reply_view(reply)),
{
    match reply {
        IntrospectReply::Schema(x) => {
            match parse_introspection_xml(x.as_str(), service_name, object_path) {
                Ok((interfaces, child_nodes)) => {
                    let r = ObjectInfo {
                        path: String::from_str(object_path),
                        interfaces,
                        error: None,
                        child_nodes,
                    };
                    proof {
                        assert(object_model(r) =~= spec_object_record(
                            service_name@,
                            object_path@,
                            reply_view(reply),
                        ));
                    }
                    r
                },
                Err(e) => {
                    let mut msg = String::from_str("XML parsing failed: ");
                    msg.append(e.as_str());
                    let r = ObjectInfo {
                        path: String::from_str(object_path),
                        interfaces: Vec::new(),
                        error: Some(msg),
                        child_nodes: Vec::new(),
                    };
                    proof {
                        assert(object_model(r) =~= spec_object_record(
                            service_name@,
                            object_path@,
                            reply_view(reply),
                        ));
                    }
                    r
                },
            }
        },
        IntrospectReply::CallFault(m) => {
            let r = ObjectInfo {
                path: String::from_str(object_path),
                interfaces: Vec::new(),
                error: Some(classify_fault_message(m.as_str())),
                child_nodes: Vec::new(),
            };
            proof {
                assert(object_model(r) =~= spec_object_record(
                    service_name@,
                    object_path@,
                    reply_view(reply),
                ));
            }
            r
        },
    }
}

// ---------------------------------------------------------------------------
// The walk model
// ---------------------------------------------------------------------------

/// The model of a walk in progress.
#[verifier::ext_equal]
pub struct WalkModel {
    pub service: Seq<char>,
    pub pending: Seq<Seq<char>>,
    pub visited: Seq<Seq<char>>,
    pub objects: Seq<ObjectModel>,
}

/// The paths of a sequence of object records.
pub open spec fn paths_of(objs: Seq<ObjectModel>) -> Seq<Seq<char>> {
    objs.map_values(|o: ObjectModel| o.path)
}

/// A fresh walk: the root path alone is pending, and it alone has been
/// visited.
pub open spec fn walk_init(service: Seq<char>) -> WalkModel {
    WalkModel {
        service: service,
        pending: seq!["/"@],
        visited: seq!["/"@],
        objects: Seq::empty(),
    }
}

/// Enqueues the children of `parent` named by `kids[k..]`: each child path
/// not yet visited is appended to both the visited set and the worklist,
/// first occurrence deciding; a path already visited is never re-enqueued.
pub open spec fn enqueue_children(
    vis: Seq<Seq<char>>,
    pend: Seq<Seq<char>>,
    parent: Seq<char>,
    kids: Seq<Seq<char>>,
    k: int,
) -> (Seq<Seq<char>>, Seq<Seq<char>>)
    decreases kids.len() - k,
{
    if !(0 <= k < kids.len()) {
        (vis, pend)
    } else {
        let p = spec_path_join(parent, kids[k]);
        if vis.contains(p) {
            enqueue_children(vis, pend, parent, kids, k + 1)
        } else {
            enqueue_children(vis.push(p), pend.push(p), parent, kids, k + 1)
        }
    }
}

/// One step of the walk: take the worklist's top path, record the outcome's
/// object, and — only for a successful object — enqueue its unvisited
/// children.  On an empty worklist the walk is finished and nothing changes.
pub open spec fn walk_step(m: WalkModel, reply: ReplyModel) -> WalkModel {
    if m.pending.len() == 0 {
        m
    } else {
        let path = m.pending.last();
        let pend0 = m.pending.drop_last();
        let r = spec_object_record(m.service, path, reply);
        if r.error is None {
            let vp = enqueue_children(m.visited, pend0, path, r.child_nodes, 0);
            WalkModel { service: m.service, pending: vp.1, visited: vp.0, objects: m.objects.push(r) }
        } else {
            WalkModel { service: m.service, pending: pend0, visited: m.visited, objects: m.objects.push(r) }
        }
    }
}

/// The walk's invariant: no path is ever visited twice.  The visited set
/// has no duplicates, the worklist and the recorded objects hold visited
/// paths only, each at most once, and no path is both recorded and still
/// pending.
pub open spec fn walk_wf(m: WalkModel) -> bool {
    m.visited.no_duplicates()
    && m.pending.no_duplicates()
    && paths_of(m.objects).no_duplicates()
    && (forall|x: Seq<char>| m.pending.contains(x) ==> m.visited.contains(x))
    && (forall|x: Seq<char>| paths_of(m.objects).contains(x) ==> m.visited.contains(x))
    && (forall|x: Seq<char>| !(m.pending.contains(x) && paths_of(m.objects).contains(x)))
}

proof fn lemma_push_facts(s: Seq<Seq<char>>, p: Seq<char>)
    ensures
        forall|x: Seq<char>| #[trigger] s.push(p).contains(x) <==> s.contains(x) || x == p,
        s.no_duplicates() && !s.contains(p) ==> s.push(p).no_duplicates(),
{
    assert forall|x: Seq<char>| #[trigger] s.push(p).contains(x) implies s.contains(x) || x == p by {
        let i = choose|i: int| 0 <= i < s.push(p).len() && s.push(p)[i] == x;
        if i < s.len() {
            assert(s[i] == x);
        }
    }
    assert forall|x: Seq<char>| s.contains(x) || x == p implies #[trigger] s.push(p).contains(x) by {
        if s.contains(x) {
            let i = choose|i: int| 0 <= i < s.len() && s[i] == x;
            assert(s.push(p)[i] == x);
        } else {
            assert(s.push(p)[s.len() as int] == x);
        }
    }
    if s.no_duplicates() && !s.contains(p) {
        assert forall|i: int, j: int|
            0 <= i < s.push(p).len() && 0 <= j < s.push(p).len() && i != j
            implies s.push(p)[i] != s.push(p)[j]
        by {
            if i < s.len() && j == s.len() {
                if s[i] == p {
                    assert(s.contains(p));
                }
            } else if j < s.len() && i == s.len() {
                if s[j] == p {
                    assert(s.contains(p));
                }
            }
        }
    }
}

proof fn lemma_enqueue_children_wf(
    vis: Seq<Seq<char>>,
    pend: Seq<Seq<char>>,
    parent: Seq<char>,
    kids: Seq<Seq<char>>,
    k: int,
)
    requires
        vis.no_duplicates(),
        pend.no_duplicates(),
        forall|x: Seq<char>| pend.contains(x) ==> vis.contains(x),
    ensures
        ({
            let vp = enqueue_children(vis, pend, parent, kids, k);
            vp.0.no_duplicates()
            && vp.1.no_duplicates()
            && (forall|x: Seq<char>| vp.1.contains(x) ==> vp.0.contains(x))
            && (forall|x: Seq<char>| vis.contains(x) ==> vp.0.contains(x))
            && (forall|x: Seq<char>| vp.1.contains(x) ==> pend.contains(x) || !vis.contains(x))
        }),
    decreases kids.len() - k,
{
    if 0 <= k < kids.len() {
        let p = spec_path_join(parent, kids[k]);
        if vis.contains(p) {
            lemma_enqueue_children_wf(vis, pend, parent, kids, k + 1);
        } else {
            lemma_push_facts(vis, p);
            lemma_push_facts(pend, p);
            assert(!pend.contains(p));
            lemma_enqueue_children_wf(vis.push(p), pend.push(p), parent, kids, k + 1);
            let vp = enqueue_children(vis, pend, parent, kids, k);
            assert(vp == enqueue_children(vis.push(p), pend.push(p), parent, kids, k + 1));
            assert forall|x: Seq<char>| vis.contains(x) implies vp.0.contains(x) by {
                assert(vis.push(p).contains(x));
            }
            assert forall|x: Seq<char>| vp.1.contains(x) implies pend.contains(x)
                || !vis.contains(x) by {
                assert(pend.push(p).contains(x) || !vis.push(p).contains(x));
                if pend.push(p).contains(x) {
                    if x == p {
                        assert(!vis.contains(p));
                    } else {
                        assert(pend.contains(x));
                    }
                } else {
                    assert(!vis.contains(x));
                }
            }
        }
    }
}

/// One step from a well-formed state is well-formed: the walk never visits
/// a path twice, whatever the outcome.
pub proof fn lemma_walk_step_wf(m: WalkModel, reply: ReplyModel)
    requires
        walk_wf(m),
    ensures
        walk_wf(walk_step(m, reply)),
{
    if m.pending.len() > 0 {
        let path = m.pending.last();
        let pend0 = m.pending.drop_last();
        assert(m.pending.contains(path));
        assert(m.visited.contains(path));
        assert(pend0.no_duplicates());
        assert(!pend0.contains(path)) by {
            if pend0.contains(path) {
                let i = choose|i: int| 0 <= i < pend0.len() && pend0[i] == path;
                assert(m.pending[i] == m.pending[m.pending.len() - 1]);
            }
        }
        assert(forall|x: Seq<char>| pend0.contains(x) ==> m.pending.contains(x)) by {
            assert forall|x: Seq<char>| pend0.contains(x) implies m.pending.contains(x) by {
                let i = choose|i: int| 0 <= i < pend0.len() && pend0[i] == x;
                assert(m.pending[i] == x);
            }
        }
        assert(!paths_of(m.objects).contains(path));
        let r = spec_object_record(m.service, path, reply);
        let objs2 = m.objects.push(r);
        assert(r.path == path);
        assert(paths_of(objs2) =~= paths_of(m.objects).push(path));
        lemma_push_facts(paths_of(m.objects), path);
        assert(paths_of(objs2).no_duplicates());
        assert(forall|x: Seq<char>|
            paths_of(objs2).contains(x) ==> paths_of(m.objects).contains(x) || x == path);
        if r.error is None {
            lemma_enqueue_children_wf(m.visited, pend0, path, r.child_nodes, 0);
            let vp = enqueue_children(m.visited, pend0, path, r.child_nodes, 0);
            let m2 = walk_step(m, reply);
            assert(m2.visited == vp.0 && m2.pending == vp.1 && m2.objects == objs2);
            assert forall|x: Seq<char>| paths_of(m2.objects).contains(x)
                implies m2.visited.contains(x)
            by {
                assert(paths_of(m.objects).contains(x) || x == path);
                assert(m.visited.contains(x));
            }
            assert forall|x: Seq<char>|
                !(m2.pending.contains(x) && paths_of(m2.objects).contains(x))
            by {
                if m2.pending.contains(x) && paths_of(m2.objects).contains(x) {
                    assert(pend0.contains(x) || !m.visited.contains(x));
                    assert(paths_of(m.objects).contains(x) || x == path);
                    assert(m.visited.contains(x));
                    assert(pend0.contains(x));
                    if x == path {
                        assert(!pend0.contains(path));
                    } else {
                        assert(m.pending.contains(x));
                        assert(paths_of(m.objects).contains(x));
                    }
                }
            }
        } else {
            let m2 = walk_step(m, reply);
            assert forall|x: Seq<char>|
                !(m2.pending.contains(x) && paths_of(m2.objects).contains(x))
            by {
                if m2.pending.contains(x) && paths_of(m2.objects).contains(x) {
                    assert(m.pending.contains(x));
                    if x == path {
                        assert(!pend0.contains(path));
                    } else {
                        assert(paths_of(m.objects).contains(x));
                    }
                }
            }
        }
    }
}

// ---------------------------------------------------------------------------
// The executable walker
// ---------------------------------------------------------------------------

/// A walk in progress over one service's object graph.
pub struct ObjectWalk {
    pub service: String,
    pub pending: Vec<String>,
    pub visited: Vec<String>,
    pub objects: Vec<ObjectInfo>,
}

impl ObjectWalk {
    /// The walk's model.
    pub open spec fn model(&self) -> WalkModel {
        WalkModel {
            service: self.service@,
            pending: strs_view(self.pending@),
            visited: strs_view(self.visited@),
            objects: objects_model(self.objects@),
        }
    }

    /// Whether the walk can never visit a path twice.
    pub open spec fn wf(&self) -> bool {
        walk_wf(self.model())
    }

    /// A fresh walk of `service_name`, poised to introspect the root path.
    pub fn new(service_name: &str) -> (r: ObjectWalk)
        ensures
            r.model() == walk_init(service_name@),
            r.wf(),
    {
        let mut pending: Vec<String> = Vec::new();
        pending.push(String::from_str("/"));
        let mut visited: Vec<String> = Vec::new();
        visited.push(String::from_str("/"));
        let r = ObjectWalk {
            service: String::from_str(service_name),
            pending,
            visited,
            objects: Vec::new(),
        };
        proof {
            assert(strs_view(r.pending@) =~= seq!["/"@]);
            assert(strs_view(r.visited@) =~= seq!["/"@]);
            assert(objects_model(r.objects@) =~= Seq::<ObjectModel>::empty());
            assert(r.model() =~= walk_init(service_name@));
        }
        r
    }

    /// Whether the worklist is exhausted and the walk complete.
    pub fn is_done(&self) -> (r: bool)
        ensures
            r == (self.model().pending.len() == 0),
    {
        self.pending.len() == 0
    }

    /// The next path to introspect, if the walk is not yet complete.
    pub fn next_path(&self) -> (r: Option<String>)
        ensures
            match r {
                Some(p) => self.model().pending.len() > 0 && p@ == self.model().pending.last(),
                None => self.model().pending.len() == 0,
            },
    {
        if self.pending.len() == 0 {
            None
        } else {
            Some(self.pending[self.pending.len() - 1].clone())
        }
    }

    /// Records the outcome of introspecting the current `next_path`: the
    /// path is taken off the worklist, its object record is appended, and a
    /// successful object's unvisited children are enqueued.
    pub fn record(&mut self, reply: IntrospectReply)
        requires
            old(self).wf(),
            old(self).model().pending.len() > 0,
        ensures
            final(self).model() == walk_step(old(self).model(), reply_view(reply)),
            final(self).wf(),
    {
        let ghost m0 = self.model();
        let ghost rv = reply_view(reply);
        let path = self.pending.pop().unwrap();
        proof {
            assert(path@ == m0.pending.last());
            assert(strs_view(self.pending@) =~= m0.pending.drop_last());
        }
        let record = build_object_record(self.service.as_str(), path.as_str(), reply);
        let ghost rm = spec_object_record(m0.service, path@, rv);
        proof {
            assert(object_model(record) == rm);
        }
        if record.error.is_none() {
            let ghost kids = rm.child_nodes;
            let mut k: usize = 0;
            proof {
                assert(strs_view(record.child_nodes@) == kids);
                assert(enqueue_children(m0.visited, m0.pending.drop_last(), path@, kids, 0)
                    == enqueue_children(
                    strs_view(self.visited@),
                    strs_view(self.pending@),
                    path@,
                    kids,
                    0,
                ));
            }
            while k < record.child_nodes.len()
                invariant
                    k <= record.child_nodes@.len(),
                    strs_view(record.child_nodes@) == kids,
                    self.service == old(self).service,
                    self.objects == old(self).objects,
                    enqueue_children(m0.visited, m0.pending.drop_last(), path@, kids, 0)
                        == enqueue_children(
                        strs_view(self.visited@),
                        strs_view(self.pending@),
                        path@,
                        kids,
                        k as int,
                    ),
                decreases record.child_nodes@.len() - k,
            {
                let child_path = path_join(path.as_str(), record.child_nodes[k].as_str());
                proof {
                    assert(child_path@ == spec_path_join(path@, kids[k as int]));
                }
                if !vec_contains_str(&self.visited, child_path.as_str()) {
                    let ghost vis0 = strs_view(self.visited@);
                    let ghost pend0 = strs_view(self.pending@);
                    self.visited.push(child_path.clone());
                    self.pending.push(child_path);
                    proof {
                        assert(strs_view(self.visited@) =~= vis0.push(
                            spec_path_join(path@, kids[k as int]),
                        ));
                        assert(strs_view(self.pending@) =~= pend0.push(
                            spec_path_join(path@, kids[k as int]),
                        ));
                    }
                }
                k += 1;
            }
            self.objects.push(record);
            proof {
                assert(objects_model(self.objects@) =~= m0.objects.push(rm));
                assert(self.model() =~= walk_step(m0, rv));
                lemma_walk_step_wf(m0, rv);
            }
        } else {
            self.objects.push(record);
            proof {
                assert(objects_model(self.objects@) =~= m0.objects.push(rm));
                assert(self.model() =~= walk_step(m0, rv));
                lemma_walk_step_wf(m0, rv);
            }
        }
    }

    /// Closes a finished walk into the service's record.  The object paths
    /// are pairwise distinct; an empty result without an explanation is
    /// disallowed, so a walk that found nothing carries a generic error.
    pub fn into_service_record(self, owner: Option<String>) -> (r: ServiceInfo)
        requires
            self.wf(),
            self.model().pending.len() == 0,
        ensures
            service_model(r) == finish_walk(self.model(), opt_view(owner)),
            paths_of(service_model(r).objects).no_duplicates(),
    {
        let err: Option<String> = if self.objects.len() == 0 {
            Some(String::from_str("No accessible objects found or service not authorized"))
        } else {
            None
        };
        let r = ServiceInfo { name: self.service, owner, objects: self.objects, error: err };
        proof {
            assert(service_model(r) =~= finish_walk(self.model(), opt_view(owner)));
        }
        r
    }
}

/// The record a finished walk denotes: its objects in completion order, and
/// a synthesized error exactly when nothing at all was recorded.
pub open spec fn finish_walk(m: WalkModel, owner: Option<Seq<char>>) -> ServiceModel {
    ServiceModel {
        name: m.service,
        owner: owner,
        objects: m.objects,
        error: if m.objects.len() == 0 {
            Some(no_objects_text())
        } else {
            None
        },
    }
}

/// Whether `v` holds a string spelling `s`.
fn vec_contains_str(v: &Vec<String>, s: &str) -> (r: bool)
    ensures
        r == strs_view(v@).contains(s@),
{
    let mut i: usize = 0;
    while i < v.len()
        invariant
            i <= v@.len(),
            forall|j: int| 0 <= j < i ==> strs_view(v@)[j] != s@,
        decreases v@.len() - i,
    {
        if str_eq(v[i].as_str(), s) {
            proof {
                assert(strs_view(v@)[i as int] == s@);
            }
            return true;
        }
        i += 1;
    }
    proof {
        assert(!strs_view(v@).contains(s@));
    }
    false
}

// ---------------------------------------------------------------------------
// Laws of the walk
// ---------------------------------------------------------------------------

/// A root-introspection failure — a transport fault, or schema text that
/// does not decode — ends the walk at once: the record holds exactly one
/// object, the root, carrying the error, and nothing further is explored.
pub proof fn lemma_root_failure(service: Seq<char>, reply: ReplyModel)
    requires
        match reply {
            ReplyModel::CallFault(_) => true,
            ReplyModel::Schema(x) => spec_parse_schema(x) is None,
        },
    ensures
        ({
            let m = walk_step(walk_init(service), reply);
            m.pending.len() == 0
            && m.objects.len() == 1
            && m.objects[0].path == "/"@
            && m.objects[0].error is Some
            && m.objects[0].interfaces.len() == 0
            && m.objects[0].child_nodes.len() == 0
        }),
{
    let init = walk_init(service);
    assert(init.pending.last() == "/"@);
    assert(init.pending.drop_last() =~= Seq::<Seq<char>>::empty());
}

/// The reply an unchanged static graph gives for a path: always the same,
/// call after call; a path the graph does not answer for faults.
pub open spec fn graph_reply(g: Map<Seq<char>, ReplyModel>, p: Seq<char>) -> ReplyModel {
    if g.contains_key(p) {
        g[p]
    } else {
        ReplyModel::CallFault("org.freedesktop.DBus.Error.UnknownMethod"@)
    }
}

/// The walk's state after `n` steps against a static graph.
pub open spec fn walk_run(service: Seq<char>, g: Map<Seq<char>, ReplyModel>, n: nat) -> WalkModel
    decreases n,
{
    if n == 0 {
        walk_init(service)
    } else {
        let m = walk_run(service, g, (n - 1) as nat);
        if m.pending.len() == 0 {
            m
        } else {
            walk_step(m, graph_reply(g, m.pending.last()))
        }
    }
}

proof fn lemma_walk_run_stable(service: Seq<char>, g: Map<Seq<char>, ReplyModel>, n: nat, k: nat)
    requires
        walk_run(service, g, n).pending.len() == 0,
    ensures
        walk_run(service, g, (n + k) as nat) == walk_run(service, g, n),
    decreases k,
{
    if k > 0 {
        lemma_walk_run_stable(service, g, n, (k - 1) as nat);
    }
}

/// Re-walking an unchanged static graph is deterministic: any two complete
/// walks of the same service against the same graph end in the very same
/// state, so in particular they discover identical sets of paths.
pub proof fn lemma_rewalk_identical(
    service: Seq<char>,
    g: Map<Seq<char>, ReplyModel>,
    n1: nat,
    n2: nat,
)
    requires
        walk_run(service, g, n1).pending.len() == 0,
        walk_run(service, g, n2).pending.len() == 0,
    ensures
        walk_run(service, g, n1) == walk_run(service, g, n2),
        paths_of(walk_run(service, g, n1).objects) == paths_of(walk_run(service, g, n2).objects),
{
    if n1 <= n2 {
        lemma_walk_run_stable(service, g, n1, (n2 - n1) as nat);
    } else {
        lemma_walk_run_stable(service, g, n2, (n1 - n2) as nat);
    }
}

} // verus!
