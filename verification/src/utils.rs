use vstd::prelude::*;

use crate::chars::{char_is_alphanumeric, lemma_lex_asym, lemma_lex_total, lemma_lex_trans,
    lex_leq, lex_lt, str_lt};
use crate::error::AppError;
use crate::records::{object_model, objects_model, ObjectInfo, ObjectModel};
use crate::seqs::{lemma_filter_step, lemma_insert_multiset};

verus! {

// ===========================================================================
// Input validation and object-tree helpers.
//
// Caller-supplied service names and object paths get basic syntactic checks
// before any bus call is attempted; a failure is a fault carried back to
// the caller, never a panic.
// ===========================================================================

/// A character a service name may contain.
pub open spec fn service_name_char_ok(c: char) -> bool {
    char_is_alphanumeric(c) || c == '.' || c == '_' || c == '-'
}

/// A syntactically acceptable service name: non-empty, at most 255
/// characters, alphanumerics and separators only.
pub open spec fn valid_service_name(s: Seq<char>) -> bool {
    0 < s.len() <= 255 && (forall|i: int| 0 <= i < s.len() ==> service_name_char_ok(#[trigger] s[i]))
}

/// The complaint for a rejected service name.
pub open spec fn service_name_fault_text(s: Seq<char>) -> Seq<char> {
    if s.len() == 0 {
        "Service name cannot be empty"@
    } else if s.len() > 255 {
        "Service name too long"@
    } else {
        "Invalid characters in service name"@
    }
}

/// Accepts exactly the syntactically valid service names; anything else is
/// an invalid-input fault naming the first failed check.
pub fn validate_service_name(service_name: &str) -> (r: Result<(), AppError>)
    ensures
        r is Ok <==> valid_service_name(service_name@),
        r matches Err(e) ==> e matches AppError::InvalidInput(m) && m@ == service_name_fault_text(
            service_name@,
        ),
{
    let n = service_name.unicode_len();
    if n == 0 {
        return Err(AppError::InvalidInput(String::from_str("Service name cannot be empty")));
    }
    if n > 255 {
        return Err(AppError::InvalidInput(String::from_str("Service name too long")));
    }
    let mut i: usize = 0;
    while i < n
        invariant
            i <= n,
            n == service_name@.len(),
            0 < n <= 255,
            forall|j: int| 0 <= j < i ==> service_name_char_ok(#[trigger] service_name@[j]),
        decreases n - i,
    {
        let c = service_name.get_char(i);
        if !(c.is_alphanumeric() || c == '.' || c == '_' || c == '-') {
            return Err(
                AppError::InvalidInput(String::from_str("Invalid characters in service name")),
            );
        }
        i += 1;
    }
    Ok(())
}

/// A character an object path may contain.
pub open spec fn object_path_char_ok(c: char) -> bool {
    char_is_alphanumeric(c) || c == '/' || c == '_' || c == '-'
}

/// A syntactically acceptable object path: non-empty, opening with the path
/// separator, at most 1024 characters, alphanumerics and separators only.
pub open spec fn valid_object_path(s: Seq<char>) -> bool {
    0 < s.len() <= 1024 && s[0] == '/' && (forall|i: int|
        0 <= i < s.len() ==> object_path_char_ok(#[trigger] s[i]))
}

/// The complaint for a rejected object path.
pub open spec fn object_path_fault_text(s: Seq<char>) -> Seq<char> {
    if s.len() == 0 {
        "Object path cannot be empty"@
    } else if s[0] != '/' {
        "Object path must start with '/'"@
    } else if s.len() > 1024 {
        "Object path too long"@
    } else {
        "Invalid characters in object path"@
    }
}

/// Accepts exactly the syntactically valid object paths; anything else is
/// an invalid-input fault naming the first failed check.
pub fn validate_object_path(object_path: &str) -> (r: Result<(), AppError>)
    ensures
        r is Ok <==> valid_object_path(object_path@),
        r matches Err(e) ==> e matches AppError::InvalidInput(m) && m@ == object_path_fault_text(
            object_path@,
        ),
{
    let n = object_path.unicode_len();
    if n == 0 {
        return Err(AppError::InvalidInput(String::from_str("Object path cannot be empty")));
    }
    if object_path.get_char(0) != '/' {
        return Err(
            AppError::InvalidInput(String::from_str("Object path must start with '/'")),
        );
    }
    if n > 1024 {
        return Err(AppError::InvalidInput(String::from_str("Object path too long")));
    }
    let mut i: usize = 0;
    while i < n
        invariant
            i <= n,
            n == object_path@.len(),
            0 < n <= 1024,
            object_path@[0] == '/',
            forall|j: int| 0 <= j < i ==> object_path_char_ok(#[trigger] object_path@[j]),
        decreases n - i,
    {
        let c = object_path.get_char(i);
        if !(c.is_alphanumeric() || c == '/' || c == '_' || c == '-') {
            return Err(
                AppError::InvalidInput(String::from_str("Invalid characters in object path")),
            );
        }
        i += 1;
    }
    Ok(())
}

// ---------------------------------------------------------------------------
// Direct children of a path
// ---------------------------------------------------------------------------

/// Whether some entry of `s`, from `from` on, is the path separator.
pub open spec fn has_slash_from(s: Seq<char>, from: int) -> bool {
    exists|j: int| from <= j < s.len() && s[j] == '/'
}

/// Whether `path` addresses a direct child of `parent`: it extends `parent`
/// past a separator by exactly one further segment.
pub open spec fn is_direct_child(path: Seq<char>, parent: Seq<char>) -> bool {
    path != parent && path.len() >= parent.len() && path.take(parent.len() as int) == parent && {
        let from = if parent == seq!['/'] {
            1int
        } else {
            parent.len() as int
        };
        from < path.len() && path[from] == '/' && !has_slash_from(path, from + 1)
    }
}

/// An object a child listing shows: fetched without error, at a direct
/// child path.
pub open spec fn child_selected(m: ObjectModel, parent: Seq<char>) -> bool {
    m.error is None && is_direct_child(m.path, parent)
}

/// The child-selection predicate for one parent path.
pub open spec fn child_pred(parent: Seq<char>) -> spec_fn(ObjectModel) -> bool {
    |m: ObjectModel| child_selected(m, parent)
}

fn direct_child_check(path: &str, parent: &str) -> (r: bool)
    ensures
        r == is_direct_child(path@, parent@),
{
    let np = path.unicode_len();
    let nq = parent.unicode_len();
    if np < nq {
        return false;
    }
    // prefix test, and equality alongside it
    let mut i: usize = 0;
    while i < nq
        invariant
            i <= nq <= np,
            np == path@.len(),
            nq == parent@.len(),
            forall|j: int| 0 <= j < i ==> path@[j] == parent@[j],
        decreases nq - i,
    {
        if path.get_char(i) != parent.get_char(i) {
            proof {
                assert(path@.take(nq as int)[i as int] != parent@[i as int]);
            }
            return false;
        }
        i += 1;
    }
    proof {
        assert(path@.take(nq as int) =~= parent@);
    }
    if np == nq {
        proof {
            assert(path@ =~= parent@);
        }
        return false;
    }
    proof {
        assert(path@ != parent@) by {
            assert(path@.len() != parent@.len());
        }
    }
    let root = crate::chars::str_eq(parent, "/");
    proof {
        reveal_strlit("/");
        assert("/"@ =~= seq!['/']);
    }
    let from: usize = if root {
        1
    } else {
        nq
    };
    if from >= np {
        return false;
    }
    if path.get_char(from) != '/' {
        return false;
    }
    let mut j: usize = from + 1;
    while j < np
        invariant
            from + 1 <= j <= np,
            np == path@.len(),
            path@ != parent@,
            parent@.len() <= path@.len(),
            path@.take(parent@.len() as int) == parent@,
            from as int == (if parent@ == seq!['/'] {
                1int
            } else {
                parent@.len() as int
            }),
            from < np,
            path@[from as int] == '/',
            forall|k: int| from + 1 <= k < j ==> path@[k] != '/',
        decreases np - j,
    {
        if path.get_char(j) == '/' {
            proof {
                assert(has_slash_from(path@, from + 1));
            }
            return false;
        }
        j += 1;
    }
    proof {
        assert(!has_slash_from(path@, from + 1));
    }
    true
}

/// The models behind a sequence of object references.
pub open spec fn ref_models(s: Seq<&ObjectInfo>) -> Seq<ObjectModel> {
    s.map_values(|o: &ObjectInfo| object_model(*o))
}

/// The error-free objects whose paths are direct children of `parent_path`,
/// sorted by path.
pub fn find_child_objects<'a>(objects: &'a Vec<ObjectInfo>, parent_path: &str) -> (r: Vec<
    &'a ObjectInfo,
>)
    ensures
        ref_models(r@).to_multiset() == objects_model(objects@).filter(
            child_pred(parent_path@),
        ).to_multiset(),
        forall|i: int, j: int|
            0 <= i < j < r@.len() ==> lex_leq(
                (#[trigger] ref_models(r@)[i]).path,
                (#[trigger] ref_models(r@)[j]).path,
            ),
{
    let ghost p = child_pred(parent_path@);
    let mut picked: Vec<&'a ObjectInfo> = Vec::new();
    let mut i: usize = 0;
    proof {
        reveal(Seq::filter);
        assert(objects_model(objects@).take(0) =~= Seq::<ObjectModel>::empty());
        assert(ref_models(picked@) =~= objects_model(objects@).take(0).filter(p));
    }
    while i < objects.len()
        invariant
            i <= objects@.len(),
            p == child_pred(parent_path@),
            ref_models(picked@) == objects_model(objects@).take(i as int).filter(p),
        decreases objects@.len() - i,
    {
        let o = &objects[i];
        let keep = o.error.is_none() && direct_child_check(o.path.as_str(), parent_path);
        proof {
            assert(keep == p(objects_model(objects@)[i as int]));
            assert(objects_model(objects@).take(i + 1) =~= objects_model(objects@).take(
                i as int,
            ).push(objects_model(objects@)[i as int]));
            lemma_filter_step(
                objects_model(objects@).take(i as int),
                objects_model(objects@)[i as int],
                p,
            );
        }
        if keep {
            let ghost before = ref_models(picked@);
            picked.push(o);
            proof {
                assert(ref_models(picked@) =~= before.push(objects_model(objects@)[i as int]));
            }
        }
        i += 1;
    }
    proof {
        assert(objects_model(objects@).take(objects@.len() as int) =~= objects_model(objects@));
    }
    sort_objects_by_path(picked)
}

/// Sorts object references by path.  The result is a permutation of the
/// input.
pub fn sort_objects_by_path<'a>(objs: Vec<&'a ObjectInfo>) -> (r: Vec<&'a ObjectInfo>)
    ensures
        ref_models(r@).to_multiset() == ref_models(objs@).to_multiset(),
        forall|i: int, j: int|
            0 <= i < j < r@.len() ==> lex_leq(
                (#[trigger] ref_models(r@)[i]).path,
                (#[trigger] ref_models(r@)[j]).path,
            ),
{
    broadcast use vstd::seq_lib::group_to_multiset_ensures;

    let mut rest = objs;
    let mut r: Vec<&'a ObjectInfo> = Vec::new();
    let ghost all = ref_models(rest@);
    proof {
        assert(ref_models(r@) =~= Seq::<ObjectModel>::empty());
        assert(ref_models(r@).to_multiset().add(ref_models(rest@).to_multiset())
            =~= all.to_multiset());
    }
    while rest.len() > 0
        invariant
            ref_models(r@).to_multiset().add(ref_models(rest@).to_multiset())
                == all.to_multiset(),
            forall|i2: int, j2: int|
                0 <= i2 < j2 < r@.len() ==> lex_leq(
                    (#[trigger] ref_models(r@)[i2]).path,
                    (#[trigger] ref_models(r@)[j2]).path,
                ),
        decreases rest@.len(),
    {
        let ghost rest0 = ref_models(rest@);
        let x = rest.pop().unwrap();
        proof {
            assert(ref_models(rest@) =~= rest0.drop_last());
            assert(rest0.drop_last().push(object_model(*x)) =~= rest0);
            rest0.drop_last().to_multiset_ensures();
            assert(rest0.drop_last().push(object_model(*x)).to_multiset() =~= rest0.drop_last()
                .to_multiset().insert(object_model(*x)));
            assert(rest0.drop_last().to_multiset().insert(object_model(*x))
                =~= rest0.to_multiset());
        }
        let mut idx: usize = 0;
        while idx < r.len() && !str_lt(x.path.as_str(), r[idx].path.as_str())
            invariant
                idx <= r@.len(),
                forall|i2: int, j2: int|
                    0 <= i2 < j2 < r@.len() ==> lex_leq(
                        (#[trigger] ref_models(r@)[i2]).path,
                        (#[trigger] ref_models(r@)[j2]).path,
                    ),
                forall|j: int|
                    0 <= j < idx ==> !lex_lt(x.path@, (#[trigger] ref_models(r@)[j]).path),
            decreases r@.len() - idx,
        {
            idx += 1;
        }
        proof {
            if idx < r@.len() {
                assert forall|j: int| idx <= j < r@.len() implies lex_lt(
                    x.path@,
                    (#[trigger] ref_models(r@)[j]).path,
                ) by {
                    if j > idx {
                        let a = ref_models(r@)[idx as int].path;
                        let b = ref_models(r@)[j].path;
                        assert(lex_leq(a, b));
                        if lex_lt(b, x.path@) {
                            lemma_lex_trans(b, x.path@, a);
                        }
                        lemma_lex_total(x.path@, b);
                        if !lex_lt(x.path@, b) {
                            crate::chars::lemma_lex_congr(x.path@, a, b, a);
                        }
                    }
                }
            }
        }
        let ghost r0 = ref_models(r@);
        let ghost xm = object_model(*x);
        r.insert(idx, x);
        proof {
            assert(ref_models(r@) =~= r0.insert(idx as int, xm));
            lemma_insert_multiset(r0, idx as int, xm);
            assert forall|i2: int, j2: int| 0 <= i2 < j2 < ref_models(r@).len() implies lex_leq(
                (#[trigger] ref_models(r@)[i2]).path,
                (#[trigger] ref_models(r@)[j2]).path,
            ) by {
                let t = r0.insert(idx as int, xm);
                if i2 == idx && j2 > idx {
                    assert(t[i2] == xm && t[j2] == r0[j2 - 1]);
                    lemma_lex_asym(xm.path, r0[j2 - 1].path);
                } else if j2 == idx && i2 < idx {
                    assert(t[i2] == r0[i2] && t[j2] == xm);
                } else if i2 < idx && j2 > idx {
                    assert(t[i2] == r0[i2] && t[j2] == r0[j2 - 1]);
                } else if i2 < idx && j2 < idx {
                    assert(t[i2] == r0[i2] && t[j2] == r0[j2]);
                } else if i2 > idx && j2 > idx {
                    assert(t[i2] == r0[i2 - 1] && t[j2] == r0[j2 - 1]);
                }
            }
        }
    }
    proof {
        assert(ref_models(rest@).to_multiset() =~= Seq::<ObjectModel>::empty().to_multiset());
        assert(ref_models(r@).to_multiset() =~= all.to_multiset());
    }
    r
}

} // verus!
