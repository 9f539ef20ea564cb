use vstd::prelude::*;

use crate::chars::{contains_seq, contains_str, lemma_lex_asym, lemma_lex_total, lemma_lex_trans,
    lex_leq, lex_lt, str_eq, str_lt};
use crate::records::{service_model, strs_view, ServiceInfo, ServiceModel};
use crate::seqs::{lemma_filter_membership, lemma_filter_step, lemma_insert_multiset};

verus! {

// ===========================================================================
// Service-name enumeration and aggregation.
//
// The transport lists every name registered on the bus; this module selects
// and orders them.  Private per-connection names — those opening with the
// bus's colon sigil — are never walked or shown.  A names-only listing is
// sorted and deduplicated; a full discovery keeps the names matching an
// optional substring filter and sorts the resulting service records by
// name.
// ===========================================================================

/// A private, connection-scoped bus name: one opening with the colon sigil.
pub open spec fn is_private_name(s: Seq<char>) -> bool {
    s.len() > 0 && s[0] == ':'
}

/// Whether the public name survives an optional substring filter.
pub open spec fn name_selected(s: Seq<char>, filter: Option<Seq<char>>) -> bool {
    !is_private_name(s) && match filter {
        Some(f) => contains_seq(s, f),
        None => true,
    }
}

/// The selection predicate for one optional filter.
pub open spec fn selection_pred(filter: Option<Seq<char>>) -> spec_fn(Seq<char>) -> bool {
    |s: Seq<char>| name_selected(s, filter)
}

/// Every pair of entries is in order.
pub open spec fn sorted_leq(s: Seq<Seq<char>>) -> bool {
    forall|i: int, j: int| 0 <= i < j < s.len() ==> lex_leq(#[trigger] s[i], #[trigger] s[j])
}

/// The views of a sequence of service records.
pub open spec fn services_model(s: Seq<ServiceInfo>) -> Seq<ServiceModel> {
    s.map_values(|x: ServiceInfo| service_model(x))
}

/// Service records sorted by name.
pub open spec fn services_sorted(s: Seq<ServiceModel>) -> bool {
    forall|i: int, j: int| 0 <= i < j < s.len() ==> lex_leq((#[trigger] s[i]).name, (#[trigger] s[j]).name)
}

fn is_private(name: &str) -> (r: bool)
    ensures
        r == is_private_name(name@),
{
    name.unicode_len() > 0 && name.get_char(0) == ':'
}

/// Keeps the names a discovery walks: public ones, and — when a filter is
/// given — only those containing it as an ordinary case-sensitive
/// substring, in their original order.
pub fn select_walk_names(names: &Vec<String>, filter: Option<&str>) -> (r: Vec<String>)
    ensures
        strs_view(r@) == strs_view(names@).filter(
            selection_pred(
                match filter {
                    Some(f) => Some(f@),
                    None => None,
                },
            ),
        ),
{
    let ghost fv: Option<Seq<char>> = match filter {
        Some(f) => Some(f@),
        None => None,
    };
    let ghost p = selection_pred(fv);
    let mut r: Vec<String> = Vec::new();
    let mut i: usize = 0;
    proof {
        reveal(Seq::filter);
        assert(strs_view(names@).take(0) =~= Seq::<Seq<char>>::empty());
        assert(strs_view(r@) =~= strs_view(names@).take(0).filter(p));
    }
    while i < names.len()
        invariant
            i <= names@.len(),
            fv == (match filter {
                Some(f) => Some(f@),
                None => None,
            }),
            p == selection_pred(fv),
            strs_view(r@) == strs_view(names@).take(i as int).filter(p),
        decreases names@.len() - i,
    {
        let keep: bool = if is_private(names[i].as_str()) {
            false
        } else {
            match filter {
                Some(f) => contains_str(names[i].as_str(), f),
                None => true,
            }
        };
        proof {
            assert(keep == p(strs_view(names@)[i as int]));
            assert(strs_view(names@).take(i + 1) =~= strs_view(names@).take(i as int).push(
                strs_view(names@)[i as int],
            ));
            lemma_filter_step(strs_view(names@).take(i as int), strs_view(names@)[i as int], p);
        }
        if keep {
            let ghost before = strs_view(r@);
            r.push(names[i].clone());
            proof {
                assert(strs_view(r@) =~= before.push(strs_view(names@)[i as int]));
            }
        }
        i += 1;
    }
    proof {
        assert(strs_view(names@).take(names@.len() as int) =~= strs_view(names@));
    }
    r
}

/// Sorts names into lexicographic code-point order.  The result is a
/// permutation of the input.
pub fn sort_names(names: Vec<String>) -> (r: Vec<String>)
    ensures
        strs_view(r@).to_multiset() == strs_view(names@).to_multiset(),
        sorted_leq(strs_view(r@)),
{
    broadcast use vstd::seq_lib::group_to_multiset_ensures;

    let mut rest = names;
    let mut r: Vec<String> = Vec::new();
    let ghost all = strs_view(rest@);
    proof {
        assert(strs_view(r@) =~= Seq::<Seq<char>>::empty());
        assert(strs_view(r@).to_multiset().add(strs_view(rest@).to_multiset())
            =~= all.to_multiset());
    }
    while rest.len() > 0
        invariant
            strs_view(r@).to_multiset().add(strs_view(rest@).to_multiset())
                == all.to_multiset(),
            sorted_leq(strs_view(r@)),
        decreases rest@.len(),
    {
        let ghost rest0 = strs_view(rest@);
        let x = rest.pop().unwrap();
        proof {
            assert(strs_view(rest@) =~= rest0.drop_last());
            assert(rest0.drop_last().push(x@) =~= rest0);
            rest0.drop_last().to_multiset_ensures();
            assert(rest0.drop_last().push(x@).to_multiset() =~= rest0.drop_last().to_multiset()
                .insert(x@));
            assert(rest0.drop_last().to_multiset().insert(x@) =~= rest0.to_multiset());
        }
        let idx = sorted_insert_position(&r, x.as_str());
        let ghost r0 = strs_view(r@);
        r.insert(idx, x);
        proof {
            assert(strs_view(r@) =~= r0.insert(idx as int, x@));
            lemma_insert_multiset(r0, idx as int, x@);
            lemma_sorted_insert(r0, idx as int, x@);
        }
    }
    proof {
        assert(strs_view(rest@).to_multiset() =~= Seq::<Seq<char>>::empty().to_multiset());
        assert(strs_view(r@).to_multiset() =~= all.to_multiset());
    }
    r
}

/// The position at which `x` can be inserted into the sorted `r` keeping it
/// sorted: every earlier entry is at most `x`, and `x` comes strictly
/// before every entry from the position on.
fn sorted_insert_position(r: &Vec<String>, x: &str) -> (idx: usize)
    requires
        sorted_leq(strs_view(r@)),
    ensures
        idx <= r@.len(),
        forall|j: int| 0 <= j < idx ==> !lex_lt(x@, #[trigger] strs_view(r@)[j]),
        forall|j: int| idx <= j < r@.len() ==> lex_lt(x@, #[trigger] strs_view(r@)[j]),
{
    let mut idx: usize = 0;
    while idx < r.len() && !str_lt(x, r[idx].as_str())
        invariant
            idx <= r@.len(),
            sorted_leq(strs_view(r@)),
            forall|j: int| 0 <= j < idx ==> !lex_lt(x@, #[trigger] strs_view(r@)[j]),
        decreases r@.len() - idx,
    {
        idx += 1;
    }
    proof {
        if idx < r@.len() {
            assert forall|j: int| idx <= j < r@.len() implies lex_lt(
                x@,
                #[trigger] strs_view(r@)[j],
            ) by {
                if j > idx {
                    assert(lex_leq(strs_view(r@)[idx as int], strs_view(r@)[j]));
                    if lex_lt(strs_view(r@)[j], x@) {
                        lemma_lex_trans(strs_view(r@)[j], x@, strs_view(r@)[idx as int]);
                    }
                    lemma_lex_total(x@, strs_view(r@)[j]);
                    if !lex_lt(x@, strs_view(r@)[j]) {
                        // same code points as x, yet x comes before r[idx]:
                        // then so would r[j], contradicting sortedness
                        crate::chars::lemma_lex_congr(
                            x@,
                            strs_view(r@)[idx as int],
                            strs_view(r@)[j],
                            strs_view(r@)[idx as int],
                        );
                    }
                }
            }
        }
    }
    idx
}

proof fn lemma_sorted_insert(r0: Seq<Seq<char>>, idx: int, x: Seq<char>)
    requires
        sorted_leq(r0),
        0 <= idx <= r0.len(),
        forall|j: int| 0 <= j < idx ==> !lex_lt(x, #[trigger] r0[j]),
        forall|j: int| idx <= j < r0.len() ==> lex_lt(x, #[trigger] r0[j]),
    ensures
        sorted_leq(r0.insert(idx, x)),
{
    let t = r0.insert(idx, x);
    assert forall|i: int, j: int| 0 <= i < j < t.len() implies lex_leq(
        #[trigger] t[i],
        #[trigger] t[j],
    ) by {
        if i == idx && j > idx {
            assert(t[i] == x && t[j] == r0[j - 1]);
            assert(lex_lt(x, r0[j - 1]));
            lemma_lex_asym(x, r0[j - 1]);
        } else if j == idx && i < idx {
            assert(t[i] == r0[i] && t[j] == x);
            assert(!lex_lt(x, r0[i]));
        } else if i < idx && j > idx {
            assert(t[i] == r0[i] && t[j] == r0[j - 1]);
        } else if i < idx && j < idx {
            assert(t[i] == r0[i] && t[j] == r0[j]);
        } else if i > idx && j > idx {
            assert(t[i] == r0[i - 1] && t[j] == r0[j - 1]);
        }
    }
}

/// Removes repeated names: an entry equal to the last kept one goes, every
/// other entry stays, in order.  No two neighbouring results are equal; on
/// sorted input this removes every duplicate and keeps the order.
pub fn dedup_names(names: Vec<String>) -> (r: Vec<String>)
    ensures
        forall|i: int|
            0 < i < strs_view(r@).len() ==> #[trigger] strs_view(r@)[i] != strs_view(r@)[i - 1],
        forall|x: Seq<char>| strs_view(r@).contains(x) <==> strs_view(names@).contains(x),
        sorted_leq(strs_view(names@)) ==> sorted_leq(strs_view(r@)),
{
    let ghost names_v = strs_view(names@);
    let mut r: Vec<String> = Vec::new();
    let mut i: usize = 0;
    while i < names.len()
        invariant
            i <= names@.len(),
            names_v == strs_view(names@),
            forall|i2: int|
                0 < i2 < strs_view(r@).len() ==> #[trigger] strs_view(r@)[i2] != strs_view(
                    r@,
                )[i2 - 1],
            forall|k: int|
                0 <= k < strs_view(r@).len() ==> exists|m: int|
                    0 <= m < i && #[trigger] strs_view(r@)[k] == names_v[m],
            forall|j: int| 0 <= j < i ==> strs_view(r@).contains(#[trigger] names_v[j]),
            sorted_leq(names_v) ==> sorted_leq(strs_view(r@)),
        decreases names@.len() - i,
    {
        let ghost r0 = strs_view(r@);
        let keep: bool = if r.len() == 0 {
            true
        } else {
            !str_eq(names[i].as_str(), r[r.len() - 1].as_str())
        };
        if keep {
            r.push(names[i].clone());
            proof {
                crate::seqs::lemma_push_contains(r0, names_v[i as int]);
                assert(strs_view(r@) =~= r0.push(names_v[i as int]));
                assert forall|k: int| 0 <= k < strs_view(r@).len() implies exists|m: int|
                    0 <= m < i + 1 && #[trigger] strs_view(r@)[k] == names_v[m] by {
                    if k < r0.len() {
                        let m = choose|m: int| 0 <= m < i && r0[k] == names_v[m];
                        assert(strs_view(r@)[k] == names_v[m]);
                    } else {
                        assert(strs_view(r@)[k] == names_v[i as int]);
                    }
                }
                if sorted_leq(names_v) {
                    assert forall|i2: int, j2: int|
                        0 <= i2 < j2 < strs_view(r@).len() implies lex_leq(
                        #[trigger] strs_view(r@)[i2],
                        #[trigger] strs_view(r@)[j2],
                    ) by {
                        if j2 == strs_view(r@).len() - 1 {
                            let m = choose|m: int| 0 <= m < i && r0[i2] == names_v[m];
                            assert(lex_leq(names_v[m], names_v[i as int]) || m == i) by {
                                if m < i {
                                    assert(lex_leq(names_v[m], names_v[i as int])
                                        || names_v[m] == names_v[i as int]);
                                    if names_v[m] == names_v[i as int] {
                                        lemma_lex_refl(names_v[m]);
                                    }
                                }
                            }
                        }
                    }
                }
            }
        } else {
            proof {
                assert(strs_view(r@).contains(names_v[i as int])) by {
                    assert(strs_view(r@)[r0.len() - 1] == names_v[i as int]);
                }
            }
        }
        i += 1;
    }
    proof {
        assert forall|x: Seq<char>| strs_view(r@).contains(x) implies strs_view(
            names@,
        ).contains(x) by {
            let k = choose|k: int| 0 <= k < strs_view(r@).len() && strs_view(r@)[k] == x;
            let m = choose|m: int| 0 <= m < i && strs_view(r@)[k] == names_v[m];
            assert(names_v[m] == x);
        }
    }
    r
}

/// Order is reflexive.
proof fn lemma_lex_refl(a: Seq<char>)
    ensures
        lex_leq(a, a),
{
    if lex_lt(a, a) {
        lemma_lex_asym(a, a);
    }
}

/// The listing and the registry agree on the public names: nothing private
/// is shown, nothing public is lost.
pub open spec fn same_public_names(shown: Seq<Seq<char>>, registered: Seq<Seq<char>>) -> bool {
    (forall|x: Seq<char>|
        #[trigger] shown.contains(x) ==> registered.contains(x) && !is_private_name(x))
    && (forall|x: Seq<char>|
        #[trigger] registered.contains(x) ==> is_private_name(x) || shown.contains(x))
}

/// The names a names-only listing shows: the public names, sorted, each at
/// most once, none lost.
pub fn select_public_names(names: Vec<String>) -> (r: Vec<String>)
    ensures
        sorted_leq(strs_view(r@)),
        forall|i: int|
            0 < i < strs_view(r@).len() ==> #[trigger] strs_view(r@)[i] != strs_view(
                r@,
            )[i - 1],
        same_public_names(strs_view(r@), strs_view(names@)),
{
    broadcast use vstd::seq_lib::group_to_multiset_ensures;

    let ghost p = selection_pred(None);
    let ghost names_v = strs_view(names@);
    let kept = select_walk_names(&names, None);
    let ghost kept_v = strs_view(kept@);
    let sorted = sort_names(kept);
    let ghost sorted_v = strs_view(sorted@);
    let r = dedup_names(sorted);
    proof {
        assert forall|x: Seq<char>| #[trigger] strs_view(r@).contains(x) implies strs_view(
            names@,
        ).contains(x) && !is_private_name(x) by {
            lemma_filter_membership(names_v, p, x);
            assert(kept_v == names_v.filter(p));
            assert(p(x) == !is_private_name(x));
            assert(sorted_v.contains(x) <==> kept_v.contains(x)) by {
                assert(sorted_v.to_multiset() == kept_v.to_multiset());
                assert(sorted_v.contains(x) <==> sorted_v.to_multiset().count(x) > 0);
                assert(kept_v.contains(x) <==> kept_v.to_multiset().count(x) > 0);
            }
            assert(strs_view(r@).contains(x) <==> sorted_v.contains(x));
        }
        assert forall|x: Seq<char>| #[trigger] strs_view(names@).contains(x) implies
            is_private_name(x) || strs_view(r@).contains(x) by {
            lemma_filter_membership(names_v, p, x);
            assert(kept_v == names_v.filter(p));
            assert(p(x) == !is_private_name(x));
            assert(sorted_v.contains(x) <==> kept_v.contains(x)) by {
                assert(sorted_v.to_multiset() == kept_v.to_multiset());
                assert(sorted_v.contains(x) <==> sorted_v.to_multiset().count(x) > 0);
                assert(kept_v.contains(x) <==> kept_v.to_multiset().count(x) > 0);
            }
            assert(strs_view(r@).contains(x) <==> sorted_v.contains(x));
        }
        assert(same_public_names(strs_view(r@), strs_view(names@)));
    }
    r
}

/// Sorts service records by name.  The result is a permutation of the
/// input, names in lexicographic order.
pub fn sort_services(services: Vec<ServiceInfo>) -> (r: Vec<ServiceInfo>)
    ensures
        services_model(r@).to_multiset() == services_model(services@).to_multiset(),
        services_sorted(services_model(r@)),
{
    broadcast use vstd::seq_lib::group_to_multiset_ensures;

    let mut rest = services;
    let mut r: Vec<ServiceInfo> = Vec::new();
    let ghost all = services_model(rest@);
    proof {
        assert(services_model(r@) =~= Seq::<ServiceModel>::empty());
        assert(services_model(r@).to_multiset().add(services_model(rest@).to_multiset())
            =~= all.to_multiset());
    }
    while rest.len() > 0
        invariant
            services_model(r@).to_multiset().add(services_model(rest@).to_multiset())
                == all.to_multiset(),
            services_sorted(services_model(r@)),
        decreases rest@.len(),
    {
        let ghost rest0 = services_model(rest@);
        let x = rest.pop().unwrap();
        proof {
            assert(services_model(rest@) =~= rest0.drop_last());
            assert(rest0.drop_last().push(service_model(x)) =~= rest0);
            rest0.drop_last().to_multiset_ensures();
            assert(rest0.drop_last().push(service_model(x)).to_multiset() =~= rest0.drop_last()
                .to_multiset().insert(service_model(x)));
            assert(rest0.drop_last().to_multiset().insert(service_model(x))
                =~= rest0.to_multiset());
        }
        let mut idx: usize = 0;
        while idx < r.len() && !str_lt(x.name.as_str(), r[idx].name.as_str())
            invariant
                idx <= r@.len(),
                services_sorted(services_model(r@)),
                forall|j: int|
                    0 <= j < idx ==> !lex_lt(x.name@, (#[trigger] services_model(r@)[j]).name),
            decreases r@.len() - idx,
        {
            idx += 1;
        }
        proof {
            if idx < r@.len() {
                assert forall|j: int| idx <= j < r@.len() implies lex_lt(
                    x.name@,
                    (#[trigger] services_model(r@)[j]).name,
                ) by {
                    if j > idx {
                        let a = services_model(r@)[idx as int].name;
                        let b = services_model(r@)[j].name;
                        assert(lex_leq(a, b));
                        if lex_lt(b, x.name@) {
                            lemma_lex_trans(b, x.name@, a);
                        }
                        lemma_lex_total(x.name@, b);
                        if !lex_lt(x.name@, b) {
                            crate::chars::lemma_lex_congr(x.name@, a, b, a);
                        }
                    }
                }
            }
        }
        let ghost r0 = services_model(r@);
        let ghost xm = service_model(x);
        r.insert(idx, x);
        proof {
            assert(services_model(r@) =~= r0.insert(idx as int, xm));
            lemma_insert_multiset(r0, idx as int, xm);
            lemma_sorted_insert_services(r0, idx as int, xm);
        }
    }
    proof {
        assert(services_model(rest@).to_multiset() =~= Seq::<
            ServiceModel,
        >::empty().to_multiset());
        assert(services_model(r@).to_multiset() =~= all.to_multiset());
    }
    r
}

proof fn lemma_sorted_insert_services(r0: Seq<ServiceModel>, idx: int, x: ServiceModel)
    requires
        services_sorted(r0),
        0 <= idx <= r0.len(),
        forall|j: int| 0 <= j < idx ==> !lex_lt(x.name, (#[trigger] r0[j]).name),
        forall|j: int| idx <= j < r0.len() ==> lex_lt(x.name, (#[trigger] r0[j]).name),
    ensures
        services_sorted(r0.insert(idx, x)),
{
    let t = r0.insert(idx, x);
    assert forall|i: int, j: int| 0 <= i < j < t.len() implies lex_leq(
        (#[trigger] t[i]).name,
        (#[trigger] t[j]).name,
    ) by {
        if i == idx && j > idx {
            assert(t[i] == x && t[j] == r0[j - 1]);
            lemma_lex_asym(x.name, r0[j - 1].name);
        } else if j == idx && i < idx {
            assert(t[i] == r0[i] && t[j] == x);
        } else if i < idx && j > idx {
            assert(t[i] == r0[i] && t[j] == r0[j - 1]);
        } else if i < idx && j < idx {
            assert(t[i] == r0[i] && t[j] == r0[j]);
        } else if i > idx && j > idx {
            assert(t[i] == r0[i - 1] && t[j] == r0[j - 1]);
        }
    }
}

} // verus!
