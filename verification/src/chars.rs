use vstd::prelude::*;

verus! {

// ===========================================================================
// Character and string groundwork
//
// The discovery core reasons about strings as sequences of characters.  This
// module supplies the few executable building blocks everything else is
// proved on top of: converting between `str` and `Vec<char>`, equality,
// lexicographic order, and substring search.
// ===========================================================================

/// What `char::is_alphanumeric` returns; it depends on the character alone.
pub uninterp spec fn char_is_alphanumeric(c: char) -> bool;

/// Relies on `char::is_alphanumeric`: true exactly on Unicode letters and
/// numeric characters, so every ASCII letter or digit is accepted and every
/// other ASCII character is refused.
pub assume_specification[ char::is_alphanumeric ](c: char) -> (r: bool)
    ensures
        r == char_is_alphanumeric(c),
        is_ascii_alphanumeric(c) ==> r,
        (c as u32) < 128 && !is_ascii_alphanumeric(c) ==> !r,
;

/// An ASCII letter or digit.
pub open spec fn is_ascii_alphanumeric(c: char) -> bool {
    (48 <= c as u32 && c as u32 <= 57)  // '0' ..= '9'
    || (65 <= c as u32 && c as u32 <= 90)  // 'A' ..= 'Z'
    || (97 <= c as u32 && c as u32 <= 122)  // 'a' ..= 'z'
}

/// The characters of a string slice, one per element.
pub fn str_to_chars(s: &str) -> (v: Vec<char>)
    ensures
        v@ == s@,
{
    let n = s.unicode_len();
    let mut v: Vec<char> = Vec::new();
    let mut i: usize = 0;
    while i < n
        invariant
            i <= n,
            n == s@.len(),
            v@ == s@.subrange(0, i as int),
        decreases n - i,
    {
        v.push(s.get_char(i));
        i += 1;
        proof {
            assert(v@ =~= s@.subrange(0, i as int));
        }
    }
    proof {
        assert(v@ =~= s@);
    }
    v
}

/// Relies on `String: FromIterator<char>`: collecting characters yields the
/// string of exactly those characters in order.
#[verifier::external_body]
pub(crate) fn chars_to_string(v: &Vec<char>) -> (s: String)
    ensures
        s@ == v@,
{
    v.iter().collect()
}

/// A copy of the characters of `v` from `from` (inclusive) to `to`
/// (exclusive).
pub fn sub_chars(v: &Vec<char>, from: usize, to: usize) -> (r: Vec<char>)
    requires
        from <= to <= v@.len(),
    ensures
        r@ == v@.subrange(from as int, to as int),
{
    let mut r: Vec<char> = Vec::new();
    let mut i: usize = from;
    while i < to
        invariant
            from <= i <= to <= v@.len(),
            r@ == v@.subrange(from as int, i as int),
        decreases to - i,
    {
        r.push(v[i]);
        i += 1;
        proof {
            assert(r@ =~= v@.subrange(from as int, i as int));
        }
    }
    r
}

/// Whether a character vector spells the same text as a string slice.
pub fn chars_eq_str(v: &Vec<char>, s: &str) -> (r: bool)
    ensures
        r == (v@ == s@),
{
    let n = s.unicode_len();
    if v.len() != n {
        return false;
    }
    let mut i: usize = 0;
    while i < n
        invariant
            i <= n,
            n == s@.len(),
            v@.len() == n,
            forall|j: int| 0 <= j < i ==> v@[j] == s@[j],
        decreases n - i,
    {
        if v[i] != s.get_char(i) {
            return false;
        }
        i += 1;
    }
    proof {
        assert(v@ =~= s@);
    }
    true
}

/// Whether two character vectors hold the same characters.
pub fn chars_eq(a: &Vec<char>, b: &Vec<char>) -> (r: bool)
    ensures
        r == (a@ == b@),
{
    let n = a.len();
    if b.len() != n {
        return false;
    }
    let mut i: usize = 0;
    while i < n
        invariant
            i <= n,
            n == a@.len() == b@.len(),
            forall|j: int| 0 <= j < i ==> a@[j] == b@[j],
        decreases n - i,
    {
        if a[i] != b[i] {
            return false;
        }
        i += 1;
    }
    proof {
        assert(a@ =~= b@);
    }
    true
}

/// Whether two string slices spell the same text.
pub fn str_eq(a: &str, b: &str) -> (r: bool)
    ensures
        r == (a@ == b@),
{
    let n = a.unicode_len();
    if b.unicode_len() != n {
        return false;
    }
    let mut i: usize = 0;
    while i < n
        invariant
            i <= n,
            n == a@.len() == b@.len(),
            forall|j: int| 0 <= j < i ==> a@[j] == b@[j],
        decreases n - i,
    {
        if a.get_char(i) != b.get_char(i) {
            return false;
        }
        i += 1;
    }
    proof {
        assert(a@ =~= b@);
    }
    true
}

/// The code point of a character.
pub open spec fn cp(c: char) -> u32 {
    c as u32
}

/// Whether two sequences spell the same code points.  Equal sequences
/// always do; the executable equality tests decide real equality, and every
/// order-related contract below speaks of code points.
pub open spec fn cp_eq(a: Seq<char>, b: Seq<char>) -> bool {
    a.len() == b.len() && (forall|j: int| 0 <= j < a.len() ==> cp(a[j]) == cp(b[j]))
}

/// `i` witnesses that `a` comes strictly before `b`: their code points
/// agree up to `i`, and there `a` either ends or has the smaller one.
pub open spec fn lex_lt_at(a: Seq<char>, b: Seq<char>, i: int) -> bool {
    0 <= i <= a.len() && i <= b.len()
    && (forall|j: int| 0 <= j < i ==> cp(a[j]) == cp(b[j]))
    && ((i == a.len() && i < b.len())
        || (i < a.len() && i < b.len() && cp(a[i]) < cp(b[i])))
}

/// Strict lexicographic order on character sequences, by code point.
pub open spec fn lex_lt(a: Seq<char>, b: Seq<char>) -> bool {
    exists|i: int| lex_lt_at(a, b, i)
}

/// Non-strict lexicographic order: `a` does not come after `b`.
pub open spec fn lex_leq(a: Seq<char>, b: Seq<char>) -> bool {
    !lex_lt(b, a)
}

/// Compares two string slices lexicographically by code point.
pub fn str_lt(a: &str, b: &str) -> (r: bool)
    ensures
        r == lex_lt(a@, b@),
{
    let na = a.unicode_len();
    let nb = b.unicode_len();
    let mut i: usize = 0;
    loop
        invariant
            i <= na,
            i <= nb,
            na == a@.len(),
            nb == b@.len(),
            forall|j: int| 0 <= j < i ==> cp(a@[j]) == cp(b@[j]),
        decreases na - i,
    {
        if i == na {
            if i < nb {
                proof {
                    assert(lex_lt_at(a@, b@, i as int));
                }
                return true;
            } else {
                proof {
                    assert forall|w: int| !lex_lt_at(a@, b@, w) by {
                        if 0 <= w < a@.len() {
                            assert(cp(a@[w]) == cp(b@[w]));
                        }
                    }
                }
                return false;
            }
        }
        if i == nb {
            proof {
                assert forall|w: int| !lex_lt_at(a@, b@, w) by {
                    if 0 <= w <= b@.len() {
                        assert(b@.len() < a@.len());
                    }
                }
            }
            return false;
        }
        let ca = a.get_char(i);
        let cb = b.get_char(i);
        if (ca as u32) < (cb as u32) {
            proof {
                assert(lex_lt_at(a@, b@, i as int));
            }
            return true;
        }
        if (cb as u32) < (ca as u32) {
            proof {
                assert forall|w: int| !lex_lt_at(a@, b@, w) by {
                    if 0 <= w <= a@.len() && w <= b@.len()
                        && (forall|j: int| 0 <= j < w ==> cp(a@[j]) == cp(b@[j])) {
                        if w > i {
                            assert(cp(a@[i as int]) == cp(b@[i as int]));
                        } else if w == i {
                            assert(!(cp(a@[w]) < cp(b@[w])));
                        } else {
                            assert(cp(a@[w]) == cp(b@[w]));
                        }
                    }
                }
            }
            return false;
        }
        i += 1;
    }
}

/// The order is total: two sequences have the same code points or one comes
/// strictly first.
pub proof fn lemma_lex_total(a: Seq<char>, b: Seq<char>)
    ensures
        cp_eq(a, b) || lex_lt(a, b) || lex_lt(b, a),
    decreases a.len(),
{
    if a.len() == 0 {
        if b.len() == 0 {
        } else {
            assert(lex_lt_at(a, b, 0));
        }
    } else if b.len() == 0 {
        assert(lex_lt_at(b, a, 0));
    } else if cp(a[0]) < cp(b[0]) {
        assert(lex_lt_at(a, b, 0));
    } else if cp(b[0]) < cp(a[0]) {
        assert(lex_lt_at(b, a, 0));
    } else {
        let a1 = a.skip(1);
        let b1 = b.skip(1);
        lemma_lex_total(a1, b1);
        if cp_eq(a1, b1) {
            assert(cp_eq(a, b)) by {
                assert forall|j: int| 0 <= j < a.len() implies cp(a[j]) == cp(b[j]) by {
                    if j > 0 {
                        assert(cp(a1[j - 1]) == cp(b1[j - 1]));
                    }
                }
            }
        } else if lex_lt(a1, b1) {
            let w = choose|w: int| lex_lt_at(a1, b1, w);
            assert(lex_lt_at(a, b, w + 1)) by {
                assert forall|j: int| 0 <= j < w + 1 implies cp(a[j]) == cp(b[j]) by {
                    if j > 0 {
                        assert(cp(a1[j - 1]) == cp(b1[j - 1]));
                    }
                }
            }
        } else {
            let w = choose|w: int| lex_lt_at(b1, a1, w);
            assert(lex_lt_at(b, a, w + 1)) by {
                assert forall|j: int| 0 <= j < w + 1 implies cp(b[j]) == cp(a[j]) by {
                    if j > 0 {
                        assert(cp(b1[j - 1]) == cp(a1[j - 1]));
                    }
                }
            }
        }
    }
}

/// The order is transitive.
pub proof fn lemma_lex_trans(a: Seq<char>, b: Seq<char>, c: Seq<char>)
    requires
        lex_lt(a, b),
        lex_lt(b, c),
    ensures
        lex_lt(a, c),
{
    let w1 = choose|w: int| lex_lt_at(a, b, w);
    let w2 = choose|w: int| lex_lt_at(b, c, w);
    if w1 < w2 {
        assert(cp(b[w1]) == cp(c[w1]));
        assert(lex_lt_at(a, c, w1));
    } else if w2 < w1 {
        assert(cp(a[w2]) == cp(b[w2]));
        assert(lex_lt_at(a, c, w2));
    } else {
        assert(lex_lt_at(a, c, w1));
    }
}

/// The order is asymmetric.
pub proof fn lemma_lex_asym(a: Seq<char>, b: Seq<char>)
    requires
        lex_lt(a, b),
    ensures
        !lex_lt(b, a),
{
    let w1 = choose|w: int| lex_lt_at(a, b, w);
    assert forall|w: int| !lex_lt_at(b, a, w) by {
        if 0 <= w <= b.len() && w <= a.len()
            && (forall|j: int| 0 <= j < w ==> cp(b[j]) == cp(a[j])) {
            if w < w1 {
                assert(cp(a[w]) == cp(b[w]));
            } else if w == w1 {
            } else {
                assert(cp(a[w1]) == cp(b[w1]));
            }
        }
    }
}

/// Sequences with the same code points compare alike.
pub proof fn lemma_lex_congr(a: Seq<char>, b: Seq<char>, c: Seq<char>, d: Seq<char>)
    requires
        lex_lt(a, b),
        cp_eq(a, c),
        cp_eq(b, d),
    ensures
        lex_lt(c, d),
{
    let w = choose|w: int| lex_lt_at(a, b, w);
    assert(lex_lt_at(c, d, w));
}

/// Whether `n` occurs in `h` as a contiguous substring.
pub open spec fn contains_seq(h: Seq<char>, n: Seq<char>) -> bool {
    exists|i: int| 0 <= i && i + n.len() <= h.len() && #[trigger] h.subrange(i, i + n.len()) == n
}

/// Whether the text of `h` contains the text of `n`, as an ordinary
/// case-sensitive substring.
pub fn contains_str(h: &str, n: &str) -> (r: bool)
    ensures
        r == contains_seq(h@, n@),
{
    let hn = h.unicode_len();
    let nn = n.unicode_len();
    if nn > hn {
        proof {
            assert(!contains_seq(h@, n@));
        }
        return false;
    }
    let mut i: usize = 0;
    while i <= hn - nn
        invariant
            nn <= hn,
            hn == h@.len(),
            nn == n@.len(),
            i <= hn - nn + 1,
            forall|w: int| 0 <= w < i ==> #[trigger] h@.subrange(w, w + n@.len()) != n@,
        decreases hn - nn - i + 1,
    {
        let mut j: usize = 0;
        let mut matched: bool = true;
        while j < nn
            invariant
                i + nn <= hn,
                hn == h@.len(),
                nn == n@.len(),
                j <= nn,
                matched == (forall|k: int| 0 <= k < j ==> h@[i + k] == n@[k]),
            decreases nn - j,
        {
            if h.get_char(i + j) != n.get_char(j) {
                matched = false;
                j = nn;
            } else {
                proof {
                    if matched {
                        assert forall|k: int| 0 <= k < j + 1 implies h@[i + k] == n@[k] by {
                            if k == j {
                                assert(h@[i + j] == n@[j as int]);
                            }
                        }
                    } else {
                        let k0 = choose|k: int| 0 <= k < j && h@[i + k] != n@[k];
                        assert(0 <= k0 < j + 1 && h@[i + k0] != n@[k0]);
                    }
                }
                j += 1;
            }
        }
        if matched {
            proof {
                assert(h@.subrange(i as int, i + n@.len()) =~= n@);
            }
            return true;
        }
        proof {
            assert(h@.subrange(i as int, i + n@.len()) != n@) by {
                let k = choose|k: int| 0 <= k < n@.len() && h@[i + k] != n@[k];
                assert(h@.subrange(i as int, i + n@.len())[k] == h@[i + k]);
            }
        }
        i += 1;
    }
    proof {
        assert(!contains_seq(h@, n@)) by {
            assert(forall|w: int| 0 <= w && w + n@.len() <= h@.len()
                ==> #[trigger] h@.subrange(w, w + n@.len()) != n@);
        }
    }
    false
}

/// Joins an object path and a child segment: a child of the root "/" is
/// "/name"; a child of "/a" is "/a/name".
pub open spec fn spec_path_join(parent: Seq<char>, child: Seq<char>) -> Seq<char> {
    if parent == seq!['/'] {
        seq!['/'] + child
    } else {
        parent + seq!['/'] + child
    }
}

/// The full path of a child node advertised by the object at `parent`.
pub fn path_join(parent: &str, child: &str) -> (r: String)
    ensures
        r@ == spec_path_join(parent@, child@),
{
    proof {
        reveal_strlit("/");
        assert("/"@ =~= seq!['/']);
    }
    if str_eq(parent, "/") {
        let mut r = String::from_str("/");
        r.append(child);
        proof {
            assert(r@ =~= spec_path_join(parent@, child@));
        }
        r
    } else {
        let mut r = String::from_str(parent);
        r.append("/");
        r.append(child);
        proof {
            assert(r@ =~= spec_path_join(parent@, child@));
        }
        r
    }
}

} // verus!
