use vstd::prelude::*;

use crate::chars::{chars_eq, sub_chars};

verus! {

// ===========================================================================
// Schema-document decoding, stage one: a small markup parser.
//
// Introspection schemas arrive as markup text.  This module parses the
// subset of that markup the reflection protocol produces: a prolog of
// processing instructions, document-type declarations and comments, then one
// element tree with attributes.  Character data and unrecognized constructs
// inside an element are skipped; the five predefined character entities are
// decoded inside attribute values.  Anything else is malformed and the whole
// document is rejected.
//
// The grammar is stated once as recursive spec functions over `Seq<char>`;
// the executable parser is proved to return exactly what those functions
// denote.  The element/content recursion is measured by a fuel argument:
// one unit of input is consumed for every unit of fuel spent, so fuel
// `s.len() + 1` never runs out on any input.
// ===========================================================================

/// One attribute of an element, entity references already decoded.
pub struct XmlAttr {
    pub name: Vec<char>,
    pub value: Vec<char>,
}

/// One element: its name, attributes and child elements in document order.
/// Character data is not retained.
pub struct XmlElem {
    pub name: Vec<char>,
    pub attrs: Vec<XmlAttr>,
    pub children: Vec<XmlElem>,
}

/// The model of an attribute.
#[verifier::ext_equal]
pub struct SpecAttr {
    pub name: Seq<char>,
    pub value: Seq<char>,
}

/// The model of an element.
#[verifier::ext_equal]
pub struct SpecElem {
    pub name: Seq<char>,
    pub attrs: Seq<SpecAttr>,
    pub children: Seq<SpecElem>,
}

pub open spec fn attr_view(a: XmlAttr) -> SpecAttr {
    SpecAttr { name: a.name@, value: a.value@ }
}

pub open spec fn attrs_view(s: Seq<XmlAttr>) -> Seq<SpecAttr> {
    s.map_values(|a: XmlAttr| attr_view(a))
}

pub open spec fn elem_view(e: XmlElem) -> SpecElem
    decreases e,
{
    SpecElem {
        name: e.name@,
        attrs: attrs_view(e.attrs@),
        children: Seq::new(
            e.children@.len(),
            |k: int|
                if 0 <= k < e.children@.len() {
                    elem_view(e.children@[k])
                } else {
                    SpecElem { name: Seq::empty(), attrs: Seq::empty(), children: Seq::empty() }
                },
        ),
    }
}

pub open spec fn elems_view(s: Seq<XmlElem>) -> Seq<SpecElem> {
    s.map_values(|e: XmlElem| elem_view(e))
}

// ---------------------------------------------------------------------------
// Character classes
// ---------------------------------------------------------------------------

/// Markup whitespace.
pub open spec fn is_xml_ws(c: char) -> bool {
    c == ' ' || c == '\t' || c == '\n' || c == '\r'
}

/// A character that may open an element or attribute name.
pub open spec fn is_name_start(c: char) -> bool {
    (97 <= c as u32 && c as u32 <= 122)  // 'a' ..= 'z'
    || (65 <= c as u32 && c as u32 <= 90)  // 'A' ..= 'Z'
    || c == '_' || c == ':'
}

/// A character that may continue a name.
pub open spec fn is_name_char(c: char) -> bool {
    is_name_start(c) || (48 <= c as u32 && c as u32 <= 57) || c == '-' || c == '.'
}

fn ws_char(c: char) -> (r: bool)
    ensures
        r == is_xml_ws(c),
{
    c == ' ' || c == '\t' || c == '\n' || c == '\r'
}

fn name_start_char(c: char) -> (r: bool)
    ensures
        r == is_name_start(c),
{
    let u = c as u32;
    (97 <= u && u <= 122) || (65 <= u && u <= 90) || c == '_' || c == ':'
}

fn name_char(c: char) -> (r: bool)
    ensures
        r == is_name_char(c),
{
    let u = c as u32;
    name_start_char(c) || (48 <= u && u <= 57) || c == '-' || c == '.'
}

// ---------------------------------------------------------------------------
// Scanners
// ---------------------------------------------------------------------------

/// The position of the first non-whitespace character at or after `i`.
pub open spec fn spec_skip_ws(s: Seq<char>, i: int) -> int
    decreases s.len() - i,
{
    if 0 <= i < s.len() && is_xml_ws(s[i]) {
        spec_skip_ws(s, i + 1)
    } else {
        i
    }
}

fn skip_ws(s: &Vec<char>, i: usize) -> (r: usize)
    requires
        i <= s@.len(),
    ensures
        r as int == spec_skip_ws(s@, i as int),
        i <= r <= s@.len(),
    decreases s@.len() - i,
{
    if i < s.len() && ws_char(s[i]) {
        skip_ws(s, i + 1)
    } else {
        i
    }
}

/// The position of the first non-name character at or after `i`.
pub open spec fn spec_scan_name(s: Seq<char>, i: int) -> int
    decreases s.len() - i,
{
    if 0 <= i < s.len() && is_name_char(s[i]) {
        spec_scan_name(s, i + 1)
    } else {
        i
    }
}

fn scan_name(s: &Vec<char>, i: usize) -> (r: usize)
    requires
        i <= s@.len(),
    ensures
        r as int == spec_scan_name(s@, i as int),
        i <= r <= s@.len(),
    decreases s@.len() - i,
{
    if i < s.len() && name_char(s[i]) {
        scan_name(s, i + 1)
    } else {
        i
    }
}

/// Whether the characters of `p` stand at position `i` of `s`.
pub open spec fn matches_at(s: Seq<char>, i: int, p: Seq<char>) -> bool {
    0 <= i && i + p.len() <= s.len() && s.subrange(i, i + p.len()) == p
}

fn match_lit(s: &Vec<char>, i: usize, p: &str) -> (r: bool)
    ensures
        r == matches_at(s@, i as int, p@),
{
    let n = p.unicode_len();
    if n > s.len() || i > s.len() - n {
        proof {
            assert(!matches_at(s@, i as int, p@));
        }
        return false;
    }
    let mut j: usize = 0;
    while j < n
        invariant
            j <= n,
            n == p@.len(),
            i + n <= s@.len() <= usize::MAX,
            forall|k: int| 0 <= k < j ==> s@[i + k] == p@[k],
        decreases n - j,
    {
        proof {
            assert(i + j < s@.len());
        }
        if s[i + j] != p.get_char(j) {
            proof {
                assert(s@.subrange(i as int, i + p@.len()) != p@) by {
                    assert(s@.subrange(i as int, i + p@.len())[j as int] == s@[i + j]);
                }
            }
            return false;
        }
        proof {
            assert forall|k: int| 0 <= k < j + 1 implies s@[i + k] == p@[k] by {
                if k == j {
                    assert(s@[i + j] == p@[j as int]);
                }
            }
        }
        j += 1;
    }
    proof {
        assert(s@.subrange(i as int, i + p@.len()) =~= p@);
    }
    true
}

// ---------------------------------------------------------------------------
// Entity references and attribute values
// ---------------------------------------------------------------------------

pub open spec fn amp_ent() -> Seq<char> {
    seq!['&', 'a', 'm', 'p', ';']
}

pub open spec fn lt_ent() -> Seq<char> {
    seq!['&', 'l', 't', ';']
}

pub open spec fn gt_ent() -> Seq<char> {
    seq!['&', 'g', 't', ';']
}

pub open spec fn quot_ent() -> Seq<char> {
    seq!['&', 'q', 'u', 'o', 't', ';']
}

pub open spec fn apos_ent() -> Seq<char> {
    seq!['&', 'a', 'p', 'o', 's', ';']
}

/// Prepends a character to the value of a successful scan.
pub open spec fn val_cons(c: char, r: Option<(Seq<char>, int)>) -> Option<(Seq<char>, int)> {
    match r {
        Some(v) => Some((seq![c] + v.0, v.1)),
        None => None,
    }
}

/// The decoded text of an attribute value opened with quote `q` whose body
/// starts at `i`, and the position just past the closing quote.  A raw `<`
/// or an unrecognized entity reference is malformed.
pub open spec fn spec_attr_value(s: Seq<char>, i: int, q: char) -> Option<(Seq<char>, int)>
    decreases s.len() - i,
{
    if !(0 <= i < s.len()) {
        None
    } else if s[i] == q {
        Some((Seq::empty(), i + 1))
    } else if s[i] == '<' {
        None
    } else if s[i] == '&' {
        if matches_at(s, i, amp_ent()) {
            val_cons('&', spec_attr_value(s, i + 5, q))
        } else if matches_at(s, i, lt_ent()) {
            val_cons('<', spec_attr_value(s, i + 4, q))
        } else if matches_at(s, i, gt_ent()) {
            val_cons('>', spec_attr_value(s, i + 4, q))
        } else if matches_at(s, i, quot_ent()) {
            val_cons('"', spec_attr_value(s, i + 6, q))
        } else if matches_at(s, i, apos_ent()) {
            val_cons('\'', spec_attr_value(s, i + 6, q))
        } else {
            None
        }
    } else {
        val_cons(s[i], spec_attr_value(s, i + 1, q))
    }
}

fn attr_value(s: &Vec<char>, i: usize, q: char) -> (r: Option<(Vec<char>, usize)>)
    requires
        i <= s@.len(),
    ensures
        match (r, spec_attr_value(s@, i as int, q)) {
            (Some(rv), Some(mv)) => rv.0@ == mv.0 && rv.1 as int == mv.1 && i < rv.1 <= s@.len(),
            (None, None) => true,
            _ => false,
        },
    decreases s@.len() - i,
{
    if i >= s.len() {
        return None;
    }
    let c = s[i];
    if c == q {
        return Some((Vec::new(), i + 1));
    }
    if c == '<' {
        return None;
    }
    let (dec, next): (char, usize) = if c == '&' {
        proof {
            reveal_strlit("&amp;");
            reveal_strlit("&lt;");
            reveal_strlit("&gt;");
            reveal_strlit("&quot;");
            reveal_strlit("&apos;");
            assert("&amp;"@ =~= amp_ent());
            assert("&lt;"@ =~= lt_ent());
            assert("&gt;"@ =~= gt_ent());
            assert("&quot;"@ =~= quot_ent());
            assert("&apos;"@ =~= apos_ent());
        }
        if match_lit(s, i, "&amp;") {
            ('&', i + 5)
        } else if match_lit(s, i, "&lt;") {
            ('<', i + 4)
        } else if match_lit(s, i, "&gt;") {
            ('>', i + 4)
        } else if match_lit(s, i, "&quot;") {
            ('"', i + 6)
        } else if match_lit(s, i, "&apos;") {
            ('\'', i + 6)
        } else {
            return None;
        }
    } else {
        (c, i + 1)
    };
    match attr_value(s, next, q) {
        Some((mut v, j)) => {
            v.insert(0, dec);
            proof {
                assert(v@ =~= seq![dec] + v@.subrange(1, v@.len() as int));
            }
            Some((v, j))
        },
        None => None,
    }
}

// ---------------------------------------------------------------------------
// Skipping comments, processing instructions and declarations
// ---------------------------------------------------------------------------

/// The position just past the first occurrence of `p` at or after `i`, or
/// nothing when `p` does not occur again.
pub open spec fn spec_skip_past(s: Seq<char>, i: int, p: Seq<char>) -> Option<int>
    decreases s.len() - i,
{
    if p.len() == 0 {
        Some(i)
    } else if !(0 <= i && i + p.len() <= s.len()) {
        None
    } else if matches_at(s, i, p) {
        Some(i + p.len())
    } else {
        spec_skip_past(s, i + 1, p)
    }
}

fn skip_past(s: &Vec<char>, i: usize, p: &str) -> (r: Option<usize>)
    requires
        i <= s@.len(),
        p@.len() > 0,
    ensures
        match (r, spec_skip_past(s@, i as int, p@)) {
            (Some(rk), Some(mk)) => rk as int == mk && i + p@.len() <= rk <= s@.len(),
            (None, None) => true,
            _ => false,
        },
    decreases s@.len() - i,
{
    let n = p.unicode_len();
    if n > s.len() || i > s.len() - n {
        return None;
    }
    if match_lit(s, i, p) {
        Some(i + n)
    } else {
        skip_past(s, i + 1, p)
    }
}

pub open spec fn comment_open() -> Seq<char> {
    seq!['<', '!', '-', '-']
}

pub open spec fn comment_close() -> Seq<char> {
    seq!['-', '-', '>']
}

pub open spec fn pi_open() -> Seq<char> {
    seq!['<', '?']
}

pub open spec fn pi_close() -> Seq<char> {
    seq!['?', '>']
}

pub open spec fn bang_open() -> Seq<char> {
    seq!['<', '!']
}

pub open spec fn end_open() -> Seq<char> {
    seq!['<', '/']
}

pub open spec fn slash_gt() -> Seq<char> {
    seq!['/', '>']
}

pub open spec fn gt_only() -> Seq<char> {
    seq!['>']
}

/// Skips whitespace, comments, processing instructions and document-type
/// declarations; the result stands at the next markup of interest or at the
/// end of input.
pub open spec fn spec_skip_misc(s: Seq<char>, i: int, fuel: nat) -> Option<int>
    decreases fuel,
{
    if fuel == 0 {
        None
    } else {
        let j = spec_skip_ws(s, i);
        if matches_at(s, j, comment_open()) {
            match spec_skip_past(s, j + 4, comment_close()) {
                Some(k) => spec_skip_misc(s, k, (fuel - 1) as nat),
                None => None,
            }
        } else if matches_at(s, j, pi_open()) {
            match spec_skip_past(s, j + 2, pi_close()) {
                Some(k) => spec_skip_misc(s, k, (fuel - 1) as nat),
                None => None,
            }
        } else if matches_at(s, j, bang_open()) {
            match spec_skip_past(s, j + 2, gt_only()) {
                Some(k) => spec_skip_misc(s, k, (fuel - 1) as nat),
                None => None,
            }
        } else {
            Some(j)
        }
    }
}

fn skip_misc(s: &Vec<char>, i: usize, Ghost(fuel): Ghost<nat>) -> (r: Option<usize>)
    requires
        i <= s@.len(),
        fuel + i >= s@.len() + 1,
    ensures
        match (r, spec_skip_misc(s@, i as int, fuel)) {
            (Some(rk), Some(mk)) => rk as int == mk && i <= rk <= s@.len(),
            (None, None) => true,
            _ => false,
        },
    decreases fuel,
{
    let total = s.len();
    let j = skip_ws(s, i);
    proof {
        assert(s@.len() == total);
    }
    proof {
        reveal_strlit("<!--");
        reveal_strlit("-->");
        reveal_strlit("<?");
        reveal_strlit("?>");
        reveal_strlit("<!");
        reveal_strlit(">");
        assert("<!--"@ =~= comment_open());
        assert("-->"@ =~= comment_close());
        assert("<?"@ =~= pi_open());
        assert("?>"@ =~= pi_close());
        assert("<!"@ =~= bang_open());
        assert(">"@ =~= gt_only());
    }
    if match_lit(s, j, "<!--") {
        match skip_past(s, j + 4, "-->") {
            Some(k) => skip_misc(s, k, Ghost((fuel - 1) as nat)),
            None => None,
        }
    } else if match_lit(s, j, "<?") {
        match skip_past(s, j + 2, "?>") {
            Some(k) => skip_misc(s, k, Ghost((fuel - 1) as nat)),
            None => None,
        }
    } else if match_lit(s, j, "<!") {
        match skip_past(s, j + 2, ">") {
            Some(k) => skip_misc(s, k, Ghost((fuel - 1) as nat)),
            None => None,
        }
    } else {
        Some(j)
    }
}

// ---------------------------------------------------------------------------
// Attributes, elements and content
// ---------------------------------------------------------------------------

/// The attribute list standing at `i`, and the position of the first
/// character after it and any following whitespace.
pub open spec fn spec_attrs(s: Seq<char>, i: int, fuel: nat) -> Option<(Seq<SpecAttr>, int)>
    decreases fuel, 0int,
{
    if fuel == 0 {
        None
    } else {
        let j = spec_skip_ws(s, i);
        if 0 <= j < s.len() && is_name_start(s[j]) {
            let ne = spec_scan_name(s, j);
            let name = s.subrange(j, ne);
            let e = spec_skip_ws(s, ne);
            if 0 <= e < s.len() && s[e] == '=' {
                let v0 = spec_skip_ws(s, e + 1);
                if 0 <= v0 < s.len() && (s[v0] == '"' || s[v0] == '\'') {
                    match spec_attr_value(s, v0 + 1, s[v0]) {
                        Some(v) => match spec_attrs(s, v.1, (fuel - 1) as nat) {
                            Some(rest) => Some(
                                (seq![SpecAttr { name, value: v.0 }] + rest.0, rest.1),
                            ),
                            None => None,
                        },
                        None => None,
                    }
                } else {
                    None
                }
            } else {
                None
            }
        } else {
            Some((Seq::empty(), j))
        }
    }
}

fn parse_attrs(s: &Vec<char>, i: usize, Ghost(fuel): Ghost<nat>) -> (r: Option<
    (Vec<XmlAttr>, usize),
>)
    requires
        i <= s@.len(),
        fuel + i >= s@.len() + 1,
    ensures
        match (r, spec_attrs(s@, i as int, fuel)) {
            (Some(rv), Some(mv)) => attrs_view(rv.0@) == mv.0 && rv.1 as int == mv.1 && i <= rv.1
                <= s@.len(),
            (None, None) => true,
            _ => false,
        },
    decreases fuel, 0int,
{
    let j = skip_ws(s, i);
    if j < s.len() && name_start_char(s[j]) {
        let ne = scan_name(s, j);
        let name = sub_chars(s, j, ne);
        let e = skip_ws(s, ne);
        if e < s.len() && s[e] == '=' {
            let v0 = skip_ws(s, e + 1);
            if v0 < s.len() && (s[v0] == '"' || s[v0] == '\'') {
                match attr_value(s, v0 + 1, s[v0]) {
                    Some((val, k)) => match parse_attrs(s, k, Ghost((fuel - 1) as nat)) {
                        Some((mut rest, m)) => {
                            rest.insert(0, XmlAttr { name, value: val });
                            proof {
                                assert(attrs_view(rest@) =~= seq![
                                    SpecAttr {
                                        name: s@.subrange(j as int, ne as int),
                                        value: spec_attr_value(
                                            s@,
                                            v0 + 1,
                                            s@[v0 as int],
                                        ).unwrap().0,
                                    },
                                ] + attrs_view(rest@.subrange(1, rest@.len() as int)));
                            }
                            Some((rest, m))
                        },
                        None => None,
                    },
                    None => None,
                }
            } else {
                None
            }
        } else {
            None
        }
    } else {
        Some((Vec::new(), j))
    }
}

/// The element standing at `i` (its opening `<` included) and the position
/// just past its closing tag.
pub open spec fn spec_element(s: Seq<char>, i: int, fuel: nat) -> Option<(SpecElem, int)>
    decreases fuel, 1int,
{
    if fuel == 0 {
        None
    } else if !(0 <= i < s.len() && s[i] == '<') {
        None
    } else if !(i + 1 < s.len() && is_name_start(s[i + 1])) {
        None
    } else {
        let ne = spec_scan_name(s, i + 1);
        let name = s.subrange(i + 1, ne);
        match spec_attrs(s, ne, (fuel - 1) as nat) {
            Some(a) => {
                let j = a.1;
                if matches_at(s, j, slash_gt()) {
                    Some((SpecElem { name, attrs: a.0, children: Seq::empty() }, j + 2))
                } else if 0 <= j < s.len() && s[j] == '>' {
                    match spec_content(s, j + 1, (fuel - 1) as nat) {
                        Some(c) => {
                            let k = c.1;
                            if matches_at(s, k, end_open()) {
                                let me = spec_scan_name(s, k + 2);
                                if s.subrange(k + 2, me) == name {
                                    let w = spec_skip_ws(s, me);
                                    if 0 <= w < s.len() && s[w] == '>' {
                                        Some(
                                            (SpecElem { name, attrs: a.0, children: c.0 }, w + 1),
                                        )
                                    } else {
                                        None
                                    }
                                } else {
                                    None
                                }
                            } else {
                                None
                            }
                        },
                        None => None,
                    }
                } else {
                    None
                }
            },
            None => None,
        }
    }
}

/// The child items of an element's content starting at `i`: retained child
/// elements in order, with text, comments and other constructs skipped.  The
/// returned position stands at the `</` of the enclosing closing tag.
pub open spec fn spec_content(s: Seq<char>, i: int, fuel: nat) -> Option<(Seq<SpecElem>, int)>
    decreases fuel, 2int,
{
    if fuel == 0 {
        None
    } else if !(0 <= i < s.len()) {
        None
    } else if s[i] == '<' {
        if matches_at(s, i, end_open()) {
            Some((Seq::empty(), i))
        } else if matches_at(s, i, comment_open()) {
            match spec_skip_past(s, i + 4, comment_close()) {
                Some(k) => spec_content(s, k, (fuel - 1) as nat),
                None => None,
            }
        } else if matches_at(s, i, pi_open()) {
            match spec_skip_past(s, i + 2, pi_close()) {
                Some(k) => spec_content(s, k, (fuel - 1) as nat),
                None => None,
            }
        } else if matches_at(s, i, bang_open()) {
            match spec_skip_past(s, i + 2, gt_only()) {
                Some(k) => spec_content(s, k, (fuel - 1) as nat),
                None => None,
            }
        } else {
            match spec_element(s, i, fuel) {
                Some(e) => match spec_content(s, e.1, (fuel - 1) as nat) {
                    Some(rest) => Some((seq![e.0] + rest.0, rest.1)),
                    None => None,
                },
                None => None,
            }
        }
    } else {
        spec_content(s, i + 1, (fuel - 1) as nat)
    }
}

fn parse_element(s: &Vec<char>, i: usize, Ghost(fuel): Ghost<nat>) -> (r: Option<(XmlElem, usize)>)
    requires
        i <= s@.len(),
        fuel + i >= s@.len() + 1,
    ensures
        match (r, spec_element(s@, i as int, fuel)) {
            (Some(rv), Some(mv)) => elem_view(rv.0) == mv.0 && rv.1 as int == mv.1 && i < rv.1
                <= s@.len(),
            (None, None) => true,
            _ => false,
        },
    decreases fuel, 1int,
{
    proof {
        reveal_strlit("/>");
        reveal_strlit("</");
        assert("/>"@ =~= slash_gt());
        assert("</"@ =~= end_open());
    }
    if !(i < s.len() && s[i] == '<') {
        return None;
    }
    if !(i + 1 < s.len() && name_start_char(s[i + 1])) {
        return None;
    }
    let ne = scan_name(s, i + 1);
    let name = sub_chars(s, i + 1, ne);
    match parse_attrs(s, ne, Ghost((fuel - 1) as nat)) {
        Some((attrs, j)) => {
            if match_lit(s, j, "/>") {
                let e = XmlElem { name, attrs, children: Vec::new() };
                proof {
                    assert(elem_view(e).children =~= Seq::<SpecElem>::empty());
                    assert(elem_view(e) =~= spec_element(s@, i as int, fuel).unwrap().0);
                }
                Some((e, j + 2))
            } else if j < s.len() && s[j] == '>' {
                match parse_content(s, j + 1, Ghost((fuel - 1) as nat)) {
                    Some((kids, k)) => {
                        if match_lit(s, k, "</") {
                            let me = scan_name(s, k + 2);
                            let end_name = sub_chars(s, k + 2, me);
                            if chars_eq(&end_name, &name) {
                                let w = skip_ws(s, me);
                                if w < s.len() && s[w] == '>' {
                                    let e = XmlElem { name, attrs, children: kids };
                                    proof {
                                        assert(elem_view(e).children =~= elems_view(kids@));
                                        assert(elem_view(e) =~= spec_element(
                                            s@,
                                            i as int,
                                            fuel,
                                        ).unwrap().0);
                                    }
                                    Some((e, w + 1))
                                } else {
                                    None
                                }
                            } else {
                                None
                            }
                        } else {
                            None
                        }
                    },
                    None => None,
                }
            } else {
                None
            }
        },
        None => None,
    }
}

fn parse_content(s: &Vec<char>, i: usize, Ghost(fuel): Ghost<nat>) -> (r: Option<
    (Vec<XmlElem>, usize),
>)
    requires
        i <= s@.len(),
        fuel + i >= s@.len() + 1,
    ensures
        match (r, spec_content(s@, i as int, fuel)) {
            (Some(rv), Some(mv)) => elems_view(rv.0@) == mv.0 && rv.1 as int == mv.1 && i <= rv.1
                <= s@.len(),
            (None, None) => true,
            _ => false,
        },
    decreases fuel, 2int,
{
    proof {
        reveal_strlit("</");
        reveal_strlit("<!--");
        reveal_strlit("-->");
        reveal_strlit("<?");
        reveal_strlit("?>");
        reveal_strlit("<!");
        reveal_strlit(">");
        assert("</"@ =~= end_open());
        assert("<!--"@ =~= comment_open());
        assert("-->"@ =~= comment_close());
        assert("<?"@ =~= pi_open());
        assert("?>"@ =~= pi_close());
        assert("<!"@ =~= bang_open());
        assert(">"@ =~= gt_only());
    }
    if i >= s.len() {
        return None;
    }
    if s[i] == '<' {
        if match_lit(s, i, "</") {
            Some((Vec::new(), i))
        } else if match_lit(s, i, "<!--") {
            match skip_past(s, i + 4, "-->") {
                Some(k) => parse_content(s, k, Ghost((fuel - 1) as nat)),
                None => None,
            }
        } else if match_lit(s, i, "<?") {
            match skip_past(s, i + 2, "?>") {
                Some(k) => parse_content(s, k, Ghost((fuel - 1) as nat)),
                None => None,
            }
        } else if match_lit(s, i, "<!") {
            match skip_past(s, i + 2, ">") {
                Some(k) => parse_content(s, k, Ghost((fuel - 1) as nat)),
                None => None,
            }
        } else {
            match parse_element(s, i, Ghost(fuel)) {
                Some((e, j)) => match parse_content(s, j, Ghost((fuel - 1) as nat)) {
                    Some((mut rest, k)) => {
                        let ghost head = elem_view(e);
                        rest.insert(0, e);
                        proof {
                            assert(elems_view(rest@) =~= seq![head] + elems_view(
                                rest@.subrange(1, rest@.len() as int),
                            ));
                        }
                        Some((rest, k))
                    },
                    None => None,
                },
                None => None,
            }
        }
    } else {
        parse_content(s, i + 1, Ghost((fuel - 1) as nat))
    }
}

// ---------------------------------------------------------------------------
// Whole documents
// ---------------------------------------------------------------------------

/// The element tree denoted by a whole document: optional prolog, one
/// element, optional trailing comments and whitespace, nothing else.
pub open spec fn spec_document(s: Seq<char>) -> Option<SpecElem> {
    let f = (s.len() + 1) as nat;
    match spec_skip_misc(s, 0, f) {
        Some(i) => match spec_element(s, i, f) {
            Some(e) => match spec_skip_misc(s, e.1, f) {
                Some(k) => if k == s.len() {
                    Some(e.0)
                } else {
                    None
                },
                None => None,
            },
            None => None,
        },
        None => None,
    }
}

/// Parses a whole document into its element tree; returns nothing exactly
/// when the document is malformed.
pub fn parse_document(s: &Vec<char>) -> (r: Option<XmlElem>)
    ensures
        match (r, spec_document(s@)) {
            (Some(e), Some(m)) => elem_view(e) == m,
            (None, None) => true,
            _ => false,
        },
{
    let ghost f = (s@.len() + 1) as nat;
    match skip_misc(s, 0, Ghost(f)) {
        Some(i) => match parse_element(s, i, Ghost(f)) {
            Some((e, j)) => match skip_misc(s, j, Ghost(f)) {
                Some(k) => if k == s.len() {
                    Some(e)
                } else {
                    None
                },
                None => None,
            },
            None => None,
        },
        None => None,
    }
}

} // verus!
