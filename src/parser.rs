//! Reading markup text into an element tree.
use vstd::prelude::*;
use vstd::string::StrSliceExecFns;

use crate::break_strength::BreakStrength;
use crate::duration::parse_duration;
use crate::element::{lemma_nodes_of_push, node_of, nodes_of, opt_view, Node, SsmlElement, SSML};
use crate::escape::push_unescaped;
use crate::grammar::{
    attr_at, attrs_at, close_at, container_node, content_at, element_at, find_char, is_name_char,
    is_name_start, leaf_node, element_err, content_err, document_err, lit_at, lookup,
    lookup_or_empty, name_end, parse_document,
    prolog_end, skip_ws, trim_back,
};
use crate::text::{chars_of, is_space, space, string_of};

verus! {

/// What went wrong in a text that does not read as a document, and where.
#[derive(Debug, Clone, PartialEq, Eq)]
pub struct ParseError {
    pub message: String,
    /// Character offset where the offending construct begins.
    pub start: usize,
    /// Character offset where the text ends.
    pub end: usize,
}

/// The values of a list of attributes.
pub open spec fn pairs_view(v: Seq<(String, String)>) -> Seq<(Seq<char>, Seq<char>)> {
    v.map_values(|p: (String, String)| (p.0@, p.1@))
}

/// `acc` followed by what a rule read on, if it read anything.
pub open spec fn after<T>(acc: Seq<T>, r: Option<(Seq<T>, int)>) -> Option<(Seq<T>, int)> {
    match r {
        Some((rest, e)) => Some((acc + rest, e)),
        None => None,
    }
}

fn name_char(c: char) -> (r: bool)
    ensures
        r == is_name_char(c),
{
    ('a' <= c && c <= 'z') || ('A' <= c && c <= 'Z') || ('0' <= c && c <= '9') || c == '_' || c
        == '-' || c == ':'
}

fn name_start(c: char) -> (r: bool)
    ensures
        r == is_name_start(c),
{
    name_char(c) && !('0' <= c && c <= '9')
}

fn skip_ws_at(v: &Vec<char>, i: usize) -> (r: usize)
    requires
        i <= v@.len(),
    ensures
        r == skip_ws(v@, i as int),
        i <= r <= v@.len(),
        forall|k: int| i <= k < r ==> is_space(#[trigger] v@[k]),
{
    let mut j = i;
    while j < v.len() && space(v[j])
        invariant
            i <= j <= v@.len(),
            skip_ws(v@, i as int) == skip_ws(v@, j as int),
            forall|k: int| i <= k < j ==> is_space(#[trigger] v@[k]),
        decreases v@.len() - j,
    {
        j = j + 1;
    }
    j
}

fn name_end_at(v: &Vec<char>, i: usize) -> (r: usize)
    requires
        i <= v@.len(),
    ensures
        r == name_end(v@, i as int),
        i <= r <= v@.len(),
{
    let mut j = i;
    while j < v.len() && name_char(v[j])
        invariant
            i <= j <= v@.len(),
            name_end(v@, i as int) == name_end(v@, j as int),
        decreases v@.len() - j,
    {
        j = j + 1;
    }
    j
}

fn find_char_at(v: &Vec<char>, i: usize, c: char) -> (r: usize)
    requires
        i <= v@.len(),
    ensures
        r == find_char(v@, i as int, c),
        i <= r <= v@.len(),
        r < v@.len() ==> v@[r as int] == c,
        forall|k: int| i <= k < r ==> #[trigger] v@[k] != c,
{
    let mut j = i;
    while j < v.len() && v[j] != c
        invariant
            i <= j <= v@.len(),
            find_char(v@, i as int, c) == find_char(v@, j as int, c),
            forall|k: int| i <= k < j ==> #[trigger] v@[k] != c,
        decreases v@.len() - j,
    {
        j = j + 1;
    }
    j
}

fn trim_back_at(v: &Vec<char>, lo: usize, hi: usize) -> (r: usize)
    requires
        lo <= hi <= v@.len(),
    ensures
        r == trim_back(v@, lo as int, hi as int),
        lo <= r <= hi,
{
    let mut j = hi;
    while lo < j && space(v[j - 1])
        invariant
            lo <= j <= hi <= v@.len(),
            trim_back(v@, lo as int, hi as int) == trim_back(v@, lo as int, j as int),
        decreases j,
    {
        j = j - 1;
    }
    j
}

/// Whether the literal `p` stands in `v` at `i`.
fn lit_at_exec(v: &Vec<char>, i: usize, p: &str) -> (r: bool)
    requires
        i <= v@.len(),
    ensures
        r == lit_at(v@, i as int, p@),
{
    let n = p.unicode_len();
    if n > v.len() - i {
        return false;
    }
    let mut k: usize = 0;
    while k < n
        invariant
            n == p@.len(),
            i + n <= v@.len() <= usize::MAX,
            k <= n,
            forall|j: int| 0 <= j < k ==> v@[i + j] == p@[j],
        decreases n - k,
    {
        if v[i + k] != p.get_char(k) {
            assert(v@.subrange(i as int, i + n)[k as int] != p@[k as int]);
            return false;
        }
        k = k + 1;
    }
    assert(v@.subrange(i as int, i + n) =~= p@);
    true
}

/// Whether `v[from..to]` holds the characters of `p`.
fn range_is(v: &Vec<char>, from: usize, to: usize, p: &str) -> (r: bool)
    requires
        from <= to <= v@.len(),
    ensures
        r == (v@.subrange(from as int, to as int) == p@),
{
    if p.unicode_len() != to - from {
        return false;
    }
    let r = lit_at_exec(v, from, p);
    r
}

/// Whether `v[k..]` begins with the name `v[j..ne]`.
fn name_at(v: &Vec<char>, k: usize, j: usize, ne: usize) -> (r: bool)
    requires
        k <= v@.len(),
        j <= ne <= v@.len(),
    ensures
        r == lit_at(v@, k as int, v@.subrange(j as int, ne as int)),
{
    let n = ne - j;
    if n > v.len() - k {
        return false;
    }
    let mut m: usize = 0;
    while m < n
        invariant
            n == ne - j,
            j <= ne <= v@.len(),
            k + n <= v@.len() <= usize::MAX,
            m <= n,
            forall|x: int| 0 <= x < m ==> #[trigger] v@[k + x] == v@[j + x],
        decreases n - m,
    {
        if v[k + m] != v[j + m] {
            assert(v@.subrange(k as int, k + n)[m as int] != v@.subrange(j as int, ne as int)[m as int]);
            return false;
        }
        m = m + 1;
    }
    assert forall|x: int| 0 <= x < n implies v@.subrange(k as int, k + n)[x] == v@.subrange(
        j as int,
        ne as int,
    )[x] by {
        assert(v@[k + x] == v@[j + x]);
    }
    assert(v@.subrange(k as int, k + n) =~= v@.subrange(j as int, ne as int));
    true
}

fn attr_at_exec(v: &Vec<char>, i: usize) -> (r: Option<(String, String, usize)>)
    requires
        i <= v@.len(),
    ensures
        match attr_at(v@, i as int) {
            Some((n, val, k)) => r matches Some((rn, rv, rk)) && rn@ == n && rv@ == val && rk == k
                && i < rk <= v@.len(),
            None => r is None,
        },
{
    if i >= v.len() || !name_start(v[i]) {
        return None;
    }
    let ne = name_end_at(v, i);
    let eq = skip_ws_at(v, ne);
    if eq >= v.len() || v[eq] != '=' {
        return None;
    }
    let q = skip_ws_at(v, eq + 1);
    if q >= v.len() || v[q] != '"' {
        return None;
    }
    let close = find_char_at(v, q + 1, '"');
    if close >= v.len() {
        return None;
    }
    Some((string_of(v, i, ne), string_of(v, q + 1, close), close + 1))
}

fn attrs_at_exec(v: &Vec<char>, i: usize) -> (r: Option<(Vec<(String, String)>, usize)>)
    requires
        i <= v@.len(),
    ensures
        match attrs_at(v@, i as int) {
            Some((a, k)) => r matches Some((ra, rk)) && pairs_view(ra@) == a && rk == k && i <= rk
                <= v@.len(),
            None => r is None,
        },
{
    let mut acc: Vec<(String, String)> = Vec::new();
    let mut p = i;
    loop
        invariant
            i <= p <= v@.len(),
            attrs_at(v@, i as int) == after(pairs_view(acc@), attrs_at(v@, p as int)),
        decreases v@.len() - p,
    {
        let j = skip_ws_at(v, p);
        if j < v.len() && name_start(v[j]) {
            match attr_at_exec(v, j) {
                None => {
                    return None;
                },
                Some((n, val, k)) => {
                    let ghost before = acc@;
                    acc.push((n, val));
                    proof {
                        assert(pairs_view(acc@) =~= pairs_view(before) + seq![(n@, val@)]);
                        match attrs_at(v@, k as int) {
                            Some((rest, e)) => {
                                assert(pairs_view(before) + (seq![(n@, val@)] + rest) =~= pairs_view(acc@) + rest);
                            },
                            None => {},
                        }
                    }
                    p = k;
                },
            }
        } else {
            assert(pairs_view(acc@) + Seq::<(Seq<char>, Seq<char>)>::empty() =~= pairs_view(acc@));
            return Some((acc, j));
        }
    }
}

/// The value of the last attribute named `key`.
fn lookup_exec(a: &Vec<(String, String)>, key: &str) -> (r: Option<String>)
    ensures
        opt_view(r) == lookup(pairs_view(a@), key@),
{
    let mut found: Option<String> = None;
    let mut i: usize = 0;
    while i < a.len()
        invariant
            i <= a@.len(),
            opt_view(found) == lookup(pairs_view(a@.subrange(0, i as int)), key@),
        decreases a@.len() - i,
    {
        proof {
            assert(pairs_view(a@.subrange(0, i + 1)).drop_last() =~= pairs_view(
                a@.subrange(0, i as int),
            ));
        }
        if crate::text::same_str(a[i].0.as_str(), key) {
            found = Some(a[i].1.clone());
        }
        i = i + 1;
    }
    assert(a@.subrange(0, a@.len() as int) =~= a@);
    found
}

fn lookup_or_empty_exec(a: &Vec<(String, String)>, key: &str) -> (r: String)
    ensures
        r@ == lookup_or_empty(pairs_view(a@), key@),
{
    match lookup_exec(a, key) {
        Some(s) => s,
        None => String::new(),
    }
}

fn is_container(v: &Vec<char>, j: usize, ne: usize) -> (r: bool)
    requires
        j <= ne <= v@.len(),
    ensures
        r == (container_node(v@.subrange(j as int, ne as int), Seq::empty(), Seq::empty()) is Some),
{
    range_is(v, j, ne, "speak") || range_is(v, j, ne, "voice") || range_is(v, j, ne, "p")
        || range_is(v, j, ne, "s") || range_is(v, j, ne, "phoneme") || range_is(v, j, ne, "say-as")
        || range_is(v, j, ne, "sub") || range_is(v, j, ne, "prosody") || range_is(
        v,
        j,
        ne,
        "emphasis",
    ) || range_is(v, j, ne, "audio") || range_is(v, j, ne, "desc") || range_is(v, j, ne, "lang")
}

fn is_leaf(v: &Vec<char>, j: usize, ne: usize) -> (r: bool)
    requires
        j <= ne <= v@.len(),
    ensures
        r == (leaf_node(v@.subrange(j as int, ne as int), Seq::empty()) is Some),
{
    range_is(v, j, ne, "break") || range_is(v, j, ne, "mark") || range_is(v, j, ne, "lexicon")
}

/// The element with children that tag `v[j..ne]` makes.
fn build_container(
    v: &Vec<char>,
    j: usize,
    ne: usize,
    a: &Vec<(String, String)>,
    kids: Vec<SsmlElement>,
) -> (r: SsmlElement)
    requires
        j <= ne <= v@.len(),
        container_node(v@.subrange(j as int, ne as int), Seq::empty(), Seq::empty()) is Some,
    ensures
        container_node(v@.subrange(j as int, ne as int), pairs_view(a@), nodes_of(kids@)) == Some(
            node_of(r),
        ),
{
    if range_is(v, j, ne, "speak") {
        SsmlElement::Speak {
            version: lookup_exec(a, "version"),
            xmlns: lookup_exec(a, "xmlns"),
            lang: lookup_exec(a, "xml:lang"),
            children: kids,
        }
    } else if range_is(v, j, ne, "voice") {
        SsmlElement::Voice { name: lookup_or_empty_exec(a, "name"), children: kids }
    } else if range_is(v, j, ne, "p") {
        SsmlElement::Paragraph { children: kids }
    } else if range_is(v, j, ne, "s") {
        SsmlElement::Sentence { children: kids }
    } else if range_is(v, j, ne, "phoneme") {
        SsmlElement::Phoneme {
            alphabet: lookup_or_empty_exec(a, "alphabet"),
            ph: lookup_or_empty_exec(a, "ph"),
            children: kids,
        }
    } else if range_is(v, j, ne, "say-as") {
        SsmlElement::SayAs {
            interpret_as: lookup_or_empty_exec(a, "interpret-as"),
            format: lookup_or_empty_exec(a, "format"),
            detail: lookup_or_empty_exec(a, "detail"),
            children: kids,
        }
    } else if range_is(v, j, ne, "sub") {
        SsmlElement::Sub { alias: lookup_or_empty_exec(a, "alias"), children: kids }
    } else if range_is(v, j, ne, "prosody") {
        SsmlElement::Prosody {
            rate: lookup_or_empty_exec(a, "rate"),
            pitch: lookup_or_empty_exec(a, "pitch"),
            contour: lookup_or_empty_exec(a, "contour"),
            range: lookup_or_empty_exec(a, "range"),
            volume: lookup_or_empty_exec(a, "volume"),
            children: kids,
        }
    } else if range_is(v, j, ne, "emphasis") {
        SsmlElement::Emphasis { level: lookup_or_empty_exec(a, "level"), children: kids }
    } else if range_is(v, j, ne, "audio") {
        SsmlElement::Audio { src: lookup_or_empty_exec(a, "src"), children: kids }
    } else if range_is(v, j, ne, "desc") {
        SsmlElement::Desc { children: kids }
    } else {
        SsmlElement::Lang { xml_lang: lookup_or_empty_exec(a, "xml:lang"), children: kids }
    }
}

/// The element without children that tag `v[j..ne]` makes.
fn build_leaf(v: &Vec<char>, j: usize, ne: usize, a: &Vec<(String, String)>) -> (r: SsmlElement)
    requires
        j <= ne <= v@.len(),
        leaf_node(v@.subrange(j as int, ne as int), Seq::empty()) is Some,
    ensures
        leaf_node(v@.subrange(j as int, ne as int), pairs_view(a@)) == Some(node_of(r)),
{
    if range_is(v, j, ne, "break") {
        let time = match lookup_exec(a, "time") {
            Some(t) => parse_duration(t.as_str()),
            None => None,
        };
        let strength = match lookup_exec(a, "strength") {
            Some(t) => BreakStrength::from_ssml(t.as_str()),
            None => None,
        };
        SsmlElement::Break { time, strength }
    } else if range_is(v, j, ne, "mark") {
        SsmlElement::Mark { name: lookup_or_empty_exec(a, "name") }
    } else {
        SsmlElement::LexiconUri { uri: lookup_or_empty_exec(a, "uri") }
    }
}

fn close_at_exec(v: &Vec<char>, i: usize, j: usize, ne: usize) -> (r: Option<usize>)
    requires
        i <= v@.len(),
        j <= ne <= v@.len(),
    ensures
        match close_at(v@, i as int, v@.subrange(j as int, ne as int)) {
            Some(e) => r == Some(e as usize) && i < e <= v@.len(),
            None => r is None,
        },
{
    proof {
        reveal_strlit("</");
    }
    let len = v.len();
    let a = skip_ws_at(v, i);
    if !lit_at_exec(v, a, "</") {
        return None;
    }
    let k = skip_ws_at(v, a + 2);
    if !name_at(v, k, j, ne) {
        return None;
    }
    let m = skip_ws_at(v, k + (ne - j));
    if m < v.len() && v[m] == '>' {
        Some(m + 1)
    } else {
        None
    }
}

/// The element whose tag opens at `i`, and the position after it; on
/// failure, the position of the offending construct.
fn element_at_exec(v: &Vec<char>, i: usize) -> (r: Result<(SsmlElement, usize), usize>)
    requires
        i < v@.len(),
    ensures
        match element_at(v@, i as int) {
            Some((n, e)) => r matches Ok((el, k)) && node_of(el) == n && k == e && i < k <= v@.len(),
            None => r matches Err(p) && p == element_err(v@, i as int) && p <= v@.len(),
        },
    decreases v@.len() - i, 0int,
{
    proof {
        reveal_strlit("/>");
    }
    let len = v.len();
    let j = skip_ws_at(v, i + 1);
    let ne = name_end_at(v, j);
    match attrs_at_exec(v, ne) {
        None => Err(i),
        Some((a, k)) => {
            if k >= len {
                Err(i)
            } else if lit_at_exec(v, k, "/>") {
                if is_leaf(v, j, ne) {
                    Ok((build_leaf(v, j, ne, &a), k + 2))
                } else {
                    Err(i)
                }
            } else if v[k] != '>' {
                Err(k)
            } else if is_leaf(v, j, ne) {
                match close_at_exec(v, k + 1, j, ne) {
                    Some(e) => Ok((build_leaf(v, j, ne, &a), e)),
                    None => Err(k + 1),
                }
            } else if is_container(v, j, ne) {
                match content_at_exec(v, k + 1) {
                    Err(q) => Err(q),
                    Ok((kids, m)) => match close_at_exec(v, m, j, ne) {
                        Some(e) => Ok((build_container(v, j, ne, &a, kids), e)),
                        None => Err(m),
                    },
                }
            } else {
                Err(i)
            }
        },
    }
}

/// The elements from `i` up to the next closing tag or the end of the text.
fn content_at_exec(v: &Vec<char>, i: usize) -> (r: Result<(Vec<SsmlElement>, usize), usize>)
    requires
        i <= v@.len(),
    ensures
        match content_at(v@, i as int) {
            Some((ns, e)) => r matches Ok((els, k)) && nodes_of(els@) == ns && k == e && i <= k
                <= v@.len(),
            None => r matches Err(p) && p == content_err(v@, i as int) && p <= v@.len(),
        },
    decreases v@.len() - i, 1int,
{
    proof {
        reveal_strlit("</");
    }
    let mut acc: Vec<SsmlElement> = Vec::new();
    let mut p = i;
    loop
        invariant
            i <= p <= v@.len(),
            content_at(v@, i as int) == after(nodes_of(acc@), content_at(v@, p as int)),
            content_at(v@, p as int) is None ==> content_err(v@, i as int) == content_err(
                v@,
                p as int,
            ),
        decreases v@.len() - p,
    {
        let ghost before = acc@;
        if p == v.len() || lit_at_exec(v, p, "</") {
            assert(nodes_of(acc@) + Seq::<Node>::empty() =~= nodes_of(acc@));
            return Ok((acc, p));
        } else if v[p] == '<' {
            match element_at_exec(v, p) {
                Err(q) => {
                    return Err(q);
                },
                Ok((el, k)) => {
                    proof {
                        lemma_nodes_of_push(before, el);
                    }
                    acc.push(el);
                    proof {
                        match content_at(v@, k as int) {
                            Some((rest, e)) => {
                                assert(nodes_of(before) + (seq![node_of(el)] + rest) =~= nodes_of(
                                    acc@,
                                ) + rest);
                            },
                            None => {},
                        }
                    }
                    p = k;
                },
            }
        } else {
            let j = find_char_at(v, p, '<');
            let lo = skip_ws_at(v, p);
            let hi = trim_back_at(v, lo, j);
            if lo < j {
                let mut t = String::new();
                push_unescaped(&mut t, v, lo, hi);
                let el = SsmlElement::Text(t);
                proof {
                    lemma_nodes_of_push(before, el);
                }
                acc.push(el);
                proof {
                    match content_at(v@, j as int) {
                        Some((rest, e)) => {
                            assert(nodes_of(before) + (seq![node_of(el)] + rest) =~= nodes_of(acc@)
                                + rest);
                        },
                        None => {},
                    }
                }
            }
            p = j;
        }
    }
}

fn prolog_end_exec(v: &Vec<char>) -> (r: Option<usize>)
    ensures
        match prolog_end(v@) {
            Some(p) => r == Some(p as usize) && p <= v@.len(),
            None => r is None,
        },
{
    proof {
        reveal_strlit("<?xml");
        reveal_strlit("?>");
    }
    let len = v.len();
    let j = skip_ws_at(v, 0);
    if lit_at_exec(v, j, "<?xml") {
        match attrs_at_exec(v, j + 5) {
            Some((_, k)) => if lit_at_exec(v, k, "?>") {
                Some(k + 2)
            } else {
                None
            },
            None => None,
        }
    } else {
        Some(0)
    }
}

/// Reads a document. On failure, the errors say what went wrong and where;
/// there is no partial result.
pub fn parse(input: &str) -> (r: Result<SSML, Vec<ParseError>>)
    ensures
        match parse_document(input@) {
            Some(ns) => r matches Ok(d) && d@ == ns,
            None => r matches Err(es) && es@.len() > 0 && es@[0].start == document_err(input@)
                && forall|k: int|
                0 <= k < es@.len() ==> #[trigger] es@[k].start <= es@[k].end == input@.len(),
        },
{
    let v = chars_of(input);
    let len = v.len();
    let start = match prolog_end_exec(&v) {
        Some(p) => p,
        None => {
            let mut es = Vec::new();
            es.push(ParseError { message: "malformed declaration".to_string(), start: 0, end: len });
            return Err(es);
        },
    };
    match content_at_exec(&v, start) {
        Ok((elements, e)) => {
            if e == len {
                Ok(SSML { elements })
            } else {
                let mut es = Vec::new();
                es.push(ParseError { message: "unmatched closing tag".to_string(), start: e, end: len });
                Err(es)
            }
        },
        Err(p) => {
            let mut es = Vec::new();
            es.push(ParseError { message: "malformed or unknown element".to_string(), start: p, end: len });
            Err(es)
        },
    }
}

} // verus!
