//! Finding elements of a tree and changing them in place.
use vstd::prelude::*;

use crate::element::{node_of, nodes_of, SsmlElement, SSML};
use crate::text::same_str;

verus! {

/// The children of an element; none for the kinds that cannot have any.
pub open spec fn kids(e: SsmlElement) -> Seq<SsmlElement> {
    match e {
        SsmlElement::Voice { children, .. } => children@,
        SsmlElement::Speak { children, .. } => children@,
        SsmlElement::Paragraph { children } => children@,
        SsmlElement::Sentence { children } => children@,
        SsmlElement::Phoneme { children, .. } => children@,
        SsmlElement::SayAs { children, .. } => children@,
        SsmlElement::Sub { children, .. } => children@,
        SsmlElement::Prosody { children, .. } => children@,
        SsmlElement::Emphasis { children, .. } => children@,
        SsmlElement::Audio { children, .. } => children@,
        SsmlElement::Desc { children } => children@,
        SsmlElement::Lang { children, .. } => children@,
        _ => Seq::empty(),
    }
}

/// Whether `e` is of a kind that has children.
pub open spec fn has_kids(e: SsmlElement) -> bool {
    !(e is Break || e is Mark || e is LexiconUri || e is Text)
}

/// `a` and `b` are of one kind and agree on every field but the children.
pub open spec fn same_but_kids(a: SsmlElement, b: SsmlElement) -> bool {
    match (a, b) {
        (SsmlElement::Voice { name: x, .. }, SsmlElement::Voice { name: y, .. }) => x == y,
        (
            SsmlElement::Speak { version: v1, xmlns: x1, lang: l1, .. },
            SsmlElement::Speak { version: v2, xmlns: x2, lang: l2, .. },
        ) => v1 == v2 && x1 == x2 && l1 == l2,
        (SsmlElement::Paragraph { .. }, SsmlElement::Paragraph { .. }) => true,
        (SsmlElement::Sentence { .. }, SsmlElement::Sentence { .. }) => true,
        (
            SsmlElement::Phoneme { alphabet: a1, ph: p1, .. },
            SsmlElement::Phoneme { alphabet: a2, ph: p2, .. },
        ) => a1 == a2 && p1 == p2,
        (
            SsmlElement::SayAs { interpret_as: i1, format: f1, detail: d1, .. },
            SsmlElement::SayAs { interpret_as: i2, format: f2, detail: d2, .. },
        ) => i1 == i2 && f1 == f2 && d1 == d2,
        (SsmlElement::Sub { alias: x, .. }, SsmlElement::Sub { alias: y, .. }) => x == y,
        (
            SsmlElement::Prosody { rate: r1, pitch: p1, contour: c1, range: g1, volume: v1, .. },
            SsmlElement::Prosody { rate: r2, pitch: p2, contour: c2, range: g2, volume: v2, .. },
        ) => r1 == r2 && p1 == p2 && c1 == c2 && g1 == g2 && v1 == v2,
        (SsmlElement::Emphasis { level: x, .. }, SsmlElement::Emphasis { level: y, .. }) => x == y,
        (SsmlElement::Audio { src: x, .. }, SsmlElement::Audio { src: y, .. }) => x == y,
        (SsmlElement::Desc { .. }, SsmlElement::Desc { .. }) => true,
        (SsmlElement::Lang { xml_lang: x, .. }, SsmlElement::Lang { xml_lang: y, .. }) => x == y,
        _ => a == b,
    }
}

/// The visit of the children of `before`, which left `after` with the
/// children it has, and reported `hit`.
pub open spec fn kids_visited(
    pick: spec_fn(SsmlElement, bool) -> bool,
    change: spec_fn(SsmlElement, SsmlElement) -> bool,
    before: SsmlElement,
    after: SsmlElement,
    hit: bool,
) -> bool
    decreases before, 0nat,
    via kids_visited_decreases
{
    if has_kids(before) {
        visited_seq(pick, change, kids(before), kids(after), hit)
    } else {
        kids(after).len() == 0 && !hit
    }
}

/// One pre-order visit of `before`, which left `after` and reported `hit`:
/// `pick(e, b)` says that the predicate may answer `b` on `e`, and
/// `change(e, f)` that the modifier may turn `e` into `f`. The element itself
/// is tested first and changed if it matched; then its children are visited
/// in order. `hit` tells whether any element matched.
pub open spec fn visited(
    pick: spec_fn(SsmlElement, bool) -> bool,
    change: spec_fn(SsmlElement, SsmlElement) -> bool,
    before: SsmlElement,
    after: SsmlElement,
    hit: bool,
) -> bool
    decreases before, 1nat,
{
    exists|mid: SsmlElement|
        #[trigger] same_but_kids(after, mid) && kids(mid) == kids(before) && {
            ||| pick(before, true) && change(before, mid) && hit && (kids_visited(
                pick,
                change,
                before,
                after,
                true,
            ) || kids_visited(pick, change, before, after, false))
            ||| pick(before, false) && mid == before && kids_visited(
                pick,
                change,
                before,
                after,
                hit,
            )
        }
}

#[via_fn]
proof fn kids_visited_decreases(
    pick: spec_fn(SsmlElement, bool) -> bool,
    change: spec_fn(SsmlElement, SsmlElement) -> bool,
    before: SsmlElement,
    after: SsmlElement,
    hit: bool,
) {
    match before {
        SsmlElement::Voice { children, .. } => assert(decreases_to!(before => children@)),
        SsmlElement::Speak { children, .. } => assert(decreases_to!(before => children@)),
        SsmlElement::Paragraph { children } => assert(decreases_to!(before => children@)),
        SsmlElement::Sentence { children } => assert(decreases_to!(before => children@)),
        SsmlElement::Phoneme { children, .. } => assert(decreases_to!(before => children@)),
        SsmlElement::SayAs { children, .. } => assert(decreases_to!(before => children@)),
        SsmlElement::Sub { children, .. } => assert(decreases_to!(before => children@)),
        SsmlElement::Prosody { children, .. } => assert(decreases_to!(before => children@)),
        SsmlElement::Emphasis { children, .. } => assert(decreases_to!(before => children@)),
        SsmlElement::Audio { children, .. } => assert(decreases_to!(before => children@)),
        SsmlElement::Desc { children } => assert(decreases_to!(before => children@)),
        SsmlElement::Lang { children, .. } => assert(decreases_to!(before => children@)),
        _ => {},
    }
}

/// Visits of the elements of `before`, one after another.
pub open spec fn visited_seq(
    pick: spec_fn(SsmlElement, bool) -> bool,
    change: spec_fn(SsmlElement, SsmlElement) -> bool,
    before: Seq<SsmlElement>,
    after: Seq<SsmlElement>,
    hit: bool,
) -> bool
    decreases before,
{
    if before.len() != after.len() {
        false
    } else if before.len() == 0 {
        !hit
    } else {
        let (ib, ia, lb, la) = (before.drop_last(), after.drop_last(), before.last(), after.last());
        if hit {
            ||| visited_seq(pick, change, ib, ia, true) && (visited(pick, change, lb, la, true)
                || visited(pick, change, lb, la, false))
            ||| visited_seq(pick, change, ib, ia, false) && visited(pick, change, lb, la, true)
        } else {
            visited_seq(pick, change, ib, ia, false) && visited(pick, change, lb, la, false)
        }
    }
}

/// What a predicate closure may answer.
pub open spec fn pick_of<P: Fn(&SsmlElement) -> bool>(p: P) -> spec_fn(SsmlElement, bool) -> bool {
    |e: SsmlElement, b: bool| call_ensures(p, (&e,), b)
}

/// What a modifier closure may return.
pub open spec fn change_of<M: Fn(SsmlElement) -> SsmlElement>(m: M) -> spec_fn(
    SsmlElement,
    SsmlElement,
) -> bool {
    |e: SsmlElement, f: SsmlElement| call_ensures(m, (e,), f)
}

proof fn lemma_kid_smaller(e: SsmlElement, i: int)
    requires
        0 <= i < kids(e).len(),
    ensures
        decreases_to!(e => kids(e)[i]),
{
    match e {
        SsmlElement::Voice { children, .. } => assert(decreases_to!(e => children@[i])),
        SsmlElement::Speak { children, .. } => assert(decreases_to!(e => children@[i])),
        SsmlElement::Paragraph { children } => assert(decreases_to!(e => children@[i])),
        SsmlElement::Sentence { children } => assert(decreases_to!(e => children@[i])),
        SsmlElement::Phoneme { children, .. } => assert(decreases_to!(e => children@[i])),
        SsmlElement::SayAs { children, .. } => assert(decreases_to!(e => children@[i])),
        SsmlElement::Sub { children, .. } => assert(decreases_to!(e => children@[i])),
        SsmlElement::Prosody { children, .. } => assert(decreases_to!(e => children@[i])),
        SsmlElement::Emphasis { children, .. } => assert(decreases_to!(e => children@[i])),
        SsmlElement::Audio { children, .. } => assert(decreases_to!(e => children@[i])),
        SsmlElement::Desc { children } => assert(decreases_to!(e => children@[i])),
        SsmlElement::Lang { children, .. } => assert(decreases_to!(e => children@[i])),
        _ => {},
    }
}

/// Visits `element` and everything below it in pre-order: where `predicate`
/// holds, `modifier` replaces the element's own fields. The modifier must
/// keep the children it is given. Returns whether anything matched.
pub fn visit_mut<P, M>(element: &mut SsmlElement, predicate: &P, modifier: &M) -> (r: bool) where
    P: Fn(&SsmlElement) -> bool,
    M: Fn(SsmlElement) -> SsmlElement,
    requires
        forall|e: SsmlElement| call_requires(*predicate, (&e,)),
        forall|e: SsmlElement| call_requires(*modifier, (e,)),
        forall|e: SsmlElement, f: SsmlElement| call_ensures(*modifier, (e,), f) ==> kids(f) == kids(e),
    ensures
        visited(pick_of(*predicate), change_of(*modifier), *old(element), *final(element), r),
{
    visit_elem(element, predicate, modifier, Ghost(*element))
}

fn visit_elem<P, M>(element: &mut SsmlElement, predicate: &P, modifier: &M, Ghost(orig): Ghost<SsmlElement>) -> (r: bool) where
    P: Fn(&SsmlElement) -> bool,
    M: Fn(SsmlElement) -> SsmlElement,
    requires
        *old(element) == orig,
        forall|e: SsmlElement| call_requires(*predicate, (&e,)),
        forall|e: SsmlElement| call_requires(*modifier, (e,)),
        forall|e: SsmlElement, f: SsmlElement| call_ensures(*modifier, (e,), f) ==> kids(f) == kids(e),
    ensures
        visited(pick_of(*predicate), change_of(*modifier), orig, *final(element), r),
    decreases orig, 2nat,
{
    let b = predicate(element);
    if b {
        let mut taken = SsmlElement::Text(String::new());
        std::mem::swap(element, &mut taken);
        *element = modifier(taken);
    }
    let ghost mid = *element;
    let h = visit_kids(element, predicate, modifier, Ghost(orig));
    proof {
        let pick = pick_of(*predicate);
        let change = change_of(*modifier);
        let after = *element;
        // Children, if any, show that both kinds have them.
        if kids(orig).len() > 0 {
            assert(has_kids(orig) && has_kids(mid));
        }
        assert(kids_visited(pick, change, orig, after, h));
        assert(same_but_kids(after, mid));
    }
    b || h
}

fn visit_kids<P, M>(element: &mut SsmlElement, predicate: &P, modifier: &M, Ghost(orig): Ghost<SsmlElement>) -> (r: bool) where
    P: Fn(&SsmlElement) -> bool,
    M: Fn(SsmlElement) -> SsmlElement,
    requires
        kids(*old(element)) == kids(orig),
        forall|e: SsmlElement| call_requires(*predicate, (&e,)),
        forall|e: SsmlElement| call_requires(*modifier, (e,)),
        forall|e: SsmlElement, f: SsmlElement| call_ensures(*modifier, (e,), f) ==> kids(f) == kids(e),
    ensures
        same_but_kids(*final(element), *old(element)),
        if has_kids(*old(element)) {
            visited_seq(pick_of(*predicate), change_of(*modifier), kids(orig), kids(*final(element)), r)
        } else {
            kids(*final(element)).len() == 0 && !r
        },
    decreases orig, 1nat,
{
    match element {
        SsmlElement::Voice { children, .. } => visit_all(children, predicate, modifier, Ghost(orig)),
        SsmlElement::Speak { children, .. } => visit_all(children, predicate, modifier, Ghost(orig)),
        SsmlElement::Paragraph { children } => visit_all(children, predicate, modifier, Ghost(orig)),
        SsmlElement::Sentence { children } => visit_all(children, predicate, modifier, Ghost(orig)),
        SsmlElement::Phoneme { children, .. } => visit_all(children, predicate, modifier, Ghost(orig)),
        SsmlElement::SayAs { children, .. } => visit_all(children, predicate, modifier, Ghost(orig)),
        SsmlElement::Sub { children, .. } => visit_all(children, predicate, modifier, Ghost(orig)),
        SsmlElement::Prosody { children, .. } => visit_all(children, predicate, modifier, Ghost(orig)),
        SsmlElement::Emphasis { children, .. } => visit_all(children, predicate, modifier, Ghost(orig)),
        SsmlElement::Audio { children, .. } => visit_all(children, predicate, modifier, Ghost(orig)),
        SsmlElement::Desc { children } => visit_all(children, predicate, modifier, Ghost(orig)),
        SsmlElement::Lang { children, .. } => visit_all(children, predicate, modifier, Ghost(orig)),
        _ => false,
    }
}

fn visit_all<P, M>(v: &mut Vec<SsmlElement>, predicate: &P, modifier: &M, Ghost(orig): Ghost<SsmlElement>) -> (r: bool) where
    P: Fn(&SsmlElement) -> bool,
    M: Fn(SsmlElement) -> SsmlElement,
    requires
        old(v)@ == kids(orig),
        forall|e: SsmlElement| call_requires(*predicate, (&e,)),
        forall|e: SsmlElement| call_requires(*modifier, (e,)),
        forall|e: SsmlElement, f: SsmlElement| call_ensures(*modifier, (e,), f) ==> kids(f) == kids(e),
    ensures
        visited_seq(pick_of(*predicate), change_of(*modifier), old(v)@, final(v)@, r),
    decreases orig, 0nat,
{
    let ghost pick = pick_of(*predicate);
    let ghost change = change_of(*modifier);
    let ghost start = v@;
    let mut rest: Vec<SsmlElement> = Vec::new();
    std::mem::swap(v, &mut rest);
    let n = rest.len();
    let mut todo: Vec<SsmlElement> = Vec::new();
    while rest.len() > 0
        invariant
            n == start.len(),
            rest@ == start.subrange(0, rest@.len() as int),
            todo@.len() == n - rest@.len(),
            forall|k: int| 0 <= k < todo@.len() ==> #[trigger] todo@[k] == start[n - 1 - k],
        decreases rest@.len(),
    {
        let x = rest.pop().unwrap();
        todo.push(x);
    }
    let mut hit = false;
    let mut i: usize = 0;
    assert(v@ =~= Seq::<SsmlElement>::empty());
    assert(start.subrange(0, 0) =~= Seq::<SsmlElement>::empty());
    while todo.len() > 0
        invariant
            n == start.len(),
            start == kids(orig),
            i + todo@.len() == n,
            forall|k: int| 0 <= k < todo@.len() ==> #[trigger] todo@[k] == start[n - 1 - k],
            visited_seq(pick, change, start.subrange(0, i as int), v@, hit),
            pick == pick_of(*predicate),
            change == change_of(*modifier),
            forall|e: SsmlElement| call_requires(*predicate, (&e,)),
            forall|e: SsmlElement| call_requires(*modifier, (e,)),
            forall|e: SsmlElement, f: SsmlElement| call_ensures(*modifier, (e,), f) ==> kids(f) == kids(e),
        decreases todo@.len(),
    {
        let mut x = todo.pop().unwrap();
        assert(x == start[i as int]);
        proof {
            lemma_kid_smaller(orig, i as int);
        }
        let ghost before = v@;
        let ghost hit0 = hit;
        let h = visit_elem(&mut x, predicate, modifier, Ghost(start[i as int]));
        v.push(x);
        hit = hit || h;
        proof {
            let b2 = start.subrange(0, i + 1);
            assert(b2.drop_last() =~= start.subrange(0, i as int));
            assert(v@.drop_last() =~= before);
            assert(visited_seq(pick, change, b2.drop_last(), v@.drop_last(), hit0));
            assert(b2.last() == start[i as int]);
            assert(visited(pick, change, b2.last(), v@.last(), h));
            assert(hit == (hit0 || h));
        }
        i = i + 1;
    }
    assert(start.subrange(0, n as int) =~= start);
    hit
}

/// The name of an element's kind, as `find_and_modify_elements` takes it.
pub open spec fn kind_name(e: SsmlElement) -> Seq<char> {
    match e {
        SsmlElement::Voice { .. } => "Voice"@,
        SsmlElement::Speak { .. } => "Speak"@,
        SsmlElement::Paragraph { .. } => "Paragraph"@,
        SsmlElement::Sentence { .. } => "Sentence"@,
        SsmlElement::Phoneme { .. } => "Phoneme"@,
        SsmlElement::SayAs { .. } => "SayAs"@,
        SsmlElement::Sub { .. } => "Sub"@,
        SsmlElement::Prosody { .. } => "Prosody"@,
        SsmlElement::Emphasis { .. } => "Emphasis"@,
        SsmlElement::Break { .. } => "Break"@,
        SsmlElement::Mark { .. } => "Mark"@,
        SsmlElement::Audio { .. } => "Audio"@,
        SsmlElement::Desc { .. } => "Desc"@,
        SsmlElement::LexiconUri { .. } => "LexiconUri"@,
        SsmlElement::Lang { .. } => "Lang"@,
        SsmlElement::Text(_) => "Text"@,
    }
}

/// The predicate that picks exactly the elements of kind `kind`.
pub open spec fn pick_kind(kind: Seq<char>) -> spec_fn(SsmlElement, bool) -> bool {
    |e: SsmlElement, b: bool| b == (kind_name(e) == kind)
}

fn kind_is(e: &SsmlElement, kind: &str) -> (r: bool)
    ensures
        r == (kind_name(*e) == kind@),
{
    match e {
        SsmlElement::Voice { .. } => same_str(kind, "Voice"),
        SsmlElement::Speak { .. } => same_str(kind, "Speak"),
        SsmlElement::Paragraph { .. } => same_str(kind, "Paragraph"),
        SsmlElement::Sentence { .. } => same_str(kind, "Sentence"),
        SsmlElement::Phoneme { .. } => same_str(kind, "Phoneme"),
        SsmlElement::SayAs { .. } => same_str(kind, "SayAs"),
        SsmlElement::Sub { .. } => same_str(kind, "Sub"),
        SsmlElement::Prosody { .. } => same_str(kind, "Prosody"),
        SsmlElement::Emphasis { .. } => same_str(kind, "Emphasis"),
        SsmlElement::Break { .. } => same_str(kind, "Break"),
        SsmlElement::Mark { .. } => same_str(kind, "Mark"),
        SsmlElement::Audio { .. } => same_str(kind, "Audio"),
        SsmlElement::Desc { .. } => same_str(kind, "Desc"),
        SsmlElement::LexiconUri { .. } => same_str(kind, "LexiconUri"),
        SsmlElement::Lang { .. } => same_str(kind, "Lang"),
        SsmlElement::Text(_) => same_str(kind, "Text"),
    }
}

proof fn lemma_kids_smaller(e: SsmlElement)
    ensures
        has_kids(e) ==> decreases_to!(e => kids(e)),
{
    match e {
        SsmlElement::Voice { children, .. } => assert(decreases_to!(e => children@)),
        SsmlElement::Speak { children, .. } => assert(decreases_to!(e => children@)),
        SsmlElement::Paragraph { children } => assert(decreases_to!(e => children@)),
        SsmlElement::Sentence { children } => assert(decreases_to!(e => children@)),
        SsmlElement::Phoneme { children, .. } => assert(decreases_to!(e => children@)),
        SsmlElement::SayAs { children, .. } => assert(decreases_to!(e => children@)),
        SsmlElement::Sub { children, .. } => assert(decreases_to!(e => children@)),
        SsmlElement::Prosody { children, .. } => assert(decreases_to!(e => children@)),
        SsmlElement::Emphasis { children, .. } => assert(decreases_to!(e => children@)),
        SsmlElement::Audio { children, .. } => assert(decreases_to!(e => children@)),
        SsmlElement::Desc { children } => assert(decreases_to!(e => children@)),
        SsmlElement::Lang { children, .. } => assert(decreases_to!(e => children@)),
        _ => {},
    }
}

/// A visit under a predicate that may answer `b` only where `p2` allows it
/// is also a visit under `p2`.
proof fn lemma_visited_weaken(
    p1: spec_fn(SsmlElement, bool) -> bool,
    p2: spec_fn(SsmlElement, bool) -> bool,
    change: spec_fn(SsmlElement, SsmlElement) -> bool,
    before: SsmlElement,
    after: SsmlElement,
    hit: bool,
)
    requires
        forall|e: SsmlElement, b: bool| #[trigger] p1(e, b) ==> p2(e, b),
        visited(p1, change, before, after, hit),
    ensures
        visited(p2, change, before, after, hit),
    decreases before, 1nat,
{
    let mid = choose|mid: SsmlElement|
        #[trigger] same_but_kids(after, mid) && kids(mid) == kids(before) && {
            ||| p1(before, true) && change(before, mid) && hit && (kids_visited(
                p1,
                change,
                before,
                after,
                true,
            ) || kids_visited(p1, change, before, after, false))
            ||| p1(before, false) && mid == before && kids_visited(p1, change, before, after, hit)
        };
    if kids_visited(p1, change, before, after, true) {
        lemma_kids_weaken(p1, p2, change, before, after, true);
    }
    if kids_visited(p1, change, before, after, false) {
        lemma_kids_weaken(p1, p2, change, before, after, false);
    }
    if kids_visited(p1, change, before, after, hit) {
        lemma_kids_weaken(p1, p2, change, before, after, hit);
    }
    assert(same_but_kids(after, mid));
}

proof fn lemma_kids_weaken(
    p1: spec_fn(SsmlElement, bool) -> bool,
    p2: spec_fn(SsmlElement, bool) -> bool,
    change: spec_fn(SsmlElement, SsmlElement) -> bool,
    before: SsmlElement,
    after: SsmlElement,
    hit: bool,
)
    requires
        forall|e: SsmlElement, b: bool| #[trigger] p1(e, b) ==> p2(e, b),
        kids_visited(p1, change, before, after, hit),
    ensures
        kids_visited(p2, change, before, after, hit),
    decreases before, 0nat,
{
    if has_kids(before) {
        lemma_kids_smaller(before);
        lemma_seq_weaken(p1, p2, change, kids(before), kids(after), hit);
    }
}

proof fn lemma_seq_weaken(
    p1: spec_fn(SsmlElement, bool) -> bool,
    p2: spec_fn(SsmlElement, bool) -> bool,
    change: spec_fn(SsmlElement, SsmlElement) -> bool,
    before: Seq<SsmlElement>,
    after: Seq<SsmlElement>,
    hit: bool,
)
    requires
        forall|e: SsmlElement, b: bool| #[trigger] p1(e, b) ==> p2(e, b),
        visited_seq(p1, change, before, after, hit),
    ensures
        visited_seq(p2, change, before, after, hit),
    decreases before,
{
    if before.len() > 0 {
        let (ib, ia, lb, la) = (before.drop_last(), after.drop_last(), before.last(), after.last());
        if visited_seq(p1, change, ib, ia, true) {
            lemma_seq_weaken(p1, p2, change, ib, ia, true);
        }
        if visited_seq(p1, change, ib, ia, false) {
            lemma_seq_weaken(p1, p2, change, ib, ia, false);
        }
        if visited(p1, change, lb, la, true) {
            lemma_visited_weaken(p1, p2, change, lb, la, true);
        }
        if visited(p1, change, lb, la, false) {
            lemma_visited_weaken(p1, p2, change, lb, la, false);
        }
    }
}

/// Applies `modifier` to every element of kind `element_type` (such as
/// `"Break"` or `"Voice"`), at the top level and below, in pre-order. The
/// modifier must keep the children it is given. Returns whether any element
/// was of that kind.
pub fn find_and_modify_elements<F>(ssml: &mut SSML, element_type: &str, modifier: F) -> (r: bool) where
    F: Fn(SsmlElement) -> SsmlElement,
    requires
        forall|e: SsmlElement| call_requires(modifier, (e,)),
        forall|e: SsmlElement, f: SsmlElement| call_ensures(modifier, (e,), f) ==> kids(f) == kids(e),
    ensures
        visited_seq(
            pick_kind(element_type@),
            change_of(modifier),
            old(ssml).elements@,
            final(ssml).elements@,
            r,
        ),
{
    let predicate = |e: &SsmlElement| -> (b: bool)
        ensures
            b == (kind_name(*e) == element_type@),
        { kind_is(e, element_type) };
    let ghost pick = pick_kind(element_type@);
    let ghost change = change_of(modifier);
    proof {
        assert forall|e: SsmlElement, b: bool| #[trigger] call_ensures(predicate, (&e,), b) implies pick(e, b) by {}
        assert forall|e: SsmlElement| #[trigger] call_requires(predicate, (&e,)) by {}
    }
    let ghost start = ssml.elements@;
    let mut rest: Vec<SsmlElement> = Vec::new();
    std::mem::swap(&mut ssml.elements, &mut rest);
    let n = rest.len();
    let mut todo: Vec<SsmlElement> = Vec::new();
    while rest.len() > 0
        invariant
            n == start.len(),
            rest@ == start.subrange(0, rest@.len() as int),
            todo@.len() == n - rest@.len(),
            forall|k: int| 0 <= k < todo@.len() ==> #[trigger] todo@[k] == start[n - 1 - k],
        decreases rest@.len(),
    {
        let x = rest.pop().unwrap();
        todo.push(x);
    }
    let mut hit = false;
    let mut i: usize = 0;
    assert(ssml.elements@ =~= Seq::<SsmlElement>::empty());
    assert(start.subrange(0, 0) =~= Seq::<SsmlElement>::empty());
    while todo.len() > 0
        invariant
            n == start.len(),
            i + todo@.len() == n,
            forall|k: int| 0 <= k < todo@.len() ==> #[trigger] todo@[k] == start[n - 1 - k],
            visited_seq(pick, change, start.subrange(0, i as int), ssml.elements@, hit),
            pick == pick_kind(element_type@),
            change == change_of(modifier),
            forall|e: SsmlElement, b: bool| #[trigger] call_ensures(predicate, (&e,), b) ==> pick(e, b),
            forall|e: SsmlElement| #[trigger] call_requires(predicate, (&e,)),
            forall|e: SsmlElement| call_requires(modifier, (e,)),
            forall|e: SsmlElement, f: SsmlElement| call_ensures(modifier, (e,), f) ==> kids(f) == kids(e),
        decreases todo@.len(),
    {
        let mut x = todo.pop().unwrap();
        assert(x == start[i as int]);
        let ghost before = ssml.elements@;
        let ghost hit0 = hit;
        let h = visit_mut(&mut x, &predicate, &modifier);
        proof {
            lemma_visited_weaken(pick_of(predicate), pick, change, start[i as int], x, h);
        }
        ssml.elements.push(x);
        hit = hit || h;
        proof {
            let b2 = start.subrange(0, i + 1);
            assert(b2.drop_last() =~= start.subrange(0, i as int));
            assert(ssml.elements@.drop_last() =~= before);
            assert(b2.last() == start[i as int]);
        }
        i = i + 1;
    }
    assert(start.subrange(0, n as int) =~= start);
    hit
}

/// No element of kind `kind` stands at `e` or anywhere below it.
pub open spec fn kind_absent(kind: Seq<char>, e: SsmlElement) -> bool
    decreases e, 1nat,
    via kind_absent_decreases
{
    kind_name(e) != kind && (!has_kids(e) || kind_absent_seq(kind, kids(e)))
}

#[via_fn]
proof fn kind_absent_decreases(kind: Seq<char>, e: SsmlElement) {
    lemma_kids_smaller(e);
}

/// No element of kind `kind` stands in `s` or anywhere below its elements.
pub open spec fn kind_absent_seq(kind: Seq<char>, s: Seq<SsmlElement>) -> bool
    decreases s, 0nat,
{
    s.len() == 0 || (kind_absent_seq(kind, s.drop_last()) && kind_absent(kind, s.last()))
}

/// A modifier that never returns: a visit that is possible with it applied
/// no modifier anywhere.
pub open spec fn no_change() -> spec_fn(SsmlElement, SsmlElement) -> bool {
    |e: SsmlElement, f: SsmlElement| false
}

proof fn lemma_absent_visit(
    kind: Seq<char>,
    change: spec_fn(SsmlElement, SsmlElement) -> bool,
    before: SsmlElement,
    after: SsmlElement,
    hit: bool,
)
    requires
        kind_absent(kind, before),
        visited(pick_kind(kind), change, before, after, hit),
    ensures
        !hit,
        node_of(after) == node_of(before),
        visited(pick_kind(kind), no_change(), before, after, hit),
    decreases before, 1nat,
{
    let pick = pick_kind(kind);
    let mid = choose|mid: SsmlElement|
        #[trigger] same_but_kids(after, mid) && kids(mid) == kids(before) && {
            ||| pick(before, true) && change(before, mid) && hit && (kids_visited(
                pick,
                change,
                before,
                after,
                true,
            ) || kids_visited(pick, change, before, after, false))
            ||| pick(before, false) && mid == before && kids_visited(pick, change, before, after, hit)
        };
    assert(!pick(before, true));
    assert(mid == before);
    if has_kids(before) {
        lemma_kids_smaller(before);
        lemma_absent_visit_seq(kind, change, kids(before), kids(after), hit);
    }
    assert(same_but_kids(after, before));
    assert(kids_visited(pick, no_change(), before, after, hit));
    assert(node_of(after) == node_of(before));
}

proof fn lemma_absent_visit_seq(
    kind: Seq<char>,
    change: spec_fn(SsmlElement, SsmlElement) -> bool,
    before: Seq<SsmlElement>,
    after: Seq<SsmlElement>,
    hit: bool,
)
    requires
        kind_absent_seq(kind, before),
        visited_seq(pick_kind(kind), change, before, after, hit),
    ensures
        !hit,
        nodes_of(after) == nodes_of(before),
        visited_seq(pick_kind(kind), no_change(), before, after, hit),
    decreases before, 0nat,
{
    let pick = pick_kind(kind);
    if before.len() > 0 {
        let (ib, ia, lb, la) = (before.drop_last(), after.drop_last(), before.last(), after.last());
        if visited_seq(pick, change, ib, ia, true) {
            lemma_absent_visit_seq(kind, change, ib, ia, true);
        }
        if visited_seq(pick, change, ib, ia, false) {
            lemma_absent_visit_seq(kind, change, ib, ia, false);
        }
        if visited(pick, change, lb, la, true) {
            lemma_absent_visit(kind, change, lb, la, true);
        }
        if visited(pick, change, lb, la, false) {
            lemma_absent_visit(kind, change, lb, la, false);
        }
    }
}

/// Looking for a kind that no element of the document has finds nothing:
/// `find_and_modify_elements` then returns `false`, leaves the document as
/// it was, and applies the modifier nowhere (its visit is one that a
/// modifier that never returns could make).
pub proof fn lemma_absent_kind_untouched(
    kind: Seq<char>,
    change: spec_fn(SsmlElement, SsmlElement) -> bool,
    before: Seq<SsmlElement>,
    after: Seq<SsmlElement>,
    hit: bool,
)
    requires
        kind_absent_seq(kind, before),
        visited_seq(pick_kind(kind), change, before, after, hit),
    ensures
        !hit,
        nodes_of(after) == nodes_of(before),
        visited_seq(pick_kind(kind), no_change(), before, after, hit),
{
    lemma_absent_visit_seq(kind, change, before, after, hit);
}

} // verus!
