//! How reading and rendering fit together.
use vstd::prelude::*;

use crate::break_strength::{lemma_strength_round_trip, strength_text, BreakStrength};
use crate::duration::{duration_nanos_of, millis_text, Duration};
use crate::element::Node;
use crate::escape::{
    amp_entity, escape, escape_char, gt_entity, has_prefix, lemma_escape_clean, lemma_escape_push,
    lemma_unescape_escape, lt_entity, quot_entity, unescape,
};
use crate::grammar::{
    attr_at, attrs_at, container_node, content_at, element_at, find_char, is_name_char, is_name_start,
    leaf_node, lit_at, lookup, lookup_or_empty, name_end, parse_document, prolog_end, skip_ws, trim_back,
};
use crate::ser::{
    attr_text, container, decimal, opt_attr, render_node, render_nodes, str_attr,
};
use crate::text::is_space;

verus! {

proof fn lemma_find_char_none(s: Seq<char>, i: int, c: char)
    requires
        0 <= i <= s.len(),
        forall|k: int| i <= k < s.len() ==> #[trigger] s[k] != c,
    ensures
        find_char(s, i, c) == s.len(),
    decreases s.len() - i,
{
    if i < s.len() {
        lemma_find_char_none(s, i + 1, c);
    }
}

proof fn lemma_escape_ends(t: Seq<char>)
    requires
        t.len() > 0,
    ensures
        escape(t).len() > 0,
        escape(t)[0] == '&' || escape(t)[0] == t[0],
        escape(t)[escape(t).len() - 1] == ';' || escape(t)[escape(t).len() - 1] == t.last(),
{
    let s = escape(t);
    let head = escape_char(t[0]);
    assert(s == head + escape(t.drop_first()));
    assert(s[0] == head[0]);
    lemma_escape_push(t.drop_last(), t.last());
    assert(t.drop_last().push(t.last()) =~= t);
    let tail = escape_char(t.last());
    assert(s == escape(t.drop_last()) + tail);
    assert(s[s.len() - 1] == tail[tail.len() - 1]);
}

/// Reading a run of text with no `<`, and no whitespace at either end, gives
/// one text element.
proof fn lemma_read_text_run(s: Seq<char>)
    requires
        s.len() > 0,
        forall|k: int| 0 <= k < s.len() ==> #[trigger] s[k] != '<',
        !is_space(s[0]),
        !is_space(s[s.len() - 1]),
    ensures
        parse_document(s) == Some(seq![Node::Text(unescape(s))]),
{
    lemma_find_char_none(s, 0, '<');
    assert(skip_ws(s, 0) == 0);
    assert(trim_back(s, 0, s.len() as int) == s.len());
    reveal_strlit("</");
    reveal_strlit("<?xml");
    assert(s.subrange(0, s.len() as int) =~= s);
    assert(content_at(s, s.len() as int) == Some((Seq::<Node>::empty(), s.len() as int)));
    assert(seq![Node::Text(unescape(s))] + Seq::<Node>::empty() =~= seq![Node::Text(unescape(s))]);
    if 2 <= s.len() {
        assert(s.subrange(0, 2)[0] == s[0]);
    }
    assert(content_at(s, 0) == Some((seq![Node::Text(unescape(s))], s.len() as int)));
    if 5 <= s.len() {
        assert(s.subrange(0, 5)[0] == s[0]);
    }
    assert(prolog_end(s) == Some(0int));
}

/// Text with no whitespace at either end, and not empty, renders with its
/// reserved characters (`<`, `>`, `&`, `"`) written as entities, and reading
/// that rendering gives back one text element with the original content.
pub proof fn lemma_text_round_trip(t: Seq<char>)
    requires
        t.len() > 0,
        !is_space(t[0]),
        !is_space(t.last()),
    ensures
        render_nodes(seq![Node::Text(t)]) == escape(t),
        parse_document(escape(t)) == Some(seq![Node::Text(t)]),
{
    let s = escape(t);
    let one = seq![Node::Text(t)];
    assert(one.drop_last() =~= Seq::<Node>::empty());
    assert(render_nodes(Seq::<Node>::empty()) == Seq::<char>::empty());
    assert(render_node(one.last()) == s);
    assert(render_nodes(one) =~= s);
    lemma_escape_clean(t);
    lemma_unescape_escape(t);
    lemma_escape_ends(t);
    assert forall|k: int| 0 <= k < s.len() implies #[trigger] s[k] != '<' by {}
    lemma_read_text_run(s);
}

/// `x + y` stands at `i` exactly when `x` does and `y` follows it.
proof fn lemma_lit_split(s: Seq<char>, i: int, x: Seq<char>, y: Seq<char>)
    requires
        lit_at(s, i, x + y),
    ensures
        lit_at(s, i, x),
        lit_at(s, i + x.len(), y),
{
    let w = s.subrange(i, i + x.len() + y.len());
    assert(w == x + y);
    assert forall|k: int| 0 <= k < x.len() implies s.subrange(i, i + x.len())[k] == x[k] by {
        assert(w[k] == (x + y)[k]);
    }
    assert(s.subrange(i, i + x.len()) =~= x);
    assert forall|k: int| 0 <= k < y.len() implies s.subrange(i + x.len(), i + x.len() + y.len())[k]
        == y[k] by {
        assert(w[x.len() + k] == (x + y)[x.len() + k]);
    }
    assert(s.subrange(i + x.len(), i + x.len() + y.len()) =~= y);
}

proof fn lemma_lit_char(s: Seq<char>, i: int, x: Seq<char>, k: int)
    requires
        lit_at(s, i, x),
        0 <= k < x.len(),
    ensures
        s[i + k] == x[k],
{
    assert(s.subrange(i, i + x.len())[k] == s[i + k]);
}

proof fn lemma_skip_ws_run(s: Seq<char>, i: int, m: int)
    requires
        0 <= i <= m <= s.len(),
        forall|k: int| i <= k < m ==> is_space(#[trigger] s[k]),
        m < s.len() ==> !is_space(s[m]),
    ensures
        skip_ws(s, i) == m,
    decreases m - i,
{
    if i < m {
        lemma_skip_ws_run(s, i + 1, m);
    }
}

proof fn lemma_name_end_run(s: Seq<char>, i: int, m: int)
    requires
        0 <= i <= m <= s.len(),
        forall|k: int| i <= k < m ==> is_name_char(#[trigger] s[k]),
        m < s.len() ==> !is_name_char(s[m]),
    ensures
        name_end(s, i) == m,
    decreases m - i,
{
    if i < m {
        lemma_name_end_run(s, i + 1, m);
    }
}

proof fn lemma_find_char_run(s: Seq<char>, i: int, m: int, c: char)
    requires
        0 <= i <= m <= s.len(),
        forall|k: int| i <= k < m ==> #[trigger] s[k] != c,
        m < s.len() ==> s[m] == c,
    ensures
        find_char(s, i, c) == m,
    decreases m - i,
{
    if i < m {
        lemma_find_char_run(s, i + 1, m, c);
    }
}

/// A value that escaping leaves as it is: none of `&`, `<`, `>`, `"`.
pub open spec fn clean(v: Seq<char>) -> bool {
    forall|k: int| 0 <= k < v.len() ==> {
        let c = #[trigger] v[k];
        c != '&' && c != '<' && c != '>' && c != '"'
    }
}

/// A name that the attribute reader takes whole.
pub open spec fn valid_name(nm: Seq<char>) -> bool {
    &&& nm.len() > 0
    &&& is_name_start(nm[0])
    &&& forall|k: int| 0 <= k < nm.len() ==> is_name_char(#[trigger] nm[k])
}

/// ` name="value"`, with the value as it stands.
pub open spec fn raw_attr(name: Seq<char>, value: Seq<char>) -> Seq<char> {
    " "@ + name + "=\""@ + value + "\""@
}

/// A list of attributes written one after another.
pub open spec fn attrs_text(l: Seq<(Seq<char>, Seq<char>)>) -> Seq<char>
    decreases l.len(),
{
    if l.len() == 0 {
        Seq::empty()
    } else {
        raw_attr(l[0].0, l[0].1) + attrs_text(l.drop_first())
    }
}

pub open spec fn names_ok(l: Seq<(Seq<char>, Seq<char>)>) -> bool {
    forall|k: int| 0 <= k < l.len() ==> valid_name(#[trigger] l[k].0)
}

pub open spec fn values_quote_free(l: Seq<(Seq<char>, Seq<char>)>) -> bool {
    forall|k: int, x: int| 0 <= k < l.len() && 0 <= x < l[k].1.len() ==> #[trigger] l[k].1[x] != '"'
}

proof fn lemma_readable_split(l: Seq<(Seq<char>, Seq<char>)>)
    requires
        readable_attrs(l),
    ensures
        names_ok(l),
        values_quote_free(l),
{
    assert forall|k: int, x: int| 0 <= k < l.len() && 0 <= x < l[k].1.len() implies #[trigger] l[k].1[x] != '"' by {
        assert(valid_name(l[k].0));
        assert(clean(l[k].1));
        let v = l[k].1;
        assert(v[x] != '"');
    }
}

pub open spec fn readable_attrs(l: Seq<(Seq<char>, Seq<char>)>) -> bool {
    forall|k: int| 0 <= k < l.len() ==> valid_name(#[trigger] l[k].0) && clean(l[k].1)
}

proof fn lemma_escape_clean_id(v: Seq<char>)
    requires
        clean(v),
    ensures
        escape(v) == v,
    decreases v.len(),
{
    if v.len() > 0 {
        lemma_escape_clean_id(v.drop_first());
        assert(clean(v.drop_first())) by {
            assert forall|k: int| 0 <= k < v.drop_first().len() implies {
                let c = #[trigger] v.drop_first()[k];
                c != '&' && c != '<' && c != '>' && c != '"'
            } by {
                assert(v.drop_first()[k] == v[k + 1]);
            }
        }
        let c = v[0];
        assert(c != '&' && c != '<' && c != '>' && c != '"');
        assert(escape_char(c) == seq![c]);
        assert(seq![c] + v.drop_first() =~= v);
    }
}

proof fn lemma_attrs_text_append(a: Seq<(Seq<char>, Seq<char>)>, b: Seq<(Seq<char>, Seq<char>)>)
    ensures
        attrs_text(a + b) == attrs_text(a) + attrs_text(b),
    decreases a.len(),
{
    if a.len() == 0 {
        assert(a + b =~= b);
        assert(attrs_text(a) + attrs_text(b) =~= attrs_text(b));
    } else {
        lemma_attrs_text_append(a.drop_first(), b);
        assert((a + b).drop_first() =~= a.drop_first() + b);
        assert((a + b)[0] == a[0]);
        assert(attrs_text(a + b) =~= attrs_text(a) + attrs_text(b));
    }
}

/// Reading attributes written as `attrs_text(l)` gives `l` back, when a
/// character that neither is whitespace nor begins a name follows them.
proof fn lemma_read_attrs(s: Seq<char>, i: int, l: Seq<(Seq<char>, Seq<char>)>)
    requires
        lit_at(s, i, attrs_text(l)),
        names_ok(l),
        values_quote_free(l),
        i + attrs_text(l).len() < s.len(),
        !is_space(s[i + attrs_text(l).len()]),
        !is_name_start(s[i + attrs_text(l).len()]),
    ensures
        attrs_at(s, i) == Some((l, i + attrs_text(l).len())),
    decreases l.len(),
{
    reveal_strlit(" ");
    reveal_strlit("=\"");
    reveal_strlit("\"");
    if l.len() == 0 {
        lemma_skip_ws_run(s, i, i);
    } else {
        let (nm, v) = l[0];
        let rest = l.drop_first();
        assert(valid_name(l[0].0));
        assert(forall|k: int| 0 <= k < v.len() ==> #[trigger] v[k] != '"');
        let x = raw_attr(nm, v);
        assert(attrs_text(l) == x + attrs_text(rest));
        lemma_lit_split(s, i, x, attrs_text(rest));
        assert(x == " "@ + nm + "=\""@ + v + "\""@);
        lemma_lit_split(s, i, " "@ + nm + "=\""@ + v, "\""@);
        lemma_lit_split(s, i, " "@ + nm + "=\""@, v);
        lemma_lit_split(s, i, " "@ + nm, "=\""@);
        lemma_lit_split(s, i, " "@, nm);
        let p = i + 1;
        let ne = p + nm.len();
        lemma_lit_char(s, i, " "@, 0);
        lemma_lit_char(s, ne, "=\""@, 0);
        lemma_lit_char(s, ne, "=\""@, 1);
        lemma_lit_char(s, ne + 2 + v.len(), "\""@, 0);
        assert(is_name_start(s[p])) by {
            lemma_lit_char(s, p, nm, 0);
        }
        lemma_skip_ws_run(s, i, p);
        assert forall|k: int| p <= k < ne implies is_name_char(#[trigger] s[k]) by {
            lemma_lit_char(s, p, nm, k - p);
        }
        lemma_name_end_run(s, p, ne);
        lemma_skip_ws_run(s, ne, ne);
        lemma_skip_ws_run(s, ne + 1, ne + 1);
        assert forall|k: int| ne + 2 <= k < ne + 2 + v.len() implies #[trigger] s[k] != '"' by {
            lemma_lit_char(s, ne + 2, v, k - ne - 2);
        }
        lemma_find_char_run(s, ne + 2, ne + 2 + v.len(), '"');
        assert(s.subrange(p, ne) =~= nm) by {
            assert(lit_at(s, p, nm));
        }
        assert(s.subrange(ne + 2, ne + 2 + v.len()) =~= v) by {
            assert(lit_at(s, ne + 2, v));
        }
        assert(attr_at(s, p) == Some((nm, v, ne + 3 + v.len())));
        assert(names_ok(rest) && values_quote_free(rest)) by {
            assert forall|k: int| 0 <= k < rest.len() implies valid_name(#[trigger] rest[k].0) by {
                assert(rest[k] == l[k + 1]);
            }
            assert forall|k: int, x: int| 0 <= k < rest.len() && 0 <= x < rest[k].1.len() implies #[trigger] rest[k].1[x] != '"' by {
                assert(rest[k] == l[k + 1]);
            }
        }
        lemma_read_attrs(s, i + x.len(), rest);
        assert(seq![(nm, v)] + rest =~= l);
    }
}

pub open spec fn str_pair(name: Seq<char>, v: Seq<char>) -> Seq<(Seq<char>, Seq<char>)> {
    if v.len() == 0 {
        Seq::empty()
    } else {
        seq![(name, v)]
    }
}

pub open spec fn opt_pair(name: Seq<char>, o: Option<Seq<char>>) -> Seq<(Seq<char>, Seq<char>)> {
    match o {
        Some(v) => seq![(name, v)],
        None => Seq::empty(),
    }
}

pub open spec fn time_pair(time: Option<Duration>) -> Seq<(Seq<char>, Seq<char>)> {
    match time {
        Some(d) => seq![("time"@, millis_text((d.nanos / 1_000_000) as nat))],
        None => Seq::empty(),
    }
}

pub open spec fn strength_pair(strength: Option<BreakStrength>) -> Seq<(Seq<char>, Seq<char>)> {
    match strength {
        Some(b) => seq![("strength"@, strength_text(b))],
        None => Seq::empty(),
    }
}

/// The tag an element is written with.
pub open spec fn tag_of(n: Node) -> Seq<char> {
    match n {
        Node::Speak { .. } => "speak"@,
        Node::Voice { .. } => "voice"@,
        Node::Paragraph { .. } => "p"@,
        Node::Sentence { .. } => "s"@,
        Node::Phoneme { .. } => "phoneme"@,
        Node::SayAs { .. } => "say-as"@,
        Node::Sub { .. } => "sub"@,
        Node::Prosody { .. } => "prosody"@,
        Node::Emphasis { .. } => "emphasis"@,
        Node::Break { .. } => "break"@,
        Node::Mark { .. } => "mark"@,
        Node::Audio { .. } => "audio"@,
        Node::Desc { .. } => "desc"@,
        Node::LexiconUri { .. } => "lexicon"@,
        Node::Lang { .. } => "lang"@,
        Node::Text(_) => Seq::empty(),
    }
}

/// The attributes an element is written with, in order.
pub open spec fn attr_list(n: Node) -> Seq<(Seq<char>, Seq<char>)> {
    match n {
        Node::Speak { version, xmlns, lang, .. } => opt_pair("version"@, version) + opt_pair(
            "xmlns"@,
            xmlns,
        ) + opt_pair("xml:lang"@, lang),
        Node::Voice { name, .. } => str_pair("name"@, name),
        Node::Phoneme { alphabet, ph, .. } => str_pair("alphabet"@, alphabet) + str_pair("ph"@, ph),
        Node::SayAs { interpret_as, format, detail, .. } => str_pair("interpret-as"@, interpret_as)
            + str_pair("format"@, format) + str_pair("detail"@, detail),
        Node::Sub { alias, .. } => str_pair("alias"@, alias),
        Node::Prosody { rate, pitch, contour, range, volume, .. } => str_pair("rate"@, rate)
            + str_pair("pitch"@, pitch) + str_pair("contour"@, contour) + str_pair("range"@, range)
            + str_pair("volume"@, volume),
        Node::Emphasis { level, .. } => str_pair("level"@, level),
        Node::Break { time, strength } => time_pair(time) + strength_pair(strength),
        Node::Mark { name } => seq![("name"@, name)],
        Node::Audio { src, .. } => str_pair("src"@, src),
        Node::LexiconUri { uri } => seq![("uri"@, uri)],
        Node::Lang { xml_lang, .. } => str_pair("xml:lang"@, xml_lang),
        _ => Seq::empty(),
    }
}

/// The children of an element's value.
pub open spec fn node_kids(n: Node) -> Seq<Node> {
    match n {
        Node::Speak { children, .. } => children,
        Node::Voice { children, .. } => children,
        Node::Paragraph { children } => children,
        Node::Sentence { children } => children,
        Node::Phoneme { children, .. } => children,
        Node::SayAs { children, .. } => children,
        Node::Sub { children, .. } => children,
        Node::Prosody { children, .. } => children,
        Node::Emphasis { children, .. } => children,
        Node::Audio { children, .. } => children,
        Node::Desc { children } => children,
        Node::Lang { children, .. } => children,
        _ => Seq::empty(),
    }
}

pub open spec fn is_leaf_node(n: Node) -> bool {
    n is Break || n is Mark || n is LexiconUri
}

pub open spec fn opt_clean(o: Option<Seq<char>>) -> bool {
    o matches Some(v) ==> clean(v)
}

/// Every string attribute of `n` is clean.
pub open spec fn fields_clean(n: Node) -> bool {
    match n {
        Node::Speak { version, xmlns, lang, .. } => opt_clean(version) && opt_clean(xmlns)
            && opt_clean(lang),
        Node::Voice { name, .. } => clean(name),
        Node::Phoneme { alphabet, ph, .. } => clean(alphabet) && clean(ph),
        Node::SayAs { interpret_as, format, detail, .. } => clean(interpret_as) && clean(format)
            && clean(detail),
        Node::Sub { alias, .. } => clean(alias),
        Node::Prosody { rate, pitch, contour, range, volume, .. } => clean(rate) && clean(pitch)
            && clean(contour) && clean(range) && clean(volume),
        Node::Emphasis { level, .. } => clean(level),
        Node::Mark { name } => clean(name),
        Node::Audio { src, .. } => clean(src),
        Node::LexiconUri { uri } => clean(uri),
        Node::Lang { xml_lang, .. } => clean(xml_lang),
        _ => true,
    }
}

/// The duration reader takes `d`, written in whole milliseconds as
/// `<n>ms`, back as `d` (it does for a whole number of milliseconds whose
/// nanosecond count fits in a `u64`).
pub open spec fn reads_back(d: Duration) -> bool {
    duration_nanos_of(millis_text((d.nanos / 1_000_000) as nat)) == Some(d.nanos)
}

/// An element as reading produces it, with attribute values free of the
/// reserved characters and durations that read back from their written form.
pub open spec fn good_node(n: Node) -> bool
    decreases n,
    via good_node_decreases
{
    match n {
        Node::Text(t) => t.len() > 0 && !is_space(t[0]) && !is_space(t.last()),
        Node::Break { time, .. } => match time {
            Some(d) => reads_back(d),
            None => true,
        },
        _ => fields_clean(n) && (is_leaf_node(n) || good_nodes(node_kids(n))),
    }
}

#[via_fn]
proof fn good_node_decreases(n: Node) {
    lemma_node_kids_smaller(n);
}

proof fn lemma_node_kids_smaller(n: Node)
    ensures
        !is_leaf_node(n) && !(n is Text) ==> decreases_to!(n => node_kids(n)),
{
    match n {
        Node::Speak { children, .. } => assert(decreases_to!(n => children)),
        Node::Voice { children, .. } => assert(decreases_to!(n => children)),
        Node::Paragraph { children } => assert(decreases_to!(n => children)),
        Node::Sentence { children } => assert(decreases_to!(n => children)),
        Node::Phoneme { children, .. } => assert(decreases_to!(n => children)),
        Node::SayAs { children, .. } => assert(decreases_to!(n => children)),
        Node::Sub { children, .. } => assert(decreases_to!(n => children)),
        Node::Prosody { children, .. } => assert(decreases_to!(n => children)),
        Node::Emphasis { children, .. } => assert(decreases_to!(n => children)),
        Node::Audio { children, .. } => assert(decreases_to!(n => children)),
        Node::Desc { children } => assert(decreases_to!(n => children)),
        Node::Lang { children, .. } => assert(decreases_to!(n => children)),
        _ => {},
    }
}

/// Elements as reading produces them: each one good, and no two runs of
/// text next to each other.
pub open spec fn good_nodes(ns: Seq<Node>) -> bool
    decreases ns,
{
    if ns.len() == 0 {
        true
    } else {
        &&& good_node(ns[0])
        &&& ns.len() >= 2 ==> !(ns[0] is Text && ns[1] is Text)
        &&& good_nodes(ns.drop_first())
    }
}

proof fn lemma_names()
    ensures
        valid_name("version"@),
        valid_name("xmlns"@),
        valid_name("xml:lang"@),
        valid_name("name"@),
        valid_name("alphabet"@),
        valid_name("ph"@),
        valid_name("interpret-as"@),
        valid_name("format"@),
        valid_name("detail"@),
        valid_name("alias"@),
        valid_name("rate"@),
        valid_name("pitch"@),
        valid_name("contour"@),
        valid_name("range"@),
        valid_name("volume"@),
        valid_name("level"@),
        valid_name("time"@),
        valid_name("strength"@),
        valid_name("src"@),
        valid_name("uri"@),
        "version"@ != "xmlns"@,
        "version"@ != "xml:lang"@,
        "xmlns"@ != "xml:lang"@,
        "alphabet"@ != "ph"@,
        "interpret-as"@ != "format"@,
        "interpret-as"@ != "detail"@,
        "format"@ != "detail"@,
        "rate"@ != "pitch"@,
        "rate"@ != "contour"@,
        "rate"@ != "range"@,
        "rate"@ != "volume"@,
        "pitch"@ != "contour"@,
        "pitch"@ != "range"@,
        "pitch"@ != "volume"@,
        "contour"@ != "range"@,
        "contour"@ != "volume"@,
        "range"@ != "volume"@,
        "time"@ != "strength"@,
{
    reveal_strlit("version");
    reveal_strlit("xmlns");
    reveal_strlit("xml:lang");
    reveal_strlit("name");
    reveal_strlit("alphabet");
    reveal_strlit("ph");
    reveal_strlit("interpret-as");
    reveal_strlit("format");
    reveal_strlit("detail");
    reveal_strlit("alias");
    reveal_strlit("rate");
    reveal_strlit("pitch");
    reveal_strlit("contour");
    reveal_strlit("range");
    reveal_strlit("volume");
    reveal_strlit("level");
    reveal_strlit("time");
    reveal_strlit("strength");
    reveal_strlit("src");
    reveal_strlit("uri");
    assert("format"@[0] != "detail"@[0]);
    assert("pitch"@[0] != "range"@[0]);
}

/// Tag names: each is a run of name characters that starts with a letter,
/// and the reader's tables tell them apart.
proof fn lemma_tags()
    ensures
        forall|n: Node|
            !(n is Text) ==> {
                let t = #[trigger] tag_of(n);
                &&& t.len() > 0
                &&& 'a' <= t[0] <= 'z'
                &&& forall|k: int| 0 <= k < t.len() ==> is_name_char(#[trigger] t[k])
            },
        "speak"@ != "voice"@,
        "speak"@ != "audio"@,
        "voice"@ != "audio"@,
        "p"@ != "s"@,
        "phoneme"@ != "prosody"@,
        "desc"@ != "lang"@,
        "break"@ != "speak"@,
        "break"@ != "voice"@,
        "break"@ != "audio"@,
        "mark"@ != "desc"@,
        "mark"@ != "lang"@,
        "lexicon"@ != "phoneme"@,
        "lexicon"@ != "prosody"@,
{
    reveal_strlit("speak");
    reveal_strlit("voice");
    reveal_strlit("p");
    reveal_strlit("s");
    reveal_strlit("phoneme");
    reveal_strlit("say-as");
    reveal_strlit("sub");
    reveal_strlit("prosody");
    reveal_strlit("emphasis");
    reveal_strlit("break");
    reveal_strlit("mark");
    reveal_strlit("audio");
    reveal_strlit("desc");
    reveal_strlit("lexicon");
    reveal_strlit("lang");
    assert("speak"@[0] != "voice"@[0]);
    assert("speak"@[0] != "audio"@[0]);
    assert("voice"@[0] != "audio"@[0]);
    assert("p"@[0] != "s"@[0]);
    assert("phoneme"@[1] != "prosody"@[1]);
    assert("desc"@[0] != "lang"@[0]);
    assert("break"@[0] != "speak"@[0]);
    assert("break"@[0] != "voice"@[0]);
    assert("break"@[0] != "audio"@[0]);
    assert("mark"@[0] != "desc"@[0]);
    assert("mark"@[0] != "lang"@[0]);
    assert("lexicon"@[0] != "phoneme"@[0]);
    assert("lexicon"@[0] != "prosody"@[0]);
}

proof fn lemma_decimal_digits(n: nat)
    ensures
        forall|k: int| 0 <= k < decimal(n).len() ==> '0' <= #[trigger] decimal(n)[k] <= '9',
    decreases n,
{
    if n >= 10 {
        lemma_decimal_digits(n / 10);
        assert forall|k: int| 0 <= k < decimal(n).len() implies '0' <= #[trigger] decimal(n)[k] <= '9' by {
            if k < decimal(n / 10).len() {
                assert(decimal(n)[k] == decimal(n / 10)[k]);
            }
        }
    }
}

proof fn lemma_break_values_clean(m: nat, b: BreakStrength)
    ensures
        clean(millis_text(m)),
        clean(strength_text(b)),
{
    lemma_decimal_digits(m);
    reveal_strlit("ms");
    assert forall|k: int| 0 <= k < millis_text(m).len() implies {
        let c = #[trigger] millis_text(m)[k];
        c != '&' && c != '<' && c != '>' && c != '"'
    } by {
        if k < decimal(m).len() {
            assert(millis_text(m)[k] == decimal(m)[k]);
        } else {
            assert(millis_text(m)[k] == "ms"@[k - decimal(m).len()]);
        }
    }
    reveal_strlit("none");
    reveal_strlit("x-weak");
    reveal_strlit("weak");
    reveal_strlit("medium");
    reveal_strlit("strong");
    reveal_strlit("x-strong");
}

proof fn lemma_readable_append(a: Seq<(Seq<char>, Seq<char>)>, b: Seq<(Seq<char>, Seq<char>)>)
    requires
        readable_attrs(a),
        readable_attrs(b),
    ensures
        readable_attrs(a + b),
{
    assert forall|k: int| 0 <= k < (a + b).len() implies valid_name(#[trigger] (a + b)[k].0) && clean((a + b)[k].1) by {
        if k < a.len() {
            assert((a + b)[k] == a[k]);
            assert(valid_name(a[k].0) && clean(a[k].1));
        } else {
            assert((a + b)[k] == b[k - a.len()]);
            assert(valid_name(b[k - a.len()].0) && clean(b[k - a.len()].1));
        }
    }
}

proof fn lemma_readable_one(nm: Seq<char>, v: Seq<char>)
    requires
        valid_name(nm),
        clean(v),
    ensures
        readable_attrs(seq![(nm, v)]),
        readable_attrs(str_pair(nm, v)),
        readable_attrs(opt_pair(nm, Some(v))),
        readable_attrs(opt_pair(nm, None)),
{
}

/// The attributes of a good element can be read back.
proof fn lemma_readable(n: Node)
    requires
        good_node(n),
        !(n is Text),
    ensures
        readable_attrs(attr_list(n)),
{
    lemma_names();
    let e = Seq::<(Seq<char>, Seq<char>)>::empty();
    assert(readable_attrs(e));
    match n {
        Node::Speak { version, xmlns, lang, .. } => {
            if let Some(v) = version { lemma_readable_one("version"@, v); }
            if let Some(v) = xmlns { lemma_readable_one("xmlns"@, v); }
            if let Some(v) = lang { lemma_readable_one("xml:lang"@, v); }
            lemma_readable_append(opt_pair("version"@, version), opt_pair("xmlns"@, xmlns));
            lemma_readable_append(opt_pair("version"@, version) + opt_pair("xmlns"@, xmlns), opt_pair("xml:lang"@, lang));
        },
        Node::Voice { name, .. } => lemma_readable_one("name"@, name),
        Node::Phoneme { alphabet, ph, .. } => {
            lemma_readable_one("alphabet"@, alphabet);
            lemma_readable_one("ph"@, ph);
            lemma_readable_append(str_pair("alphabet"@, alphabet), str_pair("ph"@, ph));
        },
        Node::SayAs { interpret_as, format, detail, .. } => {
            lemma_readable_one("interpret-as"@, interpret_as);
            lemma_readable_one("format"@, format);
            lemma_readable_one("detail"@, detail);
            lemma_readable_append(str_pair("interpret-as"@, interpret_as), str_pair("format"@, format));
            lemma_readable_append(str_pair("interpret-as"@, interpret_as) + str_pair("format"@, format), str_pair("detail"@, detail));
        },
        Node::Sub { alias, .. } => lemma_readable_one("alias"@, alias),
        Node::Prosody { rate, pitch, contour, range, volume, .. } => {
            lemma_readable_one("rate"@, rate);
            lemma_readable_one("pitch"@, pitch);
            lemma_readable_one("contour"@, contour);
            lemma_readable_one("range"@, range);
            lemma_readable_one("volume"@, volume);
            let a1 = str_pair("rate"@, rate);
            let a2 = a1 + str_pair("pitch"@, pitch);
            let a3 = a2 + str_pair("contour"@, contour);
            let a4 = a3 + str_pair("range"@, range);
            lemma_readable_append(a1, str_pair("pitch"@, pitch));
            lemma_readable_append(a2, str_pair("contour"@, contour));
            lemma_readable_append(a3, str_pair("range"@, range));
            lemma_readable_append(a4, str_pair("volume"@, volume));
        },
        Node::Emphasis { level, .. } => lemma_readable_one("level"@, level),
        Node::Break { time, strength } => {
            if let Some(d) = time {
                lemma_break_values_clean((d.nanos / 1_000_000) as nat, BreakStrength::Weak);
                lemma_readable_one("time"@, millis_text((d.nanos / 1_000_000) as nat));
            }
            if let Some(b) = strength {
                lemma_break_values_clean(0, b);
                lemma_readable_one("strength"@, strength_text(b));
            }
            lemma_readable_append(time_pair(time), strength_pair(strength));
        },
        Node::Mark { name } => lemma_readable_one("name"@, name),
        Node::Audio { src, .. } => lemma_readable_one("src"@, src),
        Node::LexiconUri { uri } => lemma_readable_one("uri"@, uri),
        Node::Lang { xml_lang, .. } => lemma_readable_one("xml:lang"@, xml_lang),
        _ => {},
    }
}

proof fn lemma_one_attr(nm: Seq<char>, v: Seq<char>)
    requires
        clean(v),
    ensures
        attr_text(nm, v) == attrs_text(seq![(nm, v)]),
        str_attr(nm, v) == attrs_text(str_pair(nm, v)),
        opt_attr(nm, Some(v)) == attrs_text(opt_pair(nm, Some(v))),
        opt_attr(nm, None) == attrs_text(opt_pair(nm, None)),
{
    lemma_escape_clean_id(v);
    let one = seq![(nm, v)];
    assert(one.drop_first() =~= Seq::<(Seq<char>, Seq<char>)>::empty());
    assert(attrs_text(one.drop_first()) == Seq::<char>::empty());
    assert(attrs_text(one) =~= raw_attr(nm, v));
}

/// How an element other than text is written: its tag, then its attributes,
/// then either `/>` or its children and closing tag.
pub open spec fn shape(n: Node) -> Seq<char> {
    if is_leaf_node(n) {
        "<"@ + tag_of(n) + attrs_text(attr_list(n)) + "/>"@
    } else {
        container(tag_of(n), attrs_text(attr_list(n)), render_nodes(node_kids(n)))
    }
}

proof fn lemma_shape(n: Node)
    requires
        good_node(n),
        !(n is Text),
    ensures
        render_node(n) == shape(n),
{
    let e = Seq::<(Seq<char>, Seq<char>)>::empty();
    assert(attrs_text(e) == Seq::<char>::empty());
    match n {
        Node::Speak { version, xmlns, lang, .. } => {
            let (a, b, c) = (opt_pair("version"@, version), opt_pair("xmlns"@, xmlns), opt_pair("xml:lang"@, lang));
            match version { Some(v) => lemma_one_attr("version"@, v), None => lemma_one_attr("version"@, Seq::empty()) }
            match xmlns { Some(v) => lemma_one_attr("xmlns"@, v), None => lemma_one_attr("xmlns"@, Seq::empty()) }
            match lang { Some(v) => lemma_one_attr("xml:lang"@, v), None => lemma_one_attr("xml:lang"@, Seq::empty()) }
            lemma_attrs_text_append(a, b);
            lemma_attrs_text_append(a + b, c);
        },
        Node::Voice { name, .. } => lemma_one_attr("name"@, name),
        Node::Phoneme { alphabet, ph, .. } => {
            lemma_one_attr("alphabet"@, alphabet);
            lemma_one_attr("ph"@, ph);
            lemma_attrs_text_append(str_pair("alphabet"@, alphabet), str_pair("ph"@, ph));
        },
        Node::SayAs { interpret_as, format, detail, .. } => {
            lemma_one_attr("interpret-as"@, interpret_as);
            lemma_one_attr("format"@, format);
            lemma_one_attr("detail"@, detail);
            let a1 = str_pair("interpret-as"@, interpret_as);
            lemma_attrs_text_append(a1, str_pair("format"@, format));
            lemma_attrs_text_append(a1 + str_pair("format"@, format), str_pair("detail"@, detail));
        },
        Node::Sub { alias, .. } => lemma_one_attr("alias"@, alias),
        Node::Prosody { rate, pitch, contour, range, volume, .. } => {
            lemma_one_attr("rate"@, rate);
            lemma_one_attr("pitch"@, pitch);
            lemma_one_attr("contour"@, contour);
            lemma_one_attr("range"@, range);
            lemma_one_attr("volume"@, volume);
            let a1 = str_pair("rate"@, rate);
            let a2 = a1 + str_pair("pitch"@, pitch);
            let a3 = a2 + str_pair("contour"@, contour);
            let a4 = a3 + str_pair("range"@, range);
            lemma_attrs_text_append(a1, str_pair("pitch"@, pitch));
            lemma_attrs_text_append(a2, str_pair("contour"@, contour));
            lemma_attrs_text_append(a3, str_pair("range"@, range));
            lemma_attrs_text_append(a4, str_pair("volume"@, volume));
        },
        Node::Emphasis { level, .. } => lemma_one_attr("level"@, level),
        Node::Break { time, strength } => {
            lemma_attrs_text_append(time_pair(time), strength_pair(strength));
            if let Some(d) = time {
                let m = (d.nanos / 1_000_000) as nat;
                lemma_break_values_clean(m, BreakStrength::Weak);
                lemma_one_attr("time"@, millis_text(m));
                reveal_strlit(" time=\"");
                reveal_strlit("ms\"");
                reveal_strlit(" ");
                reveal_strlit("time");
                reveal_strlit("=\"");
                reveal_strlit("ms");
                reveal_strlit("\"");
                lemma_escape_clean_id(millis_text(m));
                assert(" time=\""@ + decimal(m) + "ms\""@ =~= attr_text("time"@, millis_text(m)));
            }
            if let Some(b) = strength {
                lemma_break_values_clean(0, b);
                lemma_one_attr("strength"@, strength_text(b));
            }
            let tp = match time {
                Some(d) => " time=\""@ + decimal((d.nanos / 1_000_000) as nat) + "ms\""@,
                None => Seq::empty(),
            };
            let sp = match strength {
                Some(b) => attr_text("strength"@, strength_text(b)),
                None => Seq::empty(),
            };
            assert(tp == attrs_text(time_pair(time)));
            assert(sp == attrs_text(strength_pair(strength)));
        },
        Node::Mark { name } => lemma_one_attr("name"@, name),
        Node::Audio { src, .. } => lemma_one_attr("src"@, src),
        Node::LexiconUri { uri } => lemma_one_attr("uri"@, uri),
        Node::Lang { xml_lang, .. } => lemma_one_attr("xml:lang"@, xml_lang),
        _ => {},
    }
}

proof fn lemma_lookup_append(a: Seq<(Seq<char>, Seq<char>)>, b: Seq<(Seq<char>, Seq<char>)>, key: Seq<char>)
    ensures
        lookup(a + b, key) == match lookup(b, key) {
            Some(v) => Some(v),
            None => lookup(a, key),
        },
    decreases b.len(),
{
    if b.len() == 0 {
        assert(a + b =~= a);
    } else {
        assert((a + b).drop_last() =~= a + b.drop_last());
        assert((a + b).last() == b.last());
        lemma_lookup_append(a, b.drop_last(), key);
    }
}

proof fn lemma_lookup_facts()
    ensures
        forall|a: Seq<(Seq<char>, Seq<char>)>, b: Seq<(Seq<char>, Seq<char>)>, key: Seq<char>|
            #[trigger] lookup(a + b, key) == match lookup(b, key) {
                Some(v) => Some(v),
                None => lookup(a, key),
            },
        forall|nm: Seq<char>, v: Seq<char>, key: Seq<char>|
            #[trigger] lookup(seq![(nm, v)], key) == if nm == key {
                Some(v)
            } else {
                None
            },
        forall|key: Seq<char>| #[trigger] lookup(Seq::<(Seq<char>, Seq<char>)>::empty(), key) is None,
{
    assert forall|a: Seq<(Seq<char>, Seq<char>)>, b: Seq<(Seq<char>, Seq<char>)>, key: Seq<char>|
        #[trigger] lookup(a + b, key) == match lookup(b, key) {
            Some(v) => Some(v),
            None => lookup(a, key),
        } by {
        lemma_lookup_append(a, b, key);
    }
    assert forall|nm: Seq<char>, v: Seq<char>, key: Seq<char>|
        #[trigger] lookup(seq![(nm, v)], key) == if nm == key {
            Some(v)
        } else {
            None
        } by {
        assert(seq![(nm, v)].drop_last() =~= Seq::<(Seq<char>, Seq<char>)>::empty());
        assert(lookup(Seq::<(Seq<char>, Seq<char>)>::empty(), key) is None);
    }
}

proof fn lemma_pair_lookups()
    ensures
        forall|a: Seq<(Seq<char>, Seq<char>)>, nm: Seq<char>, v: Seq<char>, key: Seq<char>|
            #[trigger] lookup_or_empty(a + str_pair(nm, v), key) == if nm == key && v.len() > 0 {
                v
            } else {
                lookup_or_empty(a, key)
            },
        forall|nm: Seq<char>, v: Seq<char>, key: Seq<char>|
            #[trigger] lookup_or_empty(str_pair(nm, v), key) == if nm == key {
                v
            } else {
                Seq::empty()
            },
        forall|a: Seq<(Seq<char>, Seq<char>)>, nm: Seq<char>, v: Seq<char>, key: Seq<char>|
            #[trigger] lookup(a + str_pair(nm, v), key) == if nm == key && v.len() > 0 {
                Some(v)
            } else {
                lookup(a, key)
            },
        forall|nm: Seq<char>, v: Seq<char>, key: Seq<char>|
            #[trigger] lookup(str_pair(nm, v), key) == if nm == key && v.len() > 0 {
                Some(v)
            } else {
                None
            },
        forall|a: Seq<(Seq<char>, Seq<char>)>, nm: Seq<char>, o: Option<Seq<char>>, key: Seq<char>|
            #[trigger] lookup(a + opt_pair(nm, o), key) == if nm == key && o is Some {
                o
            } else {
                lookup(a, key)
            },
        forall|nm: Seq<char>, o: Option<Seq<char>>, key: Seq<char>|
            #[trigger] lookup(opt_pair(nm, o), key) == if nm == key {
                o
            } else {
                None
            },
        forall|nm: Seq<char>, v: Seq<char>, key: Seq<char>|
            #[trigger] lookup(seq![(nm, v)], key) == if nm == key {
                Some(v)
            } else {
                None
            },
{
    lemma_lookup_facts();
    let e = Seq::<(Seq<char>, Seq<char>)>::empty();
    assert forall|nm: Seq<char>, v: Seq<char>, key: Seq<char>|
        #[trigger] lookup_or_empty(str_pair(nm, v), key) == if nm == key {
            v
        } else {
            Seq::empty()
        } by {
        if v.len() == 0 {
            assert(str_pair(nm, v) == e);
            assert(lookup(e, key) is None);
            assert(v =~= Seq::<char>::empty());
        } else {
            assert(lookup(seq![(nm, v)], key) == lookup(str_pair(nm, v), key));
        }
    }
    assert forall|a: Seq<(Seq<char>, Seq<char>)>, nm: Seq<char>, v: Seq<char>, key: Seq<char>|
        #[trigger] lookup_or_empty(a + str_pair(nm, v), key) == if nm == key && v.len() > 0 {
            v
        } else {
            lookup_or_empty(a, key)
        } by {
        if v.len() == 0 {
            assert(a + str_pair(nm, v) =~= a);
        } else {
            assert(lookup(a + seq![(nm, v)], key) == lookup(a + str_pair(nm, v), key));
        }
    }
    assert forall|a: Seq<(Seq<char>, Seq<char>)>, nm: Seq<char>, v: Seq<char>, key: Seq<char>|
        #[trigger] lookup(a + str_pair(nm, v), key) == if nm == key && v.len() > 0 {
            Some(v)
        } else {
            lookup(a, key)
        } by {
        if v.len() == 0 {
            assert(a + str_pair(nm, v) =~= a);
        } else {
            assert(lookup(a + seq![(nm, v)], key) == lookup(a + str_pair(nm, v), key));
        }
    }
    assert forall|nm: Seq<char>, v: Seq<char>, key: Seq<char>|
        #[trigger] lookup(str_pair(nm, v), key) == if nm == key && v.len() > 0 {
            Some(v)
        } else {
            None
        } by {
        if v.len() == 0 {
            assert(str_pair(nm, v) == e);
            assert(lookup(e, key) is None);
        } else {
            assert(lookup(seq![(nm, v)], key) == lookup(str_pair(nm, v), key));
        }
    }
    assert forall|a: Seq<(Seq<char>, Seq<char>)>, nm: Seq<char>, o: Option<Seq<char>>, key: Seq<char>|
        #[trigger] lookup(a + opt_pair(nm, o), key) == if nm == key && o is Some {
            o
        } else {
            lookup(a, key)
        } by {
        match o {
            Some(v) => {
                assert(lookup(a + seq![(nm, v)], key) == lookup(a + opt_pair(nm, o), key));
            },
            None => {
                assert(a + opt_pair(nm, o) =~= a);
            },
        }
    }
    assert forall|nm: Seq<char>, o: Option<Seq<char>>, key: Seq<char>|
        #[trigger] lookup(opt_pair(nm, o), key) == if nm == key {
            o
        } else {
            None
        } by {
        match o {
            Some(v) => {
                assert(lookup(seq![(nm, v)], key) == lookup(opt_pair(nm, o), key));
            },
            None => {
                assert(opt_pair(nm, o) == e);
                assert(lookup(e, key) is None);
            },
        }
    }
}

proof fn lemma_reveal_tags()
    ensures
        "speak"@ =~= seq!['s', 'p', 'e', 'a', 'k'],
        "voice"@ =~= seq!['v', 'o', 'i', 'c', 'e'],
        "p"@ =~= seq!['p'],
        "s"@ =~= seq!['s'],
        "phoneme"@ =~= seq!['p', 'h', 'o', 'n', 'e', 'm', 'e'],
        "say-as"@ =~= seq!['s', 'a', 'y', '-', 'a', 's'],
        "sub"@ =~= seq!['s', 'u', 'b'],
        "prosody"@ =~= seq!['p', 'r', 'o', 's', 'o', 'd', 'y'],
        "emphasis"@ =~= seq!['e', 'm', 'p', 'h', 'a', 's', 'i', 's'],
        "break"@ =~= seq!['b', 'r', 'e', 'a', 'k'],
        "mark"@ =~= seq!['m', 'a', 'r', 'k'],
        "audio"@ =~= seq!['a', 'u', 'd', 'i', 'o'],
        "desc"@ =~= seq!['d', 'e', 's', 'c'],
        "lexicon"@ =~= seq!['l', 'e', 'x', 'i', 'c', 'o', 'n'],
        "lang"@ =~= seq!['l', 'a', 'n', 'g'],
{
    reveal_strlit("speak");
    reveal_strlit("voice");
    reveal_strlit("p");
    reveal_strlit("s");
    reveal_strlit("phoneme");
    reveal_strlit("say-as");
    reveal_strlit("sub");
    reveal_strlit("prosody");
    reveal_strlit("emphasis");
    reveal_strlit("break");
    reveal_strlit("mark");
    reveal_strlit("audio");
    reveal_strlit("desc");
    reveal_strlit("lexicon");
    reveal_strlit("lang");
}

proof fn lemma_build_speak(n: Node)
    requires
        n is Speak,
        good_node(n),
    ensures
        leaf_node(tag_of(n), attr_list(n)) is None,
        container_node(tag_of(n), Seq::empty(), Seq::empty()) is Some,
        container_node(tag_of(n), attr_list(n), node_kids(n)) == Some(n),
{
    lemma_names();
    lemma_tags();
    lemma_pair_lookups();
    lemma_reveal_tags();
}

proof fn lemma_build_voice(n: Node)
    requires
        n is Voice,
        good_node(n),
    ensures
        leaf_node(tag_of(n), attr_list(n)) is None,
        container_node(tag_of(n), Seq::empty(), Seq::empty()) is Some,
        container_node(tag_of(n), attr_list(n), node_kids(n)) == Some(n),
{
    lemma_names();
    lemma_tags();
    lemma_pair_lookups();
    lemma_reveal_tags();
}

proof fn lemma_build_paragraph(n: Node)
    requires
        n is Paragraph,
        good_node(n),
    ensures
        leaf_node(tag_of(n), attr_list(n)) is None,
        container_node(tag_of(n), Seq::empty(), Seq::empty()) is Some,
        container_node(tag_of(n), attr_list(n), node_kids(n)) == Some(n),
{
    lemma_names();
    lemma_tags();
    lemma_pair_lookups();
    lemma_reveal_tags();
}

proof fn lemma_build_sentence(n: Node)
    requires
        n is Sentence,
        good_node(n),
    ensures
        leaf_node(tag_of(n), attr_list(n)) is None,
        container_node(tag_of(n), Seq::empty(), Seq::empty()) is Some,
        container_node(tag_of(n), attr_list(n), node_kids(n)) == Some(n),
{
    lemma_names();
    lemma_tags();
    lemma_pair_lookups();
    lemma_reveal_tags();
}

proof fn lemma_build_phoneme(n: Node)
    requires
        n is Phoneme,
        good_node(n),
    ensures
        leaf_node(tag_of(n), attr_list(n)) is None,
        container_node(tag_of(n), Seq::empty(), Seq::empty()) is Some,
        container_node(tag_of(n), attr_list(n), node_kids(n)) == Some(n),
{
    lemma_names();
    lemma_tags();
    lemma_pair_lookups();
    lemma_reveal_tags();
}

proof fn lemma_build_say_as(n: Node)
    requires
        n is SayAs,
        good_node(n),
    ensures
        leaf_node(tag_of(n), attr_list(n)) is None,
        container_node(tag_of(n), Seq::empty(), Seq::empty()) is Some,
        container_node(tag_of(n), attr_list(n), node_kids(n)) == Some(n),
{
    lemma_names();
    lemma_tags();
    lemma_pair_lookups();
    lemma_reveal_tags();
}

proof fn lemma_build_sub(n: Node)
    requires
        n is Sub,
        good_node(n),
    ensures
        leaf_node(tag_of(n), attr_list(n)) is None,
        container_node(tag_of(n), Seq::empty(), Seq::empty()) is Some,
        container_node(tag_of(n), attr_list(n), node_kids(n)) == Some(n),
{
    lemma_names();
    lemma_tags();
    lemma_pair_lookups();
    lemma_reveal_tags();
}

proof fn lemma_build_prosody(n: Node)
    requires
        n is Prosody,
        good_node(n),
    ensures
        leaf_node(tag_of(n), attr_list(n)) is None,
        container_node(tag_of(n), Seq::empty(), Seq::empty()) is Some,
        container_node(tag_of(n), attr_list(n), node_kids(n)) == Some(n),
{
    lemma_names();
    lemma_tags();
    lemma_pair_lookups();
    lemma_reveal_tags();
}

proof fn lemma_build_emphasis(n: Node)
    requires
        n is Emphasis,
        good_node(n),
    ensures
        leaf_node(tag_of(n), attr_list(n)) is None,
        container_node(tag_of(n), Seq::empty(), Seq::empty()) is Some,
        container_node(tag_of(n), attr_list(n), node_kids(n)) == Some(n),
{
    lemma_names();
    lemma_tags();
    lemma_pair_lookups();
    lemma_reveal_tags();
}

proof fn lemma_build_audio(n: Node)
    requires
        n is Audio,
        good_node(n),
    ensures
        leaf_node(tag_of(n), attr_list(n)) is None,
        container_node(tag_of(n), Seq::empty(), Seq::empty()) is Some,
        container_node(tag_of(n), attr_list(n), node_kids(n)) == Some(n),
{
    lemma_names();
    lemma_tags();
    lemma_pair_lookups();
    lemma_reveal_tags();
}

proof fn lemma_build_desc(n: Node)
    requires
        n is Desc,
        good_node(n),
    ensures
        leaf_node(tag_of(n), attr_list(n)) is None,
        container_node(tag_of(n), Seq::empty(), Seq::empty()) is Some,
        container_node(tag_of(n), attr_list(n), node_kids(n)) == Some(n),
{
    lemma_names();
    lemma_tags();
    lemma_pair_lookups();
    lemma_reveal_tags();
}

proof fn lemma_build_lang(n: Node)
    requires
        n is Lang,
        good_node(n),
    ensures
        leaf_node(tag_of(n), attr_list(n)) is None,
        container_node(tag_of(n), Seq::empty(), Seq::empty()) is Some,
        container_node(tag_of(n), attr_list(n), node_kids(n)) == Some(n),
{
    lemma_names();
    lemma_tags();
    lemma_pair_lookups();
    lemma_reveal_tags();
}

/// Reading the tag and attributes of a good element builds that element.
proof fn lemma_build(n: Node)
    requires
        good_node(n),
        !(n is Text),
    ensures
        is_leaf_node(n) ==> leaf_node(tag_of(n), attr_list(n)) == Some(n),
        !is_leaf_node(n) ==> {
            &&& leaf_node(tag_of(n), attr_list(n)) is None
            &&& container_node(tag_of(n), Seq::empty(), Seq::empty()) is Some
            &&& container_node(tag_of(n), attr_list(n), node_kids(n)) == Some(n)
        },
{
    match n {
        Node::Break { time, strength } => {
            lemma_names();
            lemma_pair_lookups();
            lemma_lookup_facts();
            lemma_reveal_tags();
            let l = attr_list(n);
            if let Some(d) = time {
                let m = (d.nanos / 1_000_000) as nat;
                assert(reads_back(d));
                assert(lookup(l, "time"@) == Some(millis_text(m)));
            } else {
                assert(lookup(l, "time"@) is None);
            }
            if let Some(b) = strength {
                lemma_strength_round_trip(b, Seq::empty());
                assert(lookup(l, "strength"@) == Some(strength_text(b)));
            } else {
                assert(lookup(l, "strength"@) is None);
            }
        },
        Node::Mark { .. } => {
            lemma_pair_lookups();
            lemma_reveal_tags();
        },
        Node::LexiconUri { .. } => {
            lemma_pair_lookups();
            lemma_reveal_tags();
        },
        Node::Speak { .. } => lemma_build_speak(n),
        Node::Voice { .. } => lemma_build_voice(n),
        Node::Paragraph { .. } => lemma_build_paragraph(n),
        Node::Sentence { .. } => lemma_build_sentence(n),
        Node::Phoneme { .. } => lemma_build_phoneme(n),
        Node::SayAs { .. } => lemma_build_say_as(n),
        Node::Sub { .. } => lemma_build_sub(n),
        Node::Prosody { .. } => lemma_build_prosody(n),
        Node::Emphasis { .. } => lemma_build_emphasis(n),
        Node::Audio { .. } => lemma_build_audio(n),
        Node::Desc { .. } => lemma_build_desc(n),
        Node::Lang { .. } => lemma_build_lang(n),
        Node::Text(_) => {},
    }
}

proof fn lemma_render_front(ns: Seq<Node>)
    requires
        ns.len() > 0,
    ensures
        render_nodes(ns) == render_node(ns[0]) + render_nodes(ns.drop_first()),
    decreases ns.len(),
{
    if ns.len() == 1 {
        assert(ns.drop_last() =~= Seq::<Node>::empty());
        assert(ns.drop_first() =~= Seq::<Node>::empty());
        assert(render_nodes(Seq::<Node>::empty()) == Seq::<char>::empty());
        assert(render_nodes(ns) =~= render_node(ns[0]) + render_nodes(ns.drop_first()));
    } else {
        lemma_render_front(ns.drop_last());
        assert(ns.drop_last().drop_first() =~= ns.drop_first().drop_last());
        assert(ns.drop_first().last() == ns.last());
        assert(ns.drop_last()[0] == ns[0]);
        assert(render_nodes(ns) =~= render_node(ns[0]) + render_nodes(ns.drop_first()));
    }
}

proof fn lemma_attrs_text_first(l: Seq<(Seq<char>, Seq<char>)>)
    requires
        l.len() > 0,
    ensures
        attrs_text(l).len() > 0,
        attrs_text(l)[0] == ' ',
{
    reveal_strlit(" ");
    let x = raw_attr(l[0].0, l[0].1);
    assert(attrs_text(l) == x + attrs_text(l.drop_first()));
    assert(x[0] == ' ');
}

/// An element other than text, written out, reads back as itself.
#[verifier::rlimit(80)]
proof fn lemma_read_element(s: Seq<char>, i: int, n: Node)
    requires
        good_node(n),
        !(n is Text),
        lit_at(s, i, render_node(n)),
    ensures
        element_at(s, i) == Some((n, i + render_node(n).len())),
    decreases n, 1nat,
{
    reveal_strlit("<");
    reveal_strlit(">");
    reveal_strlit("/>");
    reveal_strlit("</");
    lemma_shape(n);
    lemma_build(n);
    lemma_readable(n);
    lemma_tags();
    let tag = tag_of(n);
    let l = attr_list(n);
    let a = attrs_text(l);
    let ne = i + 1 + tag.len();
    let k = ne + a.len();
    assert(tag == tag_of(n));
    if is_leaf_node(n) {
        lemma_lit_split(s, i, "<"@ + tag + a, "/>"@);
        lemma_lit_split(s, i, "<"@ + tag, a);
        lemma_lit_split(s, i, "<"@, tag);
        lemma_lit_char(s, k, "/>"@, 0);
        lemma_lit_char(s, k, "/>"@, 1);
    } else {
        let r = render_nodes(node_kids(n));
        lemma_lit_split(s, i, "<"@ + tag + a + ">"@ + r + "</"@ + tag, ">"@);
        lemma_lit_split(s, i, "<"@ + tag + a + ">"@ + r + "</"@, tag);
        lemma_lit_split(s, i, "<"@ + tag + a + ">"@ + r, "</"@);
        lemma_lit_split(s, i, "<"@ + tag + a + ">"@, r);
        lemma_lit_split(s, i, "<"@ + tag + a, ">"@);
        lemma_lit_split(s, i, "<"@ + tag, a);
        lemma_lit_split(s, i, "<"@, tag);
        lemma_lit_char(s, k, ">"@, 0);
    }
    lemma_lit_char(s, i, "<"@, 0);
    assert(!is_space(s[i + 1]) && is_name_char(s[i + 1])) by {
        lemma_lit_char(s, i + 1, tag, 0);
    }
    lemma_skip_ws_run(s, i + 1, i + 1);
    assert forall|x: int| i + 1 <= x < ne implies is_name_char(#[trigger] s[x]) by {
        lemma_lit_char(s, i + 1, tag, x - i - 1);
    }
    if a.len() > 0 {
        lemma_attrs_text_first(l);
        lemma_lit_char(s, ne, a, 0);
    }
    lemma_name_end_run(s, i + 1, ne);
    assert(s.subrange(i + 1, ne) =~= tag);
    lemma_readable_split(l);
    lemma_read_attrs(s, ne, l);
    if !is_leaf_node(n) {
        let kids = node_kids(n);
        let r = render_nodes(kids);
        let m = k + 1 + r.len();
        lemma_node_kids_smaller(n);
        assert(good_nodes(kids));
        lemma_read_content(s, k + 1, kids);
        lemma_lit_char(s, m, "</"@, 0);
        lemma_skip_ws_run(s, m, m);
        lemma_lit_char(s, m + 2, tag, 0);
        lemma_skip_ws_run(s, m + 2, m + 2);
        lemma_lit_char(s, m + 2 + tag.len(), ">"@, 0);
        lemma_skip_ws_run(s, m + 2 + tag.len(), m + 2 + tag.len());
    }
}

/// Elements as reading produces them, written out one after another and
/// followed by the end of the text or a closing tag, read back as
/// themselves.
#[verifier::rlimit(60)]
proof fn lemma_read_content(s: Seq<char>, i: int, ns: Seq<Node>)
    requires
        good_nodes(ns),
        lit_at(s, i, render_nodes(ns)),
        i + render_nodes(ns).len() == s.len() || lit_at(s, i + render_nodes(ns).len(), "</"@),
    ensures
        content_at(s, i) == Some((ns, i + render_nodes(ns).len())),
    decreases ns, 0nat,
{
    reveal_strlit("</");
    reveal_strlit("<");
    if ns.len() == 0 {
        assert(render_nodes(ns) == Seq::<char>::empty());
    } else {
        lemma_render_front(ns);
        let first = ns[0];
        let rest = ns.drop_first();
        let r0 = render_node(first);
        let j = i + r0.len();
        lemma_lit_split(s, i, r0, render_nodes(rest));
        assert(good_nodes(rest));
        assert(good_node(first));
        lemma_read_content(s, j, rest);
        if let Node::Text(t) = first {
            assert(j < s.len() ==> s[j] == '<') by {
                if rest.len() > 0 {
                    lemma_render_front(rest);
                    lemma_lit_split(s, j, render_node(rest[0]), render_nodes(rest.drop_first()));
                    lemma_element_opens_w(s, j, rest[0]);
                } else if j < s.len() {
                    lemma_lit_char(s, j, "</"@, 0);
                }
            }
            lemma_read_text_at(s, i, t, rest, i + render_nodes(ns).len());
            assert(seq![Node::Text(t)] + rest =~= ns);
        } else {
            lemma_read_element(s, i, first);
            lemma_element_opens_w(s, i, first);
            assert(seq![first] + rest =~= ns);
        }
    }
}

/// Rendering a document whose elements are as reading produces them (see
/// `good_nodes`), and reading the result, gives the same document back.
#[verifier::rlimit(60)]
pub proof fn lemma_render_then_parse(d: Seq<Node>)
    requires
        good_nodes(d),
    ensures
        parse_document(render_nodes(d)) == Some(d),
{
    reveal_strlit("</");
    reveal_strlit("<?xml");
    reveal_strlit("<");
    let s = render_nodes(d);
    assert(s.subrange(0, s.len() as int) =~= s);
    lemma_read_content(s, 0, d);
    if d.len() > 0 {
        lemma_render_front(d);
        let r0 = render_node(d[0]);
        lemma_lit_split(s, 0, r0, render_nodes(d.drop_first()));
        assert(good_node(d[0]));
        if let Node::Text(t) = d[0] {
            lemma_escape_ends(t);
            lemma_escape_clean(t);
            lemma_lit_char(s, 0, r0, 0);
        } else {
            lemma_shape(d[0]);
            lemma_tags();
            lemma_lit_char(s, 0, r0, 0);
            lemma_lit_char(s, 0, r0, 1);
        }
        lemma_skip_ws_run(s, 0, 0);
        if 5 <= s.len() {
            assert(s.subrange(0, 5)[1] == s[1]);
            assert(s.subrange(0, 5)[0] == s[0]);
        }
    } else {
        assert(s.len() == 0);
        lemma_skip_ws_run(s, 0, 0);
    }
    assert(prolog_end(s) == Some(0int));
}

/// Text elements trimmed and not empty, and never two next to each other:
/// the shape that reading gives a document.
pub open spec fn shaped(n: Node) -> bool
    decreases n,
    via shaped_decreases
{
    match n {
        Node::Text(t) => t.len() > 0 && !is_space(t[0]) && !is_space(t.last()),
        _ => is_leaf_node(n) || shaped_all(node_kids(n)),
    }
}

#[via_fn]
proof fn shaped_decreases(n: Node) {
    lemma_node_kids_smaller(n);
}

pub open spec fn shaped_all(ns: Seq<Node>) -> bool
    decreases ns,
{
    if ns.len() == 0 {
        true
    } else {
        &&& shaped(ns[0])
        &&& ns.len() >= 2 ==> !(ns[0] is Text && ns[1] is Text)
        &&& shaped_all(ns.drop_first())
    }
}

/// Attribute values free of `&`, `<`, `>` and `"`, and durations that the
/// duration reader takes back from their written form: what writing and
/// reading again keeps.
pub open spec fn rereadable(n: Node) -> bool
    decreases n,
    via rereadable_decreases
{
    match n {
        Node::Text(_) => true,
        Node::Break { time, .. } => match time {
            Some(d) => reads_back(d),
            None => true,
        },
        _ => fields_clean(n) && (is_leaf_node(n) || rereadable_all(node_kids(n))),
    }
}

#[via_fn]
proof fn rereadable_decreases(n: Node) {
    lemma_node_kids_smaller(n);
}

pub open spec fn rereadable_all(ns: Seq<Node>) -> bool
    decreases ns,
{
    if ns.len() == 0 {
        true
    } else {
        rereadable(ns[0]) && rereadable_all(ns.drop_first())
    }
}

proof fn lemma_good_node(n: Node)
    requires
        shaped(n),
        rereadable(n),
    ensures
        good_node(n),
    decreases n, 1nat,
{
    if !(n is Text) && !is_leaf_node(n) {
        lemma_node_kids_smaller(n);
        lemma_good_nodes(node_kids(n));
    }
}

proof fn lemma_good_nodes(ns: Seq<Node>)
    requires
        shaped_all(ns),
        rereadable_all(ns),
    ensures
        good_nodes(ns),
    decreases ns, 0nat,
{
    if ns.len() > 0 {
        lemma_good_node(ns[0]);
        lemma_good_nodes(ns.drop_first());
    }
}

proof fn lemma_skip_ws_props(s: Seq<char>, i: int)
    requires
        0 <= i <= s.len(),
    ensures
        i <= skip_ws(s, i) <= s.len(),
        skip_ws(s, i) < s.len() ==> !is_space(s[skip_ws(s, i)]),
    decreases s.len() - i,
{
    if i < s.len() && is_space(s[i]) {
        lemma_skip_ws_props(s, i + 1);
    }
}

proof fn lemma_find_char_props(s: Seq<char>, i: int, c: char)
    requires
        0 <= i <= s.len(),
    ensures
        i <= find_char(s, i, c) <= s.len(),
        find_char(s, i, c) < s.len() ==> s[find_char(s, i, c)] == c,
    decreases s.len() - i,
{
    if i < s.len() && s[i] != c {
        lemma_find_char_props(s, i + 1, c);
    }
}

proof fn lemma_trim_back_props(s: Seq<char>, lo: int, j: int)
    requires
        0 <= lo < j <= s.len(),
        !is_space(s[lo]),
    ensures
        lo < trim_back(s, lo, j) <= j,
        !is_space(s[trim_back(s, lo, j) - 1]),
    decreases j - lo,
{
    if is_space(s[j - 1]) {
        lemma_trim_back_props(s, lo, j - 1);
    }
}

/// What unescaping begins and ends with: the character it read there, or
/// one that an entity stands for.
proof fn lemma_unescape_ends(x: Seq<char>)
    requires
        x.len() > 0,
    ensures
        unescape(x).len() > 0,
        ({
            let c = unescape(x)[0];
            c == x[0] || c == '<' || c == '>' || c == '"'
        }),
        ({
            let c = unescape(x)[unescape(x).len() - 1];
            c == x[x.len() - 1] || c == '&' || c == '<' || c == '>' || c == '"'
        }),
    decreases x.len(),
{
    let u = unescape(x);
    if has_prefix(x, amp_entity()) {
        let r = x.subrange(5, x.len() as int);
        assert(x.subrange(0, 5)[0] == x[0]);
        if r.len() > 0 {
            lemma_unescape_ends(r);
            assert(r[r.len() - 1] == x[x.len() - 1]);
            assert(u[u.len() - 1] == unescape(r)[unescape(r).len() - 1]);
        }
    } else if has_prefix(x, lt_entity()) {
        let r = x.subrange(4, x.len() as int);
        if r.len() > 0 {
            lemma_unescape_ends(r);
            assert(r[r.len() - 1] == x[x.len() - 1]);
            assert(u[u.len() - 1] == unescape(r)[unescape(r).len() - 1]);
        }
    } else if has_prefix(x, gt_entity()) {
        let r = x.subrange(4, x.len() as int);
        if r.len() > 0 {
            lemma_unescape_ends(r);
            assert(r[r.len() - 1] == x[x.len() - 1]);
            assert(u[u.len() - 1] == unescape(r)[unescape(r).len() - 1]);
        }
    } else if has_prefix(x, quot_entity()) {
        let r = x.subrange(6, x.len() as int);
        if r.len() > 0 {
            lemma_unescape_ends(r);
            assert(r[r.len() - 1] == x[x.len() - 1]);
            assert(u[u.len() - 1] == unescape(r)[unescape(r).len() - 1]);
        }
    } else {
        let r = x.drop_first();
        if r.len() > 0 {
            lemma_unescape_ends(r);
            assert(r[r.len() - 1] == x[x.len() - 1]);
            assert(u[u.len() - 1] == unescape(r)[unescape(r).len() - 1]);
        }
    }
}

/// What reading an element gives is never text, and has the shape above.
proof fn lemma_element_shaped(s: Seq<char>, i: int)
    requires
        element_at(s, i) is Some,
    ensures
        element_at(s, i) matches Some((n, _)) && !(n is Text) && shaped(n),
    decreases s.len() - i, 0int,
{
    let j = skip_ws(s, i + 1);
    let ne = name_end(s, j);
    let name = s.subrange(j, ne);
    let (a, k) = attrs_at(s, ne)->0;
    if !lit_at(s, k, "/>"@) && s[k] == '>' && leaf_node(name, a) is None {
        let (kids, m) = content_at(s, k + 1)->0;
        lemma_content_shaped(s, k + 1);
        assert(node_kids(container_node(name, a, kids)->0) == kids);
    }
}

/// What reading content gives has the shape above.
proof fn lemma_content_shaped(s: Seq<char>, i: int)
    requires
        content_at(s, i) is Some,
    ensures
        content_at(s, i) matches Some((ns, _)) && shaped_all(ns),
    decreases s.len() - i, 1int,
{
    reveal_strlit("</");
    if i == s.len() || lit_at(s, i, "</"@) {
    } else if s[i] == '<' {
        let (n, j) = element_at(s, i)->0;
        lemma_element_shaped(s, i);
        lemma_content_shaped(s, j);
        let (rest, _) = content_at(s, j)->0;
        assert((seq![n] + rest).drop_first() =~= rest);
        assert((seq![n] + rest)[0] == n);
        assert(shaped_all(seq![n] + rest));
    } else {
        let j = find_char(s, i, '<');
        let lo = skip_ws(s, i);
        let hi = trim_back(s, lo, j);
        lemma_content_shaped(s, j);
        let (rest, _) = content_at(s, j)->0;
        lemma_find_char_props(s, i, '<');
        if rest.len() > 0 {
            // Content that begins at `<` begins with an element.
            assert(j < s.len() && s[j] == '<');
            if lit_at(s, j, "</"@) {
            } else {
                lemma_element_shaped(s, j);
                let (n1, j1) = element_at(s, j)->0;
                assert(rest[0] == n1);
            }
        }
        if lo < j {
            lemma_skip_ws_props(s, i);
            lemma_trim_back_props(s, lo, j);
            let x = s.subrange(lo, hi);
            lemma_unescape_ends(x);
            let t = unescape(x);
            assert(x[0] == s[lo]);
            assert(x[x.len() - 1] == s[hi - 1]);
            assert(shaped(Node::Text(t)));
            assert((seq![Node::Text(t)] + rest).drop_first() =~= rest);
            assert((seq![Node::Text(t)] + rest)[0] == Node::Text(t));
            if rest.len() > 0 {
                assert((seq![Node::Text(t)] + rest)[1] == rest[0]);
            }
            assert(shaped_all(seq![Node::Text(t)] + rest));
        }
    }
}

/// What reading produces has the shape of `shaped_all`: every text element
/// is trimmed of whitespace and not empty, and no two text elements stand
/// next to each other.
pub proof fn lemma_parsed_shape(s: Seq<char>, d: Seq<Node>)
    requires
        parse_document(s) == Some(d),
    ensures
        shaped_all(d),
{
    lemma_content_shaped(s, prolog_end(s)->0);
}

/// Structural round trip: a document that reading produced, with attribute
/// values free of `&`, `<`, `>` and `"` and with durations that the duration
/// reader takes back from their written form, renders to text that reads
/// back as the same document. A document without timed breaks needs nothing
/// of the duration reader.
pub proof fn lemma_structural_round_trip(s: Seq<char>, d: Seq<Node>)
    requires
        parse_document(s) == Some(d),
        rereadable_all(d),
    ensures
        parse_document(render_nodes(d)) == Some(d),
{
    let p = prolog_end(s)->0;
    lemma_content_shaped(s, p);
    lemma_good_nodes(d);
    lemma_render_then_parse(d);
}

/// Attributes with their values escaped, as they are written.
pub open spec fn escaped(l: Seq<(Seq<char>, Seq<char>)>) -> Seq<(Seq<char>, Seq<char>)> {
    l.map_values(|p: (Seq<char>, Seq<char>)| (p.0, escape(p.1)))
}

proof fn lemma_escaped_append(a: Seq<(Seq<char>, Seq<char>)>, b: Seq<(Seq<char>, Seq<char>)>)
    ensures
        escaped(a + b) == escaped(a) + escaped(b),
        escaped(Seq::<(Seq<char>, Seq<char>)>::empty()) == Seq::<(Seq<char>, Seq<char>)>::empty(),
{
    assert(escaped(a + b) =~= escaped(a) + escaped(b));
    assert(escaped(Seq::<(Seq<char>, Seq<char>)>::empty()) =~= Seq::<(Seq<char>, Seq<char>)>::empty());
}

proof fn lemma_escaped_readable(l: Seq<(Seq<char>, Seq<char>)>)
    requires
        names_ok(l),
    ensures
        names_ok(escaped(l)),
        values_quote_free(escaped(l)),
{
    assert forall|k: int| 0 <= k < escaped(l).len() implies valid_name(#[trigger] escaped(l)[k].0) by {
        assert(escaped(l)[k].0 == l[k].0);
    }
    assert forall|k: int, x: int| 0 <= k < escaped(l).len() && 0 <= x < escaped(l)[k].1.len() implies #[trigger] escaped(l)[k].1[x] != '"' by {
        lemma_escape_clean(l[k].1);
        assert(escaped(l)[k].1 == escape(l[k].1));
    }
}

proof fn lemma_names_append(a: Seq<(Seq<char>, Seq<char>)>, b: Seq<(Seq<char>, Seq<char>)>)
    requires
        names_ok(a),
        names_ok(b),
    ensures
        names_ok(a + b),
{
    assert forall|k: int| 0 <= k < (a + b).len() implies valid_name(#[trigger] (a + b)[k].0) by {
        if k < a.len() {
            assert((a + b)[k] == a[k]);
        } else {
            assert((a + b)[k] == b[k - a.len()]);
        }
    }
}

proof fn lemma_names_one(nm: Seq<char>, v: Seq<char>, o: Option<Seq<char>>)
    requires
        valid_name(nm),
    ensures
        names_ok(seq![(nm, v)]),
        names_ok(str_pair(nm, v)),
        names_ok(opt_pair(nm, o)),
{
}

/// Every attribute an element is written with has a name the reader takes.
proof fn lemma_attr_names(n: Node)
    ensures
        names_ok(attr_list(n)),
{
    lemma_names();
    let z = Seq::<char>::empty();
    match n {
        Node::Speak { version, xmlns, lang, .. } => {
            lemma_names_one("version"@, z, version);
            lemma_names_one("xmlns"@, z, xmlns);
            lemma_names_one("xml:lang"@, z, lang);
            let a = opt_pair("version"@, version);
            lemma_names_append(a, opt_pair("xmlns"@, xmlns));
            lemma_names_append(a + opt_pair("xmlns"@, xmlns), opt_pair("xml:lang"@, lang));
        },
        Node::Voice { name, .. } => lemma_names_one("name"@, name, None),
        Node::Phoneme { alphabet, ph, .. } => {
            lemma_names_one("alphabet"@, alphabet, None);
            lemma_names_one("ph"@, ph, None);
            lemma_names_append(str_pair("alphabet"@, alphabet), str_pair("ph"@, ph));
        },
        Node::SayAs { interpret_as, format, detail, .. } => {
            lemma_names_one("interpret-as"@, interpret_as, None);
            lemma_names_one("format"@, format, None);
            lemma_names_one("detail"@, detail, None);
            let a1 = str_pair("interpret-as"@, interpret_as);
            lemma_names_append(a1, str_pair("format"@, format));
            lemma_names_append(a1 + str_pair("format"@, format), str_pair("detail"@, detail));
        },
        Node::Sub { alias, .. } => lemma_names_one("alias"@, alias, None),
        Node::Prosody { rate, pitch, contour, range, volume, .. } => {
            lemma_names_one("rate"@, rate, None);
            lemma_names_one("pitch"@, pitch, None);
            lemma_names_one("contour"@, contour, None);
            lemma_names_one("range"@, range, None);
            lemma_names_one("volume"@, volume, None);
            let a1 = str_pair("rate"@, rate);
            let a2 = a1 + str_pair("pitch"@, pitch);
            let a3 = a2 + str_pair("contour"@, contour);
            let a4 = a3 + str_pair("range"@, range);
            lemma_names_append(a1, str_pair("pitch"@, pitch));
            lemma_names_append(a2, str_pair("contour"@, contour));
            lemma_names_append(a3, str_pair("range"@, range));
            lemma_names_append(a4, str_pair("volume"@, volume));
        },
        Node::Emphasis { level, .. } => lemma_names_one("level"@, level, None),
        Node::Break { time, strength } => {
            lemma_names_one("time"@, z, None);
            lemma_names_one("strength"@, z, None);
            if let Some(d) = time {
                lemma_names_one("time"@, millis_text((d.nanos / 1_000_000) as nat), None);
            }
            if let Some(b) = strength {
                lemma_names_one("strength"@, strength_text(b), None);
            }
            lemma_names_append(time_pair(time), strength_pair(strength));
        },
        Node::Mark { name } => lemma_names_one("name"@, name, None),
        Node::Audio { src, .. } => lemma_names_one("src"@, src, None),
        Node::LexiconUri { uri } => lemma_names_one("uri"@, uri, None),
        Node::Lang { xml_lang, .. } => lemma_names_one("xml:lang"@, xml_lang, None),
        _ => {},
    }
}

proof fn lemma_one_attr_w(nm: Seq<char>, v: Seq<char>)
    ensures
        attr_text(nm, v) == attrs_text(escaped(seq![(nm, v)])),
        str_attr(nm, v) == attrs_text(escaped(str_pair(nm, v))),
        opt_attr(nm, Some(v)) == attrs_text(escaped(opt_pair(nm, Some(v)))),
        opt_attr(nm, None) == attrs_text(escaped(opt_pair(nm, None))),
{
    let e = Seq::<(Seq<char>, Seq<char>)>::empty();
    let one = seq![(nm, escape(v))];
    assert(escaped(seq![(nm, v)]) =~= one);
    lemma_escaped_append(e, e);
    assert(one.drop_first() =~= e);
    assert(attrs_text(e) == Seq::<char>::empty());
    assert(attrs_text(one) =~= raw_attr(nm, escape(v)));
}

proof fn lemma_w_append(a: Seq<(Seq<char>, Seq<char>)>, b: Seq<(Seq<char>, Seq<char>)>)
    ensures
        attrs_text(escaped(a + b)) == attrs_text(escaped(a)) + attrs_text(escaped(b)),
{
    lemma_escaped_append(a, b);
    lemma_attrs_text_append(escaped(a), escaped(b));
}

/// How an element other than text is written, whatever its attribute
/// values: its tag, its attributes with their values escaped, then either
/// `/>` or its children and closing tag.
pub open spec fn shape_w(n: Node) -> Seq<char> {
    if is_leaf_node(n) {
        "<"@ + tag_of(n) + attrs_text(escaped(attr_list(n))) + "/>"@
    } else {
        container(tag_of(n), attrs_text(escaped(attr_list(n))), render_nodes(node_kids(n)))
    }
}

proof fn lemma_shape_w(n: Node)
    requires
        !(n is Text),
    ensures
        render_node(n) == shape_w(n),
{
    let e = Seq::<(Seq<char>, Seq<char>)>::empty();
    assert(attrs_text(e) == Seq::<char>::empty());
    lemma_escaped_append(e, e);
    match n {
        Node::Speak { version, xmlns, lang, .. } => {
            let (a, b, c) = (opt_pair("version"@, version), opt_pair("xmlns"@, xmlns), opt_pair("xml:lang"@, lang));
            match version { Some(v) => lemma_one_attr_w("version"@, v), None => lemma_one_attr_w("version"@, Seq::empty()) }
            match xmlns { Some(v) => lemma_one_attr_w("xmlns"@, v), None => lemma_one_attr_w("xmlns"@, Seq::empty()) }
            match lang { Some(v) => lemma_one_attr_w("xml:lang"@, v), None => lemma_one_attr_w("xml:lang"@, Seq::empty()) }
            lemma_w_append(a, b);
            lemma_w_append(a + b, c);
        },
        Node::Voice { name, .. } => lemma_one_attr_w("name"@, name),
        Node::Phoneme { alphabet, ph, .. } => {
            lemma_one_attr_w("alphabet"@, alphabet);
            lemma_one_attr_w("ph"@, ph);
            lemma_w_append(str_pair("alphabet"@, alphabet), str_pair("ph"@, ph));
        },
        Node::SayAs { interpret_as, format, detail, .. } => {
            lemma_one_attr_w("interpret-as"@, interpret_as);
            lemma_one_attr_w("format"@, format);
            lemma_one_attr_w("detail"@, detail);
            let a1 = str_pair("interpret-as"@, interpret_as);
            lemma_w_append(a1, str_pair("format"@, format));
            lemma_w_append(a1 + str_pair("format"@, format), str_pair("detail"@, detail));
        },
        Node::Sub { alias, .. } => lemma_one_attr_w("alias"@, alias),
        Node::Prosody { rate, pitch, contour, range, volume, .. } => {
            lemma_one_attr_w("rate"@, rate);
            lemma_one_attr_w("pitch"@, pitch);
            lemma_one_attr_w("contour"@, contour);
            lemma_one_attr_w("range"@, range);
            lemma_one_attr_w("volume"@, volume);
            let a1 = str_pair("rate"@, rate);
            let a2 = a1 + str_pair("pitch"@, pitch);
            let a3 = a2 + str_pair("contour"@, contour);
            let a4 = a3 + str_pair("range"@, range);
            lemma_w_append(a1, str_pair("pitch"@, pitch));
            lemma_w_append(a2, str_pair("contour"@, contour));
            lemma_w_append(a3, str_pair("range"@, range));
            lemma_w_append(a4, str_pair("volume"@, volume));
        },
        Node::Emphasis { level, .. } => lemma_one_attr_w("level"@, level),
        Node::Break { time, strength } => {
            lemma_w_append(time_pair(time), strength_pair(strength));
            if let Some(d) = time {
                let m = (d.nanos / 1_000_000) as nat;
                lemma_break_values_clean(m, BreakStrength::Weak);
                lemma_one_attr_w("time"@, millis_text(m));
                reveal_strlit(" time=\"");
                reveal_strlit("ms\"");
                reveal_strlit(" ");
                reveal_strlit("time");
                reveal_strlit("=\"");
                reveal_strlit("ms");
                reveal_strlit("\"");
                lemma_escape_clean_id(millis_text(m));
                assert(" time=\""@ + decimal(m) + "ms\""@ =~= attr_text("time"@, millis_text(m)));
            }
            if let Some(b) = strength {
                lemma_break_values_clean(0, b);
                lemma_one_attr_w("strength"@, strength_text(b));
            }
            let tp = match time {
                Some(d) => " time=\""@ + decimal((d.nanos / 1_000_000) as nat) + "ms\""@,
                None => Seq::empty(),
            };
            let sp = match strength {
                Some(b) => attr_text("strength"@, strength_text(b)),
                None => Seq::empty(),
            };
            if time is None {
                assert(time_pair(time) == e);
            }
            if strength is None {
                assert(strength_pair(strength) == e);
            }
            assert(tp == attrs_text(escaped(time_pair(time))));
            assert(sp == attrs_text(escaped(strength_pair(strength))));
        },
        Node::Mark { name } => lemma_one_attr_w("name"@, name),
        Node::Audio { src, .. } => lemma_one_attr_w("src"@, src),
        Node::LexiconUri { uri } => lemma_one_attr_w("uri"@, uri),
        Node::Lang { xml_lang, .. } => lemma_one_attr_w("xml:lang"@, xml_lang),
        _ => {},
    }
}

/// Which table of the reader a tag belongs to depends on the tag alone.
proof fn lemma_tag_kinds(n: Node)
    requires
        !(n is Text),
    ensures
        forall|a: Seq<(Seq<char>, Seq<char>)>, kids: Seq<Node>|
            #[trigger] container_node(tag_of(n), a, kids) is Some <==> !is_leaf_node(n),
        forall|a: Seq<(Seq<char>, Seq<char>)>|
            #[trigger] leaf_node(tag_of(n), a) is Some <==> is_leaf_node(n),
{
    lemma_tags();
    lemma_reveal_tags();
}

/// An element other than text, written out, reads back as an element that
/// ends where the writing does.
#[verifier::rlimit(80)]
proof fn lemma_read_element_ok(s: Seq<char>, i: int, n: Node)
    requires
        shaped(n),
        !(n is Text),
        lit_at(s, i, render_node(n)),
    ensures
        element_at(s, i) matches Some((_, e)) && e == i + render_node(n).len(),
    decreases n, 1nat,
{
    reveal_strlit("<");
    reveal_strlit(">");
    reveal_strlit("/>");
    reveal_strlit("</");
    lemma_shape_w(n);
    lemma_tag_kinds(n);
    lemma_attr_names(n);
    lemma_escaped_readable(attr_list(n));
    lemma_tags();
    let tag = tag_of(n);
    let l = escaped(attr_list(n));
    let a = attrs_text(l);
    let ne = i + 1 + tag.len();
    let k = ne + a.len();
    assert(tag == tag_of(n));
    if is_leaf_node(n) {
        lemma_lit_split(s, i, "<"@ + tag + a, "/>"@);
        lemma_lit_split(s, i, "<"@ + tag, a);
        lemma_lit_split(s, i, "<"@, tag);
        lemma_lit_char(s, k, "/>"@, 0);
        lemma_lit_char(s, k, "/>"@, 1);
    } else {
        let r = render_nodes(node_kids(n));
        lemma_lit_split(s, i, "<"@ + tag + a + ">"@ + r + "</"@ + tag, ">"@);
        lemma_lit_split(s, i, "<"@ + tag + a + ">"@ + r + "</"@, tag);
        lemma_lit_split(s, i, "<"@ + tag + a + ">"@ + r, "</"@);
        lemma_lit_split(s, i, "<"@ + tag + a + ">"@, r);
        lemma_lit_split(s, i, "<"@ + tag + a, ">"@);
        lemma_lit_split(s, i, "<"@ + tag, a);
        lemma_lit_split(s, i, "<"@, tag);
        lemma_lit_char(s, k, ">"@, 0);
    }
    lemma_lit_char(s, i, "<"@, 0);
    assert(!is_space(s[i + 1]) && is_name_char(s[i + 1])) by {
        lemma_lit_char(s, i + 1, tag, 0);
    }
    lemma_skip_ws_run(s, i + 1, i + 1);
    assert forall|x: int| i + 1 <= x < ne implies is_name_char(#[trigger] s[x]) by {
        lemma_lit_char(s, i + 1, tag, x - i - 1);
    }
    if a.len() > 0 {
        lemma_attrs_text_first(l);
        lemma_lit_char(s, ne, a, 0);
    }
    lemma_name_end_run(s, i + 1, ne);
    assert(s.subrange(i + 1, ne) =~= tag);
    lemma_read_attrs(s, ne, l);
    if !is_leaf_node(n) {
        let kids = node_kids(n);
        let r = render_nodes(kids);
        let m = k + 1 + r.len();
        lemma_node_kids_smaller(n);
        assert(shaped_all(kids));
        lemma_read_content_ok(s, k + 1, kids);
        lemma_lit_char(s, m, "</"@, 0);
        lemma_skip_ws_run(s, m, m);
        lemma_lit_char(s, m + 2, tag, 0);
        lemma_skip_ws_run(s, m + 2, m + 2);
        lemma_lit_char(s, m + 2 + tag.len(), ">"@, 0);
        lemma_skip_ws_run(s, m + 2 + tag.len(), m + 2 + tag.len());
    }
}

/// Elements as reading produces them, written out and followed by the end
/// of the text or a closing tag, read back: reading reaches the end of what
/// was written.
proof fn lemma_read_content_ok(s: Seq<char>, i: int, ns: Seq<Node>)
    requires
        shaped_all(ns),
        lit_at(s, i, render_nodes(ns)),
        i + render_nodes(ns).len() == s.len() || lit_at(s, i + render_nodes(ns).len(), "</"@),
    ensures
        content_at(s, i) matches Some((_, e)) && e == i + render_nodes(ns).len(),
    decreases ns, 0nat,
{
    reveal_strlit("</");
    reveal_strlit("<");
    if ns.len() == 0 {
        assert(render_nodes(ns) == Seq::<char>::empty());
    } else {
        lemma_render_front(ns);
        let first = ns[0];
        let rest = ns.drop_first();
        let r0 = render_node(first);
        let j = i + r0.len();
        lemma_lit_split(s, i, r0, render_nodes(rest));
        assert(shaped_all(rest));
        assert(shaped(first));
        lemma_read_content_ok(s, j, rest);
        if let Node::Text(t) = first {
            assert(j < s.len() ==> s[j] == '<') by {
                if rest.len() > 0 {
                    lemma_render_front(rest);
                    lemma_lit_split(s, j, render_node(rest[0]), render_nodes(rest.drop_first()));
                    lemma_element_opens_w(s, j, rest[0]);
                } else if j < s.len() {
                    lemma_lit_char(s, j, "</"@, 0);
                }
            }
            let (got, e) = content_at(s, j)->0;
            lemma_read_text_at(s, i, t, got, e);
        } else {
            lemma_read_element_ok(s, i, first);
            lemma_element_opens_w(s, i, first);
        }
    }
}

/// A written element other than text begins with `<` and not with `</`.
proof fn lemma_element_opens_w(s: Seq<char>, i: int, n: Node)
    requires
        !(n is Text),
        lit_at(s, i, render_node(n)),
    ensures
        s[i] == '<',
        !lit_at(s, i, "</"@),
{
    reveal_strlit("</");
    reveal_strlit("<");
    lemma_shape_w(n);
    lemma_tags();
    lemma_lit_char(s, i, render_node(n), 0);
    lemma_lit_char(s, i, render_node(n), 1);
    if 2 <= s.len() - i {
        assert(s.subrange(i, i + 2)[1] == s[i + 1]);
    }
}

/// A trimmed, non-empty text written out and followed by `<` or the end
/// reads back as one text element, followed by what the rest reads as.
proof fn lemma_read_text_at(s: Seq<char>, i: int, t: Seq<char>, got: Seq<Node>, e: int)
    requires
        t.len() > 0,
        !is_space(t[0]),
        !is_space(t.last()),
        lit_at(s, i, escape(t)),
        i + escape(t).len() < s.len() ==> s[i + escape(t).len()] == '<',
        content_at(s, i + escape(t).len()) == Some((got, e)),
    ensures
        content_at(s, i) == Some((seq![Node::Text(t)] + got, e)),
{
    reveal_strlit("</");
    let r0 = escape(t);
    let j = i + r0.len();
    lemma_escape_clean(t);
    lemma_escape_ends(t);
    lemma_unescape_escape(t);
    assert forall|x: int| i <= x < j implies #[trigger] s[x] != '<' by {
        lemma_lit_char(s, i, r0, x - i);
    }
    lemma_find_char_run(s, i, j, '<');
    lemma_lit_char(s, i, r0, 0);
    lemma_lit_char(s, i, r0, r0.len() - 1);
    lemma_skip_ws_run(s, i, i);
    assert(trim_back(s, i, j) == j);
    assert(s.subrange(i, j) =~= r0);
    if 2 <= s.len() - i {
        assert(s.subrange(i, i + 2)[0] == s[i]);
    }
}

/// Rendered text never begins with a declaration.
#[verifier::rlimit(60)]
proof fn lemma_rendered_prolog(d: Seq<Node>)
    requires
        shaped_all(d),
    ensures
        prolog_end(render_nodes(d)) == Some(0int),
{
    reveal_strlit("<?xml");
    reveal_strlit("<");
    let t = render_nodes(d);
    assert(t.subrange(0, t.len() as int) =~= t);
    if d.len() > 0 {
        lemma_render_front(d);
        let r0 = render_node(d[0]);
        assert(shaped(d[0]));
        lemma_lit_split(t, 0, r0, render_nodes(d.drop_first()));
        if let Node::Text(x) = d[0] {
            lemma_escape_ends(x);
            lemma_escape_clean(x);
            lemma_lit_char(t, 0, r0, 0);
        } else {
            lemma_shape_w(d[0]);
            lemma_tags();
            lemma_lit_char(t, 0, r0, 0);
            lemma_lit_char(t, 0, r0, 1);
        }
        lemma_skip_ws_run(t, 0, 0);
        if 5 <= t.len() {
            assert(t.subrange(0, 5)[1] == t[1]);
            assert(t.subrange(0, 5)[0] == t[0]);
        }
    } else {
        lemma_skip_ws_run(t, 0, 0);
    }
}

/// Reading what rendering makes of a document that reading produced always
/// succeeds, whatever its attribute values and durations.
pub proof fn lemma_reread_succeeds(s: Seq<char>, d: Seq<Node>)
    requires
        parse_document(s) == Some(d),
    ensures
        parse_document(render_nodes(d)) is Some,
{
    lemma_parsed_shape(s, d);
    let t = render_nodes(d);
    assert(t.subrange(0, t.len() as int) =~= t);
    lemma_read_content_ok(t, 0, d);
    lemma_rendered_prolog(d);
}

} // verus!
