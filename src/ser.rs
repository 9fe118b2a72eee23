//! Rendering an element tree back to markup text.
use vstd::prelude::*;
use vstd::string::StringExecFns;

use crate::break_strength::strength_text;
use crate::element::{lemma_nodes_of_push, node_of, nodes_of, Node, SsmlElement, SSML};
use crate::escape::{escape, push_escaped};

verus! {

/// The decimal digit for `d < 10`.
pub open spec fn digit(d: nat) -> char {
    if d == 0 {
        '0'
    } else if d == 1 {
        '1'
    } else if d == 2 {
        '2'
    } else if d == 3 {
        '3'
    } else if d == 4 {
        '4'
    } else if d == 5 {
        '5'
    } else if d == 6 {
        '6'
    } else if d == 7 {
        '7'
    } else if d == 8 {
        '8'
    } else {
        '9'
    }
}

/// `n` in decimal, without leading zeros.
pub open spec fn decimal(n: nat) -> Seq<char>
    decreases n,
{
    if n < 10 {
        seq![digit(n)]
    } else {
        decimal(n / 10).push(digit(n % 10))
    }
}

/// ` name="value"`, with the value escaped.
pub open spec fn attr_text(name: Seq<char>, value: Seq<char>) -> Seq<char> {
    " "@ + name + "=\""@ + escape(value) + "\""@
}

/// An attribute that is written only when it is not empty.
pub open spec fn str_attr(name: Seq<char>, value: Seq<char>) -> Seq<char> {
    if value.len() == 0 {
        Seq::empty()
    } else {
        attr_text(name, value)
    }
}

/// An attribute that is written only when it is present.
pub open spec fn opt_attr(name: Seq<char>, value: Option<Seq<char>>) -> Seq<char> {
    match value {
        Some(v) => attr_text(name, v),
        None => Seq::empty(),
    }
}

/// `<tag attrs>children</tag>`.
pub open spec fn container(tag: Seq<char>, attrs: Seq<char>, inner: Seq<char>) -> Seq<char> {
    "<"@ + tag + attrs + ">"@ + inner + "</"@ + tag + ">"@
}

/// `<tag attrs/>`.
pub open spec fn empty_tag(tag: Seq<char>, attrs: Seq<char>) -> Seq<char> {
    "<"@ + tag + attrs + "/>"@
}

/// The markup of one element.
pub open spec fn render_node(n: Node) -> Seq<char>
    decreases n,
{
    match n {
        Node::Speak { version, xmlns, lang, children } => container(
            "speak"@,
            opt_attr("version"@, version) + opt_attr("xmlns"@, xmlns) + opt_attr(
                "xml:lang"@,
                lang,
            ),
            render_nodes(children),
        ),
        Node::Voice { name, children } => container(
            "voice"@,
            str_attr("name"@, name),
            render_nodes(children),
        ),
        Node::Paragraph { children } => container("p"@, Seq::empty(), render_nodes(children)),
        Node::Sentence { children } => container("s"@, Seq::empty(), render_nodes(children)),
        Node::Phoneme { alphabet, ph, children } => container(
            "phoneme"@,
            str_attr("alphabet"@, alphabet) + str_attr("ph"@, ph),
            render_nodes(children),
        ),
        Node::SayAs { interpret_as, format, detail, children } => container(
            "say-as"@,
            str_attr("interpret-as"@, interpret_as) + str_attr("format"@, format) + str_attr(
                "detail"@,
                detail,
            ),
            render_nodes(children),
        ),
        Node::Sub { alias, children } => container(
            "sub"@,
            str_attr("alias"@, alias),
            render_nodes(children),
        ),
        Node::Prosody { rate, pitch, contour, range, volume, children } => container(
            "prosody"@,
            str_attr("rate"@, rate) + str_attr("pitch"@, pitch) + str_attr("contour"@, contour)
                + str_attr("range"@, range) + str_attr("volume"@, volume),
            render_nodes(children),
        ),
        Node::Emphasis { level, children } => container(
            "emphasis"@,
            str_attr("level"@, level),
            render_nodes(children),
        ),
        Node::Break { time, strength } => empty_tag(
            "break"@,
            match time {
                Some(d) => " time=\""@ + decimal((d.nanos / 1_000_000) as nat) + "ms\""@,
                None => Seq::empty(),
            } + match strength {
                Some(b) => attr_text("strength"@, strength_text(b)),
                None => Seq::empty(),
            },
        ),
        Node::Mark { name } => empty_tag("mark"@, attr_text("name"@, name)),
        Node::Audio { src, children } => container(
            "audio"@,
            str_attr("src"@, src),
            render_nodes(children),
        ),
        Node::Desc { children } => container("desc"@, Seq::empty(), render_nodes(children)),
        Node::LexiconUri { uri } => empty_tag("lexicon"@, attr_text("uri"@, uri)),
        Node::Lang { xml_lang, children } => container(
            "lang"@,
            str_attr("xml:lang"@, xml_lang),
            render_nodes(children),
        ),
        Node::Text(t) => escape(t),
    }
}

/// The markup of a sequence of elements, one after another.
pub open spec fn render_nodes(s: Seq<Node>) -> Seq<char>
    decreases s,
{
    if s.len() == 0 {
        Seq::empty()
    } else {
        render_nodes(s.drop_last()) + render_node(s.last())
    }
}

fn push_decimal(out: &mut String, n: u128)
    ensures
        final(out)@ == old(out)@ + decimal(n as nat),
{
    let mut digits: Vec<char> = Vec::new();
    let mut m: u128 = n;
    while m >= 10
        invariant
            decimal(n as nat) == decimal(m as nat) + digits@.reverse(),
        decreases m,
    {
        let d = m % 10;
        let c = if d == 0 {
            '0'
        } else if d == 1 {
            '1'
        } else if d == 2 {
            '2'
        } else if d == 3 {
            '3'
        } else if d == 4 {
            '4'
        } else if d == 5 {
            '5'
        } else if d == 6 {
            '6'
        } else if d == 7 {
            '7'
        } else if d == 8 {
            '8'
        } else {
            '9'
        };
        proof {
            assert(c == digit(d as nat));
            assert(digits@.push(c).reverse() =~= seq![c] + digits@.reverse());
            assert(decimal(m as nat) == decimal((m / 10) as nat).push(c));
            assert(decimal((m / 10) as nat).push(c) + digits@.reverse() =~= decimal(
                (m / 10) as nat,
            ) + digits@.push(c).reverse());
        }
        digits.push(c);
        m = m / 10;
    }
    let c = if m == 0 {
        '0'
    } else if m == 1 {
        '1'
    } else if m == 2 {
        '2'
    } else if m == 3 {
        '3'
    } else if m == 4 {
        '4'
    } else if m == 5 {
        '5'
    } else if m == 6 {
        '6'
    } else if m == 7 {
        '7'
    } else if m == 8 {
        '8'
    } else {
        '9'
    };
    assert(decimal(m as nat) == seq![c]);
    out.push(c);
    let mut k: usize = digits.len();
    while k > 0
        invariant
            k <= digits@.len(),
            decimal(n as nat) == seq![c] + digits@.reverse(),
            out@ == old(out)@ + seq![c] + digits@.subrange(k as int, digits@.len() as int).reverse(),
        decreases k,
    {
        k = k - 1;
        out.push(digits[k]);
        assert(digits@.subrange(k as int, digits@.len() as int).reverse() =~= digits@.subrange(
            k + 1,
            digits@.len() as int,
        ).reverse().push(digits@[k as int]));
    }
    assert(digits@.subrange(0, digits@.len() as int) =~= digits@);
    assert(out@ =~= old(out)@ + decimal(n as nat));
}

fn push_open(out: &mut String, tag: &str)
    ensures
        final(out)@ == old(out)@ + "<"@ + tag@,
{
    out.append("<");
    out.append(tag);
}

fn push_close(out: &mut String, tag: &str)
    ensures
        final(out)@ == old(out)@ + "</"@ + tag@ + ">"@,
{
    out.append("</");
    out.append(tag);
    out.append(">");
}

fn push_attr(out: &mut String, name: &str, value: &str)
    ensures
        final(out)@ == old(out)@ + attr_text(name@, value@),
{
    out.append(" ");
    out.append(name);
    out.append("=\"");
    push_escaped(out, value);
    out.append("\"");
    assert(out@ =~= old(out)@ + attr_text(name@, value@));
}

fn push_str_attr(out: &mut String, name: &str, value: &String)
    ensures
        final(out)@ == old(out)@ + str_attr(name@, value@),
{
    if value.unicode_len() == 0 {
        assert(out@ =~= old(out)@ + str_attr(name@, value@));
    } else {
        push_attr(out, name, value.as_str());
    }
}

fn push_opt_attr(out: &mut String, name: &str, value: &Option<String>)
    ensures
        final(out)@ == old(out)@ + opt_attr(name@, crate::element::opt_view(*value)),
{
    match value {
        Some(v) => push_attr(out, name, v.as_str()),
        None => {
            assert(out@ =~= old(out)@ + opt_attr(name@, crate::element::opt_view(*value)));
        },
    }
}

pub(crate) fn push_children(out: &mut String, children: &Vec<SsmlElement>)
    ensures
        final(out)@ == old(out)@ + render_nodes(nodes_of(children@)),
    decreases children, 0nat,
{
    let mut i: usize = 0;
    while i < children.len()
        invariant
            i <= children@.len(),
            out@ == old(out)@ + render_nodes(nodes_of(children@.subrange(0, i as int))),
        decreases children@.len() - i,
    {
        let ghost before = out@;
        proof {
            lemma_nodes_of_push(children@.subrange(0, i as int), children@[i as int]);
            assert(children@.subrange(0, i + 1) =~= children@.subrange(0, i as int).push(
                children@[i as int],
            ));
            assert(decreases_to!(children => children@[i as int]));
        }
        push_element(out, &children[i]);
        let ghost s1 = nodes_of(children@.subrange(0, i as int));
        let ghost s2 = nodes_of(children@.subrange(0, i + 1));
        assert(s2.drop_last() =~= s1);
        assert(out@ =~= old(out)@ + render_nodes(s2));
        i = i + 1;
    }
    assert(children@.subrange(0, children@.len() as int) =~= children@);
}

/// The markup of a whole document.
pub fn to_ssml(ssml: &SSML) -> (r: String)
    ensures
        r@ == render_nodes(ssml@),
{
    let mut out = String::new();
    push_children(&mut out, &ssml.elements);
    assert(out@ =~= render_nodes(ssml@));
    out
}

/// Appends the markup of `e` to `out`.
pub fn push_element(out: &mut String, e: &SsmlElement)
    ensures
        final(out)@ == old(out)@ + render_node(node_of(*e)),
    decreases e, 2nat,
{
    match e {
        SsmlElement::Speak { .. } => push_speak(out, e),
        SsmlElement::Voice { .. } => push_voice(out, e),
        SsmlElement::Paragraph { .. } => push_paragraph(out, e),
        SsmlElement::Sentence { .. } => push_sentence(out, e),
        SsmlElement::Phoneme { .. } => push_phoneme(out, e),
        SsmlElement::SayAs { .. } => push_say_as(out, e),
        SsmlElement::Sub { .. } => push_sub(out, e),
        SsmlElement::Prosody { .. } => push_prosody(out, e),
        SsmlElement::Emphasis { .. } => push_emphasis(out, e),
        SsmlElement::Break { .. } => push_break(out, e),
        SsmlElement::Mark { .. } => push_mark(out, e),
        SsmlElement::Audio { .. } => push_audio(out, e),
        SsmlElement::Desc { .. } => push_desc(out, e),
        SsmlElement::LexiconUri { .. } => push_lexicon_uri(out, e),
        SsmlElement::Lang { .. } => push_lang(out, e),
        SsmlElement::Text(..) => push_text(out, e),
    }
}

fn push_speak(out: &mut String, e: &SsmlElement)
    requires
        e is Speak,
    ensures
        final(out)@ == old(out)@ + render_node(node_of(*e)),
    decreases e, 1nat,
{
    let ghost start = out@;
    match e {
        SsmlElement::Speak { version, xmlns, lang, children } => {
            push_open(out, "speak");
            push_opt_attr(out, "version", version);
            push_opt_attr(out, "xmlns", xmlns);
            push_opt_attr(out, "xml:lang", lang);
            out.append(">");
            push_children(out, children);
            push_close(out, "speak");
            assert(out@ =~= start + render_node(node_of(*e)));
        },
        _ => {},
    }
}

fn push_voice(out: &mut String, e: &SsmlElement)
    requires
        e is Voice,
    ensures
        final(out)@ == old(out)@ + render_node(node_of(*e)),
    decreases e, 1nat,
{
    let ghost start = out@;
    match e {
        SsmlElement::Voice { name, children } => {
            push_open(out, "voice");
            push_str_attr(out, "name", name);
            out.append(">");
            push_children(out, children);
            push_close(out, "voice");
            assert(out@ =~= start + render_node(node_of(*e)));
        },
        _ => {},
    }
}

fn push_paragraph(out: &mut String, e: &SsmlElement)
    requires
        e is Paragraph,
    ensures
        final(out)@ == old(out)@ + render_node(node_of(*e)),
    decreases e, 1nat,
{
    let ghost start = out@;
    match e {
        SsmlElement::Paragraph { children } => {
            push_open(out, "p");
            out.append(">");
            push_children(out, children);
            push_close(out, "p");
            assert(out@ =~= start + render_node(node_of(*e)));
        },
        _ => {},
    }
}

fn push_sentence(out: &mut String, e: &SsmlElement)
    requires
        e is Sentence,
    ensures
        final(out)@ == old(out)@ + render_node(node_of(*e)),
    decreases e, 1nat,
{
    let ghost start = out@;
    match e {
        SsmlElement::Sentence { children } => {
            push_open(out, "s");
            out.append(">");
            push_children(out, children);
            push_close(out, "s");
            assert(out@ =~= start + render_node(node_of(*e)));
        },
        _ => {},
    }
}

fn push_phoneme(out: &mut String, e: &SsmlElement)
    requires
        e is Phoneme,
    ensures
        final(out)@ == old(out)@ + render_node(node_of(*e)),
    decreases e, 1nat,
{
    let ghost start = out@;
    match e {
        SsmlElement::Phoneme { alphabet, ph, children } => {
            push_open(out, "phoneme");
            push_str_attr(out, "alphabet", alphabet);
            push_str_attr(out, "ph", ph);
            out.append(">");
            push_children(out, children);
            push_close(out, "phoneme");
            assert(out@ =~= start + render_node(node_of(*e)));
        },
        _ => {},
    }
}

fn push_say_as(out: &mut String, e: &SsmlElement)
    requires
        e is SayAs,
    ensures
        final(out)@ == old(out)@ + render_node(node_of(*e)),
    decreases e, 1nat,
{
    let ghost start = out@;
    match e {
        SsmlElement::SayAs { interpret_as, format, detail, children } => {
            push_open(out, "say-as");
            push_str_attr(out, "interpret-as", interpret_as);
            push_str_attr(out, "format", format);
            push_str_attr(out, "detail", detail);
            out.append(">");
            push_children(out, children);
            push_close(out, "say-as");
            assert(out@ =~= start + render_node(node_of(*e)));
        },
        _ => {},
    }
}

fn push_sub(out: &mut String, e: &SsmlElement)
    requires
        e is Sub,
    ensures
        final(out)@ == old(out)@ + render_node(node_of(*e)),
    decreases e, 1nat,
{
    let ghost start = out@;
    match e {
        SsmlElement::Sub { alias, children } => {
            push_open(out, "sub");
            push_str_attr(out, "alias", alias);
            out.append(">");
            push_children(out, children);
            push_close(out, "sub");
            assert(out@ =~= start + render_node(node_of(*e)));
        },
        _ => {},
    }
}

fn push_prosody(out: &mut String, e: &SsmlElement)
    requires
        e is Prosody,
    ensures
        final(out)@ == old(out)@ + render_node(node_of(*e)),
    decreases e, 1nat,
{
    let ghost start = out@;
    match e {
        SsmlElement::Prosody { rate, pitch, contour, range, volume, children } => {
            push_open(out, "prosody");
            push_str_attr(out, "rate", rate);
            push_str_attr(out, "pitch", pitch);
            push_str_attr(out, "contour", contour);
            push_str_attr(out, "range", range);
            push_str_attr(out, "volume", volume);
            out.append(">");
            push_children(out, children);
            push_close(out, "prosody");
            assert(out@ =~= start + render_node(node_of(*e)));
        },
        _ => {},
    }
}

fn push_emphasis(out: &mut String, e: &SsmlElement)
    requires
        e is Emphasis,
    ensures
        final(out)@ == old(out)@ + render_node(node_of(*e)),
    decreases e, 1nat,
{
    let ghost start = out@;
    match e {
        SsmlElement::Emphasis { level, children } => {
            push_open(out, "emphasis");
            push_str_attr(out, "level", level);
            out.append(">");
            push_children(out, children);
            push_close(out, "emphasis");
            assert(out@ =~= start + render_node(node_of(*e)));
        },
        _ => {},
    }
}

fn push_break(out: &mut String, e: &SsmlElement)
    requires
        e is Break,
    ensures
        final(out)@ == old(out)@ + render_node(node_of(*e)),
    decreases e, 1nat,
{
    let ghost start = out@;
    match e {
        SsmlElement::Break { time, strength } => {
            push_open(out, "break");
            let ghost mid = out@;
            match time {
                Some(d) => {
                    out.append(" time=\"");
                    push_decimal(out, d.as_millis());
                    out.append("ms\"");
                },
                None => {},
            }
            let ghost mid2 = out@;
            match strength {
                Some(b) => push_attr(out, "strength", b.to_ssml()),
                None => {},
            }
            let ghost mid3 = out@;
            out.append("/>");
            assert(mid2 =~= mid + match *time {
                Some(d) => " time=\""@ + decimal((d.nanos / 1_000_000) as nat) + "ms\""@,
                None => Seq::empty(),
            });
            assert(mid3 =~= mid2 + match *strength {
                Some(b) => attr_text("strength"@, strength_text(b)),
                None => Seq::empty(),
            });
            assert(out@ =~= start + render_node(node_of(*e)));
        },
        _ => {},
    }
}

fn push_mark(out: &mut String, e: &SsmlElement)
    requires
        e is Mark,
    ensures
        final(out)@ == old(out)@ + render_node(node_of(*e)),
    decreases e, 1nat,
{
    let ghost start = out@;
    match e {
        SsmlElement::Mark { name } => {
            push_open(out, "mark");
            push_attr(out, "name", name.as_str());
            out.append("/>");
            assert(out@ =~= start + render_node(node_of(*e)));
        },
        _ => {},
    }
}

fn push_audio(out: &mut String, e: &SsmlElement)
    requires
        e is Audio,
    ensures
        final(out)@ == old(out)@ + render_node(node_of(*e)),
    decreases e, 1nat,
{
    let ghost start = out@;
    match e {
        SsmlElement::Audio { src, children } => {
            push_open(out, "audio");
            push_str_attr(out, "src", src);
            out.append(">");
            push_children(out, children);
            push_close(out, "audio");
            assert(out@ =~= start + render_node(node_of(*e)));
        },
        _ => {},
    }
}

fn push_desc(out: &mut String, e: &SsmlElement)
    requires
        e is Desc,
    ensures
        final(out)@ == old(out)@ + render_node(node_of(*e)),
    decreases e, 1nat,
{
    let ghost start = out@;
    match e {
        SsmlElement::Desc { children } => {
            push_open(out, "desc");
            out.append(">");
            push_children(out, children);
            push_close(out, "desc");
            assert(out@ =~= start + render_node(node_of(*e)));
        },
        _ => {},
    }
}

fn push_lexicon_uri(out: &mut String, e: &SsmlElement)
    requires
        e is LexiconUri,
    ensures
        final(out)@ == old(out)@ + render_node(node_of(*e)),
    decreases e, 1nat,
{
    let ghost start = out@;
    match e {
        SsmlElement::LexiconUri { uri } => {
            push_open(out, "lexicon");
            push_attr(out, "uri", uri.as_str());
            out.append("/>");
            assert(out@ =~= start + render_node(node_of(*e)));
        },
        _ => {},
    }
}

fn push_lang(out: &mut String, e: &SsmlElement)
    requires
        e is Lang,
    ensures
        final(out)@ == old(out)@ + render_node(node_of(*e)),
    decreases e, 1nat,
{
    let ghost start = out@;
    match e {
        SsmlElement::Lang { xml_lang, children } => {
            push_open(out, "lang");
            push_str_attr(out, "xml:lang", xml_lang);
            out.append(">");
            push_children(out, children);
            push_close(out, "lang");
            assert(out@ =~= start + render_node(node_of(*e)));
        },
        _ => {},
    }
}

fn push_text(out: &mut String, e: &SsmlElement)
    requires
        e is Text,
    ensures
        final(out)@ == old(out)@ + render_node(node_of(*e)),
    decreases e, 1nat,
{
    let ghost start = out@;
    match e {
        SsmlElement::Text(t) => {
            push_escaped(out, t.as_str());
            assert(out@ =~= start + render_node(node_of(*e)));
        },
        _ => {},
    }
}

} // verus!
