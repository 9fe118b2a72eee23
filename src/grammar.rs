//! The markup grammar, stated over character sequences. A position is an
//! index into the text; each rule gives what it reads and where it stops.
use vstd::prelude::*;

use crate::break_strength::strength_of;
use crate::duration::{duration_nanos_of, Duration};
use crate::element::Node;
use crate::escape::unescape;
use crate::text::is_space;

verus! {

/// A character that may stand inside a tag or attribute name.
pub open spec fn is_name_char(c: char) -> bool {
    ||| ('a' <= c && c <= 'z')
    ||| ('A' <= c && c <= 'Z')
    ||| ('0' <= c && c <= '9')
    ||| c == '_'
    ||| c == '-'
    ||| c == ':'
}

/// A character that may begin an attribute name.
pub open spec fn is_name_start(c: char) -> bool {
    is_name_char(c) && !('0' <= c && c <= '9')
}

/// The first position at or after `i` that does not hold whitespace.
pub open spec fn skip_ws(s: Seq<char>, i: int) -> int
    decreases s.len() - i,
{
    if 0 <= i < s.len() && is_space(s[i]) {
        skip_ws(s, i + 1)
    } else {
        i
    }
}

/// The first position at or after `i` that does not hold a name character.
pub open spec fn name_end(s: Seq<char>, i: int) -> int
    decreases s.len() - i,
{
    if 0 <= i < s.len() && is_name_char(s[i]) {
        name_end(s, i + 1)
    } else {
        i
    }
}

/// The first position at or after `i` that holds `c`, or the end.
pub open spec fn find_char(s: Seq<char>, i: int, c: char) -> int
    decreases s.len() - i,
{
    if 0 <= i < s.len() && s[i] != c {
        find_char(s, i + 1, c)
    } else {
        i
    }
}

/// Whether `p` stands in `s` at position `i`.
pub open spec fn lit_at(s: Seq<char>, i: int, p: Seq<char>) -> bool {
    0 <= i && i + p.len() <= s.len() && s.subrange(i, i + p.len()) == p
}

/// `name = "value"` at `i`, which holds the first name character: the name,
/// the value, and the position after the closing quote.
pub open spec fn attr_at(s: Seq<char>, i: int) -> Option<(Seq<char>, Seq<char>, int)> {
    let ne = name_end(s, i);
    let eq = skip_ws(s, ne);
    let q = skip_ws(s, eq + 1);
    let close = find_char(s, q + 1, '"');
    if 0 <= i < s.len() && is_name_start(s[i]) && eq < s.len() && s[eq] == '=' && q < s.len()
        && s[q] == '"' && close < s.len() {
        Some((s.subrange(i, ne), s.subrange(q + 1, close), close + 1))
    } else {
        None
    }
}

/// The attributes from `i` on, in the order written, and the position of the
/// first character after them that is neither whitespace nor a name start.
pub open spec fn attrs_at(s: Seq<char>, i: int) -> Option<(Seq<(Seq<char>, Seq<char>)>, int)>
    decreases s.len() - i,
{
    let j = skip_ws(s, i);
    if !(0 <= i <= j <= s.len()) {
        None
    } else if j < s.len() && is_name_start(s[j]) {
        match attr_at(s, j) {
            None => None,
            Some((n, v, k)) => if k <= i {
                None
            } else {
                match attrs_at(s, k) {
                    None => None,
                    Some((rest, e)) => Some((seq![(n, v)] + rest, e)),
                }
            },
        }
    } else {
        Some((Seq::empty(), j))
    }
}

/// The value of the last attribute named `key`: a repeated attribute
/// overrides the ones before it.
pub open spec fn lookup(attrs: Seq<(Seq<char>, Seq<char>)>, key: Seq<char>) -> Option<Seq<char>>
    decreases attrs.len(),
{
    if attrs.len() == 0 {
        None
    } else if attrs.last().0 == key {
        Some(attrs.last().1)
    } else {
        lookup(attrs.drop_last(), key)
    }
}

/// The value of attribute `key`, or the empty string.
pub open spec fn lookup_or_empty(attrs: Seq<(Seq<char>, Seq<char>)>, key: Seq<char>) -> Seq<
    char,
> {
    match lookup(attrs, key) {
        Some(v) => v,
        None => Seq::empty(),
    }
}

/// The duration that a `time` value reads as, if any.
pub open spec fn time_of(v: Option<Seq<char>>) -> Option<Duration> {
    match v {
        Some(t) => match duration_nanos_of(t) {
            Some(n) => Some(Duration { nanos: n }),
            None => None,
        },
        None => None,
    }
}

/// The element with children that tag `name` makes, if `name` is one.
pub open spec fn container_node(
    name: Seq<char>,
    a: Seq<(Seq<char>, Seq<char>)>,
    kids: Seq<Node>,
) -> Option<Node> {
    if name == "speak"@ {
        Some(
            Node::Speak {
                version: lookup(a, "version"@),
                xmlns: lookup(a, "xmlns"@),
                lang: lookup(a, "xml:lang"@),
                children: kids,
            },
        )
    } else if name == "voice"@ {
        Some(Node::Voice { name: lookup_or_empty(a, "name"@), children: kids })
    } else if name == "p"@ {
        Some(Node::Paragraph { children: kids })
    } else if name == "s"@ {
        Some(Node::Sentence { children: kids })
    } else if name == "phoneme"@ {
        Some(
            Node::Phoneme {
                alphabet: lookup_or_empty(a, "alphabet"@),
                ph: lookup_or_empty(a, "ph"@),
                children: kids,
            },
        )
    } else if name == "say-as"@ {
        Some(
            Node::SayAs {
                interpret_as: lookup_or_empty(a, "interpret-as"@),
                format: lookup_or_empty(a, "format"@),
                detail: lookup_or_empty(a, "detail"@),
                children: kids,
            },
        )
    } else if name == "sub"@ {
        Some(Node::Sub { alias: lookup_or_empty(a, "alias"@), children: kids })
    } else if name == "prosody"@ {
        Some(
            Node::Prosody {
                rate: lookup_or_empty(a, "rate"@),
                pitch: lookup_or_empty(a, "pitch"@),
                contour: lookup_or_empty(a, "contour"@),
                range: lookup_or_empty(a, "range"@),
                volume: lookup_or_empty(a, "volume"@),
                children: kids,
            },
        )
    } else if name == "emphasis"@ {
        Some(Node::Emphasis { level: lookup_or_empty(a, "level"@), children: kids })
    } else if name == "audio"@ {
        Some(Node::Audio { src: lookup_or_empty(a, "src"@), children: kids })
    } else if name == "desc"@ {
        Some(Node::Desc { children: kids })
    } else if name == "lang"@ {
        Some(Node::Lang { xml_lang: lookup_or_empty(a, "xml:lang"@), children: kids })
    } else {
        None
    }
}

/// The element without children that tag `name` makes, if `name` is one.
pub open spec fn leaf_node(name: Seq<char>, a: Seq<(Seq<char>, Seq<char>)>) -> Option<Node> {
    if name == "break"@ {
        Some(
            Node::Break {
                time: time_of(lookup(a, "time"@)),
                strength: match lookup(a, "strength"@) {
                    Some(v) => strength_of(v),
                    None => None,
                },
            },
        )
    } else if name == "mark"@ {
        Some(Node::Mark { name: lookup_or_empty(a, "name"@) })
    } else if name == "lexicon"@ {
        Some(Node::LexiconUri { uri: lookup_or_empty(a, "uri"@) })
    } else {
        None
    }
}

/// `</name>` at `i`, with whitespace allowed before it, after `</` and
/// before `>`: the position after it.
pub open spec fn close_at(s: Seq<char>, i: int, name: Seq<char>) -> Option<int> {
    let j = skip_ws(s, i);
    let k = skip_ws(s, j + 2);
    let m = skip_ws(s, k + name.len());
    if lit_at(s, j, "</"@) && lit_at(s, k, name) && m < s.len() && s[m] == '>' {
        Some(m + 1)
    } else {
        None
    }
}

/// The last position after `i` and at most `j` that follows a character that
/// is not whitespace, or `i`.
pub open spec fn trim_back(s: Seq<char>, i: int, j: int) -> int
    decreases j - i,
{
    if i < j && is_space(s[j - 1]) {
        trim_back(s, i, j - 1)
    } else {
        j
    }
}

/// The element whose tag opens at `i` (where `<` stands and `/` does not
/// follow), and the position after it.
pub open spec fn element_at(s: Seq<char>, i: int) -> Option<(Node, int)>
    decreases s.len() - i, 0int,
{
    let j = skip_ws(s, i + 1);
    let ne = name_end(s, j);
    let name = s.subrange(j, ne);
    if !(0 <= i < s.len() && i < j <= ne <= s.len()) {
        None
    } else {
        match attrs_at(s, ne) {
            None => None,
            Some((a, k)) => if !(ne <= k < s.len()) {
                None
            } else if lit_at(s, k, "/>"@) {
                match leaf_node(name, a) {
                    Some(n) => Some((n, k + 2)),
                    None => None,
                }
            } else if s[k] != '>' {
                None
            } else if leaf_node(name, a) is Some {
                match close_at(s, k + 1, name) {
                    Some(e) => Some((leaf_node(name, a)->0, e)),
                    None => None,
                }
            } else if container_node(name, a, Seq::empty()) is Some {
                match content_at(s, k + 1) {
                    None => None,
                    Some((kids, m)) => match close_at(s, m, name) {
                        Some(e) => Some((container_node(name, a, kids)->0, e)),
                        None => None,
                    },
                }
            } else {
                None
            },
        }
    }
}

/// The elements from `i` up to the next closing tag or the end of the text,
/// and the position where they stop. A run of text becomes a text element,
/// trimmed of whitespace and unescaped; a run of whitespace alone becomes
/// nothing.
pub open spec fn content_at(s: Seq<char>, i: int) -> Option<(Seq<Node>, int)>
    decreases s.len() - i, 1int,
{
    if !(0 <= i <= s.len()) {
        None
    } else if i == s.len() || lit_at(s, i, "</"@) {
        Some((Seq::empty(), i))
    } else if s[i] == '<' {
        match element_at(s, i) {
            None => None,
            Some((n, j)) => if !(i < j <= s.len()) {
                None
            } else {
                match content_at(s, j) {
                    None => None,
                    Some((rest, e)) => Some((seq![n] + rest, e)),
                }
            },
        }
    } else {
        let j = find_char(s, i, '<');
        let lo = skip_ws(s, i);
        let hi = trim_back(s, lo, j);
        if !(i < j <= s.len()) {
            None
        } else {
            match content_at(s, j) {
                None => None,
                Some((rest, e)) => if lo < j {
                    Some((seq![Node::Text(unescape(s.subrange(lo, hi)))] + rest, e))
                } else {
                    Some((rest, e))
                },
            }
        }
    }
}

/// The position after an optional leading `<?xml ...?>` declaration.
pub open spec fn prolog_end(s: Seq<char>) -> Option<int> {
    let j = skip_ws(s, 0);
    if lit_at(s, j, "<?xml"@) {
        match attrs_at(s, j + 5) {
            Some((_, k)) => if lit_at(s, k, "?>"@) {
                Some(k + 2)
            } else {
                None
            },
            None => None,
        }
    } else {
        Some(0)
    }
}

/// The document that `s` reads as: its top-level elements, which must reach
/// the end of the text.
pub open spec fn parse_document(s: Seq<char>) -> Option<Seq<Node>> {
    match prolog_end(s) {
        None => None,
        Some(p) => match content_at(s, p) {
            Some((nodes, e)) => if e == s.len() {
                Some(nodes)
            } else {
                None
            },
            None => None,
        },
    }
}

/// Where reading an element that opens at `i` fails: the start of the tag
/// where its name, attributes or end are wrong, the position after `>` where
/// the closing tag of an empty element is missing, or where its content or
/// closing tag goes wrong.
pub open spec fn element_err(s: Seq<char>, i: int) -> int
    decreases s.len() - i, 0int,
{
    let j = skip_ws(s, i + 1);
    let ne = name_end(s, j);
    let name = s.subrange(j, ne);
    if !(0 <= i < s.len() && i < j <= ne <= s.len()) {
        i
    } else {
        match attrs_at(s, ne) {
            None => i,
            Some((a, k)) => if !(ne <= k < s.len()) {
                i
            } else if lit_at(s, k, "/>"@) {
                i
            } else if s[k] != '>' {
                k
            } else if leaf_node(name, a) is Some {
                k + 1
            } else if container_node(name, a, Seq::empty()) is Some {
                match content_at(s, k + 1) {
                    None => content_err(s, k + 1),
                    Some((_, m)) => m,
                }
            } else {
                i
            },
        }
    }
}

/// Where reading content from `i` fails: where the first element that
/// cannot be read goes wrong.
pub open spec fn content_err(s: Seq<char>, i: int) -> int
    decreases s.len() - i, 1int,
{
    if !(0 <= i < s.len()) || lit_at(s, i, "</"@) {
        i
    } else if s[i] == '<' {
        match element_at(s, i) {
            None => element_err(s, i),
            Some((_, j)) => if !(i < j <= s.len()) {
                i
            } else {
                content_err(s, j)
            },
        }
    } else {
        let j = find_char(s, i, '<');
        if !(i < j <= s.len()) {
            i
        } else {
            content_err(s, j)
        }
    }
}

/// Where reading `s` as a document fails: at the start for a malformed
/// declaration, where its content goes wrong, or at the first closing tag
/// that nothing opened.
pub open spec fn document_err(s: Seq<char>) -> int {
    match prolog_end(s) {
        None => 0,
        Some(p) => match content_at(s, p) {
            None => content_err(s, p),
            Some((_, e)) => e,
        },
    }
}

} // verus!
