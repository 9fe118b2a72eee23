//! The element tree: a document is an ordered sequence of elements, each a
//! tagged variant that owns its attributes and its children.
use vstd::prelude::*;

use crate::break_strength::BreakStrength;
use crate::duration::Duration;

verus! {

/// One element of a document.
#[derive(Debug, PartialEq)]
pub enum SsmlElement {
    /// `<voice name="..">`: speech in a named voice.
    Voice { name: String, children: Vec<SsmlElement> },
    /// `<speak>`: the root of a document.
    Speak {
        version: Option<String>,
        /// The `xmlns` attribute.
        xmlns: Option<String>,
        /// The `xml:lang` attribute.
        lang: Option<String>,
        children: Vec<SsmlElement>,
    },
    /// `<p>`: a paragraph.
    Paragraph { children: Vec<SsmlElement> },
    /// `<s>`: a sentence.
    Sentence { children: Vec<SsmlElement> },
    /// `<phoneme alphabet=".." ph="..">`: a pronunciation.
    Phoneme { alphabet: String, ph: String, children: Vec<SsmlElement> },
    /// `<say-as interpret-as=".." format=".." detail="..">`.
    SayAs { interpret_as: String, format: String, detail: String, children: Vec<SsmlElement> },
    /// `<sub alias="..">`: text spoken in place of the content.
    Sub { alias: String, children: Vec<SsmlElement> },
    /// `<prosody>`: rate, pitch, contour, range and volume.
    Prosody {
        rate: String,
        pitch: String,
        contour: String,
        range: String,
        volume: String,
        children: Vec<SsmlElement>,
    },
    /// `<emphasis level="..">`.
    Emphasis { level: String, children: Vec<SsmlElement> },
    /// `<break time=".." strength=".."/>`: a pause; either attribute may be
    /// absent.
    Break { time: Option<Duration>, strength: Option<BreakStrength> },
    /// `<mark name=".."/>`: a point to synchronise on.
    Mark { name: String },
    /// `<audio src="..">`: a recording, with content to speak in its place.
    Audio { src: String, children: Vec<SsmlElement> },
    /// `<desc>`: a description of a recording.
    Desc { children: Vec<SsmlElement> },
    /// `<lexicon uri=".."/>`: a pronunciation lexicon.
    LexiconUri { uri: String },
    /// `<lang xml:lang="..">`: content in another language.
    Lang { xml_lang: String, children: Vec<SsmlElement> },
    /// A run of text, trimmed of surrounding whitespace.
    Text(String),
}

/// A whole document: its top-level elements in speech order.
#[derive(Debug, PartialEq)]
pub struct SSML {
    /// The top-level elements.
    pub elements: Vec<SsmlElement>,
}

/// The mathematical value of an element: strings as character sequences,
/// children as a sequence of values.
pub enum Node {
    Voice { name: Seq<char>, children: Seq<Node> },
    Speak {
        version: Option<Seq<char>>,
        xmlns: Option<Seq<char>>,
        lang: Option<Seq<char>>,
        children: Seq<Node>,
    },
    Paragraph { children: Seq<Node> },
    Sentence { children: Seq<Node> },
    Phoneme { alphabet: Seq<char>, ph: Seq<char>, children: Seq<Node> },
    SayAs {
        interpret_as: Seq<char>,
        format: Seq<char>,
        detail: Seq<char>,
        children: Seq<Node>,
    },
    Sub { alias: Seq<char>, children: Seq<Node> },
    Prosody {
        rate: Seq<char>,
        pitch: Seq<char>,
        contour: Seq<char>,
        range: Seq<char>,
        volume: Seq<char>,
        children: Seq<Node>,
    },
    Emphasis { level: Seq<char>, children: Seq<Node> },
    Break { time: Option<Duration>, strength: Option<BreakStrength> },
    Mark { name: Seq<char> },
    Audio { src: Seq<char>, children: Seq<Node> },
    Desc { children: Seq<Node> },
    LexiconUri { uri: Seq<char> },
    Lang { xml_lang: Seq<char>, children: Seq<Node> },
    Text(Seq<char>),
}

pub open spec fn opt_view(o: Option<String>) -> Option<Seq<char>> {
    match o {
        Some(s) => Some(s@),
        None => None,
    }
}

/// The value of an element.
pub open spec fn node_of(e: SsmlElement) -> Node
    decreases e,
{
    match e {
        SsmlElement::Voice { name, children } => Node::Voice {
            name: name@,
            children: nodes_of(children@),
        },
        SsmlElement::Speak { version, xmlns, lang, children } => Node::Speak {
            version: opt_view(version),
            xmlns: opt_view(xmlns),
            lang: opt_view(lang),
            children: nodes_of(children@),
        },
        SsmlElement::Paragraph { children } => Node::Paragraph { children: nodes_of(children@) },
        SsmlElement::Sentence { children } => Node::Sentence { children: nodes_of(children@) },
        SsmlElement::Phoneme { alphabet, ph, children } => Node::Phoneme {
            alphabet: alphabet@,
            ph: ph@,
            children: nodes_of(children@),
        },
        SsmlElement::SayAs { interpret_as, format, detail, children } => Node::SayAs {
            interpret_as: interpret_as@,
            format: format@,
            detail: detail@,
            children: nodes_of(children@),
        },
        SsmlElement::Sub { alias, children } => Node::Sub {
            alias: alias@,
            children: nodes_of(children@),
        },
        SsmlElement::Prosody { rate, pitch, contour, range, volume, children } => Node::Prosody {
            rate: rate@,
            pitch: pitch@,
            contour: contour@,
            range: range@,
            volume: volume@,
            children: nodes_of(children@),
        },
        SsmlElement::Emphasis { level, children } => Node::Emphasis {
            level: level@,
            children: nodes_of(children@),
        },
        SsmlElement::Break { time, strength } => Node::Break { time, strength },
        SsmlElement::Mark { name } => Node::Mark { name: name@ },
        SsmlElement::Audio { src, children } => Node::Audio {
            src: src@,
            children: nodes_of(children@),
        },
        SsmlElement::Desc { children } => Node::Desc { children: nodes_of(children@) },
        SsmlElement::LexiconUri { uri } => Node::LexiconUri { uri: uri@ },
        SsmlElement::Lang { xml_lang, children } => Node::Lang {
            xml_lang: xml_lang@,
            children: nodes_of(children@),
        },
        SsmlElement::Text(t) => Node::Text(t@),
    }
}

/// The values of a sequence of elements.
pub open spec fn nodes_of(s: Seq<SsmlElement>) -> Seq<Node>
    decreases s,
{
    if s.len() == 0 {
        Seq::empty()
    } else {
        nodes_of(s.drop_last()).push(node_of(s.last()))
    }
}

/// Appending an element appends its value.
pub proof fn lemma_nodes_of_push(s: Seq<SsmlElement>, e: SsmlElement)
    ensures
        nodes_of(s.push(e)) == nodes_of(s).push(node_of(e)),
{
    assert(s.push(e).drop_last() =~= s);
}

impl View for SsmlElement {
    type V = Node;

    open spec fn view(&self) -> Node {
        node_of(*self)
    }
}

impl View for SSML {
    type V = Seq<Node>;

    open spec fn view(&self) -> Seq<Node> {
        nodes_of(self.elements@)
    }
}

} // verus!
