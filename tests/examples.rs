use serde_ssml::{from_str, BreakStrength, Duration, SsmlElement, SSML};

fn find_emphasized_text(element: &SsmlElement) -> Option<String> {
    match element {
        SsmlElement::Emphasis { children, .. } => children.iter().find_map(|child| {
            if let SsmlElement::Text(text) = child {
                Some(text.clone())
            } else {
                None
            }
        }),
        SsmlElement::Paragraph { children }
        | SsmlElement::Sentence { children }
        | SsmlElement::Voice { children, .. }
        | SsmlElement::Prosody { children, .. }
        | SsmlElement::Audio { children, .. }
        | SsmlElement::Lang { children, .. } => children.iter().find_map(find_emphasized_text),
        _ => None,
    }
}

#[test]
fn example_parsing_and_traversing() {
    let input = r#"
        <speak version="1.1" xml:lang="en-US">
            <p>
                <s>This is a <emphasis level="strong">important</emphasis> message.</s>
            </p>
        </speak>
        "#;

    let ssml = from_str(input).expect("Failed to parse SSML");

    if let SsmlElement::Speak { version, lang, children, .. } = &ssml.elements[0] {
        assert_eq!(version.as_deref(), Some("1.1"));
        assert_eq!(lang.as_deref(), Some("en-US"));

        let emphasized_text = children
            .iter()
            .find_map(find_emphasized_text)
            .expect("No emphasized text found");

        assert_eq!(emphasized_text, "important");
    }
}

#[test]
fn example_constructing_ssml() {
    let ssml = SSML {
        elements: vec![SsmlElement::Speak {
            version: Some("1.1".to_string()),
            xmlns: Some("http://www.w3.org/2001/10/synthesis".to_string()),
            lang: Some("en-US".to_string()),
            children: vec![
                SsmlElement::Paragraph {
                    children: vec![SsmlElement::Sentence {
                        children: vec![
                            SsmlElement::Text("Welcome to ".to_string()),
                            SsmlElement::Emphasis {
                                level: "strong".to_string(),
                                children: vec![SsmlElement::Text("SSML".to_string())],
                            },
                            SsmlElement::Text(" parsing!".to_string()),
                        ],
                    }],
                },
                SsmlElement::Break {
                    time: Some(Duration::from_millis(500)),
                    strength: Some(BreakStrength::Medium),
                },
            ],
        }],
    };

    assert_eq!(ssml.elements.len(), 1);

    if let SsmlElement::Speak { children, .. } = &ssml.elements[0] {
        assert_eq!(children.len(), 2);
    }
}
