use serde_ssml::{find_and_modify_elements, BreakStrength, Duration, SsmlElement, SSML};

fn break_to_500(element: SsmlElement) -> SsmlElement {
    match element {
        SsmlElement::Break { strength, .. } => SsmlElement::Break {
            time: Some(Duration::from_millis(500)),
            strength,
        },
        other => other,
    }
}

#[test]
fn test_find_and_modify_breaks() {
    let mut ssml = SSML {
        elements: vec![SsmlElement::Speak {
            version: Some("1.1".to_string()),
            xmlns: Some("http://www.w3.org/2001/10/synthesis".to_string()),
            lang: Some("en-US".to_string()),
            children: vec![
                SsmlElement::Text("Hello".to_string()),
                SsmlElement::Break {
                    time: Some(Duration::from_millis(100)),
                    strength: Some(BreakStrength::Medium),
                },
                SsmlElement::Text("World".to_string()),
                SsmlElement::Break {
                    time: Some(Duration::from_millis(200)),
                    strength: Some(BreakStrength::Strong),
                },
            ],
        }],
    };

    let modified = find_and_modify_elements(&mut ssml, "Break", break_to_500);

    assert!(modified);

    if let SsmlElement::Speak { children, .. } = &ssml.elements[0] {
        if let SsmlElement::Break { time, .. } = &children[1] {
            assert_eq!(*time, Some(Duration::from_millis(500)));
        }
        if let SsmlElement::Break { time, .. } = &children[3] {
            assert_eq!(*time, Some(Duration::from_millis(500)));
        }
    }
}

fn two_breaks() -> SSML {
    SSML {
        elements: vec![SsmlElement::Speak {
            version: None,
            xmlns: None,
            lang: None,
            children: vec![
                SsmlElement::Paragraph {
                    children: vec![
                        SsmlElement::Text("a".to_string()),
                        SsmlElement::Break { time: None, strength: None },
                    ],
                },
                SsmlElement::Break {
                    time: Some(Duration::from_millis(20)),
                    strength: Some(BreakStrength::Weak),
                },
            ],
        }],
    }
}

#[test]
fn visitor_sets_every_break_then_finds_no_mark() {
    let mut ssml = two_breaks();
    assert!(find_and_modify_elements(&mut ssml, "Break", break_to_500));
    let expected = SSML {
        elements: vec![SsmlElement::Speak {
            version: None,
            xmlns: None,
            lang: None,
            children: vec![
                SsmlElement::Paragraph {
                    children: vec![
                        SsmlElement::Text("a".to_string()),
                        SsmlElement::Break {
                            time: Some(Duration::from_millis(500)),
                            strength: None,
                        },
                    ],
                },
                SsmlElement::Break {
                    time: Some(Duration::from_millis(500)),
                    strength: Some(BreakStrength::Weak),
                },
            ],
        }],
    };
    assert_eq!(ssml, expected);

    let changed = find_and_modify_elements(&mut ssml, "Mark", |e| SsmlElement::Text(format!("{:?}", e)));
    assert!(!changed);
    assert_eq!(ssml, expected);
}

#[test]
fn visitor_reaches_nested_kinds() {
    let mut ssml = two_breaks();
    let changed = find_and_modify_elements(&mut ssml, "Text", |e| match e {
        SsmlElement::Text(t) => SsmlElement::Text(t.to_uppercase()),
        other => other,
    });
    assert!(changed);
    if let SsmlElement::Speak { children, .. } = &ssml.elements[0] {
        if let SsmlElement::Paragraph { children } = &children[0] {
            assert_eq!(children[0], SsmlElement::Text("A".to_string()));
        } else {
            panic!("expected a paragraph");
        }
    }
    assert!(!find_and_modify_elements(&mut ssml, "Unknown", |e| e));
}

#[test]
fn visit_mut_counts_the_root() {
    let mut e = SsmlElement::Mark { name: "m".to_string() };
    let hit = serde_ssml::visit_mut(
        &mut e,
        &|x: &SsmlElement| matches!(x, SsmlElement::Mark { .. }),
        &|_x: SsmlElement| SsmlElement::Mark { name: "n".to_string() },
    );
    assert!(hit);
    assert_eq!(e, SsmlElement::Mark { name: "n".to_string() });
}
