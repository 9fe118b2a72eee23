use serde_ssml::{from_str, to_string, BreakStrength, Duration, SsmlElement, SSML};

fn speak(children: Vec<SsmlElement>) -> SsmlElement {
    SsmlElement::Speak { version: None, xmlns: None, lang: None, children }
}

fn only_child(ssml: &SSML) -> &SsmlElement {
    assert_eq!(ssml.elements.len(), 1);
    match &ssml.elements[0] {
        SsmlElement::Speak { children, .. } => {
            assert_eq!(children.len(), 1);
            &children[0]
        }
        other => panic!("expected speak, got {:?}", other),
    }
}

#[test]
fn round_trip_of_a_parsed_document() {
    let input = r#"<?xml version="1.0"?>
<speak version="1.1" xml:lang="en-US">
  <voice name="en-GB">Hi <emphasis level="strong">there</emphasis></voice>
  <p><s>One <break time="250ms" strength="weak"/> two</s></p>
  <prosody rate="slow" volume="loud">quiet</prosody>
  <say-as interpret-as="date" format="mdy">12/31/2020</say-as>
  <mark name="m1"/><lexicon uri="u"></lexicon>
  <audio src="a.mp3"><desc>d</desc></audio><lang xml:lang="fr">oui</lang>
  <sub alias="W3C">w</sub><phoneme alphabet="ipa" ph="x">y</phoneme>
</speak>"#;
    let d = from_str(input).unwrap();
    let text = to_string(&d);
    let again = from_str(&text).unwrap();
    assert_eq!(d, again);
}

#[test]
fn self_closing_and_open_close_breaks_agree() {
    let a = from_str("<speak><break time=\"500ms\"/></speak>").unwrap();
    let b = from_str("<speak><break time=\"500ms\"></break></speak>").unwrap();
    assert_eq!(a, b);
    assert_eq!(
        *only_child(&a),
        SsmlElement::Break { time: Some(Duration::from_millis(500)), strength: None }
    );
}

#[test]
fn escaped_text_round_trips() {
    let d = SSML { elements: vec![speak(vec![SsmlElement::Text("a < b > c & \"d\"".to_string())])] };
    let text = to_string(&d);
    assert_eq!(text, "<speak>a &lt; b &gt; c &amp; &quot;d&quot;</speak>");
    let back = from_str(&text).unwrap();
    assert_eq!(back, d);
}

#[test]
fn attribute_values_are_escaped_on_write() {
    let d = SSML {
        elements: vec![SsmlElement::Voice { name: "x\"y".to_string(), children: vec![] }],
    };
    assert_eq!(to_string(&d), "<voice name=\"x&quot;y\"></voice>");
}

#[test]
fn duplicate_attribute_last_wins() {
    let d = from_str("<voice name=\"a\" name=\"b\">x</voice>").unwrap();
    match &d.elements[0] {
        SsmlElement::Voice { name, children } => {
            assert_eq!(name, "b");
            assert_eq!(children, &vec![SsmlElement::Text("x".to_string())]);
        }
        other => panic!("expected voice, got {:?}", other),
    }
}

#[test]
fn malformed_duration_is_absent() {
    let d = from_str("<speak><break time=\"not-a-duration\"/></speak>").unwrap();
    assert_eq!(*only_child(&d), SsmlElement::Break { time: None, strength: None });
}

#[test]
fn unknown_strength_is_absent() {
    let d = from_str("<speak><break strength=\"loud\" time=\"1s\"/></speak>").unwrap();
    assert_eq!(
        *only_child(&d),
        SsmlElement::Break { time: Some(Duration::from_secs(1)), strength: None }
    );
}

#[test]
fn minimal_document() {
    let d = from_str("<speak>Hello world</speak>").unwrap();
    assert_eq!(*only_child(&d), SsmlElement::Text("Hello world".to_string()));
}

#[test]
fn mixed_text_and_elements() {
    let d = from_str("<speak>Test<break time=\"500ms\"/>continue</speak>").unwrap();
    assert_eq!(
        d,
        SSML {
            elements: vec![speak(vec![
                SsmlElement::Text("Test".to_string()),
                SsmlElement::Break { time: Some(Duration::from_millis(500)), strength: None },
                SsmlElement::Text("continue".to_string()),
            ])]
        }
    );
}

#[test]
fn whitespace_only_runs_make_no_nodes() {
    let d = from_str("  <speak>  \n <p> x </p>\t </speak>\n").unwrap();
    assert_eq!(
        d,
        SSML {
            elements: vec![speak(vec![SsmlElement::Paragraph {
                children: vec![SsmlElement::Text("x".to_string())]
            }])]
        }
    );
    assert_eq!(from_str("").unwrap().elements.len(), 0);
    assert_eq!(from_str("   ").unwrap().elements.len(), 0);
}

#[test]
fn rendering_of_each_kind() {
    let d = SSML {
        elements: vec![
            SsmlElement::Break {
                time: Some(Duration::from_millis(1500)),
                strength: Some(BreakStrength::XStrong),
            },
            SsmlElement::Break { time: None, strength: None },
            SsmlElement::Mark { name: String::new() },
            SsmlElement::LexiconUri { uri: "l".to_string() },
            SsmlElement::Audio { src: String::new(), children: vec![] },
            SsmlElement::Speak {
                version: Some("1.1".to_string()),
                xmlns: None,
                lang: Some("en".to_string()),
                children: vec![],
            },
            SsmlElement::Prosody {
                rate: "slow".to_string(),
                pitch: String::new(),
                contour: String::new(),
                range: "x-low".to_string(),
                volume: String::new(),
                children: vec![SsmlElement::Text("t".to_string())],
            },
        ],
    };
    assert_eq!(
        to_string(&d),
        "<break time=\"1500ms\" strength=\"x-strong\"/><break/><mark name=\"\"/><lexicon uri=\"l\"/>\
<audio></audio><speak version=\"1.1\" xml:lang=\"en\"></speak><prosody rate=\"slow\" range=\"x-low\">t</prosody>"
    );
}

#[test]
fn millisecond_rendering_rounds_down() {
    let d = SSML {
        elements: vec![SsmlElement::Break { time: Some(Duration::from_nanos(2_999_999)), strength: None }],
    };
    assert_eq!(to_string(&d), "<break time=\"2ms\"/>");
    let z = SSML { elements: vec![SsmlElement::Break { time: Some(Duration::from_nanos(0)), strength: None }] };
    assert_eq!(to_string(&z), "<break time=\"0ms\"/>");
}

#[test]
fn structural_errors_are_reported() {
    for bad in [
        "<speak>unclosed",
        "<speak>x</voice>",
        "</speak>",
        "<unknown>x</unknown>",
        "<speak version=1.1>x</speak>",
        "<p/>",
        "<break>x</break>",
        "<speak>a</speak></speak>",
        "<?xml version=\"1.0\"",
    ] {
        let r = from_str(bad);
        match r {
            Err(es) => {
                assert!(!es.is_empty(), "{}", bad);
                for e in es {
                    assert!(e.start <= e.end && e.end == bad.chars().count(), "{}", bad);
                }
            }
            Ok(d) => panic!("{} parsed as {:?}", bad, d),
        }
    }
}

#[test]
fn declaration_and_entities() {
    let d = from_str("<?xml version=\"1.0\" encoding=\"UTF-8\"?><speak>a &amp;amp; &unknown; b</speak>").unwrap();
    assert_eq!(*only_child(&d), SsmlElement::Text("a &amp; &unknown; b".to_string()));
}

#[test]
fn attribute_values_are_read_verbatim() {
    let d = from_str("<voice name = \"a&amp;<b>\" >x</voice >").unwrap();
    match &d.elements[0] {
        SsmlElement::Voice { name, .. } => assert_eq!(name, "a&amp;<b>"),
        other => panic!("expected voice, got {:?}", other),
    }
}

#[test]
fn durations_go_through_the_duration_reader() {
    let d = from_str("<speak><break time=\"2s\"/></speak>").unwrap();
    assert_eq!(
        *only_child(&d),
        SsmlElement::Break { time: Some(Duration::from_millis(2000)), strength: None }
    );
    assert_eq!(Duration::from_millis(1500).as_millis(), 1500);
    assert_eq!(Duration::from_secs(2).as_nanos(), 2_000_000_000);
}

#[test]
fn first_error_starts_where_reading_fails() {
    let cases = [
        ("<speak>x</voice>", 8),
        ("<unknown>x</unknown>", 0),
        ("<speak>unclosed", 15),
        ("<speak>a</speak></speak>", 16),
        ("<speak version=1.1>x</speak>", 0),
        ("<speak><break>x</break></speak>", 14),
        ("<speak><p x=\"1\" ?>y</p></speak>", 16),
        ("<?xml version=\"1.0\"", 0),
    ];
    for (text, at) in cases {
        let es = from_str(text).unwrap_err();
        assert_eq!(es[0].start, at, "{}", text);
    }
}
