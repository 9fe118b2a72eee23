use serde_ssml::BreakStrength;
use std::str::FromStr;

#[test]
fn test_to_ssml() {
    assert_eq!(BreakStrength::NoPause.to_ssml(), "none");
    assert_eq!(BreakStrength::XWeak.to_ssml(), "x-weak");
    assert_eq!(BreakStrength::Weak.to_ssml(), "weak");
    assert_eq!(BreakStrength::Medium.to_ssml(), "medium");
    assert_eq!(BreakStrength::Strong.to_ssml(), "strong");
    assert_eq!(BreakStrength::XStrong.to_ssml(), "x-strong");
}

#[test]
fn test_from_ssml() {
    assert_eq!(BreakStrength::from_ssml("none"), Some(BreakStrength::NoPause));
    assert_eq!(BreakStrength::from_ssml("x-weak"), Some(BreakStrength::XWeak));
    assert_eq!(BreakStrength::from_ssml("weak"), Some(BreakStrength::Weak));
    assert_eq!(BreakStrength::from_ssml("medium"), Some(BreakStrength::Medium));
    assert_eq!(BreakStrength::from_ssml("strong"), Some(BreakStrength::Strong));
    assert_eq!(BreakStrength::from_ssml("x-strong"), Some(BreakStrength::XStrong));
    assert_eq!(BreakStrength::from_ssml("invalid"), None);
}

#[test]
fn test_display() {
    assert_eq!(BreakStrength::Medium.to_string(), "medium");
}

#[test]
fn test_from_str() {
    assert_eq!(BreakStrength::from_str("medium").unwrap(), BreakStrength::Medium);
    assert!(BreakStrength::from_str("invalid").is_err());
}

#[test]
fn strength_forms_round_trip() {
    let all = [
        BreakStrength::NoPause,
        BreakStrength::XWeak,
        BreakStrength::Weak,
        BreakStrength::Medium,
        BreakStrength::Strong,
        BreakStrength::XStrong,
    ];
    for b in all {
        assert_eq!(BreakStrength::from_ssml(b.to_ssml()), Some(b));
    }
    assert_eq!(BreakStrength::from_ssml("Medium"), None);
    assert_eq!(BreakStrength::from_ssml(""), None);
    assert_eq!(BreakStrength::from_ssml("medium "), None);
}
