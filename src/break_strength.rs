//! Relative pause strengths of a `break` element.
use vstd::prelude::*;

use crate::text::same_str;

verus! {

/// The strength of a pause between words or phrases.
#[derive(Debug, Clone, Copy, PartialEq, Eq, Structural)]
#[non_exhaustive]
pub enum BreakStrength {
    /// No pause at all.
    NoPause,
    /// An extra weak, almost imperceptible pause.
    XWeak,
    /// A weak pause.
    Weak,
    /// A medium pause.
    Medium,
    /// A strong pause.
    Strong,
    /// An extra strong pause.
    XStrong,
}

/// The canonical markup form of a strength.
pub open spec fn strength_text(b: BreakStrength) -> Seq<char> {
    match b {
        BreakStrength::NoPause => "none"@,
        BreakStrength::XWeak => "x-weak"@,
        BreakStrength::Weak => "weak"@,
        BreakStrength::Medium => "medium"@,
        BreakStrength::Strong => "strong"@,
        BreakStrength::XStrong => "x-strong"@,
    }
}

/// The strength whose canonical form is `s`, if there is one.
pub open spec fn strength_of(s: Seq<char>) -> Option<BreakStrength> {
    if s == "none"@ {
        Some(BreakStrength::NoPause)
    } else if s == "x-weak"@ {
        Some(BreakStrength::XWeak)
    } else if s == "weak"@ {
        Some(BreakStrength::Weak)
    } else if s == "medium"@ {
        Some(BreakStrength::Medium)
    } else if s == "strong"@ {
        Some(BreakStrength::Strong)
    } else if s == "x-strong"@ {
        Some(BreakStrength::XStrong)
    } else {
        None
    }
}

/// The six canonical forms are pairwise distinct.
pub proof fn lemma_texts_distinct()
    ensures
        "none"@ != "x-weak"@,
        "none"@ != "weak"@,
        "none"@ != "medium"@,
        "none"@ != "strong"@,
        "none"@ != "x-strong"@,
        "x-weak"@ != "weak"@,
        "x-weak"@ != "medium"@,
        "x-weak"@ != "strong"@,
        "x-weak"@ != "x-strong"@,
        "weak"@ != "medium"@,
        "weak"@ != "strong"@,
        "weak"@ != "x-strong"@,
        "medium"@ != "strong"@,
        "medium"@ != "x-strong"@,
        "strong"@ != "x-strong"@,
{
    reveal_strlit("none");
    reveal_strlit("x-weak");
    reveal_strlit("weak");
    reveal_strlit("medium");
    reveal_strlit("strong");
    reveal_strlit("x-strong");
    assert("none"@.len() != "x-weak"@.len());
    assert("none"@[0] != "weak"@[0]);
    assert("none"@[0] != "medium"@[0]);
    assert("none"@[0] != "strong"@[0]);
    assert("none"@.len() != "x-strong"@.len());
    assert("x-weak"@[0] != "weak"@[0]);
    assert("x-weak"@[0] != "medium"@[0]);
    assert("x-weak"@[0] != "strong"@[0]);
    assert("x-weak"@.len() != "x-strong"@.len());
    assert("weak"@[0] != "medium"@[0]);
    assert("weak"@[0] != "strong"@[0]);
    assert("weak"@[0] != "x-strong"@[0]);
    assert("medium"@[0] != "strong"@[0]);
    assert("medium"@[0] != "x-strong"@[0]);
    assert("strong"@[0] != "x-strong"@[0]);
}

/// Reading the canonical form of a strength gives the strength back, and a
/// string that reads as a strength is that strength's canonical form.
pub proof fn lemma_strength_round_trip(b: BreakStrength, s: Seq<char>)
    ensures
        strength_of(strength_text(b)) == Some(b),
        strength_of(s) matches Some(c) ==> strength_text(c) == s,
{
    lemma_texts_distinct();
}

impl BreakStrength {
    /// The canonical markup form of this strength.
    pub fn to_ssml(&self) -> (r: &'static str)
        ensures
            r@ == strength_text(*self),
    {
        match self {
            BreakStrength::NoPause => "none",
            BreakStrength::XWeak => "x-weak",
            BreakStrength::Weak => "weak",
            BreakStrength::Medium => "medium",
            BreakStrength::Strong => "strong",
            BreakStrength::XStrong => "x-strong",
        }
    }

    /// The strength whose canonical form is `s`; `None` for any other string.
    pub fn from_ssml(s: &str) -> (r: Option<Self>)
        ensures
            r == strength_of(s@),
    {
        if same_str(s, "none") {
            Some(BreakStrength::NoPause)
        } else if same_str(s, "x-weak") {
            Some(BreakStrength::XWeak)
        } else if same_str(s, "weak") {
            Some(BreakStrength::Weak)
        } else if same_str(s, "medium") {
            Some(BreakStrength::Medium)
        } else if same_str(s, "strong") {
            Some(BreakStrength::Strong)
        } else if same_str(s, "x-strong") {
            Some(BreakStrength::XStrong)
        } else {
            None
        }
    }

    /// The canonical form as an owned string.
    pub fn to_string(&self) -> (r: String)
        ensures
            r@ == strength_text(*self),
    {
        self.to_ssml().to_string()
    }
}

impl std::str::FromStr for BreakStrength {
    type Err = ();

    /// The strength whose canonical form is `s`; an error for any other
    /// string.
    fn from_str(s: &str) -> (r: Result<Self, ()>)
        ensures
            r == match strength_of(s@) {
                Some(b) => Ok::<BreakStrength, ()>(b),
                None => Err(()),
            },
    {
        match BreakStrength::from_ssml(s) {
            Some(b) => Ok(b),
            None => Err(()),
        }
    }
}

} // verus!
