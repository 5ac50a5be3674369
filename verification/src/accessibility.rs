//! Accessibility audit levels and the pure parts of the audit.
use vstd::prelude::*;
use crate::text::str_eq;

verus! {

/// Strictness of the accessibility audit.
#[derive(Debug, Clone, Copy, PartialEq, Eq, Structural)]
pub enum A11yLevel {
    /// No auditing.
    Off,
    /// Tree checks only, no screenshots.
    Critical,
    /// Default: all tree checks, no screenshot.
    Relaxed,
    /// Tree checks plus a per-block screenshot for the contrast check.
    Strict,
}

/// The level a name denotes, if any.
pub open spec fn spec_level_of(s: Seq<char>) -> Option<A11yLevel> {
    if s == "off"@ {
        Some(A11yLevel::Off)
    } else if s == "critical"@ {
        Some(A11yLevel::Critical)
    } else if s == "relaxed"@ {
        Some(A11yLevel::Relaxed)
    } else if s == "strict"@ {
        Some(A11yLevel::Strict)
    } else {
        None
    }
}

/// The canonical lowercase name of a level.
pub open spec fn spec_level_name(l: A11yLevel) -> Seq<char> {
    match l {
        A11yLevel::Off => "off"@,
        A11yLevel::Critical => "critical"@,
        A11yLevel::Relaxed => "relaxed"@,
        A11yLevel::Strict => "strict"@,
    }
}

impl A11yLevel {
    /// Parse a level name; `None` for unknown names.
    pub fn parse(s: &str) -> (r: Option<A11yLevel>)
        ensures
            r == spec_level_of(s@),
    {
        if str_eq(s, "off") {
            Some(A11yLevel::Off)
        } else if str_eq(s, "critical") {
            Some(A11yLevel::Critical)
        } else if str_eq(s, "relaxed") {
            Some(A11yLevel::Relaxed)
        } else if str_eq(s, "strict") {
            Some(A11yLevel::Strict)
        } else {
            None
        }
    }

    /// Whether any auditing runs at this level.
    pub fn is_enabled(self) -> (r: bool)
        ensures
            r == (self != A11yLevel::Off),
    {
        self != A11yLevel::Off
    }

    /// Whether the level forces a per-block screenshot (only `Strict`).
    pub fn forces_screenshot(self) -> (r: bool)
        ensures
            r == (self == A11yLevel::Strict),
    {
        self == A11yLevel::Strict
    }

    /// Canonical lowercase name.
    pub fn as_str(self) -> (r: &'static str)
        ensures
            r@ == spec_level_name(self),
    {
        match self {
            A11yLevel::Off => "off",
            A11yLevel::Critical => "critical",
            A11yLevel::Relaxed => "relaxed",
            A11yLevel::Strict => "strict",
        }
    }
}

/// A level's canonical name parses back to that level.
pub proof fn lemma_level_name_round_trip(l: A11yLevel)
    ensures
        spec_level_of(spec_level_name(l)) == Some(l),
{
    reveal_strlit("off");
    reveal_strlit("critical");
    reveal_strlit("relaxed");
    reveal_strlit("strict");
    assert("off"@.len() == 3);
    assert("critical"@.len() == 8);
    assert("relaxed"@.len() == 7);
    assert("strict"@.len() == 6);
}

/// Only names of levels parse, and each parses to the level of that name.
pub proof fn lemma_parse_gives_named_level(s: Seq<char>)
    ensures
        spec_level_of(s) matches Some(l) ==> spec_level_name(l) == s,
{
}


/// The level names mean their levels: `off`, `critical`, `relaxed` and
/// `strict` name Off, Critical, Relaxed and Strict, each level's name is
/// the one that names it, and nothing else (not even a capitalised name)
/// is a level.
pub proof fn lemma_level_names()
    ensures
        spec_level_of("off"@) == Some(A11yLevel::Off),
        spec_level_of("critical"@) == Some(A11yLevel::Critical),
        spec_level_of("relaxed"@) == Some(A11yLevel::Relaxed),
        spec_level_of("strict"@) == Some(A11yLevel::Strict),
        spec_level_name(A11yLevel::Off) == "off"@,
        spec_level_name(A11yLevel::Critical) == "critical"@,
        spec_level_name(A11yLevel::Relaxed) == "relaxed"@,
        spec_level_name(A11yLevel::Strict) == "strict"@,
        spec_level_of("Strict"@) is None,
        spec_level_of(Seq::<char>::empty()) is None,
{
    reveal_strlit("off");
    reveal_strlit("critical");
    reveal_strlit("relaxed");
    reveal_strlit("strict");
    reveal_strlit("Strict");
    assert("off"@.len() == 3 && "critical"@.len() == 8 && "relaxed"@.len() == 7 && "strict"@.len() == 6);
    assert("Strict"@[0] != "strict"@[0]);
}

} // verus!
