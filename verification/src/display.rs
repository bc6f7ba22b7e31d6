//! Labels shown next to kill counts and threat scores.

use vstd::prelude::*;

verus! {

/// The danger label for a number of kills: none is clear, up to 4 is
/// moderate, 16 or more is very dangerous, anything between is dangerous.
pub open spec fn danger_text(kills: u32) -> Seq<char> {
    if kills == 0 {
        "clear"@
    } else if kills <= 4 {
        "moderate"@
    } else if kills >= 16 {
        "very dangerous"@
    } else {
        "dangerous"@
    }
}

/// How severe a danger label is: clear 0, moderate 1, dangerous 2, very
/// dangerous 3.
pub open spec fn danger_severity(label: Seq<char>) -> int {
    if label == "clear"@ {
        0
    } else if label == "moderate"@ {
        1
    } else if label == "dangerous"@ {
        2
    } else {
        3
    }
}

/// More kills never give a milder danger label.
pub proof fn lemma_danger_never_eases(fewer: u32, more: u32)
    requires
        fewer <= more,
    ensures
        danger_severity(danger_text(fewer)) <= danger_severity(danger_text(more)),
{
    reveal_strlit("clear");
    reveal_strlit("moderate");
    reveal_strlit("dangerous");
    reveal_strlit("very dangerous");
    assert("clear"@.len() == 5 && "moderate"@.len() == 8);
    assert("dangerous"@.len() == 9 && "very dangerous"@.len() == 14);
}

/// The label of a threat score from 0 to 3; any other score has no data.
pub open spec fn threat_text(score: u8) -> Seq<char> {
    if score == 0 {
        "probably fine"@
    } else if score == 1 {
        "caution"@
    } else if score == 2 {
        "dangerous"@
    } else if score == 3 {
        "THREAT: HIGH"@
    } else {
        "no data"@
    }
}

/// The danger label for a number of kills.
pub fn danger_label(kills: u32) -> (label: &'static str)
    ensures
        label@ == danger_text(kills),
{
    if kills == 0 {
        "clear"
    } else if kills <= 4 {
        "moderate"
    } else if kills >= 16 {
        "very dangerous"
    } else {
        "dangerous"
    }
}

/// The label of a threat score.
pub fn threat_label(score: u8) -> (label: &'static str)
    ensures
        label@ == threat_text(score),
{
    match score {
        0 => "probably fine",
        1 => "caution",
        2 => "dangerous",
        3 => "THREAT: HIGH",
        _ => "no data",
    }
}

} // verus!
