//! Pilot intel: the threat a pilot poses, from all-time kills and losses.

use vstd::prelude::*;

verus! {

/// The kill/loss ratio is at least `r`: kills over losses when there are
/// losses, the kills themselves otherwise.
pub open spec fn ratio_at_least(kills: int, losses: int, r: int) -> bool {
    if losses > 0 {
        kills >= r * losses
    } else {
        kills >= r
    }
}

/// The threat score: 3 for 20 or more kills at a ratio of 2 or more, 2 for
/// 10 or more kills at a ratio of 1 or more, 1 for 5 or more kills, else 0.
pub open spec fn threat_of(kills: int, losses: int) -> u8 {
    if kills >= 20 && ratio_at_least(kills, losses, 2) {
        3
    } else if kills >= 10 && ratio_at_least(kills, losses, 1) {
        2
    } else if kills >= 5 {
        1
    } else {
        0
    }
}

/// More kills never lower the threat, and more losses never raise it.
pub proof fn lemma_threat_monotone(kills1: int, kills2: int, losses1: int, losses2: int)
    requires
        kills1 <= kills2,
        losses2 <= losses1,
    ensures
        threat_of(kills1, losses1) <= threat_of(kills2, losses2),
{
    assert(ratio_at_least(kills1, losses1, 2) ==> ratio_at_least(kills2, losses2, 2));
    assert(ratio_at_least(kills1, losses1, 1) ==> ratio_at_least(kills2, losses2, 1));
}

/// Whether the kill/loss ratio is at least `r` (compared exactly, without
/// division).
fn ratio_reaches(kills: i64, losses: i64, r: i64) -> (b: bool)
    requires
        0 <= r <= 2,
    ensures
        b == ratio_at_least(kills as int, losses as int, r as int),
{
    if losses > 0 {
        let l = losses as i128;
        let bound: i128 = if r == 2 {
            l + l
        } else if r == 1 {
            l
        } else {
            0
        };
        assert(bound == r * losses) by (nonlinear_arith)
            requires
                0 <= r <= 2,
                r == 2 ==> bound == l + l,
                r == 1 ==> bound == l,
                r == 0 ==> bound == 0,
                l == losses,
        ;
        (kills as i128) >= bound
    } else {
        kills >= r
    }
}

/// What each threat level takes: 1 or more takes 5 kills; 2 or more takes
/// 10 kills and, with losses, at least as many kills as losses (a K/D of
/// 1); 3 takes 20 kills and, with losses, at least twice as many kills as
/// losses (a K/D of 2); there is no level above 3.
pub proof fn lemma_threat_levels(kills: int, losses: int)
    ensures
        threat_of(kills, losses) <= 3,
        threat_of(kills, losses) >= 1 <==> kills >= 5,
        threat_of(kills, losses) >= 2 <==> kills >= 10 && (losses > 0 ==> kills >= losses),
        threat_of(kills, losses) == 3 <==> kills >= 20 && (losses > 0 ==> kills >= 2 * losses),
{
}

/// The threat score of a pilot with these all-time kills and losses.
pub fn threat_score(kills: i64, losses: i64) -> (score: u8)
    ensures
        score == threat_of(kills as int, losses as int),
        score <= 3,
        score >= 1 <==> kills >= 5,
        score >= 2 <==> kills >= 10 && (losses > 0 ==> kills >= losses),
        score == 3 <==> kills >= 20 && (losses > 0 ==> kills >= 2 * losses),
{
    proof {
        lemma_threat_levels(kills as int, losses as int);
    }
    if kills >= 20 && ratio_reaches(kills, losses, 2) {
        3
    } else if kills >= 10 && ratio_reaches(kills, losses, 1) {
        2
    } else if kills >= 5 {
        1
    } else {
        0
    }
}

/// The remark after the threat label: experienced hunters from score 2 on.
pub open spec fn threat_remark(score: u8) -> Seq<char> {
    if score >= 2 {
        "- experienced hunter"@
    } else {
        ""@
    }
}

/// The remark shown after the threat label.
pub fn threat_note(score: u8) -> (note: &'static str)
    ensures
        note@ == threat_remark(score),
{
    if score >= 2 {
        "- experienced hunter"
    } else {
        ""
    }
}

} // verus!
