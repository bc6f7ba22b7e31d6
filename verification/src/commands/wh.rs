//! Wormhole sites by class: the sheet printed for each of the classes
//! c1 to c6.

use vstd::prelude::*;
use vstd::string::StringExecFns;
use crate::cli::WhArgs;
use crate::text::{chars_of, lowercase_of, push_char, to_lowercase};

verus! {

/// The text of each line.
pub open spec fn lines_view(v: Seq<String>) -> Seq<Seq<char>> {
    v.map_values(|s: String| s@)
}

/// The rule under a sheet's title: fifty '=' signs.
pub open spec fn rule_text() -> Seq<char> {
    Seq::new(50, |i: int| '=')
}

/// The class a lowercase class name stands for: "c1" to "c6".
pub open spec fn class_number(lower: Seq<char>) -> Option<nat> {
    if lower.len() == 2 && lower[0] == 'c' && '1' as int <= lower[1] as int <= '6' as int {
        Some((lower[1] as int - '0' as int) as nat)
    } else {
        None
    }
}

/// The sheet of a class from 1 to 6.
pub open spec fn sheet(class: nat) -> Seq<Seq<char>> {
    if class == 1 {
        class1_sheet()
    } else if class == 2 {
        class2_sheet()
    } else if class == 3 {
        class3_sheet()
    } else if class == 4 {
        class4_sheet()
    } else if class == 5 {
        class5_sheet()
    } else {
        class6_sheet()
    }
}

/// The sheet of class 1 wormholes.
pub open spec fn class1_sheet() -> Seq<Seq<char>> {
    seq![
        "Class 1 Wormhole Sites"@,
        rule_text(),
        "COMBAT ANOMALIES"@,
        "  Unknown            ~150 DPS    easy"@,
        "  Forgotten         ~200 DPS    easy"@,
        ""@,
        "RELIC / DATA SITES"@,
        "  Data Site         ~400 DPS"@,
        "  Relic Site       ~500 DPS"@,
        ""@,
        "STATICS: → C2, → HS"@
    ]
}

/// The sheet of class 2 wormholes.
pub open spec fn class2_sheet() -> Seq<Seq<char>> {
    seq![
        "Class 2 Wormhole Sites"@,
        rule_text(),
        "COMBAT ANOMALIES"@,
        "  Guardian          ~300 DPS"@,
        "  Core Scanner    ~350 DPS"@,
        ""@,
        "RELIC / DATA SITES"@,
        "  Digital        ~500 DPS"@,
        "  Semantic      ~600 DPS"@,
        ""@,
        "GAS SITES"@,
        "  K162           C50, C60"@,
        "  Temporal       C70"@,
        ""@,
        "STATICS: → C1, → C3, → HS"@
    ]
}

/// The sheet of class 3 wormholes.
pub open spec fn class3_sheet() -> Seq<Seq<char>> {
    seq![
        "Class 3 Wormhole Sites"@,
        rule_text(),
        "COMBAT ANOMALIES"@,
        "  Perimeter Checkpoint    ~650 DPS   easy"@,
        "  Perimeter Hangar      ~650 DPS   easy"@,
        "  Sleeper Data Sanct.   ~700 DPS   easy"@,
        ""@,
        "RELIC / DATA SITES"@,
        "  Forgotten Frontier Recursive   1396 DPS  ⚠ hardest C3"@,
        "  Forgotten Frontier Quarantine  608 DPS"@,
        "  Unsecured Frontier         608 DPS"@,
        ""@,
        "GAS SITES"@,
        "  Minor Perimeter Reservoir   C50+C60   ~25M/load"@,
        "  Sizable Perimeter Reservoir C50+C72   ~30M/load"@,
        ""@,
        "STATICS: → Lowsec, → C1"@
    ]
}

/// The sheet of class 4 wormholes.
pub open spec fn class4_sheet() -> Seq<Seq<char>> {
    seq![
        "Class 4 Wormhole Sites"@,
        rule_text(),
        "COMBAT ANOMALIES"@,
        "  Sanctum           ~800 DPS"@,
        "  Forgotten      ~1000 DPS"@,
        ""@,
        "RELIC / DATA SITES"@,
        "  Front. Archive   ~900 DPS"@,
        "  Front. Vault  ~1100 DPS"@,
        ""@,
        "STATICS: → C3, → C5, → HS"@
    ]
}

/// The sheet of class 5 wormholes.
pub open spec fn class5_sheet() -> Seq<Seq<char>> {
    seq![
        "Class 5 Wormhole Sites"@,
        rule_text(),
        "COMBAT ANOMALIES"@,
        "  Stronghold       ~1200 DPS"@,
        "  Incursion       ~1500 DPS"@,
        ""@,
        "RELIC / DATA SITES"@,
        "  Front. Archive   ~1500 DPS"@,
        "  Magnetometric   ~2000 DPS"@,
        ""@,
        "STATICS: → C4, → C6, → LS"@
    ]
}

/// The sheet of class 6 wormholes.
pub open spec fn class6_sheet() -> Seq<Seq<char>> {
    seq![
        "Class 6 Wormhole Sites"@,
        rule_text(),
        "COMBAT ANOMALIES"@,
        "  Tyrannos         ~2000 DPS"@,
        "  Titan's Forge    ~2500 DPS"@,
        ""@,
        "RELIC / DATA SITES"@,
        "  Citadel         ~2500 DPS"@,
        "  Overseer        ~3000 DPS"@,
        ""@,
        "STATICS: → C5, → NS"@
    ]
}

fn push_line(v: &mut Vec<String>, line: &str)
    ensures
        lines_view(final(v)@) == lines_view(old(v)@).push(line@),
{
    let s = String::from_str(line);
    v.push(s);
    assert(lines_view(final(v)@) =~= lines_view(old(v)@).push(line@));
}

fn push_rule(v: &mut Vec<String>)
    ensures
        lines_view(final(v)@) == lines_view(old(v)@).push(rule_text()),
{
    let mut s = String::new();
    let mut i: usize = 0;
    while i < 50
        invariant
            i <= 50,
            s@ == Seq::new(i as nat, |j: int| '='),
        decreases 50 - i,
    {
        push_char(&mut s, '=');
        assert(s@ =~= Seq::new((i + 1) as nat, |j: int| '='));
        i = i + 1;
    }
    assert(s@ =~= rule_text());
    v.push(s);
    assert(lines_view(final(v)@) =~= lines_view(old(v)@).push(rule_text()));
}

fn class1_lines() -> (v: Vec<String>)
    ensures
        lines_view(v@) == class1_sheet(),
{
    let mut v: Vec<String> = Vec::new();
    push_line(&mut v, "Class 1 Wormhole Sites");
    push_rule(&mut v);
    push_line(&mut v, "COMBAT ANOMALIES");
    push_line(&mut v, "  Unknown            ~150 DPS    easy");
    push_line(&mut v, "  Forgotten         ~200 DPS    easy");
    push_line(&mut v, "");
    push_line(&mut v, "RELIC / DATA SITES");
    push_line(&mut v, "  Data Site         ~400 DPS");
    push_line(&mut v, "  Relic Site       ~500 DPS");
    push_line(&mut v, "");
    push_line(&mut v, "STATICS: → C2, → HS");
    assert(lines_view(v@) =~= class1_sheet());
    v
}

fn class2_lines() -> (v: Vec<String>)
    ensures
        lines_view(v@) == class2_sheet(),
{
    let mut v: Vec<String> = Vec::new();
    push_line(&mut v, "Class 2 Wormhole Sites");
    push_rule(&mut v);
    push_line(&mut v, "COMBAT ANOMALIES");
    push_line(&mut v, "  Guardian          ~300 DPS");
    push_line(&mut v, "  Core Scanner    ~350 DPS");
    push_line(&mut v, "");
    push_line(&mut v, "RELIC / DATA SITES");
    push_line(&mut v, "  Digital        ~500 DPS");
    push_line(&mut v, "  Semantic      ~600 DPS");
    push_line(&mut v, "");
    push_line(&mut v, "GAS SITES");
    push_line(&mut v, "  K162           C50, C60");
    push_line(&mut v, "  Temporal       C70");
    push_line(&mut v, "");
    push_line(&mut v, "STATICS: → C1, → C3, → HS");
    assert(lines_view(v@) =~= class2_sheet());
    v
}

fn class3_lines() -> (v: Vec<String>)
    ensures
        lines_view(v@) == class3_sheet(),
{
    let mut v: Vec<String> = Vec::new();
    push_line(&mut v, "Class 3 Wormhole Sites");
    push_rule(&mut v);
    push_line(&mut v, "COMBAT ANOMALIES");
    push_line(&mut v, "  Perimeter Checkpoint    ~650 DPS   easy");
    push_line(&mut v, "  Perimeter Hangar      ~650 DPS   easy");
    push_line(&mut v, "  Sleeper Data Sanct.   ~700 DPS   easy");
    push_line(&mut v, "");
    push_line(&mut v, "RELIC / DATA SITES");
    push_line(&mut v, "  Forgotten Frontier Recursive   1396 DPS  ⚠ hardest C3");
    push_line(&mut v, "  Forgotten Frontier Quarantine  608 DPS");
    push_line(&mut v, "  Unsecured Frontier         608 DPS");
    push_line(&mut v, "");
    push_line(&mut v, "GAS SITES");
    push_line(&mut v, "  Minor Perimeter Reservoir   C50+C60   ~25M/load");
    push_line(&mut v, "  Sizable Perimeter Reservoir C50+C72   ~30M/load");
    push_line(&mut v, "");
    push_line(&mut v, "STATICS: → Lowsec, → C1");
    assert(lines_view(v@) =~= class3_sheet());
    v
}

fn class4_lines() -> (v: Vec<String>)
    ensures
        lines_view(v@) == class4_sheet(),
{
    let mut v: Vec<String> = Vec::new();
    push_line(&mut v, "Class 4 Wormhole Sites");
    push_rule(&mut v);
    push_line(&mut v, "COMBAT ANOMALIES");
    push_line(&mut v, "  Sanctum           ~800 DPS");
    push_line(&mut v, "  Forgotten      ~1000 DPS");
    push_line(&mut v, "");
    push_line(&mut v, "RELIC / DATA SITES");
    push_line(&mut v, "  Front. Archive   ~900 DPS");
    push_line(&mut v, "  Front. Vault  ~1100 DPS");
    push_line(&mut v, "");
    push_line(&mut v, "STATICS: → C3, → C5, → HS");
    assert(lines_view(v@) =~= class4_sheet());
    v
}

fn class5_lines() -> (v: Vec<String>)
    ensures
        lines_view(v@) == class5_sheet(),
{
    let mut v: Vec<String> = Vec::new();
    push_line(&mut v, "Class 5 Wormhole Sites");
    push_rule(&mut v);
    push_line(&mut v, "COMBAT ANOMALIES");
    push_line(&mut v, "  Stronghold       ~1200 DPS");
    push_line(&mut v, "  Incursion       ~1500 DPS");
    push_line(&mut v, "");
    push_line(&mut v, "RELIC / DATA SITES");
    push_line(&mut v, "  Front. Archive   ~1500 DPS");
    push_line(&mut v, "  Magnetometric   ~2000 DPS");
    push_line(&mut v, "");
    push_line(&mut v, "STATICS: → C4, → C6, → LS");
    assert(lines_view(v@) =~= class5_sheet());
    v
}

fn class6_lines() -> (v: Vec<String>)
    ensures
        lines_view(v@) == class6_sheet(),
{
    let mut v: Vec<String> = Vec::new();
    push_line(&mut v, "Class 6 Wormhole Sites");
    push_rule(&mut v);
    push_line(&mut v, "COMBAT ANOMALIES");
    push_line(&mut v, "  Tyrannos         ~2000 DPS");
    push_line(&mut v, "  Titan's Forge    ~2500 DPS");
    push_line(&mut v, "");
    push_line(&mut v, "RELIC / DATA SITES");
    push_line(&mut v, "  Citadel         ~2500 DPS");
    push_line(&mut v, "  Overseer        ~3000 DPS");
    push_line(&mut v, "");
    push_line(&mut v, "STATICS: → C5, → NS");
    assert(lines_view(v@) =~= class6_sheet());
    v
}

/// The error of `wh`.
pub enum WhError {
    /// The class (lowercased) is not one of c1 to c6.
    UnknownClass(String),
}

impl WhError {
    /// The message shown for the error.
    pub fn message(&self) -> (m: String)
        ensures
            m@ == (match self {
                WhError::UnknownClass(c) => "Unknown wormhole class: "@ + c@ + ". Use c1-c6."@,
            }),
    {
        match self {
            WhError::UnknownClass(c) => {
                let mut m = String::from_str("Unknown wormhole class: ");
                m.append(c.as_str());
                m.append(". Use c1-c6.");
                m
            },
        }
    }
}

/// The class a lowercase class name stands for.
pub fn class_of(lower: &str) -> (r: Option<u8>)
    ensures
        r matches Some(k) ==> class_number(lower@) == Some(k as nat),
        r is None ==> class_number(lower@) is None,
{
    let cs = chars_of(lower);
    if cs.len() == 2 && cs[0] == 'c' && '1' <= cs[1] && cs[1] <= '6' {
        let k: u8 = if cs[1] == '1' {
            1
        } else if cs[1] == '2' {
            2
        } else if cs[1] == '3' {
            3
        } else if cs[1] == '4' {
            4
        } else if cs[1] == '5' {
            5
        } else {
            6
        };
        Some(k)
    } else {
        None
    }
}

/// The lines of the sheet for a lowercase class name, or nothing when the
/// name is not one of c1 to c6.
pub fn sheet_for(lower: &str) -> (r: Option<Vec<String>>)
    ensures
        match class_number(lower@) {
            Some(k) => r matches Some(lines) && lines_view(lines@) == sheet(k),
            None => r is None,
        },
{
    match class_of(lower) {
        None => None,
        Some(k) => {
            let lines = if k == 1 {
                class1_lines()
            } else if k == 2 {
                class2_lines()
            } else if k == 3 {
                class3_lines()
            } else if k == 4 {
                class4_lines()
            } else if k == 5 {
                class5_lines()
            } else {
                class6_lines()
            };
            Some(lines)
        },
    }
}

/// The lines that `wh` prints for a class name, matched without regard to
/// case; the kind of sites asked for does not change the sheet.
pub fn run(args: WhArgs) -> (r: Result<Vec<String>, WhError>)
    ensures
        match class_number(lowercase_of(args.class@)) {
            Some(k) => r matches Ok(lines) && lines_view(lines@) == sheet(k),
            None => r matches Err(WhError::UnknownClass(c)) && c@ == lowercase_of(args.class@),
        },
{
    let lower = to_lowercase(args.class.as_str());
    match sheet_for(lower.as_str()) {
        Some(lines) => Ok(lines),
        None => Err(WhError::UnknownClass(lower)),
    }
}

} // verus!
