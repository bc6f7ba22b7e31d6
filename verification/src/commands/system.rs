//! System overview: kill counts of a system and the systems known for traps.

use vstd::prelude::*;
use crate::text::chars_of;
use crate::zkill::SystemKills;

verus! {

/// The kills shown for a time window: the count of the statistics that were
/// read (none counts as 0), taken as a `u32` (truncated); 0 when nothing
/// could be read.
pub open spec fn window_kills(reply: Option<SystemKills>) -> u32 {
    match reply {
        Some(k) => match k.kill_count {
            Some(c) => c as u32,
            None => 0,
        },
        None => 0,
    }
}

/// The kills shown for a time window.
pub fn kills_in_window(reply: Option<SystemKills>) -> (r: u32)
    ensures
        r == window_kills(reply),
{
    match reply {
        Some(k) => match k.kill_count {
            Some(c) => #[verifier::truncate] (c as u32),
            None => 0,
        },
        None => 0,
    }
}

/// A character with ASCII letters folded to lowercase.
pub open spec fn ascii_lower(c: char) -> char {
    if 65 <= c as int <= 90 {
        (c as int + 32) as char
    } else {
        c
    }
}

/// Equal up to the case of ASCII letters (`str::eq_ignore_ascii_case`).
pub open spec fn eq_ignore_ascii_case(a: Seq<char>, b: Seq<char>) -> bool {
    a.len() == b.len() && forall|i: int| 0 <= i < a.len() ==> ascii_lower(#[trigger] a[i]) == ascii_lower(b[i])
}

/// The systems known for gate camps.
pub open spec fn notorious_names() -> Seq<Seq<char>> {
    seq!["Jita"@, "Perimeter"@, "Urlen"@, "Ahbazon"@, "Oulley"@]
}

/// A system known for gate camps, whatever the case of its ASCII letters.
pub open spec fn notorious(name: Seq<char>) -> bool {
    exists|i: int| 0 <= i < notorious_names().len() && eq_ignore_ascii_case(#[trigger] notorious_names()[i], name)
}

fn lower_ascii(c: char) -> (r: char)
    ensures
        r == ascii_lower(c),
{
    if 'A' <= c && c <= 'Z' {
        let b: u8 = (c as u8) + 32;
        b as char
    } else {
        c
    }
}

fn same_ignoring_ascii_case(a: &Vec<char>, b: &Vec<char>) -> (r: bool)
    ensures
        r == eq_ignore_ascii_case(a@, b@),
{
    if a.len() != b.len() {
        return false;
    }
    let mut i: usize = 0;
    while i < a.len()
        invariant
            a.len() == b.len(),
            i <= a.len(),
            forall|k: int| 0 <= k < i ==> ascii_lower(#[trigger] a@[k]) == ascii_lower(b@[k]),
        decreases a.len() - i,
    {
        if lower_ascii(a[i]) != lower_ascii(b[i]) {
            return false;
        }
        i = i + 1;
    }
    true
}

/// The code of a character with ASCII capitals folded to lowercase.
pub open spec fn folded_code(c: char) -> int {
    if 65 <= c as int <= 90 {
        c as int + 32
    } else {
        c as int
    }
}

/// `name` spells `word`, ASCII case aside.
pub open spec fn spells(word: Seq<char>, name: Seq<char>) -> bool {
    word.len() == name.len() && forall|j: int| 0 <= j < name.len() ==> folded_code(word[j]) == folded_code(#[trigger] name[j])
}

/// Jita, Perimeter, Urlen, Ahbazon and Oulley are known for gate camps,
/// and so is any name that spells one of them with other ASCII case; no
/// other name is.
pub proof fn lemma_notorious_systems(name: Seq<char>)
    ensures
        name == "Jita"@ || name == "Perimeter"@ || name == "Urlen"@ || name == "Ahbazon"@ || name == "Oulley"@
            ==> notorious(name),
        notorious(name) <==> spells("Jita"@, name) || spells("Perimeter"@, name) || spells("Urlen"@, name) || spells(
            "Ahbazon"@,
            name,
        ) || spells("Oulley"@, name),
{
    let lits = notorious_names();
    assert(lits[0] == "Jita"@ && lits[1] == "Perimeter"@ && lits[2] == "Urlen"@ && lits[3] == "Ahbazon"@ && lits[4]
        == "Oulley"@);
    assert forall|a: char, b: char| ascii_lower(a) == ascii_lower(b) <==> folded_code(a) == folded_code(b) by {
        lemma_fold(a);
        lemma_fold(b);
    }
    assert forall|i: int| 0 <= i < 5 implies eq_ignore_ascii_case(#[trigger] lits[i], name) == spells(lits[i], name) by {
        if eq_ignore_ascii_case(lits[i], name) {
            assert forall|j: int| 0 <= j < name.len() implies folded_code(lits[i][j]) == folded_code(#[trigger] name[j]) by {
                assert(ascii_lower(lits[i][j]) == ascii_lower(name[j]));
            }
        }
        if spells(lits[i], name) {
            assert forall|j: int| 0 <= j < lits[i].len() implies ascii_lower(#[trigger] lits[i][j]) == ascii_lower(name[j]) by {
                assert(folded_code(lits[i][j]) == folded_code(name[j]));
            }
        }
    }
    let w: int = if name == "Jita"@ {
        0
    } else if name == "Perimeter"@ {
        1
    } else if name == "Urlen"@ {
        2
    } else if name == "Ahbazon"@ {
        3
    } else {
        4
    };
    if name == "Jita"@ || name == "Perimeter"@ || name == "Urlen"@ || name == "Ahbazon"@ || name == "Oulley"@ {
        assert(eq_ignore_ascii_case(lits[w], name));
    }
    if notorious(name) {
        let i = choose|i: int| 0 <= i < lits.len() && eq_ignore_ascii_case(#[trigger] lits[i], name);
        assert(spells(lits[i], name));
    }
    if spells("Jita"@, name) {
        assert(eq_ignore_ascii_case(lits[0], name));
    }
    if spells("Perimeter"@, name) {
        assert(eq_ignore_ascii_case(lits[1], name));
    }
    if spells("Urlen"@, name) {
        assert(eq_ignore_ascii_case(lits[2], name));
    }
    if spells("Ahbazon"@, name) {
        assert(eq_ignore_ascii_case(lits[3], name));
    }
    if spells("Oulley"@, name) {
        assert(eq_ignore_ascii_case(lits[4], name));
    }
}

proof fn lemma_fold(c: char)
    ensures
        ascii_lower(c) as int == folded_code(c),
{
}

/// Whether a system is known for gate camps.
pub fn is_notorious(name: &str) -> (r: bool)
    ensures
        r == notorious(name@),
        name@ == "Jita"@ || name@ == "Perimeter"@ || name@ == "Urlen"@ || name@ == "Ahbazon"@ || name@ == "Oulley"@
            ==> r,
        r <==> spells("Jita"@, name@) || spells("Perimeter"@, name@) || spells("Urlen"@, name@) || spells(
            "Ahbazon"@,
            name@,
        ) || spells("Oulley"@, name@),
{
    proof {
        lemma_notorious_systems(name@);
    }
    let n = chars_of(name);
    let known: Vec<&str> = vec!["Jita", "Perimeter", "Urlen", "Ahbazon", "Oulley"];
    let mut i: usize = 0;
    while i < known.len()
        invariant
            known@.len() == 5,
            forall|k: int| 0 <= k < 5 ==> (#[trigger] known@[k])@ == notorious_names()[k],
            n@ == name@,
            i <= 5,
            forall|k: int| 0 <= k < i ==> !eq_ignore_ascii_case(#[trigger] notorious_names()[k], name@),
        decreases 5 - i,
    {
        let cs = chars_of(known[i]);
        if same_ignoring_ascii_case(&cs, &n) {
            return true;
        }
        i = i + 1;
    }
    false
}

} // verus!
