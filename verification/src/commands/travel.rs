//! Route travel: the routing preference sent to ESI and, per hop, the kill
//! total, the danger bar and the stargate worth pointing out.

use vstd::prelude::*;
use vstd::string::StringExecFns;
use crate::cli::RouteFlag;
use crate::display::danger_text;
use crate::text::{chars_between, chars_of, chars_start_with, push_char, push_signed_decimal, signed_decimal, string_of};
use crate::zkill::GateKill;

verus! {

/// The `flag` parameter of the route request: the safest route asks for a
/// secure one, and so does the high-sec-only one, whose route is then held
/// to `route_meets`.
pub open spec fn route_param(flag: RouteFlag) -> Seq<char> {
    match flag {
        RouteFlag::Shortest => "shortest"@,
        RouteFlag::Safest => "secure"@,
        RouteFlag::Secure => "secure"@,
        RouteFlag::Insecure => "insecure"@,
    }
}

/// The `flag` parameter of the route request for a routing preference.
pub fn route_flag_param(flag: RouteFlag) -> (p: &'static str)
    ensures
        p@ == route_param(flag),
{
    match flag {
        RouteFlag::Shortest => "shortest",
        RouteFlag::Safest => "secure",
        RouteFlag::Secure => "secure",
        RouteFlag::Insecure => "insecure",
    }
}

/// Whether a route keeps to its routing preference: with `Secure` every
/// system of the route must be high-sec; the other preferences take the
/// route as it comes.  `high_sec` tells, hop by hop, whether the system is
/// high-sec.
pub open spec fn route_meets(flag: RouteFlag, high_sec: Seq<bool>) -> bool {
    flag == RouteFlag::Secure ==> forall|i: int| 0 <= i < high_sec.len() ==> #[trigger] high_sec[i]
}

/// A high-sec-only route is refused as soon as any of its systems, the
/// origin and the destination included, is not high-sec; a route all in
/// high-sec is accepted; the other preferences refuse nothing.
pub proof fn lemma_secure_route_all_high_sec(flag: RouteFlag, high_sec: Seq<bool>, i: int)
    ensures
        flag == RouteFlag::Secure && 0 <= i < high_sec.len() && !high_sec[i] ==> !route_meets(flag, high_sec),
        flag == RouteFlag::Secure && high_sec.len() > 0 && !high_sec.last() ==> !route_meets(flag, high_sec),
        flag == RouteFlag::Secure && high_sec.len() > 0 && !high_sec[0] ==> !route_meets(flag, high_sec),
        (forall|j: int| 0 <= j < high_sec.len() ==> high_sec[j]) ==> route_meets(flag, high_sec),
        flag != RouteFlag::Secure ==> route_meets(flag, high_sec),
{
    if flag == RouteFlag::Secure && high_sec.len() > 0 && !high_sec.last() {
        assert(!high_sec[high_sec.len() - 1]);
    }
    if flag == RouteFlag::Secure && high_sec.len() > 0 && !high_sec[0] {
        assert(!high_sec[0]);
    }
}

/// Whether a route keeps to its routing preference (see `route_meets`).
pub fn route_allowed(flag: RouteFlag, high_sec: &Vec<bool>) -> (ok: bool)
    ensures
        ok == route_meets(flag, high_sec@),
        flag == RouteFlag::Secure ==> (ok <==> forall|i: int| 0 <= i < high_sec@.len() ==> high_sec@[i]),
        flag != RouteFlag::Secure ==> ok,
{
    match flag {
        RouteFlag::Secure => {
            let mut i: usize = 0;
            while i < high_sec.len()
                invariant
                    flag == RouteFlag::Secure,
                    i <= high_sec.len(),
                    forall|k: int| 0 <= k < i ==> #[trigger] high_sec@[k],
                decreases high_sec.len() - i,
            {
                if !high_sec[i] {
                    return false;
                }
                i = i + 1;
            }
            true
        },
        _ => true,
    }
}

/// The error of a high-sec-only route that leaves high-sec.
pub fn insecure_route_message(origin: &str, destination: &str) -> (m: String)
    ensures
        m@ == "No high-sec only route from "@ + origin@ + " to "@ + destination@,
{
    let mut m = String::from_str("No high-sec only route from ");
    m.append(origin);
    m.append(" to ");
    m.append(destination);
    m
}

/// The sum of the stargate kill counts, each taken as a `u32` (truncated, as
/// the count is converted before adding).
pub open spec fn kill_total(gates: Seq<GateKill>) -> int
    decreases gates.len(),
{
    if gates.len() == 0 {
        0
    } else {
        kill_total(gates.drop_last()) + (gates.last().kill_count as u32) as int
    }
}

/// The kills of a hop at or above which the system counts as hot.
pub open spec fn is_hot(total: u32) -> bool {
    total >= 5
}

/// How many of the ten cells of the danger bar are filled: one per two
/// kills, at most ten.
pub open spec fn bar_fill(total: u32) -> nat {
    if total / 2 < 10 {
        (total / 2) as nat
    } else {
        10
    }
}

/// A hop counts as hot exactly when its danger label is "dangerous" or
/// "very dangerous".
pub proof fn lemma_hot_iff_dangerous_label(total: u32)
    ensures
        is_hot(total) <==> (danger_text(total) == "dangerous"@ || danger_text(total) == "very dangerous"@),
{
    reveal_strlit("clear");
    reveal_strlit("moderate");
    reveal_strlit("dangerous");
    reveal_strlit("very dangerous");
    assert("clear"@.len() == 5 && "moderate"@.len() == 8);
    assert("dangerous"@.len() == 9 && "very dangerous"@.len() == 14);
}

/// The danger bar is ten cells wide whatever the kills, and a hop with more
/// kills never shows fewer filled cells.
pub proof fn lemma_bar_width_and_growth(fewer: u32, more: u32)
    requires
        fewer <= more,
    ensures
        bar_text(fewer).len() == 10,
        bar_text(more).len() == 10,
        bar_fill(fewer) <= bar_fill(more),
{
}

/// How many hops with these kill totals are hot.
pub open spec fn hot_count(totals: Seq<u32>) -> nat
    decreases totals.len(),
{
    if totals.len() == 0 {
        0
    } else {
        hot_count(totals.drop_last()) + if is_hot(totals.last()) {
            1nat
        } else {
            0nat
        }
    }
}

/// The hops with five kills or more.
pub open spec fn five_or_more() -> spec_fn(u32) -> bool {
    |t: u32| t >= 5
}

/// Every hop is counted: the hot count is the number of hops, first and
/// last included, whose kill total is five or more.
pub proof fn lemma_hot_count_counts_every_hop(totals: Seq<u32>)
    ensures
        hot_count(totals) == totals.filter(five_or_more()).len(),
    decreases totals.len(),
{
    if totals.len() > 0 {
        let rest = totals.drop_last();
        lemma_hot_count_counts_every_hop(rest);
        assert(totals =~= rest.push(totals.last()));
        rest.lemma_filter_push(totals.last(), five_or_more());
    }
}

/// The hot count of one hop is 1 exactly when it has five kills or more,
/// and the hot count of a route made of two stretches is the sum of theirs.
pub proof fn lemma_hot_count_adds(a: Seq<u32>, b: Seq<u32>, t: u32)
    ensures
        hot_count(seq![t]) == if t >= 5 {
            1nat
        } else {
            0nat
        },
        hot_count(a + b) == hot_count(a) + hot_count(b),
{
    lemma_hot_count_counts_every_hop(seq![t]);
    let none = Seq::<u32>::empty();
    assert(seq![t] =~= none.push(t));
    none.lemma_filter_push(t, five_or_more());
    none.lemma_filter_len(five_or_more());
    lemma_hot_count_counts_every_hop(a);
    lemma_hot_count_counts_every_hop(b);
    lemma_hot_count_counts_every_hop(a + b);
    Seq::filter_distributes_over_add(a, b, five_or_more());
}

/// The number of hot systems on a route, from the kill totals of its hops.
pub fn count_hot(totals: &Vec<u32>) -> (n: usize)
    ensures
        n == hot_count(totals@),
        n == totals@.filter(five_or_more()).len(),
{
    proof {
        lemma_hot_count_counts_every_hop(totals@);
    }
    let mut n: usize = 0;
    let mut k: usize = 0;
    while k < totals.len()
        invariant
            k <= totals.len(),
            n <= k,
            n == hot_count(totals@.take(k as int)),
        decreases totals.len() - k,
    {
        assert(totals@.take(k + 1).drop_last() =~= totals@.take(k as int));
        if totals[k] >= 5 {
            n = n + 1;
        }
        k = k + 1;
    }
    assert(totals@.take(totals.len() as int) =~= totals@);
    n
}

/// The danger bar: filled cells, then empty ones, ten in all.
pub open spec fn bar_text(total: u32) -> Seq<char> {
    Seq::new(bar_fill(total), |i: int| '\u{2588}') + Seq::new((10 - bar_fill(total)) as nat, |i: int| '\u{2591}')
}

/// Position `i` holds a stargate with the most kills, the last one among
/// equals (what `max_by_key` returns).
pub open spec fn is_last_max(gates: Seq<GateKill>, i: int) -> bool {
    &&& 0 <= i < gates.len()
    &&& forall|j: int| 0 <= j < gates.len() ==> (#[trigger] gates[j]).kill_count <= gates[i].kill_count
    &&& forall|j: int| i < j < gates.len() ==> (#[trigger] gates[j]).kill_count < gates[i].kill_count
}

/// What a hop of the route shows besides its name and security.
pub struct HopSummary {
    /// The kills at the system's stargates.
    pub total_kills: u32,
    /// Five kills or more.
    pub hot: bool,
    /// The danger bar.
    pub bar: String,
    /// Which stargate is worth pointing out: the one with the most kills (the last
    /// among equals), when there were kills and it has some.
    pub worst_gate: Option<usize>,
}

/// Which stargate has the most kills, the last one among equals.
pub fn worst_gate(gates: &Vec<GateKill>) -> (r: Option<usize>)
    ensures
        gates@.len() == 0 ==> r is None,
        gates@.len() > 0 ==> (r matches Some(i) && is_last_max(gates@, i as int)),
{
    if gates.len() == 0 {
        return None;
    }
    let mut best: usize = 0;
    let mut k: usize = 1;
    while k < gates.len()
        invariant
            1 <= k <= gates.len(),
            best < k,
            forall|j: int| 0 <= j < k ==> (#[trigger] gates@[j]).kill_count <= gates@[best as int].kill_count,
            forall|j: int| best < j < k ==> (#[trigger] gates@[j]).kill_count < gates@[best as int].kill_count,
        decreases gates.len() - k,
    {
        if gates[k].kill_count >= gates[best].kill_count {
            best = k;
        }
        k = k + 1;
    }
    Some(best)
}

fn push_repeated(s: &mut String, c: char, n: usize)
    ensures
        final(s)@ == old(s)@ + Seq::new(n as nat, |i: int| c),
{
    let mut i: usize = 0;
    while i < n
        invariant
            i <= n,
            s@ == old(s)@ + Seq::new(i as nat, |j: int| c),
        decreases n - i,
    {
        push_char(s, c);
        assert(s@ =~= old(s)@ + Seq::new((i + 1) as nat, |j: int| c));
        i = i + 1;
    }
}

/// The danger bar for a number of kills.
pub fn danger_bar(total: u32) -> (bar: String)
    ensures
        bar@ == bar_text(total),
{
    let filled: usize = if total / 2 < 10 {
        (total / 2) as usize
    } else {
        10
    };
    let mut bar = String::new();
    push_repeated(&mut bar, '\u{2588}', filled);
    push_repeated(&mut bar, '\u{2591}', 10 - filled);
    assert(bar@ =~= bar_text(total));
    bar
}

/// The kill total of the gates, or nothing when it does not fit in a `u32`
/// (where the sum overflows).
pub fn total_gate_kills(gates: &Vec<GateKill>) -> (r: Option<u32>)
    ensures
        r matches Some(t) ==> t == kill_total(gates@),
        r is None <==> kill_total(gates@) > u32::MAX,
{
    let mut total: u64 = 0;
    let mut k: usize = 0;
    let mut over = false;
    while k < gates.len()
        invariant
            k <= gates.len(),
            !over ==> total == kill_total(gates@.take(k as int)) && total <= u32::MAX,
            over ==> kill_total(gates@.take(k as int)) > u32::MAX,
        decreases gates.len() - k,
    {
        assert(gates@.take(k + 1).drop_last() =~= gates@.take(k as int));
        let c: u32 = #[verifier::truncate] (gates[k].kill_count as u32);
        if !over {
            total = total + c as u64;
            if total > 0xffff_ffff {
                over = true;
            }
        }
        k = k + 1;
    }
    assert(gates@.take(gates.len() as int) =~= gates@);
    if over {
        None
    } else {
        Some(total as u32)
    }
}

/// The summary of a hop from the kill counts at its stargates, or nothing
/// when the kill total does not fit in a `u32`.
pub fn summarize_hop(gates: &Vec<GateKill>) -> (r: Option<HopSummary>)
    ensures
        r is None <==> kill_total(gates@) > u32::MAX,
        r matches Some(h) ==> {
            &&& h.total_kills == kill_total(gates@)
            &&& h.hot == is_hot(h.total_kills)
            &&& h.bar@ == bar_text(h.total_kills)
            &&& match h.worst_gate {
                Some(i) => h.total_kills > 0 && is_last_max(gates@, i as int) && gates@[i as int].kill_count > 0,
                None => h.total_kills == 0 || forall|j: int| 0 <= j < gates@.len() ==> (#[trigger] gates@[j]).kill_count <= 0,
            }
        },
{
    match total_gate_kills(gates) {
        None => None,
        Some(total) => {
            let bar = danger_bar(total);
            let worst = if total > 0 && gates.len() > 0 {
                match worst_gate(gates) {
                    Some(i) => {
                        if gates[i].kill_count > 0 {
                            Some(i)
                        } else {
                            None
                        }
                    },
                    None => None,
                }
            } else {
                None
            };
            Some(HopSummary { total_kills: total, hot: total >= 5, bar, worst_gate: worst })
        },
    }
}

/// The name of the system a stargate leads to, read from its own name
/// "Stargate (Name)"; any other name is kept whole.
pub open spec fn gate_target_name(name: Seq<char>) -> Seq<char> {
    if "Stargate ("@.is_prefix_of(name) && name.len() > "Stargate ("@.len() && name.last() == ')' {
        name.subrange("Stargate ("@.len() as int, name.len() - 1)
    } else {
        name
    }
}

/// Where a stargate leads: the resolved destination system's name, or else
/// the name read from the stargate's own name.
pub fn gate_place(gate_name: &str, destination_name: Option<String>) -> (place: String)
    ensures
        place@ == (match destination_name {
            Some(d) => d@,
            None => gate_target_name(gate_name@),
        }),
{
    match destination_name {
        Some(d) => d,
        None => {
            let p = chars_of("Stargate (");
            let n = chars_of(gate_name);
            if chars_start_with(&n, &p) && n.len() > p.len() && n[n.len() - 1] == ')' {
                let mid = chars_between(&n, p.len(), n.len() - 1);
                string_of(&mid)
            } else {
                String::from_str(gate_name)
            }
        },
    }
}

/// "kill" for one, "kills" otherwise.
pub open spec fn kill_word(count: i64) -> Seq<char> {
    if count == 1 {
        "kill"@
    } else {
        "kills"@
    }
}

/// The remark on the busiest gate: "N kill(s) at PLACE gate", or
/// "N kill(s) at gate" when no place was found for it.
pub fn gate_detail(kill_count: i64, place: Option<String>) -> (text: String)
    ensures
        text@ == signed_decimal(kill_count as int) + " "@ + kill_word(kill_count) + (match place {
            Some(p) => " at "@ + p@ + " gate"@,
            None => " at gate"@,
        }),
{
    let mut text = String::new();
    push_signed_decimal(&mut text, kill_count);
    text.append(" ");
    if kill_count == 1 {
        text.append("kill");
    } else {
        text.append("kills");
    }
    match place {
        Some(p) => {
            text.append(" at ");
            text.append(p.as_str());
            text.append(" gate");
            assert(text@ =~= signed_decimal(kill_count as int) + " "@ + kill_word(kill_count) + (" at "@ + p@ + " gate"@));
        },
        None => {
            text.append(" at gate");
        },
    }
    text
}

} // verus!
