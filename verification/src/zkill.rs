//! zKillboard: kill counts per system and per stargate, and the request URLs.

use vstd::prelude::*;
use vstd::string::StringExecFns;
use crate::text::{decimal, push_decimal, push_signed_decimal, signed_decimal};

verus! {

/// The zKillboard API root.
pub open spec fn zkill_base() -> Seq<char> {
    "https://zkillboard.com/api"@
}

/// A look-back window in seconds for a number of hours, or nothing when it
/// does not fit in a `u32` (where `hours * 3600` overflows).
pub fn past_seconds(hours: u32) -> (r: Option<u32>)
    ensures
        r matches Some(s) ==> s == hours * 3600,
        r is None <==> hours * 3600 > u32::MAX,
{
    if hours > 1193046 {
        None
    } else {
        Some(hours * 3600)
    }
}

/// `…/kills/solarSystemID/{system}/pastSeconds/{seconds}/`: the kills of a
/// system in the last `seconds` seconds.
pub fn system_kills_url(system_id: i64, seconds: u32) -> (url: String)
    ensures
        url@ == zkill_base() + "/kills/solarSystemID/"@ + signed_decimal(system_id as int)
            + "/pastSeconds/"@ + decimal(seconds as nat) + "/"@,
{
    let mut url = String::from_str("https://zkillboard.com/api");
    url.append("/kills/solarSystemID/");
    push_signed_decimal(&mut url, system_id);
    url.append("/pastSeconds/");
    push_decimal(&mut url, seconds as u64);
    url.append("/");
    url
}

/// `…/kills/solarSystemID/{system}/?hours={hours}`: the kills of a system
/// in the last `hours` hours.
pub fn system_kills_hours_url(system_id: i64, hours: u32) -> (url: String)
    ensures
        url@ == zkill_base() + "/kills/solarSystemID/"@ + signed_decimal(system_id as int)
            + "/?hours="@ + decimal(hours as nat),
{
    let mut url = String::from_str("https://zkillboard.com/api");
    url.append("/kills/solarSystemID/");
    push_signed_decimal(&mut url, system_id);
    url.append("/?hours=");
    push_decimal(&mut url, hours as u64);
    url
}

/// `…/kills/solarSystemID/{system}/`: the recent kills of a system, with no
/// time filter.
pub fn system_kills_all_url(system_id: i64) -> (url: String)
    ensures
        url@ == zkill_base() + "/kills/solarSystemID/"@ + signed_decimal(system_id as int) + "/"@,
{
    let mut url = String::from_str("https://zkillboard.com/api");
    url.append("/kills/solarSystemID/");
    push_signed_decimal(&mut url, system_id);
    url.append("/");
    url
}

/// `…/stats/characterID/{character}/`: the aggregated statistics of a pilot.
pub fn character_stats_url(character_id: i64) -> (url: String)
    ensures
        url@ == zkill_base() + "/stats/characterID/"@ + signed_decimal(character_id as int) + "/"@,
{
    let mut url = String::from_str("https://zkillboard.com/api");
    url.append("/stats/characterID/");
    push_signed_decimal(&mut url, character_id);
    url.append("/");
    url
}

/// Where to read the killmails of a system for gate kill counts, in the order
/// to try them: the last `hours` hours by seconds, the same window by hours,
/// then the recent kills with no time filter.  The first reply that can be
/// read is used; when none can, the failure of the last one is reported.
/// Nothing when the window in seconds does not fit in a `u32`.
pub fn gate_kill_sources(system_id: i64, hours: u32) -> (r: Option<Vec<String>>)
    ensures
        r is None <==> hours * 3600 > u32::MAX,
        r matches Some(urls) ==> {
            &&& urls@.len() == 3
            &&& urls@[0]@ == zkill_base() + "/kills/solarSystemID/"@ + signed_decimal(system_id as int)
                + "/pastSeconds/"@ + decimal((hours * 3600) as nat) + "/"@
            &&& urls@[1]@ == zkill_base() + "/kills/solarSystemID/"@ + signed_decimal(system_id as int)
                + "/?hours="@ + decimal(hours as nat)
            &&& urls@[2]@ == zkill_base() + "/kills/solarSystemID/"@ + signed_decimal(system_id as int) + "/"@
        },
{
    match past_seconds(hours) {
        None => None,
        Some(seconds) => {
            let mut urls: Vec<String> = Vec::new();
            urls.push(system_kills_url(system_id, seconds));
            urls.push(system_kills_hours_url(system_id, hours));
            urls.push(system_kills_all_url(system_id));
            Some(urls)
        },
    }
}

/// Kill statistics of a system: the kill count, when the service gave one.
pub struct SystemKills {
    pub kill_count: Option<i64>,
}

/// The number of kills at one stargate.
pub struct GateKill {
    pub gate_id: i64,
    pub kill_count: i64,
}

/// How many killmails happened at `gate`.
pub open spec fn kills_at(locations: Seq<Option<i64>>, gate: i64) -> nat
    decreases locations.len(),
{
    if locations.len() == 0 {
        0
    } else {
        kills_at(locations.drop_last(), gate) + if locations.last() == Some(gate) {
            1nat
        } else {
            0nat
        }
    }
}

/// The kills counted at each gate of the list, added up.
pub open spec fn kills_at_gates(locations: Seq<Option<i64>>, gates: Seq<i64>) -> nat
    decreases gates.len(),
{
    if gates.len() == 0 {
        0
    } else {
        kills_at_gates(locations, gates.drop_last()) + kills_at(locations, gates.last())
    }
}

/// No gate id occurs twice.
pub open spec fn distinct_gates(gates: Seq<i64>) -> bool {
    forall|i: int, j: int| 0 <= i < j < gates.len() ==> gates[i] != gates[j]
}

/// How many gates of the list a killmail location names.
pub open spec fn gates_named(location: Option<i64>, gates: Seq<i64>) -> nat
    decreases gates.len(),
{
    if gates.len() == 0 {
        0
    } else {
        gates_named(location, gates.drop_last()) + if location == Some(gates.last()) {
            1nat
        } else {
            0nat
        }
    }
}

proof fn lemma_named_at_most_once(location: Option<i64>, gates: Seq<i64>)
    requires
        distinct_gates(gates),
    ensures
        gates_named(location, gates) <= 1,
        gates_named(location, gates) == 1 ==> exists|i: int| 0 <= i < gates.len() && location == Some(gates[i]),
    decreases gates.len(),
{
    if gates.len() > 0 {
        let rest = gates.drop_last();
        assert(distinct_gates(rest)) by {
            assert forall|i: int, j: int| 0 <= i < j < rest.len() implies rest[i] != rest[j] by {
                assert(rest[i] == gates[i] && rest[j] == gates[j]);
            }
        }
        lemma_named_at_most_once(location, rest);
        if location == Some(gates.last()) && gates_named(location, rest) == 1 {
            let i = choose|i: int| 0 <= i < rest.len() && location == Some(rest[i]);
            assert(gates[i] == gates[gates.len() - 1]);
        }
        if gates_named(location, gates) == 1 {
            if location == Some(gates.last()) {
                assert(location == Some(gates[gates.len() - 1]));
            } else {
                let i = choose|i: int| 0 <= i < rest.len() && location == Some(rest[i]);
                assert(location == Some(gates[i]));
            }
        }
    }
}

proof fn lemma_gates_drop_last_kill(locations: Seq<Option<i64>>, gates: Seq<i64>)
    requires
        locations.len() > 0,
    ensures
        kills_at_gates(locations, gates) == kills_at_gates(locations.drop_last(), gates) + gates_named(
            locations.last(),
            gates,
        ),
    decreases gates.len(),
{
    if gates.len() > 0 {
        lemma_gates_drop_last_kill(locations, gates.drop_last());
    }
}

/// No killmail is counted at two gates: over distinct gate ids, the counts
/// add up to at most the number of killmails.
pub proof fn lemma_each_kill_counted_once(locations: Seq<Option<i64>>, gates: Seq<i64>)
    requires
        distinct_gates(gates),
    ensures
        kills_at_gates(locations, gates) <= locations.len(),
    decreases locations.len(),
{
    if locations.len() > 0 {
        lemma_each_kill_counted_once(locations.drop_last(), gates);
        lemma_gates_drop_last_kill(locations, gates);
        lemma_named_at_most_once(locations.last(), gates);
    } else {
        assert(locations =~= Seq::<Option<i64>>::empty());
        lemma_no_kills(gates);
    }
}

proof fn lemma_no_kills(gates: Seq<i64>)
    ensures
        kills_at_gates(Seq::empty(), gates) == 0,
    decreases gates.len(),
{
    if gates.len() > 0 {
        lemma_no_kills(gates.drop_last());
    }
}

/// The kill counts per stargate: for each gate, in the given order, the
/// number of killmails whose location is that gate (as an `i64`, which a
/// count below 2^63 fits unchanged).  `locations` holds the
/// location of each killmail, where it has one.
pub fn count_gate_kills(locations: &Vec<Option<i64>>, gate_ids: &Vec<i64>) -> (r: Vec<GateKill>)
    ensures
        r@.len() == gate_ids@.len(),
        forall|k: int|
            0 <= k < r@.len() ==> (#[trigger] r@[k]).gate_id == gate_ids@[k] && r@[k].kill_count
                == kills_at(locations@, gate_ids@[k]) as i64,
{
    let mut r: Vec<GateKill> = Vec::new();
    let mut k: usize = 0;
    while k < gate_ids.len()
        invariant
            k <= gate_ids.len(),
            r@.len() == k,
            forall|m: int|
                0 <= m < k ==> (#[trigger] r@[m]).gate_id == gate_ids@[m] && r@[m].kill_count
                    == kills_at(locations@, gate_ids@[m]) as i64,
        decreases gate_ids.len() - k,
    {
        let gate = gate_ids[k];
        let mut count: usize = 0;
        let mut i: usize = 0;
        while i < locations.len()
            invariant
                i <= locations.len(),
                count <= i,
                count == kills_at(locations@.take(i as int), gate),
            decreases locations.len() - i,
        {
            assert(locations@.take(i + 1).drop_last() =~= locations@.take(i as int));
            if locations[i] == Some(gate) {
                count = count + 1;
            }
            i = i + 1;
        }
        assert(locations@.take(locations.len() as int) =~= locations@);
        r.push(GateKill { gate_id: gate, kill_count: #[verifier::truncate] (count as i64) });
        k = k + 1;
    }
    r
}

/// The kill statistics a reply stands for.  `stats` is the reply read as
/// kill statistics, where it could be read so; `array_len` is the number of
/// elements when the reply is a JSON array.  A kill count in the statistics
/// wins; otherwise an array counts one kill per element; otherwise zero.
pub fn system_kills_from_reply(stats: Option<SystemKills>, array_len: Option<usize>) -> (r: SystemKills)
    ensures
        r.kill_count == (match stats {
            Some(s) if s.kill_count is Some => s.kill_count,
            _ => match array_len {
                Some(n) => Some(n as i64),
                None => Some(0i64),
            },
        }),
{
    if let Some(s) = stats {
        if s.kill_count.is_some() {
            return s;
        }
    }
    match array_len {
        Some(n) => SystemKills { kill_count: Some(n as i64) },
        None => SystemKills { kill_count: Some(0) },
    }
}

} // verus!
