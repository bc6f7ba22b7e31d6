//! EVE Swagger Interface: name resolution, the records it returns, and the
//! request URLs.

use vstd::prelude::*;
use vstd::string::StringExecFns;
use crate::text::{push_signed_decimal, signed_decimal};

verus! {

/// A name resolved to an id.
pub struct ResolvedId {
    pub id: i64,
    pub name: String,
}

/// The state of the game server.
pub struct ServerStatus {
    pub players: i64,
    pub version: String,
}

/// A stargate and, where known, the system it leads to.
pub struct StargateInfo {
    pub name: String,
    pub stargate_id: i64,
    pub destination: Option<Destination>,
}

/// The system a stargate leads to.
pub struct Destination {
    pub system_id: i64,
}

/// The ids of a list, or the empty list where the reply had none.
pub open spec fn resolved_ids(list: Option<Vec<ResolvedId>>) -> Seq<ResolvedId> {
    match list {
        Some(v) => v@,
        None => Seq::empty(),
    }
}

/// All names that a name lookup resolved: the characters, then the systems,
/// then the item types, each group in reply order.
pub fn merge_resolved(
    characters: Option<Vec<ResolvedId>>,
    systems: Option<Vec<ResolvedId>>,
    types: Option<Vec<ResolvedId>>,
) -> (r: Vec<ResolvedId>)
    ensures
        r@ == resolved_ids(characters) + resolved_ids(systems) + resolved_ids(types),
{
    let mut r: Vec<ResolvedId> = Vec::new();
    if let Some(mut c) = characters {
        r.append(&mut c);
    }
    if let Some(mut s) = systems {
        r.append(&mut s);
    }
    if let Some(mut t) = types {
        r.append(&mut t);
    }
    assert(r@ =~= resolved_ids(characters) + resolved_ids(systems) + resolved_ids(types));
    r
}

/// The id a lookup of one name stands for: the last one resolved (an item
/// type before a system, a system before a character), or nothing.
pub fn pick_resolved(mut resolved: Vec<ResolvedId>) -> (r: Option<ResolvedId>)
    ensures
        resolved@.len() == 0 ==> r is None,
        resolved@.len() > 0 ==> r == Some(resolved@.last()),
{
    resolved.pop()
}

/// A lookup of one name stands for an item type before a system and a
/// system before a character: of all the ids resolved, the one picked is the
/// last item type if there is one, else the last system, else the last
/// character.
pub proof fn lemma_pick_prefers_types(
    characters: Seq<ResolvedId>,
    systems: Seq<ResolvedId>,
    types: Seq<ResolvedId>,
)
    requires
        characters.len() + systems.len() + types.len() > 0,
    ensures
        (characters + systems + types).last() == if types.len() > 0 {
            types.last()
        } else if systems.len() > 0 {
            systems.last()
        } else {
            characters.last()
        },
{
    let all = characters + systems + types;
    if types.len() == 0 {
        assert(all =~= characters + systems);
    }
}

/// The ESI API root.
pub open spec fn esi_base() -> Seq<char> {
    "https://esi.evetech.net/latest"@
}

/// `…/universe/ids/`: where names are resolved to ids.
pub fn names_url() -> (url: String)
    ensures
        url@ == esi_base() + "/universe/ids/"@,
{
    let mut url = String::from_str("https://esi.evetech.net/latest");
    url.append("/universe/ids/");
    url
}

/// `…/route/{origin}/{destination}/?flag={flag}`: the route between two
/// systems under a routing preference.
pub fn route_url(origin_id: i64, destination_id: i64, flag: &str) -> (url: String)
    ensures
        url@ == esi_base() + "/route/"@ + signed_decimal(origin_id as int) + "/"@ + signed_decimal(
            destination_id as int,
        ) + "/?flag="@ + flag@,
{
    let mut url = String::from_str("https://esi.evetech.net/latest");
    url.append("/route/");
    push_signed_decimal(&mut url, origin_id);
    url.append("/");
    push_signed_decimal(&mut url, destination_id);
    url.append("/?flag=");
    url.append(flag);
    url
}

/// `…/universe/systems/`: the ids of all systems.
pub fn systems_list_url() -> (url: String)
    ensures
        url@ == esi_base() + "/universe/systems/"@,
{
    let mut url = String::from_str("https://esi.evetech.net/latest");
    url.append("/universe/systems/");
    url
}

/// `…/universe/systems/{id}/`: one system.
pub fn system_url(system_id: i64) -> (url: String)
    ensures
        url@ == esi_base() + "/universe/systems/"@ + signed_decimal(system_id as int) + "/"@,
{
    let mut url = String::from_str("https://esi.evetech.net/latest");
    url.append("/universe/systems/");
    push_signed_decimal(&mut url, system_id);
    url.append("/");
    url
}

/// `…/universe/stargates/{id}/`: one stargate.
pub fn stargate_url(gate_id: i64) -> (url: String)
    ensures
        url@ == esi_base() + "/universe/stargates/"@ + signed_decimal(gate_id as int) + "/"@,
{
    let mut url = String::from_str("https://esi.evetech.net/latest");
    url.append("/universe/stargates/");
    push_signed_decimal(&mut url, gate_id);
    url.append("/");
    url
}

/// `…/markets/{region}/orders/?type_id={type}&order_type=all`: the buy and
/// sell orders of an item type in a region.
pub fn market_orders_url(type_id: i64, region_id: i64) -> (url: String)
    ensures
        url@ == esi_base() + "/markets/"@ + signed_decimal(region_id as int) + "/orders/?type_id="@
            + signed_decimal(type_id as int) + "&order_type=all"@,
{
    let mut url = String::from_str("https://esi.evetech.net/latest");
    url.append("/markets/");
    push_signed_decimal(&mut url, region_id);
    url.append("/orders/?type_id=");
    push_signed_decimal(&mut url, type_id);
    url.append("&order_type=all");
    url
}

/// `…/status/`: the server status.
pub fn status_url() -> (url: String)
    ensures
        url@ == esi_base() + "/status/"@,
{
    let mut url = String::from_str("https://esi.evetech.net/latest");
    url.append("/status/");
    url
}

/// `…/characters/{id}/`: a pilot's public record.
pub fn character_url(character_id: i64) -> (url: String)
    ensures
        url@ == esi_base() + "/characters/"@ + signed_decimal(character_id as int) + "/"@,
{
    let mut url = String::from_str("https://esi.evetech.net/latest");
    url.append("/characters/");
    push_signed_decimal(&mut url, character_id);
    url.append("/");
    url
}

/// `…/corporations/{id}/`: a corporation.
pub fn corporation_url(corporation_id: i64) -> (url: String)
    ensures
        url@ == esi_base() + "/corporations/"@ + signed_decimal(corporation_id as int) + "/"@,
{
    let mut url = String::from_str("https://esi.evetech.net/latest");
    url.append("/corporations/");
    push_signed_decimal(&mut url, corporation_id);
    url.append("/");
    url
}

/// `…/alliances/{id}/`: an alliance.
pub fn alliance_url(alliance_id: i64) -> (url: String)
    ensures
        url@ == esi_base() + "/alliances/"@ + signed_decimal(alliance_id as int) + "/"@,
{
    let mut url = String::from_str("https://esi.evetech.net/latest");
    url.append("/alliances/");
    push_signed_decimal(&mut url, alliance_id);
    url.append("/");
    url
}

} // verus!
