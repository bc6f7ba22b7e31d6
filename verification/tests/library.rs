use neocom::cli::{completion_shell, unsupported_shell_message, PriceArgs, RouteFlag, ShellKind, WhArgs, WhType};
use neocom::commands::intel::{threat_note, threat_score};
use neocom::commands::price::{parse_price_list, plan, PriceError, PricePlan};
use neocom::commands::system::{is_notorious, kills_in_window};
use neocom::commands::travel::{
    count_hot, danger_bar, gate_detail, gate_place, insecure_route_message, route_allowed, route_flag_param, summarize_hop,
    total_gate_kills, worst_gate,
};
use neocom::commands::wh::{class_of, run, sheet_for, WhError};
use neocom::display::{danger_label, threat_label};
use neocom::esi::{
    alliance_url, character_url, corporation_url, market_orders_url, merge_resolved, names_url, pick_resolved,
    route_url, stargate_url, status_url, system_url, systems_list_url, ResolvedId,
};
use neocom::systems::{
    cache_expiry, collect_system_entries, http_date_to_timestamp, SystemCache, SystemEntry, CACHE_TTL_SECS,
};
use neocom::text::{parse_i64, push_signed_decimal};
use neocom::zkill::{
    character_stats_url, count_gate_kills, gate_kill_sources, past_seconds, system_kills_all_url,
    system_kills_from_reply, system_kills_hours_url, system_kills_url, GateKill, SystemKills,
};

fn entry(id: i64, name: &str) -> SystemEntry {
    SystemEntry { id, name: name.to_string() }
}

fn gate(gate_id: i64, kill_count: i64) -> GateKill {
    GateKill { gate_id, kill_count }
}

// ---------------------------------------------------------------- labels

#[test]
fn danger_label_thresholds() {
    assert_eq!(danger_label(0), "clear");
    assert_eq!(danger_label(1), "moderate");
    assert_eq!(danger_label(4), "moderate");
    assert_eq!(danger_label(5), "dangerous");
    assert_eq!(danger_label(15), "dangerous");
    assert_eq!(danger_label(16), "very dangerous");
    assert_eq!(danger_label(u32::MAX), "very dangerous");
}

#[test]
fn threat_label_per_score() {
    assert_eq!(threat_label(0), "probably fine");
    assert_eq!(threat_label(1), "caution");
    assert_eq!(threat_label(2), "dangerous");
    assert_eq!(threat_label(3), "THREAT: HIGH");
    assert_eq!(threat_label(4), "no data");
    assert_eq!(threat_label(255), "no data");
}

#[test]
fn threat_score_levels() {
    assert_eq!(threat_score(20, 10), 3);
    assert_eq!(threat_score(20, 0), 3);
    assert_eq!(threat_score(25, 13), 2);
    assert_eq!(threat_score(19, 1), 2);
    assert_eq!(threat_score(10, 10), 2);
    assert_eq!(threat_score(10, 11), 1);
    assert_eq!(threat_score(5, 100), 1);
    assert_eq!(threat_score(4, 0), 0);
    assert_eq!(threat_score(0, 0), 0);
    assert_eq!(threat_score(i64::MAX, i64::MAX), 2);
    assert_eq!(threat_score(-5, -1), 0);
}

#[test]
fn threat_never_drops_with_more_kills() {
    for losses in [0i64, 1, 5, 10, 20] {
        let mut last = 0u8;
        for kills in 0i64..60 {
            let t = threat_score(kills, losses);
            assert!(t >= last);
            last = t;
        }
    }
}

#[test]
fn threat_remark() {
    assert_eq!(threat_note(0), "");
    assert_eq!(threat_note(1), "");
    assert_eq!(threat_note(2), "- experienced hunter");
    assert_eq!(threat_note(3), "- experienced hunter");
}

// ---------------------------------------------------------------- wormholes

#[test]
fn wh_class_is_case_insensitive() {
    let lines = run(WhArgs { class: "C3".to_string(), wh_type: WhType::All }).ok().unwrap();
    assert_eq!(lines[0], "Class 3 Wormhole Sites");
    assert_eq!(lines[1], "=".repeat(50));
    assert_eq!(lines[2], "COMBAT ANOMALIES");
    assert_eq!(lines[lines.len() - 1], "STATICS: → Lowsec, → C1");
}

#[test]
fn wh_every_class_has_a_sheet() {
    for k in 1..=6 {
        let lines = run(WhArgs { class: format!("c{}", k), wh_type: WhType::Gas }).ok().unwrap();
        assert_eq!(lines[0], format!("Class {} Wormhole Sites", k));
        assert!(lines.iter().any(|l| l.starts_with("STATICS: ")));
    }
    assert_eq!(sheet_for("c1").unwrap().len(), 11);
    assert_eq!(sheet_for("c2").unwrap().len(), 15);
    assert_eq!(sheet_for("c3").unwrap().len(), 17);
}

#[test]
fn wh_unknown_class() {
    match run(WhArgs { class: "C7".to_string(), wh_type: WhType::All }) {
        Err(WhError::UnknownClass(c)) => assert_eq!(c, "c7"),
        Ok(_) => panic!("c7 is no class"),
    }
    let e = run(WhArgs { class: "High".to_string(), wh_type: WhType::All }).err().unwrap();
    assert_eq!(e.message(), "Unknown wormhole class: high. Use c1-c6.");
    assert_eq!(class_of("c0"), None);
    assert_eq!(class_of("c"), None);
    assert_eq!(class_of("c12"), None);
    assert_eq!(class_of("c6"), Some(6));
}

// ---------------------------------------------------------------- shells

#[test]
fn completion_shells() {
    assert_eq!(completion_shell("bash"), Some(ShellKind::Bash));
    assert_eq!(completion_shell("zsh"), Some(ShellKind::Zsh));
    assert_eq!(completion_shell("fish"), Some(ShellKind::Fish));
    assert_eq!(completion_shell("powershell"), Some(ShellKind::PowerShell));
    assert_eq!(completion_shell("elvish"), Some(ShellKind::Elvish));
    assert_eq!(completion_shell("Bash"), None);
    assert_eq!(completion_shell("tcsh"), None);
    assert_eq!(
        unsupported_shell_message("tcsh"),
        "Unsupported shell: tcsh. Use bash, zsh, fish, powershell, or elvish"
    );
}

// ---------------------------------------------------------------- system cache

#[test]
fn completions_filter_and_sort_by_lowercase() {
    let cache = SystemCache::from_parts(
        vec![entry(1, "Jita"), entry(2, "amarr"), entry(3, "Jatate"), entry(4, "JITA"), entry(5, "Rancer")],
        0,
        10,
    );
    assert_eq!(cache.get_completions("ji"), vec!["Jita".to_string(), "JITA".to_string()]);
    assert_eq!(cache.get_completions("J"), vec!["Jatate".to_string(), "Jita".to_string(), "JITA".to_string()]);
    assert_eq!(cache.get_completions(""), vec!["amarr", "Jatate", "Jita", "JITA", "Rancer"]);
    assert!(cache.get_completions("x").is_empty());
}

#[test]
fn fetched_entries_sorted_by_name() {
    let sorted = collect_system_entries(vec![Some(entry(3, "Urlen")), None, Some(entry(1, "ahbazon")), Some(entry(2, "Perimeter"))]);
    let names: Vec<&str> = sorted.iter().map(|e| e.name.as_str()).collect();
    assert_eq!(names, vec!["ahbazon", "Perimeter", "Urlen"]);
    assert_eq!(sorted[0].id, 1);
    assert!(collect_system_entries(vec![None, None]).is_empty());
}

#[test]
fn cache_expiry_and_freshness() {
    assert_eq!(CACHE_TTL_SECS, 86400);
    assert_eq!(cache_expiry(0, 1000), Some(87400));
    assert_eq!(cache_expiry(100000, 1000), Some(100000));
    assert_eq!(cache_expiry(5, u64::MAX - 10), None);
    assert_eq!(http_date_to_timestamp("Tue, 01 Jan 2030 00:00:00 GMT", 50), Some(86450));
    assert_eq!(http_date_to_timestamp("", u64::MAX), None);
    let cache = SystemCache::fetched(vec![entry(1, "Jita")], 1000, 0).unwrap();
    assert_eq!(cache.expires_at(), 87400);
    assert_eq!(cache.cached_at(), 1000);
    assert!(cache.is_fresh(1000));
    assert!(cache.is_fresh(87399));
    assert!(!cache.is_fresh(87400));
    assert_eq!(cache.systems().len(), 1);
}

// ---------------------------------------------------------------- zkillboard

#[test]
fn gate_kills_counted_per_gate() {
    let locations = vec![Some(50), None, Some(60), Some(50), Some(70), Some(50)];
    let kills = count_gate_kills(&locations, &vec![50, 60, 80]);
    assert_eq!(kills.len(), 3);
    assert_eq!((kills[0].gate_id, kills[0].kill_count), (50, 3));
    assert_eq!((kills[1].gate_id, kills[1].kill_count), (60, 1));
    assert_eq!((kills[2].gate_id, kills[2].kill_count), (80, 0));
    assert!(count_gate_kills(&locations, &vec![]).is_empty());
}

#[test]
fn kill_reply_kinds() {
    assert_eq!(system_kills_from_reply(Some(SystemKills { kill_count: Some(7) }), Some(3)).kill_count, Some(7));
    assert_eq!(system_kills_from_reply(Some(SystemKills { kill_count: None }), Some(3)).kill_count, Some(3));
    assert_eq!(system_kills_from_reply(None, Some(0)).kill_count, Some(0));
    assert_eq!(system_kills_from_reply(None, None).kill_count, Some(0));
}

#[test]
fn zkill_windows_and_urls() {
    assert_eq!(past_seconds(1), Some(3600));
    assert_eq!(past_seconds(24), Some(86400));
    assert_eq!(past_seconds(1193046), Some(4294965600));
    assert_eq!(past_seconds(1193047), None);
    assert_eq!(system_kills_url(30000142, 3600), "https://zkillboard.com/api/kills/solarSystemID/30000142/pastSeconds/3600/");
    assert_eq!(system_kills_hours_url(30000142, 24), "https://zkillboard.com/api/kills/solarSystemID/30000142/?hours=24");
    assert_eq!(system_kills_all_url(-5), "https://zkillboard.com/api/kills/solarSystemID/-5/");
    assert_eq!(character_stats_url(0), "https://zkillboard.com/api/stats/characterID/0/");
    let sources = gate_kill_sources(30002187, 2).unwrap();
    assert_eq!(sources, vec![
        "https://zkillboard.com/api/kills/solarSystemID/30002187/pastSeconds/7200/".to_string(),
        "https://zkillboard.com/api/kills/solarSystemID/30002187/?hours=2".to_string(),
        "https://zkillboard.com/api/kills/solarSystemID/30002187/".to_string(),
    ]);
    assert!(gate_kill_sources(1, u32::MAX).is_none());
}

// ---------------------------------------------------------------- esi

#[test]
fn esi_urls() {
    assert_eq!(names_url(), "https://esi.evetech.net/latest/universe/ids/");
    assert_eq!(route_url(30000142, 30002187, "secure"), "https://esi.evetech.net/latest/route/30000142/30002187/?flag=secure");
    assert_eq!(systems_list_url(), "https://esi.evetech.net/latest/universe/systems/");
    assert_eq!(system_url(30000142), "https://esi.evetech.net/latest/universe/systems/30000142/");
    assert_eq!(stargate_url(50001248), "https://esi.evetech.net/latest/universe/stargates/50001248/");
    assert_eq!(
        market_orders_url(34, 10000002),
        "https://esi.evetech.net/latest/markets/10000002/orders/?type_id=34&order_type=all"
    );
    assert_eq!(status_url(), "https://esi.evetech.net/latest/status/");
    assert_eq!(character_url(i64::MIN), "https://esi.evetech.net/latest/characters/-9223372036854775808/");
    assert_eq!(corporation_url(98000001), "https://esi.evetech.net/latest/corporations/98000001/");
    assert_eq!(alliance_url(i64::MAX), "https://esi.evetech.net/latest/alliances/9223372036854775807/");
}

#[test]
fn resolved_names_merge_and_pick_last() {
    let r = |id: i64, name: &str| ResolvedId { id, name: name.to_string() };
    let all = merge_resolved(Some(vec![r(1, "a")]), None, Some(vec![r(3, "c"), r(4, "d")]));
    let ids: Vec<i64> = all.iter().map(|x| x.id).collect();
    assert_eq!(ids, vec![1, 3, 4]);
    assert_eq!(pick_resolved(all).map(|x| x.id), Some(4));
    assert!(pick_resolved(merge_resolved(None, None, None)).is_none());
    let both = merge_resolved(Some(vec![r(7, "Jita")]), Some(vec![r(30000142, "Jita")]), None);
    assert_eq!(pick_resolved(both).unwrap().id, 30000142);
}

// ---------------------------------------------------------------- travel

#[test]
fn route_flags() {
    assert_eq!(route_flag_param(RouteFlag::Shortest), "shortest");
    assert_eq!(route_flag_param(RouteFlag::Safest), "secure");
    assert_eq!(route_flag_param(RouteFlag::Secure), "secure");
    assert_eq!(route_flag_param(RouteFlag::Insecure), "insecure");
    assert_eq!(RouteFlag::default(), RouteFlag::Shortest);
    assert_eq!(WhType::default(), WhType::All);
}

#[test]
fn danger_bars() {
    assert_eq!(danger_bar(0), "░░░░░░░░░░");
    assert_eq!(danger_bar(1), "░░░░░░░░░░");
    assert_eq!(danger_bar(5), "██░░░░░░░░");
    assert_eq!(danger_bar(19), "█████████░");
    assert_eq!(danger_bar(20), "██████████");
    assert_eq!(danger_bar(u32::MAX), "██████████");
    for t in 0u32..100 {
        assert_eq!(danger_bar(t).chars().count(), 10);
    }
}

#[test]
fn hop_summaries() {
    let gates = vec![gate(1, 2), gate(2, 4), gate(3, 4), gate(4, 0)];
    assert_eq!(total_gate_kills(&gates), Some(10));
    assert_eq!(worst_gate(&gates), Some(2));
    let h = summarize_hop(&gates).unwrap();
    assert_eq!(h.total_kills, 10);
    assert!(h.hot);
    assert_eq!(h.bar, "█████░░░░░");
    assert_eq!(h.worst_gate, Some(2));

    let quiet = summarize_hop(&vec![gate(1, 0), gate(2, 0)]).unwrap();
    assert_eq!(quiet.total_kills, 0);
    assert!(!quiet.hot);
    assert_eq!(quiet.worst_gate, None);

    let none = summarize_hop(&vec![]).unwrap();
    assert_eq!(none.total_kills, 0);
    assert_eq!(worst_gate(&vec![]), None);

    let four = summarize_hop(&vec![gate(9, 4)]).unwrap();
    assert!(!four.hot);
    assert_eq!(four.worst_gate, Some(0));

    assert_eq!(total_gate_kills(&vec![gate(1, 4_000_000_000), gate(2, 400_000_000)]), None);
    assert!(summarize_hop(&vec![gate(1, 4_000_000_000), gate(2, 400_000_000)]).is_none());
    assert_eq!(total_gate_kills(&vec![gate(1, 1 << 32), gate(2, 3)]), Some(3));
}

#[test]
fn gate_places_and_details() {
    assert_eq!(gate_place("Stargate (Perimeter)", None), "Perimeter");
    assert_eq!(gate_place("Stargate (1NZV-7)", None), "1NZV-7");
    assert_eq!(gate_place("Stargate (Perimeter)", Some("New Caldari".to_string())), "New Caldari");
    assert_eq!(gate_place("Odd gate", None), "Odd gate");
    assert_eq!(gate_place("Stargate (", None), "Stargate (");
    assert_eq!(gate_place("Stargate ()", None), "");
    assert_eq!(gate_place("Stargate (Jita", None), "Stargate (Jita");
    assert_eq!(gate_detail(1, Some("Jita".to_string())), "1 kill at Jita gate");
    assert_eq!(gate_detail(3, Some("Jita".to_string())), "3 kills at Jita gate");
    assert_eq!(gate_detail(2, None), "2 kills at gate");
}

// ---------------------------------------------------------------- price

#[test]
fn price_list_lines() {
    let content = "# my list\nTritanium\t10000\r\n\n  Pyerite \t 500 \nNo tab here\nMexallon\tlots\nIsogen\t7\textra\n\tEmpty name\t3\nZydrine\t+12";
    let items = parse_price_list(content);
    let got: Vec<(String, u32)> = items.iter().map(|i| (i.name.clone(), i.quantity)).collect();
    assert_eq!(got, vec![
        ("Tritanium".to_string(), 10000),
        ("Pyerite ".to_string(), 500),
        ("Mexallon".to_string(), 1),
        ("Isogen".to_string(), 7),
        ("Empty name".to_string(), 3),
        ("Zydrine".to_string(), 12),
    ]);
    assert!(parse_price_list("").is_empty());
    assert!(parse_price_list("\n\n# only\n").is_empty());
    assert_eq!(parse_price_list("A\t99999999999").iter().map(|i| i.quantity).collect::<Vec<_>>(), vec![1]);
    assert_eq!(parse_price_list("A\t-1").iter().map(|i| i.quantity).collect::<Vec<_>>(), vec![1]);
    assert_eq!(parse_price_list("A\t4294967295")[0].quantity, 4294967295);
}

fn price_args(item: Option<&str>, quantity: Option<u32>, file: Option<&str>, region: &str) -> PriceArgs {
    PriceArgs {
        item: item.map(|s| s.to_string()),
        quantity,
        file: file.map(|s| s.to_string()),
        buy: false,
        sell: true,
        region: region.to_string(),
    }
}

#[test]
fn price_plans() {
    match plan(price_args(Some("Tritanium"), None, None, "10000002")) {
        Ok(PricePlan::Single { item, quantity, region_id, show_sell, show_buy }) => {
            assert_eq!(item, "Tritanium");
            assert_eq!(quantity, 1);
            assert_eq!(region_id, 10000002);
            assert!(show_sell);
            assert!(!show_buy);
        },
        _ => panic!("expected a single item"),
    }
    match plan(price_args(Some("Tritanium"), Some(5), Some("items.tsv"), "10000043")) {
        Ok(PricePlan::List { path, region_id }) => {
            assert_eq!(path, "items.tsv");
            assert_eq!(region_id, 10000043);
        },
        _ => panic!("expected a list"),
    }
    assert!(matches!(plan(price_args(None, None, None, "10000002")), Err(PriceError::ItemRequired)));
    assert!(matches!(plan(price_args(Some("x"), None, None, "The Forge")), Err(PriceError::InvalidRegion)));
    assert!(matches!(plan(price_args(None, None, None, "")), Err(PriceError::InvalidRegion)));
    assert_eq!(PriceError::InvalidRegion.message(), "Invalid region ID");
    assert_eq!(PriceError::ItemRequired.message(), "Item name required");
}

#[test]
fn region_ids_read_as_i64() {
    assert_eq!(parse_i64("10000002"), Some(10000002));
    assert_eq!(parse_i64("+7"), Some(7));
    assert_eq!(parse_i64("-7"), Some(-7));
    assert_eq!(parse_i64("-9223372036854775808"), Some(i64::MIN));
    assert_eq!(parse_i64("9223372036854775807"), Some(i64::MAX));
    assert_eq!(parse_i64("9223372036854775808"), None);
    assert_eq!(parse_i64(""), None);
    assert_eq!(parse_i64("-"), None);
    assert_eq!(parse_i64("+"), None);
    assert_eq!(parse_i64(" 1"), None);
    assert_eq!(parse_i64("1_000"), None);
    assert_eq!(parse_i64("+-1"), None);
}

#[test]
fn decimal_text_reads_back() {
    for x in [0i64, 1, -1, 9, 10, -10, 12345, i64::MIN, i64::MAX] {
        let mut s = String::new();
        push_signed_decimal(&mut s, x);
        assert_eq!(s, x.to_string());
        assert_eq!(parse_i64(&s), Some(x));
    }
}

// ---------------------------------------------------------------- system

#[test]
fn system_window_kills() {
    assert_eq!(kills_in_window(Some(SystemKills { kill_count: Some(12) })), 12);
    assert_eq!(kills_in_window(Some(SystemKills { kill_count: None })), 0);
    assert_eq!(kills_in_window(None), 0);
    assert_eq!(kills_in_window(Some(SystemKills { kill_count: Some(-1) })), u32::MAX);
}

#[test]
fn notorious_systems() {
    assert!(is_notorious("Jita"));
    assert!(is_notorious("jita"));
    assert!(is_notorious("OULLEY"));
    assert!(is_notorious("perimeter"));
    assert!(!is_notorious("Jitaa"));
    assert!(!is_notorious("Amarr"));
    assert!(!is_notorious(""));
}

#[test]
fn more_kills_never_milder_label() {
    let severity = |label: &str| match label {
        "clear" => 0,
        "moderate" => 1,
        "dangerous" => 2,
        _ => 3,
    };
    let mut previous = severity(danger_label(0));
    for kills in 1..40u32 {
        let now = severity(danger_label(kills));
        assert!(now >= previous, "label eased at {} kills", kills);
        previous = now;
    }
    assert_eq!(severity(danger_label(u32::MAX)), 3);
}

#[test]
fn hot_exactly_when_label_is_dangerous() {
    for kills in [0i64, 1, 4, 5, 6, 15, 16, 30] {
        let summary = summarize_hop(&vec![gate(1, kills)]).unwrap();
        let label = danger_label(summary.total_kills);
        assert_eq!(summary.hot, label == "dangerous" || label == "very dangerous", "at {} kills", kills);
    }
}

#[test]
fn danger_bar_width_and_growth() {
    let mut previous = 0;
    for kills in [0u32, 1, 2, 3, 7, 19, 20, 21, 1000, u32::MAX] {
        let bar = danger_bar(kills);
        assert_eq!(bar.chars().count(), 10);
        let filled = bar.chars().filter(|c| *c == '\u{2588}').count();
        assert!(filled >= previous);
        previous = filled;
    }
    assert_eq!(previous, 10);
}

#[test]
fn each_kill_counted_at_one_gate_at_most() {
    let locations = vec![Some(7), Some(8), None, Some(7), Some(99), Some(8), Some(7)];
    let counts = count_gate_kills(&locations, &vec![7, 8, 99, 5]);
    let total: i64 = counts.iter().map(|g| g.kill_count).sum();
    assert_eq!(total, 6);
    assert!(total <= locations.len() as i64);
    // A gate listed twice has its kills counted twice.
    let twice = count_gate_kills(&locations, &vec![7, 7, 8, 99]);
    let total_twice: i64 = twice.iter().map(|g| g.kill_count).sum();
    assert_eq!(total_twice, 9);
}

// ------------------------------------------------- commands run as given

#[test]
fn test_wh_c3() {
    // `neocom wh c3` succeeds.
    assert!(run(WhArgs { class: "c3".to_string(), wh_type: WhType::default() }).is_ok());
}

#[test]
fn test_wh_classes() {
    for class in &["c1", "c2", "c3", "c4", "c5", "c6"] {
        let r = run(WhArgs { class: class.to_string(), wh_type: WhType::default() });
        assert!(r.is_ok(), "wh {} failed", class);
    }
}

#[test]
fn test_price_no_args_fails() {
    // `neocom price` with no item and no file fails (the region has its default).
    let args = PriceArgs {
        item: None,
        quantity: None,
        file: None,
        buy: false,
        sell: false,
        region: "10000002".to_string(),
    };
    assert!(plan(args).is_err());
}

#[test]
fn secure_routes_stay_in_high_sec() {
    let all_high = vec![true, true, true];
    let dips = vec![true, false, true];
    assert!(route_allowed(RouteFlag::Secure, &all_high));
    assert!(!route_allowed(RouteFlag::Secure, &dips));
    assert!(route_allowed(RouteFlag::Secure, &vec![]));
    assert!(route_allowed(RouteFlag::Safest, &dips));
    assert!(route_allowed(RouteFlag::Shortest, &dips));
    assert!(route_allowed(RouteFlag::Insecure, &dips));
    assert_eq!(insecure_route_message("Jita", "Tama"), "No high-sec only route from Jita to Tama");
}

#[test]
fn arrival_order_does_not_matter_for_distinct_names() {
    let ids_names = |v: Vec<SystemEntry>| v.into_iter().map(|e| (e.id, e.name)).collect::<Vec<_>>();
    let a = collect_system_entries(vec![Some(entry(3, "Urlen")), None, Some(entry(1, "ahbazon")), Some(entry(2, "Perimeter"))]);
    let b = collect_system_entries(vec![Some(entry(2, "Perimeter")), Some(entry(3, "Urlen")), Some(entry(1, "ahbazon")), None]);
    assert_eq!(ids_names(a), ids_names(b));
    // Names equal up to case keep their arrival order, so there the order shows.
    let c = collect_system_entries(vec![Some(entry(1, "Jita")), Some(entry(2, "JITA"))]);
    let d = collect_system_entries(vec![Some(entry(2, "JITA")), Some(entry(1, "Jita"))]);
    assert_eq!(c[0].id, 1);
    assert_eq!(d[0].id, 2);
}

#[test]
fn longer_prefix_narrows_completions() {
    let cache = SystemCache::from_parts(
        vec![entry(1, "Jita"), entry(2, "amarr"), entry(3, "JITA"), entry(4, "Jatate"), entry(5, "Rancer")],
        0,
        1,
    );
    for (short, long) in [("", "j"), ("J", "ji"), ("j", "JIT"), ("", "x"), ("a", "am")] {
        let narrowed: Vec<String> = cache
            .get_completions(short)
            .into_iter()
            .filter(|n| n.to_lowercase().starts_with(&long.to_lowercase()))
            .collect();
        assert_eq!(cache.get_completions(long), narrowed, "{} then {}", short, long);
    }
}

#[test]
fn hot_systems_counted() {
    assert_eq!(count_hot(&vec![0, 4, 5, 16, 3, 5]), 3);
    assert_eq!(count_hot(&vec![]), 0);
    assert_eq!(count_hot(&vec![4, 4]), 0);
}

#[test]
fn large_lists_sort_like_a_stable_sort() {
    let mut arrivals = Vec::new();
    let mut seed: u64 = 12345;
    for id in 0..500i64 {
        seed = seed.wrapping_mul(6364136223846793005).wrapping_add(1442695040888963407);
        let letter = (b'a' + ((seed >> 33) % 6) as u8) as char;
        let upper = (seed >> 40) % 2 == 0;
        let name = format!("{}{}", if upper { letter.to_ascii_uppercase() } else { letter }, (seed >> 50) % 3);
        arrivals.push(if (seed >> 20) % 7 == 0 { None } else { Some(entry(id, &name)) });
    }
    let mut expected: Vec<(i64, String)> =
        arrivals.iter().flatten().map(|e| (e.id, e.name.clone())).collect();
    expected.sort_by(|a, b| a.1.to_lowercase().cmp(&b.1.to_lowercase()));
    let sorted: Vec<(i64, String)> =
        collect_system_entries(arrivals).into_iter().map(|e| (e.id, e.name)).collect();
    assert_eq!(sorted, expected);
}
