use araponto::fallback::{
    accept_id, heartbeat_begin, heartbeat_end, ws_check, ws_check_at, ws_decide, ws_decide_at,
    HeartbeatReply, WsCheck,
};
use araponto::heartbeat::{
    hb_age, hb_age_at, hb_forget, udp_seen, udp_seen_at, udp_seen_recently, udp_seen_recently_at,
    valid_id, FirstSeen, UdpSeen,
};
use araponto::stats::{snapshot, Counters};
use araponto::switches::Switches;
use araponto::time::{elapsed, Clock, SECOND};
use araponto::ws::{ws_peer_add, WsPeers};
use tokio::sync::mpsc::unbounded_channel;

const ON: Switches = Switches { punch_udp: false, punch_ipv6: false, ws_register: true };

#[test]
fn ids_are_one_to_sixty_four_bytes() {
    assert!(!valid_id(""));
    assert!(valid_id("1"));
    assert!(valid_id(&"x".repeat(64)));
    assert!(!valid_id(&"x".repeat(65)));
    // bytes, not characters
    assert!(valid_id(&"\u{e9}".repeat(32)));
    assert!(!valid_id(&"\u{e9}".repeat(33)));
}

#[test]
fn udp_packets_count_for_two_minutes() {
    let mut seen = UdpSeen::new();
    assert!(!udp_seen_recently_at(&seen, "1", 0));
    udp_seen_at(&mut seen, "1", 5);
    assert!(udp_seen_recently_at(&seen, "1", 5 + 120 * SECOND - 1));
    assert!(!udp_seen_recently_at(&seen, "1", 5 + 120 * SECOND));
    assert!(!udp_seen_recently_at(&seen, "2", 5));
    udp_seen_at(&mut seen, "1", 100 * SECOND);
    assert!(udp_seen_recently_at(&seen, "1", 219 * SECOND));
    udp_seen_at(&mut seen, "", 0);
    assert!(!udp_seen_recently_at(&seen, "", 0));
    let long = "x".repeat(65);
    udp_seen_at(&mut seen, &long, 0);
    assert!(!udp_seen_recently_at(&seen, &long, 0));
}

#[test]
fn packets_of_others_leave_a_seen_id() {
    let mut seen = UdpSeen::new();
    udp_seen_at(&mut seen, "1", 0);
    for i in 2..119u128 {
        udp_seen_at(&mut seen, &format!("{i}"), i * SECOND);
        assert!(udp_seen_recently_at(&seen, "1", i * SECOND));
    }
    assert!(udp_seen_recently_at(&seen, "1", 120 * SECOND - 1));
    assert!(!udp_seen_recently_at(&seen, "1", 120 * SECOND));
}

#[test]
fn udp_packets_by_the_clock() {
    let mut seen = UdpSeen::new();
    assert!(!udp_seen_recently(&seen, "1"));
    udp_seen(&mut seen, "1");
    assert!(udp_seen_recently(&seen, "1"));
}

#[test]
fn age_counts_from_the_first_heartbeat() {
    let mut first = FirstSeen::new();
    assert_eq!(hb_age_at(&mut first, "1", 7), 0);
    assert_eq!(hb_age_at(&mut first, "2", 9), 0);
    assert_eq!(hb_age_at(&mut first, "1", 7 + 15 * SECOND), 15 * SECOND);
    assert_eq!(hb_age_at(&mut first, "1", 7 + 30 * SECOND), 30 * SECOND);
    assert_eq!(hb_age_at(&mut first, "1", 7 + 600 * SECOND - 1), 600 * SECOND - 1);
    // after ten minutes it starts again
    assert_eq!(hb_age_at(&mut first, "1", 7 + 600 * SECOND), 0);
    assert_eq!(hb_age_at(&mut first, "1", 8 + 600 * SECOND), 1);
    assert_eq!(first.len(), 2);
    hb_forget(&mut first, "1");
    assert_eq!(first.len(), 1);
    assert_eq!(hb_age_at(&mut first, "1", 700 * SECOND), 0);
    // a time before the first heartbeat is no age
    assert_eq!(hb_age_at(&mut first, "1", 1), 0);
}

#[test]
fn full_table_of_heartbeats_is_swept_once_a_minute() {
    let mut first = FirstSeen::new();
    for i in 0..100_000u32 {
        assert_eq!(hb_age_at(&mut first, &format!("{i}"), 540 * SECOND + i as u128), 0);
    }
    // full: this one sweeps in vain and is not entered
    assert_eq!(hb_age_at(&mut first, "a", 600 * SECOND), 0);
    assert_eq!(hb_age_at(&mut first, "a", 610 * SECOND), 0);
    assert_eq!(first.len(), 100_000);
    // known ids go on counting
    assert_eq!(hb_age_at(&mut first, "0", 600 * SECOND), 60 * SECOND);
    // ten minutes after the first half came, a sweep makes room
    assert_eq!(hb_age_at(&mut first, "a", 1_140 * SECOND + 49_999), 0);
    assert_eq!(first.len(), 50_001);
    assert_eq!(hb_age_at(&mut first, "a", 1_140 * SECOND + 50_000), 1);
}

#[test]
fn full_table_of_packets_is_swept_once_in_two_minutes() {
    let mut seen = UdpSeen::new();
    for i in 0..200_000u32 {
        udp_seen_at(&mut seen, &format!("{i}"), 60 * SECOND);
    }
    udp_seen_at(&mut seen, "a", 100 * SECOND);
    assert!(!udp_seen_recently_at(&seen, "a", 100 * SECOND));
    // swept in vain
    udp_seen_at(&mut seen, "a", 179 * SECOND);
    assert!(!udp_seen_recently_at(&seen, "a", 179 * SECOND));
    // all are stale, but the last sweep was a second ago
    udp_seen_at(&mut seen, "a", 180 * SECOND);
    assert!(!udp_seen_recently_at(&seen, "a", 180 * SECOND));
    // a known id is renewed all the same
    udp_seen_at(&mut seen, "7", 180 * SECOND);
    assert!(udp_seen_recently_at(&seen, "7", 299 * SECOND));
    udp_seen_at(&mut seen, "a", 299 * SECOND);
    assert!(udp_seen_recently_at(&seen, "a", 299 * SECOND));
}

#[test]
fn age_by_the_clock() {
    let mut first = FirstSeen::new();
    assert_eq!(hb_age(&mut first, "1"), 0);
    let a = hb_age(&mut first, "1");
    let b = hb_age(&mut first, "1");
    assert!(a <= b && b < 3_600 * SECOND);
}

#[test]
fn client_without_udp_is_told_on_the_third_heartbeat() {
    let peers = WsPeers::new();
    let seen = UdpSeen::new();
    let mut first = FirstSeen::new();
    let start = 60 * SECOND;
    for (t, told) in [(3u128, false), (18, false), (33, true), (48, true)] {
        let now = start + t * SECOND;
        assert_eq!(
            ws_check_at(&ON, now, &peers, &seen, now, &mut first, "1"),
            WsCheck::LookUp
        );
        assert_eq!(ws_decide_at(&mut first, "1", None, now), told);
    }
}

#[test]
fn no_one_is_told_in_the_grace_or_with_the_switch_off() {
    let peers = WsPeers::new();
    let seen = UdpSeen::new();
    let mut first = FirstSeen::new();
    hb_age_at(&mut first, "1", 0);
    let before = 60 * SECOND - 1;
    assert_eq!(ws_check_at(&ON, before, &peers, &seen, 0, &mut first, "1"), WsCheck::Stay);
    let off = Switches::off();
    assert_eq!(
        ws_check_at(&off, 60 * SECOND, &peers, &seen, 0, &mut first, "1"),
        WsCheck::Stay
    );
    // nothing was forgotten
    assert_eq!(first.len(), 1);
    assert_eq!(
        ws_check_at(&ON, 60 * SECOND, &peers, &seen, 0, &mut first, "1"),
        WsCheck::LookUp
    );
}

#[test]
fn reachable_client_starts_again() {
    let mut peers = WsPeers::new();
    let mut seen = UdpSeen::new();
    let mut first = FirstSeen::new();
    let up = 1_000 * SECOND;
    hb_age_at(&mut first, "1", 0);
    hb_age_at(&mut first, "2", 0);
    hb_age_at(&mut first, "3", 0);
    udp_seen_at(&mut seen, "1", 0);
    assert_eq!(ws_check_at(&ON, up, &peers, &seen, SECOND, &mut first, "1"), WsCheck::Stay);
    let (tx, _rx) = unbounded_channel();
    ws_peer_add(&mut peers, "2", tx);
    assert_eq!(ws_check_at(&ON, up, &peers, &seen, SECOND, &mut first, "2"), WsCheck::Stay);
    assert_eq!(first.len(), 1);
    // registered less than half a minute ago
    assert!(!ws_decide_at(&mut first, "3", Some(30 * SECOND - 1), 100 * SECOND));
    assert_eq!(first.len(), 0);
    assert!(!ws_decide_at(&mut first, "3", Some(30 * SECOND), 100 * SECOND));
    assert!(ws_decide_at(&mut first, "3", Some(30 * SECOND), 130 * SECOND));
}

#[test]
fn check_by_the_clock() {
    let peers = WsPeers::new();
    let seen = UdpSeen::new();
    let mut first = FirstSeen::new();
    let started = Clock::start();
    // a server that has just started tells no one
    assert_eq!(ws_check(&ON, &started, &peers, &seen, &mut first, "1"), WsCheck::Stay);
    assert!(!ws_decide(&mut first, "1", None));
    assert_eq!(first.len(), 1);
}

#[test]
fn heartbeat_gives_its_id() {
    let mut c = Counters::new();
    let id = |c: &mut Counters, body: &str| heartbeat_begin(c, body.as_bytes());
    assert_eq!(id(&mut c, "{\"id\":\"123456789\",\"v\":1}"), Some("123456789".to_string()));
    assert_eq!(id(&mut c, "{\"id\":\"\\u00e9\"}"), Some("\u{e9}".to_string()));
    assert_eq!(id(&mut c, "{\"id\":\"\"}"), None);
    assert_eq!(id(&mut c, "{\"id\":5}"), None);
    assert_eq!(id(&mut c, "{\"other\":\"1\"}"), None);
    assert_eq!(id(&mut c, "[\"id\"]"), None);
    assert_eq!(id(&mut c, "not json"), None);
    assert_eq!(id(&mut c, ""), None);
    let long = format!("{{\"id\":\"{}\"}}", "x".repeat(65));
    assert_eq!(id(&mut c, &long), None);
    assert_eq!(snapshot(&c)[15], 9);
}

#[test]
fn id_is_accepted_if_valid() {
    assert_eq!(accept_id(None), None);
    assert_eq!(accept_id(Some("".to_string())), None);
    assert_eq!(accept_id(Some("a".to_string())), Some("a".to_string()));
}

#[test]
fn reply_pushes_the_fallback_and_counts_it() {
    let mut c = Counters::new();
    assert_eq!(heartbeat_end(&mut c, false), HeartbeatReply::Empty);
    assert_eq!(snapshot(&c)[16], 0);
    assert_eq!(heartbeat_end(&mut c, true), HeartbeatReply::AllowWebSocket);
    assert_eq!(snapshot(&c)[16], 1);
}

#[test]
fn time_between_two_moments() {
    assert_eq!(elapsed(10, 4), 6);
    assert_eq!(elapsed(4, 10), 0);
    let clock = Clock::start();
    assert!(clock.read() <= clock.read());
}

#[test]
fn others_that_become_reachable_do_not_change_who_is_told() {
    let peers = WsPeers::new();
    let mut seen = UdpSeen::new();
    let mut first = FirstSeen::new();
    let up = 60 * SECOND;
    assert!(!ws_decide_at(&mut first, "1", None, up));
    for i in 2..30u128 {
        let (id, now) = (format!("{i}"), up + i * SECOND);
        assert!(!ws_decide_at(&mut first, &id, None, now));
        udp_seen_at(&mut seen, &id, now);
        assert_eq!(ws_check_at(&ON, now, &peers, &seen, now, &mut first, &id), WsCheck::Stay);
        assert!(!ws_decide_at(&mut first, "1", None, now));
        assert_eq!(first.len(), 1);
    }
    assert!(ws_decide_at(&mut first, "1", None, up + 30 * SECOND));
}
