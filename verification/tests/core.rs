//! Tests for address parsing and rendering, text helpers, configuration
//! defaults, the history ledger, and message composition.

use ipwatcher::addr::{parse_address, parse_v4, parse_v6, render_address, Address};
use ipwatcher::config::{default_port, default_server};
use ipwatcher::history::{now_text, History};
use ipwatcher::notify::{email_body, subject_line};
use ipwatcher::text::{strip_spaces, trim};

fn v4(a: u8, b: u8, c: u8, d: u8) -> Address {
    Address::V4 { a, b, c, d }
}

#[test]
fn parse_v4_reads_dotted_quad() {
    assert_eq!(parse_v4("203.0.113.5"), Some(v4(203, 0, 113, 5)));
    assert_eq!(parse_v4("0.0.0.0"), Some(v4(0, 0, 0, 0)));
    assert_eq!(parse_v4("255.255.255.255"), Some(v4(255, 255, 255, 255)));
}

#[test]
fn parse_v4_rejects_bad_texts() {
    assert_eq!(parse_v4(""), None);
    assert_eq!(parse_v4("1.2.3"), None);
    assert_eq!(parse_v4("1.2.3.4.5"), None);
    assert_eq!(parse_v4("256.0.0.1"), None);
    assert_eq!(parse_v4("01.2.3.4"), None);
    assert_eq!(parse_v4("1..3.4"), None);
    assert_eq!(parse_v4("1.2.3.4 "), None);
    assert_eq!(parse_v4("a.b.c.d"), None);
    assert_eq!(parse_v4("1.2.3.-4"), None);
}

#[test]
fn parse_v6_reads_eight_groups() {
    assert_eq!(
        parse_v6("2001:db8:0:0:0:0:0:1"),
        Some(Address::V6 {
            g0: 0x2001,
            g1: 0xdb8,
            g2: 0,
            g3: 0,
            g4: 0,
            g5: 0,
            g6: 0,
            g7: 1
        })
    );
    assert_eq!(
        parse_v6("FFFF:ffff:ffff:ffff:ffff:ffff:ffff:ffff"),
        Some(Address::V6 {
            g0: 0xffff,
            g1: 0xffff,
            g2: 0xffff,
            g3: 0xffff,
            g4: 0xffff,
            g5: 0xffff,
            g6: 0xffff,
            g7: 0xffff
        })
    );
}

fn v6(g: [u16; 8]) -> Address {
    Address::V6 { g0: g[0], g1: g[1], g2: g[2], g3: g[3], g4: g[4], g5: g[5], g6: g[6], g7: g[7] }
}

#[test]
fn parse_v6_reads_compressed_forms() {
    assert_eq!(parse_v6("::1"), Some(v6([0, 0, 0, 0, 0, 0, 0, 1])));
    assert_eq!(parse_v6("::"), Some(v6([0; 8])));
    assert_eq!(parse_v6("2001:db8::1"), Some(v6([0x2001, 0xdb8, 0, 0, 0, 0, 0, 1])));
    assert_eq!(parse_v6("fe80::"), Some(v6([0xfe80, 0, 0, 0, 0, 0, 0, 0])));
    assert_eq!(parse_v6("1:2:3:4:5:6:7::"), Some(v6([1, 2, 3, 4, 5, 6, 7, 0])));
    assert_eq!(parse_v6("::1:2:3:4:5:6:7"), Some(v6([0, 1, 2, 3, 4, 5, 6, 7])));
    assert_eq!(parse_v6("a::b:c"), Some(v6([0xa, 0, 0, 0, 0, 0, 0xb, 0xc])));
}

#[test]
fn parse_v6_rejects_bad_texts() {
    assert_eq!(parse_v6("1:2:3:4:5:6:7"), None);
    assert_eq!(parse_v6("1:2:3:4:5:6:7:8:9"), None);
    assert_eq!(parse_v6("12345:2:3:4:5:6:7:8"), None);
    assert_eq!(parse_v6("g:2:3:4:5:6:7:8"), None);
    assert_eq!(parse_v6(":"), None);
    assert_eq!(parse_v6(":::"), None);
    assert_eq!(parse_v6(":1:2:3:4:5:6:7"), None);
    assert_eq!(parse_v6("1::2::3"), None);
    assert_eq!(parse_v6("1::2:3:4:5:6:7:8"), None);
    assert_eq!(parse_v6("::1:2:3:4:5:6:7:8"), None);
}

#[test]
fn parse_address_reads_both_families() {
    assert_eq!(parse_address("198.51.100.9"), Some(v4(198, 51, 100, 9)));
    assert_eq!(
        parse_address("fe80:0:0:0:0:0:0:1"),
        Some(Address::V6 {
            g0: 0xfe80,
            g1: 0,
            g2: 0,
            g3: 0,
            g4: 0,
            g5: 0,
            g6: 0,
            g7: 1
        })
    );
    assert_eq!(parse_address("not an address"), None);
}

#[test]
fn render_writes_canonical_text() {
    assert_eq!(render_address(&v4(203, 0, 113, 5)), "203.0.113.5");
    assert_eq!(render_address(&v4(0, 0, 0, 0)), "0.0.0.0");
    let six = Address::V6 { g0: 0x2001, g1: 0xdb8, g2: 0, g3: 0, g4: 0, g5: 0, g6: 0, g7: 1 };
    assert_eq!(render_address(&six), "2001:db8:0:0:0:0:0:1");
}

#[test]
fn render_then_parse_round_trips() {
    let a = v4(198, 51, 100, 9);
    assert_eq!(parse_address(&render_address(&a)), Some(a));
    let b = Address::V6 { g0: 0xfe80, g1: 1, g2: 2, g3: 3, g4: 4, g5: 5, g6: 6, g7: 0xffff };
    assert_eq!(parse_address(&render_address(&b)), Some(b));
}

#[test]
fn trim_strips_surrounding_blanks() {
    assert_eq!(trim(" \t203.0.113.5\r\n"), "203.0.113.5");
    assert_eq!(trim("\u{a0}\u{2009}198.51.100.9\u{3000}"), "198.51.100.9");
    assert_eq!(trim("no-blanks"), "no-blanks");
    assert_eq!(trim("   "), "");
    assert_eq!(trim(""), "");
}

#[test]
fn strip_spaces_removes_every_space() {
    assert_eq!(strip_spaces("abcd efgh ijkl"), "abcdefghijkl");
    assert_eq!(strip_spaces(" a b "), "ab");
    assert_eq!(strip_spaces("nospace"), "nospace");
}

#[test]
fn config_defaults_match_the_relay() {
    assert_eq!(default_server(), "smtp.gmail.com");
    assert_eq!(default_port(), 587);
}

#[test]
fn fresh_history_has_no_last_address() {
    let h = History::new();
    assert_eq!(h.last_address(), None);
    assert_eq!(h.len(), 0);
}

#[test]
fn append_then_append_returns_the_second() {
    let mut h = History::new();
    let a = v4(203, 0, 113, 5);
    let b = v4(198, 51, 100, 9);
    h.append(a, String::from("2024-01-01T00:00:00Z"));
    assert_eq!(h.last_address(), Some(a));
    h.append(b, String::from("2024-01-02T00:00:00Z"));
    assert_eq!(h.last_address(), Some(b));
    assert_eq!(h.len(), 2);
    assert_eq!(h.get(0).address, a);
    assert_eq!(h.get(0).observed_at, "2024-01-01T00:00:00Z");
    assert_eq!(h.get(1).address, b);
}

#[test]
fn history_only_returns_appended_addresses() {
    let mut h = History::new();
    let a = v4(10, 0, 0, 1);
    let b = v4(10, 0, 0, 2);
    h.append(a, String::from("t1"));
    h.append(b, String::from("t2"));
    let last = h.last_address().unwrap();
    let mut seen = false;
    for i in 0..h.len() {
        if h.get(i).address == last {
            seen = true;
        }
    }
    assert!(seen);
}

#[test]
fn subject_distinguishes_first_from_change() {
    let a = v4(203, 0, 113, 5);
    assert_eq!(
        subject_line(&a, true),
        "[IP Watcher] First external IP detected: 203.0.113.5"
    );
    assert_eq!(
        subject_line(&a, false),
        "[IP Watcher] External IP changed: 203.0.113.5"
    );
}

#[test]
fn body_carries_time_and_address() {
    let a = v4(198, 51, 100, 9);
    assert_eq!(
        email_body(&a, "2024-01-01T00:00:00Z"),
        "<p>Time: 2024-01-01T00:00:00Z</p>\n<p>Current external IP: <b>198.51.100.9</b></p>\n<p>This email was sent automatically by ip-watcher.</p>"
    );
}

#[test]
fn now_text_yields_some_text() {
    let t = now_text();
    assert!(!t.is_empty());
}
