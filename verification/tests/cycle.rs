//! Tests for the resolver, the scheduler's decision table and failure
//! handling, and the end-to-end change-detection scenarios.

use ipwatcher::addr::Address;
use ipwatcher::history::{History, StoreError};
use ipwatcher::notify::subject_line;
use ipwatcher::resolve::{
    default_sources, effective_sources, resolve_prefetched, IpError, ResolveStep, Resolver,
};
use ipwatcher::sched::{decide, Command, CycleDecision, Event, Phase, Scheduler};

fn v4(a: u8, b: u8, c: u8, d: u8) -> Address {
    Address::V4 { a, b, c, d }
}

fn srcs(n: usize) -> Vec<String> {
    (0..n).map(|i| format!("https://src{i}.test")).collect()
}

#[test]
fn earliest_successful_source_wins() {
    let bodies = vec![
        None,
        Some(String::from("not an address")),
        Some(String::from(" 198.51.100.9\n")),
        Some(String::from("203.0.113.5")),
    ];
    let r = resolve_prefetched(srcs(4), &bodies);
    assert_eq!(r, Ok(v4(198, 51, 100, 9)));
}

#[test]
fn later_sources_do_not_matter_once_one_succeeds() {
    let with_garbage_tail = vec![Some(String::from("203.0.113.5")), None, None];
    let with_valid_tail = vec![
        Some(String::from("203.0.113.5")),
        Some(String::from("198.51.100.9")),
        Some(String::from("192.0.2.1")),
    ];
    assert_eq!(
        resolve_prefetched(srcs(3), &with_garbage_tail),
        resolve_prefetched(srcs(3), &with_valid_tail)
    );
}

#[test]
fn empty_source_list_is_no_sources() {
    let r = resolve_prefetched(Vec::new(), &Vec::new());
    assert_eq!(r, Err(IpError::NoSources));
}

#[test]
fn empty_source_list_asks_for_no_fetch() {
    match Resolver::new(Vec::new()) {
        Err(e) => assert_eq!(e, IpError::NoSources),
        Ok(_) => panic!("an empty source list must be rejected"),
    }
}

#[test]
fn all_sources_failing_is_all_sources_failed() {
    let bodies = vec![None, Some(String::from("503 service unavailable")), None];
    assert_eq!(
        resolve_prefetched(srcs(3), &bodies),
        Err(IpError::AllSourcesFailed)
    );
    let one_good = vec![None, Some(String::from("192.0.2.7")), None];
    assert_ne!(
        resolve_prefetched(srcs(3), &one_good),
        Err(IpError::AllSourcesFailed)
    );
}

#[test]
fn resolver_walks_sources_in_order() {
    let mut m = Resolver::new(srcs(2)).unwrap();
    assert_eq!(m.current_source(), "https://src0.test");
    assert_eq!(m.feed(None), ResolveStep::Continue);
    assert_eq!(m.current_source(), "https://src1.test");
    assert_eq!(
        m.feed(Some(String::from("junk"))),
        ResolveStep::Failed { error: IpError::AllSourcesFailed }
    );
}

#[test]
fn resolver_trims_the_body_before_parsing() {
    let mut m = Resolver::new(srcs(1)).unwrap();
    assert_eq!(
        m.feed(Some(String::from("\t 203.0.113.5 \r\n"))),
        ResolveStep::Done { address: v4(203, 0, 113, 5) }
    );
}

#[test]
fn resolver_accepts_a_compressed_v6_body() {
    let mut m = Resolver::new(srcs(1)).unwrap();
    assert_eq!(
        m.feed(Some(String::from("2001:db8::1\n"))),
        ResolveStep::Done {
            address: Address::V6 { g0: 0x2001, g1: 0xdb8, g2: 0, g3: 0, g4: 0, g5: 0, g6: 0, g7: 1 }
        }
    );
    let mut m2 = Resolver::new(srcs(1)).unwrap();
    assert_eq!(
        m2.feed(Some(String::from("::1"))),
        ResolveStep::Done {
            address: Address::V6 { g0: 0, g1: 0, g2: 0, g3: 0, g4: 0, g5: 0, g6: 0, g7: 1 }
        }
    );
}

#[test]
fn built_in_sources_are_the_four_echo_endpoints() {
    let v = default_sources();
    assert_eq!(
        v,
        vec![
            "https://api.ipify.org".to_string(),
            "https://ifconfig.me/ip".to_string(),
            "https://ident.me".to_string(),
            "https://checkip.amazonaws.com".to_string(),
        ]
    );
    assert_eq!(effective_sources(None), v);
    let mine = vec!["https://example.test/ip".to_string()];
    assert_eq!(effective_sources(Some(mine.clone())), mine);
}

#[test]
fn decision_table_covers_the_three_rows() {
    let x = v4(203, 0, 113, 5);
    let y = v4(198, 51, 100, 9);
    assert_eq!(decide(None, x), CycleDecision::FirstObservation);
    assert_eq!(decide(Some(x), x), CycleDecision::Unchanged);
    assert_eq!(decide(Some(x), y), CycleDecision::Changed);
}

#[test]
fn interval_is_clamped_to_the_floor() {
    assert_eq!(Scheduler::new(5).interval_secs, 30);
    assert_eq!(Scheduler::new(30).interval_secs, 30);
    assert_eq!(Scheduler::new(600).interval_secs, 600);
}

#[test]
fn jitter_is_drawn_within_bounds() {
    let s = Scheduler::new(60);
    assert!((180..=360).contains(&s.jitter_secs));
    assert_eq!(
        s.initial_command(),
        Command::WaitJitter { seconds: s.jitter_secs }
    );
}

#[test]
fn scheduler_accepts_only_fitting_events() {
    let s = Scheduler::new(60);
    assert!(matches!(s.phase, Phase::JitterWait));
    assert!(s.accepts(&Event::JitterElapsed));
    assert!(s.accepts(&Event::CancelRequested));
    assert!(!s.accepts(&Event::TickElapsed));
    assert!(!s.accepts(&Event::NotifyDone { ok: true }));
}

#[test]
fn append_failure_skips_the_notification() {
    let x = v4(203, 0, 113, 5);
    let mut s = Scheduler::new(60);
    assert_eq!(s.step(Event::JitterElapsed), Command::Resolve);
    assert_eq!(
        s.step(Event::Resolved { outcome: Ok(x) }),
        Command::ReadLastAddress
    );
    assert_eq!(
        s.step(Event::LastRead { outcome: Ok(None) }),
        Command::Append { address: x, first: true }
    );
    let cmd = s.step(Event::AppendDone { outcome: Err(StoreError::WriteFailed) });
    assert_eq!(cmd, Command::WaitTick { seconds: 60 });
    assert!(matches!(s.phase, Phase::Waiting));
}

#[test]
fn notify_failure_is_never_retried() {
    let x = v4(203, 0, 113, 5);
    let mut s = Scheduler::new(60);
    s.step(Event::JitterElapsed);
    s.step(Event::Resolved { outcome: Ok(x) });
    assert_eq!(
        s.step(Event::LastRead { outcome: Ok(None) }),
        Command::Append { address: x, first: true }
    );
    assert_eq!(
        s.step(Event::AppendDone { outcome: Ok(()) }),
        Command::Notify { address: x, first: true }
    );
    // The send fails; the append already happened, so the next cycle with
    // the same address does nothing.
    assert_eq!(
        s.step(Event::NotifyDone { ok: false }),
        Command::WaitTick { seconds: 60 }
    );
    assert_eq!(s.step(Event::TickElapsed), Command::Resolve);
    assert_eq!(
        s.step(Event::Resolved { outcome: Ok(x) }),
        Command::ReadLastAddress
    );
    assert_eq!(
        s.step(Event::LastRead { outcome: Ok(Some(x)) }),
        Command::WaitTick { seconds: 60 }
    );
}

#[test]
fn cancel_during_jitter_stops_everything() {
    let mut s = Scheduler::new(60);
    assert_eq!(s.step(Event::CancelRequested), Command::Shutdown);
    assert!(matches!(s.phase, Phase::Stopped));
    assert!(!s.accepts(&Event::JitterElapsed));
    assert!(!s.accepts(&Event::TickElapsed));
}

#[test]
fn cancel_during_inter_cycle_wait_stops_everything() {
    let mut s = Scheduler::new(60);
    s.step(Event::JitterElapsed);
    s.step(Event::Resolved { outcome: Err(IpError::AllSourcesFailed) });
    assert!(matches!(s.phase, Phase::Waiting));
    assert_eq!(s.step(Event::CancelRequested), Command::Shutdown);
    assert!(matches!(s.phase, Phase::Stopped));
}

#[test]
fn resolution_failure_ends_the_cycle_without_writes() {
    let mut s = Scheduler::new(60);
    s.step(Event::JitterElapsed);
    assert_eq!(
        s.step(Event::Resolved { outcome: Err(IpError::AllSourcesFailed) }),
        Command::WaitTick { seconds: 60 }
    );
}

#[test]
fn store_read_failure_ends_the_cycle_before_any_decision() {
    let x = v4(203, 0, 113, 5);
    let mut s = Scheduler::new(60);
    s.step(Event::JitterElapsed);
    s.step(Event::Resolved { outcome: Ok(x) });
    assert_eq!(
        s.step(Event::LastRead { outcome: Err(StoreError::ReadFailed) }),
        Command::WaitTick { seconds: 60 }
    );
}

#[test]
fn first_observation_end_to_end() {
    let x = v4(203, 0, 113, 5);
    let mut h = History::new();
    let mut s = Scheduler::new(60);
    s.step(Event::JitterElapsed);
    let r = resolve_prefetched(srcs(1), &vec![Some(String::from("203.0.113.5"))]);
    assert_eq!(r, Ok(x));
    s.step(Event::Resolved { outcome: Ok(x) });
    let prior = h.last_address();
    assert_eq!(prior, None);
    let cmd = s.step(Event::LastRead { outcome: Ok(prior) });
    assert_eq!(cmd, Command::Append { address: x, first: true });
    h.append(x, String::from("2024-01-01T00:00:00Z"));
    let cmd = s.step(Event::AppendDone { outcome: Ok(()) });
    assert_eq!(cmd, Command::Notify { address: x, first: true });
    assert_eq!(
        subject_line(&x, true),
        "[IP Watcher] First external IP detected: 203.0.113.5"
    );
    assert_eq!(s.step(Event::NotifyDone { ok: true }), Command::WaitTick { seconds: 60 });
    assert_eq!(h.len(), 1);
    assert_eq!(h.last_address(), Some(x));
}

#[test]
fn unchanged_address_end_to_end() {
    let x = v4(203, 0, 113, 5);
    let mut h = History::new();
    h.append(x, String::from("2024-01-01T00:00:00Z"));
    let mut s = Scheduler::new(60);
    s.step(Event::JitterElapsed);
    let r = resolve_prefetched(srcs(1), &vec![Some(String::from("203.0.113.5"))]);
    assert_eq!(r, Ok(x));
    s.step(Event::Resolved { outcome: Ok(x) });
    let cmd = s.step(Event::LastRead { outcome: Ok(h.last_address()) });
    assert_eq!(cmd, Command::WaitTick { seconds: 60 });
    assert_eq!(h.len(), 1);
}

#[test]
fn changed_address_end_to_end() {
    let x = v4(203, 0, 113, 5);
    let y = v4(198, 51, 100, 9);
    let mut h = History::new();
    h.append(x, String::from("2024-01-01T00:00:00Z"));
    let mut s = Scheduler::new(60);
    s.step(Event::JitterElapsed);
    let r = resolve_prefetched(srcs(1), &vec![Some(String::from("198.51.100.9"))]);
    assert_eq!(r, Ok(y));
    s.step(Event::Resolved { outcome: Ok(y) });
    let cmd = s.step(Event::LastRead { outcome: Ok(h.last_address()) });
    assert_eq!(cmd, Command::Append { address: y, first: false });
    h.append(y, String::from("2024-01-02T00:00:00Z"));
    let cmd = s.step(Event::AppendDone { outcome: Ok(()) });
    assert_eq!(cmd, Command::Notify { address: y, first: false });
    assert_eq!(
        subject_line(&y, false),
        "[IP Watcher] External IP changed: 198.51.100.9"
    );
    assert_eq!(h.len(), 2);
    assert_eq!(h.last_address(), Some(y));
}

#[test]
fn empty_configured_source_list_is_a_configuration_error() {
    let sources = effective_sources(Some(Vec::new()));
    assert!(sources.is_empty());
    match Resolver::new(sources) {
        Err(e) => assert_eq!(e, IpError::NoSources),
        Ok(_) => panic!("an empty source list must be rejected"),
    }
}
