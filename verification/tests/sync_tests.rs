//! Echo suppression, backoff, and the dial/accept tie-break.

use openclipboard::sync::{accept_inbound, should_dial, str_lt};
use openclipboard::{Backoff, EchoSuppressor};

#[test]
fn echo_suppressor_tracks_recent() {
    let mut s = EchoSuppressor::new(3);
    s.note_remote_write("a");
    s.note_remote_write("b");
    assert!(s.should_ignore_local_change("a"));
    assert!(!s.should_ignore_local_change("c"));
    s.note_remote_write("c");
    s.note_remote_write("d");
    // With the window bound of three, the oldest entry left.
    assert!(!s.should_ignore_local_change("a"));
    assert!(s.should_ignore_local_change("b"));
    assert!(s.should_ignore_local_change("c"));
    assert!(s.should_ignore_local_change("d"));
}

#[test]
fn backoff_grows_and_caps() {
    let mut b = Backoff { cur_ms: 200, max_ms: 500 };
    assert_eq!(b.next_delay_ms(), 200);
    assert_eq!(b.next_delay_ms(), 400);
    assert_eq!(b.next_delay_ms(), 500);
    assert_eq!(b.next_delay_ms(), 500);
    b.reset();
    assert_eq!(b.next_delay_ms(), 200);
}

#[test]
fn echo_suppressor_empty() {
    let s = EchoSuppressor::new(5);
    assert!(!s.should_ignore_local_change("anything"));
}

#[test]
fn echo_suppressor_single() {
    let mut s = EchoSuppressor::new(5);
    s.note_remote_write("hello");
    assert!(s.should_ignore_local_change("hello"));
    assert!(!s.should_ignore_local_change("world"));
}

#[test]
fn echo_suppressor_eviction() {
    let mut s = EchoSuppressor::new(2);
    s.note_remote_write("a");
    s.note_remote_write("b");
    s.note_remote_write("c");
    assert!(!s.should_ignore_local_change("a"));
    assert!(s.should_ignore_local_change("b"));
    assert!(s.should_ignore_local_change("c"));
}

#[test]
fn echo_suppressor_dedup_consecutive() {
    let mut s = EchoSuppressor::new(3);
    s.note_remote_write("same");
    s.note_remote_write("same");
    s.note_remote_write("same");
    s.note_remote_write("other1");
    s.note_remote_write("other2");
    assert!(s.should_ignore_local_change("same"));
}

#[test]
fn echo_suppressor_cap_one() {
    let mut s = EchoSuppressor::new(1);
    s.note_remote_write("a");
    assert!(s.should_ignore_local_change("a"));
    s.note_remote_write("b");
    assert!(!s.should_ignore_local_change("a"));
    assert!(s.should_ignore_local_change("b"));
}

#[test]
fn echo_suppressor_cap_zero_clamps() {
    let mut s = EchoSuppressor::new(0);
    s.note_remote_write("x");
    assert!(s.should_ignore_local_change("x"));
}

#[test]
fn dial_tie_break_is_one_sided() {
    let a = "aaaa";
    let b = "bbbb";
    assert!(str_lt(a, b));
    assert!(!str_lt(b, a));
    // Only the lower id dials; only the higher id keeps the inbound.
    assert!(should_dial(a, b, true, false));
    assert!(!should_dial(b, a, true, false));
    assert!(accept_inbound(b, a));
    assert!(!accept_inbound(a, b));
}

#[test]
fn dial_requires_trust_and_no_connection() {
    assert!(!should_dial("a", "b", false, false));
    assert!(!should_dial("a", "b", true, true));
    assert!(!should_dial("a", "a", true, false));
    assert!(should_dial("a", "b", true, false));
}
