//! Command handling end to end: bytes in, reply bytes out, with simulated
//! clock readings in milliseconds.

use miniredis::dispatch::handle_frame;
use miniredis::store::Store;

#[test]
fn ping_yields_pong() {
    let mut store = Store::new();
    let out = handle_frame(b"*1\r\n$4\r\nPING\r\n", &mut store, 0);
    assert_eq!(out, Some(b"+PONG\r\n".to_vec()));
}

#[test]
fn echo_yields_bulk() {
    let mut store = Store::new();
    let out = handle_frame(b"*2\r\n$4\r\nECHO\r\n$3\r\nfoo\r\n", &mut store, 0);
    assert_eq!(out, Some(b"$3\r\nfoo\r\n".to_vec()));
}

#[test]
fn set_get_round_trip() {
    let mut store = Store::new();
    let out = handle_frame(b"*3\r\n$3\r\nSET\r\n$1\r\na\r\n$1\r\n1\r\n", &mut store, 0);
    assert_eq!(out, Some(b"+OK\r\n".to_vec()));
    let out = handle_frame(b"*2\r\n$3\r\nGET\r\n$1\r\na\r\n", &mut store, 0);
    assert_eq!(out, Some(b"$1\r\n1\r\n".to_vec()));
}

#[test]
fn get_of_never_set_key_is_null() {
    let mut store = Store::new();
    let out = handle_frame(b"*2\r\n$3\r\nGET\r\n$1\r\nb\r\n", &mut store, 0);
    assert_eq!(out, Some(b"$-1\r\n".to_vec()));
}

#[test]
fn expiry_is_enforced_and_idempotent() {
    let mut store = Store::new();
    let out = handle_frame(
        b"*5\r\n$3\r\nSET\r\n$1\r\na\r\n$1\r\n1\r\n$2\r\nPX\r\n$2\r\n10\r\n",
        &mut store,
        0,
    );
    assert_eq!(out, Some(b"+OK\r\n".to_vec()));
    // still live before the expiry arrives
    let out = handle_frame(b"*2\r\n$3\r\nGET\r\n$1\r\na\r\n", &mut store, 5);
    assert_eq!(out, Some(b"$1\r\n1\r\n".to_vec()));
    // dead once the elapsed time exceeds 10 ms
    let out = handle_frame(b"*2\r\n$3\r\nGET\r\n$1\r\na\r\n", &mut store, 11);
    assert_eq!(out, Some(b"$-1\r\n".to_vec()));
    // and a second read is still null
    let out = handle_frame(b"*2\r\n$3\r\nGET\r\n$1\r\na\r\n", &mut store, 11);
    assert_eq!(out, Some(b"$-1\r\n".to_vec()));
}

#[test]
fn overwrite_clears_expiry() {
    let mut store = Store::new();
    handle_frame(
        b"*5\r\n$3\r\nSET\r\n$1\r\na\r\n$1\r\n1\r\n$2\r\nPX\r\n$2\r\n10\r\n",
        &mut store,
        0,
    );
    let out = handle_frame(b"*3\r\n$3\r\nSET\r\n$1\r\na\r\n$1\r\n2\r\n", &mut store, 5);
    assert_eq!(out, Some(b"+OK\r\n".to_vec()));
    // far beyond the first expiry, the overwritten value never expires
    let out = handle_frame(b"*2\r\n$3\r\nGET\r\n$1\r\na\r\n", &mut store, 1_000_000_000);
    assert_eq!(out, Some(b"$1\r\n2\r\n".to_vec()));
}

#[test]
fn malformed_frame_produces_no_reply_and_no_mutation() {
    let mut store = Store::new();
    handle_frame(b"*3\r\n$3\r\nSET\r\n$1\r\na\r\n$1\r\n1\r\n", &mut store, 0);
    // declared length exceeds the elements present; nothing is dispatched
    let out = handle_frame(b"*3\r\n$3\r\nSET\r\n$1\r\na\r\n", &mut store, 0);
    assert_eq!(out, None);
    // the store still holds what it held
    let out = handle_frame(b"*2\r\n$3\r\nGET\r\n$1\r\na\r\n", &mut store, 0);
    assert_eq!(out, Some(b"$1\r\n1\r\n".to_vec()));
}

#[test]
fn malformed_px_value_degrades_to_no_expiry() {
    let mut store = Store::new();
    let out = handle_frame(
        b"*5\r\n$3\r\nSET\r\n$1\r\na\r\n$1\r\n1\r\n$2\r\nPX\r\n$3\r\nabc\r\n",
        &mut store,
        0,
    );
    assert_eq!(out, Some(b"+OK\r\n".to_vec()));
    let out = handle_frame(b"*2\r\n$3\r\nGET\r\n$1\r\na\r\n", &mut store, 1_000_000_000);
    assert_eq!(out, Some(b"$1\r\n1\r\n".to_vec()));
}

#[test]
fn px_without_value_degrades_to_no_expiry() {
    let mut store = Store::new();
    let out = handle_frame(
        b"*4\r\n$3\r\nSET\r\n$1\r\na\r\n$1\r\n1\r\n$2\r\nPX\r\n",
        &mut store,
        0,
    );
    assert_eq!(out, Some(b"+OK\r\n".to_vec()));
    let out = handle_frame(b"*2\r\n$3\r\nGET\r\n$1\r\na\r\n", &mut store, 1_000_000_000);
    assert_eq!(out, Some(b"$1\r\n1\r\n".to_vec()));
}

#[test]
fn verbs_are_case_insensitive() {
    let mut store = Store::new();
    let out = handle_frame(b"*1\r\n$4\r\nping\r\n", &mut store, 0);
    assert_eq!(out, Some(b"+PONG\r\n".to_vec()));
    let out = handle_frame(b"*3\r\n$3\r\nset\r\n$1\r\na\r\n$1\r\n1\r\n", &mut store, 0);
    assert_eq!(out, Some(b"+OK\r\n".to_vec()));
    let out = handle_frame(b"*2\r\n$3\r\ngEt\r\n$1\r\na\r\n", &mut store, 0);
    assert_eq!(out, Some(b"$1\r\n1\r\n".to_vec()));
}

#[test]
fn px_option_is_case_insensitive() {
    let mut store = Store::new();
    handle_frame(
        b"*5\r\n$3\r\nSET\r\n$1\r\na\r\n$1\r\n1\r\n$2\r\npx\r\n$2\r\n10\r\n",
        &mut store,
        0,
    );
    let out = handle_frame(b"*2\r\n$3\r\nGET\r\n$1\r\na\r\n", &mut store, 11);
    assert_eq!(out, Some(b"$-1\r\n".to_vec()));
}

#[test]
fn unknown_verb_produces_no_reply() {
    let mut store = Store::new();
    let out = handle_frame(b"*1\r\n$4\r\nBLAH\r\n", &mut store, 0);
    assert_eq!(out, None);
}

#[test]
fn arity_violation_produces_no_reply() {
    let mut store = Store::new();
    // ECHO and GET need an argument, SET needs two
    assert_eq!(handle_frame(b"*1\r\n$4\r\nECHO\r\n", &mut store, 0), None);
    assert_eq!(handle_frame(b"*1\r\n$3\r\nGET\r\n", &mut store, 0), None);
    assert_eq!(handle_frame(b"*2\r\n$3\r\nSET\r\n$1\r\na\r\n", &mut store, 0), None);
}

#[test]
fn empty_array_produces_no_reply() {
    let mut store = Store::new();
    assert_eq!(handle_frame(b"*0\r\n", &mut store, 0), None);
}

#[test]
fn ping_with_extra_arguments_produces_no_reply() {
    // PING stands alone: its arity is exactly one.
    let mut store = Store::new();
    let out = handle_frame(b"*2\r\n$4\r\nPING\r\n$1\r\nx\r\n", &mut store, 0);
    assert_eq!(out, None);
}

#[test]
fn px_value_with_sign_degrades_to_no_expiry() {
    // Millisecond counts are plain digit runs; a signed value is malformed
    // and falls back to "no expiry".
    let mut store = Store::new();
    let out = handle_frame(
        b"*5\r\n$3\r\nSET\r\n$1\r\na\r\n$1\r\n1\r\n$2\r\nPX\r\n$2\r\n+5\r\n",
        &mut store,
        0,
    );
    assert_eq!(out, Some(b"+OK\r\n".to_vec()));
    let out = handle_frame(b"*2\r\n$3\r\nGET\r\n$1\r\na\r\n", &mut store, 1_000_000_000);
    assert_eq!(out, Some(b"$1\r\n1\r\n".to_vec()));
}

#[test]
fn huge_px_delay_saturates_instead_of_wrapping() {
    let mut store = Store::new();
    let out = handle_frame(
        b"*5\r\n$3\r\nSET\r\n$1\r\na\r\n$1\r\n1\r\n$2\r\nPX\r\n$20\r\n18446744073709551615\r\n",
        &mut store,
        5,
    );
    assert_eq!(out, Some(b"+OK\r\n".to_vec()));
    // the entry is effectively permanent, not already expired by wrap-around
    let out = handle_frame(b"*2\r\n$3\r\nGET\r\n$1\r\na\r\n", &mut store, 1_000_000_000);
    assert_eq!(out, Some(b"$1\r\n1\r\n".to_vec()));
}
