//! The command dispatcher: maps a decoded argument list to one of the four
//! supported operations, validates arity, and produces a reply, reading or
//! writing the store as the command demands.
//!
//! The dispatcher is stateless: the outcome is a function of the argument
//! list, the store's current contents, and the caller-supplied clock reading
//! `now` (milliseconds on an arbitrary monotone scale).  An unknown verb or
//! a too-short argument list produces no reply and never touches the store.

use crate::digits::{parse_u64_digits, spec_parse_u64};
use crate::frame::{parse_resp_array, spec_parse, views_of};
use crate::reply::{encode_reply, spec_encode_reply, Reply, ReplyModel};
use crate::store::{after_get, live_lookup, EntryModel, Store, StoreModel};
use vstd::prelude::*;
use vstd::slice::slice_to_vec;

verus! {

/// ASCII uppercase of one byte; bytes outside `a..=z` pass through.
pub open spec fn upper_byte(b: u8) -> u8 {
    if 97 <= b <= 122 {
        (b - 32) as u8
    } else {
        b
    }
}

/// ASCII uppercase of a byte string.  Verb and option matching is
/// case-insensitive in this sense.
pub open spec fn upper(s: Seq<u8>) -> Seq<u8> {
    s.map_values(|b: u8| upper_byte(b))
}

/// The verb `PING`.
pub open spec fn ping_verb() -> Seq<u8> {
    seq![80u8, 73u8, 78u8, 71u8]
}

/// The verb `ECHO`.
pub open spec fn echo_verb() -> Seq<u8> {
    seq![69u8, 67u8, 72u8, 79u8]
}

/// The verb `SET`.
pub open spec fn set_verb() -> Seq<u8> {
    seq![83u8, 69u8, 84u8]
}

/// The verb `GET`.
pub open spec fn get_verb() -> Seq<u8> {
    seq![71u8, 69u8, 84u8]
}

/// The `PX` option of `SET`.
pub open spec fn px_opt() -> Seq<u8> {
    seq![80u8, 88u8]
}

/// The status payload `PONG`.
pub open spec fn pong_status() -> Seq<u8> {
    seq![80u8, 79u8, 78u8, 71u8]
}

/// The status payload `OK`.
pub open spec fn ok_status() -> Seq<u8> {
    seq![79u8, 75u8]
}

/// `a + b`, stopping at the top of `u64` rather than wrapping.
pub open spec fn sat_add(a: u64, b: u64) -> u64 {
    if a + b <= u64::MAX {
        (a + b) as u64
    } else {
        u64::MAX
    }
}

/// The absolute expiry a `SET` requests: present only when a `PX` option is
/// followed by a parseable non-negative integer of milliseconds.  A malformed
/// or missing `PX` value degrades to "no expiry" rather than failing the
/// command.  The addition saturates, so an absurd delay means "never expires"
/// instead of a wrapped (or panicking) clock.
pub open spec fn px_expiry(args: Seq<Seq<u8>>, now: u64) -> Option<u64> {
    if args.len() >= 5 && upper(args[3]) == px_opt() {
        match spec_parse_u64(args[4]) {
            Option::Some(ms) => Option::Some(sat_add(now, ms)),
            Option::None => Option::None,
        }
    } else {
        Option::None
    }
}

/// The store after dispatching `args` at `now`: `SET` upserts, `GET` may
/// lazily drop a dead entry, everything else leaves the store alone.
pub open spec fn spec_dispatch_store(args: Seq<Seq<u8>>, m: StoreModel, now: u64) -> StoreModel {
    if args.len() == 0 {
        m
    } else {
        let verb = upper(args[0]);
        if verb == set_verb() && args.len() >= 3 {
            m.insert(args[1], EntryModel { value: args[2], expiry: px_expiry(args, now) })
        } else if verb == get_verb() && args.len() >= 2 {
            after_get(m, args[1], now)
        } else {
            m
        }
    }
}

/// The reply produced by dispatching `args` at `now`, if any: `PING`, which
/// stands alone (arity exactly one), yields status `PONG`; `ECHO` echoes its
/// argument as a bulk string; `SET` yields status `OK`; `GET` yields the
/// live value or null.  An empty list, an unknown verb, or an arity
/// violation yields no reply.
pub open spec fn spec_dispatch_reply(args: Seq<Seq<u8>>, m: StoreModel, now: u64) -> Option<
    ReplyModel,
> {
    if args.len() == 0 {
        Option::None
    } else {
        let verb = upper(args[0]);
        if verb == ping_verb() && args.len() == 1 {
            Option::Some(ReplyModel::Status(pong_status()))
        } else if verb == echo_verb() && args.len() >= 2 {
            Option::Some(ReplyModel::Bulk(args[1]))
        } else if verb == set_verb() && args.len() >= 3 {
            Option::Some(ReplyModel::Status(ok_status()))
        } else if verb == get_verb() && args.len() >= 2 {
            match live_lookup(m, args[1], now) {
                Option::Some(v) => Option::Some(ReplyModel::Bulk(v)),
                Option::None => Option::Some(ReplyModel::Null),
            }
        } else {
            Option::None
        }
    }
}

/// ASCII-uppercases a byte string.
fn ascii_upper(s: &[u8]) -> (r: Vec<u8>)
    ensures
        r@ == upper(s@),
{
    let n = s.len();
    let mut out: Vec<u8> = Vec::new();
    let mut i: usize = 0;
    while i < n
        invariant
            i <= n,
            n == s@.len(),
            out@ == upper(s@.take(i as int)),
        decreases n - i,
    {
        let b = s[i];
        let u = if 97 <= b && b <= 122 {
            b - 32
        } else {
            b
        };
        out.push(u);
        proof {
            assert(upper(s@.take(i + 1)) =~= upper(s@.take(i as int)).push(upper_byte(s@[i as int])));
        }
        i = i + 1;
    }
    proof {
        assert(s@.take(n as int) =~= s@);
    }
    out
}

fn is_ping(v: &Vec<u8>) -> (r: bool)
    ensures
        r == (v@ == ping_verb()),
{
    let r = v.len() == 4 && v[0] == 80 && v[1] == 73 && v[2] == 78 && v[3] == 71;
    proof {
        if r {
            assert(v@ =~= ping_verb());
        }
    }
    r
}

fn is_echo(v: &Vec<u8>) -> (r: bool)
    ensures
        r == (v@ == echo_verb()),
{
    let r = v.len() == 4 && v[0] == 69 && v[1] == 67 && v[2] == 72 && v[3] == 79;
    proof {
        if r {
            assert(v@ =~= echo_verb());
        }
    }
    r
}

fn is_set(v: &Vec<u8>) -> (r: bool)
    ensures
        r == (v@ == set_verb()),
{
    let r = v.len() == 3 && v[0] == 83 && v[1] == 69 && v[2] == 84;
    proof {
        if r {
            assert(v@ =~= set_verb());
        }
    }
    r
}

fn is_get(v: &Vec<u8>) -> (r: bool)
    ensures
        r == (v@ == get_verb()),
{
    let r = v.len() == 3 && v[0] == 71 && v[1] == 69 && v[2] == 84;
    proof {
        if r {
            assert(v@ =~= get_verb());
        }
    }
    r
}

fn is_px(v: &Vec<u8>) -> (r: bool)
    ensures
        r == (v@ == px_opt()),
{
    let r = v.len() == 2 && v[0] == 80 && v[1] == 88;
    proof {
        if r {
            assert(v@ =~= px_opt());
        }
    }
    r
}

/// Dispatches one decoded command against the store at clock reading `now`.
/// Returns the reply to send, or `None` when the command is unknown or too
/// short, in which case the store is untouched.
pub fn dispatch(args: &Vec<Vec<u8>>, store: &mut Store, now: u64) -> (r: Option<Reply>)
    ensures
        final(store)@ == spec_dispatch_store(views_of(args@), old(store)@, now),
        match r {
            Option::Some(rep) => spec_dispatch_reply(views_of(args@), old(store)@, now)
                == Option::Some(rep@),
            Option::None => spec_dispatch_reply(views_of(args@), old(store)@, now) is None,
        },
{
    let ghost vargs = views_of(args@);
    if args.len() == 0 {
        return Option::None;
    }
    proof {
        assert(vargs[0] == args@[0]@);
    }
    let verb = ascii_upper(args[0].as_slice());
    if is_ping(&verb) && args.len() == 1 {
        let mut s: Vec<u8> = Vec::new();
        s.push(80);
        s.push(79);
        s.push(78);
        s.push(71);
        proof {
            assert(s@ =~= pong_status());
        }
        Option::Some(Reply::Status(s))
    } else if is_echo(&verb) && args.len() >= 2 {
        proof {
            assert(vargs[1] == args@[1]@);
        }
        Option::Some(Reply::Bulk(slice_to_vec(args[1].as_slice())))
    } else if is_set(&verb) && args.len() >= 3 {
        proof {
            assert(vargs[1] == args@[1]@);
            assert(vargs[2] == args@[2]@);
        }
        let key = slice_to_vec(args[1].as_slice());
        let value = slice_to_vec(args[2].as_slice());
        let expiry: Option<u64> = if args.len() >= 5 {
            proof {
                assert(vargs[3] == args@[3]@);
                assert(vargs[4] == args@[4]@);
            }
            let opt = ascii_upper(args[3].as_slice());
            if is_px(&opt) {
                match parse_u64_digits(args[4].as_slice(), 0, args[4].len()) {
                    Option::Some(ms) => {
                        proof {
                            assert(args@[4]@.subrange(0, args@[4]@.len() as int) =~= args@[4]@);
                        }
                        Option::Some(
                            if ms <= u64::MAX - now {
                                now + ms
                            } else {
                                u64::MAX
                            },
                        )
                    },
                    Option::None => {
                        proof {
                            assert(args@[4]@.subrange(0, args@[4]@.len() as int) =~= args@[4]@);
                        }
                        Option::None
                    },
                }
            } else {
                Option::None
            }
        } else {
            Option::None
        };
        store.put(key, value, expiry);
        let mut s: Vec<u8> = Vec::new();
        s.push(79);
        s.push(75);
        proof {
            assert(s@ =~= ok_status());
        }
        Option::Some(Reply::Status(s))
    } else if is_get(&verb) && args.len() >= 2 {
        proof {
            assert(vargs[1] == args@[1]@);
        }
        match store.get_and_expire(args[1].as_slice(), now) {
            Option::Some(v) => Option::Some(Reply::Bulk(v)),
            Option::None => Option::Some(Reply::Null),
        }
    } else {
        Option::None
    }
}

/// The store after one read's worth of bytes has been handled.
pub open spec fn spec_handle_store(b: Seq<u8>, m: StoreModel, now: u64) -> StoreModel {
    match spec_parse(b) {
        Option::Some(args) => spec_dispatch_store(args, m, now),
        Option::None => m,
    }
}

/// The encoded reply, if any, for one read's worth of bytes.
pub open spec fn spec_handle_reply(b: Seq<u8>, m: StoreModel, now: u64) -> Option<Seq<u8>> {
    match spec_parse(b) {
        Option::Some(args) => match spec_dispatch_reply(args, m, now) {
            Option::Some(rep) => Option::Some(spec_encode_reply(rep)),
            Option::None => Option::None,
        },
        Option::None => Option::None,
    }
}

/// Handles one read's worth of bytes: decode, dispatch, encode.  Yields the
/// wire bytes to write back, or `None` when no reply is owed.  A buffer that
/// does not frame a command never mutates the store — malformed input is an
/// ordinary outcome, not a crash.
pub fn handle_frame(buffer: &[u8], store: &mut Store, now: u64) -> (r: Option<Vec<u8>>)
    ensures
        final(store)@ == spec_handle_store(buffer@, old(store)@, now),
        match r {
            Option::Some(out) => spec_handle_reply(buffer@, old(store)@, now) == Option::Some(
                out@,
            ),
            Option::None => spec_handle_reply(buffer@, old(store)@, now) is None,
        },
        spec_parse(buffer@) is None ==> final(store)@ == old(store)@ && r is None,
{
    match parse_resp_array(buffer) {
        Option::None => Option::None,
        Option::Some(args) => match dispatch(&args, store, now) {
            Option::Some(rep) => Option::Some(encode_reply(&rep)),
            Option::None => Option::None,
        },
    }
}

} // verus!
