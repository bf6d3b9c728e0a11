//! Frame decoder and encoder for the wire protocol.
//!
//! A request frame is an array of bulk strings:
//!
//! ```text
//! *<N>\r\n ( $<L>\r\n<bytes>\r\n ){N}
//! ```
//!
//! The decoder splits its input on `\r\n` line terminators and decides
//! everything by them, consistently:
//!
//! - Stated lengths on `$` lines are not enforced against the following
//!   line: the terminator is the one boundary trusted.
//! - A final piece without a terminator — including the empty piece after a
//!   trailing `\r\n` — still counts as a line, exactly as splitting on the
//!   terminator yields it.
//! - The element count after `*` is a plain digit run: no sign and no
//!   leading `+`.
//!
//! Any missing or misshapen line makes the whole decode fail; there is no
//! partial success.

use crate::digits::{all_digits, dec_digits, lemma_dec_digits, parse_u64_digits, spec_parse_u64,
    u64_to_dec};
use vstd::prelude::*;
use vstd::slice::{slice_subrange, slice_to_vec};

verus! {

/// ASCII carriage return.
pub const CR: u8 = 13;

/// ASCII line feed.
pub const LF: u8 = 10;

/// ASCII `*`, the array header marker.
pub const STAR: u8 = 42;

/// ASCII `$`, the bulk-string header marker.
pub const DOLLAR: u8 = 36;

/// ASCII `+`, the simple-status marker.
pub const PLUS: u8 = 43;

/// Index of the first `\r\n` pair at or after `i`, if any.
pub open spec fn crlf_pos(s: Seq<u8>, i: int) -> Option<int>
    decreases s.len() - i,
{
    if i < 0 || i + 2 > s.len() {
        Option::None
    } else if s[i] == CR && s[i + 1] == LF {
        Option::Some(i)
    } else {
        crlf_pos(s, i + 1)
    }
}

/// The logical line starting at `pos`: bytes up to the next `\r\n`, or up to
/// the end of input when no terminator follows (a final unterminated piece is
/// still a line, as splitting on `\r\n` yields it).
pub open spec fn line_at(s: Seq<u8>, pos: int) -> Seq<u8> {
    match crlf_pos(s, pos) {
        Option::Some(j) => s.subrange(pos, j),
        Option::None => s.subrange(pos, s.len() as int),
    }
}

/// Start of the line after the one at `pos`, or `None` when the line at
/// `pos` was the last piece of the input.
pub open spec fn next_pos(s: Seq<u8>, pos: int) -> Option<int> {
    match crlf_pos(s, pos) {
        Option::Some(j) => Option::Some(j + 2),
        Option::None => Option::None,
    }
}

/// Decodes `n` bulk-string elements starting from line state `st` (`None`
/// means the line supply is exhausted).  Each element is a `$` header line
/// followed by a verbatim content line.
pub open spec fn parse_elems(s: Seq<u8>, st: Option<int>, n: nat) -> Option<Seq<Seq<u8>>>
    decreases n,
{
    if n == 0 {
        Option::Some(Seq::empty())
    } else {
        match st {
            Option::None => Option::None,
            Option::Some(pos) => {
                let header = line_at(s, pos);
                if header.len() == 0 || header[0] != DOLLAR {
                    Option::None
                } else {
                    match next_pos(s, pos) {
                        Option::None => Option::None,
                        Option::Some(pos2) => {
                            let content = line_at(s, pos2);
                            match parse_elems(s, next_pos(s, pos2), (n - 1) as nat) {
                                Option::Some(rest) => Option::Some(seq![content] + rest),
                                Option::None => Option::None,
                            }
                        },
                    }
                }
            },
        }
    }
}

/// Full decode of a frame: a `*<N>` header line, then `N` elements.  `None`
/// is the single "not parseable as a command" outcome.
pub open spec fn spec_parse(s: Seq<u8>) -> Option<Seq<Seq<u8>>> {
    let header = line_at(s, 0);
    if header.len() == 0 || header[0] != STAR {
        Option::None
    } else {
        match spec_parse_u64(header.skip(1)) {
            Option::Some(n) => parse_elems(s, next_pos(s, 0), n as nat),
            Option::None => Option::None,
        }
    }
}

/// Line state as tracked by the executable decoder.
spec fn st_of(live: bool, pos: usize) -> Option<int> {
    if live {
        Option::Some(pos as int)
    } else {
        Option::None
    }
}

/// Finds the first `\r\n` pair at or after `from`.
fn find_crlf(s: &[u8], from: usize) -> (r: Option<usize>)
    requires
        from <= s@.len(),
    ensures
        match r {
            Option::Some(j) => crlf_pos(s@, from as int) == Option::Some(j as int) && from <= j
                && j + 2 <= s@.len(),
            Option::None => crlf_pos(s@, from as int) is None,
        },
{
    let n = s.len();
    let mut i: usize = from;
    while i < n && i + 1 < n
        invariant
            from <= i <= s@.len(),
            n == s@.len(),
            crlf_pos(s@, from as int) == crlf_pos(s@, i as int),
        decreases s@.len() - i,
    {
        if s[i] == CR && s[i + 1] == LF {
            return Option::Some(i);
        }
        i = i + 1;
    }
    Option::None
}

/// A `Vec` of byte vectors, seen as a sequence of byte sequences.
pub open spec fn views_of(args: Seq<Vec<u8>>) -> Seq<Seq<u8>> {
    args.map_values(|v: Vec<u8>| v@)
}

/// Decodes a byte buffer as one array-of-bulk-strings frame, yielding the
/// argument list, or `None` when the buffer does not frame a command.
/// Framing is all it checks: arguments come back verbatim.
pub fn parse_resp_array(buffer: &[u8]) -> (r: Option<Vec<Vec<u8>>>)
    ensures
        match r {
            Option::Some(args) => spec_parse(buffer@) == Option::Some(views_of(args@)),
            Option::None => spec_parse(buffer@) is None,
        },
{
    let blen = buffer.len();
    let (header_end, mut pos, mut live): (usize, usize, bool) = match find_crlf(buffer, 0) {
        Option::Some(j) => (j, j + 2, true),
        Option::None => (blen, 0, false),
    };
    proof {
        assert(line_at(buffer@, 0) =~= buffer@.subrange(0, header_end as int));
    }
    if header_end == 0 {
        return Option::None;
    }
    if buffer[0] != STAR {
        return Option::None;
    }
    let count = match parse_u64_digits(buffer, 1, header_end) {
        Option::Some(n) => n,
        Option::None => {
            proof {
                assert(line_at(buffer@, 0).skip(1) =~= buffer@.subrange(1, header_end as int));
            }
            return Option::None;
        },
    };
    proof {
        assert(line_at(buffer@, 0).skip(1) =~= buffer@.subrange(1, header_end as int));
    }
    let mut args: Vec<Vec<u8>> = Vec::new();
    let mut k: u64 = 0;
    while k < count
        invariant
            k <= count,
            live ==> pos <= buffer@.len(),
            blen == buffer@.len(),
            args@.len() == k,
            spec_parse(buffer@) == match parse_elems(buffer@, st_of(live, pos), (count - k) as nat) {
                Option::Some(rest) => Option::Some(views_of(args@) + rest),
                Option::None => Option::<Seq<Seq<u8>>>::None,
            },
        decreases count - k,
    {
        let ghost st0 = st_of(live, pos);
        let ghost m = (count - k) as nat;
        if !live {
            return Option::None;
        }
        // `$` header line of the next element
        let header_start = pos;
        let (h_end, h_live, h_pos): (usize, bool, usize) = match find_crlf(buffer, pos) {
            Option::Some(j) => (j, true, j + 2),
            Option::None => (blen, false, 0),
        };
        proof {
            assert(line_at(buffer@, pos as int) =~= buffer@.subrange(pos as int, h_end as int));
        }
        if h_end == header_start {
            return Option::None;
        }
        if buffer[header_start] != DOLLAR {
            return Option::None;
        }
        if !h_live {
            return Option::None;
        }
        // verbatim content line
        let (c_end, c_live, c_pos): (usize, bool, usize) = match find_crlf(buffer, h_pos) {
            Option::Some(j) => (j, true, j + 2),
            Option::None => (blen, false, 0),
        };
        proof {
            assert(line_at(buffer@, h_pos as int) =~= buffer@.subrange(h_pos as int, c_end as int));
        }
        let content: Vec<u8> = slice_to_vec(slice_subrange(buffer, h_pos, c_end));
        args.push(content);
        k = k + 1;
        live = c_live;
        pos = c_pos;
        proof {
            let ghost content_v = line_at(buffer@, h_pos as int);
            assert(parse_elems(buffer@, st0, m) == match parse_elems(buffer@, st_of(live, pos), (m - 1) as nat) {
                Option::Some(rest) => Option::Some(seq![content_v] + rest),
                Option::None => Option::<Seq<Seq<u8>>>::None,
            });
            assert(views_of(args@) =~= views_of(args@.drop_last()).push(content_v));
            assert forall|rest: Seq<Seq<u8>>|
                views_of(args@.drop_last()) + (seq![content_v] + rest) =~= views_of(args@)
                    + rest by {}
        }
    }
    proof {
        assert(parse_elems(buffer@, st_of(live, pos), 0nat) == Option::Some(Seq::<Seq<u8>>::empty()));
        assert(views_of(args@) + Seq::<Seq<u8>>::empty() =~= views_of(args@));
    }
    Option::Some(args)
}

/// Wire form of one bulk string: `$<len>\r\n<bytes>\r\n`.
pub open spec fn spec_encode_bulk(a: Seq<u8>) -> Seq<u8> {
    seq![DOLLAR] + dec_digits(a.len()) + seq![CR, LF] + a + seq![CR, LF]
}

/// Wire form of the elements of a frame, in order.
pub open spec fn spec_encode_elems(args: Seq<Seq<u8>>) -> Seq<u8>
    decreases args.len(),
{
    if args.len() == 0 {
        Seq::empty()
    } else {
        spec_encode_bulk(args[0]) + spec_encode_elems(args.skip(1))
    }
}

/// Wire form of a whole frame: `*<N>\r\n` then the elements.
pub open spec fn spec_encode_array(args: Seq<Seq<u8>>) -> Seq<u8> {
    seq![STAR] + dec_digits(args.len()) + seq![CR, LF] + spec_encode_elems(args)
}

/// Appends the bytes of `s` to `out`.
pub(crate) fn append_bytes(out: &mut Vec<u8>, s: &[u8])
    ensures
        final(out)@ == old(out)@ + s@,
{
    let n = s.len();
    let mut i: usize = 0;
    while i < n
        invariant
            i <= n,
            n == s@.len(),
            out@ == old(out)@ + s@.take(i as int),
        decreases n - i,
    {
        out.push(s[i]);
        proof {
            assert(old(out)@ + s@.take(i + 1) =~= (old(out)@ + s@.take(i as int)).push(s@[i as int]));
        }
        i = i + 1;
    }
    proof {
        assert(old(out)@ + s@.take(n as int) =~= old(out)@ + s@);
    }
}

/// Appends the wire form of one bulk string to `out`.
pub(crate) fn encode_bulk_into(out: &mut Vec<u8>, a: &Vec<u8>)
    ensures
        final(out)@ == old(out)@ + spec_encode_bulk(a@),
{
    out.push(DOLLAR);
    let len_digits = u64_to_dec(a.len() as u64);
    append_bytes(out, len_digits.as_slice());
    out.push(CR);
    out.push(LF);
    append_bytes(out, a.as_slice());
    out.push(CR);
    out.push(LF);
    proof {
        assert(out@ =~= old(out)@ + spec_encode_bulk(a@));
    }
}

/// Peeling the last element off an encoding.
proof fn lemma_encode_elems_snoc(args: Seq<Seq<u8>>)
    requires
        args.len() > 0,
    ensures
        spec_encode_elems(args) == spec_encode_elems(args.drop_last()) + spec_encode_bulk(
            args.last(),
        ),
    decreases args.len(),
{
    if args.len() == 1 {
        assert(args.drop_last() =~= Seq::<Seq<u8>>::empty());
        assert(spec_encode_elems(args.skip(1)) == Seq::<u8>::empty()) by {
            assert(args.skip(1) =~= Seq::<Seq<u8>>::empty());
        }
        assert(spec_encode_elems(args) =~= spec_encode_elems(args.drop_last()) + spec_encode_bulk(
            args.last(),
        ));
    } else {
        lemma_encode_elems_snoc(args.skip(1));
        assert(args.skip(1).drop_last() =~= args.drop_last().skip(1));
        assert(args.skip(1).last() == args.last());
        assert(args.drop_last()[0] == args[0]);
        assert(spec_encode_elems(args) == spec_encode_bulk(args[0]) + (spec_encode_elems(
            args.drop_last().skip(1),
        ) + spec_encode_bulk(args.last())));
        assert(spec_encode_elems(args.drop_last()) == spec_encode_bulk(args[0])
            + spec_encode_elems(args.drop_last().skip(1)));
        assert(spec_encode_bulk(args[0]) + (spec_encode_elems(args.drop_last().skip(1))
            + spec_encode_bulk(args.last())) =~= (spec_encode_bulk(args[0]) + spec_encode_elems(
            args.drop_last().skip(1),
        )) + spec_encode_bulk(args.last()));
    }
}

/// Encodes an argument list as one array-of-bulk-strings frame.
pub fn encode_array(args: &Vec<Vec<u8>>) -> (out: Vec<u8>)
    ensures
        out@ == spec_encode_array(views_of(args@)),
{
    let mut out: Vec<u8> = Vec::new();
    out.push(STAR);
    let count_digits = u64_to_dec(args.len() as u64);
    append_bytes(&mut out, count_digits.as_slice());
    out.push(CR);
    out.push(LF);
    proof {
        assert(views_of(args@).len() == args@.len());
        assert(out@ =~= seq![STAR] + dec_digits(views_of(args@).len()) + seq![CR, LF]
            + spec_encode_elems(views_of(args@).take(0)));
    }
    let ghost prefix = seq![STAR] + dec_digits(views_of(args@).len()) + seq![CR, LF];
    let n = args.len();
    let mut i: usize = 0;
    while i < n
        invariant
            i <= n,
            n == args@.len(),
            out@ == prefix + spec_encode_elems(views_of(args@).take(i as int)),
            prefix == seq![STAR] + dec_digits(views_of(args@).len()) + seq![CR, LF],
        decreases n - i,
    {
        encode_bulk_into(&mut out, &args[i]);
        proof {
            let vs = views_of(args@);
            assert(vs.take(i + 1).drop_last() =~= vs.take(i as int));
            assert(vs.take(i + 1).last() == args@[i as int]@);
            lemma_encode_elems_snoc(vs.take(i + 1));
            assert(prefix + spec_encode_elems(vs.take(i + 1)) =~= (prefix + spec_encode_elems(
                vs.take(i as int),
            )) + spec_encode_bulk(args@[i as int]@));
        }
        i = i + 1;
    }
    proof {
        assert(views_of(args@).take(n as int) =~= views_of(args@));
    }
    out
}

/// `a` holds neither carriage return nor line feed, so the line terminator
/// can frame it unambiguously.
pub open spec fn clean_arg(a: Seq<u8>) -> bool {
    forall|i: int| 0 <= i < a.len() ==> a[i] != CR && #[trigger] a[i] != LF
}

/// Every argument is clean.
pub open spec fn clean_args(args: Seq<Seq<u8>>) -> bool {
    forall|i: int| 0 <= i < args.len() ==> clean_arg(#[trigger] args[i])
}

/// Scanning from `pos` over bytes that are not `\r` finds exactly the `\r\n`
/// pair sitting at `end`.
proof fn lemma_crlf_pos_scan(s: Seq<u8>, pos: int, end: int)
    requires
        0 <= pos <= end,
        end + 2 <= s.len(),
        forall|k: int| pos <= k < end ==> #[trigger] s[k] != CR,
        s[end] == CR,
        s[end + 1] == LF,
    ensures
        crlf_pos(s, pos) == Option::Some(end),
    decreases end - pos,
{
    if pos < end {
        lemma_crlf_pos_scan(s, pos + 1, end);
    }
}

/// Reading one terminated line whose body holds no `\r`: the line comes back
/// verbatim and the rest of the input follows the terminator.
proof fn lemma_line_at_clean(s: Seq<u8>, pos: int, line: Seq<u8>, rest: Seq<u8>)
    requires
        0 <= pos <= s.len(),
        s.skip(pos) == line + seq![CR, LF] + rest,
        forall|i: int| 0 <= i < line.len() ==> #[trigger] line[i] != CR,
    ensures
        line_at(s, pos) == line,
        next_pos(s, pos) == Option::Some(pos + line.len() + 2),
        s.skip(pos + line.len() + 2) == rest,
{
    let l = line.len() as int;
    assert(s.skip(pos).len() == l + 2 + rest.len());
    assert forall|k: int| pos <= k < pos + l implies #[trigger] s[k] != CR by {
        assert(s[k] == s.skip(pos)[k - pos]);
        assert(s.skip(pos)[k - pos] == line[k - pos]);
    }
    assert(s[pos + l] == s.skip(pos)[l]);
    assert(s[pos + l] == CR);
    assert(s[pos + l + 1] == s.skip(pos)[l + 1]);
    assert(s[pos + l + 1] == LF);
    lemma_crlf_pos_scan(s, pos, pos + l);
    assert(line_at(s, pos) =~= line);
    assert forall|i: int| 0 <= i < rest.len() implies #[trigger] s.skip(pos + l + 2)[i] == rest[i] by {
        assert(s.skip(pos + l + 2)[i] == s[pos + l + 2 + i]);
        assert(s[pos + l + 2 + i] == s.skip(pos)[l + 2 + i]);
        assert(s.skip(pos)[l + 2 + i] == rest[i]);
    }
    assert(s.skip(pos + l + 2) =~= rest);
}

/// Digit bytes and the `$`/`*` markers are never `\r`.
proof fn lemma_digits_no_cr(d: Seq<u8>)
    requires
        all_digits(d),
    ensures
        forall|i: int| 0 <= i < d.len() ==> #[trigger] d[i] != CR,
{
}

/// Parsing the encoding of `args` from `pos` recovers `args`, provided no
/// argument holds a terminator byte.
proof fn lemma_parse_encoded_elems(s: Seq<u8>, pos: int, args: Seq<Seq<u8>>)
    requires
        0 <= pos <= s.len(),
        s.skip(pos) == spec_encode_elems(args),
        clean_args(args),
    ensures
        parse_elems(s, Option::Some(pos), args.len()) == Option::Some(args),
    decreases args.len(),
{
    if args.len() == 0 {
        assert(args =~= Seq::<Seq<u8>>::empty());
    } else {
        let a = args[0];
        let d = dec_digits(a.len());
        lemma_dec_digits(a.len());
        let header = seq![DOLLAR] + d;
        let tail = a + seq![CR, LF] + spec_encode_elems(args.skip(1));
        assert(s.skip(pos) == header + seq![CR, LF] + tail) by {
            assert(spec_encode_bulk(a) + spec_encode_elems(args.skip(1)) =~= header + seq![CR, LF]
                + tail);
        }
        lemma_digits_no_cr(d);
        assert(forall|i: int| 0 <= i < header.len() ==> #[trigger] header[i] != CR);
        lemma_line_at_clean(s, pos, header, tail);
        let pos2 = pos + header.len() + 2;
        assert(s.skip(pos).len() == header.len() + 2 + tail.len());
        assert(pos2 + tail.len() == s.len());
        assert(line_at(s, pos)[0] == DOLLAR);
        assert(s.skip(pos2) == a + seq![CR, LF] + spec_encode_elems(args.skip(1))) by {
            assert(tail =~= a + seq![CR, LF] + spec_encode_elems(args.skip(1)));
        }
        assert(clean_arg(a));
        lemma_line_at_clean(s, pos2, a, spec_encode_elems(args.skip(1)));
        let pos3 = pos2 + a.len() + 2;
        assert(clean_args(args.skip(1))) by {
            assert(forall|i: int| 0 <= i < args.skip(1).len() ==> #[trigger] args.skip(1)[i]
                == args[i + 1]);
        }
        lemma_parse_encoded_elems(s, pos3, args.skip(1));
        assert(seq![a] + args.skip(1) =~= args);
    }
}

/// Round-trip framing: encoding any argument list whose strings hold no
/// terminator bytes, then decoding, reproduces the list exactly.
pub proof fn lemma_encode_parse_round_trip(args: Seq<Seq<u8>>)
    requires
        clean_args(args),
        args.len() <= u64::MAX,
    ensures
        spec_parse(spec_encode_array(args)) == Option::Some(args),
{
    let s = spec_encode_array(args);
    let d = dec_digits(args.len());
    lemma_dec_digits(args.len());
    let header = seq![STAR] + d;
    assert(s.skip(0) == header + seq![CR, LF] + spec_encode_elems(args)) by {
        assert(s.skip(0) =~= s);
        assert(s =~= header + seq![CR, LF] + spec_encode_elems(args));
    }
    lemma_digits_no_cr(d);
    assert(forall|i: int| 0 <= i < header.len() ==> #[trigger] header[i] != CR);
    lemma_line_at_clean(s, 0, header, spec_encode_elems(args));
    assert(line_at(s, 0)[0] == STAR);
    assert(line_at(s, 0).skip(1) =~= d);
    assert(spec_parse_u64(d) == Option::Some(args.len() as u64));
    lemma_parse_encoded_elems(s, header.len() as int + 2, args);
}

} // verus!
