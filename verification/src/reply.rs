//! Replies and their wire encoding.
//!
//! A reply is one of three shapes: a simple status string (`+<s>\r\n`), a
//! length-prefixed bulk string (`$<len>\r\n<bytes>\r\n`), or the null marker
//! (`$-1\r\n`).  Payloads are written verbatim, with no escaping: the length
//! prefix makes embedded terminators safe on this side of the wire.

use crate::frame::{encode_bulk_into, append_bytes, spec_encode_bulk, CR, DOLLAR, LF, PLUS};
use vstd::prelude::*;

verus! {

/// A reply to one command.
pub enum Reply {
    /// Simple status, e.g. `OK`.
    Status(Vec<u8>),
    /// Length-prefixed payload.
    Bulk(Vec<u8>),
    /// The null marker: no value.
    Null,
}

/// What a reply denotes.
pub ghost enum ReplyModel {
    Status(Seq<u8>),
    Bulk(Seq<u8>),
    Null,
}

impl View for Reply {
    type V = ReplyModel;

    open spec fn view(&self) -> ReplyModel {
        match self {
            Reply::Status(s) => ReplyModel::Status(s@),
            Reply::Bulk(b) => ReplyModel::Bulk(b@),
            Reply::Null => ReplyModel::Null,
        }
    }
}

/// Wire bytes of a reply.
pub open spec fn spec_encode_reply(r: ReplyModel) -> Seq<u8> {
    match r {
        ReplyModel::Status(s) => seq![PLUS] + s + seq![CR, LF],
        ReplyModel::Bulk(b) => spec_encode_bulk(b),
        ReplyModel::Null => seq![DOLLAR, 45u8, 49u8, CR, LF],
    }
}

/// Serializes a reply to its wire bytes.
pub fn encode_reply(r: &Reply) -> (out: Vec<u8>)
    ensures
        out@ == spec_encode_reply(r@),
{
    match r {
        Reply::Status(s) => {
            let mut out: Vec<u8> = Vec::new();
            out.push(PLUS);
            append_bytes(&mut out, s.as_slice());
            out.push(CR);
            out.push(LF);
            proof {
                assert(out@ =~= spec_encode_reply(r@));
            }
            out
        },
        Reply::Bulk(b) => {
            let mut out: Vec<u8> = Vec::new();
            encode_bulk_into(&mut out, b);
            proof {
                assert(out@ =~= spec_encode_reply(r@));
            }
            out
        },
        Reply::Null => {
            let mut out: Vec<u8> = Vec::new();
            out.push(DOLLAR);
            out.push(45);
            out.push(49);
            out.push(CR);
            out.push(LF);
            proof {
                assert(out@ =~= spec_encode_reply(r@));
            }
            out
        },
    }
}

} // verus!
