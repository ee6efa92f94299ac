//! Requests over HTTP/3.

use vstd::prelude::*;

use crate::digits::{decimal, decimal_of};

verus! {

/// How many connections are open at once.
pub const MAX_QUIC_CONNECTIONS: usize = 512;

/// How many requests a connection carries at once.
pub const MAX_BIDI_STREAMS: u32 = 128;

/// How many streams in one direction a connection has.
pub const MAX_UNI_STREAMS: u32 = 8;

/// After how many milliseconds without traffic a connection ends.
pub const MAX_IDLE_MS: u32 = 60_000;

/// What a client is told when the server ends.
pub const GOING_AWAY: &'static str = "cashttpd shutting down";

/// How clients on the same port are told of the protocol, in the header field
/// `Alt-Svc`.
pub open spec fn advertised(port: u16) -> Seq<char> {
    "h3=\":"@ + decimal(port as int) + "\""@
}

/// How clients on the same port are told of the protocol, in the header field
/// `Alt-Svc`.
pub fn alt_svc(port: u16) -> (r: String)
    ensures
        r@ == advertised(port),
{
    let mut out = "h3=\":".to_owned();
    out.append(decimal_of(port as u64).as_str());
    out.append("\"");
    out
}

/// The body of a request as it comes in. One that is too long is not kept.
#[derive(Debug)]
pub struct Collected {
    /// What has come.
    pub body: Vec<u8>,
    /// Whether it is too long.
    pub oversized: bool,
}

/// What has been kept of the pieces of a body, and whether they are too long
/// together.
pub open spec fn collected(pieces: Seq<Seq<u8>>, limit: int) -> (Seq<u8>, bool)
    decreases pieces.len(),
{
    if pieces.len() == 0 {
        (Seq::empty(), false)
    } else {
        piece_added(collected(pieces.drop_last(), limit), pieces.last(), limit)
    }
}

/// What is kept after one more piece.
pub open spec fn piece_added(c: (Seq<u8>, bool), piece: Seq<u8>, limit: int) -> (Seq<u8>, bool) {
    if c.1 {
        c
    } else if c.0.len() + piece.len() > limit {
        (Seq::empty(), true)
    } else {
        (c.0 + piece, false)
    }
}

impl Collected {
    /// What has come, and whether it is too long.
    pub open spec fn state(self) -> (Seq<u8>, bool) {
        (self.body@, self.oversized)
    }

    /// A body of which nothing has come.
    pub fn new() -> (r: Self)
        ensures
            r.state() == (Seq::<u8>::empty(), false),
    {
        let body: Vec<u8> = Vec::new();
        assert(body@ =~= Seq::<u8>::empty());
        Collected { body, oversized: false }
    }

    /// Takes one more piece.
    pub fn push(&mut self, piece: &[u8], limit: u64)
        ensures
            final(self).state() == piece_added(old(self).state(), piece@, limit as int),
    {
        if self.oversized {
            return ;
        }
        let have: usize = self.body.len();
        let more: usize = piece.len();
        if have as u128 + more as u128 > limit as u128 {
            let empty: Vec<u8> = Vec::new();
            assert(empty@ =~= Seq::<u8>::empty());
            self.oversized = true;
            self.body = empty;
            return ;
        }
        self.body.extend_from_slice(piece);
        assert(self.body@ =~= old(self).body@ + piece@);
    }
}

/// All the bytes of pieces, one after the other.
pub open spec fn all_bytes(pieces: Seq<Seq<u8>>) -> Seq<u8>
    decreases pieces.len(),
{
    if pieces.len() == 0 {
        Seq::empty()
    } else {
        all_bytes(pieces.drop_last()) + pieces.last()
    }
}

/// A body within the limit is kept whole, in however many pieces it comes, and of
/// one that is too long nothing is kept.
pub proof fn bodies_are_kept_whole_or_not_at_all(pieces: Seq<Seq<u8>>, limit: int)
    ensures
        all_bytes(pieces).len() <= limit ==> collected(pieces, limit) == (all_bytes(pieces), false),
        all_bytes(pieces).len() > limit && limit >= 0 ==> collected(pieces, limit) == (
            Seq::<u8>::empty(),
            true,
        ),
    decreases pieces.len(),
{
    if pieces.len() > 0 {
        bodies_are_kept_whole_or_not_at_all(pieces.drop_last(), limit);
    }
}

} // verus!
