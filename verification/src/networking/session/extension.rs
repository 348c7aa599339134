//! Extension messages a peer session handles itself: the compact peer
//! lists of peer exchange (BEP 11), and the torrent metadata a peer sends
//! piece by piece (BEP 9).
use vstd::prelude::*;
use vstd::string::*;
use crate::networking::wire::{from_be16, read_be16};
use crate::torrent_file::parser::{decimal_text, to_decimal};

verus! {

/// The size of a metadata piece.
pub const METADATA_PIECE_LEN: usize = 16384;

/// An IPv4 address in dotted decimal.
pub open spec fn dotted_quad(a: u8, b: u8, c: u8, d: u8) -> Seq<char> {
    decimal_text(a as nat) + seq!['.'] + decimal_text(b as nat) + seq!['.'] + decimal_text(c as nat) + seq!['.']
        + decimal_text(d as nat)
}

/// The peers of a compact list: each whole 6-byte entry is an IPv4 address
/// and a big-endian port; a shorter tail is ignored.
pub open spec fn compact_peers(bytes: Seq<u8>) -> Seq<(Seq<char>, u16)> {
    Seq::new(
        bytes.len() / 6,
        |k: int|
            (
                dotted_quad(bytes[6 * k], bytes[6 * k + 1], bytes[6 * k + 2], bytes[6 * k + 3]),
                from_be16(bytes[6 * k + 4], bytes[6 * k + 5]),
            ),
    )
}

/// `s` followed by the decimal digits of `n`.
fn push_decimal(s: &mut String, n: u8)
    ensures
        final(s)@ == old(s)@ + decimal_text(n as nat),
{
    let digits = to_decimal(n as u64);
    s.append(digits.as_str());
}

/// An IPv4 address in dotted decimal.
fn dotted(a: u8, b: u8, c: u8, d: u8) -> (r: String)
    ensures
        r@ == dotted_quad(a, b, c, d),
{
    proof {
        reveal_strlit(".");
    }
    let mut s = String::new();
    push_decimal(&mut s, a);
    s.append(".");
    push_decimal(&mut s, b);
    s.append(".");
    push_decimal(&mut s, c);
    s.append(".");
    push_decimal(&mut s, d);
    assert(s@ =~= dotted_quad(a, b, c, d));
    s
}

/// The peers of a compact peer list, as (address, port).
pub fn decode_compact_peers(bytes: &[u8]) -> (r: Vec<(String, u16)>)
    ensures
        r@.len() == compact_peers(bytes@).len(),
        forall|k: int| 0 <= k < r@.len() ==> (#[trigger] r@[k]).0@ == compact_peers(bytes@)[k].0 && r@[k].1
            == compact_peers(bytes@)[k].1,
{
    let len = bytes.len();
    let n = len / 6;
    let mut r: Vec<(String, u16)> = Vec::new();
    let mut k: usize = 0;
    while k < n
        invariant
            n == bytes@.len() / 6,
            len == bytes@.len(),
            k <= n,
            r@.len() == k,
            forall|j: int| 0 <= j < k ==> (#[trigger] r@[j]).0@ == compact_peers(bytes@)[j].0 && r@[j].1
                == compact_peers(bytes@)[j].1,
        decreases n - k,
    {
        assert(6 * k + 6 <= len) by (nonlinear_arith)
            requires
                k < n,
                n == len / 6,
        ;
        let at = 6 * k;
        let ip = dotted(bytes[at], bytes[at + 1], bytes[at + 2], bytes[at + 3]);
        let port = read_be16(bytes[at + 4], bytes[at + 5]);
        r.push((ip, port));
        k = k + 1;
    }
    r
}

/// What to do after a metadata piece arrived.
#[derive(Debug, Clone, Copy, PartialEq, Eq, Structural)]
pub enum MetadataStep {
    /// The piece was shorter than expected; nothing was taken.
    Ignored,
    /// Every byte of the metadata is in.
    Complete,
    /// Ask the peer for this piece next.
    RequestPiece(usize),
}

/// The metadata received from a peer so far: which piece is awaited and the
/// bytes gathered.
#[derive(Debug)]
pub struct MetadataAssembly {
    pub piece_count: usize,
    pub bytes: Vec<u8>,
}

/// How many metadata bytes the piece at `piece_count` carries out of
/// `total`: a whole piece, or what is left of the metadata.
pub open spec fn expected_piece_len(total: usize, piece_count: usize) -> int {
    let offset = piece_count * METADATA_PIECE_LEN;
    let left = if total >= offset { total - offset } else { 0 };
    if left < METADATA_PIECE_LEN { left } else { METADATA_PIECE_LEN as int }
}

impl MetadataAssembly {
    /// Nothing received; the first piece is awaited.
    pub fn new() -> (r: Self)
        ensures
            r.piece_count == 0,
            r.bytes@.len() == 0,
    {
        MetadataAssembly { piece_count: 0, bytes: Vec::new() }
    }

    /// Takes a metadata message of a peer whose metadata is `total_len`
    /// bytes: the expected number of bytes is taken from the end of the
    /// payload (what precedes it is the message's header); once all bytes
    /// are in the metadata is complete, else the next piece is asked for. A
    /// payload shorter than expected is ignored.
    pub fn accept_piece(&mut self, total_len: i64, payload: &[u8]) -> (step: MetadataStep)
        requires
            old(self).piece_count * METADATA_PIECE_LEN <= usize::MAX,
            old(self).piece_count < usize::MAX,
        ensures
            ({
                let total = total_len as usize;
                let want = expected_piece_len(total, old(self).piece_count);
                if payload@.len() < want {
                    &&& step == MetadataStep::Ignored
                    &&& final(self).bytes@ == old(self).bytes@
                    &&& final(self).piece_count == old(self).piece_count
                } else {
                    let gathered = old(self).bytes@ + payload@.subrange(payload@.len() - want, payload@.len() as int);
                    &&& final(self).bytes@ == gathered
                    &&& if gathered.len() == total {
                        &&& step == MetadataStep::Complete
                        &&& final(self).piece_count == old(self).piece_count
                    } else {
                        &&& step == MetadataStep::RequestPiece((old(self).piece_count + 1) as usize)
                        &&& final(self).piece_count == old(self).piece_count + 1
                    }
                }
            }),
    {
        let total = total_len as usize;
        let offset = self.piece_count * METADATA_PIECE_LEN;
        let left = if total >= offset { total - offset } else { 0 };
        let want = if left < METADATA_PIECE_LEN { left } else { METADATA_PIECE_LEN };
        if payload.len() < want {
            return MetadataStep::Ignored;
        }
        let start = payload.len() - want;
        let ghost before = self.bytes@;
        let mut i: usize = start;
        while i < payload.len()
            invariant
                start <= i <= payload@.len(),
                self.bytes@ == before + payload@.subrange(start as int, i as int),
                self.piece_count == old(self).piece_count,
                old(self).piece_count < usize::MAX,
            decreases payload@.len() - i,
        {
            self.bytes.push(payload[i]);
            proof {
                assert(payload@.subrange(start as int, i + 1) =~= payload@.subrange(start as int, i as int).push(payload@[i as int]));
            }
            i = i + 1;
        }
        if self.bytes.len() == total {
            MetadataStep::Complete
        } else {
            self.piece_count = self.piece_count + 1;
            MetadataStep::RequestPiece(self.piece_count)
        }
    }
}

} // verus!
