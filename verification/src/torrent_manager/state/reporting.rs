//! What a torrent tells others about itself: the bitfield it announces to
//! peers and the one-line activity shown for it.
use vstd::prelude::*;
use vstd::string::*;
use crate::torrent_file::parser::{decimal_text, to_decimal};
use crate::torrent_manager::piece_manager::PieceStatus;
use super::{message_bits, TorrentActivity, TorrentState, TorrentStatus, TorrentSummary};

verus! {

/// Setting bit `k` (most significant first) of a byte changes that bit only.
proof fn lemma_set_bit(byte: u8, k: u8, t: u8)
    by (bit_vector)
    requires
        k < 8,
        t < 8,
    ensures
        ((byte | (1u8 << ((7 - k) as u8))) >> ((7 - t) as u8)) & 1u8 == if t == k {
            1u8
        } else {
            (byte >> ((7 - t) as u8)) & 1u8
        },
{
}

/// A zero byte has no bit set.
proof fn lemma_zero_bits(t: u8)
    by (bit_vector)
    requires
        t < 8,
    ensures
        (0u8 >> ((7 - t) as u8)) & 1u8 == 0u8,
{
}

/// Whether piece `i` is announced: it exists and is done.
pub open spec fn announced(bits: Seq<PieceStatus>, i: int) -> bool {
    i < bits.len() && bits[i] == PieceStatus::Done
}

/// The activity line of a torrent: paused, validating, finished or seeding,
/// what it receives, verifies or sends while data flows, stalled with peers
/// but no traffic, else what it does to find peers.
pub open spec fn activity_text(
    is_paused: bool,
    status: TorrentStatus,
    activity: TorrentActivity,
    has_peers: bool,
    dl_speed: u64,
    ul_speed: u64,
) -> Seq<char> {
    if is_paused {
        "Paused"@
    } else if status == TorrentStatus::Validating {
        "Validating..."@
    } else if status == TorrentStatus::Done {
        if ul_speed > 0 { "Seeding"@ } else { "Finished"@ }
    } else if dl_speed > 0 {
        match activity {
            TorrentActivity::DownloadingPiece(p) => "Receiving piece #"@ + decimal_text(p as nat),
            TorrentActivity::VerifyingPiece(p) => "Verifying piece #"@ + decimal_text(p as nat),
            _ => "Downloading"@,
        }
    } else if ul_speed > 0 {
        match activity {
            TorrentActivity::SendingPiece(p) => "Sending piece #"@ + decimal_text(p as nat),
            _ => "Uploading"@,
        }
    } else if has_peers {
        "Stalled"@
    } else {
        match activity {
            TorrentActivity::SearchingDht => "Searching DHT for peers..."@,
            TorrentActivity::AnnouncingToTracker => "Contacting tracker..."@,
            _ => "Connecting to peers..."@,
        }
    }
}

/// How much of a torrent is there, as reported with its metrics.
#[derive(Debug, Clone, Copy, PartialEq, Eq, Structural)]
pub struct TorrentProgress {
    pub number_of_pieces_total: u32,
    pub number_of_pieces_completed: u32,
    /// Seconds until done at the current download speed; `None` while
    /// nothing is downloading.
    pub eta_secs: Option<u64>,
    /// Bytes of the torrent's data on disk.
    pub bytes_written: u64,
}

/// The number of pieces that are done.
pub open spec fn done_count(bits: Seq<PieceStatus>) -> nat
    decreases bits.len(),
{
    if bits.len() == 0 {
        0
    } else {
        done_count(bits.drop_last()) + if bits.last() == PieceStatus::Done { 1nat } else { 0nat }
    }
}

/// The pieces completed: those validation found while validating, else the
/// total less the remaining ones.
pub open spec fn completed_pieces(s: TorrentState, total: u32) -> int {
    if s.torrent_status == TorrentStatus::Validating {
        s.validation_pieces_found as int
    } else {
        total - (s.piece_manager.pieces_remaining as u32)
    }
}

/// The bytes still to download: the size less a piece length per done piece
/// (each term saturating).
pub open spec fn bytes_left(s: TorrentState, t: TorrentSummary, total_size: u64) -> int {
    let done = (t.piece_length as u64) * done_count(s.piece_manager.bitfield@);
    let done_sat = if done > u64::MAX { u64::MAX as int } else { done };
    if total_size >= done_sat { total_size - done_sat } else { 0 }
}

/// `prefix` followed by the decimal digits of `n`.
fn with_number(prefix: &str, n: u32) -> (r: String)
    ensures
        r@ == prefix@ + decimal_text(n as nat),
{
    let mut s = prefix.to_owned();
    let digits = to_decimal(n as u64);
    s.append(digits.as_str());
    s
}

impl TorrentState {
    /// Whether `progress` can be computed without overflow: the remaining
    /// pieces do not outnumber the pieces, and the products it forms fit.
    pub open spec fn progress_fits(self, t: TorrentSummary, total_size: u64, dl_speed: u64) -> bool {
        let total = t.num_pieces as u32;
        &&& self.torrent_status != TorrentStatus::Validating ==> (self.piece_manager.pieces_remaining as u32) <= total
        &&& (self.piece_manager.pieces_remaining != 0 && dl_speed != 0) ==> bytes_left(self, t, total_size) * 8 <= u64::MAX
        &&& completed_pieces(self, total) != total ==> completed_pieces(self, total) * (t.piece_length as u64) <= u64::MAX
    }

    /// The progress figures of a torrent with metadata `t` whose data is
    /// `total_size` bytes, downloading at `dl_speed` bits per second: the
    /// piece counts, the time left (none when nothing remains, unknown at no
    /// speed, else the bits left over the speed) and the bytes written (all
    /// of them once every piece is complete, else a piece length per
    /// completed piece).
    pub fn progress(&self, t: &TorrentSummary, total_size: u64, dl_speed: u64) -> (r: TorrentProgress)
        requires
            self.progress_fits(*t, total_size, dl_speed),
        ensures
            r.number_of_pieces_total == t.num_pieces as u32,
            r.number_of_pieces_completed == completed_pieces(*self, t.num_pieces as u32),
            r.eta_secs == if self.piece_manager.pieces_remaining == 0 {
                Some(0u64)
            } else if dl_speed == 0 {
                None
            } else {
                Some(((bytes_left(*self, *t, total_size) * 8) / (dl_speed as int)) as u64)
            },
            r.bytes_written == if r.number_of_pieces_completed == r.number_of_pieces_total {
                total_size
            } else {
                (r.number_of_pieces_completed * (t.piece_length as u64)) as u64
            },
    {
        let total = t.num_pieces as u32;
        let completed = if self.torrent_status == TorrentStatus::Validating {
            self.validation_pieces_found
        } else {
            total - self.piece_manager.pieces_remaining as u32
        };
        let eta_secs = if self.piece_manager.pieces_remaining == 0 {
            Some(0u64)
        } else if dl_speed == 0 {
            None
        } else {
            let bits = &self.piece_manager.bitfield;
            let mut done: u64 = 0;
            let mut i: usize = 0;
            while i < bits.len()
                invariant
                    i <= bits@.len(),
                    done == done_count(bits@.take(i as int)),
                    done <= i,
                decreases bits@.len() - i,
            {
                proof {
                    assert(bits@.take(i + 1).drop_last() =~= bits@.take(i as int));
                }
                if bits[i] == PieceStatus::Done {
                    done = done + 1;
                }
                i = i + 1;
            }
            proof {
                assert(bits@.take(i as int) =~= bits@);
            }
            let completed_bytes = match (t.piece_length as u64).checked_mul(done) {
                Some(v) => v,
                None => u64::MAX,
            };
            let remaining = total_size.saturating_sub(completed_bytes);
            Some((remaining * 8) / dl_speed)
        };
        let bytes_written = if completed == total {
            total_size
        } else {
            completed as u64 * t.piece_length as u64
        };
        TorrentProgress { number_of_pieces_total: total, number_of_pieces_completed: completed, eta_secs, bytes_written }
    }

    /// The bitfield message payload for this torrent: one bit per piece, most
    /// significant bit first, set for the pieces that are done; the last
    /// byte padded with zero bits.
    pub fn generate_bitfield(&self) -> (r: Vec<u8>)
        ensures
            r@.len() == (self.piece_manager.bitfield@.len() + 7) / 8,
            forall|i: int| 0 <= i < 8 * r@.len() ==> #[trigger] message_bits(r@)[i] == announced(
                self.piece_manager.bitfield@,
                i,
            ),
    {
        let bits = &self.piece_manager.bitfield;
        let n = bits.len();
        let num_bytes: usize = n / 8 + if n % 8 > 0 { 1 } else { 0 };
        let mut bytes: Vec<u8> = Vec::new();
        while bytes.len() < num_bytes
            invariant
                bytes@.len() <= num_bytes,
                forall|j: int| 0 <= j < bytes@.len() ==> bytes@[j] == 0u8,
            decreases num_bytes - bytes@.len(),
        {
            bytes.push(0u8);
        }
        assert forall|q: int| 0 <= q < 8 * bytes@.len() implies #[trigger] message_bits(bytes@)[q] == (q < 0 && announced(bits@, q)) by {
            lemma_zero_bits((q % 8) as u8);
        }
        let mut i: usize = 0;
        while i < n
            invariant
                n == bits@.len(),
                i <= n,
                bytes@.len() == num_bytes,
                num_bytes == (n + 7) / 8,
                forall|q: int| 0 <= q < 8 * bytes@.len() ==> #[trigger] message_bits(bytes@)[q] == (q < i && announced(bits@, q)),
            decreases n - i,
        {
            if bits[i] == PieceStatus::Done {
                let byte_index = i / 8;
                let bit = (i % 8) as u8;
                let ghost before = bytes@;
                let updated = bytes[byte_index] | (1u8 << (7 - bit));
                bytes.set(byte_index, updated);
                assert forall|q: int| 0 <= q < 8 * bytes@.len() implies #[trigger] message_bits(bytes@)[q] == (q < i + 1 && announced(bits@, q)) by {
                    assert(message_bits(before)[q] == (q < i && announced(bits@, q)));
                    if q / 8 == byte_index as int {
                        lemma_set_bit(before[q / 8], bit, (q % 8) as u8);
                        if q % 8 == bit as int {
                            assert(q == i as int);
                        } else {
                            assert(q != i as int);
                        }
                    } else {
                        assert(q != i as int);
                    }
                }
            } else {
                assert forall|q: int| 0 <= q < 8 * bytes@.len() implies #[trigger] message_bits(bytes@)[q] == (q < i + 1 && announced(bits@, q)) by {
                    if q == i as int {
                        assert(!announced(bits@, q));
                    }
                }
            }
            i = i + 1;
        }
        bytes
    }

    /// The activity line shown for this torrent at the given speeds (see
    /// `activity_text`).
    pub fn generate_activity_message(&self, dl_speed: u64, ul_speed: u64) -> (r: String)
        ensures
            r@ == activity_text(
                self.is_paused,
                self.torrent_status,
                self.last_activity,
                self.peers@.len() > 0,
                dl_speed,
                ul_speed,
            ),
    {
        proof {
            reveal_strlit("Paused");
            reveal_strlit("Validating...");
            reveal_strlit("Seeding");
            reveal_strlit("Finished");
            reveal_strlit("Downloading");
            reveal_strlit("Uploading");
            reveal_strlit("Stalled");
            reveal_strlit("Searching DHT for peers...");
            reveal_strlit("Contacting tracker...");
            reveal_strlit("Connecting to peers...");
            reveal_strlit("Receiving piece #");
            reveal_strlit("Verifying piece #");
            reveal_strlit("Sending piece #");
        }
        if self.is_paused {
            return "Paused".to_owned();
        }
        if self.torrent_status == TorrentStatus::Validating {
            return "Validating...".to_owned();
        }
        if self.torrent_status == TorrentStatus::Done {
            return if ul_speed > 0 { "Seeding".to_owned() } else { "Finished".to_owned() };
        }
        if dl_speed > 0 {
            return match self.last_activity {
                TorrentActivity::DownloadingPiece(p) => with_number("Receiving piece #", p),
                TorrentActivity::VerifyingPiece(p) => with_number("Verifying piece #", p),
                _ => "Downloading".to_owned(),
            };
        }
        if ul_speed > 0 {
            return match self.last_activity {
                TorrentActivity::SendingPiece(p) => with_number("Sending piece #", p),
                _ => "Uploading".to_owned(),
            };
        }
        if self.peers.len() > 0 {
            return "Stalled".to_owned();
        }
        match self.last_activity {
            TorrentActivity::SearchingDht => "Searching DHT for peers...".to_owned(),
            TorrentActivity::AnnouncingToTracker => "Contacting tracker...".to_owned(),
            _ => "Connecting to peers...".to_owned(),
        }
    }
}

} // verus!
