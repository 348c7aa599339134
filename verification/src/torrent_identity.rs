//! The info hash a torrent source names: a magnet link's exact topic,
//! written as 40 hex digits or 32 base32 characters.
use vstd::prelude::*;
use vstd::string::*;
use crate::torrent_manager::state::{TrackerEntry, TrackerState};

verus! {

#[verifier::external_type_specification]
#[verifier::external_body]
pub struct ExFromHexError(hex::FromHexError);

#[verifier::external_type_specification]
#[verifier::external_body]
pub struct ExDecodeError(data_encoding::DecodeError);

/// The hash of the exact topic (`xt=urn:<type>:<hash>`) of the magnet link
/// `text`, as `magnet_url` parses it.
pub uninterp spec fn magnet_topic_hash(text: Seq<char>) -> Option<Seq<char>>;

/// The hash type of the exact topic (`xt=urn:<type>:<hash>`) of the magnet
/// link `text`, as `magnet_url` parses it.
pub uninterp spec fn magnet_topic_type(text: Seq<char>) -> Option<Seq<char>>;

/// What `data_encoding::BASE32` decodes `input` to, if it is valid.
pub uninterp spec fn base32_decoded(input: Seq<u8>) -> Option<Seq<u8>>;

/// The value of a hex digit, either case.
pub open spec fn hex_value(b: u8) -> Option<u8> {
    if 48 <= b <= 57 {
        Some((b - 48) as u8)
    } else if 65 <= b <= 70 {
        Some((b - 55) as u8)
    } else if 97 <= b <= 102 {
        Some((b - 87) as u8)
    } else {
        None
    }
}

/// The bytes spelled by pairs of hex digits; nothing for an odd count or a
/// character that is not a hex digit.
pub open spec fn hex_decoded(input: Seq<u8>) -> Option<Seq<u8>> {
    if input.len() % 2 == 0 && forall|i: int| 0 <= i < input.len() ==> (#[trigger] hex_value(input[i])) is Some {
        Some(Seq::new(
            (input.len() / 2) as nat,
            |i: int| (hex_value(input[2 * i])->0 * 16 + hex_value(input[2 * i + 1])->0) as u8,
        ))
    } else {
        None
    }
}

/// The view of an optional text.
pub open spec fn text_view(t: Option<String>) -> Option<Seq<char>> {
    match t {
        Some(s) => Some(s@),
        None => None,
    }
}

/// The hash named by the exact topic of a magnet link. `magnet_url::Magnet::new`
/// refuses text that does not start with `magnet:?`; `Magnet::hash` is then the
/// hash part of the last `xt` parameter of the form `urn:<type>:<hash>`. The
/// contract names the result and states only the refusal.
#[verifier::external_body]
fn magnet_hash(text: &str) -> (r: Option<String>)
    ensures
        text_view(r) == magnet_topic_hash(text@),
        !(text@.len() >= 8 && text@.subrange(0, 8) == "magnet:?"@) ==> r is None,
{
    match magnet_url::Magnet::new(text) {
        Ok(m) => m.hash().map(|h| h.to_string()),
        Err(_) => None,
    }
}

/// The hash type of the exact topic of a magnet link: `Magnet::new`, then
/// `Magnet::hash_type`. The contract names the result and states only the
/// refusal of text that does not start with `magnet:?`.
#[verifier::external_body]
fn magnet_hash_type(text: &str) -> (r: Option<String>)
    ensures
        text_view(r) == magnet_topic_type(text@),
        !(text@.len() >= 8 && text@.subrange(0, 8) == "magnet:?"@) ==> r is None,
{
    match magnet_url::Magnet::new(text) {
        Ok(m) => m.hash_type().map(|t| t.to_string()),
        Err(_) => None,
    }
}

/// `hex::decode`: pairs of hex digits (either case) to bytes; an odd length or
/// another character is an error.
#[verifier::external_body]
fn hex_decode(input: &[u8]) -> (r: Result<Vec<u8>, hex::FromHexError>)
    ensures
        match hex_decoded(input@) {
            Some(b) => r matches Ok(v) && v@ == b,
            None => r is Err,
        },
{
    hex::decode(input)
}

/// `data_encoding::BASE32.decode`: the contract names the result.
#[verifier::external_body]
fn base32_decode(input: &[u8]) -> (r: Result<Vec<u8>, data_encoding::DecodeError>)
    ensures
        match base32_decoded(input@) {
            Some(b) => r matches Ok(v) && v@ == b,
            None => r is Err,
        },
{
    data_encoding::BASE32.decode(input)
}

/// ASCII text as bytes, lower-case letters made upper-case when `upper`.
pub open spec fn ascii_bytes(t: Seq<char>, upper: bool) -> Seq<u8> {
    Seq::new(
        t.len(),
        |i: int|
            if upper && 'a' <= t[i] <= 'z' {
                (t[i] as int - 32) as u8
            } else {
                t[i] as u8
            },
    )
}

/// Whether every character is ASCII.
pub open spec fn all_ascii(t: Seq<char>) -> bool {
    forall|i: int| 0 <= i < t.len() ==> (#[trigger] t[i] as int) < 128
}

/// The info hash a hash text spells: 40 hex digits, or 32 base32 characters
/// (either case); nothing otherwise.
pub open spec fn hash_text_bytes(t: Seq<char>) -> Option<Seq<u8>> {
    if !all_ascii(t) {
        None
    } else if t.len() == 40 {
        hex_decoded(ascii_bytes(t, false))
    } else if t.len() == 32 {
        base32_decoded(ascii_bytes(t, true))
    } else {
        None
    }
}

/// Whether a topic type is `btih`, the BitTorrent info hash.
pub open spec fn is_btih(t: Seq<char>) -> bool {
    t.len() == 4 && t[0] == 'b' && t[1] == 't' && t[2] == 'i' && t[3] == 'h'
}

/// The info hash a torrent source names: for a magnet link whose exact
/// topic is a `btih`, its hash.
pub open spec fn source_info_hash(source: Seq<char>) -> Option<Seq<u8>> {
    match magnet_topic_type(source) {
        Some(t) => if is_btih(t) {
            match magnet_topic_hash(source) {
                Some(h) => hash_text_bytes(h),
                None => None,
            }
        } else {
            None
        },
        None => None,
    }
}

/// The bytes of ASCII text, upper-cased when `upper`; nothing for other text.
fn text_to_ascii(t: &str, upper: bool) -> (r: Option<Vec<u8>>)
    ensures
        match r {
            Some(b) => all_ascii(t@) && b@ == ascii_bytes(t@, upper),
            None => !all_ascii(t@),
        },
{
    let n = t.unicode_len();
    let mut out: Vec<u8> = Vec::new();
    let mut i: usize = 0;
    while i < n
        invariant
            n == t@.len(),
            i <= n,
            out@ == ascii_bytes(t@, upper).subrange(0, i as int),
            forall|j: int| 0 <= j < i ==> (#[trigger] t@[j] as int) < 128,
        decreases n - i,
    {
        let c = t.get_char(i);
        if (c as u32) >= 128 {
            return None;
        }
        let b: u8 = if upper && 'a' <= c && c <= 'z' {
            ((c as u32) - 32) as u8
        } else {
            c as u8
        };
        out.push(b);
        proof {
            assert(ascii_bytes(t@, upper).subrange(0, i + 1) =~= ascii_bytes(t@, upper).subrange(0, i as int).push(b));
        }
        i = i + 1;
    }
    assert(out@ =~= ascii_bytes(t@, upper));
    Some(out)
}

/// The info hash a hash text spells (see `hash_text_bytes`).
pub fn info_hash_from_hash_text(text: &str) -> (r: Option<Vec<u8>>)
    ensures
        match r {
            Some(b) => hash_text_bytes(text@) == Some(b@),
            None => hash_text_bytes(text@) is None,
        },
{
    let n = text.unicode_len();
    if n != 40 && n != 32 {
        return None;
    }
    let upper = n == 32;
    match text_to_ascii(text, upper) {
        None => None,
        Some(bytes) => {
            if n == 40 {
                match hex_decode(bytes.as_slice()) {
                    Ok(v) => Some(v),
                    Err(_) => None,
                }
            } else {
                match base32_decode(bytes.as_slice()) {
                    Ok(v) => Some(v),
                    Err(_) => None,
                }
            }
        },
    }
}

/// The info hash a torrent source names: a magnet link's exact topic hash,
/// decoded, when the topic is a `btih`; nothing for anything else.
pub fn info_hash_from_torrent_source(source: &str) -> (r: Option<Vec<u8>>)
    ensures
        match r {
            Some(b) => source_info_hash(source@) == Some(b@),
            None => source_info_hash(source@) is None,
        },
{
    match magnet_hash_type(source) {
        Some(t) => {
            let ts = t.as_str();
            let btih = ts.unicode_len() == 4 && ts.get_char(0) == 'b' && ts.get_char(1) == 't'
                && ts.get_char(2) == 'i' && ts.get_char(3) == 'h';
            if !btih {
                return None;
            }
        },
        None => {
            return None;
        },
    }
    match magnet_hash(source) {
        Some(h) => info_hash_from_hash_text(h.as_str()),
        None => None,
    }
}

/// The `tr` parameters of the magnet link `text`, in order, as `magnet_url`
/// parses them.
pub uninterp spec fn magnet_tracker_list(text: Seq<char>) -> Seq<Seq<char>>;

/// What `urlencoding::decode` makes of `text`: the percent-decoded text, or
/// nothing when the decoded bytes are not UTF-8.
pub uninterp spec fn url_decoded(text: Seq<char>) -> Option<Seq<char>>;

/// The views of some texts.
pub open spec fn texts(v: Seq<String>) -> Seq<Seq<char>> {
    v.map_values(|s: String| s@)
}

/// The tracker URLs of a magnet link: `magnet_url::Magnet::new`, then
/// `Magnet::trackers`. Text that does not start with `magnet:?` is refused
/// and lists none; otherwise the contract names the list.
#[verifier::external_body]
fn magnet_trackers(text: &str) -> (r: Vec<String>)
    ensures
        texts(r@) == magnet_tracker_list(text@),
        !(text@.len() >= 8 && text@.subrange(0, 8) == "magnet:?"@) ==> r@.len() == 0,
{
    match magnet_url::Magnet::new(text) {
        Ok(m) => m.trackers().to_vec(),
        Err(_) => Vec::new(),
    }
}

/// `urlencoding::decode`: `%XX` escapes become bytes, which must form UTF-8.
/// Text without a `%` comes back unchanged; otherwise the contract names the
/// result.
#[verifier::external_body]
fn url_decode(text: &str) -> (r: Option<String>)
    ensures
        text_view(r) == url_decoded(text@),
        !text@.contains('%') ==> text_view(r) == Some(text@),
{
    match urlencoding::decode(text) {
        Ok(s) => Some(s.into_owned()),
        Err(_) => None,
    }
}

/// Whether a tracker URL starts with `http` (so `http` and `https`).
pub open spec fn starts_with_http(t: Seq<char>) -> bool {
    t.len() >= 4 && t[0] == 'h' && t[1] == 't' && t[2] == 't' && t[3] == 'p'
}

/// The trackers a magnet link's list gives a torrent: those starting with
/// `http`, URL-decoded, dropping any that do not decode and any already
/// kept, in the order of their first appearance.
pub open spec fn kept_trackers(list: Seq<Seq<char>>) -> Seq<Seq<char>>
    decreases list.len(),
{
    if list.len() == 0 {
        seq![]
    } else {
        let prev = kept_trackers(list.drop_last());
        let t = list.last();
        match url_decoded(t) {
            Some(u) => if starts_with_http(t) && !prev.contains(u) {
                prev.push(u)
            } else {
                prev
            },
            None => prev,
        }
    }
}

fn contains_text(v: &Vec<String>, t: &String) -> (r: bool)
    ensures
        r == texts(v@).contains(t@),
{
    let mut i: usize = 0;
    while i < v.len()
        invariant
            i <= v@.len(),
            forall|j: int| 0 <= j < i ==> v@[j]@ != t@,
        decreases v@.len() - i,
    {
        if v[i] == *t {
            assert(texts(v@)[i as int] == t@);
            return true;
        }
        i = i + 1;
    }
    false
}

/// The HTTP trackers a magnet link names, decoded and without repeats (see
/// `kept_trackers`).
pub fn magnet_http_trackers(magnet: &str) -> (r: Vec<String>)
    ensures
        texts(r@) == kept_trackers(magnet_tracker_list(magnet@)),
{
    let listed = magnet_trackers(magnet);
    let ghost all = texts(listed@);
    let mut out: Vec<String> = Vec::new();
    let mut i: usize = 0;
    while i < listed.len()
        invariant
            all == texts(listed@),
            i <= listed@.len(),
            texts(out@) == kept_trackers(all.take(i as int)),
        decreases listed@.len() - i,
    {
        let t = &listed[i];
        proof {
            assert(all.take(i + 1).drop_last() =~= all.take(i as int));
            assert(all.take(i + 1).last() == t@);
        }
        let s = t.as_str();
        let http = s.unicode_len() >= 4 && s.get_char(0) == 'h' && s.get_char(1) == 't'
            && s.get_char(2) == 't' && s.get_char(3) == 'p';
        if http {
            match url_decode(s) {
                Some(u) => {
                    if !contains_text(&out, &u) {
                        let ghost before = out@;
                        out.push(u);
                        proof {
                            assert(texts(out@) =~= texts(before).push(u@));
                        }
                    }
                },
                None => {},
            }
        }
        i = i + 1;
    }
    proof {
        assert(all.take(listed@.len() as int) =~= all);
    }
    out
}

/// The tracker table a magnet link starts a torrent with: one entry per kept
/// tracker, each due for an announce at `now`, with no intervals yet.
pub fn magnet_tracker_entries(magnet: &str, now: u64) -> (r: Vec<TrackerEntry>)
    ensures
        r@.len() == kept_trackers(magnet_tracker_list(magnet@)).len(),
        forall|i: int|
            0 <= i < r@.len() ==> (#[trigger] r@[i]).url@ == kept_trackers(magnet_tracker_list(magnet@))[i]
                && r@[i].state == (TrackerState {
                next_announce_time: now,
                leeching_interval: None,
                seeding_interval: None,
            }),
{
    let urls = magnet_http_trackers(magnet);
    let mut r: Vec<TrackerEntry> = Vec::new();
    let mut i: usize = 0;
    while i < urls.len()
        invariant
            i <= urls@.len(),
            r@.len() == i,
            forall|j: int|
                0 <= j < i ==> (#[trigger] r@[j]).url@ == urls@[j]@ && r@[j].state == (TrackerState {
                    next_announce_time: now,
                    leeching_interval: None,
                    seeding_interval: None,
                }),
        decreases urls@.len() - i,
    {
        r.push(TrackerEntry {
            url: urls[i].clone(),
            state: TrackerState { next_announce_time: now, leeching_interval: None, seeding_interval: None },
        });
        i = i + 1;
    }
    proof {
        assert forall|j: int| 0 <= j < r@.len() implies (#[trigger] r@[j]).url@ == kept_trackers(
            magnet_tracker_list(magnet@),
        )[j] by {
            assert(texts(urls@)[j] == urls@[j]@);
        }
    }
    r
}

} // verus!
