//! The info dictionary of a metainfo file: the bytes the info hash is taken
//! over, as `serde_bencode` reads the file and writes the dictionary back.
use vstd::prelude::*;

verus! {

/// The top level of `bytes` as `serde_bencode` reads it: nothing when the
/// bytes are not bencode, `Some(None)` when they are but not a dictionary,
/// and otherwise the dictionary's entries in ascending key order, each value
/// written back by `serde_bencode::to_bytes`.
pub uninterp spec fn bencode_top_level(bytes: Seq<u8>) -> Option<Option<Seq<(Seq<u8>, Seq<u8>)>>>;

/// The view of a list of (key, encoded value) entries.
pub open spec fn entries_view(v: Seq<(Vec<u8>, Vec<u8>)>) -> Seq<(Seq<u8>, Seq<u8>)> {
    v.map_values(|e: (Vec<u8>, Vec<u8>)| (e.0@, e.1@))
}

/// The view of what `bencode_entries` returns.
pub open spec fn top_level_view(r: Option<Option<Vec<(Vec<u8>, Vec<u8>)>>>) -> Option<
    Option<Seq<(Seq<u8>, Seq<u8>)>>,
> {
    match r {
        None => None,
        Some(None) => Some(None),
        Some(Some(v)) => Some(Some(entries_view(v@))),
    }
}

/// `serde_bencode::from_bytes` into a `Value`; for a dictionary, its
/// entries (moved into a `BTreeMap`, so in ascending key order) with each
/// value passed through `serde_bencode::to_bytes`, which cannot fail on a
/// `Value`. The contract names the result.
#[verifier::external_body]
fn bencode_entries(bytes: &[u8]) -> (r: Option<Option<Vec<(Vec<u8>, Vec<u8>)>>>)
    ensures
        top_level_view(r) == bencode_top_level(bytes@),
{
    match serde_bencode::from_bytes::<serde_bencode::value::Value>(bytes) {
        Ok(serde_bencode::value::Value::Dict(d)) => {
            let ordered: std::collections::BTreeMap<Vec<u8>, serde_bencode::value::Value> =
                d.into_iter().collect();
            let mut out = Vec::new();
            for (k, v) in ordered {
                out.push((k, serde_bencode::to_bytes(&v).unwrap_or_default()));
            }
            Some(Some(out))
        },
        Ok(_) => Some(None),
        Err(_) => None,
    }
}

/// Why no info dictionary could be taken from a metainfo file.
#[derive(Debug, Clone, Copy, PartialEq, Eq, Structural)]
pub enum MetainfoError {
    /// The bytes are not bencode.
    NotBencode,
    /// The file is not a dictionary, or has no `info` key.
    MissingInfoDict,
}

/// The bytes of the key `info`.
pub open spec fn info_key() -> Seq<u8> {
    seq![105u8, 110u8, 102u8, 111u8]
}

/// The value of the first entry with key `k`.
pub open spec fn entry_value(es: Seq<(Seq<u8>, Seq<u8>)>, k: Seq<u8>) -> Option<Seq<u8>>
    decreases es.len(),
{
    if es.len() == 0 {
        None
    } else if es[0].0 == k {
        Some(es[0].1)
    } else {
        entry_value(es.drop_first(), k)
    }
}

/// What a metainfo file's info dictionary is: the encoded value of its
/// `info` key, when the file is a bencoded dictionary that has one.
pub open spec fn info_dict_of(bytes: Seq<u8>) -> Result<Seq<u8>, MetainfoError> {
    match bencode_top_level(bytes) {
        None => Err(MetainfoError::NotBencode),
        Some(None) => Err(MetainfoError::MissingInfoDict),
        Some(Some(es)) => match entry_value(es, info_key()) {
            Some(v) => Ok(v),
            None => Err(MetainfoError::MissingInfoDict),
        },
    }
}

/// The view of a result of `metainfo_info_dict`.
pub open spec fn info_dict_view(r: Result<Vec<u8>, MetainfoError>) -> Result<Seq<u8>, MetainfoError> {
    match r {
        Ok(v) => Ok(v@),
        Err(e) => Err(e),
    }
}

fn is_info_key(k: &Vec<u8>) -> (r: bool)
    ensures
        r == (k@ == info_key()),
{
    if k.len() != 4 {
        return false;
    }
    let r = k[0] == 105u8 && k[1] == 110u8 && k[2] == 102u8 && k[3] == 111u8;
    proof {
        if r {
            assert(k@ =~= info_key());
        }
    }
    r
}

/// The bencoded info dictionary of a metainfo file, which the info hash is
/// taken over (see `info_dict_of`).
pub fn metainfo_info_dict(bytes: &[u8]) -> (r: Result<Vec<u8>, MetainfoError>)
    ensures
        info_dict_view(r) == info_dict_of(bytes@),
{
    match bencode_entries(bytes) {
        None => Err(MetainfoError::NotBencode),
        Some(None) => Err(MetainfoError::MissingInfoDict),
        Some(Some(entries)) => {
            let ghost es = entries_view(entries@);
            let mut i: usize = 0;
            proof {
                assert(es.skip(0) =~= es);
            }
            while i < entries.len()
                invariant
                    es == entries_view(entries@),
                    bencode_top_level(bytes@) == Some(Some(es)),
                    i <= entries@.len(),
                    entry_value(es, info_key()) == entry_value(es.skip(i as int), info_key()),
                decreases entries@.len() - i,
            {
                proof {
                    assert(es.skip(i as int).drop_first() =~= es.skip(i + 1));
                    assert(es.skip(i as int)[0] == es[i as int]);
                }
                if is_info_key(&entries[i].0) {
                    let v = entries[i].1.clone();
                    proof {
                        assert(es[i as int] == (entries@[i as int].0@, entries@[i as int].1@));
                        assert(v@ == entries@[i as int].1@);
                        assert(es.skip(i as int)[0] == es[i as int]);
                        assert(entry_value(es.skip(i as int), info_key()) == Some(es[i as int].1));
                    }
                    return Ok(v);
                }
                i = i + 1;
            }
            proof {
                assert(es.skip(i as int).len() == 0);
            }
            Err(MetainfoError::MissingInfoDict)
        },
    }
}

} // verus!
