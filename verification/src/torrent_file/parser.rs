//! Completing parsed metainfo: a v2 file tree becomes the v1 file list.
use vstd::prelude::*;
use vstd::string::*;
use super::{InfoFile, Torrent, roots_view, sort_by_path, sorted_by_path, tree_files, dict_len};

verus! {

/// The character of a decimal digit.
pub open spec fn digit(d: nat) -> char {
    if d == 0 {
        '0'
    } else if d == 1 {
        '1'
    } else if d == 2 {
        '2'
    } else if d == 3 {
        '3'
    } else if d == 4 {
        '4'
    } else if d == 5 {
        '5'
    } else if d == 6 {
        '6'
    } else if d == 7 {
        '7'
    } else if d == 8 {
        '8'
    } else {
        '9'
    }
}

/// The decimal digits of `n`.
pub open spec fn decimal_text(n: nat) -> Seq<char>
    decreases n,
{
    if n < 10 {
        seq![digit(n)]
    } else {
        decimal_text(n / 10) + seq![digit(n % 10)]
    }
}

/// The decimal digits of a number.
pub fn to_decimal(n: u64) -> (r: String)
    ensures
        r@ == decimal_text(n as nat),
    decreases n,
{
    let d = (n % 10) as u8;
    let text = digit_text(d);
    if n < 10 {
        let mut s = String::new();
        s.append(text);
        proof {
            assert(s@ =~= seq![digit(n as nat)]);
        }
        s
    } else {
        let mut s = to_decimal(n / 10);
        let ghost head = s@;
        s.append(text);
        proof {
            assert(s@ =~= head + seq![digit((n % 10) as nat)]);
        }
        s
    }
}

/// The text of one decimal digit.
fn digit_text(d: u8) -> (r: &'static str)
    requires
        d < 10,
    ensures
        r@ == seq![digit(d as nat)],
{
    proof {
        reveal_strlit("0");
        reveal_strlit("1");
        reveal_strlit("2");
        reveal_strlit("3");
        reveal_strlit("4");
        reveal_strlit("5");
        reveal_strlit("6");
        reveal_strlit("7");
        reveal_strlit("8");
        reveal_strlit("9");
    }
    match d {
        0 => "0",
        1 => "1",
        2 => "2",
        3 => "3",
        4 => "4",
        5 => "5",
        6 => "6",
        7 => "7",
        8 => "8",
        _ => "9",
    }
}

/// The positions of the `/` characters of `t`, in order.
pub open spec fn slash_positions(t: Seq<char>, n: int) -> Seq<int>
    decreases n,
{
    if n <= 0 {
        seq![]
    } else if t[n - 1] == '/' {
        slash_positions(t, n - 1).push(n - 1)
    } else {
        slash_positions(t, n - 1)
    }
}

/// `t` split at every `/` (an empty text is one empty component).
pub open spec fn split_slash(t: Seq<char>) -> Seq<Seq<char>> {
    let cuts = slash_positions(t, t.len() as int);
    Seq::new(
        cuts.len() + 1,
        |k: int| {
            let from = if k == 0 { 0 } else { cuts[k - 1] + 1 };
            let to = if k == cuts.len() { t.len() as int } else { cuts[k] };
            t.subrange(from, to)
        },
    )
}

/// The views of a list of texts.
pub open spec fn texts(v: Seq<String>) -> Seq<Seq<char>> {
    v.map_values(|p: String| p@)
}

proof fn lemma_slash_positions(t: Seq<char>, n: int)
    requires
        0 <= n <= t.len(),
    ensures
        forall|k: int| 0 <= k < slash_positions(t, n).len() ==> 0 <= #[trigger] slash_positions(t, n)[k] < n
            && t[slash_positions(t, n)[k]] == '/',
        forall|a: int, b: int| 0 <= a < b < slash_positions(t, n).len() ==> #[trigger] slash_positions(t, n)[a]
            < #[trigger] slash_positions(t, n)[b],
    decreases n,
{
    if n > 0 {
        lemma_slash_positions(t, n - 1);
        let prev = slash_positions(t, n - 1);
        let cur = slash_positions(t, n);
        if t[n - 1] == '/' {
            assert(cur == prev.push(n - 1));
            assert forall|k: int| 0 <= k < cur.len() implies 0 <= #[trigger] cur[k] < n && t[cur[k]] == '/' by {
                if k < prev.len() {
                    assert(cur[k] == prev[k]);
                }
            }
            assert forall|a: int, b: int| 0 <= a < b < cur.len() implies #[trigger] cur[a] < #[trigger] cur[b] by {
                assert(cur[a] == prev[a]);
                if b < prev.len() {
                    assert(cur[b] == prev[b]);
                }
            }
        }
    }
}

/// Splits a path at every `/`.
pub fn split_path(t: &str) -> (r: Vec<String>)
    ensures
        texts(r@) == split_slash(t@),
{
    let n = t.unicode_len();
    let mut parts: Vec<String> = Vec::new();
    let mut start: usize = 0;
    let mut i: usize = 0;
    let ghost cuts = slash_positions(t@, n as int);
    proof {
        lemma_slash_positions(t@, n as int);
    }
    while i < n
        invariant
            n == t@.len(),
            start <= i <= n,
            cuts == slash_positions(t@, n as int),
            parts@.len() == slash_positions(t@, i as int).len(),
            slash_positions(t@, i as int).len() <= cuts.len(),
            forall|k: int| 0 <= k < slash_positions(t@, i as int).len() ==> #[trigger] cuts[k] == slash_positions(t@, i as int)[k],
            start == if parts@.len() == 0 { 0 } else { cuts[parts@.len() - 1] + 1 },
            forall|k: int| 0 <= k < parts@.len() ==> (#[trigger] parts@[k])@ == split_slash(t@)[k],
        decreases n - i,
    {
        proof {
            lemma_slash_positions(t@, i + 1);
            lemma_prefix_cuts(t@, i + 1, n as int);
        }
        if t.get_char(i) == '/' {
            let piece = t.substring_char(start, i).to_owned();
            proof {
                assert(slash_positions(t@, i + 1) == slash_positions(t@, i as int).push(i as int));
                assert(cuts[parts@.len() as int] == i);
            }
            parts.push(piece);
            start = i + 1;
        }
        i = i + 1;
    }
    proof {
        assert(slash_positions(t@, n as int) == cuts);
    }
    let last = t.substring_char(start, n).to_owned();
    parts.push(last);
    proof {
        assert(texts(parts@) =~= split_slash(t@));
    }
    parts
}

proof fn lemma_prefix_cuts(t: Seq<char>, i: int, n: int)
    requires
        0 <= i <= n <= t.len(),
    ensures
        slash_positions(t, i).len() <= slash_positions(t, n).len(),
        forall|k: int| 0 <= k < slash_positions(t, i).len() ==> #[trigger] slash_positions(t, n)[k] == slash_positions(t, i)[k],
    decreases n - i,
{
    if i < n {
        lemma_prefix_cuts(t, i, n - 1);
    }
}

/// The v1 file list a v2 file list stands for: each file in order (its path
/// split at `/`), followed, when it does not end on a piece boundary, by a
/// padding file `.pad/<size>` (attribute `p`) that fills its last piece.
pub open spec fn padded_files(files: Seq<(Seq<char>, u64, Seq<u8>)>, piece_len: u64, n: int) -> Seq<(int, Seq<Seq<char>>, bool)>
    decreases n,
{
    if n <= 0 {
        seq![]
    } else {
        let (path, len, _root) = files[n - 1];
        let before = padded_files(files, piece_len, n - 1).push((len as i64 as int, split_slash(path), false));
        if piece_len > 0 && len % piece_len > 0 {
            let pad = (piece_len - len % piece_len) as u64;
            before.push((pad as i64 as int, seq![".pad"@, decimal_text(pad as nat)], true))
        } else {
            before
        }
    }
}

/// A file list's view: length, path components, whether it is padding.
pub open spec fn files_view(v: Seq<InfoFile>) -> Seq<(int, Seq<Seq<char>>, bool)> {
    v.map_values(
        |f: InfoFile|
            (
                f.length as int,
                texts(f.path@),
                f.attr matches Some(a) && a@ == "p"@,
            ),
    )
}

/// Fills in the v1 file list of a torrent that has only a v2 file tree:
/// the tree's files sorted by path, each followed by the padding that aligns
/// the next to a piece boundary (BEP 52). Other torrents are left alone.
pub fn polyfill_v2_files(torrent: &mut Torrent)
    ensures
        if old(torrent).info.files@.len() == 0 && old(torrent).info.file_tree is Some {
            exists|sorted: Seq<(Seq<char>, u64, Seq<u8>)>|
                #![trigger sorted.to_multiset()]
                {
                    let t = old(torrent).info.file_tree->0;
                    &&& sorted_by_path(sorted)
                    &&& sorted.to_multiset() == tree_files(t, Seq::empty(), dict_len(t)).to_multiset()
                    &&& files_view(final(torrent).info.files@) == padded_files(
                        sorted,
                        old(torrent).info.piece_length as u64,
                        sorted.len() as int,
                    )
                    &&& forall|k: int| 0 <= k < final(torrent).info.files@.len() ==> (#[trigger] final(torrent).info.files@[k]).md5sum is None
                    &&& *final(torrent) == (Torrent { info: super::Info { files: final(torrent).info.files, ..old(torrent).info }, ..*old(torrent) })
                }
        } else {
            *final(torrent) == *old(torrent)
        },
{
    if torrent.info.files.len() == 0 && torrent.info.file_tree.is_some() {
        let roots = torrent.get_v2_roots();
        let sorted = sort_by_path(roots);
        let ghost s = roots_view(sorted@);
        let piece_len = torrent.info.piece_length as u64;
        let mut new_files: Vec<InfoFile> = Vec::new();
        let mut i: usize = 0;
        proof {
            reveal_strlit("p");
            reveal_strlit(".pad");
        }
        while i < sorted.len()
            invariant
                i <= sorted@.len(),
                s == roots_view(sorted@),
                files_view(new_files@) == padded_files(s, piece_len, i as int),
                forall|k: int| 0 <= k < new_files@.len() ==> (#[trigger] new_files@[k]).md5sum is None,
            decreases sorted@.len() - i,
        {
            let length = sorted[i].1;
            let path = split_path(sorted[i].0.as_str());
            let ghost before = new_files@;
            new_files.push(InfoFile { length: length as i64, md5sum: None, path, attr: None });
            proof {
                assert(files_view(new_files@) =~= files_view(before).push((length as i64 as int, split_slash(s[i as int].0), false)));
            }
            if piece_len > 0 {
                let remainder = length % piece_len;
                if remainder > 0 {
                    let padding_len = piece_len - remainder;
                    let mut pad_path: Vec<String> = Vec::new();
                    pad_path.push(".pad".to_owned());
                    pad_path.push(to_decimal(padding_len));
                    let ghost before2 = new_files@;
                    new_files.push(
                        InfoFile {
                            length: padding_len as i64,
                            md5sum: None,
                            path: pad_path,
                            attr: Some("p".to_owned()),
                        },
                    );
                    proof {
                        assert(texts(pad_path@) =~= seq![".pad"@, decimal_text(padding_len as nat)]);
                        assert(files_view(new_files@) =~= files_view(before2).push(
                            (padding_len as i64 as int, seq![".pad"@, decimal_text(padding_len as nat)], true),
                        ));
                    }
                }
            }
            i = i + 1;
        }
        torrent.info.files = new_files;
    }
}

} // verus!
