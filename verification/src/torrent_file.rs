//! The metainfo of a torrent: v1 files and v2 file trees, and how v2 files
//! map onto pieces.
use vstd::prelude::*;
use vstd::string::*;

pub mod parser;
pub mod metainfo;
pub mod path_order;

use path_order::{path_lt, lemma_path_lt_trans, lemma_path_lt_total, lemma_path_lt_irrefl, less_path};

verus! {

/// A bencoded value, dictionaries as their entries in order (a dictionary's
/// keys are distinct).
#[derive(Debug)]
pub enum BencodeValue {
    Int(i64),
    Bytes(Vec<u8>),
    List(Vec<BencodeValue>),
    Dict(Vec<(Vec<u8>, BencodeValue)>),
}

/// One file of a v1 multi-file torrent.
#[derive(Debug, Clone, PartialEq)]
pub struct InfoFile {
    pub length: i64,
    pub md5sum: Option<String>,
    pub path: Vec<String>,
    pub attr: Option<String>,
}

/// The info dictionary.
#[derive(Debug)]
pub struct Info {
    pub piece_length: i64,
    pub pieces: Vec<u8>,
    pub private: Option<i64>,
    pub files: Vec<InfoFile>,
    pub name: String,
    pub length: i64,
    pub md5sum: Option<String>,
    pub meta_version: Option<i64>,
    pub file_tree: Option<BencodeValue>,
}

/// A torrent's metainfo.
#[derive(Debug)]
pub struct Torrent {
    /// The bencoded info dictionary as it appeared in the source.
    pub info_dict_bencode: Vec<u8>,
    pub info: Info,
    pub announce: Option<String>,
    pub announce_list: Option<Vec<Vec<String>>>,
    pub url_list: Option<Vec<String>>,
    pub creation_date: Option<i64>,
    pub comment: Option<String>,
    pub created_by: Option<String>,
    pub encoding: Option<String>,
    pub piece_layers: Option<BencodeValue>,
}

/// How the pieces of a pure v2 torrent map onto its files.
pub struct V2Mapping {
    /// For each piece (by index), the file it belongs to: the file's first
    /// byte offset in the piece space, its length and its root hash.
    pub piece_to_roots: Vec<Vec<(u64, u64, Vec<u8>)>>,
    /// The number of file-aligned pieces.
    pub piece_count: usize,
}

/// What `String::from_utf8_lossy` makes of some bytes.
pub uninterp spec fn lossy_text(bytes: Seq<u8>) -> Seq<char>;

/// `String::from_utf8_lossy`, made an owned string: valid UTF-8 decoded,
/// invalid sequences replaced. The contract names the text; it states that
/// empty bytes give empty text.
#[verifier::external_body]
fn utf8_lossy(bytes: &[u8]) -> (r: String)
    ensures
        r@ == lossy_text(bytes@),
        bytes@.len() == 0 ==> r@.len() == 0,
{
    String::from_utf8_lossy(bytes).to_string()
}

/// The value under `key` in dictionary entries (the first, keys being distinct).
pub open spec fn dict_get(entries: Seq<(Vec<u8>, BencodeValue)>, key: Seq<u8>) -> Option<BencodeValue>
    decreases entries.len(),
{
    if entries.len() == 0 {
        None
    } else if entries[0].0@ == key {
        Some(entries[0].1)
    } else {
        dict_get(entries.drop_first(), key)
    }
}

/// Looks up a key among dictionary entries.
fn dict_lookup<'a>(entries: &'a Vec<(Vec<u8>, BencodeValue)>, key: &[u8]) -> (r: Option<&'a BencodeValue>)
    ensures
        match dict_get(entries@, key@) {
            Some(v) => r matches Some(x) && *x == v,
            None => r is None,
        },
{
    let mut i: usize = 0;
    assert(entries@.subrange(0, entries@.len() as int) =~= entries@);
    while i < entries.len()
        invariant
            i <= entries@.len(),
            dict_get(entries@, key@) == dict_get(entries@.subrange(i as int, entries@.len() as int), key@),
        decreases entries@.len() - i,
    {
        let ghost rest = entries@.subrange(i as int, entries@.len() as int);
        if bytes_equal(entries[i].0.as_slice(), key) {
            return Some(&entries[i].1);
        }
        proof {
            assert(rest.drop_first() =~= entries@.subrange(i + 1, entries@.len() as int));
        }
        i = i + 1;
    }
    None
}

/// Whether two byte slices are equal.
fn bytes_equal(a: &[u8], b: &[u8]) -> (r: bool)
    ensures
        r == (a@ == b@),
{
    if a.len() != b.len() {
        return false;
    }
    let mut i: usize = 0;
    while i < a.len()
        invariant
            a@.len() == b@.len(),
            i <= a@.len(),
            forall|j: int| 0 <= j < i ==> a@[j] == b@[j],
        decreases a@.len() - i,
    {
        if a[i] != b[i] {
            return false;
        }
        i = i + 1;
    }
    assert(a@ =~= b@);
    true
}

/// The "pieces root" key of a v2 file entry.
pub open spec fn pieces_root_key() -> Seq<u8> {
    "pieces root"@.map_values(|c: char| c as u8)
}

/// The "length" key.
pub open spec fn length_key() -> Seq<u8> {
    "length"@.map_values(|c: char| c as u8)
}

/// The bytes of the "length" key.
fn length_key_bytes() -> (r: Vec<u8>)
    ensures
        r@ == length_key(),
{
    proof {
        reveal_strlit("length");
    }
    let r: Vec<u8> = vec![108, 101, 110, 103, 116, 104];
    assert(r@ =~= length_key());
    r
}

/// The bytes of the "pieces root" key.
fn pieces_root_key_bytes() -> (r: Vec<u8>)
    ensures
        r@ == pieces_root_key(),
{
    proof {
        reveal_strlit("pieces root");
    }
    let r: Vec<u8> = vec![112, 105, 101, 99, 101, 115, 32, 114, 111, 111, 116];
    assert(r@ =~= pieces_root_key());
    r
}

/// The file a v2 leaf describes: its length (0 when absent) and root hash,
/// when it has one.
pub open spec fn leaf_file(meta: BencodeValue) -> Option<(u64, Seq<u8>)> {
    match meta {
        BencodeValue::Dict(m) => match dict_get(m@, pieces_root_key()) {
            Some(BencodeValue::Bytes(root)) => {
                let len = match dict_get(m@, length_key()) {
                    Some(BencodeValue::Int(l)) => l as u64,
                    _ => 0u64,
                };
                Some((len, root@))
            },
            _ => None,
        },
        _ => None,
    }
}

/// `path` extended by a directory name.
pub open spec fn child_path(path: Seq<char>, name: Seq<char>) -> Seq<char> {
    if path.len() == 0 {
        name
    } else {
        path + seq!['/'] + name
    }
}

/// The files (path, length, root hash) below a v2 file tree node at `path`,
/// from its first `n` entries, in entry order.
pub open spec fn tree_files(node: BencodeValue, path: Seq<char>, n: int) -> Seq<(Seq<char>, u64, Seq<u8>)>
    decreases node, n,
{
    match node {
        BencodeValue::Dict(entries) => {
            if n <= 0 || n > entries@.len() {
                seq![]
            } else {
                let (key, value) = entries@[n - 1];
                let before = tree_files(node, path, n - 1);
                if key@.len() == 0 {
                    match leaf_file(value) {
                        Some((len, root)) => before.push((path, len, root)),
                        None => before,
                    }
                } else {
                    proof {
                        assert(decreases_to!(node => entries));
                        assert(decreases_to!(entries => entries@));
                        assert(decreases_to!(entries@ => entries@[n - 1]));
                    }
                    before + tree_files(value, child_path(path, lossy_text(key@)), dict_len(value))
                }
            }
        },
        _ => seq![],
    }
}

/// The number of entries of a dictionary (0 for other values).
pub open spec fn dict_len(v: BencodeValue) -> int {
    match v {
        BencodeValue::Dict(e) => e@.len() as int,
        _ => 0,
    }
}

/// The views of a list of v2 files.
pub open spec fn roots_view(v: Seq<(String, u64, Vec<u8>)>) -> Seq<(Seq<char>, u64, Seq<u8>)> {
    v.map_values(|e: (String, u64, Vec<u8>)| (e.0@, e.1, e.2@))
}

/// A copy of a byte list.
fn copy_bytes(a: &Vec<u8>) -> (r: Vec<u8>)
    ensures
        r@ == a@,
{
    let mut r: Vec<u8> = Vec::new();
    let mut i: usize = 0;
    while i < a.len()
        invariant
            i <= a@.len(),
            r@ == a@.subrange(0, i as int),
        decreases a@.len() - i,
    {
        r.push(a[i]);
        i = i + 1;
    }
    assert(r@ =~= a@);
    r
}

/// Reads a v2 leaf's metadata.
fn read_leaf(meta: &BencodeValue) -> (r: Option<(u64, Vec<u8>)>)
    ensures
        match leaf_file(*meta) {
            Some((len, root)) => r matches Some((l, rt)) && l == len && rt@ == root,
            None => r is None,
        },
{
    match meta {
        BencodeValue::Dict(m) => {
            let root_key = pieces_root_key_bytes();
            let len_key = length_key_bytes();
            match dict_lookup(m, root_key.as_slice()) {
                Some(BencodeValue::Bytes(root)) => {
                    let len = match dict_lookup(m, len_key.as_slice()) {
                        Some(BencodeValue::Int(l)) => *l as u64,
                        _ => 0u64,
                    };
                    Some((len, copy_bytes(root)))
                },
                _ => None,
            }
        },
        _ => None,
    }
}

/// Appends the files below a v2 file tree node at `current_path` (see
/// `tree_files`).
pub fn traverse_file_tree(node: &BencodeValue, current_path: String, results: &mut Vec<(String, u64, Vec<u8>)>)
    ensures
        roots_view(final(results)@) == roots_view(old(results)@) + tree_files(*node, current_path@, dict_len(*node)),
    decreases *node,
{
    match node {
        BencodeValue::Dict(entries) => {
            let ghost start = roots_view(results@);
            let mut i: usize = 0;
            while i < entries.len()
                invariant
                    i <= entries@.len(),
                    *node == BencodeValue::Dict(*entries),
                    roots_view(results@) == start + tree_files(*node, current_path@, i as int),
                decreases entries@.len() - i,
            {
                let key = &entries[i].0;
                let value = &entries[i].1;
                let ghost before = results@;
                if key.len() == 0 {
                    match read_leaf(value) {
                        Some((len, root)) => {
                            results.push((current_path.clone(), len, root));
                            proof {
                                assert(roots_view(results@) =~= roots_view(before).push((current_path@, len, root@)));
                            }
                        },
                        None => {},
                    }
                } else {
                    let name = utf8_lossy(key.as_slice());
                    let new_path = if current_path.unicode_len() == 0 {
                        name
                    } else {
                        let mut p = current_path.clone();
                        p.append("/");
                        p.append(name.as_str());
                        proof {
                            reveal_strlit("/");
                            assert(p@ =~= current_path@ + seq!['/'] + name@);
                        }
                        p
                    };
                    proof {
                        assert(decreases_to!(*node => entries));
                        assert(decreases_to!(entries => entries@));
                        assert(decreases_to!(entries@ => entries@[i as int]));
                    }
                    traverse_file_tree(value, new_path, results);
                    proof {
                        assert(start + tree_files(*node, current_path@, i + 1) =~= start + tree_files(*node, current_path@, i as int)
                            + tree_files(*value, child_path(current_path@, lossy_text(key@)), dict_len(*value)));
                    }
                }
                i = i + 1;
            }
        },
        _ => {},
    }
}

/// The total length below a v2 file tree node, from its first `n` entries.
pub open spec fn tree_size(node: BencodeValue, n: int) -> int
    decreases node, n,
{
    match node {
        BencodeValue::Dict(entries) => {
            if n <= 0 || n > entries@.len() {
                0
            } else {
                let (key, value) = entries@[n - 1];
                tree_size(node, n - 1) + if key@.len() == 0 {
                    match value {
                        BencodeValue::Dict(meta) => match dict_get(meta@, length_key()) {
                            Some(BencodeValue::Int(l)) => l as int,
                            _ => 0,
                        },
                        _ => 0,
                    }
                } else {
                    proof {
                        assert(decreases_to!(node => entries));
                        assert(decreases_to!(entries => entries@));
                        assert(decreases_to!(entries@ => entries@[n - 1]));
                    }
                    tree_size(value, dict_len(value))
                }
            }
        },
        _ => 0,
    }
}

/// Whether adding up the sizes below a node never leaves `i64`: every running
/// total over its first `n` entries, and every total below a subdirectory.
pub open spec fn tree_size_fits(node: BencodeValue, n: int) -> bool
    decreases node, n,
{
    match node {
        BencodeValue::Dict(entries) => {
            if n <= 0 || n > entries@.len() {
                true
            } else {
                let (key, value) = entries@[n - 1];
                &&& tree_size_fits(node, n - 1)
                &&& i64::MIN <= tree_size(node, n) <= i64::MAX
                &&& key@.len() > 0 ==> {
                    proof {
                        assert(decreases_to!(node => entries));
                        assert(decreases_to!(entries => entries@));
                        assert(decreases_to!(entries@ => entries@[n - 1]));
                    }
                    tree_size_fits(value, dict_len(value))
                }
            }
        },
        _ => true,
    }
}

/// The total length of the files below a v2 file tree node.
pub fn calculate_tree_size(node: &BencodeValue) -> (r: i64)
    requires
        tree_size_fits(*node, dict_len(*node)),
    ensures
        r == tree_size(*node, dict_len(*node)),
    decreases *node,
{
    let mut size: i64 = 0;
    match node {
        BencodeValue::Dict(entries) => {
            let mut i: usize = 0;
            while i < entries.len()
                invariant
                    i <= entries@.len(),
                    *node == BencodeValue::Dict(*entries),
                    tree_size_fits(*node, entries@.len() as int),
                    size == tree_size(*node, i as int),
                decreases entries@.len() - i,
            {
                proof {
                    lemma_fits_prefix(*node, entries@.len() as int, i + 1);
                }
                let key = &entries[i].0;
                let value = &entries[i].1;
                if key.len() == 0 {
                    match value {
                        BencodeValue::Dict(meta) => {
                            let len_key = length_key_bytes();
                            match dict_lookup(meta, len_key.as_slice()) {
                                Some(BencodeValue::Int(l)) => {
                                    size = size + *l;
                                },
                                _ => {},
                            }
                        },
                        _ => {},
                    }
                } else {
                    proof {
                        assert(decreases_to!(*node => entries));
                        assert(decreases_to!(entries => entries@));
                        assert(decreases_to!(entries@ => entries@[i as int]));
                    }
                    let sub = calculate_tree_size(value);
                    size = size + sub;
                }
                i = i + 1;
            }
        },
        _ => {},
    }
    size
}

/// The total length below a v2 file tree node, or `None` when a running
/// total of the addition leaves `i64`.
pub fn checked_tree_size(node: &BencodeValue) -> (r: Option<i64>)
    ensures
        r is Some <==> tree_size_fits(*node, dict_len(*node)),
        r matches Some(n) ==> n == tree_size(*node, dict_len(*node)),
    decreases *node,
{
    let mut size: i64 = 0;
    match node {
        BencodeValue::Dict(entries) => {
            let mut i: usize = 0;
            while i < entries.len()
                invariant
                    i <= entries@.len(),
                    *node == BencodeValue::Dict(*entries),
                    tree_size_fits(*node, i as int),
                    size == tree_size(*node, i as int),
                decreases entries@.len() - i,
            {
                let key = &entries[i].0;
                let value = &entries[i].1;
                let mut add: i64 = 0;
                if key.len() == 0 {
                    match value {
                        BencodeValue::Dict(meta) => {
                            let len_key = length_key_bytes();
                            match dict_lookup(meta, len_key.as_slice()) {
                                Some(BencodeValue::Int(l)) => {
                                    add = *l;
                                },
                                _ => {},
                            }
                        },
                        _ => {},
                    }
                } else {
                    proof {
                        assert(decreases_to!(*node => entries));
                        assert(decreases_to!(entries => entries@));
                        assert(decreases_to!(entries@ => entries@[i as int]));
                    }
                    match checked_tree_size(value) {
                        Some(sub) => {
                            add = sub;
                        },
                        None => {
                            proof {
                                assert(!tree_size_fits(*node, i + 1));
                                if tree_size_fits(*node, entries@.len() as int) {
                                    lemma_fits_prefix(*node, entries@.len() as int, i + 1);
                                }
                            }
                            return None;
                        },
                    }
                }
                match size.checked_add(add) {
                    Some(next) => {
                        size = next;
                    },
                    None => {
                        proof {
                            assert(!tree_size_fits(*node, i + 1));
                            if tree_size_fits(*node, entries@.len() as int) {
                                lemma_fits_prefix(*node, entries@.len() as int, i + 1);
                            }
                        }
                        return None;
                    },
                }
                i = i + 1;
            }
        },
        _ => {},
    }
    Some(size)
}

proof fn lemma_fits_prefix(node: BencodeValue, n: int, m: int)
    requires
        tree_size_fits(node, n),
        0 < m <= n,
        n <= dict_len(node),
    ensures
        tree_size_fits(node, m),
        i64::MIN <= tree_size(node, m) <= i64::MAX,
        match node {
            BencodeValue::Dict(entries) => entries@[m - 1].0@.len() > 0 ==> tree_size_fits(
                entries@[m - 1].1,
                dict_len(entries@[m - 1].1),
            ),
            _ => true,
        },
    decreases n - m,
{
    if m < n {
        lemma_fits_prefix(node, n - 1, m);
    }
}

/// The sum of the files' lengths, from the first `n`.
pub open spec fn files_total(files: Seq<InfoFile>, n: int) -> int
    decreases n,
{
    if n <= 0 {
        0
    } else {
        files_total(files, n - 1) + files[n - 1].length
    }
}

impl Info {
    /// Whether the running totals `total_length` adds up stay within `i64`.
    pub open spec fn total_length_fits(self) -> bool {
        self.length <= 0 ==> if self.files@.len() > 0 {
            forall|k: int| 0 < k <= self.files@.len() ==> i64::MIN <= #[trigger] files_total(self.files@, k) <= i64::MAX
        } else {
            match self.file_tree {
                Some(t) => tree_size_fits(t, dict_len(t)),
                None => true,
            }
        }
    }

    /// The torrent's total length: the single file's, else the files' sum, else
    /// the v2 file tree's.
    pub open spec fn spec_total_length(self) -> int {
        if self.length > 0 {
            self.length as int
        } else if self.files@.len() > 0 {
            files_total(self.files@, self.files@.len() as int)
        } else {
            match self.file_tree {
                Some(t) => tree_size(t, dict_len(t)),
                None => 0,
            }
        }
    }

    /// The total length (see `spec_total_length`), or `None` when adding it
    /// up leaves `i64`.
    pub fn checked_total_length(&self) -> (r: Option<i64>)
        ensures
            r is Some <==> self.total_length_fits(),
            r matches Some(n) ==> n == self.spec_total_length(),
    {
        if self.length > 0 {
            return Some(self.length);
        }
        if self.files.len() > 0 {
            let mut sum: i64 = 0;
            let mut i: usize = 0;
            while i < self.files.len()
                invariant
                    i <= self.files@.len(),
                    self.files@.len() > 0,
                    self.length <= 0,
                    sum == files_total(self.files@, i as int),
                    forall|k: int| 0 < k <= i ==> i64::MIN <= #[trigger] files_total(self.files@, k) <= i64::MAX,
                decreases self.files@.len() - i,
            {
                match sum.checked_add(self.files[i].length) {
                    Some(next) => {
                        sum = next;
                    },
                    None => {
                        assert(!(i64::MIN <= files_total(self.files@, i + 1) <= i64::MAX));
                        return None;
                    },
                }
                i = i + 1;
            }
            return Some(sum);
        }
        match &self.file_tree {
            Some(t) => checked_tree_size(t),
            None => Some(0),
        }
    }

    /// The total length (see `spec_total_length`).
    pub fn total_length(&self) -> (r: i64)
        requires
            self.total_length_fits(),
        ensures
            r == self.spec_total_length(),
    {
        if self.length > 0 {
            return self.length;
        }
        if self.files.len() > 0 {
            let mut sum: i64 = 0;
            let mut i: usize = 0;
            while i < self.files.len()
                invariant
                    i <= self.files@.len(),
                    self.files@.len() > 0,
                    self.length <= 0,
                    self.total_length_fits(),
                    sum == files_total(self.files@, i as int),
                decreases self.files@.len() - i,
            {
                assert(i64::MIN <= files_total(self.files@, i + 1) <= i64::MAX);
                sum = sum + self.files[i].length;
                i = i + 1;
            }
            return sum;
        }
        match &self.file_tree {
            Some(t) => calculate_tree_size(t),
            None => 0,
        }
    }
}

/// Whether `v` is ordered by path.
pub open spec fn sorted_by_path(v: Seq<(Seq<char>, u64, Seq<u8>)>) -> bool {
    forall|i: int, j: int| 0 <= i < j < v.len() ==> !path_lt(#[trigger] v[j].0, #[trigger] v[i].0)
}

/// Sorts v2 files by path, keeping files with equal paths in their order.
pub fn sort_by_path(v: Vec<(String, u64, Vec<u8>)>) -> (r: Vec<(String, u64, Vec<u8>)>)
    ensures
        sorted_by_path(roots_view(r@)),
        roots_view(r@).to_multiset() == roots_view(v@).to_multiset(),
{
    broadcast use vstd::multiset::group_multiset_axioms, vstd::seq_lib::group_to_multiset_ensures;

    let mut rest = v;
    let mut out: Vec<(String, u64, Vec<u8>)> = Vec::new();
    let ghost all = roots_view(rest@);
    proof {
        assert(roots_view(out@) + roots_view(rest@) =~= all);
    }
    while rest.len() > 0
        invariant
            sorted_by_path(roots_view(out@)),
            (roots_view(out@) + roots_view(rest@)).to_multiset() == all.to_multiset(),
        decreases rest@.len(),
    {
        let ghost rest0 = rest@;
        let item = rest.remove(0);
        proof {
            assert(rest0 =~= seq![item] + rest@);
            assert(roots_view(rest0) =~= seq![(item.0@, item.1, item.2@)] + roots_view(rest@));

        }
        // The first position whose path comes after the item's.
        let mut pos: usize = 0;
        while pos < out.len() && !less_path(item.0.as_str(), out[pos].0.as_str())
            invariant
                pos <= out@.len(),
                forall|k: int| 0 <= k < pos ==> !path_lt(item.0@, #[trigger] out@[k].0@),
            decreases out@.len() - pos,
        {
            pos = pos + 1;
        }
        let ghost out0 = roots_view(out@);
        let ghost x = (item.0@, item.1, item.2@);
        out.insert(pos, item);
        proof {
            assert(roots_view(out@) =~= out0.insert(pos as int, x));
            assert forall|i: int, j: int| 0 <= i < j < roots_view(out@).len() implies !path_lt(
                #[trigger] roots_view(out@)[j].0,
                #[trigger] roots_view(out@)[i].0,
            ) by {
                let o = roots_view(out@);
                if j < pos {
                    assert(o[i] == out0[i] && o[j] == out0[j]);
                } else if j == pos {
                    assert(o[i] == out0[i]);
                    assert(!path_lt(x.0, out0[i].0));
                    lemma_path_lt_total(x.0, out0[i].0);
                } else if i == pos {
                    assert(o[j] == out0[j - 1]);
                    if (pos as int) < out0.len() {
                        // out0[pos] comes after x, and out0[j - 1] not before out0[pos].
                        assert(path_lt(x.0, out0[pos as int].0));
                        if j - 1 > pos {
                            assert(!path_lt(out0[j - 1].0, out0[pos as int].0));
                            lemma_path_lt_total(out0[j - 1].0, out0[pos as int].0);
                            if path_lt(out0[j - 1].0, x.0) {
                                lemma_path_lt_trans(out0[j - 1].0, x.0, out0[pos as int].0);
                            }
                        } else {
                            if path_lt(out0[j - 1].0, x.0) {
                                lemma_path_lt_trans(x.0, out0[j - 1].0, x.0);
                                lemma_path_lt_irrefl(x.0);
                            }
                        }
                    }
                } else if i < pos {
                    assert(o[i] == out0[i] && o[j] == out0[j - 1]);
                } else {
                    assert(o[i] == out0[i - 1] && o[j] == out0[j - 1]);
                }
            }
            let rv = roots_view(rest@);
            let o2 = roots_view(out@);
            vstd::seq_lib::to_multiset_insert(out0, pos as int, x);
            vstd::seq_lib::lemma_multiset_commutative(o2, rv);
            vstd::seq_lib::lemma_multiset_commutative(out0, roots_view(rest0));
            assert(roots_view(rest0) =~= rv.insert(0, x));
            vstd::seq_lib::to_multiset_insert(rv, 0, x);
            assert((o2 + rv).to_multiset() =~= (out0 + roots_view(rest0)).to_multiset());
        }
    }
    proof {
        assert(roots_view(out@) + roots_view(rest@) =~= roots_view(out@));
    }
    out
}

/// The pieces a file of `len` bytes takes when files start on piece
/// boundaries.
pub open spec fn file_pieces(len: u64, piece_len: u64) -> int {
    if len == 0 {
        0
    } else {
        (len as int + piece_len - 1) / piece_len as int
    }
}

/// The pieces taken by the first `n` files.
pub open spec fn pieces_before(files: Seq<(Seq<char>, u64, Seq<u8>)>, piece_len: u64, n: int) -> int
    decreases n,
{
    if n <= 0 {
        0
    } else {
        pieces_before(files, piece_len, n - 1) + file_pieces(files[n - 1].1, piece_len)
    }
}

/// The file (position) a piece belongs to, among the first `n`.
pub open spec fn piece_owner(files: Seq<(Seq<char>, u64, Seq<u8>)>, piece_len: u64, p: int) -> int {
    choose|k: int|
        #![trigger pieces_before(files, piece_len, k)]
        0 <= k < files.len() && pieces_before(files, piece_len, k) <= p < pieces_before(files, piece_len, k + 1)
}

impl Torrent {
    /// The files of the v2 file tree: path, length and root hash, in tree
    /// order.
    pub fn get_v2_roots(&self) -> (r: Vec<(String, u64, Vec<u8>)>)
        ensures
            roots_view(r@) == match self.info.file_tree {
                Some(t) => tree_files(t, Seq::empty(), dict_len(t)),
                None => Seq::empty(),
            },
    {
        let mut results: Vec<(String, u64, Vec<u8>)> = Vec::new();
        match &self.info.file_tree {
            Some(tree) => {
                traverse_file_tree(tree, String::new(), &mut results);
                assert(roots_view(Seq::<(String, u64, Vec<u8>)>::empty()) =~= Seq::empty());
            },
            None => {
                assert(roots_view(results@) =~= Seq::empty());
            },
        }
        results
    }

    /// The piece layer recorded for a root hash, if any.
    pub fn get_layer_hashes(&self, root_hash: &[u8]) -> (r: Option<Vec<u8>>)
        ensures
            match self.piece_layers {
                Some(BencodeValue::Dict(layers)) => match dict_get(layers@, root_hash@) {
                    Some(BencodeValue::Bytes(b)) => r matches Some(x) && x@ == b@,
                    _ => r is None,
                },
                _ => r is None,
            },
    {
        match &self.piece_layers {
            Some(BencodeValue::Dict(layers)) => match dict_lookup(layers, root_hash) {
                Some(BencodeValue::Bytes(b)) => Some(copy_bytes(b)),
                _ => None,
            },
            _ => None,
        }
    }

    /// Whether the piece arithmetic of `calculate_v2_mapping` stays in range
    /// for these files: piece counts within `u32`, offsets within `u64`.
    pub open spec fn v2_mapping_fits(files: Seq<(Seq<char>, u64, Seq<u8>)>, piece_len: u64) -> bool {
        &&& pieces_before(files, piece_len, files.len() as int) <= u32::MAX
        &&& pieces_before(files, piece_len, files.len() as int) * piece_len <= u64::MAX
    }

    /// Maps the pieces of a v2 torrent onto its files: files sorted by path,
    /// each (but empty ones) starting on a fresh piece. Nothing unless the
    /// metainfo is version 2 with a positive piece length. `sorted` is the
    /// file list sorted by path (see `sort_by_path`).
    pub fn map_sorted_v2_files(piece_length: i64, sorted: &Vec<(String, u64, Vec<u8>)>) -> (r: V2Mapping)
        requires
            piece_length > 0,
            Self::v2_mapping_fits(roots_view(sorted@), piece_length as u64),
        ensures
            ({
                let files = roots_view(sorted@);
                let pl = piece_length as u64;
                let count = pieces_before(files, pl, files.len() as int);
                &&& r.piece_count == count
                &&& r.piece_to_roots@.len() == count
                &&& forall|p: int| 0 <= p < count ==> {
                    let k = piece_owner(files, pl, p);
                    &&& (#[trigger] r.piece_to_roots@[p])@.len() == 1
                    &&& r.piece_to_roots@[p]@[0].0 == pieces_before(files, pl, k) * pl
                    &&& r.piece_to_roots@[p]@[0].1 == files[k].1
                    &&& r.piece_to_roots@[p]@[0].2@ == files[k].2
                }
            }),
    {
        let pl = piece_length as u64;
        let ghost files = roots_view(sorted@);
        let mut map: Vec<Vec<(u64, u64, Vec<u8>)>> = Vec::new();
        let mut current: u64 = 0;
        let mut i: usize = 0;
        proof {
            lemma_pieces_before_mono(files, pl, files.len() as int);
        }
        while i < sorted.len()
            invariant
                i <= sorted@.len(),
                pl > 0,
                files == roots_view(sorted@),
                Self::v2_mapping_fits(files, pl),
                current == pieces_before(files, pl, i as int),
                forall|k: int| 0 <= k <= files.len() ==> #[trigger] pieces_before(files, pl, k) <= pieces_before(files, pl, files.len() as int),
                forall|a: int, b: int| 0 <= a <= b <= files.len() ==> #[trigger] pieces_before(files, pl, a) <= #[trigger] pieces_before(files, pl, b),
                map@.len() == current,
                forall|p: int| 0 <= p < current ==> {
                    let k = piece_owner(files, pl, p);
                    &&& (#[trigger] map@[p])@.len() == 1
                    &&& map@[p]@[0].0 == pieces_before(files, pl, k) * pl
                    &&& map@[p]@[0].1 == files[k].1
                    &&& map@[p]@[0].2@ == files[k].2
                },
            decreases sorted@.len() - i,
        {
            let length = sorted[i].1;
            proof {
                assert(pieces_before(files, pl, i + 1) == current + file_pieces(length, pl));
                assert(pieces_before(files, pl, i + 1) <= pieces_before(files, pl, files.len() as int));
            }
            if length > 0 {
                let whole = length / pl;
                proof {
                    assert(length % pl != 0 ==> whole < u64::MAX) by (nonlinear_arith)
                        requires
                            pl > 0,
                            whole == length / pl,
                    {
                    }
                }
                let file_pieces_n = if length % pl == 0 { whole } else { whole + 1 };
                proof {
                    assert(file_pieces_n == file_pieces(length, pl)) by (nonlinear_arith)
                        requires
                            length > 0,
                            pl > 0,
                            whole == length / pl,
                            file_pieces_n == whole + if length % pl == 0 { 0int } else { 1int },
                    {
                    }
                    assert(current * pl <= pieces_before(files, pl, files.len() as int) * pl) by (nonlinear_arith)
                        requires
                            current <= pieces_before(files, pl, files.len() as int),
                            pl > 0,
                    {
                    }
                }
                let start = current * pl;
                let mut q: u64 = 0;
                while q < file_pieces_n
                    invariant
                        i < sorted@.len(),
                        q <= file_pieces_n,
                        file_pieces_n == file_pieces(length, pl),
                        length == files[i as int].1,
                        files == roots_view(sorted@),
                        pl > 0,
                        start == pieces_before(files, pl, i as int) * pl,
                        current == pieces_before(files, pl, i as int),
                        current + file_pieces_n == pieces_before(files, pl, i + 1),
                        map@.len() == current + q,
                        forall|a: int, b: int| 0 <= a <= b <= files.len() ==> #[trigger] pieces_before(files, pl, a) <= #[trigger] pieces_before(files, pl, b),
                        forall|p: int| 0 <= p < current + q ==> {
                            let k = piece_owner(files, pl, p);
                            &&& (#[trigger] map@[p])@.len() == 1
                            &&& map@[p]@[0].0 == pieces_before(files, pl, k) * pl
                            &&& map@[p]@[0].1 == files[k].1
                            &&& map@[p]@[0].2@ == files[k].2
                        },
                    decreases file_pieces_n - q,
                {
                    let entry: Vec<(u64, u64, Vec<u8>)> = vec![(start, length, copy_bytes(&sorted[i].2))];
                    let ghost p = current + q;
                    proof {
                        lemma_piece_owner(files, pl, p, i as int);
                    }
                    map.push(entry);
                    q = q + 1;
                }
                current = current + file_pieces_n;
            }
            i = i + 1;
        }
        V2Mapping { piece_to_roots: map, piece_count: current as usize }
    }

    /// How the pieces of a pure v2 torrent map onto its files (see
    /// `map_sorted_v2_files`); empty unless the metainfo is version 2 with a
    /// positive piece length.
    pub fn calculate_v2_mapping(&self) -> (r: V2Mapping)
        requires
            self.info.meta_version == Some(2i64) && self.info.piece_length > 0 ==> forall|s: Seq<(Seq<char>, u64, Seq<u8>)>|
                #![trigger s.to_multiset()]
                s.to_multiset() == (match self.info.file_tree {
                    Some(t) => tree_files(t, Seq::empty(), dict_len(t)),
                    None => Seq::empty(),
                }).to_multiset() ==> Self::v2_mapping_fits(s, self.info.piece_length as u64),
        ensures
            !(self.info.meta_version == Some(2i64) && self.info.piece_length > 0) ==> r.piece_count == 0
                && r.piece_to_roots@.len() == 0,
            self.info.meta_version == Some(2i64) && self.info.piece_length > 0 ==> exists|sorted: Seq<(Seq<char>, u64, Seq<u8>)>|
                #![trigger sorted.to_multiset()]
                {
                    let files = match self.info.file_tree {
                        Some(t) => tree_files(t, Seq::empty(), dict_len(t)),
                        None => Seq::empty(),
                    };
                    let pl = self.info.piece_length as u64;
                    let count = pieces_before(sorted, pl, sorted.len() as int);
                    &&& sorted_by_path(sorted)
                    &&& sorted.to_multiset() == files.to_multiset()
                    &&& r.piece_count == count
                    &&& r.piece_to_roots@.len() == count
                    &&& forall|p: int| 0 <= p < count ==> {
                        let k = piece_owner(sorted, pl, p);
                        &&& (#[trigger] r.piece_to_roots@[p])@.len() == 1
                        &&& r.piece_to_roots@[p]@[0].0 == pieces_before(sorted, pl, k) * pl
                        &&& r.piece_to_roots@[p]@[0].1 == sorted[k].1
                        &&& r.piece_to_roots@[p]@[0].2@ == sorted[k].2
                    }
                },
    {
        if self.info.meta_version == Some(2i64) && self.info.piece_length > 0 {
            let roots = self.get_v2_roots();
            let sorted = sort_by_path(roots);
            let r = Self::map_sorted_v2_files(self.info.piece_length, &sorted);
            proof {
                let s = roots_view(sorted@);
                assert(s.to_multiset() == s.to_multiset());
            }
            r
        } else {
            V2Mapping { piece_to_roots: Vec::new(), piece_count: 0 }
        }
    }

    /// The torrent's piece count: one per 20 bytes of the v1 pieces string
    /// when there is one (hybrid torrents use v1 piece indices), else the v2
    /// count when positive, else the total length over the piece length,
    /// rounded up.
    pub fn total_piece_count(&self, v2_count: usize) -> (r: usize)
        requires
            self.info.pieces@.len() == 0 && v2_count == 0 ==> self.info.total_length_fits(),
        ensures
            r == if self.info.pieces@.len() > 0 {
                (self.info.pieces@.len() / 20) as int
            } else if v2_count > 0 {
                v2_count as int
            } else {
                let total = self.info.spec_total_length() as u64;
                let pl = self.info.piece_length as u64;
                if pl > 0 {
                    ((total as int + pl - 1) / pl as int) as usize as int
                } else {
                    0
                }
            },
    {
        if self.info.pieces.len() > 0 {
            self.info.pieces.len() / 20
        } else if v2_count > 0 {
            v2_count
        } else {
            let total = self.info.total_length() as u64;
            let pl = self.info.piece_length as u64;
            if pl > 0 {
                let whole = total / pl;
                proof {
                    assert(total % pl != 0 ==> whole < u64::MAX) by (nonlinear_arith)
                        requires
                            pl > 0,
                            whole == total / pl,
                    {
                    }
                }
                let q = if total % pl == 0 { whole } else { whole + 1 };
                proof {
                    assert(q == (total as int + pl - 1) / pl as int) by (nonlinear_arith)
                        requires
                            pl > 0,
                            whole == total / pl,
                            q == whole + if total % pl == 0 { 0int } else { 1int },
                    {
                    }
                }
                q as usize
            } else {
                0
            }
        }
    }
}

proof fn lemma_pieces_before_mono(files: Seq<(Seq<char>, u64, Seq<u8>)>, pl: u64, n: int)
    requires
        pl > 0,
    ensures
        forall|a: int, b: int| 0 <= a <= b <= n ==> #[trigger] pieces_before(files, pl, a) <= #[trigger] pieces_before(files, pl, b),
        forall|k: int| 0 <= k <= n ==> #[trigger] pieces_before(files, pl, k) <= pieces_before(files, pl, n),
    decreases n,
{
    if n > 0 {
        lemma_pieces_before_mono(files, pl, n - 1);
        let len = files[n - 1].1;
        if len > 0 {
            assert((len as int + pl - 1) / pl as int >= 0) by (nonlinear_arith)
                requires
                    len > 0,
                    pl > 0,
            {
            }
        }
    }
}

proof fn lemma_piece_owner(files: Seq<(Seq<char>, u64, Seq<u8>)>, pl: u64, p: int, i: int)
    requires
        0 <= i < files.len(),
        pieces_before(files, pl, i) <= p < pieces_before(files, pl, i + 1),
        forall|a: int, b: int| 0 <= a <= b <= files.len() ==> #[trigger] pieces_before(files, pl, a) <= #[trigger] pieces_before(files, pl, b),
    ensures
        piece_owner(files, pl, p) == i,
{
    let k = piece_owner(files, pl, p);
    assert(0 <= k < files.len() && pieces_before(files, pl, k) <= p < pieces_before(files, pl, k + 1));
    if k < i {
        assert(pieces_before(files, pl, k + 1) <= pieces_before(files, pl, i));
    } else if k > i {
        assert(pieces_before(files, pl, i + 1) <= pieces_before(files, pl, k));
    }
}

} // verus!
