//! The file layout of a torrent's data: which file holds which bytes of the
//! torrent's byte stream, and how a read or write of a stretch of that
//! stream splits across files. The files themselves are read and written by
//! the caller.
use vstd::prelude::*;
use vstd::string::*;
use crate::torrent_file::InfoFile;
use crate::config::{path_join, join_path};

verus! {

/// One file of the torrent's data.
#[derive(Debug, Clone)]
pub struct FileInfo {
    /// The full path of the file on disk.
    pub path: String,
    pub length: u64,
    /// Where the file starts in the torrent's byte stream.
    pub global_start_offset: u64,
    /// A BEP 47 padding file: it stands for zeros and is never written.
    pub is_padding: bool,
}

/// The layout of a torrent's files, single- or multi-file alike.
#[derive(Debug, Clone)]
pub struct MultiFileInfo {
    pub files: Vec<FileInfo>,
    pub total_size: u64,
}

/// A path extended by one component; a component that starts with `/`
/// replaces the path.
pub open spec fn path_push(base: Seq<char>, comp: Seq<char>) -> Seq<char> {
    if comp.len() > 0 && comp[0] == '/' {
        comp
    } else {
        path_join(base, comp)
    }
}

/// A path extended by the first `n` components.
pub open spec fn path_push_all(base: Seq<char>, comps: Seq<String>, n: int) -> Seq<char>
    decreases n,
{
    if n <= 0 {
        base
    } else {
        path_push(path_push_all(base, comps, n - 1), comps[n - 1]@)
    }
}

/// Whether the text holds a `p`.
pub open spec fn has_p(t: Seq<char>) -> bool {
    exists|i: int| 0 <= i < t.len() && t[i] == 'p'
}

/// Where the first `n` files end in the byte stream.
pub open spec fn files_end(files: Seq<InfoFile>, n: int) -> int
    decreases n,
{
    if n <= 0 {
        0
    } else {
        files_end(files, n - 1) + files[n - 1].length as u64
    }
}

/// Extends a path by one component.
fn push_component(base: &String, comp: &String) -> (r: String)
    ensures
        r@ == path_push(base@, comp@),
{
    if comp.unicode_len() > 0 && comp.as_str().get_char(0) == '/' {
        comp.clone()
    } else {
        join_path(base.as_str(), comp.as_str())
    }
}

/// Whether the text holds a `p`.
fn contains_p(t: &String) -> (r: bool)
    ensures
        r == has_p(t@),
{
    let n = t.unicode_len();
    let mut i: usize = 0;
    while i < n
        invariant
            n == t@.len(),
            i <= n,
            forall|j: int| 0 <= j < i ==> t@[j] != 'p',
        decreases n - i,
    {
        if t.as_str().get_char(i) == 'p' {
            return true;
        }
        i = i + 1;
    }
    false
}

impl MultiFileInfo {
    /// The layout of a torrent's data below `root_dir`: with a file list, each
    /// file at `root_dir` extended by its path, one after the other in the
    /// byte stream, a padding file wherever its attributes hold a `p`;
    /// without one, a single file named after the torrent, `length` bytes
    /// long (0 when unknown).
    pub fn new(root_dir: &str, torrent_name: &str, files: Option<&Vec<InfoFile>>, length: Option<u64>) -> (r: Self)
        requires
            files matches Some(fs) ==> forall|k: int| 0 < k <= fs@.len() ==> #[trigger] files_end(fs@, k) <= u64::MAX,
        ensures
            match files {
                Some(fs) => {
                    &&& r.files@.len() == fs@.len()
                    &&& r.total_size == files_end(fs@, fs@.len() as int)
                    &&& forall|k: int| 0 <= k < fs@.len() ==> {
                        let f = #[trigger] r.files@[k];
                        &&& f.path@ == path_push_all(root_dir@, fs@[k].path@, fs@[k].path@.len() as int)
                        &&& f.length == fs@[k].length as u64
                        &&& f.global_start_offset == files_end(fs@, k)
                        &&& f.is_padding == (fs@[k].attr matches Some(a) && has_p(a@))
                    }
                },
                None => {
                    let len = match length {
                        Some(l) => l,
                        None => 0,
                    };
                    &&& r.files@.len() == 1
                    &&& r.total_size == len
                    &&& r.files@[0].path@ == path_join(root_dir@, torrent_name@)
                    &&& r.files@[0].length == len
                    &&& r.files@[0].global_start_offset == 0
                    &&& !r.files@[0].is_padding
                },
            },
    {
        match files {
            Some(torrent_files) => {
                let mut files_vec: Vec<FileInfo> = Vec::new();
                let mut current: u64 = 0;
                let root = root_dir.to_owned();
                let mut k: usize = 0;
                while k < torrent_files.len()
                    invariant
                        k <= torrent_files@.len(),
                        root@ == root_dir@,
                        forall|j: int| 0 < j <= torrent_files@.len() ==> #[trigger] files_end(torrent_files@, j) <= u64::MAX,
                        current == files_end(torrent_files@, k as int),
                        files_vec@.len() == k,
                        forall|j: int| 0 <= j < k ==> {
                            let f = #[trigger] files_vec@[j];
                            &&& f.path@ == path_push_all(root_dir@, torrent_files@[j].path@, torrent_files@[j].path@.len() as int)
                            &&& f.length == torrent_files@[j].length as u64
                            &&& f.global_start_offset == files_end(torrent_files@, j)
                            &&& f.is_padding == (torrent_files@[j].attr matches Some(a) && has_p(a@))
                        },
                    decreases torrent_files@.len() - k,
                {
                    let f = &torrent_files[k];
                    let mut full_path = root.clone();
                    let mut c: usize = 0;
                    while c < f.path.len()
                        invariant
                            c <= f.path@.len(),
                            full_path@ == path_push_all(root_dir@, f.path@, c as int),
                        decreases f.path@.len() - c,
                    {
                        full_path = push_component(&full_path, &f.path[c]);
                        c = c + 1;
                    }
                    let is_padding = match &f.attr {
                        Some(a) => contains_p(a),
                        None => false,
                    };
                    let len = f.length as u64;
                    assert(files_end(torrent_files@, k + 1) <= u64::MAX);
                    files_vec.push(FileInfo { path: full_path, length: len, global_start_offset: current, is_padding });
                    current = current + len;
                    k = k + 1;
                }
                MultiFileInfo { files: files_vec, total_size: current }
            },
            None => {
                let total_size = match length {
                    Some(l) => l,
                    None => 0,
                };
                let single = FileInfo {
                    path: join_path(root_dir, torrent_name),
                    length: total_size,
                    global_start_offset: 0,
                    is_padding: false,
                };
                let mut v: Vec<FileInfo> = Vec::new();
                v.push(single);
                MultiFileInfo { files: v, total_size }
            },
        }
    }

    /// Whether every file's end in the byte stream fits in `u64`.
    pub open spec fn ends_fit(&self) -> bool {
        forall|k: int| 0 <= k < self.files@.len() ==> (#[trigger] self.files@[k]).global_start_offset
            + self.files@[k].length <= u64::MAX
    }

    /// The pieces of files that bytes `offset..offset + want` of the stream
    /// fall in, walking the files in order from the `k`-th with `done` bytes
    /// placed: each is (file position, offset in the file, byte count). The
    /// walk fails when the files run out first.
    pub open spec fn spans_from(self, offset: u64, want: nat, k: int, done: nat) -> Option<Seq<(int, int, int)>>
        decreases self.files@.len() - k,
    {
        if k < 0 || k >= self.files@.len() {
            None
        } else {
            let f = self.files@[k];
            let file_end = f.global_start_offset + f.length;
            let start = offset + done;
            if start < file_end && offset < file_end {
                let local = if start >= f.global_start_offset { start - f.global_start_offset } else { 0 };
                let n = if want - done < f.length - local { want - done } else { f.length - local };
                let here: Seq<(int, int, int)> = if n > 0 { seq![(k, local, n)] } else { seq![] };
                let done2 = (done + n) as nat;
                if done2 == want {
                    Some(here)
                } else {
                    match self.spans_from(offset, want, k + 1, done2) {
                        Some(rest) => Some(here + rest),
                        None => None,
                    }
                }
            } else {
                self.spans_from(offset, want, k + 1, done)
            }
        }
    }

    /// How bytes `offset..offset + len` of the stream split across the files
    /// (see `spans_from`): nothing when they run past the last file.
    pub fn file_spans(&self, offset: u64, len: usize) -> (r: Option<Vec<(usize, u64, usize)>>)
        requires
            self.ends_fit(),
            offset + len <= u64::MAX,
        ensures
            match self.spans_from(offset, len as nat, 0, 0) {
                Some(s) => r matches Some(v) && v@.len() == s.len() && forall|j: int| 0 <= j < s.len() ==> {
                    let e = #[trigger] v@[j];
                    e.0 as int == s[j].0 && e.1 as int == s[j].1 && e.2 as int == s[j].2
                },
                None => r is None,
            },
    {
        let mut spans: Vec<(usize, u64, usize)> = Vec::new();
        let mut done: usize = 0;
        let mut k: usize = 0;
        let ghost mut acc: Seq<(int, int, int)> = seq![];
        while k < self.files.len()
            invariant
                self.ends_fit(),
                offset + len <= u64::MAX,
                k <= self.files@.len(),
                done <= len,
                done == len ==> len == 0,
                spans@.len() == acc.len(),
                forall|j: int| 0 <= j < acc.len() ==> {
                    let e = #[trigger] spans@[j];
                    e.0 as int == acc[j].0 && e.1 as int == acc[j].1 && e.2 as int == acc[j].2
                },
                self.spans_from(offset, len as nat, 0, 0) == match self.spans_from(offset, len as nat, k as int, done as nat) {
                    Some(rest) => Some(acc + rest),
                    None => None::<Seq<(int, int, int)>>,
                },
            decreases self.files@.len() - k,
        {
            let f = &self.files[k];
            let file_end = f.global_start_offset + f.length;
            let start = offset + done as u64;
            if start < file_end && offset < file_end {
                let local = if start >= f.global_start_offset { start - f.global_start_offset } else { 0 };
                let room = f.length - local;
                let left = (len - done) as u64;
                let n: u64 = if left < room { left } else { room };
                let ghost here: Seq<(int, int, int)> = if n > 0 { seq![(k as int, local as int, n as int)] } else { seq![] };
                if n > 0 {
                    spans.push((k, local, n as usize));
                }
                proof {
                    assert(self.spans_from(offset, len as nat, k as int, done as nat) == if done + n == len {
                        Some(here)
                    } else {
                        match self.spans_from(offset, len as nat, k + 1, (done + n) as nat) {
                            Some(rest) => Some(here + rest),
                            None => None,
                        }
                    });
                    acc = acc + here;
                    assert forall|j: int| 0 <= j < acc.len() implies {
                        let e = #[trigger] spans@[j];
                        e.0 as int == acc[j].0 && e.1 as int == acc[j].1 && e.2 as int == acc[j].2
                    } by {}
                }
                done = done + n as usize;
                if done == len {
                    proof {
                        assert(acc + Seq::<(int, int, int)>::empty() =~= acc);
                    }
                    return Some(spans);
                }
            }
            k = k + 1;
        }
        None
    }
}

} // verus!
