//! What a file dropped into a watched folder asks the client to do.
//!
//! Paths are `/`-separated text. Whether the path names a regular file is
//! found out by the caller, which reads the file system.
use vstd::prelude::*;
use vstd::string::*;

verus! {

/// A command raised by a file in a watched folder; each carries the file's path.
#[derive(Debug, Clone, PartialEq, Eq)]
pub enum AppCommand {
    /// A `.torrent` file to add.
    AddTorrentFromFile(String),
    /// A `.path` file naming a torrent file to add.
    AddTorrentFromPathFile(String),
    /// A `.magnet` file holding a magnet link to add.
    AddMagnetFromFile(String),
    /// `shutdown.cmd`: stop the client.
    ClientShutdown(String),
    /// `forwarded_port`: the forwarded listen port changed.
    PortFileChanged(String),
}

/// The kind of an `AppCommand`, without its path.
#[derive(Debug, Clone, Copy, PartialEq, Eq, Structural)]
pub enum WatchFileKind {
    TorrentFile,
    PathFile,
    MagnetFile,
    Shutdown,
    PortFile,
}

impl AppCommand {
    /// The command's kind.
    pub open spec fn kind(self) -> WatchFileKind {
        match self {
            AppCommand::AddTorrentFromFile(_) => WatchFileKind::TorrentFile,
            AppCommand::AddTorrentFromPathFile(_) => WatchFileKind::PathFile,
            AppCommand::AddMagnetFromFile(_) => WatchFileKind::MagnetFile,
            AppCommand::ClientShutdown(_) => WatchFileKind::Shutdown,
            AppCommand::PortFileChanged(_) => WatchFileKind::PortFile,
        }
    }

    /// The path the command carries.
    pub open spec fn path(self) -> Seq<char> {
        match self {
            AppCommand::AddTorrentFromFile(p) => p@,
            AppCommand::AddTorrentFromPathFile(p) => p@,
            AppCommand::AddMagnetFromFile(p) => p@,
            AppCommand::ClientShutdown(p) => p@,
            AppCommand::PortFileChanged(p) => p@,
        }
    }
}

/// The length of `p` once trailing `/` characters are dropped.
pub open spec fn trimmed_len(p: Seq<char>, n: int) -> int
    decreases n,
{
    if n <= 0 {
        0
    } else if p[n - 1] == '/' {
        trimmed_len(p, n - 1)
    } else {
        n
    }
}

/// The position of the last `/` before `n`, or -1.
pub open spec fn last_slash_before(p: Seq<char>, n: int) -> int
    decreases n,
{
    if n <= 0 {
        -1
    } else if p[n - 1] == '/' {
        n - 1
    } else {
        last_slash_before(p, n - 1)
    }
}

/// The position of the last `.` before `n`, or -1.
pub open spec fn last_dot_before(p: Seq<char>, n: int) -> int
    decreases n,
{
    if n <= 0 {
        -1
    } else if p[n - 1] == '.' {
        n - 1
    } else {
        last_dot_before(p, n - 1)
    }
}

/// The last component of a path (trailing slashes ignored), unless it is
/// empty or `..`.
pub open spec fn file_name(p: Seq<char>) -> Option<Seq<char>> {
    let t = trimmed_len(p, p.len() as int);
    let name = p.subrange(last_slash_before(p, t) + 1, t);
    if name.len() == 0 || name == seq!['.', '.'] {
        None
    } else {
        Some(name)
    }
}

/// The text after the last `.` of a file name, when that `.` is not its first
/// character.
pub open spec fn extension(name: Seq<char>) -> Option<Seq<char>> {
    let d = last_dot_before(name, name.len() as int);
    if d <= 0 {
        None
    } else {
        Some(name.subrange(d + 1, name.len() as int))
    }
}

/// What a watched path asks for. Nothing for what is not a regular file, for
/// hidden files (name starting with `.`) and for `.tmp` files; `forwarded_port`
/// reports a port change; otherwise the extension decides: `torrent`, `path`,
/// `magnet`, or `cmd` for `shutdown.cmd`.
pub open spec fn watch_kind(path: Seq<char>, is_file: bool) -> Option<WatchFileKind> {
    let name = file_name(path);
    let tmp = seq!['.', 't', 'm', 'p'];
    if !is_file {
        None
    } else if name is Some && name->0[0] == '.' {
        None
    } else if path.len() >= 4 && path.subrange(path.len() - 4, path.len() as int) == tmp {
        None
    } else if name == Some("forwarded_port"@) {
        Some(WatchFileKind::PortFile)
    } else {
        match name {
            None => None,
            Some(n) => match extension(n) {
                None => None,
                Some(e) => if e == "torrent"@ {
                    Some(WatchFileKind::TorrentFile)
                } else if e == "path"@ {
                    Some(WatchFileKind::PathFile)
                } else if e == "magnet"@ {
                    Some(WatchFileKind::MagnetFile)
                } else if e == "cmd"@ && n == "shutdown.cmd"@ {
                    Some(WatchFileKind::Shutdown)
                } else {
                    None
                },
            },
        }
    }
}

/// Whether the characters `from..to` of `s` spell `lit`.
fn spells(s: &str, from: usize, to: usize, lit: &str) -> (r: bool)
    requires
        from <= to <= s@.len(),
    ensures
        r == (s@.subrange(from as int, to as int) == lit@),
{
    let n = lit.unicode_len();
    if to - from != n {
        return false;
    }
    let mut i: usize = 0;
    while i < n
        invariant
            from <= to <= s@.len(),
            to - from == n,
            n == lit@.len(),
            i <= n,
            forall|j: int| 0 <= j < i ==> s@[from + j] == lit@[j],
        decreases n - i,
    {
        if s.get_char(from + i) != lit.get_char(i) {
            assert(s@.subrange(from as int, to as int)[i as int] != lit@[i as int]);
            return false;
        }
        i = i + 1;
    }
    assert(s@.subrange(from as int, to as int) =~= lit@);
    true
}

/// The command a path in a watched folder raises, if any; `is_file` tells
/// whether the path names a regular file.
pub fn path_to_command(path: &str, is_file: bool) -> (r: Option<AppCommand>)
    ensures
        match watch_kind(path@, is_file) {
            None => r is None,
            Some(k) => r is Some && r->0.kind() == k && r->0.path() == path@,
        },
{
    let ghost p = path@;
    let len = path.unicode_len();
    // Drop trailing slashes.
    let mut t = len;
    while t > 0 && path.get_char(t - 1) == '/'
        invariant
            t <= len,
            len == p.len(),
            p == path@,
            trimmed_len(p, len as int) == trimmed_len(p, t as int),
        decreases t,
    {
        t = t - 1;
    }
    // Find the start of the last component.
    let mut s = t;
    while s > 0 && path.get_char(s - 1) != '/'
        invariant
            s <= t <= len,
            len == p.len(),
            p == path@,
            last_slash_before(p, t as int) == last_slash_before(p, s as int),
        decreases s,
    {
        s = s - 1;
    }
    proof {
        reveal_strlit("forwarded_port");
        reveal_strlit("torrent");
        reveal_strlit("path");
        reveal_strlit("magnet");
        reveal_strlit("cmd");
        reveal_strlit("shutdown.cmd");
        reveal_strlit(".tmp");
        reveal_strlit("..");
        assert(trimmed_len(p, t as int) == t);
        assert(last_slash_before(p, s as int) == s - 1);
    }
    let ghost name = p.subrange(s as int, t as int);
    let has_name = s < t && !spells(path, s, t, "..");
    proof {
        assert("..".view() =~= seq!['.', '.']);
        assert(has_name == (file_name(p) is Some));
        if has_name {
            assert(file_name(p) == Some(name));
        }
    }
    if !is_file {
        return None;
    }
    if has_name && path.get_char(s) == '.' {
        return None;
    }
    if len >= 4 && spells(path, len - 4, len, ".tmp") {
        proof {
            assert(".tmp".view() =~= seq!['.', 't', 'm', 'p']);
        }
        return None;
    }
    proof {
        assert(".tmp".view() =~= seq!['.', 't', 'm', 'p']);
    }
    if has_name && spells(path, s, t, "forwarded_port") {
        return Some(AppCommand::PortFileChanged(path.to_owned()));
    }
    if !has_name {
        return None;
    }
    // Find the last dot of the name.
    let mut d = t;
    while d > s && path.get_char(d - 1) != '.'
        invariant
            s <= d <= t,
            t <= len,
            len == p.len(),
            p == path@,
            name == p.subrange(s as int, t as int),
            last_dot_before(name, (t - s) as int) == last_dot_before(name, (d - s) as int),
        decreases d,
    {
        assert(name[(d - s) - 1] == p[d - 1]);
        d = d - 1;
    }
    proof {
        if d > s {
            assert(name[(d - s) - 1] == p[d - 1]);
        }
        assert(last_dot_before(name, (d - s) as int) == d - s - 1);
    }
    if d <= s + 1 {
        return None;
    }
    proof {
        assert(extension(name) == Some(p.subrange(d as int, t as int)));
        assert(name.subrange((d - s) as int, name.len() as int) =~= p.subrange(d as int, t as int));
    }
    if spells(path, d, t, "torrent") {
        Some(AppCommand::AddTorrentFromFile(path.to_owned()))
    } else if spells(path, d, t, "path") {
        Some(AppCommand::AddTorrentFromPathFile(path.to_owned()))
    } else if spells(path, d, t, "magnet") {
        Some(AppCommand::AddMagnetFromFile(path.to_owned()))
    } else if spells(path, d, t, "cmd") && spells(path, s, t, "shutdown.cmd") {
        Some(AppCommand::ClientShutdown(path.to_owned()))
    } else {
        None
    }
}

} // verus!
