//! Where a torrent's content is fetched from and what is removed with it:
//! the URL a web seed is asked for, and whether deleting a torrent's files
//! also removes its folder.
use vstd::prelude::*;
use vstd::string::*;

verus! {

/// The URL a web seed is asked for: a URL ending in `/` names a folder, so
/// the torrent's name is appended to it; any other URL names the file.
pub open spec fn web_seed_url(url: Seq<char>, name: Seq<char>) -> Seq<char> {
    if url.len() > 0 && url.last() == '/' {
        url + name
    } else {
        url
    }
}

/// The URL to fetch a torrent named `name` from the web seed `url`.
pub fn web_seed_full_url(url: &str, name: &str) -> (r: String)
    ensures
        r@ == web_seed_url(url@, name@),
{
    let n = url.unicode_len();
    let mut r = String::new();
    r.append(url);
    proof {
        assert(r@ =~= url@);
    }
    if n > 0 && url.get_char(n - 1) == '/' {
        r.append(name);
    }
    r
}

/// Whether deleting a torrent's files also removes its folder: only when
/// every file was removed (or already gone), the torrent has more than one
/// file (so they sit in a folder of their own), and its name is known.
pub open spec fn removes_content_folder(files_removed: bool, file_count: nat, has_name: bool) -> bool {
    files_removed && file_count > 1 && has_name
}

/// Decides whether to remove the content folder after deleting the files.
pub fn should_remove_content_folder(files_removed: bool, file_count: usize, has_name: bool) -> (r: bool)
    ensures
        r == removes_content_folder(files_removed, file_count as nat, has_name),
{
    files_removed && file_count > 1 && has_name
}

} // verus!
