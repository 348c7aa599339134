//! The command line, and the name under which an input is dropped into the
//! watch folder.
use vstd::prelude::*;
use vstd::string::*;
use crate::dht::token::{sha1, sha1_digest};

verus! {

/// The command line: an optional torrent or magnet to add, or a subcommand.
#[derive(Debug)]
pub struct Cli {
    pub input: Option<String>,
    pub command: Option<Commands>,
}

/// The subcommands.
#[derive(Debug)]
pub enum Commands {
    /// Add a torrent file or magnet link.
    Add { input: String },
    /// Stop the running client.
    StopClient,
}

/// The lower-case hex digit of a nibble.
pub open spec fn hex_digit(v: int) -> char {
    if v < 10 {
        (48 + v) as char
    } else {
        (87 + v) as char
    }
}

/// Lower-case hex text of some bytes, two digits per byte.
pub open spec fn hex_text(bytes: Seq<u8>) -> Seq<char> {
    Seq::new(
        2 * bytes.len(),
        |i: int| if i % 2 == 0 { hex_digit(bytes[i / 2] as int / 16) } else { hex_digit(bytes[i / 2] as int % 16) },
    )
}

/// `hex::encode`: each byte as two lower-case hex digits.
#[verifier::external_body]
fn hex_encode(bytes: &[u8]) -> (r: String)
    ensures
        r@ == hex_text(bytes@),
{
    hex::encode(bytes)
}

/// The name a watch-folder file with this content gets: the lower-case hex
/// SHA-1 of the content's bytes, a dot and the extension.
pub open spec fn watch_file_name_of(content: Seq<u8>, extension: Seq<char>) -> Seq<char> {
    hex_text(sha1(content)) + seq!['.'] + extension
}

/// The name under which input is dropped into the watch folder (`magnet` for
/// a magnet link, `path` for a torrent file's absolute path); it is first
/// written under the same name with `.tmp` appended, then renamed.
pub fn watch_file_name(content: &str, extension: &str) -> (r: String)
    ensures
        r@ == watch_file_name_of(content.spec_bytes(), extension@),
{
    let digest = sha1_digest(content.as_bytes());
    let mut name = hex_encode(digest.as_slice());
    name.append(".");
    name.append(extension);
    proof {
        reveal_strlit(".");
    }
    name
}

} // verus!
