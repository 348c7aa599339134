//! Short, log-friendly descriptions of wire messages: bulky payloads are
//! summarized by their length, everything else is written out as the
//! message's variant and fields.
use vstd::prelude::*;
use vstd::string::*;
use crate::torrent_file::parser::{decimal_text, to_decimal};
use super::{Message, MessageView};

verus! {

/// The decimal text of an integer, with a minus sign when negative.
pub open spec fn signed_text(x: int) -> Seq<char> {
    if x < 0 {
        seq!['-'] + decimal_text((-x) as nat)
    } else {
        decimal_text(x as nat)
    }
}

/// The bytes in decimal, separated by `", "`.
pub open spec fn list_items(b: Seq<u8>) -> Seq<char>
    decreases b.len(),
{
    if b.len() == 0 {
        seq![]
    } else if b.len() == 1 {
        decimal_text(b[0] as nat)
    } else {
        list_items(b.drop_last()) + ", "@ + decimal_text(b.last() as nat)
    }
}

/// `name(a, b, c)` with the numbers in decimal.
pub open spec fn three_fields(name: Seq<char>, a: u32, b: u32, c: u32) -> Seq<char> {
    name + "("@ + decimal_text(a as nat) + ", "@ + decimal_text(b as nat) + ", "@ + decimal_text(c as nat) + ")"@
}

/// The description of a message: a handshake without its contents, a
/// bitfield and a piece by their lengths, any other message as its variant
/// name and fields (byte lists in brackets).
pub open spec fn summary_text(m: MessageView) -> Seq<char> {
    match m {
        MessageView::Handshake(_, _) => "HANDSHAKE(...)"@,
        MessageView::KeepAlive => "KeepAlive"@,
        MessageView::Choke => "Choke"@,
        MessageView::Unchoke => "Unchoke"@,
        MessageView::Interested => "Interested"@,
        MessageView::NotInterested => "NotInterested"@,
        MessageView::Have(i) => "Have("@ + decimal_text(i as nat) + ")"@,
        MessageView::Bitfield(b) => "BITFIELD(len: "@ + decimal_text(b.len()) + ")"@,
        MessageView::Request(i, b, l) => three_fields("Request"@, i, b, l),
        MessageView::Piece(i, b, d) => "PIECE(index: "@ + decimal_text(i as nat) + ", begin: "@ + decimal_text(b as nat)
            + ", len: "@ + decimal_text(d.len()) + ")"@,
        MessageView::Cancel(i, b, l) => three_fields("Cancel"@, i, b, l),
        MessageView::Port(p) => "Port("@ + decimal_text(p as nat) + ")"@,
        MessageView::ExtendedHandshake(s) => match s {
            None => "ExtendedHandshake(None)"@,
            Some(x) => "ExtendedHandshake(Some("@ + signed_text(x as int) + "))"@,
        },
        MessageView::Extended(id, p) => "Extended("@ + decimal_text(id as nat) + ", ["@ + list_items(p) + "])"@,
    }
}

/// A message as it is described in logs.
pub struct MessageSummary<'a>(pub &'a Message);

/// `s` followed by the decimal digits of `n`.
fn push_number(s: &mut String, n: u64)
    ensures
        final(s)@ == old(s)@ + decimal_text(n as nat),
{
    let digits = to_decimal(n);
    s.append(digits.as_str());
}

/// The decimal text of `x`, signed.
fn signed_decimal(x: i64) -> (r: String)
    ensures
        r@ == signed_text(x as int),
{
    if x < 0 {
        let magnitude: u64 = ((-(x + 1)) as u64) + 1;
        let mut s = String::new();
        proof {
            reveal_strlit("-");
        }
        s.append("-");
        push_number(&mut s, magnitude);
        assert(s@ =~= seq!['-'] + decimal_text((-x) as nat));
        s
    } else {
        to_decimal(x as u64)
    }
}

/// The bytes in decimal, separated by `", "`.
fn byte_list(b: &Vec<u8>) -> (r: String)
    ensures
        r@ == list_items(b@),
{
    proof {
        reveal_strlit(", ");
    }
    let mut s = String::new();
    let mut k: usize = 0;
    while k < b.len()
        invariant
            k <= b@.len(),
            s@ == list_items(b@.take(k as int)),
        decreases b@.len() - k,
    {
        proof {
            let t = b@.take(k + 1);
            assert(t.drop_last() =~= b@.take(k as int));
            assert(t.last() == b@[k as int]);
            if k == 0 {
                assert(b@.take(0) =~= Seq::<u8>::empty());
            }
        }
        if k > 0 {
            s.append(", ");
        }
        push_number(&mut s, b[k] as u64);
        proof {
            if k == 0 {
                assert(s@ =~= decimal_text(b@[0] as nat));
            }
        }
        k = k + 1;
    }
    assert(b@.take(k as int) =~= b@);
    s
}

/// `name(a, b, c)` with the numbers in decimal.
fn three(name: &str, a: u32, b: u32, c: u32) -> (r: String)
    ensures
        r@ == three_fields(name@, a, b, c),
{
    proof {
        reveal_strlit("(");
        reveal_strlit(", ");
        reveal_strlit(")");
    }
    let mut s = name.to_owned();
    s.append("(");
    push_number(&mut s, a as u64);
    s.append(", ");
    push_number(&mut s, b as u64);
    s.append(", ");
    push_number(&mut s, c as u64);
    s.append(")");
    s
}

impl<'a> MessageSummary<'a> {
    /// The message's description (see `summary_text`).
    pub fn to_text(&self) -> (r: String)
        ensures
            r@ == summary_text(self.0@),
    {
        proof {
            reveal_strlit("HANDSHAKE(...)");
            reveal_strlit("KeepAlive");
            reveal_strlit("Choke");
            reveal_strlit("Unchoke");
            reveal_strlit("Interested");
            reveal_strlit("NotInterested");
            reveal_strlit("Have(");
            reveal_strlit(")");
            reveal_strlit("BITFIELD(len: ");
            reveal_strlit("Request");
            reveal_strlit("PIECE(index: ");
            reveal_strlit(", begin: ");
            reveal_strlit(", len: ");
            reveal_strlit("Cancel");
            reveal_strlit("Port(");
            reveal_strlit("ExtendedHandshake(None)");
            reveal_strlit("ExtendedHandshake(Some(");
            reveal_strlit("))");
            reveal_strlit("Extended(");
            reveal_strlit(", [");
            reveal_strlit("])");
        }
        match self.0 {
            Message::Handshake(_, _) => "HANDSHAKE(...)".to_owned(),
            Message::KeepAlive => "KeepAlive".to_owned(),
            Message::Choke => "Choke".to_owned(),
            Message::Unchoke => "Unchoke".to_owned(),
            Message::Interested => "Interested".to_owned(),
            Message::NotInterested => "NotInterested".to_owned(),
            Message::Have(i) => {
                let mut s = "Have(".to_owned();
                push_number(&mut s, *i as u64);
                s.append(")");
                s
            },
            Message::Bitfield(b) => {
                let mut s = "BITFIELD(len: ".to_owned();
                push_number(&mut s, b.len() as u64);
                s.append(")");
                s
            },
            Message::Request(i, b, l) => three("Request", *i, *b, *l),
            Message::Piece(i, b, d) => {
                let mut s = "PIECE(index: ".to_owned();
                push_number(&mut s, *i as u64);
                s.append(", begin: ");
                push_number(&mut s, *b as u64);
                s.append(", len: ");
                push_number(&mut s, d.len() as u64);
                s.append(")");
                s
            },
            Message::Cancel(i, b, l) => three("Cancel", *i, *b, *l),
            Message::Port(p) => {
                let mut s = "Port(".to_owned();
                push_number(&mut s, *p as u64);
                s.append(")");
                s
            },
            Message::ExtendedHandshake(v) => match v {
                None => "ExtendedHandshake(None)".to_owned(),
                Some(x) => {
                    let mut s = "ExtendedHandshake(Some(".to_owned();
                    let t = signed_decimal(*x);
                    s.append(t.as_str());
                    s.append("))");
                    s
                },
            },
            Message::Extended(id, p) => {
                let mut s = "Extended(".to_owned();
                push_number(&mut s, *id as u64);
                s.append(", [");
                let items = byte_list(p);
                s.append(items.as_str());
                s.append("])");
                s
            },
        }
    }
}

} // verus!
