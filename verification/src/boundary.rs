//! Provenance boundaries: how text that a tool produced is wrapped in the tags
//! of a nonce, so that a reader can tell it from text of dispatch's own.

use vstd::prelude::*;
#[allow(unused_imports)]
use crate::nonce::{is_nonce, nonce_is_32_hex_chars};

verus! {

/// The opening tag of a nonce.
pub open spec fn open_tag(nonce: Seq<char>) -> Seq<char> {
    "<"@ + nonce + ">"@
}

/// The closing tag of a nonce.
pub open spec fn close_tag(nonce: Seq<char>) -> Seq<char> {
    "</"@ + nonce + ">"@
}

/// A text between the tags of a nonce.
pub open spec fn tagged(nonce: Seq<char>, text: Seq<char>) -> Seq<char> {
    open_tag(nonce) + text + close_tag(nonce)
}

/// A text behind the announcement of the nonce that it uses.
pub open spec fn stamped(nonce: Seq<char>, text: Seq<char>) -> Seq<char> {
    "[hash="@ + nonce + "] "@ + text
}

/// `text` between the tags of `nonce`.
pub fn tag(nonce: &str, text: &str) -> (r: String)
    ensures
        r@ == tagged(nonce@, text@),
{
    let mut s: String = "<".to_owned();
    s.append(nonce);
    s.append(">");
    s.append(text);
    s.append("</");
    s.append(nonce);
    s.append(">");
    proof {
        assert(s@ =~= tagged(nonce@, text@));
    }
    s
}

/// `text` behind the announcement of `nonce`.
pub fn stamp(nonce: &str, text: &str) -> (r: String)
    ensures
        r@ == stamped(nonce@, text@),
{
    let mut s: String = "[hash=".to_owned();
    s.append(nonce);
    s.append("] ");
    s.append(text);
    s
}

/// A live tail as REMIND and `status` show it.
pub open spec fn tail_form(nonce: Seq<char>, text: Seq<char>) -> Seq<char> {
    stamped(nonce, tagged(nonce, text))
}

/// A live tail, announced and tagged.
pub fn tail_message(nonce: &str, text: &str) -> (r: String)
    ensures
        r@ == tail_form(nonce@, text@),
{
    let inner: String = tag(nonce, text);
    stamp(nonce, inner.as_str())
}

/// Whether `part` stands in `s` at position `at`.
pub open spec fn occurs_at(s: Seq<char>, part: Seq<char>, at: int) -> bool {
    0 <= at && at + part.len() <= s.len() && s.subrange(at, at + part.len()) == part
}

/// Whether the text between the first opening tag of a nonce in a message and
/// its last closing tag is `text`: what a reader finds who looks for the
/// boundary, whatever the text itself holds.
pub open spec fn delimits(message: Seq<char>, nonce: Seq<char>, text: Seq<char>) -> bool {
    exists|start: int, end: int|
        {
            &&& #[trigger] occurs_at(message, open_tag(nonce), start)
            &&& forall|i: int| i < start ==> !occurs_at(message, open_tag(nonce), i)
            &&& #[trigger] occurs_at(message, close_tag(nonce), end)
            &&& forall|i: int| i > end ==> !occurs_at(message, close_tag(nonce), i)
            &&& start + open_tag(nonce).len() <= end
            &&& message.subrange(start + open_tag(nonce).len(), end) == text
        }
}

/// Whether a text is free of the character that opens a tag.
pub open spec fn no_tag(s: Seq<char>) -> bool {
    forall|i: int| 0 <= i < s.len() ==> s[i] != '<'
}

/// Behind a prefix that opens no tag, a tagged text is found again whole: an
/// occurrence of the tags inside it is neither the first nor the last.
pub proof fn tagged_text_is_found_again(prefix: Seq<char>, nonce: Seq<char>, text: Seq<char>)
    requires
        no_tag(prefix),
    ensures
        delimits(prefix + tagged(nonce, text), nonce, text),
{
    reveal_strlit("<");
    reveal_strlit("</");
    reveal_strlit(">");
    let message = prefix + tagged(nonce, text);
    let open = open_tag(nonce);
    let close = close_tag(nonce);
    let start = prefix.len() as int;
    let end = message.len() - close.len();
    assert(open[0] == '<');
    assert(message.subrange(start, start + open.len()) =~= open);
    assert(occurs_at(message, open, start));
    assert forall|i: int| i < start implies !occurs_at(message, open, i) by {
        if occurs_at(message, open, i) {
            assert(message.subrange(i, i + open.len())[0] == message[i]);
            assert(message[i] == prefix[i]);
        }
    }
    assert(message.subrange(end, end + close.len()) =~= close);
    assert(occurs_at(message, close, end));
    assert(message.subrange(start + open.len(), end) =~= text);
}

/// An announcement of a nonce, and what stands between it and the tag, opens no
/// tag.
pub proof fn announcement_opens_no_tag(before: Seq<char>, nonce: Seq<char>, status: Seq<char>)
    requires
        no_tag(before),
        is_nonce(nonce),
        no_tag(status),
    ensures
        no_tag(before + ("[hash="@ + nonce + "] "@ + status)),
{
    reveal_strlit("[hash=");
    reveal_strlit("] ");
    nonce_is_32_hex_chars(nonce);
}

/// A wrapped text is the opening tag, the text as it stands and the closing tag;
/// an announced one is the nonce in its bracket and the text as it stands; a live
/// tail is both.
pub proof fn wrapping_keeps_the_text(nonce: Seq<char>, text: Seq<char>)
    ensures
        tagged(nonce, text) == "<"@ + nonce + ">"@ + text + "</"@ + nonce + ">"@,
        stamped(nonce, text) == "[hash="@ + nonce + "] "@ + text,
        tail_form(nonce, text) == "[hash="@ + nonce + "] "@ + "<"@ + nonce + ">"@ + text + "</"@
            + nonce + ">"@,
        open_tag(nonce) == "<"@ + nonce + ">"@,
        close_tag(nonce) == "</"@ + nonce + ">"@,
{
    assert(tagged(nonce, text) =~= "<"@ + nonce + ">"@ + text + "</"@ + nonce + ">"@);
    assert(tail_form(nonce, text) =~= "[hash="@ + nonce + "] "@ + "<"@ + nonce + ">"@ + text
        + "</"@ + nonce + ">"@);
}

} // verus!
