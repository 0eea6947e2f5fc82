//! How saved sessions are shown: a one-line preview of a session's first
//! message in the session list, and the possibly shortened text of each
//! message in a transcript.
//!
//! Lengths are counted in bytes of the UTF-8 text, and a text is cut after
//! a whole number of bytes: the cut must fall on a character boundary.
use vstd::prelude::*;
use vstd::string::StringSliceAdditionalSpecFns;
use vstd::utf8::{decode_utf8, is_char_boundary};
use crate::text::concat_str;

verus! {

/// Bytes of a session preview before it is cut.
pub const PREVIEW_BYTES: usize = 80;

/// Bytes of a transcript message before it is cut.
pub const TRANSCRIPT_BYTES: usize = 2000;

/// `text` cut after its first `limit` bytes with `marker` appended, when it
/// is longer than `limit` bytes; else `text` itself.
pub open spec fn cut_text(text: &str, limit: int, marker: Seq<char>) -> Seq<char> {
    if text.spec_bytes().len() > limit {
        decode_utf8(text.spec_bytes().subrange(0, limit)) + marker
    } else {
        text@
    }
}

/// `text` cut after `limit` bytes and followed by `marker` when longer.
fn cut_after(text: &str, limit: usize, marker: &str) -> (r: String)
    requires
        text.spec_bytes().len() <= usize::MAX,
        text.spec_bytes().len() <= limit || is_char_boundary(text.spec_bytes(), limit as int),
    ensures
        r@ == cut_text(text, limit as int, marker@),
{
    broadcast use vstd::utf8::group_utf8_lib;

    if text.len() > limit {
        let (head, _rest) = text.split_at(limit);
        proof {
            assert(head.spec_bytes() =~= text.spec_bytes().subrange(0, limit as int));
            assert(head.spec_bytes() == vstd::utf8::encode_utf8(head@));
            assert(decode_utf8(head.spec_bytes()) == head@);
        }
        concat_str(head, marker)
    } else {
        text.to_owned()
    }
}

/// The preview of a session in the session list: the first message's
/// first 80 bytes followed by `...` when it is longer, else the whole
/// message.
pub fn session_preview(text: &str) -> (r: String)
    requires
        text.spec_bytes().len() <= usize::MAX,
        text.spec_bytes().len() <= 80 || is_char_boundary(text.spec_bytes(), 80),
    ensures
        r@ == cut_text(text, 80, "..."@),
{
    cut_after(text, PREVIEW_BYTES, "...")
}

/// A message as a transcript shows it: its first 2000 bytes followed by
/// `... [truncated]` when it is longer, else the whole message.
pub fn transcript_excerpt(text: &str) -> (r: String)
    requires
        text.spec_bytes().len() <= usize::MAX,
        text.spec_bytes().len() <= 2000 || is_char_boundary(text.spec_bytes(), 2000),
    ensures
        r@ == cut_text(text, 2000, "... [truncated]"@),
{
    cut_after(text, TRANSCRIPT_BYTES, "... [truncated]")
}

} // verus!
