//! The retriever that fetches from a news server.
use crate::nntp::config::NntpConfig;
use crate::text::chars_of;
use crate::text::find_char;
use crate::text::find_char_from;
use crate::text::first_index;
use crate::text::first_index_from;
use crate::text::string_of;
use vstd::prelude::*;
use vstd::slice::slice_subrange;

verus! {

/// Attempts made to fetch one segment.
pub const MAX_RETRIES: u32 = 3;

/// Seconds between two attempts.
pub const RETRY_DELAY_SECS: u64 = 1;

/// The retriever that fetches from a news server.
#[derive(Debug, Clone, PartialEq, Eq)]
pub struct LiveNntpClient {
    pub config: NntpConfig,
}

impl LiveNntpClient {
    pub fn new(config: NntpConfig) -> (c: LiveNntpClient)
        ensures
            c.config == config,
    {
        LiveNntpClient { config }
    }
}

/// The text of `s` up to the first `c` at or after `from`, or up to the
/// end.
pub open spec fn up_to(s: Seq<char>, c: char, from: int) -> Seq<char> {
    match first_index_from(s, c, from) {
        Some(end) => s.subrange(from, end),
        None => s.subrange(from, s.len() as int),
    }
}

/// The file name in a subject line: what follows the first double quote,
/// up to the next one; without any quote, what stands before the first
/// blank.
pub open spec fn quoted_or_first(subject: Seq<char>) -> Seq<char> {
    match first_index(subject, '"') {
        Some(quote) => up_to(subject, '"', quote + 1),
        None => up_to(subject, ' ', 0),
    }
}

/// Reads the file name from a subject line.
pub fn extract_filename(subject: &str) -> (name: String)
    ensures
        name@ == quoted_or_first(subject@),
{
    let s = chars_of(subject);
    let n: usize = s.len();
    match find_char(s.as_slice(), '"') {
        Some(quote) => {
            proof {
                crate::text::lemma_first_index_from(s@, '"', 0);
                crate::text::lemma_first_index_from(s@, '"', quote + 1);
            }
            let end: usize = match find_char_from(s.as_slice(), '"', quote + 1) {
                Some(e) => e,
                None => n,
            };
            string_of(slice_subrange(s.as_slice(), quote + 1, end))
        },
        None => {
            proof {
                crate::text::lemma_first_index_from(s@, ' ', 0);
            }
            let end: usize = match find_char(s.as_slice(), ' ') {
                Some(e) => e,
                None => n,
            };
            string_of(slice_subrange(s.as_slice(), 0, end))
        },
    }
}

/// The bytes of a file: those of its segments, one behind the other.
pub open spec fn joined_bytes(parts: Seq<Vec<u8>>) -> Seq<u8>
    decreases parts.len(),
{
    if parts.len() == 0 {
        Seq::empty()
    } else {
        joined_bytes(parts.drop_last()) + parts.last()@
    }
}

/// Puts the decoded segments of a file together, in their order.
pub fn assemble_file(parts: &[Vec<u8>]) -> (data: Vec<u8>)
    ensures
        data@ == joined_bytes(parts@),
{
    let mut data: Vec<u8> = Vec::new();
    let mut i: usize = 0;
    assert(parts@.subrange(0, 0) =~= Seq::<Vec<u8>>::empty());
    while i < parts.len()
        invariant
            i <= parts@.len(),
            data@ == joined_bytes(parts@.subrange(0, i as int)),
        decreases parts@.len() - i,
    {
        let ghost next = parts@.subrange(0, i + 1);
        assert(next.drop_last() =~= parts@.subrange(0, i as int));
        data.extend_from_slice(parts[i].as_slice());
        i += 1;
    }
    assert(parts@.subrange(0, i as int) =~= parts@);
    data
}

} // verus!
