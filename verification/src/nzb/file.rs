//! Files as a posting manifest lists them.
use vstd::prelude::*;

verus! {

/// One article of a posted file.
#[derive(Debug, Clone, PartialEq, Eq)]
pub struct Segment {
    /// Size of the article in bytes, as the manifest gives it.
    pub size: u32,
    /// Position of the article in its file, counted from 1.
    pub number: u32,
    /// Message id under which the article is retrieved.
    pub message_id: String,
}

/// One file as the manifest lists it.
#[derive(Debug, Clone, PartialEq, Eq)]
pub struct PostedFile {
    /// Subject line of the posting; holds the file name, possibly obfuscated.
    pub subject: String,
    /// The file's articles, in the order of the manifest.
    pub segments: Vec<Segment>,
}

/// What a segment holds.
pub ghost struct SegmentView {
    pub size: u32,
    pub number: u32,
    pub message_id: Seq<char>,
}

/// What a posted file holds.
pub ghost struct PostedFileView {
    pub subject: Seq<char>,
    pub segments: Seq<SegmentView>,
}

impl View for Segment {
    type V = SegmentView;

    open spec fn view(&self) -> SegmentView {
        SegmentView { size: self.size, number: self.number, message_id: self.message_id@ }
    }
}

impl View for PostedFile {
    type V = PostedFileView;

    open spec fn view(&self) -> PostedFileView {
        PostedFileView {
            subject: self.subject@,
            segments: self.segments@.map_values(|s: Segment| s@),
        }
    }
}

impl Segment {
    pub fn new(size: u32, number: u32, message_id: String) -> (s: Segment)
        ensures
            s.size == size,
            s.number == number,
            s.message_id == message_id,
    {
        Segment { size, number, message_id }
    }

    /// A copy of this segment.
    pub fn duplicate(&self) -> (s: Segment)
        ensures
            s@ == self@,
    {
        Segment { size: self.size, number: self.number, message_id: self.message_id.clone() }
    }
}

impl PostedFile {
    pub fn new(subject: String, segments: Vec<Segment>) -> (f: PostedFile)
        ensures
            f.subject == subject,
            f.segments == segments,
    {
        PostedFile { subject, segments }
    }

    /// Sum of the sizes of the file's segments.
    pub open spec fn spec_size(&self) -> nat {
        sizes_sum(self.segments@)
    }

    /// Size of the file: the sum of the sizes of its segments, or nothing
    /// where that sum does not fit in 64 bits.
    pub fn size(&self) -> (r: Option<u64>)
        ensures
            r == if self.spec_size() <= u64::MAX {
                Some(self.spec_size() as u64)
            } else {
                None
            },
    {
        let mut total: u64 = 0;
        let mut i: usize = 0;
        while i < self.segments.len()
            invariant
                i <= self.segments@.len(),
                total as nat == sizes_sum(self.segments@.subrange(0, i as int)),
            decreases self.segments@.len() - i,
        {
            let ghost next = self.segments@.subrange(0, i + 1);
            assert(next.drop_last() =~= self.segments@.subrange(0, i as int));
            proof {
                lemma_sizes_sum_monotone(self.segments@, i + 1);
            }
            match total.checked_add(self.segments[i].size as u64) {
                Some(t) => {
                    total = t;
                },
                None => {
                    return None;
                },
            }
            i += 1;
        }
        assert(self.segments@.subrange(0, i as int) =~= self.segments@);
        Some(total)
    }

    /// A copy of this file.
    pub fn duplicate(&self) -> (f: PostedFile)
        ensures
            f@ == self@,
    {
        let mut segments: Vec<Segment> = Vec::new();
        let mut i: usize = 0;
        while i < self.segments.len()
            invariant
                i <= self.segments@.len(),
                segments@.len() == i,
                forall|k: int| 0 <= k < i ==> segments@[k]@ == self.segments@[k]@,
            decreases self.segments@.len() - i,
        {
            segments.push(self.segments[i].duplicate());
            i += 1;
        }
        let f = PostedFile { subject: self.subject.clone(), segments };
        assert(f@.segments =~= self@.segments);
        f
    }
}

/// Sum of the sizes of `segments`.
pub open spec fn sizes_sum(segments: Seq<Segment>) -> nat
    decreases segments.len(),
{
    if segments.len() == 0 {
        0
    } else {
        sizes_sum(segments.drop_last()) + segments.last().size as nat
    }
}

pub proof fn lemma_sizes_sum_monotone(segments: Seq<Segment>, n: int)
    requires
        0 <= n <= segments.len(),
    ensures
        sizes_sum(segments.subrange(0, n)) <= sizes_sum(segments),
    decreases segments.len() - n,
{
    if n < segments.len() {
        assert(segments.subrange(0, n + 1).drop_last() =~= segments.subrange(0, n));
        lemma_sizes_sum_monotone(segments, n + 1);
    } else {
        assert(segments.subrange(0, n) =~= segments);
    }
}

} // verus!
