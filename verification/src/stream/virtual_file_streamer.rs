//! Reading a range of the stream from the files that hold it.
use vstd::prelude::*;

verus! {

/// The largest piece read from a file at once.
pub const VIDEO_CHUNK_SIZE: usize = 8388608;

/// One file of the stream: its path, its length, and where it starts in
/// the stream.
#[derive(Debug, Clone, PartialEq, Eq)]
pub struct FileLayout {
    pub path: String,
    pub length: u64,
    pub virtual_start: u64,
}

/// A read from one file: which file, where in it, how many bytes.
#[derive(Debug, Clone, Copy, PartialEq, Eq, Structural)]
pub struct LayoutRead {
    pub file: usize,
    pub offset: u64,
    pub length: u64,
}

/// The reads that give the bytes `[pos, end)` of the stream from the
/// files of `layout` from `from` on.
///
/// A file that ends at or before `pos` is passed over. A file that starts
/// behind `pos` ends the reads: the bytes between are not there yet.
/// Every other file is read from `pos` to its end or to `end`.
pub open spec fn reads_from(layout: Seq<FileLayout>, from: int, pos: int, end: int) -> Seq<
    LayoutRead,
>
    decreases layout.len() - from,
{
    if from < 0 || from >= layout.len() || pos >= end {
        Seq::empty()
    } else {
        let f = layout[from];
        let file_end = f.virtual_start + f.length;
        if file_end <= pos {
            reads_from(layout, from + 1, pos, end)
        } else if f.virtual_start > pos {
            Seq::empty()
        } else {
            let stop = if end < file_end {
                end
            } else {
                file_end
            };
            seq![
                LayoutRead {
                    file: from as usize,
                    offset: (pos - f.virtual_start) as u64,
                    length: (stop - pos) as u64,
                },
            ] + reads_from(layout, from + 1, stop, end)
        }
    }
}

/// Plans the reads that give `length` bytes of the stream from `start`
/// on.
pub fn read_range(start: u64, length: u64, layout: &[FileLayout]) -> (reads: Vec<LayoutRead>)
    ensures
        reads@ == reads_from(layout@, 0, start as int, start + length),
{
    let end: u128 = start as u128 + length as u128;
    let mut reads: Vec<LayoutRead> = Vec::new();
    let mut pos: u128 = start as u128;
    let mut i: usize = 0;
    assert(reads@ + reads_from(layout@, 0, start as int, end as int) =~= reads_from(
        layout@,
        0,
        start as int,
        end as int,
    ));
    while i < layout.len() && pos < end
        invariant
            i <= layout@.len(),
            end == start + length,
            pos <= end,
            reads_from(layout@, 0, start as int, end as int) == reads@ + reads_from(
                layout@,
                i as int,
                pos as int,
                end as int,
            ),
        decreases layout@.len() - i,
    {
        let f = &layout[i];
        let file_end: u128 = f.virtual_start as u128 + f.length as u128;
        if file_end <= pos {
            i += 1;
            continue;
        }
        if f.virtual_start as u128 > pos {
            assert(reads@ + Seq::<LayoutRead>::empty() =~= reads@);
            return reads;
        }
        let stop: u128 = if end < file_end {
            end
        } else {
            file_end
        };
        let ghost before = reads@;
        let read = LayoutRead {
            file: i,
            offset: (pos - f.virtual_start as u128) as u64,
            length: (stop - pos) as u64,
        };
        reads.push(read);
        assert(before + (seq![read] + reads_from(layout@, i + 1, stop as int, end as int))
            =~= reads@ + reads_from(layout@, i + 1, stop as int, end as int));
        pos = stop;
        i += 1;
    }
    assert(reads@ + Seq::<LayoutRead>::empty() =~= reads@);
    reads
}

/// The pieces of at most `chunk_size` bytes that a read of `length` bytes
/// is made in: their lengths, in order.
pub open spec fn pieces(length: int, chunk_size: int) -> Seq<int>
    decreases length,
{
    if length <= 0 || chunk_size <= 0 {
        Seq::empty()
    } else if length <= chunk_size {
        seq![length]
    } else {
        seq![chunk_size] + pieces(length - chunk_size, chunk_size)
    }
}

/// The length of the next piece of a read of which `remaining` bytes are
/// left.
pub fn next_piece(remaining: u64, chunk_size: usize) -> (n: usize)
    ensures
        n as int == if remaining <= 0 || chunk_size <= 0 {
            0
        } else {
            pieces(remaining as int, chunk_size as int)[0]
        },
        n <= remaining,
        n <= chunk_size,
{
    if remaining == 0 || chunk_size == 0 {
        0
    } else if remaining <= chunk_size as u64 {
        remaining as usize
    } else {
        chunk_size
    }
}

} // verus!
