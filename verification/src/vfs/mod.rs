//! The volumes of an archive seen as one file: which part of which volume
//! holds which bytes.
use crate::text::chars_of;
use crate::text::ends_with_str;
use crate::text::has_suffix;
use crate::text::string_of;
use crate::text::unsigned_of;
use vstd::prelude::*;

pub mod cache;
pub mod group;
pub mod node;

verus! {

/// The part number given to a name that names no volume.
pub const UNKNOWN_PART: u32 = 999;

/// Bytes of a block in the attributes of a file.
pub const BLOCK_SIZE: u64 = 512;

/// The volumes behind one file: its name, the files that hold its parts
/// in order, the sum of their sizes, and their sizes.
#[derive(Debug, Clone, PartialEq, Eq)]
pub struct FileMapping {
    pub real_name: String,
    pub obfuscated_files: Vec<String>,
    pub total_size: u64,
    pub part_sizes: Vec<u64>,
}

/// The files that are shown, each with its volumes and its inode.
#[derive(Debug, Clone, PartialEq, Eq)]
pub struct MultiPartRarVfs {
    pub base_dir: String,
    pub file_mappings: Vec<FileMapping>,
    pub inodes: Vec<(u64, String)>,
    pub next_inode: u64,
}

/// The first inode given to a file; the root has inode 1.
pub const FIRST_INODE: u64 = 2;

impl MultiPartRarVfs {
    /// Shows the given files below `base_dir`; they get the inodes from 2
    /// on, in their order.
    pub fn new(base_dir: String, file_mappings: Vec<FileMapping>) -> (v: MultiPartRarVfs)
        requires
            file_mappings@.len() < u64::MAX - FIRST_INODE,
        ensures
            v.base_dir == base_dir,
            v.file_mappings == file_mappings,
            v.inodes@.len() == file_mappings@.len(),
            v.next_inode == FIRST_INODE + file_mappings@.len(),
            forall|i: int|
                0 <= i < v.inodes@.len() ==> (#[trigger] v.inodes@[i]).0 == FIRST_INODE + i
                    && v.inodes@[i].1@ == file_mappings@[i].real_name@,
    {
        let mut inodes: Vec<(u64, String)> = Vec::new();
        let mut i: usize = 0;
        while i < file_mappings.len()
            invariant
                i <= file_mappings@.len(),
                file_mappings@.len() < u64::MAX - FIRST_INODE,
                inodes@.len() == i,
                forall|k: int|
                    0 <= k < i ==> (#[trigger] inodes@[k]).0 == FIRST_INODE + k && inodes@[k].1@
                        == file_mappings@[k].real_name@,
            decreases file_mappings@.len() - i,
        {
            inodes.push((FIRST_INODE + i as u64, file_mappings[i].real_name.clone()));
            i += 1;
        }
        let next_inode: u64 = FIRST_INODE + file_mappings.len() as u64;
        MultiPartRarVfs { base_dir, file_mappings, inodes, next_inode }
    }
}

/// The number of blocks of 512 bytes that hold `size` bytes.
pub fn blocks_of(size: u64) -> (n: u64)
    ensures
        n == (size + 511) / 512,
{
    size / BLOCK_SIZE + if size % BLOCK_SIZE == 0 {
        0
    } else {
        1
    }
}

/// Index of the last place before `end` at which `.r` begins in `name`.
pub open spec fn last_dot_r(name: Seq<char>, end: int) -> Option<int>
    decreases end,
{
    if end < 2 || end > name.len() {
        None
    } else if name[end - 2] == '.' && name[end - 1] == 'r' {
        Some(end - 2)
    } else {
        last_dot_r(name, end - 1)
    }
}

/// The number by which a volume is sorted: 0 for `.rar`, the number
/// behind the last `.r` for a numbered part, 999 for any other name.
pub open spec fn part_number_of(filename: Seq<char>) -> u32 {
    if has_suffix(filename, ".rar"@) {
        0
    } else {
        match last_dot_r(filename, filename.len() as int) {
            Some(pos) => match unsigned_of(
                filename.subrange(pos + 2, filename.len() as int),
                u32::MAX as nat,
            ) {
                Some(n) => n as u32,
                None => UNKNOWN_PART,
            },
            None => UNKNOWN_PART,
        }
    }
}

/// Works out the number by which a volume is sorted.
pub fn get_rar_part_number(filename: &str) -> (n: u32)
    ensures
        n == part_number_of(filename@),
{
    let chars = chars_of(filename);
    let s = chars.as_slice();
    if ends_with_str(s, ".rar") {
        return 0;
    }
    let len: usize = s.len();
    let mut end: usize = len;
    while end >= 2
        invariant
            end <= len,
            len == s@.len(),
            s@ == filename@,
            !has_suffix(s@, ".rar"@),
            last_dot_r(s@, len as int) == last_dot_r(s@, end as int),
        decreases end,
    {
        if s[end - 2] == '.' && s[end - 1] == 'r' {
            let digits = vstd::slice::slice_subrange(s, end, len);
            return match crate::text::parse_decimal(digits, 0xFFFF_FFFF) {
                Some(v) => v as u32,
                None => UNKNOWN_PART,
            };
        }
        end -= 1;
    }
    UNKNOWN_PART
}

/// A read from one part: which part, where in it, how many bytes.
#[derive(Debug, Clone, Copy, PartialEq, Eq, Structural)]
pub struct PartRead {
    pub part: usize,
    pub start: u64,
    pub length: u64,
}

/// The reads that give `size` bytes from `offset` on of the parts from
/// `from` on, where `offset` counts from the start of part `from`.
///
/// A part that ends at or before `offset` is passed over. Every other
/// part is read from `offset` to its end, or as far as bytes are still
/// asked for; the parts behind it are read from their start.
pub open spec fn part_reads(part_sizes: Seq<u64>, from: int, offset: int, size: int) -> Seq<
    PartRead,
>
    decreases part_sizes.len() - from,
{
    if from < 0 || from >= part_sizes.len() || size <= 0 {
        Seq::empty()
    } else if offset >= part_sizes[from] {
        part_reads(part_sizes, from + 1, offset - part_sizes[from], size)
    } else {
        let room = part_sizes[from] - offset;
        let length = if size < room {
            size
        } else {
            room
        };
        seq![PartRead { part: from as usize, start: offset as u64, length: length as u64 }]
            + part_reads(part_sizes, from + 1, 0, size - length)
    }
}

/// Plans the reads that give `size` bytes of the file from `offset` on.
pub fn read_multipart(part_sizes: &[u64], offset: u64, size: usize) -> (reads: Vec<PartRead>)
    ensures
        reads@ == part_reads(part_sizes@, 0, offset as int, size as int),
{
    let mut reads: Vec<PartRead> = Vec::new();
    let mut within: u64 = offset;
    let mut remaining: u64 = size as u64;
    let mut i: usize = 0;
    assert(reads@ + part_reads(part_sizes@, 0, offset as int, size as int) =~= part_reads(
        part_sizes@,
        0,
        offset as int,
        size as int,
    ));
    while i < part_sizes.len() && remaining > 0
        invariant
            i <= part_sizes@.len(),
            part_reads(part_sizes@, 0, offset as int, size as int) == reads@ + part_reads(
                part_sizes@,
                i as int,
                within as int,
                remaining as int,
            ),
        decreases part_sizes@.len() - i,
    {
        let part: u64 = part_sizes[i];
        if within >= part {
            within = within - part;
        } else {
            let room: u64 = part - within;
            let length: u64 = if remaining < room {
                remaining
            } else {
                room
            };
            let ghost before = reads@;
            let read = PartRead { part: i, start: within, length };
            reads.push(read);
            assert(before + (seq![read] + part_reads(
                part_sizes@,
                i + 1,
                0,
                remaining - length,
            )) =~= reads@ + part_reads(part_sizes@, i + 1, 0, remaining - length));
            within = 0;
            remaining = remaining - length;
        }
        i += 1;
    }
    assert(reads@ + Seq::<PartRead>::empty() =~= reads@);
    reads
}

/// `name` without the copies of `.rar` that it ends with.
pub open spec fn without_rar(name: Seq<char>) -> Seq<char>
    decreases name.len(),
{
    if has_suffix(name, ".rar"@) && name.len() >= 4 {
        without_rar(name.subrange(0, name.len() - 4))
    } else {
        name
    }
}

/// The name under which the volumes of an archive are put together: the
/// name of a volume without its `.rar`, or without what stands from its
/// last `.r` on. Nothing for a name that names no volume.
pub open spec fn group_name_of(real_name: Seq<char>) -> Option<Seq<char>> {
    if has_suffix(real_name, ".rar"@) {
        Some(without_rar(real_name))
    } else {
        match last_dot_r(real_name, real_name.len() as int) {
            Some(pos) => Some(real_name.subrange(0, pos)),
            None => None,
        }
    }
}

/// Works out the name under which the volumes of an archive are put
/// together.
pub fn group_name(real_name: &str) -> (r: Option<String>)
    ensures
        match group_name_of(real_name@) {
            Some(name) => r matches Some(n) && n@ == name,
            None => r is None,
        },
{
    let chars = chars_of(real_name);
    let s = chars.as_slice();
    let len: usize = s.len();
    proof {
        reveal_strlit(".rar");
    }
    if ends_with_str(s, ".rar") {
        let mut end: usize = len;
        assert(s@.subrange(0, len as int) =~= s@);
        loop
            invariant
                end <= len,
                len == s@.len(),
                s@ == real_name@,
                has_suffix(s@, ".rar"@),
                ".rar"@.len() == 4,
                without_rar(s@) == without_rar(s@.subrange(0, end as int)),
            decreases end,
        {
            let head = vstd::slice::slice_subrange(s, 0, end);
            if end < 4 || !ends_with_str(head, ".rar") {
                return Some(string_of(head));
            }
            assert(head@.subrange(0, head@.len() - 4) =~= s@.subrange(0, end - 4));
            end -= 4;
        }
    }
    let mut end: usize = len;
    while end >= 2
        invariant
            end <= len,
            len == s@.len(),
            s@ == real_name@,
            !has_suffix(s@, ".rar"@),
            last_dot_r(s@, len as int) == last_dot_r(s@, end as int),
        decreases end,
    {
        if s[end - 2] == '.' && s[end - 1] == 'r' {
            return Some(string_of(vstd::slice::slice_subrange(s, 0, end - 2)));
        }
        end -= 1;
    }
    None
}

} // verus!
