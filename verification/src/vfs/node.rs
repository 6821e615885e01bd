//! The shown files as the nodes of one directory: what is answered when a
//! node is looked up, described, listed or read.
use crate::archive::par2::is_stable_order;
use crate::archive::par2::stable_order;
use crate::text::str_eq;
use crate::vfs::FileMapping;
use crate::vfs::MultiPartRarVfs;
use crate::vfs::PartRead;
use crate::vfs::blocks_of;
use crate::vfs::part_reads;
use crate::vfs::read_multipart;
use vstd::prelude::*;

verus! {

/// The inode of the directory that holds the shown files.
pub const ROOT_INODE: u64 = 1;

/// What is told of a node, but for its times and its owner.
#[derive(Debug, Clone, Copy, PartialEq, Eq, Structural)]
pub struct NodeAttr {
    pub ino: u64,
    pub size: u64,
    pub blocks: u64,
    pub directory: bool,
    pub perm: u16,
    pub nlink: u32,
    pub blksize: u32,
}

/// One line of the listing of the directory: the node, the place from
/// which the listing goes on behind it, its kind and its name.
#[derive(Debug, Clone, PartialEq, Eq)]
pub struct DirEntry {
    pub ino: u64,
    pub offset: i64,
    pub directory: bool,
    pub name: String,
}

/// What a line of the listing holds.
pub ghost struct DirEntryView {
    pub ino: u64,
    pub offset: i64,
    pub directory: bool,
    pub name: Seq<char>,
}

impl View for DirEntry {
    type V = DirEntryView;

    open spec fn view(&self) -> DirEntryView {
        DirEntryView {
            ino: self.ino,
            offset: self.offset,
            directory: self.directory,
            name: self.name@,
        }
    }
}

/// What is told of a shown file: a regular file that can only be read,
/// in blocks of 512 bytes.
pub open spec fn file_attr(inode: u64, size: u64) -> NodeAttr {
    NodeAttr {
        ino: inode,
        size,
        blocks: ((size + 511) / 512) as u64,
        directory: false,
        perm: 0o444,
        nlink: 1,
        blksize: 512,
    }
}

/// What is told of the directory.
pub open spec fn root_attr() -> NodeAttr {
    NodeAttr {
        ino: ROOT_INODE,
        size: 0,
        blocks: 0,
        directory: true,
        perm: 0o755,
        nlink: 2,
        blksize: 512,
    }
}

/// Index of the first mapping at or after `from` whose file is named
/// `name`.
pub open spec fn mapping_named(mappings: Seq<FileMapping>, name: Seq<char>, from: int) -> Option<
    int,
>
    decreases mappings.len() - from,
{
    if from < 0 || from >= mappings.len() {
        None
    } else if mappings[from].real_name@ == name {
        Some(from)
    } else {
        mapping_named(mappings, name, from + 1)
    }
}

/// Index of the first inode at or after `from` that stands for a file
/// named `name` which has a mapping.
pub open spec fn inode_named(
    inodes: Seq<(u64, String)>,
    mappings: Seq<FileMapping>,
    name: Seq<char>,
    from: int,
) -> Option<int>
    decreases inodes.len() - from,
{
    if from < 0 || from >= inodes.len() {
        None
    } else if inodes[from].1@ == name && mapping_named(mappings, name, 0) is Some {
        Some(from)
    } else {
        inode_named(inodes, mappings, name, from + 1)
    }
}

/// Index of the first inode at or after `from` whose number is `ino`.
pub open spec fn inode_numbered(inodes: Seq<(u64, String)>, ino: u64, from: int) -> Option<int>
    decreases inodes.len() - from,
{
    if from < 0 || from >= inodes.len() {
        None
    } else if inodes[from].0 == ino {
        Some(from)
    } else {
        inode_numbered(inodes, ino, from + 1)
    }
}

/// The mapping of the file that the inode `ino` stands for.
pub open spec fn mapping_of_inode(
    inodes: Seq<(u64, String)>,
    mappings: Seq<FileMapping>,
    ino: u64,
) -> Option<int> {
    match inode_numbered(inodes, ino, 0) {
        Some(i) => mapping_named(mappings, inodes[i].1@, 0),
        None => None,
    }
}

/// What a lookup of `name` in the directory `parent` gives: what is told
/// of the file of that name, or nothing where the directory is not the
/// root or holds no such file.
pub open spec fn looked_up(
    inodes: Seq<(u64, String)>,
    mappings: Seq<FileMapping>,
    parent: u64,
    name: Seq<char>,
) -> Option<NodeAttr> {
    if parent != ROOT_INODE {
        None
    } else {
        match (inode_named(inodes, mappings, name, 0), mapping_named(mappings, name, 0)) {
            (Some(i), Some(m)) => Some(file_attr(inodes[i].0, mappings[m].total_size)),
            _ => None,
        }
    }
}

/// The lines `.` and `..` of the listing from place `offset` on.
pub open spec fn dot_entries(offset: usize) -> Seq<DirEntryView> {
    let this = DirEntryView { ino: ROOT_INODE, offset: 1, directory: true, name: "."@ };
    let above = DirEntryView { ino: ROOT_INODE, offset: 2, directory: true, name: ".."@ };
    if offset == 0 {
        seq![this, above]
    } else if offset == 1 {
        seq![above]
    } else {
        Seq::empty()
    }
}

/// The numbers of the inodes, in their order.
pub open spec fn inode_keys(inodes: Seq<(u64, String)>) -> Seq<u64> {
    Seq::new(inodes.len(), |i: int| inodes[i].0)
}

/// The line of the file that is listed as the `place`-th of the files.
pub open spec fn file_entry(inodes: Seq<(u64, String)>, order: Seq<usize>, place: int) -> DirEntryView {
    DirEntryView {
        ino: inodes[order[place] as int].0,
        offset: (place + 3) as i64,
        directory: false,
        name: inodes[order[place] as int].1@,
    }
}

/// The lines of the files from the `from`-th on, when the files are
/// listed in the order `order`.
pub open spec fn file_entries(inodes: Seq<(u64, String)>, order: Seq<usize>, from: int) -> Seq<
    DirEntryView,
> {
    if 0 <= from <= order.len() {
        Seq::new((order.len() - from) as nat, |k: int| file_entry(inodes, order, from + k))
    } else {
        Seq::empty()
    }
}

/// The views of lines.
pub open spec fn entries_view(entries: Seq<DirEntry>) -> Seq<DirEntryView> {
    entries.map_values(|e: DirEntry| e@)
}

impl MultiPartRarVfs {
    /// What is told of a shown file of the given size.
    pub fn get_file_attr(&self, inode: u64, size: u64) -> (a: NodeAttr)
        ensures
            a == file_attr(inode, size),
    {
        NodeAttr {
            ino: inode,
            size,
            blocks: blocks_of(size),
            directory: false,
            perm: 0o444,
            nlink: 1,
            blksize: 512,
        }
    }

    /// Index of the mapping of the file named `name`.
    pub fn mapping_of(&self, name: &str) -> (r: Option<usize>)
        ensures
            match r {
                Some(i) => mapping_named(self.file_mappings@, name@, 0) == Some(i as int) && i
                    < self.file_mappings@.len(),
                None => mapping_named(self.file_mappings@, name@, 0) is None,
            },
    {
        let mut i: usize = 0;
        while i < self.file_mappings.len()
            invariant
                i <= self.file_mappings@.len(),
                mapping_named(self.file_mappings@, name@, 0) == mapping_named(
                    self.file_mappings@,
                    name@,
                    i as int,
                ),
            decreases self.file_mappings@.len() - i,
        {
            if str_eq(self.file_mappings[i].real_name.as_str(), name) {
                return Some(i);
            }
            i += 1;
        }
        None
    }

    /// Looks a name up in the directory `parent`.
    pub fn lookup(&self, parent: u64, name: &str) -> (r: Option<NodeAttr>)
        ensures
            r == looked_up(self.inodes@, self.file_mappings@, parent, name@),
    {
        if parent != ROOT_INODE {
            return None;
        }
        let at: usize = match self.mapping_of(name) {
            Some(at) => at,
            None => {
                assert forall|from: int| 0 <= from <= self.inodes@.len() implies inode_named(
                    self.inodes@,
                    self.file_mappings@,
                    name@,
                    from,
                ) is None by {
                    lemma_no_mapping_no_inode(self.inodes@, self.file_mappings@, name@, from);
                }
                return None;
            },
        };
        let mut i: usize = 0;
        while i < self.inodes.len()
            invariant
                i <= self.inodes@.len(),
                parent == ROOT_INODE,
                at < self.file_mappings@.len(),
                mapping_named(self.file_mappings@, name@, 0) == Some(at as int),
                inode_named(self.inodes@, self.file_mappings@, name@, 0) == inode_named(
                    self.inodes@,
                    self.file_mappings@,
                    name@,
                    i as int,
                ),
            decreases self.inodes@.len() - i,
        {
            if str_eq(self.inodes[i].1.as_str(), name) {
                assert(inode_named(self.inodes@, self.file_mappings@, name@, i as int) == Some(
                    i as int,
                ));
                return Some(
                    self.get_file_attr(self.inodes[i].0, self.file_mappings[at].total_size),
                );
            }
            i += 1;
        }
        None
    }

    /// Index of the mapping of the file that the inode `ino` stands for.
    pub fn mapping_of_inode(&self, ino: u64) -> (r: Option<usize>)
        ensures
            match r {
                Some(m) => mapping_of_inode(self.inodes@, self.file_mappings@, ino) == Some(
                    m as int,
                ) && m < self.file_mappings@.len(),
                None => mapping_of_inode(self.inodes@, self.file_mappings@, ino) is None,
            },
    {
        let mut i: usize = 0;
        while i < self.inodes.len()
            invariant
                i <= self.inodes@.len(),
                inode_numbered(self.inodes@, ino, 0) == inode_numbered(self.inodes@, ino, i as int),
            decreases self.inodes@.len() - i,
        {
            if self.inodes[i].0 == ino {
                return self.mapping_of(self.inodes[i].1.as_str());
            }
            i += 1;
        }
        None
    }

    /// What is told of the node `ino`: of the directory, of a shown
    /// file, or nothing where there is no such node.
    pub fn getattr(&self, ino: u64) -> (r: Option<NodeAttr>)
        ensures
            r == if ino == ROOT_INODE {
                Some(root_attr())
            } else {
                match mapping_of_inode(self.inodes@, self.file_mappings@, ino) {
                    Some(m) => Some(file_attr(ino, self.file_mappings@[m].total_size)),
                    None => None,
                }
            },
    {
        if ino == ROOT_INODE {
            return Some(
                NodeAttr {
                    ino: ROOT_INODE,
                    size: 0,
                    blocks: 0,
                    directory: true,
                    perm: 0o755,
                    nlink: 2,
                    blksize: 512,
                },
            );
        }
        match self.mapping_of_inode(ino) {
            Some(m) => Some(self.get_file_attr(ino, self.file_mappings[m].total_size)),
            None => None,
        }
    }

    /// Plans the reads that give `size` bytes from `offset` on of the
    /// file that the inode `ino` stands for, with the index of its
    /// mapping; nothing where there is no such file.
    pub fn read(&self, ino: u64, offset: u64, size: usize) -> (r: Option<(usize, Vec<PartRead>)>)
        ensures
            match mapping_of_inode(self.inodes@, self.file_mappings@, ino) {
                Some(m) => r matches Some((at, reads)) && at == m && reads@ == part_reads(
                    self.file_mappings@[m].part_sizes@,
                    0,
                    offset as int,
                    size as int,
                ),
                None => r is None,
            },
    {
        match self.mapping_of_inode(ino) {
            Some(m) => Some(
                (m, read_multipart(self.file_mappings[m].part_sizes.as_slice(), offset, size)),
            ),
            None => None,
        }
    }

    /// Lists the directory from place `offset` on: `.` and `..` at the
    /// places 1 and 2, then the shown files in the order of their
    /// inodes, from place 3 on. Nothing where `ino` is not the
    /// directory.
    pub fn readdir(&self, ino: u64, offset: usize) -> (r: Option<Vec<DirEntry>>)
        requires
            self.inodes@.len() + 3 <= i64::MAX,
        ensures
            match r {
                None => ino != ROOT_INODE,
                Some(entries) => ino == ROOT_INODE && exists|order: Seq<usize>|
                    {
                        &&& #[trigger] is_stable_order(inode_keys(self.inodes@), order)
                        &&& entries_view(entries@) == dot_entries(offset) + file_entries(
                            self.inodes@,
                            order,
                            if offset <= 2 {
                                0
                            } else {
                                offset - 2
                            },
                        )
                    },
            },
    {
        if ino != ROOT_INODE {
            return None;
        }
        let mut entries: Vec<DirEntry> = Vec::new();
        if offset == 0 {
            entries.push(DirEntry { ino: ROOT_INODE, offset: 1, directory: true, name: ".".to_owned() });
        }
        if offset <= 1 {
            entries.push(
                DirEntry { ino: ROOT_INODE, offset: 2, directory: true, name: "..".to_owned() },
            );
        }
        assert(entries_view(entries@) =~= dot_entries(offset));
        let mut keys: Vec<u64> = Vec::new();
        let mut k: usize = 0;
        while k < self.inodes.len()
            invariant
                k <= self.inodes@.len(),
                keys@.len() == k,
                forall|j: int| 0 <= j < k ==> keys@[j] == self.inodes@[j].0,
            decreases self.inodes@.len() - k,
        {
            keys.push(self.inodes[k].0);
            k += 1;
        }
        assert(keys@ =~= inode_keys(self.inodes@));
        let order = stable_order(&keys);
        let n: usize = order.len();
        let first: usize = if offset <= 2 {
            0
        } else if offset - 2 < n {
            offset - 2
        } else {
            n
        };
        let ghost dots = entries_view(entries@);
        let mut place: usize = first;
        assert(entries_view(entries@) =~= dots + file_entries(self.inodes@, order@, first as int).subrange(
            0,
            0,
        ));
        while place < n
            invariant
                first <= place <= n,
                n == order@.len(),
                n == self.inodes@.len(),
                n + 3 <= i64::MAX,
                is_stable_order(inode_keys(self.inodes@), order@),
                entries_view(entries@) == dots + file_entries(
                    self.inodes@,
                    order@,
                    first as int,
                ).subrange(0, place - first),
            decreases n - place,
        {
            let ghost before = entries_view(entries@);
            let at: usize = order[place];
            let entry = DirEntry {
                ino: self.inodes[at].0,
                offset: place as i64 + 3,
                directory: false,
                name: self.inodes[at].1.clone(),
            };
            assert(entry@ == file_entry(self.inodes@, order@, place as int));
            entries.push(entry);
            assert(entries_view(entries@) =~= before.push(
                file_entry(self.inodes@, order@, place as int),
            ));
            assert(dots + file_entries(self.inodes@, order@, first as int).subrange(
                0,
                place + 1 - first,
            ) =~= (dots + file_entries(self.inodes@, order@, first as int).subrange(
                0,
                place - first,
            )).push(file_entry(self.inodes@, order@, place as int)));
            place += 1;
        }
        assert(file_entries(self.inodes@, order@, first as int).subrange(0, n - first)
            =~= file_entries(self.inodes@, order@, first as int));
        assert(file_entries(self.inodes@, order@, first as int) =~= file_entries(
            self.inodes@,
            order@,
            if offset <= 2 {
                0
            } else {
                offset - 2
            },
        ));
        Some(entries)
    }
}

/// Without a mapping of the name no inode is found for it.
proof fn lemma_no_mapping_no_inode(
    inodes: Seq<(u64, String)>,
    mappings: Seq<FileMapping>,
    name: Seq<char>,
    from: int,
)
    requires
        mapping_named(mappings, name, 0) is None,
    ensures
        inode_named(inodes, mappings, name, from) is None,
    decreases inodes.len() - from,
{
    if 0 <= from < inodes.len() {
        lemma_no_mapping_no_inode(inodes, mappings, name, from + 1);
    }
}

} // verus!
