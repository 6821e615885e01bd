//! Telling obfuscated names from real ones.
use crate::nzb::types::NzbFile;
use crate::nzb::types::rar_file;
use crate::nzb::types::video_file;
use crate::text::all_hex_digits;
use crate::text::byte_length;
use crate::text::chars_of;
use crate::text::contains_str;
use crate::text::ends_with_str;
use crate::text::extension;
use crate::text::extension_of;
use crate::text::find_char;
use crate::text::first_index;
use crate::text::has_sub;
use crate::text::has_suffix;
use crate::text::is_all_hex;
use crate::text::lowercased;
use crate::text::str_eq;
use crate::text::to_lowercase;
use crate::text::trim;
use crate::text::trim_range;
use crate::text::utf8_len;
use vstd::prelude::*;
use vstd::slice::slice_subrange;

verus! {

/// The longest extension, in bytes, that a real name is taken to have.
pub const MAX_EXTENSION_BYTES: u128 = 10;

/// Whether a name looks obfuscated: without its surrounding white space
/// it has no dot, or what stands behind its last dot is longer than ten
/// bytes or made of hexadecimal digits only.
pub open spec fn obfuscated_name(filename: Seq<char>) -> bool {
    let name = trim(filename);
    first_index(name, '.') is None || utf8_len(extension_of(name)) > MAX_EXTENSION_BYTES
        || all_hex_digits(extension_of(name))
}

/// The reader of names.
#[derive(Debug, Clone, Copy, PartialEq, Eq)]
pub struct Par2Deobfuscator;

/// The number of `files` whose paths look obfuscated.
pub open spec fn obfuscated_count(files: Seq<NzbFile>) -> nat
    decreases files.len(),
{
    if files.len() == 0 {
        0
    } else {
        obfuscated_count(files.drop_last()) + if obfuscated_name(files.last().path@) {
            1nat
        } else {
            0nat
        }
    }
}

/// The files whose paths name a video, in their order.
pub open spec fn video_files_of(files: Seq<NzbFile>) -> Seq<NzbFile>
    decreases files.len(),
{
    if files.len() == 0 {
        Seq::empty()
    } else if video_file(files.last().path@) {
        video_files_of(files.drop_last()).push(files.last())
    } else {
        video_files_of(files.drop_last())
    }
}

impl Par2Deobfuscator {
    /// Whether a name looks obfuscated.
    pub fn is_obfuscated_filename(filename: &str) -> (b: bool)
        ensures
            b == obfuscated_name(filename@),
    {
        let chars = chars_of(filename);
        let (lo, hi) = trim_range(chars.as_slice(), 0, chars.len());
        assert(chars@.subrange(0, chars@.len() as int) =~= chars@);
        let name = slice_subrange(chars.as_slice(), lo, hi);
        if find_char(name, '.').is_none() {
            return true;
        }
        let ext = extension(name);
        byte_length(ext) > MAX_EXTENSION_BYTES || is_all_hex(ext)
    }

    /// Whether a name names a video file.
    pub fn is_video_file(filename: &str) -> (b: bool)
        ensures
            b == video_file(filename@),
    {
        crate::nzb::types::is_video_file(filename)
    }

    /// Whether a name names a RAR volume.
    pub fn is_rar_file(filename: &str) -> (b: bool)
        ensures
            b == rar_file(filename@),
    {
        crate::nzb::types::is_rar_file(filename)
    }

    /// Whether the names of a manifest have to be resolved: more than
    /// half of its files look obfuscated.
    pub fn needs_deobfuscation(files: &[NzbFile]) -> (b: bool)
        ensures
            b == (obfuscated_count(files@) > files@.len() / 2),
    {
        let mut count: usize = 0;
        let mut i: usize = 0;
        assert(files@.subrange(0, 0) =~= Seq::<NzbFile>::empty());
        while i < files.len()
            invariant
                i <= files@.len(),
                count == obfuscated_count(files@.subrange(0, i as int)),
                count <= i,
            decreases files@.len() - i,
        {
            let ghost next = files@.subrange(0, i + 1);
            assert(next.drop_last() =~= files@.subrange(0, i as int));
            assert(next.last() == files@[i as int]);
            if Self::is_obfuscated_filename(files[i].path.as_str()) {
                count += 1;
            }
            i += 1;
        }
        assert(files@.subrange(0, i as int) =~= files@);
        count > files.len() / 2
    }

    /// The files of a manifest whose paths name a video, in their order.
    pub fn identify_video_files(files: &[NzbFile]) -> (r: Vec<&NzbFile>)
        ensures
            crate::nzb::types::pointed(r@) == video_files_of(files@),
    {
        let mut r: Vec<&NzbFile> = Vec::new();
        let mut i: usize = 0;
        assert(files@.subrange(0, 0) =~= Seq::<NzbFile>::empty());
        assert(crate::nzb::types::pointed(r@) =~= Seq::<NzbFile>::empty());
        while i < files.len()
            invariant
                i <= files@.len(),
                crate::nzb::types::pointed(r@) == video_files_of(files@.subrange(0, i as int)),
            decreases files@.len() - i,
        {
            let ghost next = files@.subrange(0, i + 1);
            let ghost before = crate::nzb::types::pointed(r@);
            assert(next.drop_last() =~= files@.subrange(0, i as int));
            assert(next.last() == files@[i as int]);
            if Self::is_video_file(files[i].path.as_str()) {
                r.push(&files[i]);
                assert(crate::nzb::types::pointed(r@) =~= before.push(files@[i as int]));
            }
            i += 1;
        }
        assert(files@.subrange(0, i as int) =~= files@);
        r
    }
}

/// Whether a path, whatever its case, names a recovery file.
pub open spec fn par2_path(path: Seq<char>) -> bool {
    has_suffix(lowercased(path), ".par2"@)
}

/// Whether a file is wanted as the main recovery file: it is a recovery
/// file, and, where `plain` is asked, its path names no volume of the
/// set.
pub open spec fn wanted_par2(file: NzbFile, plain: bool) -> bool {
    par2_path(file.path@) && (plain ==> !has_sub(file.path@, ".vol"@))
}

/// Index of the smallest of the first `n` files that are wanted, the
/// first of them where several are equally small.
pub open spec fn smallest_par2(files: Seq<NzbFile>, plain: bool, n: int) -> Option<int>
    decreases n,
{
    if n <= 0 || n > files.len() {
        None
    } else {
        match smallest_par2(files, plain, n - 1) {
            Some(i) => if wanted_par2(files[n - 1], plain) && files[n - 1].size < files[i].size {
                Some(n - 1)
            } else {
                Some(i)
            },
            None => if wanted_par2(files[n - 1], plain) {
                Some(n - 1)
            } else {
                None
            },
        }
    }
}

/// The main recovery file of a manifest: the smallest recovery file
/// whose path names no volume, or else the smallest recovery file.
pub open spec fn main_par2_of(files: Seq<NzbFile>) -> Option<int> {
    match smallest_par2(files, true, files.len() as int) {
        Some(i) => Some(i),
        None => smallest_par2(files, false, files.len() as int),
    }
}

fn is_wanted(file: &NzbFile, plain: bool) -> (r: bool)
    ensures
        r == wanted_par2(*file, plain),
{
    let lower = to_lowercase(file.path.as_str());
    let lower_chars = chars_of(lower.as_str());
    if !ends_with_str(lower_chars.as_slice(), ".par2") {
        return false;
    }
    if plain {
        let path = chars_of(file.path.as_str());
        !contains_str(path.as_slice(), ".vol")
    } else {
        true
    }
}

fn find_smallest(files: &[NzbFile], plain: bool) -> (r: Option<usize>)
    ensures
        match r {
            Some(i) => smallest_par2(files@, plain, files@.len() as int) == Some(i as int) && i
                < files@.len(),
            None => smallest_par2(files@, plain, files@.len() as int) is None,
        },
{
    let mut best: Option<usize> = None;
    let mut n: usize = 0;
    while n < files.len()
        invariant
            n <= files@.len(),
            match best {
                Some(i) => smallest_par2(files@, plain, n as int) == Some(i as int) && i < n,
                None => smallest_par2(files@, plain, n as int) is None,
            },
        decreases files@.len() - n,
    {
        let wanted = is_wanted(&files[n], plain);
        best = match best {
            Some(i) => {
                if wanted && files[n].size < files[i].size {
                    Some(n)
                } else {
                    Some(i)
                }
            },
            None => {
                if wanted {
                    Some(n)
                } else {
                    None
                }
            },
        };
        n += 1;
    }
    best
}

/// `a` comes before `b` in the order of strings: at the first place
/// where they differ `a` has the smaller character, or `a` ends there
/// and `b` goes on.
pub open spec fn text_less(a: Seq<char>, b: Seq<char>) -> bool
    decreases a.len(),
{
    if b.len() == 0 {
        false
    } else if a.len() == 0 {
        true
    } else if a[0] != b[0] {
        (a[0] as u32) < (b[0] as u32)
    } else {
        text_less(a.skip(1), b.skip(1))
    }
}

fn is_text_less(a: &[char], b: &[char]) -> (r: bool)
    ensures
        r == text_less(a@, b@),
{
    let mut i: usize = 0;
    assert(a@.skip(0) =~= a@);
    assert(b@.skip(0) =~= b@);
    loop
        invariant
            i <= a@.len(),
            i <= b@.len(),
            text_less(a@, b@) == text_less(a@.skip(i as int), b@.skip(i as int)),
        decreases a@.len() - i,
    {
        if i >= b.len() {
            return false;
        }
        if i >= a.len() {
            return true;
        }
        if a[i] != b[i] {
            return (a[i] as u32) < (b[i] as u32);
        }
        assert(a@.skip(i as int).skip(1) =~= a@.skip(i + 1));
        assert(b@.skip(i as int).skip(1) =~= b@.skip(i + 1));
        i += 1;
    }
}

/// Whether a file may be the first part of an archive: its path names a
/// RAR volume and holds `part001`, `part01` or `.rar`.
pub open spec fn first_part_candidate(file: NzbFile) -> bool {
    rar_file(file.path@) && (has_sub(file.path@, "part001"@) || has_sub(file.path@, "part01"@)
        || has_sub(file.path@, ".rar"@))
}

/// Index of that one of the first `n` files that may be the first part
/// whose path comes first in the order of strings; of equal paths the
/// first.
pub open spec fn first_part_of(files: Seq<NzbFile>, n: int) -> Option<int>
    decreases n,
{
    if n <= 0 || n > files.len() {
        None
    } else {
        match first_part_of(files, n - 1) {
            Some(i) => if first_part_candidate(files[n - 1]) && text_less(
                files[n - 1].path@,
                files[i].path@,
            ) {
                Some(n - 1)
            } else {
                Some(i)
            },
            None => if first_part_candidate(files[n - 1]) {
                Some(n - 1)
            } else {
                None
            },
        }
    }
}

/// A name that the recovery set gives to a posted file.
#[derive(Debug, Clone, PartialEq, Eq)]
pub struct DeobfuscationMapping {
    pub obfuscated_name: String,
    pub real_name: String,
    pub file_size: u64,
    pub md5_hash: Vec<u8>,
}

/// Index of the first mapping at or after `from` for the posted name
/// `name`.
pub open spec fn mapping_for(mappings: Seq<DeobfuscationMapping>, name: Seq<char>, from: int) -> Option<
    int,
>
    decreases mappings.len() - from,
{
    if from < 0 || from >= mappings.len() {
        None
    } else if mappings[from].obfuscated_name@ == name {
        Some(from)
    } else {
        mapping_for(mappings, name, from + 1)
    }
}

/// The path of a file once the mappings are applied: the real name of the
/// first mapping for it, or the path as it is.
pub open spec fn mapped_path(mappings: Seq<DeobfuscationMapping>, path: Seq<char>) -> Seq<char> {
    match mapping_for(mappings, path, 0) {
        Some(i) => mappings[i].real_name@,
        None => path,
    }
}

impl Par2Deobfuscator {
    /// Finds the main recovery file of a manifest.
    pub fn find_main_par2(files: &[NzbFile]) -> (r: Option<usize>)
        ensures
            match r {
                Some(i) => main_par2_of(files@) == Some(i as int) && i < files@.len(),
                None => main_par2_of(files@) is None,
            },
    {
        match find_smallest(files, true) {
            Some(i) => Some(i),
            None => find_smallest(files, false),
        }
    }

    /// Finds the first part of the archive among the files of a manifest.
    pub fn identify_first_rar_part(files: &[NzbFile]) -> (r: Option<usize>)
        ensures
            match r {
                Some(i) => first_part_of(files@, files@.len() as int) == Some(i as int) && i
                    < files@.len(),
                None => first_part_of(files@, files@.len() as int) is None,
            },
    {
        let mut best: Option<usize> = None;
        let mut n: usize = 0;
        while n < files.len()
            invariant
                n <= files@.len(),
                match best {
                    Some(i) => first_part_of(files@, n as int) == Some(i as int) && i < n,
                    None => first_part_of(files@, n as int) is None,
                },
            decreases files@.len() - n,
        {
            let path = chars_of(files[n].path.as_str());
            let candidate: bool = Self::is_rar_file(files[n].path.as_str()) && (contains_str(
                path.as_slice(),
                "part001",
            ) || contains_str(path.as_slice(), "part01") || contains_str(path.as_slice(), ".rar"));
            best = match best {
                Some(i) => {
                    let other = chars_of(files[i].path.as_str());
                    if candidate && is_text_less(path.as_slice(), other.as_slice()) {
                        Some(n)
                    } else {
                        Some(i)
                    }
                },
                None => {
                    if candidate {
                        Some(n)
                    } else {
                        None
                    }
                },
            };
            n += 1;
        }
        best
    }

    /// Gives the files the real names that the mappings hold for their
    /// paths.
    pub fn apply_deobfuscation(files: &mut Vec<NzbFile>, mappings: &[DeobfuscationMapping])
        ensures
            renamed_all(*old(files), *final(files), mappings@),
    {
        let ghost before = files@;
        let n: usize = files.len();
        let mut turned: Vec<NzbFile> = Vec::new();
        while files.len() > 0
            invariant
                files@.len() + turned@.len() == n,
                n == before.len(),
                forall|k: int| 0 <= k < files@.len() ==> files@[k] == before[k],
                forall|k: int|
                    0 <= k < turned@.len() ==> renamed(
                        before[n - 1 - k],
                        #[trigger] turned@[k],
                        mappings@,
                    ),
            decreases files@.len(),
        {
            let file = files.pop().unwrap();
            turned.push(rename(file, mappings));
        }
        while turned.len() > 0
            invariant
                files@.len() + turned@.len() == n,
                n == before.len(),
                forall|k: int|
                    0 <= k < files@.len() ==> renamed(before[k], #[trigger] files@[k], mappings@),
                forall|k: int|
                    0 <= k < turned@.len() ==> renamed(
                        before[n - 1 - k],
                        #[trigger] turned@[k],
                        mappings@,
                    ),
            decreases turned@.len(),
        {
            let file = turned.pop().unwrap();
            files.push(file);
        }
    }
}

/// `after` is `before` under the real name that the mappings hold for its
/// path.
pub open spec fn renamed(before: NzbFile, after: NzbFile, mappings: Seq<DeobfuscationMapping>) -> bool {
    &&& after.path@ == mapped_path(mappings, before.path@)
    &&& after.subject == before.subject
    &&& after.poster == before.poster
    &&& after.date == before.date
    &&& after.groups == before.groups
    &&& after.segments == before.segments
    &&& after.size == before.size
}

/// Every file of `after` is the file of `before` at its place, renamed.
pub open spec fn renamed_all(
    before: Vec<NzbFile>,
    after: Vec<NzbFile>,
    mappings: Seq<DeobfuscationMapping>,
) -> bool {
    &&& after@.len() == before@.len()
    &&& forall|i: int| 0 <= i < before@.len() ==> renamed(before@[i], #[trigger] after@[i], mappings)
}

fn rename(file: NzbFile, mappings: &[DeobfuscationMapping]) -> (r: NzbFile)
    ensures
        renamed(file, r, mappings@),
{
    let mut k: usize = 0;
    while k < mappings.len()
        invariant
            k <= mappings@.len(),
            mapping_for(mappings@, file.path@, 0) == mapping_for(mappings@, file.path@, k as int),
        decreases mappings@.len() - k,
    {
        if str_eq(mappings[k].obfuscated_name.as_str(), file.path.as_str()) {
            let mut r = file;
            r.path = mappings[k].real_name.clone();
            return r;
        }
        k += 1;
    }
    file
}

/// What the recovery set tells of one file: its name, its size and the
/// MD5 of its content.
#[derive(Debug, Clone, PartialEq, Eq)]
pub struct FileDescription {
    pub filename: String,
    pub file_size: u64,
    pub md5_hash: Vec<u8>,
}

/// What a mapping holds.
pub ghost struct MappingView {
    pub obfuscated_name: Seq<char>,
    pub real_name: Seq<char>,
    pub file_size: u64,
    pub md5_hash: Seq<u8>,
}

impl View for DeobfuscationMapping {
    type V = MappingView;

    open spec fn view(&self) -> MappingView {
        MappingView {
            obfuscated_name: self.obfuscated_name@,
            real_name: self.real_name@,
            file_size: self.file_size,
            md5_hash: self.md5_hash@,
        }
    }
}

/// Index of the first file at or after `from` that has `size` bytes and
/// an obfuscated path.
pub open spec fn candidate_from(files: Seq<NzbFile>, size: u64, from: int) -> Option<int>
    decreases files.len() - from,
{
    if from < 0 || from >= files.len() {
        None
    } else if files[from].size == size && obfuscated_name(files[from].path@) {
        Some(from)
    } else {
        candidate_from(files, size, from + 1)
    }
}

/// Index of the first mapping at or after `from` for the posted name
/// `name`.
pub open spec fn view_for(mappings: Seq<MappingView>, name: Seq<char>, from: int) -> Option<int>
    decreases mappings.len() - from,
{
    if from < 0 || from >= mappings.len() {
        None
    } else if mappings[from].obfuscated_name == name {
        Some(from)
    } else {
        view_for(mappings, name, from + 1)
    }
}

/// The mappings that the descriptions `descs` give for `files`.
///
/// A description of a recovery file gives none. Any other description
/// names the first file of its size whose path looks obfuscated; a later
/// mapping for the same file takes the place of an earlier one.
pub open spec fn mappings_of(files: Seq<NzbFile>, descs: Seq<FileDescription>) -> Seq<MappingView>
    decreases descs.len(),
{
    if descs.len() == 0 {
        Seq::empty()
    } else {
        let before = mappings_of(files, descs.drop_last());
        let d = descs.last();
        if has_suffix(d.filename@, ".par2"@) {
            before
        } else {
            match candidate_from(files, d.file_size, 0) {
                None => before,
                Some(c) => {
                    let m = MappingView {
                        obfuscated_name: files[c].path@,
                        real_name: d.filename@,
                        file_size: d.file_size,
                        md5_hash: d.md5_hash@,
                    };
                    match view_for(before, files[c].path@, 0) {
                        Some(i) => before.update(i, m),
                        None => before.push(m),
                    }
                },
            }
        }
    }
}

/// The views of mappings.
pub open spec fn mappings_view(mappings: Seq<DeobfuscationMapping>) -> Seq<MappingView> {
    mappings.map_values(|m: DeobfuscationMapping| m@)
}

fn find_candidate(files: &[NzbFile], size: u64) -> (r: Option<usize>)
    ensures
        match r {
            Some(i) => candidate_from(files@, size, 0) == Some(i as int) && i < files@.len(),
            None => candidate_from(files@, size, 0) is None,
        },
{
    let mut i: usize = 0;
    while i < files.len()
        invariant
            i <= files@.len(),
            candidate_from(files@, size, 0) == candidate_from(files@, size, i as int),
        decreases files@.len() - i,
    {
        if files[i].size == size && Par2Deobfuscator::is_obfuscated_filename(
            files[i].path.as_str(),
        ) {
            return Some(i);
        }
        i += 1;
    }
    None
}

fn find_mapping(mappings: &Vec<DeobfuscationMapping>, name: &str) -> (r: Option<usize>)
    ensures
        match r {
            Some(i) => view_for(mappings_view(mappings@), name@, 0) == Some(i as int) && i
                < mappings@.len(),
            None => view_for(mappings_view(mappings@), name@, 0) is None,
        },
{
    let mut i: usize = 0;
    while i < mappings.len()
        invariant
            i <= mappings@.len(),
            view_for(mappings_view(mappings@), name@, 0) == view_for(
                mappings_view(mappings@),
                name@,
                i as int,
            ),
        decreases mappings@.len() - i,
    {
        assert(mappings_view(mappings@)[i as int] == mappings@[i as int]@);
        if str_eq(mappings[i].obfuscated_name.as_str(), name) {
            return Some(i);
        }
        i += 1;
    }
    None
}

/// Works out which posted file stands for which file of the recovery
/// set, by their sizes.
pub fn create_deobfuscation_mappings(files: &[NzbFile], descs: &[FileDescription]) -> (r: Vec<
    DeobfuscationMapping,
>)
    ensures
        mappings_view(r@) == mappings_of(files@, descs@),
{
    let mut mappings: Vec<DeobfuscationMapping> = Vec::new();
    let mut i: usize = 0;
    assert(descs@.subrange(0, 0) =~= Seq::<FileDescription>::empty());
    assert(mappings_view(mappings@) =~= Seq::<MappingView>::empty());
    while i < descs.len()
        invariant
            i <= descs@.len(),
            mappings_view(mappings@) == mappings_of(files@, descs@.subrange(0, i as int)),
        decreases descs@.len() - i,
    {
        let d = &descs[i];
        let ghost next = descs@.subrange(0, i + 1);
        let ghost before = mappings_view(mappings@);
        assert(next.drop_last() =~= descs@.subrange(0, i as int));
        assert(next.last() == descs@[i as int]);
        let name = chars_of(d.filename.as_str());
        if !ends_with_str(name.as_slice(), ".par2") {
            match find_candidate(files, d.file_size) {
                None => {},
                Some(c) => {
                    let m = DeobfuscationMapping {
                        obfuscated_name: files[c].path.clone(),
                        real_name: d.filename.clone(),
                        file_size: d.file_size,
                        md5_hash: d.md5_hash.clone(),
                    };
                    let ghost mv = m@;
                    match find_mapping(&mappings, files[c].path.as_str()) {
                        Some(at) => {
                            mappings[at] = m;
                            assert(mappings_view(mappings@) =~= before.update(at as int, mv));
                        },
                        None => {
                            mappings.push(m);
                            assert(mappings_view(mappings@) =~= before.push(mv));
                        },
                    }
                },
            }
        }
        i += 1;
    }
    assert(descs@.subrange(0, i as int) =~= descs@);
    mappings
}

} // verus!
