//! Putting the volumes of a directory together: every archive becomes
//! one file, which is named after the archive and holds the volumes in
//! their order.
use crate::archive::par2::is_stable_order;
use crate::archive::par2::stable_order;
use crate::par2::matcher::ScannedFile;
use crate::par2::matcher::find_row;
use crate::par2::matcher::last_row_with;
use crate::par2::parser::FilePar2Info;
use crate::text::str_eq;
use crate::vfs::FileMapping;
use crate::vfs::get_rar_part_number;
use crate::vfs::group_name;
use crate::vfs::group_name_of;
use crate::vfs::part_number_of;
use vstd::prelude::*;
use vstd::string::StringExecFns;

verus! {

/// A file of the directory whose real name is known: where it lies, its
/// real name, and its size.
#[derive(Debug, Clone, PartialEq, Eq)]
pub struct MatchedFile {
    pub path: String,
    pub real_name: String,
    pub size: u64,
}

/// What a file with a known name holds.
pub ghost struct MatchedFileView {
    pub path: Seq<char>,
    pub real_name: Seq<char>,
    pub size: u64,
}

impl View for MatchedFile {
    type V = MatchedFileView;

    open spec fn view(&self) -> MatchedFileView {
        MatchedFileView { path: self.path@, real_name: self.real_name@, size: self.size }
    }
}

/// The scanned files whose fingerprint the table of the recovery set
/// knows, in their order, each with the name and the size that the last
/// row of its fingerprint gives.
pub open spec fn named_files(scanned: Seq<ScannedFile>, rows: Seq<(String, FilePar2Info)>) -> Seq<
    MatchedFileView,
>
    decreases scanned.len(),
{
    if scanned.len() == 0 {
        Seq::empty()
    } else {
        let before = named_files(scanned.drop_last(), rows);
        match last_row_with(rows, scanned.last().hash16k@, rows.len() as int) {
            Some(row) => before.push(
                MatchedFileView {
                    path: scanned.last().path@,
                    real_name: rows[row].0@,
                    size: rows[row].1.filesize,
                },
            ),
            None => before,
        }
    }
}

/// Gives the files of a directory the names and the sizes that the
/// table of a recovery set has for their fingerprints; a file whose
/// fingerprint the table does not know is left out.
pub fn name_volumes(scanned: &[ScannedFile], par2_info: &[(String, FilePar2Info)]) -> (files: Vec<
    MatchedFile,
>)
    ensures
        files@.map_values(|f: MatchedFile| f@) == named_files(scanned@, par2_info@),
{
    let mut files: Vec<MatchedFile> = Vec::new();
    let mut i: usize = 0;
    assert(scanned@.subrange(0, 0) =~= Seq::<ScannedFile>::empty());
    assert(files@.map_values(|f: MatchedFile| f@) =~= Seq::<MatchedFileView>::empty());
    while i < scanned.len()
        invariant
            i <= scanned@.len(),
            files@.map_values(|f: MatchedFile| f@) == named_files(
                scanned@.subrange(0, i as int),
                par2_info@,
            ),
        decreases scanned@.len() - i,
    {
        let ghost next = scanned@.subrange(0, i + 1);
        let ghost before = files@.map_values(|f: MatchedFile| f@);
        assert(next.drop_last() =~= scanned@.subrange(0, i as int));
        assert(next.last() == scanned@[i as int]);
        match find_row(par2_info, scanned[i].hash16k.as_slice()) {
            Some(row) => {
                let file = MatchedFile {
                    path: scanned[i].path.clone(),
                    real_name: par2_info[row].0.clone(),
                    size: par2_info[row].1.filesize,
                };
                let ghost fv = file@;
                files.push(file);
                assert(files@.map_values(|f: MatchedFile| f@) =~= before.push(fv));
            },
            None => {},
        }
        i += 1;
    }
    assert(scanned@.subrange(0, i as int) =~= scanned@);
    files
}

/// Whether a file is a volume of the archive `base`.
pub open spec fn in_group(file: MatchedFile, base: Seq<char>) -> bool {
    group_name_of(file.real_name@) == Some(base)
}

/// The archives that `files` hold volumes of, each once, in the order
/// in which their first volumes stand.
pub open spec fn group_names(files: Seq<MatchedFile>) -> Seq<Seq<char>>
    decreases files.len(),
{
    if files.len() == 0 {
        Seq::empty()
    } else {
        let before = group_names(files.drop_last());
        match group_name_of(files.last().real_name@) {
            Some(base) => if before.contains(base) {
                before
            } else {
                before.push(base)
            },
            None => before,
        }
    }
}

/// The places in `files` of the volumes of the archive `base`, in order.
pub open spec fn members(files: Seq<MatchedFile>, base: Seq<char>) -> Seq<usize>
    decreases files.len(),
{
    if files.len() == 0 {
        Seq::empty()
    } else if in_group(files.last(), base) {
        members(files.drop_last(), base).push((files.len() - 1) as usize)
    } else {
        members(files.drop_last(), base)
    }
}

/// The sizes of the volumes of the archive `base` together.
pub open spec fn group_size(files: Seq<MatchedFile>, base: Seq<char>) -> nat
    decreases files.len(),
{
    if files.len() == 0 {
        0
    } else if in_group(files.last(), base) {
        group_size(files.drop_last(), base) + files.last().size as nat
    } else {
        group_size(files.drop_last(), base)
    }
}

/// The numbers by which the volumes at `places` are sorted.
pub open spec fn part_keys(files: Seq<MatchedFile>, places: Seq<usize>) -> Seq<u64> {
    Seq::new(places.len(), |j: int| part_number_of(files[places[j] as int].real_name@) as u64)
}

/// Whether `mapping` is the file of the archive `base`: named after the
/// archive, with the volumes of the archive in the order of their
/// numbers, volumes of the same number in their first order, and as
/// large as all of them together.
pub open spec fn is_mapping_of(files: Seq<MatchedFile>, base: Seq<char>, mapping: FileMapping) -> bool {
    let places = members(files, base);
    &&& mapping.real_name@ == base + ".rar"@
    &&& mapping.total_size == group_size(files, base)
    &&& mapping.obfuscated_files@.len() == places.len()
    &&& mapping.part_sizes@.len() == places.len()
    &&& exists|order: Seq<usize>|
        {
            &&& #[trigger] is_stable_order(part_keys(files, places), order)
            &&& forall|j: int|
                0 <= j < places.len() ==> (#[trigger] mapping.obfuscated_files@[j])@
                    == files[places[order[j] as int] as int].path@
            &&& forall|j: int|
                0 <= j < places.len() ==> #[trigger] mapping.part_sizes@[j]
                    == files[places[order[j] as int] as int].size
        }
}

/// What names hold.
pub open spec fn names_of(names: Seq<String>) -> Seq<Seq<char>> {
    names.map_values(|n: String| n@)
}

fn holds_name(names: &Vec<String>, name: &str) -> (r: bool)
    ensures
        r == names_of(names@).contains(name@),
{
    let mut i: usize = 0;
    while i < names.len()
        invariant
            i <= names@.len(),
            forall|k: int| 0 <= k < i ==> names_of(names@)[k] != name@,
        decreases names@.len() - i,
    {
        if str_eq(names[i].as_str(), name) {
            assert(names_of(names@)[i as int] == name@);
            return true;
        }
        i += 1;
    }
    false
}

/// The archives that `files` hold volumes of.
pub fn archives_of(files: &[MatchedFile]) -> (names: Vec<String>)
    ensures
        names_of(names@) == group_names(files@),
{
    let mut names: Vec<String> = Vec::new();
    let mut i: usize = 0;
    assert(files@.subrange(0, 0) =~= Seq::<MatchedFile>::empty());
    assert(names_of(names@) =~= Seq::<Seq<char>>::empty());
    while i < files.len()
        invariant
            i <= files@.len(),
            names_of(names@) == group_names(files@.subrange(0, i as int)),
        decreases files@.len() - i,
    {
        let ghost next = files@.subrange(0, i + 1);
        let ghost before = names_of(names@);
        assert(next.drop_last() =~= files@.subrange(0, i as int));
        assert(next.last() == files@[i as int]);
        match group_name(files[i].real_name.as_str()) {
            Some(base) => {
                if !holds_name(&names, base.as_str()) {
                    let ghost b = base@;
                    names.push(base);
                    assert(names_of(names@) =~= before.push(b));
                }
            },
            None => {},
        }
        i += 1;
    }
    assert(files@.subrange(0, i as int) =~= files@);
    names
}

/// The file of the archive `base`, or nothing where its volumes
/// together are larger than 64 bits can tell.
pub fn mapping_of_archive(files: &[MatchedFile], base: &str) -> (r: Option<FileMapping>)
    ensures
        match r {
            Some(mapping) => is_mapping_of(files@, base@, mapping),
            None => group_size(files@, base@) > u64::MAX,
        },
{
    let mut places: Vec<usize> = Vec::new();
    let mut keys: Vec<u64> = Vec::new();
    let mut total: u64 = 0;
    let mut i: usize = 0;
    assert(files@.subrange(0, 0) =~= Seq::<MatchedFile>::empty());
    while i < files.len()
        invariant
            i <= files@.len(),
            places@ == members(files@.subrange(0, i as int), base@),
            total == group_size(files@.subrange(0, i as int), base@),
            keys@.len() == places@.len(),
            forall|j: int| 0 <= j < places@.len() ==> (#[trigger] places@[j]) < i,
            forall|j: int|
                0 <= j < keys@.len() ==> #[trigger] keys@[j] == part_number_of(
                    files@[places@[j] as int].real_name@,
                ) as u64,
        decreases files@.len() - i,
    {
        let ghost next = files@.subrange(0, i + 1);
        assert(next.drop_last() =~= files@.subrange(0, i as int));
        assert(next.last() == files@[i as int]);
        let file = &files[i];
        let of_group: bool = match group_name(file.real_name.as_str()) {
            Some(name) => str_eq(name.as_str(), base),
            None => false,
        };
        assert(of_group == in_group(files@[i as int], base@));
        if of_group {
            total = match total.checked_add(file.size) {
                Some(t) => t,
                None => {
                    proof {
                        lemma_group_size_grows(files@, i + 1, base@);
                    }
                    return None;
                },
            };
            places.push(i);
            keys.push(get_rar_part_number(file.real_name.as_str()) as u64);
        }
        i += 1;
    }
    assert(files@.subrange(0, i as int) =~= files@);
    assert(keys@ =~= part_keys(files@, places@));
    let order = stable_order(&keys);
    let mut obfuscated_files: Vec<String> = Vec::new();
    let mut part_sizes: Vec<u64> = Vec::new();
    let mut j: usize = 0;
    while j < order.len()
        invariant
            j <= order@.len(),
            places@ == members(files@, base@),
            forall|k: int| 0 <= k < places@.len() ==> (#[trigger] places@[k]) < files@.len(),
            is_stable_order(part_keys(files@, places@), order@),
            obfuscated_files@.len() == j,
            part_sizes@.len() == j,
            forall|k: int|
                0 <= k < j ==> (#[trigger] obfuscated_files@[k])@ == files@[places@[order@[k] as int] as int].path@,
            forall|k: int|
                0 <= k < j ==> #[trigger] part_sizes@[k] == files@[places@[order@[k] as int] as int].size,
        decreases order@.len() - j,
    {
        let at: usize = places[order[j]];
        obfuscated_files.push(files[at].path.clone());
        part_sizes.push(files[at].size);
        j += 1;
    }
    let mut real_name = base.to_owned();
    real_name.append(".rar");
    Some(FileMapping { real_name, obfuscated_files, total_size: total, part_sizes })
}

/// The files that the volumes of a directory are shown as: one for
/// every archive, in the order in which the first volumes of the
/// archives stand. Nothing where the volumes of an archive together are
/// larger than 64 bits can tell.
pub fn build_mappings(files: &[MatchedFile]) -> (r: Option<Vec<FileMapping>>)
    ensures
        match r {
            Some(mappings) => mappings@.len() == group_names(files@).len() && forall|g: int|
                0 <= g < mappings@.len() ==> is_mapping_of(
                    files@,
                    group_names(files@)[g],
                    #[trigger] mappings@[g],
                ),
            None => exists|g: int|
                0 <= g < group_names(files@).len() && group_size(
                    files@,
                    #[trigger] group_names(files@)[g],
                ) > u64::MAX,
        },
{
    let names = archives_of(files);
    let mut mappings: Vec<FileMapping> = Vec::new();
    let mut g: usize = 0;
    while g < names.len()
        invariant
            g <= names@.len(),
            names_of(names@) == group_names(files@),
            mappings@.len() == g,
            forall|k: int|
                0 <= k < g ==> is_mapping_of(
                    files@,
                    group_names(files@)[k],
                    #[trigger] mappings@[k],
                ),
        decreases names@.len() - g,
    {
        assert(names_of(names@)[g as int] == names@[g as int]@);
        match mapping_of_archive(files, names[g].as_str()) {
            Some(mapping) => {
                mappings.push(mapping);
            },
            None => {
                return None;
            },
        }
        g += 1;
    }
    Some(mappings)
}

/// The size of a group grows with the files.
proof fn lemma_group_size_grows(files: Seq<MatchedFile>, n: int, base: Seq<char>)
    requires
        0 <= n <= files.len(),
    ensures
        group_size(files.subrange(0, n), base) <= group_size(files, base),
    decreases files.len() - n,
{
    if n < files.len() {
        lemma_group_size_grows(files, n + 1, base);
        assert(files.subrange(0, n + 1).drop_last() =~= files.subrange(0, n));
    } else {
        assert(files.subrange(0, n) =~= files);
    }
}

} // verus!
