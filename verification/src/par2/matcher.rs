//! Matching the files of a directory against the table of a recovery set
//! by their fingerprints.
use crate::byteseq::bytes_eq;
use crate::par2::parser::FilePar2Info;
use vstd::prelude::*;

verus! {

/// A file of the directory that the recovery set knows.
#[derive(Debug, Clone, PartialEq, Eq)]
pub struct FileMatch {
    pub path: String,
    pub hash16k: Vec<u8>,
    pub size: u64,
    pub real_name: Option<String>,
}

/// The files that were matched, and the files of the recovery set that
/// were not found: name and fingerprint.
#[derive(Debug, Clone, PartialEq, Eq)]
pub struct MatchResult {
    pub matched: Vec<FileMatch>,
    pub missing: Vec<(String, Vec<u8>)>,
}

/// A file of the directory: its path, its fingerprint and its size.
#[derive(Debug, Clone, PartialEq, Eq)]
pub struct ScannedFile {
    pub path: String,
    pub hash16k: Vec<u8>,
    pub size: u64,
}

/// Index of the last row before `end` whose fingerprint is `hash`.
pub open spec fn last_row_with(rows: Seq<(String, FilePar2Info)>, hash: Seq<u8>, end: int) -> Option<
    int,
>
    decreases end,
{
    if end <= 0 || end > rows.len() {
        None
    } else if rows[end - 1].1.hash16k@ == hash {
        Some(end - 1)
    } else {
        last_row_with(rows, hash, end - 1)
    }
}

/// Whether a scanned file has the fingerprint `hash`.
pub open spec fn scanned_has(scanned: Seq<ScannedFile>, hash: Seq<u8>) -> bool {
    exists|k: int| 0 <= k < scanned.len() && scanned[k].hash16k@ == hash
}

/// The scanned files whose fingerprint the table knows, each with the
/// name of the last row of that fingerprint.
pub open spec fn matches_of(scanned: Seq<ScannedFile>, rows: Seq<(String, FilePar2Info)>) -> Seq<
    (int, int),
>
    decreases scanned.len(),
{
    if scanned.len() == 0 {
        Seq::empty()
    } else {
        match last_row_with(rows, scanned.last().hash16k@, rows.len() as int) {
            Some(row) => matches_of(scanned.drop_last(), rows).push((scanned.len() - 1, row)),
            None => matches_of(scanned.drop_last(), rows),
        }
    }
}

/// The indices of the rows whose fingerprint no scanned file has.
pub open spec fn missing_rows(rows: Seq<(String, FilePar2Info)>, scanned: Seq<ScannedFile>) -> Seq<
    int,
>
    decreases rows.len(),
{
    if rows.len() == 0 {
        Seq::empty()
    } else if scanned_has(scanned, rows.last().1.hash16k@) {
        missing_rows(rows.drop_last(), scanned)
    } else {
        missing_rows(rows.drop_last(), scanned).push(rows.len() - 1)
    }
}

/// Index of the last row whose fingerprint is `hash`.
pub fn find_row(rows: &[(String, FilePar2Info)], hash: &[u8]) -> (r: Option<usize>)
    ensures
        match r {
            Some(i) => last_row_with(rows@, hash@, rows@.len() as int) == Some(i as int) && i
                < rows@.len(),
            None => last_row_with(rows@, hash@, rows@.len() as int) is None,
        },
{
    let mut end: usize = rows.len();
    while end > 0
        invariant
            end <= rows@.len(),
            last_row_with(rows@, hash@, rows@.len() as int) == last_row_with(
                rows@,
                hash@,
                end as int,
            ),
        decreases end,
    {
        if bytes_eq(rows[end - 1].1.hash16k.as_slice(), hash) {
            return Some(end - 1);
        }
        end -= 1;
    }
    None
}

fn is_scanned(scanned: &[ScannedFile], hash: &[u8]) -> (r: bool)
    ensures
        r == scanned_has(scanned@, hash@),
{
    let mut k: usize = 0;
    while k < scanned.len()
        invariant
            k <= scanned@.len(),
            forall|j: int| 0 <= j < k ==> scanned@[j].hash16k@ != hash@,
        decreases scanned@.len() - k,
    {
        if bytes_eq(scanned[k].hash16k.as_slice(), hash) {
            return true;
        }
        k += 1;
    }
    false
}

/// The matches are what `matches_of` names.
pub open spec fn matched_ok(
    matched: Seq<FileMatch>,
    scanned: Seq<ScannedFile>,
    rows: Seq<(String, FilePar2Info)>,
) -> bool {
    &&& matched.len() == matches_of(scanned, rows).len()
    &&& forall|k: int|
        0 <= k < matched.len() ==> {
            let (file, row) = matches_of(scanned, rows)[k];
            &&& 0 <= file < scanned.len()
            &&& 0 <= row < rows.len()
            &&& (#[trigger] matched[k]).path@ == scanned[file].path@
            &&& matched[k].hash16k@ == scanned[file].hash16k@
            &&& matched[k].size == scanned[file].size
            &&& matched[k].real_name matches Some(name) && name@ == rows[row].0@
        }
}

/// The entry names the row: it holds its name and its fingerprint.
pub open spec fn names_row(entry: (String, Vec<u8>), row: (String, FilePar2Info)) -> bool {
    entry.0@ == row.0@ && entry.1@ == row.1.hash16k@
}

/// The missing files are what `missing_rows` names.
pub open spec fn missing_ok(
    missing: Seq<(String, Vec<u8>)>,
    scanned: Seq<ScannedFile>,
    rows: Seq<(String, FilePar2Info)>,
) -> bool {
    &&& missing.len() == missing_rows(rows, scanned).len()
    &&& forall|k: int|
        0 <= k < missing.len() ==> 0 <= (#[trigger] missing_rows(rows, scanned)[k]) < rows.len()
            && names_row(missing[k], rows[missing_rows(rows, scanned)[k]])
}

fn collect_matched(scanned: &[ScannedFile], par2_info: &[(String, FilePar2Info)]) -> (matched: Vec<
    FileMatch,
>)
    ensures
        matched_ok(matched@, scanned@, par2_info@),
{
    let mut matched: Vec<FileMatch> = Vec::new();
    let mut i: usize = 0;
    assert(scanned@.subrange(0, 0) =~= Seq::<ScannedFile>::empty());
    while i < scanned.len()
        invariant
            i <= scanned@.len(),
            matched@.len() == matches_of(scanned@.subrange(0, i as int), par2_info@).len(),
            forall|k: int|
                0 <= k < matched@.len() ==> {
                    let (file, row) = matches_of(scanned@.subrange(0, i as int), par2_info@)[k];
                    &&& 0 <= file < i
                    &&& 0 <= row < par2_info@.len()
                    &&& (#[trigger] matched@[k]).path@ == scanned@[file].path@
                    &&& matched@[k].hash16k@ == scanned@[file].hash16k@
                    &&& matched@[k].size == scanned@[file].size
                    &&& matched@[k].real_name matches Some(name) && name@ == par2_info@[row].0@
                },
        decreases scanned@.len() - i,
    {
        let ghost next = scanned@.subrange(0, i + 1);
        let ghost found = matches_of(scanned@.subrange(0, i as int), par2_info@);
        assert(next.drop_last() =~= scanned@.subrange(0, i as int));
        assert(next.last() == scanned@[i as int]);
        let file = &scanned[i];
        match find_row(par2_info, file.hash16k.as_slice()) {
            Some(row) => {
                matched.push(
                    FileMatch {
                        path: file.path.clone(),
                        hash16k: file.hash16k.clone(),
                        size: file.size,
                        real_name: Some(par2_info[row].0.clone()),
                    },
                );
                assert(matches_of(next, par2_info@) == found.push((i as int, row as int)));
            },
            None => {
                assert(matches_of(next, par2_info@) == found);
            },
        }
        assert forall|k: int| 0 <= k < found.len() implies matches_of(next, par2_info@)[k]
            == found[k] by {}
        i += 1;
    }
    assert(scanned@.subrange(0, i as int) =~= scanned@);
    matched
}

fn collect_missing(scanned: &[ScannedFile], par2_info: &[(String, FilePar2Info)]) -> (missing: Vec<
    (String, Vec<u8>),
>)
    ensures
        missing_ok(missing@, scanned@, par2_info@),
{
    let mut missing: Vec<(String, Vec<u8>)> = Vec::new();
    let mut j: usize = 0;
    assert(par2_info@.subrange(0, 0) =~= Seq::<(String, FilePar2Info)>::empty());
    while j < par2_info.len()
        invariant
            j <= par2_info@.len(),
            missing@.len() == missing_rows(par2_info@.subrange(0, j as int), scanned@).len(),
            forall|k: int|
                0 <= k < missing@.len() ==> 0 <= (#[trigger] missing_rows(
                    par2_info@.subrange(0, j as int),
                    scanned@,
                )[k]) < j && names_row(
                    missing@[k],
                    par2_info@[missing_rows(par2_info@.subrange(0, j as int), scanned@)[k]],
                ),
        decreases par2_info@.len() - j,
    {
        let ghost next = par2_info@.subrange(0, j + 1);
        let ghost found = missing_rows(par2_info@.subrange(0, j as int), scanned@);
        assert(next.drop_last() =~= par2_info@.subrange(0, j as int));
        assert(next.last() == par2_info@[j as int]);
        if !is_scanned(scanned, par2_info[j].1.hash16k.as_slice()) {
            let ghost before = missing@;
            missing.push((par2_info[j].0.clone(), par2_info[j].1.hash16k.clone()));
            assert(missing_rows(next, scanned@) == found.push(j as int));
            assert forall|k: int| 0 <= k < before.len() implies #[trigger] missing@[k]
                == before[k] by {}
        } else {
            assert(missing_rows(next, scanned@) == found);
        }
        assert forall|k: int| 0 <= k < found.len() implies missing_rows(next, scanned@)[k]
            == found[k] by {}
        j += 1;
    }
    assert(par2_info@.subrange(0, j as int) =~= par2_info@);
    missing
}

/// Matches the files of a directory against the table of a recovery set.
///
/// A scanned file is matched when the table holds its fingerprint; it
/// gets the name of the last row of that fingerprint. A row is missing
/// when no scanned file has its fingerprint.
pub fn match_files_to_par2(scanned: &[ScannedFile], par2_info: &[(String, FilePar2Info)]) -> (r:
    MatchResult)
    ensures
        matched_ok(r.matched@, scanned@, par2_info@),
        missing_ok(r.missing@, scanned@, par2_info@),
{
    let matched = collect_matched(scanned, par2_info);
    let missing = collect_missing(scanned, par2_info);
    MatchResult { matched, missing }
}

} // verus!
