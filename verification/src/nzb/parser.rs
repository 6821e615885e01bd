//! Reading a posting manifest and sorting its files into recovery files,
//! plain RAR volumes and obfuscated files.
use crate::archive::rar::rar_ext_of;
use crate::archive::rar::RarExt;
use crate::nntp::yenc::extract_filename;
use crate::nntp::yenc::filename_of;
use crate::nzb::error::NzbError;
use crate::nzb::file::PostedFile;
use crate::nzb::file::PostedFileView;
use crate::nzb::file::Segment;
use crate::text::chars_of;
use crate::text::ends_with_str;
use crate::text::has_suffix;
use vstd::prelude::*;

verus! {

/// What a posted file is taken for, by the name in its subject.
#[derive(Debug, Clone, Copy, PartialEq, Eq, Hash, Structural)]
pub enum FileClass {
    /// A PAR2 recovery file: the name ends in `.par2`.
    Par2,
    /// A RAR volume under its real name: `.rar`, `.r00`, `.r01`, …
    PlainRar,
    /// Anything else: the name tells nothing.
    Obfuscated,
}

/// The class of the posted file with the given subject.
pub open spec fn class_of(subject: Seq<char>) -> FileClass {
    match filename_of(subject) {
        None => FileClass::Obfuscated,
        Some(name) => if has_suffix(name, ".par2"@) {
            FileClass::Par2
        } else if rar_ext_of(name) is Some {
            FileClass::PlainRar
        } else {
            FileClass::Obfuscated
        },
    }
}

/// Tells what a posted file is by the name in its subject.
pub fn classify(subject: &str) -> (c: FileClass)
    ensures
        c == class_of(subject@),
{
    match extract_filename(subject) {
        None => FileClass::Obfuscated,
        Some(name) => {
            let chars = chars_of(name);
            if ends_with_str(chars.as_slice(), ".par2") {
                FileClass::Par2
            } else if RarExt::from_filename(name).is_some() {
                FileClass::PlainRar
            } else {
                FileClass::Obfuscated
            }
        },
    }
}

/// The files of `files` that are of class `class`, in their order.
pub open spec fn files_of_class(files: Seq<PostedFileView>, class: FileClass) -> Seq<
    PostedFileView,
>
    decreases files.len(),
{
    if files.len() == 0 {
        Seq::empty()
    } else if class_of(files.last().subject) == class {
        files_of_class(files.drop_last(), class).push(files.last())
    } else {
        files_of_class(files.drop_last(), class)
    }
}

/// The files of a manifest, by class.
#[derive(Debug, Clone, PartialEq, Eq)]
pub struct Nzb {
    pub par2: Vec<PostedFile>,
    pub rar: Vec<PostedFile>,
    pub obfuscated: Vec<PostedFile>,
}

/// The views of posted files.
pub open spec fn files_view(files: Seq<PostedFile>) -> Seq<PostedFileView> {
    files.map_values(|f: PostedFile| f@)
}

impl Nzb {
    /// The manifest holds exactly the files `files`, each under its
    /// class and in the order of `files`.
    pub open spec fn holds(&self, files: Seq<PostedFileView>) -> bool {
        &&& files_view(self.par2@) == files_of_class(files, FileClass::Par2)
        &&& files_view(self.rar@) == files_of_class(files, FileClass::PlainRar)
        &&& files_view(self.obfuscated@) == files_of_class(files, FileClass::Obfuscated)
    }
}

/// Sorts the files of a manifest into the three classes; within a class
/// they keep the order of the manifest.
pub fn classify_files(files: Vec<PostedFile>) -> (nzb: Nzb)
    ensures
        nzb.holds(files_view(files@)),
{
    let ghost all = files_view(files@);
    let mut par2: Vec<PostedFile> = Vec::new();
    let mut rar: Vec<PostedFile> = Vec::new();
    let mut obfuscated: Vec<PostedFile> = Vec::new();
    let mut i: usize = 0;
    assert(all.subrange(0, 0) =~= Seq::<PostedFileView>::empty());
    assert(files_view(par2@) =~= Seq::<PostedFileView>::empty());
    assert(files_view(rar@) =~= Seq::<PostedFileView>::empty());
    assert(files_view(obfuscated@) =~= Seq::<PostedFileView>::empty());
    while i < files.len()
        invariant
            i <= files@.len(),
            all == files_view(files@),
            files_view(par2@) == files_of_class(all.subrange(0, i as int), FileClass::Par2),
            files_view(rar@) == files_of_class(all.subrange(0, i as int), FileClass::PlainRar),
            files_view(obfuscated@) == files_of_class(
                all.subrange(0, i as int),
                FileClass::Obfuscated,
            ),
        decreases files@.len() - i,
    {
        let ghost next = all.subrange(0, i + 1);
        assert(next.drop_last() =~= all.subrange(0, i as int));
        assert(next.last() == files@[i as int]@);
        let file = files[i].duplicate();
        let ghost fv = file@;
        match classify(file.subject.as_str()) {
            FileClass::Par2 => {
                let ghost before = files_view(par2@);
                par2.push(file);
                assert(files_view(par2@) =~= before.push(fv));
            },
            FileClass::PlainRar => {
                let ghost before = files_view(rar@);
                rar.push(file);
                assert(files_view(rar@) =~= before.push(fv));
            },
            FileClass::Obfuscated => {
                let ghost before = files_view(obfuscated@);
                obfuscated.push(file);
                assert(files_view(obfuscated@) =~= before.push(fv));
            },
        }
        i += 1;
    }
    assert(all.subrange(0, i as int) =~= all);
    Nzb { par2, rar, obfuscated }
}

/// The files that `nzb_rs` reads from the text of a manifest, or nothing
/// where it refuses the text.
pub uninterp spec fn nzb_document(content: Seq<char>) -> Option<Seq<PostedFileView>>;

/// Reads the files of a manifest with `nzb_rs::Nzb::parse` and copies,
/// of every file, the subject and the segments. What comes back depends
/// on the text alone.
#[verifier::external_body]
pub(crate) fn parse_document(content: &str) -> (r: Result<Vec<PostedFile>, nzb_rs::ParseNzbError>)
    ensures
        match r {
            Ok(files) => nzb_document(content@) == Some(files_view(files@)),
            Err(_) => nzb_document(content@) is None,
        },
{
    let raw = nzb_rs::Nzb::parse(content)?;
    let mut files = Vec::new();
    for f in raw.files {
        let mut segments = Vec::new();
        for s in f.segments {
            segments.push(Segment { size: s.size, number: s.number, message_id: s.message_id });
        }
        files.push(PostedFile { subject: f.subject, segments });
    }
    Ok(files)
}

/// The reader of posting manifests.
#[derive(Debug, Clone, Copy, PartialEq, Eq)]
pub struct NzbParser;

impl NzbParser {
    /// Reads a manifest and sorts its files by class. Fails exactly where
    /// the text is no manifest that can be read.
    pub fn parse(content: &str) -> (r: Result<Nzb, NzbError>)
        ensures
            match nzb_document(content@) {
                Some(files) => r matches Ok(nzb) && nzb.holds(files),
                None => r is Err,
            },
    {
        match parse_document(content) {
            Ok(files) => Ok(classify_files(files)),
            Err(e) => Err(NzbError::Parsing(e)),
        }
    }
}

} // verus!
