use nzb_streamer::vfs::group::archives_of;
use nzb_streamer::vfs::group::build_mappings;
use nzb_streamer::vfs::group::mapping_of_archive;
use nzb_streamer::vfs::group::MatchedFile;
use nzb_streamer::vfs::node::DirEntry;
use nzb_streamer::vfs::node::NodeAttr;
use nzb_streamer::vfs::FileMapping;
use nzb_streamer::vfs::MultiPartRarVfs;
use nzb_streamer::vfs::PartRead;

fn matched(path: &str, real_name: &str, size: u64) -> MatchedFile {
    MatchedFile { path: path.to_string(), real_name: real_name.to_string(), size }
}

fn directory() -> Vec<MatchedFile> {
    vec![
        matched("/d/x3", "show.r01", 30),
        matched("/d/x9", "other.rar", 7),
        matched("/d/x1", "show.rar", 10),
        matched("/d/x7", "notes.txt", 99),
        matched("/d/x2", "show.r00", 20),
        matched("/d/x8", "other.r00", 8),
    ]
}

fn shown() -> MultiPartRarVfs {
    MultiPartRarVfs::new("/d".to_string(), build_mappings(&directory()).unwrap())
}

fn file_attr(ino: u64, size: u64, blocks: u64) -> NodeAttr {
    NodeAttr { ino, size, blocks, directory: false, perm: 0o444, nlink: 1, blksize: 512 }
}

#[test]
fn archives_are_named_in_the_order_of_their_first_volumes() {
    assert_eq!(archives_of(&directory()), vec!["show".to_string(), "other".to_string()]);
    assert_eq!(archives_of(&[]), Vec::<String>::new());
    assert_eq!(archives_of(&[matched("a", "plain.txt", 1)]), Vec::<String>::new());
}

#[test]
fn volumes_of_an_archive_become_one_file() {
    assert_eq!(
        build_mappings(&directory()),
        Some(vec![
            FileMapping {
                real_name: "show.rar".to_string(),
                obfuscated_files: vec!["/d/x1".to_string(), "/d/x2".to_string(), "/d/x3".to_string()],
                total_size: 60,
                part_sizes: vec![10, 20, 30],
            },
            FileMapping {
                real_name: "other.rar".to_string(),
                obfuscated_files: vec!["/d/x9".to_string(), "/d/x8".to_string()],
                total_size: 15,
                part_sizes: vec![7, 8],
            },
        ])
    );
    assert_eq!(build_mappings(&[]), Some(Vec::new()));
}

#[test]
fn archive_without_volumes_is_an_empty_file() {
    assert_eq!(
        mapping_of_archive(&directory(), "absent"),
        Some(FileMapping {
            real_name: "absent.rar".to_string(),
            obfuscated_files: Vec::new(),
            total_size: 0,
            part_sizes: Vec::new(),
        })
    );
}

#[test]
fn archive_larger_than_64_bits_is_not_shown() {
    let files = vec![matched("a", "big.rar", u64::MAX), matched("b", "big.r00", 1)];
    assert_eq!(build_mappings(&files), None);
    assert_eq!(mapping_of_archive(&files, "big"), None);
    let fits = vec![matched("a", "big.rar", u64::MAX - 1), matched("b", "big.r00", 1)];
    assert_eq!(build_mappings(&fits).unwrap()[0].total_size, u64::MAX);
}

#[test]
fn names_are_looked_up_in_the_root_only() {
    let vfs = shown();
    assert_eq!(vfs.lookup(1, "show.rar"), Some(file_attr(2, 60, 1)));
    assert_eq!(vfs.lookup(1, "other.rar"), Some(file_attr(3, 15, 1)));
    assert_eq!(vfs.lookup(1, "show.r00"), None);
    assert_eq!(vfs.lookup(2, "show.rar"), None);
    assert_eq!(vfs.lookup(1, ""), None);
}

#[test]
fn nodes_are_described() {
    let vfs = shown();
    assert_eq!(
        vfs.getattr(1),
        Some(NodeAttr {
            ino: 1,
            size: 0,
            blocks: 0,
            directory: true,
            perm: 0o755,
            nlink: 2,
            blksize: 512
        })
    );
    assert_eq!(vfs.getattr(2), Some(file_attr(2, 60, 1)));
    assert_eq!(vfs.getattr(3), Some(file_attr(3, 15, 1)));
    assert_eq!(vfs.getattr(4), None);
    assert_eq!(vfs.getattr(0), None);
    assert_eq!(vfs.get_file_attr(9, 0), file_attr(9, 0, 0));
    assert_eq!(vfs.get_file_attr(9, 512), file_attr(9, 512, 1));
    assert_eq!(vfs.get_file_attr(9, 513), file_attr(9, 513, 2));
    assert_eq!(vfs.get_file_attr(9, u64::MAX), file_attr(9, u64::MAX, 36028797018963968));
}

#[test]
fn directory_is_listed_from_the_place_asked_for() {
    let vfs = shown();
    let dir = |offset: i64, name: &str| DirEntry {
        ino: 1,
        offset,
        directory: true,
        name: name.to_string(),
    };
    let file = |ino: u64, offset: i64, name: &str| DirEntry {
        ino,
        offset,
        directory: false,
        name: name.to_string(),
    };
    assert_eq!(
        vfs.readdir(1, 0),
        Some(vec![dir(1, "."), dir(2, ".."), file(2, 3, "show.rar"), file(3, 4, "other.rar")])
    );
    assert_eq!(
        vfs.readdir(1, 1),
        Some(vec![dir(2, ".."), file(2, 3, "show.rar"), file(3, 4, "other.rar")])
    );
    assert_eq!(vfs.readdir(1, 2), Some(vec![file(2, 3, "show.rar"), file(3, 4, "other.rar")]));
    assert_eq!(vfs.readdir(1, 3), Some(vec![file(3, 4, "other.rar")]));
    assert_eq!(vfs.readdir(1, 4), Some(Vec::new()));
    assert_eq!(vfs.readdir(1, usize::MAX), Some(Vec::new()));
    assert_eq!(vfs.readdir(2, 0), None);
}

#[test]
fn listing_goes_by_the_inodes() {
    let mut vfs = shown();
    vfs.inodes.swap(0, 1);
    let names: Vec<String> =
        vfs.readdir(1, 2).unwrap().into_iter().map(|e| e.name).collect();
    assert_eq!(names, vec!["show.rar".to_string(), "other.rar".to_string()]);
}

#[test]
fn shown_file_is_read_across_its_volumes() {
    let vfs = shown();
    assert_eq!(
        vfs.read(2, 5, 30),
        Some((
            0,
            vec![
                PartRead { part: 0, start: 5, length: 5 },
                PartRead { part: 1, start: 0, length: 20 },
                PartRead { part: 2, start: 0, length: 5 },
            ]
        ))
    );
    assert_eq!(vfs.read(3, 7, 100), Some((1, vec![PartRead { part: 1, start: 0, length: 8 }])));
    assert_eq!(vfs.read(3, 15, 100), Some((1, Vec::new())));
    assert_eq!(vfs.read(1, 0, 10), None);
    assert_eq!(vfs.read(9, 0, 10), None);
}
