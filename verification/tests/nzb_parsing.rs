use nzb_streamer::nzb::file::PostedFile;
use nzb_streamer::nzb::file::Segment;
use nzb_streamer::nzb::parser::classify;
use nzb_streamer::nzb::parser::classify_files;
use nzb_streamer::nzb::parser::FileClass;
use nzb_streamer::nzb::parser::NzbParser;

fn posted(subject: &str) -> PostedFile {
    PostedFile::new(subject.to_string(), vec![Segment::new(10, 1, "id".to_string())])
}

#[test]
fn test_empty_nzb() {
    let empty_nzb = r#"<?xml version="1.0" encoding="utf-8" ?>
<nzb xmlns="http://www.newzbin.com/DTD/2003/nzb">
</nzb>"#;

    let result = NzbParser::parse(empty_nzb);

    // Should fail validation due to no files
    assert!(result.is_err());
}

#[test]
fn test_invalid_xml() {
    let invalid_xml = "This is not XML at all";
    let result = NzbParser::parse(invalid_xml);

    assert!(result.is_err());
}

#[test]
fn manifest_files_are_sorted_into_classes() {
    let xml = r#"<?xml version="1.0" encoding="UTF-8"?>
<nzb xmlns="http://www.newzbin.com/DTD/2003/nzb">
  <file poster="someone" date="1706440708" subject="[1/4] - &quot;movie.r00&quot; yEnc (1/2)">
    <groups><group>alt.binaries.test</group></groups>
    <segments>
      <segment bytes="100" number="1">r00-1@example</segment>
      <segment bytes="50" number="2">r00-2@example</segment>
    </segments>
  </file>
  <file poster="someone" date="1706440708" subject="[2/4] - &quot;movie.par2&quot; yEnc (1/1)">
    <groups><group>alt.binaries.test</group></groups>
    <segments>
      <segment bytes="30" number="1">par2-1@example</segment>
    </segments>
  </file>
  <file poster="someone" date="1706440708" subject="[3/4] - &quot;movie.rar&quot; yEnc (1/1)">
    <groups><group>alt.binaries.test</group></groups>
    <segments>
      <segment bytes="70" number="1">rar-1@example</segment>
    </segments>
  </file>
  <file poster="someone" date="1706440708" subject="[4/4] - &quot;8f3a9c&quot; yEnc (1/1)">
    <groups><group>alt.binaries.test</group></groups>
    <segments>
      <segment bytes="20" number="1">obf-1@example</segment>
    </segments>
  </file>
</nzb>"#;
    let nzb = NzbParser::parse(xml).unwrap();
    assert_eq!(nzb.par2.len(), 1);
    assert_eq!(nzb.rar.len(), 2);
    assert_eq!(nzb.obfuscated.len(), 1);
    assert_eq!(nzb.par2[0].subject, "[2/4] - \"movie.par2\" yEnc (1/1)");
    assert_eq!(nzb.rar[0].subject, "[1/4] - \"movie.r00\" yEnc (1/2)");
    assert_eq!(nzb.rar[1].subject, "[3/4] - \"movie.rar\" yEnc (1/1)");
    assert_eq!(nzb.obfuscated[0].subject, "[4/4] - \"8f3a9c\" yEnc (1/1)");
    assert_eq!(
        nzb.rar[0].segments,
        vec![
            Segment::new(100, 1, "r00-1@example".to_string()),
            Segment::new(50, 2, "r00-2@example".to_string()),
        ]
    );
    assert_eq!(nzb.rar[0].size(), Some(150));
}

#[test]
fn subjects_are_classified_by_the_name_they_hold() {
    assert_eq!(classify("\"movie.par2\" yEnc (1/1)"), FileClass::Par2);
    assert_eq!(classify("\"movie.vol03+04.par2\""), FileClass::Par2);
    assert_eq!(classify("\"movie.rar\" yEnc"), FileClass::PlainRar);
    assert_eq!(classify("\"movie.r00\""), FileClass::PlainRar);
    assert_eq!(classify("\"movie.r153\""), FileClass::PlainRar);
    assert_eq!(classify("movie.r01 (1/5)"), FileClass::PlainRar);
    assert_eq!(classify("\"0a1b2c3d\""), FileClass::Obfuscated);
    assert_eq!(classify("\"movie.mkv\""), FileClass::Obfuscated);
    assert_eq!(classify("\"movie.PAR2\""), FileClass::Obfuscated);
    assert_eq!(classify(""), FileClass::Obfuscated);
    assert_eq!(classify("   "), FileClass::Obfuscated);
    assert_eq!(classify("\"\" movie.rar"), FileClass::Obfuscated);
}

#[test]
fn classes_keep_the_order_of_the_manifest() {
    let files = vec![
        posted("\"b.r01\""),
        posted("\"x1\""),
        posted("\"a.par2\""),
        posted("\"b.rar\""),
        posted("\"x2\""),
        posted("\"b.r00\""),
    ];
    let nzb = classify_files(files);
    let subjects = |v: &Vec<PostedFile>| -> Vec<String> {
        v.iter().map(|f| f.subject.clone()).collect()
    };
    assert_eq!(subjects(&nzb.par2), vec!["\"a.par2\""]);
    assert_eq!(subjects(&nzb.rar), vec!["\"b.r01\"", "\"b.rar\"", "\"b.r00\""]);
    assert_eq!(subjects(&nzb.obfuscated), vec!["\"x1\"", "\"x2\""]);
    let empty = classify_files(Vec::new());
    assert!(empty.par2.is_empty() && empty.rar.is_empty() && empty.obfuscated.is_empty());
}

#[test]
fn posted_file_sizes_add_up() {
    let f = PostedFile::new(
        "s".to_string(),
        vec![
            Segment::new(u32::MAX, 1, "a".to_string()),
            Segment::new(u32::MAX, 2, "b".to_string()),
            Segment::new(2, 3, "c".to_string()),
        ],
    );
    assert_eq!(f.size(), Some(8589934592));
    assert_eq!(PostedFile::new("s".to_string(), Vec::new()).size(), Some(0));
    assert_eq!(f.duplicate(), f);
    assert_eq!(f.segments[1].duplicate(), f.segments[1]);
}
