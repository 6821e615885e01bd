use md5::Digest;
use md5::Md5;
use nzb_streamer::nntp::client::body_argument;
use nzb_streamer::nntp::client::decode_article;
use nzb_streamer::nntp::yenc::compute_hash16k;
use nzb_streamer::nntp::yenc::decode_buffer;
use nzb_streamer::nntp::yenc::encode_buffer;
use nzb_streamer::nntp::yenc::extract_filename;
use nzb_streamer::nntp::yenc::extract_yenc_data;
use nzb_streamer::nntp::yenc::strip_carriage_return;
use nzb_streamer::nntp::yenc::trim_line_endings;
use nzb_streamer::par2::hash::compute_hash16k_from_bytes;

#[test]
fn every_byte_survives_the_round_trip() {
    let all: Vec<u8> = (0..=255u8).collect();
    let encoded = encode_buffer(&all);
    assert_eq!(decode_buffer(&encoded), all);
    for b in 0..=255u8 {
        assert_eq!(decode_buffer(&encode_buffer(&[b])), vec![b]);
    }
    assert_eq!(decode_buffer(&encode_buffer(&[])), Vec::<u8>::new());
}

#[test]
fn long_data_survives_the_round_trip() {
    let mut data = Vec::new();
    for i in 0..5000u32 {
        data.push((i.wrapping_mul(31).wrapping_add(i >> 3) % 256) as u8);
    }
    let encoded = encode_buffer(&data);
    assert!(encoded.len() > data.len());
    assert!(encoded.split(|&b| b == b'\n').all(|line| line.len() <= 130));
    assert_eq!(decode_buffer(&encoded), data);
}

#[test]
fn encoding_shifts_and_escapes() {
    assert_eq!(encode_buffer(&[]), Vec::<u8>::new());
    assert_eq!(encode_buffer(&[0]), vec![42, b'\r', b'\n']);
    assert_eq!(encode_buffer(b"a"), vec![139, b'\r', b'\n']);
    // 214 + 42 wraps to 0, which is escaped as '=' '@'
    assert_eq!(encode_buffer(&[214]), vec![b'=', 64, b'\r', b'\n']);
    // 224 + 42 wraps to 10, the line feed
    assert_eq!(encode_buffer(&[224]), vec![b'=', 74, b'\r', b'\n']);
    // 227 + 42 wraps to 13, the carriage return
    assert_eq!(encode_buffer(&[227]), vec![b'=', 77, b'\r', b'\n']);
    // 19 + 42 is 61, the escape character itself
    assert_eq!(encode_buffer(&[19]), vec![b'=', 125, b'\r', b'\n']);
    assert_eq!(encode_buffer(&[255, 1]), vec![41, 43, b'\r', b'\n']);
}

#[test]
fn encoder_breaks_lines_at_128_characters() {
    let data = vec![1u8; 300];
    let encoded = encode_buffer(&data);
    let mut expected = Vec::new();
    expected.extend(std::iter::repeat(43u8).take(128));
    expected.extend_from_slice(b"\r\n");
    expected.extend(std::iter::repeat(43u8).take(128));
    expected.extend_from_slice(b"\r\n");
    expected.extend(std::iter::repeat(43u8).take(44));
    expected.extend_from_slice(b"\r\n");
    assert_eq!(encoded, expected);
    // an escape pair is never split: the line grows to 129 characters
    let mut data = vec![1u8; 127];
    data.push(214);
    data.push(1);
    let encoded = encode_buffer(&data);
    assert_eq!(&encoded[127..133], &[b'=', 64, b'\r', b'\n', 43, b'\r']);
    let exact = encode_buffer(&vec![1u8; 128]);
    assert_eq!(exact.len(), 130);
}

#[test]
fn decoding_follows_the_escape_rule() {
    assert_eq!(decode_buffer(&[]), Vec::<u8>::new());
    assert_eq!(decode_buffer(&[42]), vec![0]);
    assert_eq!(decode_buffer(&[41]), vec![255]);
    assert_eq!(decode_buffer(&[0]), vec![214]);
    assert_eq!(decode_buffer(b"=@"), vec![214]);
    assert_eq!(decode_buffer(b"=}"), vec![19]);
    assert_eq!(decode_buffer(&[b'=', 0]), vec![150]);
    assert_eq!(decode_buffer(&[b'=', 105]), vec![255]);
    assert_eq!(decode_buffer(&[b'=', 106]), vec![0]);
    // line terminators are passed over
    assert_eq!(decode_buffer(b"\r\n\r\n"), Vec::<u8>::new());
    assert_eq!(decode_buffer(&[43, b'\r', b'\n', 44, b'\n', 45, b'\r']), vec![1, 2, 3]);
    // an escape character at the very end gives nothing
    assert_eq!(decode_buffer(&[43, b'=']), vec![1]);
    // the byte behind an escape character is taken as it is
    assert_eq!(decode_buffer(&[b'=', b'\n', 43]), vec![160, 1]);
    assert_eq!(decode_buffer(b"=="), vec![211]);
}

#[test]
fn payload_lines_are_taken_out_of_the_article() {
    let article = b"=ybegin part=1 line=128 size=6 name=a.bin\r\n=ypart begin=1 end=6\r\nabc\r\ndef\r\n=yend size=6\r\n";
    assert_eq!(extract_yenc_data(article), b"abcdef".to_vec());
    assert_eq!(
        extract_yenc_data(b"=ybegin line=128 size=3 name=a\r\nabc\r\n=yend size=3\r\n"),
        b"abc".to_vec()
    );
    // only the carriage return before the line feed goes
    assert_eq!(extract_yenc_data(b"=ybegin\r\na\rb\r\r\n\r\nc\r"), b"a\rb\rc".to_vec());
    assert_eq!(decode_buffer(&extract_yenc_data(article)), vec![55, 56, 57, 58, 59, 60]);
    assert_eq!(decode_article(article), vec![55, 56, 57, 58, 59, 60]);
}

#[test]
fn lines_outside_the_markers_are_dropped() {
    assert_eq!(extract_yenc_data(b""), Vec::<u8>::new());
    assert_eq!(extract_yenc_data(b"abc\ndef"), Vec::<u8>::new());
    assert_eq!(extract_yenc_data(b"head\n=ybegin x\nabc\n=yend\ntail\n"), b"abc".to_vec());
    assert_eq!(extract_yenc_data(b"=ybegin\nabc"), b"abc".to_vec());
    assert_eq!(extract_yenc_data(b"=ybegin\n\n\nabc\n"), b"abc".to_vec());
    assert_eq!(extract_yenc_data(b"=ypart\nabc\n=yend\nxyz\n=ybegin\ndef"), b"abcdef".to_vec());
    // a marker is a marker wherever it stands
    assert_eq!(extract_yenc_data(b"=ybegin\nab\n=ybegin\ncd\n"), b"abcd".to_vec());
    // a marker must open the line
    assert_eq!(extract_yenc_data(b"=ybegin\n =yend\nab\n"), b" =yendab".to_vec());
}

#[test]
fn round_trip_through_an_article() {
    let data: Vec<u8> = (0..=255u8).cycle().take(1000).collect();
    let mut article = b"=ybegin line=128 size=1000 name=x\r\n".to_vec();
    article.extend(encode_buffer(&data));
    article.extend_from_slice(b"=yend size=1000\r\n");
    assert_eq!(decode_article(&article), data);
}

#[test]
fn line_endings_are_trimmed() {
    assert_eq!(trim_line_endings(b"abc\r\n"), b"abc");
    assert_eq!(trim_line_endings(b"abc\n"), b"abc");
    assert_eq!(trim_line_endings(b"abc\r"), b"abc\r");
    assert_eq!(trim_line_endings(b"abc"), b"abc");
    assert_eq!(trim_line_endings(b"\r\n"), b"");
    assert_eq!(trim_line_endings(b"\n"), b"");
    assert_eq!(trim_line_endings(b""), b"");
    assert_eq!(trim_line_endings(b"a\n\n"), b"a\n");
    assert_eq!(trim_line_endings(b"a\n\r\n"), b"a\n");
    assert_eq!(strip_carriage_return(b"abc\r"), b"abc");
    assert_eq!(strip_carriage_return(b"abc\r\r"), b"abc\r");
    assert_eq!(strip_carriage_return(b"abc"), b"abc");
    assert_eq!(strip_carriage_return(b"\r"), b"");
    assert_eq!(strip_carriage_return(b""), b"");
}

#[test]
fn file_name_is_read_from_the_subject() {
    assert_eq!(extract_filename("[1/3] - \"movie.r00\" yEnc (1/50)"), Some("movie.r00"));
    assert_eq!(extract_filename("\"a b.rar\""), Some("a b.rar"));
    assert_eq!(extract_filename("\"\" rest"), Some(""));
    assert_eq!(extract_filename("one \"two\" \"three\""), Some("two"));
    assert_eq!(extract_filename("movie.rar yEnc (1/5)"), Some("movie.rar"));
    assert_eq!(extract_filename("  \t movie.rar  "), Some("movie.rar"));
    assert_eq!(extract_filename("single\"quote here"), Some("single\"quote"));
    assert_eq!(extract_filename("\u{a0}caf\u{e9}\u{2003}x"), Some("caf\u{e9}"));
    assert_eq!(extract_filename(""), None);
    assert_eq!(extract_filename(" \n\t "), None);
}

#[test]
fn fingerprint_is_the_md5_of_the_first_16_kib() {
    assert_eq!(
        compute_hash16k(b""),
        vec![0xd4, 0x1d, 0x8c, 0xd9, 0x8f, 0x00, 0xb2, 0x04, 0xe9, 0x80, 0x09, 0x98, 0xec, 0xf8, 0x42, 0x7e]
    );
    assert_eq!(
        compute_hash16k(b"abc"),
        vec![144, 1, 80, 152, 60, 210, 79, 176, 214, 150, 63, 125, 40, 225, 127, 114]
    );
    let long = vec![b'a'; 20000];
    let cut = vec![9, 180, 124, 240, 124, 157, 14, 165, 137, 224, 226, 170, 125, 13, 53, 80];
    assert_eq!(compute_hash16k(&long), cut);
    assert_eq!(compute_hash16k(&long[..16384]), cut);
    assert_eq!(compute_hash16k(&long[..16385]), cut);
    assert_ne!(compute_hash16k(&long[..16383]), cut);
    assert_eq!(compute_hash16k(&long), Md5::digest(&long[..16384]).to_vec());
    assert_eq!(compute_hash16k_from_bytes(&long), cut);
    assert_eq!(compute_hash16k(&long).len(), 16);
}

#[test]
fn body_command_takes_the_id_in_brackets() {
    assert_eq!(body_argument("abc@example"), "<abc@example>");
    assert_eq!(body_argument(""), "<>");
}
