//! Values of the NNTP exchange: settings, responses, articles, the marker
//! lines of yEnc, and commands.
use crate::byteseq::find_subslice;
use crate::byteseq::lemma_first_match_from;
use crate::byteseq::matches_at;
use crate::text::chars_eq_str;
use crate::text::chars_of;
use crate::text::find_char;
use crate::text::find_word;
use crate::text::first_index;
use crate::text::has_prefix;
use crate::text::hex_unsigned_of;
use crate::text::next_word;
use crate::text::parse_decimal;
use crate::text::parse_hex;
use crate::text::starts_with_str;
use crate::text::str_eq;
use crate::text::string_of;
use crate::text::unsigned_of;
use vstd::prelude::*;
use vstd::slice::slice_subrange;
use vstd::string::StringExecFns;

verus! {

/// Settings of a connection to a news server.
#[derive(Debug, Clone, PartialEq, Eq)]
pub struct NntpConfig {
    pub host: String,
    pub port: u16,
    pub username: String,
    pub password: String,
    pub use_tls: bool,
    /// Seconds to wait for a connection.
    pub connection_timeout: u64,
    /// Seconds to wait for an answer.
    pub read_timeout: u64,
    pub max_connections: usize,
}

impl Default for NntpConfig {
    /// Settings for a server that is not named yet: the port of NNTP over
    /// TLS, thirty seconds to connect, sixty to read, five connections.
    fn default() -> (c: NntpConfig)
        ensures
            c.host@.len() == 0,
            c.port == 563,
            c.username@.len() == 0,
            c.password@.len() == 0,
            c.use_tls,
            c.connection_timeout == 30,
            c.read_timeout == 60,
            c.max_connections == 5,
    {
        NntpConfig {
            host: String::new(),
            port: 563,
            username: String::new(),
            password: String::new(),
            use_tls: true,
            connection_timeout: 30,
            read_timeout: 60,
            max_connections: 5,
        }
    }
}

/// The answer of the server to a command.
#[derive(Debug, Clone, PartialEq, Eq)]
pub struct NntpResponse {
    pub code: u16,
    pub message: String,
    pub lines: Vec<String>,
}

impl NntpResponse {
    /// An answer without further lines.
    pub fn new(code: u16, message: String) -> (r: NntpResponse)
        ensures
            r.code == code,
            r.message == message,
            r.lines@.len() == 0,
    {
        NntpResponse { code, message, lines: Vec::new() }
    }

    /// The answer with `lines` as its further lines.
    pub fn with_lines(self, lines: Vec<String>) -> (r: NntpResponse)
        ensures
            r.code == self.code,
            r.message == self.message,
            r.lines == lines,
    {
        let mut r = self;
        r.lines = lines;
        r
    }

    /// Whether the code reports success: it is below 400.
    pub fn is_success(&self) -> (b: bool)
        ensures
            b == (self.code < 400),
    {
        self.code < 400
    }

    /// Whether the code reports an error: it is 400 or more.
    pub fn is_error(&self) -> (b: bool)
        ensures
            b == (self.code >= 400),
    {
        self.code >= 400
    }
}

/// The value of the first header line named `name`.
pub open spec fn header_value(headers: Seq<(String, String)>, name: Seq<char>, from: int) -> Option<
    String,
>
    decreases headers.len() - from,
{
    if from < 0 || from >= headers.len() {
        None
    } else if headers[from].0@ == name {
        Some(headers[from].1)
    } else {
        header_value(headers, name, from + 1)
    }
}

/// `=ybegin`, as bytes.
pub open spec fn ybegin_bytes() -> Seq<u8> {
    seq![0x3Du8, 0x79u8, 0x62u8, 0x65u8, 0x67u8, 0x69u8, 0x6Eu8]
}

/// An article: its message id, its header lines and its body.
#[derive(Debug, Clone, PartialEq, Eq)]
pub struct Article {
    pub message_id: String,
    pub headers: Vec<(String, String)>,
    pub body: Vec<u8>,
}

/// Whether the marker `=ybegin` occurs in the body.
pub open spec fn holds_marker(body: Seq<u8>) -> bool {
    exists|i: int| #[trigger] matches_at(body, ybegin_bytes(), i)
}

impl Article {
    /// An article without header lines and with an empty body.
    pub fn new(message_id: String) -> (a: Article)
        ensures
            a.message_id == message_id,
            a.headers@.len() == 0,
            a.body@.len() == 0,
    {
        Article { message_id, headers: Vec::new(), body: Vec::new() }
    }

    /// The value of the first header line named `name`.
    pub fn header(&self, name: &str) -> (r: Option<&String>)
        ensures
            match r {
                Some(v) => header_value(self.headers@, name@, 0) == Some(*v),
                None => header_value(self.headers@, name@, 0) is None,
            },
    {
        let mut i: usize = 0;
        while i < self.headers.len()
            invariant
                i <= self.headers@.len(),
                header_value(self.headers@, name@, 0) == header_value(
                    self.headers@,
                    name@,
                    i as int,
                ),
            decreases self.headers@.len() - i,
        {
            if str_eq(self.headers[i].0.as_str(), name) {
                return Some(&self.headers[i].1);
            }
            i += 1;
        }
        None
    }

    /// The subject of the article.
    pub fn subject(&self) -> (r: Option<&String>)
        ensures
            match r {
                Some(v) => header_value(self.headers@, "Subject"@, 0) == Some(*v),
                None => header_value(self.headers@, "Subject"@, 0) is None,
            },
    {
        self.header("Subject")
    }

    /// Who posted the article.
    pub fn from(&self) -> (r: Option<&String>)
        ensures
            match r {
                Some(v) => header_value(self.headers@, "From"@, 0) == Some(*v),
                None => header_value(self.headers@, "From"@, 0) is None,
            },
    {
        self.header("From")
    }

    /// When the article was posted.
    pub fn date(&self) -> (r: Option<&String>)
        ensures
            match r {
                Some(v) => header_value(self.headers@, "Date"@, 0) == Some(*v),
                None => header_value(self.headers@, "Date"@, 0) is None,
            },
    {
        self.header("Date")
    }

    /// Whether the body holds a yEnc payload: the marker `=ybegin`
    /// occurs in it.
    pub fn is_yenc(&self) -> (b: bool)
        ensures
            b == holds_marker(self.body@),
    {
        let marker: Vec<u8> = vec![0x3Du8, 0x79u8, 0x62u8, 0x65u8, 0x67u8, 0x69u8, 0x6Eu8];
        assert(marker@ =~= ybegin_bytes());
        proof {
            lemma_first_match_from(self.body@, ybegin_bytes(), 0);
        }
        match find_subslice(self.body.as_slice(), marker.as_slice()) {
            Some(i) => {
                assert(matches_at(self.body@, ybegin_bytes(), i as int));
                true
            },
            None => {
                assert forall|k: int| !(#[trigger] matches_at(self.body@, ybegin_bytes(), k)) by {}
                false
            },
        }
    }
}

/// The `=ybegin` line of a yEnc payload.
#[derive(Debug, Clone, PartialEq, Eq)]
pub struct YencHeader {
    pub line: u32,
    pub size: u64,
    pub part: Option<u32>,
    pub total: Option<u32>,
    pub name: String,
    pub crc32: Option<u32>,
}

/// What a `=ybegin` line holds.
pub ghost struct YencHeaderView {
    pub line: u32,
    pub size: u64,
    pub part: Option<u32>,
    pub total: Option<u32>,
    pub name: Seq<char>,
    pub crc32: Option<u32>,
}

impl View for YencHeader {
    type V = YencHeaderView;

    open spec fn view(&self) -> YencHeaderView {
        YencHeaderView {
            line: self.line,
            size: self.size,
            part: self.part,
            total: self.total,
            name: self.name@,
            crc32: self.crc32,
        }
    }
}

/// A decimal number of at most 32 bits.
pub open spec fn decimal_u32(s: Seq<char>) -> Option<u32> {
    match unsigned_of(s, u32::MAX as nat) {
        Some(n) => Some(n as u32),
        None => None,
    }
}

/// A decimal number of at most 64 bits.
pub open spec fn decimal_u64(s: Seq<char>) -> Option<u64> {
    match unsigned_of(s, u64::MAX as nat) {
        Some(n) => Some(n as u64),
        None => None,
    }
}

/// A hexadecimal number of at most 32 bits.
pub open spec fn hex_u32(s: Seq<char>) -> Option<u32> {
    match hex_unsigned_of(s, u32::MAX as nat) {
        Some(n) => Some(n as u32),
        None => None,
    }
}

/// The key and the value of a word of the form `key=value`, split at its
/// first `=`.
pub open spec fn key_value(word: Seq<char>) -> Option<(Seq<char>, Seq<char>)> {
    match first_index(word, '=') {
        Some(eq) => Some((word.subrange(0, eq), word.subrange(eq + 1, word.len() as int))),
        None => None,
    }
}

/// The header with what the word `word` says put in. A line length that
/// cannot be read counts as 128, a size that cannot be read as 0.
pub open spec fn header_with(h: YencHeaderView, word: Seq<char>) -> YencHeaderView {
    match key_value(word) {
        None => h,
        Some((key, value)) => if key == "line"@ {
            YencHeaderView {
                line: match decimal_u32(value) {
                    Some(n) => n,
                    None => 128,
                },
                ..h
            }
        } else if key == "size"@ {
            YencHeaderView {
                size: match decimal_u64(value) {
                    Some(n) => n,
                    None => 0,
                },
                ..h
            }
        } else if key == "part"@ {
            YencHeaderView { part: decimal_u32(value), ..h }
        } else if key == "total"@ {
            YencHeaderView { total: decimal_u32(value), ..h }
        } else if key == "name"@ {
            YencHeaderView { name: value, ..h }
        } else if key == "crc32"@ {
            YencHeaderView { crc32: hex_u32(value), ..h }
        } else {
            h
        },
    }
}

/// The header after the words of `s` from `pos` on are put in one after
/// the other.
pub open spec fn header_from(s: Seq<char>, pos: int, h: YencHeaderView) -> YencHeaderView
    decreases s.len() - pos,
{
    match next_word(s, pos) {
        Some((start, end)) => if pos <= start < end <= s.len() {
            header_from(s, end, header_with(h, s.subrange(start, end)))
        } else {
            h
        },
        None => h,
    }
}

/// Where the first word of `s` ends.
pub open spec fn first_word_end(s: Seq<char>) -> int {
    match next_word(s, 0) {
        Some((_, end)) => end,
        None => s.len() as int,
    }
}

/// What a `=ybegin` line says: every word behind the first of the form
/// `key=value` sets the field of that name.
pub open spec fn yenc_header_of(line: Seq<char>) -> Option<YencHeaderView> {
    if !has_prefix(line, "=ybegin"@) {
        None
    } else {
        Some(
            header_from(
                line,
                first_word_end(line),
                YencHeaderView {
                    line: 128,
                    size: 0,
                    part: None,
                    total: None,
                    name: Seq::empty(),
                    crc32: None,
                },
            ),
        )
    }
}

fn to_u32(v: Option<u64>) -> (r: Option<u32>)
    requires
        v matches Some(n) ==> n <= u32::MAX,
    ensures
        r == match v {
            Some(n) => Some(n as u32),
            None => None,
        },
{
    match v {
        Some(n) => Some(n as u32),
        None => None,
    }
}

fn read_u32(value: &[char]) -> (r: Option<u32>)
    ensures
        r == decimal_u32(value@),
{
    to_u32(parse_decimal(value, 0xFFFF_FFFF))
}

fn read_hex_u32(value: &[char]) -> (r: Option<u32>)
    ensures
        r == hex_u32(value@),
{
    to_u32(parse_hex(value, 0xFFFF_FFFF))
}

fn read_u64(value: &[char]) -> (r: Option<u64>)
    ensures
        r == decimal_u64(value@),
{
    parse_decimal(value, u64::MAX)
}

fn split_key_value(word: &[char]) -> (r: Option<(&[char], &[char])>)
    ensures
        match r {
            Some((k, v)) => key_value(word@) == Some((k@, v@)),
            None => key_value(word@) is None,
        },
{
    let n: usize = word.len();
    match find_char(word, '=') {
        Some(eq) => {
            proof {
                crate::text::lemma_first_index_from(word@, '=', 0);
            }
            assert(eq < n);
            Some((slice_subrange(word, 0, eq), slice_subrange(word, eq + 1, word.len())))
        },
        None => None,
    }
}

impl YencHeader {
    fn set_field(&mut self, word: &[char])
        ensures
            final(self)@ == header_with(old(self)@, word@),
    {
        match split_key_value(word) {
            None => {},
            Some((key, value)) => {
                if chars_eq_str(key, "line") {
                    self.line = match read_u32(value) {
                        Some(n) => n,
                        None => 128,
                    };
                } else if chars_eq_str(key, "size") {
                    self.size = match read_u64(value) {
                        Some(n) => n,
                        None => 0,
                    };
                } else if chars_eq_str(key, "part") {
                    self.part = read_u32(value);
                } else if chars_eq_str(key, "total") {
                    self.total = read_u32(value);
                } else if chars_eq_str(key, "name") {
                    self.name = string_of(value);
                } else if chars_eq_str(key, "crc32") {
                    self.crc32 = read_hex_u32(value);
                }
            },
        }
    }

    /// Reads a `=ybegin` line; nothing for any other line.
    pub fn parse(line: &str) -> (r: Option<YencHeader>)
        ensures
            r.is_some() == yenc_header_of(line@).is_some(),
            r matches Some(h) ==> yenc_header_of(line@) == Some(h@),
    {
        let s = chars_of(line);
        if !starts_with_str(s.as_slice(), "=ybegin") {
            return None;
        }
        let mut header = YencHeader {
            line: 128,
            size: 0,
            part: None,
            total: None,
            name: String::new(),
            crc32: None,
        };
        let mut pos: usize = match find_word(s.as_slice(), 0) {
            Some((_, end)) => end,
            None => s.len(),
        };
        loop
            invariant
                pos <= s@.len(),
                s@ == line@,
                yenc_header_of(line@) == Some(header_from(s@, pos as int, header@)),
            decreases s@.len() - pos,
        {
            match find_word(s.as_slice(), pos) {
                None => {
                    return Some(header);
                },
                Some((start, end)) => {
                    header.set_field(slice_subrange(s.as_slice(), start, end));
                    pos = end;
                },
            }
        }
    }
}

/// The `=yend` line of a yEnc payload.
#[derive(Debug, Clone, PartialEq, Eq, Structural)]
pub struct YencFooter {
    pub size: u64,
    pub part: Option<u32>,
    /// Checksum of the part.
    pub pcrc32: Option<u32>,
    /// Checksum of the whole file.
    pub crc32: Option<u32>,
}

/// The footer with what the word `word` says put in. A size that cannot
/// be read counts as 0.
pub open spec fn footer_with(f: YencFooter, word: Seq<char>) -> YencFooter {
    match key_value(word) {
        None => f,
        Some((key, value)) => if key == "size"@ {
            YencFooter {
                size: match decimal_u64(value) {
                    Some(n) => n,
                    None => 0,
                },
                ..f
            }
        } else if key == "part"@ {
            YencFooter { part: decimal_u32(value), ..f }
        } else if key == "pcrc32"@ {
            YencFooter { pcrc32: hex_u32(value), ..f }
        } else if key == "crc32"@ {
            YencFooter { crc32: hex_u32(value), ..f }
        } else {
            f
        },
    }
}

/// The footer after the words of `s` from `pos` on are put in one after
/// the other.
pub open spec fn footer_from(s: Seq<char>, pos: int, f: YencFooter) -> YencFooter
    decreases s.len() - pos,
{
    match next_word(s, pos) {
        Some((start, end)) => if pos <= start < end <= s.len() {
            footer_from(s, end, footer_with(f, s.subrange(start, end)))
        } else {
            f
        },
        None => f,
    }
}

/// What a `=yend` line says: every word behind the first of the form
/// `key=value` sets the field of that name.
pub open spec fn yenc_footer_of(line: Seq<char>) -> Option<YencFooter> {
    if !has_prefix(line, "=yend"@) {
        None
    } else {
        Some(
            footer_from(
                line,
                first_word_end(line),
                YencFooter { size: 0, part: None, pcrc32: None, crc32: None },
            ),
        )
    }
}

impl YencFooter {
    fn set_field(&mut self, word: &[char])
        ensures
            *final(self) == footer_with(*old(self), word@),
    {
        match split_key_value(word) {
            None => {},
            Some((key, value)) => {
                if chars_eq_str(key, "size") {
                    self.size = match read_u64(value) {
                        Some(n) => n,
                        None => 0,
                    };
                } else if chars_eq_str(key, "part") {
                    self.part = read_u32(value);
                } else if chars_eq_str(key, "pcrc32") {
                    self.pcrc32 = read_hex_u32(value);
                } else if chars_eq_str(key, "crc32") {
                    self.crc32 = read_hex_u32(value);
                }
            },
        }
    }

    /// Reads a `=yend` line; nothing for any other line.
    pub fn parse(line: &str) -> (r: Option<YencFooter>)
        ensures
            r == yenc_footer_of(line@),
    {
        let s = chars_of(line);
        if !starts_with_str(s.as_slice(), "=yend") {
            return None;
        }
        let mut footer = YencFooter { size: 0, part: None, pcrc32: None, crc32: None };
        let mut pos: usize = match find_word(s.as_slice(), 0) {
            Some((_, end)) => end,
            None => s.len(),
        };
        loop
            invariant
                pos <= s@.len(),
                s@ == line@,
                yenc_footer_of(line@) == Some(footer_from(s@, pos as int, footer)),
            decreases s@.len() - pos,
        {
            match find_word(s.as_slice(), pos) {
                None => {
                    return Some(footer);
                },
                Some((start, end)) => {
                    footer.set_field(slice_subrange(s.as_slice(), start, end));
                    pos = end;
                },
            }
        }
    }
}

/// A command sent to the server.
#[derive(Debug, Clone, PartialEq, Eq)]
pub enum NntpCommand {
    Connect,
    Authenticate { username: String, password: String },
    ModeReader,
    Article { message_id: String },
    Body { message_id: String },
    Head { message_id: String },
    Quit,
}

impl NntpCommand {
    /// The text of the command as it goes over the wire.
    pub open spec fn spec_as_string(&self) -> Seq<char> {
        match self {
            NntpCommand::Connect => "CONNECT"@,
            NntpCommand::Authenticate { username, password } => "AUTHINFO USER "@ + username@
                + "\r\nAUTHINFO PASS "@ + password@,
            NntpCommand::ModeReader => "MODE READER"@,
            NntpCommand::Article { message_id } => "ARTICLE "@ + message_id@,
            NntpCommand::Body { message_id } => "BODY "@ + message_id@,
            NntpCommand::Head { message_id } => "HEAD "@ + message_id@,
            NntpCommand::Quit => "QUIT"@,
        }
    }

    /// Writes the command out.
    pub fn as_string(&self) -> (s: String)
        ensures
            s@ == self.spec_as_string(),
    {
        match self {
            NntpCommand::Connect => "CONNECT".to_owned(),
            NntpCommand::Authenticate { username, password } => {
                let mut s = "AUTHINFO USER ".to_owned();
                s.append(username.as_str());
                s.append("\r\nAUTHINFO PASS ");
                s.append(password.as_str());
                s
            },
            NntpCommand::ModeReader => "MODE READER".to_owned(),
            NntpCommand::Article { message_id } => {
                let mut s = "ARTICLE ".to_owned();
                s.append(message_id.as_str());
                s
            },
            NntpCommand::Body { message_id } => {
                let mut s = "BODY ".to_owned();
                s.append(message_id.as_str());
                s
            },
            NntpCommand::Head { message_id } => {
                let mut s = "HEAD ".to_owned();
                s.append(message_id.as_str());
                s
            },
            NntpCommand::Quit => "QUIT".to_owned(),
        }
    }
}

} // verus!
