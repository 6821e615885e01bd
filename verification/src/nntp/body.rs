//! Reading the answer to a `BODY` command line by line: the status line
//! that announces the body, the line of a single dot that ends it, and
//! the dot that is put before the lines that begin with one.
use crate::byteseq::bytes_eq;
use crate::byteseq::matches_at;
use crate::byteseq::occurs_at;
use vstd::prelude::*;
use vstd::slice::slice_subrange;

verus! {

/// The dot.
pub const DOT: u8 = 0x2E;

/// `222`, the status that announces a body.
pub open spec fn body_follows() -> Seq<u8> {
    seq![0x32u8, 0x32u8, 0x32u8]
}

/// `..`
pub open spec fn two_dots() -> Seq<u8> {
    seq![DOT, DOT]
}

/// `.\r\n`, the line that ends a body.
pub open spec fn end_line() -> Seq<u8> {
    seq![DOT, 0x0Du8, 0x0Au8]
}

/// Whether a status line announces a body: it begins with `222`.
pub open spec fn body_announced(status: Seq<u8>) -> bool {
    matches_at(status, body_follows(), 0)
}

/// Tells whether a status line announces a body.
pub fn is_body_status(status: &[u8]) -> (b: bool)
    ensures
        b == body_announced(status@),
{
    let code: Vec<u8> = vec![0x32u8, 0x32u8, 0x32u8];
    assert(code@ =~= body_follows());
    occurs_at(status, code.as_slice(), 0)
}

/// What a line of the answer is: the end of the body, or bytes of it.
#[derive(Debug, Clone, PartialEq, Eq)]
pub enum BodyLine {
    End,
    Data(Vec<u8>),
}

/// What a line of the answer holds.
pub ghost enum BodyLineView {
    End,
    Data(Seq<u8>),
}

impl View for BodyLine {
    type V = BodyLineView;

    open spec fn view(&self) -> BodyLineView {
        match self {
            BodyLine::End => BodyLineView::End,
            BodyLine::Data(bytes) => BodyLineView::Data(bytes@),
        }
    }
}

/// What the line `line` of the answer is, as it was read up to and with
/// its line feed. Nothing read, which is the end of the input, and the
/// line of a single dot end the body. Of a line that begins with two
/// dots the first was put there by the sender and is left out. Every
/// other line is part of the body as it is.
pub open spec fn body_line_of(line: Seq<u8>) -> BodyLineView {
    if line.len() == 0 || line == end_line() {
        BodyLineView::End
    } else if matches_at(line, two_dots(), 0) {
        BodyLineView::Data(line.subrange(1, line.len() as int))
    } else {
        BodyLineView::Data(line)
    }
}

/// Reads one line of the answer.
pub fn body_line(line: &[u8]) -> (r: BodyLine)
    ensures
        r@ == body_line_of(line@),
{
    let end: Vec<u8> = vec![DOT, 0x0Du8, 0x0Au8];
    assert(end@ =~= end_line());
    let dots: Vec<u8> = vec![DOT, DOT];
    assert(dots@ =~= two_dots());
    let n: usize = line.len();
    if n == 0 || bytes_eq(line, end.as_slice()) {
        return BodyLine::End;
    }
    let from: usize = if occurs_at(line, dots.as_slice(), 0) {
        1
    } else {
        0
    };
    assert(line@.subrange(0, n as int) =~= line@);
    let mut bytes: Vec<u8> = Vec::new();
    bytes.extend_from_slice(slice_subrange(line, from, n));
    assert(bytes@ =~= line@.subrange(from as int, n as int));
    BodyLine::Data(bytes)
}

/// A line of a body as it is sent: with a dot before it, where it begins
/// with a dot.
pub open spec fn stuffed(line: Seq<u8>) -> Seq<u8> {
    if line.len() > 0 && line[0] == DOT {
        seq![DOT] + line
    } else {
        line
    }
}

/// What is sent of a line of a body is read back as that line: no line
/// of a body is taken for its end.
pub proof fn lemma_stuffed_line_is_read_back(line: Seq<u8>)
    requires
        line.len() > 0,
    ensures
        body_line_of(stuffed(line)) == BodyLineView::Data(line),
{
    let sent = stuffed(line);
    if line[0] == DOT {
        assert(sent.subrange(0, 2) =~= two_dots());
        assert(sent.subrange(1, sent.len() as int) =~= line);
        assert(sent != end_line()) by {
            if sent.len() == 3 {
                assert(sent[1] == DOT);
                assert(end_line()[1] == 0x0Du8);
            }
        }
    } else {
        assert(sent != end_line()) by {
            assert(end_line()[0] == DOT);
        }
        if matches_at(sent, two_dots(), 0) {
            assert(sent.subrange(0, 2)[0] == sent[0]);
        }
    }
}

} // verus!
