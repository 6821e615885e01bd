//! Articles as they are posted: a yEnc payload between its marker lines.
//!
//! What is proved here ties the parts together: the payload that is taken
//! out of a posted article and decoded is the data that was encoded into
//! it.
use crate::byteseq::matches_at;
use crate::nntp::yenc::CR;
use crate::nntp::yenc::ESCAPE;
use crate::nntp::yenc::LF;
use crate::nntp::yenc::body_after;
use crate::nntp::yenc::encode_unit;
use crate::nntp::yenc::line_end;
use crate::nntp::yenc::line_payload;
use crate::nntp::yenc::payload_from;
use crate::nntp::yenc::line_body;
use crate::nntp::yenc::ybegin_marker;
use crate::nntp::yenc::yenc_decode;
use crate::nntp::yenc::yenc_encode;
use crate::nntp::yenc::yenc_encode_from;
use crate::nntp::yenc::yenc_payload;
use crate::nntp::yenc::yend_marker;
use crate::nntp::yenc::ypart_marker;
use vstd::prelude::*;

verus! {

/// No byte of `s` is a line feed.
pub open spec fn one_line(s: Seq<u8>) -> bool {
    forall|i: int| 0 <= i < s.len() ==> s[i] != LF
}

/// Whether a line is one of the three marker lines.
pub open spec fn is_marker(line: Seq<u8>) -> bool {
    matches_at(line, ybegin_marker(), 0) || matches_at(line, ypart_marker(), 0) || matches_at(
        line,
        yend_marker(),
        0,
    )
}

/// The encoded forms of `data`, one behind the other, without line
/// breaks.
pub open spec fn units(data: Seq<u8>) -> Seq<u8>
    decreases data.len(),
{
    if data.len() == 0 {
        Seq::empty()
    } else {
        units(data.drop_last()) + encode_unit(data.last())
    }
}

/// A posted article: the `=ybegin` line `head`, the encoded payload of
/// `data`, and the `=yend` line `foot`, each line ended by a line feed.
pub open spec fn posted_article(head: Seq<u8>, data: Seq<u8>, foot: Seq<u8>) -> Seq<u8> {
    head + seq![LF] + yenc_encode(data) + foot + seq![LF]
}

proof fn lemma_line_end_within(line: Seq<u8>, rest: Seq<u8>, k: int)
    requires
        one_line(line),
        0 <= k <= line.len(),
    ensures
        line_end(line + seq![LF] + rest, k) == line.len(),
    decreases line.len() - k,
{
    let a = line + seq![LF] + rest;
    if k < line.len() {
        assert(a[k] == line[k]);
        lemma_line_end_within(line, rest, k + 1);
    } else {
        assert(a[k] == LF);
    }
}

proof fn lemma_line_end_last(line: Seq<u8>, k: int)
    requires
        one_line(line),
        0 <= k <= line.len(),
    ensures
        line_end(line, k) == line.len(),
    decreases line.len() - k,
{
    if k < line.len() {
        lemma_line_end_last(line, k + 1);
    }
}

proof fn lemma_line_end_shift(p: Seq<u8>, r: Seq<u8>, k: int)
    requires
        0 <= k <= r.len(),
    ensures
        line_end(p + r, p.len() + k) == p.len() + line_end(r, k),
    decreases r.len() - k,
{
    let a = p + r;
    if k < r.len() {
        assert(a[p.len() + k] == r[k]);
        if r[k] != LF {
            lemma_line_end_shift(p, r, k + 1);
        }
    }
}

proof fn lemma_payload_shift(p: Seq<u8>, r: Seq<u8>, k: int, in_body: bool)
    requires
        0 <= k <= r.len(),
    ensures
        payload_from(p + r, p.len() + k, in_body) == payload_from(r, k, in_body),
    decreases r.len() - k,
{
    let a = p + r;
    lemma_line_end_shift(p, r, k);
    crate::nntp::yenc::lemma_line_end(r, k);
    let end = line_end(r, k);
    assert(a.subrange(p.len() + k, p.len() + end) =~= r.subrange(k, end));
    if end < r.len() {
        lemma_payload_shift(p, r, end + 1, body_after(r.subrange(k, end), in_body));
    }
}

/// The payload of a line and what follows it is the payload of the line
/// and then that of what follows.
proof fn lemma_payload_line(line: Seq<u8>, rest: Seq<u8>, in_body: bool)
    requires
        one_line(line),
    ensures
        payload_from(line + seq![LF] + rest, 0, in_body) == line_payload(line, in_body)
            + payload_from(rest, 0, body_after(line, in_body)),
{
    let a = line + seq![LF] + rest;
    lemma_line_end_within(line, rest, 0);
    assert(a.subrange(0, line.len() as int) =~= line);
    lemma_payload_shift(line + seq![LF], rest, 0, body_after(line, in_body));
    assert((line + seq![LF]).len() == line.len() + 1);
}

/// The payload of a last line without a line feed is that of the line.
proof fn lemma_payload_last(line: Seq<u8>, in_body: bool)
    requires
        one_line(line),
    ensures
        payload_from(line, 0, in_body) == line_payload(line, in_body),
{
    lemma_line_end_last(line, 0);
    assert(line.subrange(0, line.len() as int) =~= line);
}

proof fn lemma_units_push(data: Seq<u8>, b: u8)
    ensures
        units(data.push(b)) == units(data) + encode_unit(b),
{
    assert(data.push(b).drop_last() =~= data);
}

/// Encoded forms hold no line feed and do not begin like a marker.
proof fn lemma_units_plain(data: Seq<u8>)
    ensures
        one_line(units(data)),
        data.len() > 0 ==> units(data).len() > 0,
        units(data).len() >= 2 ==> !(units(data)[0] == ESCAPE && units(data)[1] == 0x79),
        units(data).len() == 1 ==> units(data)[0] != ESCAPE,
    decreases data.len(),
{
    if data.len() > 0 {
        let head = data.drop_last();
        lemma_units_plain(head);
        let u = encode_unit(data.last());
        let all = units(data);
        assert(all =~= units(head) + u);
        assert forall|i: int| 0 <= i < all.len() implies all[i] != LF by {
            if i < units(head).len() {
                assert(all[i] == units(head)[i]);
            } else {
                assert(all[i] == u[i - units(head).len()]);
            }
        }
        if head.len() == 0 {
            assert(units(head) =~= Seq::<u8>::empty());
            assert(all =~= u);
        } else {
            assert(all[0] == units(head)[0]);
            if units(head).len() >= 2 {
                assert(all[1] == units(head)[1]);
            } else {
                assert(all[1] == u[0]);
            }
        }
    }
}

/// Decoding encoded forms in front of a payload gives the data back,
/// and then what the payload stands for.
proof fn lemma_decode_units(data: Seq<u8>, rest: Seq<u8>)
    ensures
        yenc_decode(units(data) + rest) == data + yenc_decode(rest),
    decreases data.len(),
{
    if data.len() == 0 {
        assert(units(data) + rest =~= rest);
        assert(data + yenc_decode(rest) =~= yenc_decode(rest));
    } else {
        let head = data.drop_last();
        let u = encode_unit(data.last());
        crate::nntp::yenc::lemma_decode_unit(data.last(), rest);
        lemma_decode_units(head, u + rest);
        assert(units(data) + rest =~= units(head) + (u + rest));
        assert(head + (seq![data.last()] + yenc_decode(rest)) =~= data + yenc_decode(rest));
    }
}

/// A line that begins with encoded forms is no marker line.
proof fn lemma_not_marker(data: Seq<u8>, tail: Seq<u8>)
    requires
        data.len() > 0 || (tail.len() > 0 && tail[0] != ESCAPE),
    ensures
        !is_marker(units(data) + tail),
{
    lemma_units_plain(data);
    let line = units(data) + tail;
    let u = units(data);
    if data.len() > 0 {
        assert(line[0] == u[0]);
        if u.len() >= 2 {
            assert(line[1] == u[1]);
        }
    } else {
        assert(u =~= Seq::<u8>::empty());
        assert(line[0] == tail[0]);
    }
    if matches_at(line, ybegin_marker(), 0) {
        assert(line.subrange(0, 7)[0] == line[0]);
        assert(line.subrange(0, 7)[1] == line[1]);
    }
    if matches_at(line, ypart_marker(), 0) {
        assert(line.subrange(0, 6)[0] == line[0]);
        assert(line.subrange(0, 6)[1] == line[1]);
    }
    if matches_at(line, yend_marker(), 0) {
        assert(line.subrange(0, 5)[0] == line[0]);
        assert(line.subrange(0, 5)[1] == line[1]);
    }
}

/// The payload of encoded lines in the body of an article, up to the
/// `=yend` line, stands for the data that was encoded.
proof fn lemma_body_round_trip(done: Seq<u8>, data: Seq<u8>, col: int, foot: Seq<u8>)
    requires
        one_line(foot),
        matches_at(foot, yend_marker(), 0),
        col == 0 <==> done.len() == 0,
        col >= 0,
    ensures
        yenc_decode(
            payload_from(units(done) + yenc_encode_from(data, col) + foot + seq![LF], 0, true),
        ) == done + data,
    decreases data.len(),
{
    let article = units(done) + yenc_encode_from(data, col) + foot + seq![LF];
    lemma_units_plain(done);
    if data.len() == 0 {
        if col > 0 {
            let line = units(done) + seq![CR];
            assert(article =~= line + seq![LF] + (foot + seq![LF]));
            assert(one_line(line)) by {
                assert forall|i: int| 0 <= i < line.len() implies line[i] != LF by {
                    if i < units(done).len() {
                        assert(line[i] == units(done)[i]);
                    }
                }
            }
            lemma_payload_line(line, foot + seq![LF], true);
            lemma_not_marker(done, seq![CR]);
            lemma_foot(foot, true);
            assert(line_body(line) =~= units(done));
            assert(payload_from(article, 0, true) =~= units(done) + Seq::<u8>::empty());
            lemma_decode_units(done, Seq::empty());
            assert(yenc_decode(Seq::<u8>::empty()) =~= Seq::<u8>::empty());
            assert(done + Seq::<u8>::empty() =~= done + data);
        } else {
            assert(units(done) =~= Seq::<u8>::empty());
            assert(article =~= foot + seq![LF]);
            lemma_foot(foot, true);
            assert(yenc_decode(Seq::<u8>::empty()) =~= Seq::<u8>::empty());
            assert(done + data =~= Seq::<u8>::empty());
        }
    } else {
        let unit = encode_unit(data[0]);
        let tail = data.skip(1);
        let more = done.push(data[0]);
        lemma_units_push(done, data[0]);
        assert(more + tail =~= done + data);
        if col + unit.len() >= crate::nntp::yenc::LINE_LENGTH {
            let line = units(more) + seq![CR];
            let rest = yenc_encode_from(tail, 0) + foot + seq![LF];
            assert(article =~= line + seq![LF] + rest);
            lemma_units_plain(more);
            assert(one_line(line)) by {
                assert forall|i: int| 0 <= i < line.len() implies line[i] != LF by {
                    if i < units(more).len() {
                        assert(line[i] == units(more)[i]);
                    }
                }
            }
            lemma_payload_line(line, rest, true);
            lemma_not_marker(more, seq![CR]);
            assert(line_body(line) =~= units(more));
            let inner = payload_from(rest, 0, true);
            assert(units(Seq::<u8>::empty()) =~= Seq::<u8>::empty());
            assert(units(Seq::<u8>::empty()) + yenc_encode_from(tail, 0) + foot + seq![LF]
                =~= rest);
            lemma_body_round_trip(Seq::empty(), tail, 0, foot);
            assert(yenc_decode(inner) =~= tail);
            assert(payload_from(article, 0, true) =~= units(more) + inner);
            lemma_decode_units(more, inner);
        } else {
            assert(article =~= units(more) + yenc_encode_from(tail, col + unit.len()) + foot
                + seq![LF]);
            lemma_body_round_trip(more, tail, col + unit.len(), foot);
        }
    }
}

/// The `=yend` line ends the body and adds nothing, and neither does the
/// empty line behind it.
proof fn lemma_foot(foot: Seq<u8>, in_body: bool)
    requires
        one_line(foot),
        matches_at(foot, yend_marker(), 0),
    ensures
        payload_from(foot + seq![LF], 0, in_body) == Seq::<u8>::empty(),
{
    lemma_payload_line(foot, Seq::empty(), in_body);
    assert(foot + seq![LF] + Seq::<u8>::empty() =~= foot + seq![LF]);
    lemma_payload_last(Seq::empty(), body_after(foot, in_body));
    assert(!matches_at(foot, ybegin_marker(), 0) && !matches_at(foot, ypart_marker(), 0)) by {
        assert(foot.subrange(0, 5)[2] == foot[2]);
        if matches_at(foot, ybegin_marker(), 0) {
            assert(foot.subrange(0, 7)[2] == foot[2]);
        }
        if matches_at(foot, ypart_marker(), 0) {
            assert(foot.subrange(0, 6)[2] == foot[2]);
        }
    }
    assert(line_payload(Seq::<u8>::empty(), false) =~= Seq::<u8>::empty());
}

/// What is taken out of a posted article and decoded is the data that
/// was encoded into it, whatever the data.
pub proof fn lemma_article_round_trip(head: Seq<u8>, data: Seq<u8>, foot: Seq<u8>)
    requires
        one_line(head),
        one_line(foot),
        matches_at(head, ybegin_marker(), 0),
        matches_at(foot, yend_marker(), 0),
    ensures
        yenc_decode(yenc_payload(posted_article(head, data, foot))) == data,
{
    let rest = yenc_encode(data) + foot + seq![LF];
    let article = posted_article(head, data, foot);
    assert(article =~= head + seq![LF] + rest);
    lemma_payload_line(head, rest, false);
    assert(units(Seq::<u8>::empty()) =~= Seq::<u8>::empty());
    assert(units(Seq::<u8>::empty()) + yenc_encode_from(data, 0) + foot + seq![LF] =~= rest);
    lemma_body_round_trip(Seq::empty(), data, 0, foot);
    assert(payload_from(article, 0, false) =~= payload_from(rest, 0, true));
    assert(Seq::<u8>::empty() + data =~= data);
}

} // verus!
