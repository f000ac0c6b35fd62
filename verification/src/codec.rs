//! The log's record format: a compact, length-delimited binary encoding of
//! `PostComment`, the decoder for it, and sequential replay of a whole log
//! image. A record is
//!
//! ```text
//! [8-byte LE length][page UTF-8]
//! [8-byte LE length][username UTF-8]
//! [1-byte sign][8-byte LE magnitude]          (the timestamp)
//! [8-byte LE length][body UTF-8]
//! ```
//!
//! Replay decodes records from the front until the bytes run out or a record
//! fails to decode; everything decoded so far is kept, so a final record cut
//! short by a crash is dropped silently, as recovery expects.

use vstd::prelude::*;
use vstd::bytes::{spec_u64_from_le_bytes, spec_u64_to_le_bytes, u64_from_le_bytes, u64_to_le_bytes};
use vstd::bytes::lemma_auto_spec_u64_to_from_le_bytes;
use vstd::utf8::{decode_utf8, encode_utf8, valid_utf8};
use vstd::utf8::{encode_utf8_decode_utf8, encode_utf8_valid_utf8};
use vstd::slice::{slice_subrange, slice_to_vec};
use vstd::string::StrSliceExecFns;
use crate::comment::{Comment, CommentView, PostComment, PostCommentView};

verus! {

/// A string fits in a record when its UTF-8 image's length fits the 8-byte
/// length prefix.
pub open spec fn str_fits(s: Seq<char>) -> bool {
    encode_utf8(s).len() <= u64::MAX
}

/// A write fits in a record when all three strings fit and the timestamp is a
/// 64-bit value. Every view of an executable `PostComment` fits.
pub open spec fn write_fits(w: PostCommentView) -> bool {
    &&& str_fits(w.page)
    &&& str_fits(w.comment.username)
    &&& str_fits(w.comment.body)
    &&& i64::MIN <= w.comment.timestamp <= i64::MAX
}

/// Length-prefixed UTF-8 image of one string field.
pub open spec fn spec_encode_str(s: Seq<char>) -> Seq<u8> {
    spec_u64_to_le_bytes(encode_utf8(s).len() as u64) + encode_utf8(s)
}

/// Sign byte of the timestamp encoding: 0 for non-negative, 1 for negative.
pub open spec fn ts_sign(t: int) -> u8 {
    if t >= 0 {
        0
    } else {
        1
    }
}

/// Magnitude of the timestamp encoding.
pub open spec fn ts_mag(t: int) -> u64 {
    if t >= 0 {
        t as u64
    } else {
        (-t) as u64
    }
}

/// Sign-and-magnitude image of the timestamp field.
pub open spec fn spec_encode_ts(t: int) -> Seq<u8> {
    seq![ts_sign(t)] + spec_u64_to_le_bytes(ts_mag(t))
}

/// Image of one whole record.
pub open spec fn spec_encode_write(w: PostCommentView) -> Seq<u8> {
    spec_encode_str(w.page) + spec_encode_str(w.comment.username) + spec_encode_ts(
        w.comment.timestamp,
    ) + spec_encode_str(w.comment.body)
}

/// Decodes one string field from the front of `b`: the decoded characters and
/// the number of bytes consumed, or nothing if the bytes run out or are not
/// UTF-8.
pub open spec fn spec_decode_str(b: Seq<u8>) -> Option<(Seq<char>, int)> {
    if b.len() < 8 {
        None
    } else {
        let n = spec_u64_from_le_bytes(b.subrange(0, 8)) as int;
        if b.len() - 8 < n {
            None
        } else {
            let data = b.subrange(8, 8 + n);
            if valid_utf8(data) {
                Some((decode_utf8(data), 8 + n))
            } else {
                None
            }
        }
    }
}

/// Decodes the timestamp field from the front of `b`. A sign byte other than
/// 0 or 1, a non-negative magnitude above `i64::MAX`, or a negative magnitude
/// outside `1 ..= 2^63` is a decode error.
pub open spec fn spec_decode_ts(b: Seq<u8>) -> Option<(int, int)> {
    if b.len() < 9 {
        None
    } else {
        let sign = b[0];
        let mag = spec_u64_from_le_bytes(b.subrange(1, 9)) as int;
        if sign == 0 && mag <= i64::MAX {
            Some((mag, 9))
        } else if sign == 1 && 1 <= mag <= 0x8000_0000_0000_0000 {
            Some((-mag, 9))
        } else {
            None
        }
    }
}

/// Decodes one whole record from the front of `b`: the write and the number
/// of bytes consumed.
pub open spec fn spec_decode_write(b: Seq<u8>) -> Option<(PostCommentView, int)> {
    match spec_decode_str(b) {
        None => None,
        Some((page, n1)) => match spec_decode_str(b.skip(n1)) {
            None => None,
            Some((username, n2)) => match spec_decode_ts(b.skip(n1 + n2)) {
                None => None,
                Some((ts, n3)) => match spec_decode_str(b.skip(n1 + n2 + n3)) {
                    None => None,
                    Some((body, n4)) => Some(
                        (
                            PostCommentView {
                                page,
                                comment: CommentView { username, timestamp: ts, body },
                            },
                            n1 + n2 + n3 + n4,
                        ),
                    ),
                },
            },
        },
    }
}

/// The writes recovered from a log image: records decoded from the front
/// until the first failure, in on-disk order.
pub open spec fn spec_replay(b: Seq<u8>) -> Seq<PostCommentView>
    decreases b.len(),
{
    match spec_decode_write(b) {
        None => Seq::empty(),
        Some((w, n)) => if 0 < n <= b.len() {
            seq![w] + spec_replay(b.skip(n))
        } else {
            Seq::empty()
        },
    }
}

/// Image of a whole log holding the given writes in order.
pub open spec fn spec_encode_log(ws: Seq<PostCommentView>) -> Seq<u8>
    decreases ws.len(),
{
    if ws.len() == 0 {
        Seq::empty()
    } else {
        spec_encode_write(ws.first()) + spec_encode_log(ws.drop_first())
    }
}

/// Every write of the sequence fits in a record.
pub open spec fn log_fits(ws: Seq<PostCommentView>) -> bool {
    forall|i: int| 0 <= i < ws.len() ==> write_fits(#[trigger] ws[i])
}

/// Decoding the front of an encoded string field, whatever follows it,
/// recovers exactly the string and consumes exactly its encoding.
pub proof fn lemma_decode_str_encode(s: Seq<char>, rest: Seq<u8>)
    requires
        str_fits(s),
    ensures
        spec_decode_str(spec_encode_str(s) + rest) == Some(
            (s, spec_encode_str(s).len() as int),
        ),
        spec_encode_str(s).len() == 8 + encode_utf8(s).len(),
{
    lemma_auto_spec_u64_to_from_le_bytes();
    let utf8 = encode_utf8(s);
    let n64 = utf8.len() as u64;
    let b = spec_encode_str(s) + rest;
    assert(spec_encode_str(s).len() == 8 + utf8.len());
    assert(b.subrange(0, 8) =~= spec_u64_to_le_bytes(n64));
    assert(spec_u64_from_le_bytes(b.subrange(0, 8)) == n64);
    assert(b.len() - 8 >= n64 as int);
    assert(b.subrange(8, 8 + n64 as int) =~= utf8);
    encode_utf8_valid_utf8(s);
    encode_utf8_decode_utf8(s);
}

/// A string field's encoding cut short anywhere fails to decode.
pub proof fn lemma_decode_str_prefix(s: Seq<char>, k: int)
    requires
        str_fits(s),
        0 <= k < spec_encode_str(s).len(),
    ensures
        spec_decode_str(spec_encode_str(s).take(k)) is None,
{
    lemma_auto_spec_u64_to_from_le_bytes();
    let utf8 = encode_utf8(s);
    let n64 = utf8.len() as u64;
    let b = spec_encode_str(s).take(k);
    if k < 8 {
        assert(b.len() < 8);
    } else {
        assert(b.subrange(0, 8) =~= spec_u64_to_le_bytes(n64));
        assert(spec_u64_from_le_bytes(b.subrange(0, 8)) == n64);
        assert(b.len() - 8 < n64 as int);
    }
}

/// Decoding the front of an encoded timestamp field, whatever follows it,
/// recovers exactly the timestamp and consumes its nine bytes.
pub proof fn lemma_decode_ts_encode(t: int, rest: Seq<u8>)
    requires
        i64::MIN <= t <= i64::MAX,
    ensures
        spec_decode_ts(spec_encode_ts(t) + rest) == Some((t, 9int)),
        spec_encode_ts(t).len() == 9,
{
    lemma_auto_spec_u64_to_from_le_bytes();
    let b = spec_encode_ts(t) + rest;
    assert(b[0] == ts_sign(t));
    assert(b.subrange(1, 9) =~= spec_u64_to_le_bytes(ts_mag(t)));
    assert(spec_u64_from_le_bytes(b.subrange(1, 9)) == ts_mag(t));
    if t >= 0 {
        assert(ts_mag(t) as int == t);
    } else {
        assert(ts_mag(t) as int == -t);
        assert(1 <= ts_mag(t) <= 0x8000_0000_0000_0000);
    }
}

/// Decoding the front of an encoded record, whatever follows it, recovers
/// exactly the write and consumes exactly its encoding.
pub proof fn lemma_decode_write_encode(w: PostCommentView, rest: Seq<u8>)
    requires
        write_fits(w),
    ensures
        spec_decode_write(spec_encode_write(w) + rest) == Some(
            (w, spec_encode_write(w).len() as int),
        ),
        spec_encode_write(w).len() > 0,
{
    let e1 = spec_encode_str(w.page);
    let e2 = spec_encode_str(w.comment.username);
    let e3 = spec_encode_ts(w.comment.timestamp);
    let e4 = spec_encode_str(w.comment.body);
    let b = spec_encode_write(w) + rest;
    let l1 = e1.len() as int;
    let l2 = e2.len() as int;
    let l4 = e4.len() as int;
    assert(b =~= e1 + (e2 + e3 + e4 + rest));
    lemma_decode_str_encode(w.page, e2 + e3 + e4 + rest);
    assert(b.skip(l1) =~= e2 + (e3 + e4 + rest));
    lemma_decode_str_encode(w.comment.username, e3 + e4 + rest);
    assert(b.skip(l1 + l2) =~= e3 + (e4 + rest));
    lemma_decode_ts_encode(w.comment.timestamp, e4 + rest);
    assert(b.skip(l1 + l2 + 9) =~= e4 + rest);
    lemma_decode_str_encode(w.comment.body, rest);
    assert(spec_decode_write(b) == Some(
        (
            PostCommentView {
                page: w.page,
                comment: CommentView {
                    username: w.comment.username,
                    timestamp: w.comment.timestamp,
                    body: w.comment.body,
                },
            },
            l1 + l2 + 9 + l4,
        ),
    ));
    assert(PostCommentView {
        page: w.page,
        comment: CommentView {
            username: w.comment.username,
            timestamp: w.comment.timestamp,
            body: w.comment.body,
        },
    } =~= w);
    assert(spec_encode_write(w).len() == l1 + l2 + 9 + l4);
}

/// A record's encoding cut short anywhere fails to decode.
pub proof fn lemma_decode_write_prefix(w: PostCommentView, k: int)
    requires
        write_fits(w),
        0 <= k < spec_encode_write(w).len(),
    ensures
        spec_decode_write(spec_encode_write(w).take(k)) is None,
{
    let e1 = spec_encode_str(w.page);
    let e2 = spec_encode_str(w.comment.username);
    let e3 = spec_encode_ts(w.comment.timestamp);
    let e4 = spec_encode_str(w.comment.body);
    let enc = spec_encode_write(w);
    let b = enc.take(k);
    let l1 = e1.len() as int;
    let l2 = e2.len() as int;
    lemma_decode_ts_encode(w.comment.timestamp, Seq::empty());
    if k < l1 {
        assert(b =~= e1.take(k));
        lemma_decode_str_prefix(w.page, k);
    } else if k < l1 + l2 {
        assert(b =~= e1 + (e2 + e3 + e4).take(k - l1));
        lemma_decode_str_encode(w.page, (e2 + e3 + e4).take(k - l1));
        assert(b.skip(l1) =~= e2.take(k - l1));
        lemma_decode_str_prefix(w.comment.username, k - l1);
    } else if k < l1 + l2 + 9 {
        assert(b =~= e1 + (e2 + (e3 + e4).take(k - l1 - l2)));
        lemma_decode_str_encode(w.page, e2 + (e3 + e4).take(k - l1 - l2));
        assert(b.skip(l1) =~= e2 + (e3 + e4).take(k - l1 - l2));
        lemma_decode_str_encode(w.comment.username, (e3 + e4).take(k - l1 - l2));
        assert(b.skip(l1 + l2) =~= (e3 + e4).take(k - l1 - l2));
        assert(b.skip(l1 + l2).len() < 9);
    } else {
        let m4 = k - l1 - l2 - 9;
        assert(b =~= e1 + (e2 + (e3 + e4.take(m4))));
        lemma_decode_str_encode(w.page, e2 + (e3 + e4.take(m4)));
        assert(b.skip(l1) =~= e2 + (e3 + e4.take(m4)));
        lemma_decode_str_encode(w.comment.username, e3 + e4.take(m4));
        assert(b.skip(l1 + l2) =~= e3 + e4.take(m4));
        lemma_decode_ts_encode(w.comment.timestamp, e4.take(m4));
        assert(b.skip(l1 + l2 + 9) =~= e4.take(m4));
        lemma_decode_str_prefix(w.comment.body, m4);
    }
}

/// Replay of a whole encoded log followed by any undecodable tail recovers
/// exactly the logged writes, in order.
pub proof fn lemma_replay_log_with_tail(ws: Seq<PostCommentView>, tail: Seq<u8>)
    requires
        log_fits(ws),
        spec_decode_write(tail) is None,
    ensures
        spec_replay(spec_encode_log(ws) + tail) == ws,
    decreases ws.len(),
{
    if ws.len() == 0 {
        assert(spec_encode_log(ws) + tail =~= tail);
        assert(spec_replay(tail) =~= ws);
    } else {
        let w0 = ws.first();
        let rest = ws.drop_first();
        let b = spec_encode_log(ws) + tail;
        assert(write_fits(ws[0]));
        assert(forall|i: int| 0 <= i < rest.len() ==> rest[i] == ws[i + 1]);
        assert(log_fits(rest));
        assert(b =~= spec_encode_write(w0) + (spec_encode_log(rest) + tail));
        lemma_decode_write_encode(w0, spec_encode_log(rest) + tail);
        let n = spec_encode_write(w0).len() as int;
        assert(b.skip(n) =~= spec_encode_log(rest) + tail);
        lemma_replay_log_with_tail(rest, tail);
        assert(spec_replay(b) == seq![w0] + rest);
        assert(seq![w0] + rest =~= ws);
    }
}

/// Round trip: replaying a log holding exactly the encodings of a sequence of
/// writes recovers that sequence, so a store rebuilt from the log equals the
/// store built by applying the writes directly, in the same order.
pub proof fn lemma_log_round_trip(ws: Seq<PostCommentView>)
    requires
        log_fits(ws),
    ensures
        spec_replay(spec_encode_log(ws)) == ws,
{
    assert(spec_encode_log(ws) + Seq::<u8>::empty() =~= spec_encode_log(ws));
    lemma_replay_log_with_tail(ws, Seq::empty());
}

/// Truncated-record tolerance: a log whose final record is cut short replays
/// to all prior complete records, stopping cleanly at the cut.
pub proof fn lemma_truncated_log_replay(ws: Seq<PostCommentView>, w: PostCommentView, k: int)
    requires
        log_fits(ws),
        write_fits(w),
        0 <= k < spec_encode_write(w).len(),
    ensures
        spec_replay(spec_encode_log(ws) + spec_encode_write(w).take(k)) == ws,
{
    lemma_decode_write_prefix(w, k);
    lemma_replay_log_with_tail(ws, spec_encode_write(w).take(k));
}

/// Relies on `String::from_utf8`: it returns `Ok` exactly when the bytes are
/// valid UTF-8, and the returned string is the one those bytes encode.
#[verifier::external_body]
fn bytes_to_string(v: Vec<u8>) -> (r: Option<String>)
    ensures
        match r {
            Some(s) => encode_utf8(s@) == v@,
            None => !valid_utf8(v@),
        },
{
    match String::from_utf8(v) {
        Ok(s) => Some(s),
        Err(_) => None,
    }
}

/// Appends the length-prefixed UTF-8 image of `s` to `out`.
fn encode_str_into(out: &mut Vec<u8>, s: &String)
    ensures
        final(out)@ == old(out)@ + spec_encode_str(s@),
        str_fits(s@),
{
    let bytes = s.as_str().as_bytes_vec();
    let n = bytes.len();
    let mut len_bytes = u64_to_le_bytes(n as u64);
    out.append(&mut len_bytes);
    let mut data = bytes;
    out.append(&mut data);
    assert(out@ =~= old(out)@ + spec_encode_str(s@));
}

/// Appends the sign-and-magnitude image of `t` to `out`.
fn encode_ts_into(out: &mut Vec<u8>, t: i64)
    ensures
        final(out)@ == old(out)@ + spec_encode_ts(t as int),
{
    if t >= 0 {
        out.push(0u8);
        let mut mag_bytes = u64_to_le_bytes(t as u64);
        out.append(&mut mag_bytes);
    } else {
        out.push(1u8);
        let mag: u64 = ((-(t + 1)) as u64) + 1;
        assert(mag == ts_mag(t as int));
        let mut mag_bytes = u64_to_le_bytes(mag);
        out.append(&mut mag_bytes);
    }
    assert(out@ =~= old(out)@ + spec_encode_ts(t as int));
}

/// Encodes one write as one log record.
pub fn encode_write(w: &PostComment) -> (r: Vec<u8>)
    ensures
        r@ == spec_encode_write(w@),
        write_fits(w@),
{
    let mut out: Vec<u8> = Vec::new();
    encode_str_into(&mut out, &w.page);
    encode_str_into(&mut out, &w.comment.username);
    encode_ts_into(&mut out, w.comment.timestamp);
    encode_str_into(&mut out, &w.comment.body);
    assert(out@ =~= spec_encode_write(w@));
    out
}

/// Decodes one string field of `b` starting at `start`; on success returns
/// the string and the position just past the field.
fn decode_str_at(b: &Vec<u8>, start: usize) -> (r: Option<(String, usize)>)
    requires
        start <= b@.len(),
    ensures
        match r {
            Some(p) => {
                &&& spec_decode_str(b@.skip(start as int)) == Some(
                    (p.0@, p.1 as int - start as int),
                )
                &&& start < p.1 <= b@.len()
            },
            None => spec_decode_str(b@.skip(start as int)) is None,
        },
{
    let len = b.len();
    let ghost tail = b@.skip(start as int);
    if len - start < 8 {
        return None;
    }
    let len_slice = slice_subrange(b.as_slice(), start, start + 8);
    assert(len_slice@ =~= tail.subrange(0, 8));
    let n64 = u64_from_le_bytes(len_slice);
    let avail = len - (start + 8);
    if (avail as u64) < n64 {
        assert(tail.len() - 8 < n64 as int);
        return None;
    }
    let n = n64 as usize;
    let data = slice_to_vec(slice_subrange(b.as_slice(), start + 8, start + 8 + n));
    assert(data@ =~= tail.subrange(8, 8 + n64 as int));
    match bytes_to_string(data) {
        Some(s) => {
            proof {
                encode_utf8_valid_utf8(s@);
                encode_utf8_decode_utf8(s@);
            }
            Some((s, start + 8 + n))
        },
        None => None,
    }
}

/// Decodes the timestamp field of `b` starting at `start`.
fn decode_ts_at(b: &Vec<u8>, start: usize) -> (r: Option<(i64, usize)>)
    requires
        start <= b@.len(),
    ensures
        match r {
            Some(p) => {
                &&& spec_decode_ts(b@.skip(start as int)) == Some(
                    (p.0 as int, p.1 as int - start as int),
                )
                &&& start < p.1 <= b@.len()
            },
            None => spec_decode_ts(b@.skip(start as int)) is None,
        },
{
    let len = b.len();
    let ghost tail = b@.skip(start as int);
    if len - start < 9 {
        return None;
    }
    let sign = b[start];
    assert(sign == tail[0]);
    let mag_slice = slice_subrange(b.as_slice(), start + 1, start + 9);
    assert(mag_slice@ =~= tail.subrange(1, 9));
    let mag = u64_from_le_bytes(mag_slice);
    if sign == 0 && mag <= i64::MAX as u64 {
        Some((mag as i64, start + 9))
    } else if sign == 1 && 1 <= mag && mag <= 0x8000_0000_0000_0000u64 {
        let t: i64 = -((mag - 1) as i64) - 1;
        assert(t as int == -(mag as int));
        Some((t, start + 9))
    } else {
        None
    }
}

/// Decodes one record of `b` starting at `start`; on success returns the
/// write and the position just past the record.
pub fn decode_write_at(b: &Vec<u8>, start: usize) -> (r: Option<(PostComment, usize)>)
    requires
        start <= b@.len(),
    ensures
        match r {
            Some(p) => {
                &&& spec_decode_write(b@.skip(start as int)) == Some(
                    (p.0@, p.1 as int - start as int),
                )
                &&& start < p.1 <= b@.len()
            },
            None => spec_decode_write(b@.skip(start as int)) is None,
        },
{
    let ghost tail = b@.skip(start as int);
    let (page, pos1) = match decode_str_at(b, start) {
        Some(p) => p,
        None => {
            return None;
        },
    };
    assert(b@.skip(pos1 as int) =~= tail.skip(pos1 - start));
    let (username, pos2) = match decode_str_at(b, pos1) {
        Some(p) => p,
        None => {
            return None;
        },
    };
    assert(b@.skip(pos2 as int) =~= tail.skip(pos2 - start));
    let (timestamp, pos3) = match decode_ts_at(b, pos2) {
        Some(p) => p,
        None => {
            return None;
        },
    };
    assert(b@.skip(pos3 as int) =~= tail.skip(pos3 - start));
    let (body, pos4) = match decode_str_at(b, pos3) {
        Some(p) => p,
        None => {
            return None;
        },
    };
    let w = PostComment { page, comment: Comment { username, timestamp, body } };
    Some((w, pos4))
}

/// Decodes records from the front of `b` until the bytes run out or a record
/// fails to decode, and returns everything decoded so far, in order.
pub fn replay_bytes(b: &Vec<u8>) -> (r: Vec<PostComment>)
    ensures
        r.deep_view() == spec_replay(b@),
{
    let mut out: Vec<PostComment> = Vec::new();
    let mut pos: usize = 0;
    proof {
        assert(b@.skip(0) =~= b@);
        assert(out.deep_view() + spec_replay(b@) =~= spec_replay(b@));
    }
    loop
        invariant
            pos <= b@.len(),
            spec_replay(b@) == out.deep_view() + spec_replay(b@.skip(pos as int)),
        decreases b@.len() - pos,
    {
        match decode_write_at(b, pos) {
            Some(p) => {
                let (w, end) = p;
                let ghost prev = out.deep_view();
                out.push(w);
                assert(out.deep_view() =~= prev.push(w@));
                proof {
                    assert(b@.skip(pos as int).skip(end - pos) =~= b@.skip(end as int));
                    assert(spec_replay(b@.skip(pos as int)) == seq![w@] + spec_replay(
                        b@.skip(end as int),
                    ));
                    assert(out.deep_view() + spec_replay(b@.skip(end as int)) =~= prev + (seq![w@]
                        + spec_replay(b@.skip(end as int))));
                }
                pos = end;
            },
            None => {
                assert(spec_replay(b@.skip(pos as int)) =~= Seq::<PostCommentView>::empty());
                assert(out.deep_view() + Seq::<PostCommentView>::empty() =~= out.deep_view());
                return out;
            },
        }
    }
}

} // verus!
