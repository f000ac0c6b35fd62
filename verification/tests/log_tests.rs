use comment_store::codec::{decode_write_at, encode_write, replay_bytes};
use comment_store::comment::{Comment, PostComment};
use comment_store::log::Log;
use comment_store::system::CommentSystem;

fn write(page: &str, username: &str, timestamp: i64, body: &str) -> PostComment {
    PostComment {
        page: page.to_string(),
        comment: Comment {
            username: username.to_string(),
            timestamp,
            body: body.to_string(),
        },
    }
}

fn assert_write_eq(got: &PostComment, want: &PostComment) {
    assert_eq!(got.page, want.page);
    assert_eq!(got.comment.username, want.comment.username);
    assert_eq!(got.comment.timestamp, want.comment.timestamp);
    assert_eq!(got.comment.body, want.comment.body);
}

fn sample_writes() -> Vec<PostComment> {
    vec![
        write("blog-1", "ana", 1000, "hi"),
        write("blog-2", "bo", -5, "bye"),
        write("blog-1", "cy", i64::MAX, "edge"),
        write("", "", i64::MIN, ""),
        write("unicode-page", "u\u{00df}er", 0, "caf\u{00e9} \u{1f600}"),
    ]
}

#[test]
fn encode_decode_one_record() {
    let w = write("p", "user", 42, "text");
    let bytes = encode_write(&w);
    let (decoded, end) = decode_write_at(&bytes, 0).expect("record must decode");
    assert_write_eq(&decoded, &w);
    assert_eq!(end, bytes.len());
}

#[test]
fn encoding_is_length_delimited() {
    // page "ab" (2 bytes), username "c" (1), timestamp 5, body "d" (1):
    // 8 + 2 + 8 + 1 + 1 + 8 + 8 + 1 = 37 bytes, with each length in
    // little-endian order and the timestamp as sign byte plus magnitude.
    let w = write("ab", "c", 5, "d");
    let bytes = encode_write(&w);
    assert_eq!(bytes.len(), 37);
    assert_eq!(&bytes[0..8], &[2, 0, 0, 0, 0, 0, 0, 0]);
    assert_eq!(&bytes[8..10], b"ab");
    assert_eq!(&bytes[10..18], &[1, 0, 0, 0, 0, 0, 0, 0]);
    assert_eq!(&bytes[18..19], b"c");
    assert_eq!(bytes[19], 0); // sign: non-negative
    assert_eq!(&bytes[20..28], &[5, 0, 0, 0, 0, 0, 0, 0]);
    assert_eq!(&bytes[28..36], &[1, 0, 0, 0, 0, 0, 0, 0]);
    assert_eq!(&bytes[36..37], b"d");
}

#[test]
fn negative_timestamp_encoding() {
    let w = write("p", "u", -5, "b");
    let bytes = encode_write(&w);
    // After page (8 + 1) and username (8 + 1) comes the sign byte.
    assert_eq!(bytes[18], 1);
    assert_eq!(&bytes[19..27], &[5, 0, 0, 0, 0, 0, 0, 0]);
    let (decoded, _) = decode_write_at(&bytes, 0).unwrap();
    assert_eq!(decoded.comment.timestamp, -5);
}

#[test]
fn log_round_trip_rebuilds_equivalent_store() {
    let writes = sample_writes();
    let mut log = Log::new();
    let mut direct = CommentSystem::new();
    for w in writes.iter() {
        log.append(w);
        direct.submit(w.page.clone(), w.comment.clone());
    }
    let replayed = log.replay();
    assert_eq!(replayed.len(), writes.len());
    for (got, want) in replayed.iter().zip(writes.iter()) {
        assert_write_eq(got, want);
    }
    let recovered = CommentSystem::recover(&log);
    for w in writes.iter() {
        let a = direct.query(&w.page).unwrap();
        let b = recovered.query(&w.page).unwrap();
        assert_eq!(a.len(), b.len());
        for (ca, cb) in a.iter().zip(b.iter()) {
            assert_eq!(ca.username, cb.username);
            assert_eq!(ca.timestamp, cb.timestamp);
            assert_eq!(ca.body, cb.body);
        }
    }
}

#[test]
fn replaying_twice_gives_identical_stores() {
    let mut log = Log::new();
    for w in sample_writes().iter() {
        log.append(w);
    }
    let first = CommentSystem::recover(&log);
    let second = CommentSystem::recover(&log);
    for w in sample_writes().iter() {
        let a = first.query(&w.page).unwrap();
        let b = second.query(&w.page).unwrap();
        assert_eq!(a.len(), b.len());
        for (ca, cb) in a.iter().zip(b.iter()) {
            assert_eq!(ca.username, cb.username);
            assert_eq!(ca.timestamp, cb.timestamp);
            assert_eq!(ca.body, cb.body);
        }
    }
}

#[test]
fn truncated_final_record_is_dropped() {
    let w1 = write("p", "ana", 1, "first");
    let w2 = write("q", "bo", 2, "second");
    let w3 = write("p", "cy", 3, "third");
    let mut intact = Vec::new();
    intact.extend_from_slice(&encode_write(&w1));
    intact.extend_from_slice(&encode_write(&w2));
    let last = encode_write(&w3);
    // Cut the final record short at every possible point: replay must keep
    // exactly the two complete records and stop cleanly.
    for cut in 0..last.len() {
        let mut bytes = intact.clone();
        bytes.extend_from_slice(&last[..cut]);
        let replayed = replay_bytes(&bytes);
        assert_eq!(replayed.len(), 2);
        assert_write_eq(&replayed[0], &w1);
        assert_write_eq(&replayed[1], &w2);
    }
}

#[test]
fn empty_log_replays_to_nothing() {
    let log = Log::new();
    assert!(log.replay().is_empty());
    let sys = CommentSystem::recover(&log);
    let p = "any".to_string();
    assert!(sys.query(&p).is_none());
}

#[test]
fn garbage_bytes_replay_to_nothing() {
    // A length prefix promising more bytes than exist.
    let bytes = vec![0xff; 12];
    assert!(replay_bytes(&bytes).is_empty());
    // Valid lengths but an invalid timestamp sign byte.
    let w = write("p", "u", 9, "b");
    let mut enc = encode_write(&w).to_vec();
    enc[18] = 7; // sign byte may only be 0 or 1
    assert!(replay_bytes(&enc).is_empty());
}

#[test]
fn invalid_utf8_in_record_is_a_decode_error() {
    let w = write("pp", "u", 9, "b");
    let mut enc = encode_write(&w).to_vec();
    enc[8] = 0xff;
    enc[9] = 0xfe; // page bytes are not UTF-8
    assert!(decode_write_at(&enc, 0).is_none());
}

#[test]
fn timestamp_extremes_round_trip() {
    for t in [i64::MIN, i64::MIN + 1, -1, 0, 1, i64::MAX - 1, i64::MAX] {
        let w = write("p", "u", t, "b");
        let enc = encode_write(&w);
        let (decoded, end) = decode_write_at(&enc, 0).unwrap();
        assert_eq!(decoded.comment.timestamp, t);
        assert_eq!(end, enc.len());
    }
}

#[test]
fn recovery_then_new_submissions_extend_history() {
    let mut log = Log::new();
    log.append(&write("blog", "ana", 1, "old"));
    let mut sys = CommentSystem::recover(&log);
    sys.submit("blog".to_string(), Comment {
        username: "bo".to_string(),
        timestamp: 2,
        body: "new".to_string(),
    });
    let page = "blog".to_string();
    let got = sys.query(&page).unwrap();
    assert_eq!(got.len(), 2);
    assert_eq!(got[0].body, "old");
    assert_eq!(got[1].body, "new");
    // The write accepted after recovery is queued for the log; appending it
    // and replaying yields the full history.
    for w in sys.take_pending() {
        log.append(&w);
    }
    let replayed = log.replay();
    assert_eq!(replayed.len(), 2);
    assert_eq!(replayed[0].comment.body, "old");
    assert_eq!(replayed[1].comment.body, "new");
}
