use dispatch::tail::{TailBuffer, TaskTail, REMIND_TAIL_CHARS, TAIL_BUFFER_CAP};
use dispatch::task::live_tail;

/// The text of the live tail of a ring that holds these bytes.
fn live(ring: &[u8], n: usize) -> Option<String> {
    live_tail(ring, n, Ok("n".to_string()))
        .unwrap()
        .map(|live| live.text)
}

#[test]
fn ring_keeps_only_newest_cap_bytes() {
    let mut b = TailBuffer::new(8);
    b.push_chunk(b"0123456789abcdef");
    assert_eq!(b.tail_chars(100), "89abcdef");
    b.push_chunk(b"XY");
    assert_eq!(b.tail_chars(100), "abcdefXY");
    assert_eq!(b.len(), 8);
}

#[test]
fn ring_bounds_at_the_documented_cap() {
    let mut b = TailBuffer::new(TAIL_BUFFER_CAP);
    let data: Vec<u8> = (0..100_000u32).map(|i| (i % 251) as u8).collect();
    for chunk in data.chunks(4096) {
        b.push_chunk(chunk);
    }
    assert_eq!(b.len(), TAIL_BUFFER_CAP);
    let kept = b.contents();
    assert_eq!(kept, data[data.len() - TAIL_BUFFER_CAP..]);
}

#[test]
fn tail_chars_counts_characters_not_bytes() {
    let mut b = TailBuffer::new(TAIL_BUFFER_CAP);
    b.push_chunk("aé漢🎉".as_bytes());
    assert_eq!(b.tail_chars(1), "🎉");
    assert_eq!(b.tail_chars(2), "漢🎉");
    assert_eq!(b.tail_chars(3), "é漢🎉");
    assert_eq!(b.tail_chars(0), "");
    assert_eq!(b.tail_chars(99), "aé漢🎉");
}

#[test]
fn byte_drop_mid_character_is_lossy_not_fatal() {
    // cap 5 over two 3-byte chars drops the first char's lead byte; the orphan
    // continuation bytes must decode as U+FFFD, never split a char or panic.
    let mut b = TailBuffer::new(5);
    b.push_chunk("漢漢".as_bytes());
    let s = b.tail_chars(10);
    assert!(s.ends_with('漢'), "intact char must survive, got: {s:?}");
    assert!(
        s.chars().all(|c| c == '\u{FFFD}' || c == '漢'),
        "partial bytes must become U+FFFD, got: {s:?}"
    );
}

#[test]
fn wrapped_ring_reads_across_the_seam() {
    let mut b = TailBuffer::new(4);
    b.push_chunk(b"abcd");
    b.push_chunk(b"ef");
    assert_eq!(b.tail_chars(10), "cdef");
    assert_eq!(b.tail_chars(2), "ef");
}

#[test]
fn shared_handle_sees_appends_from_clones() {
    let tail = TaskTail::new();
    let writer = tail.clone();
    writer.append(b"hello ");
    writer.append("wörld".as_bytes());
    assert_eq!(tail.tail_chars(5), "wörld");
    assert_eq!(tail.snapshot(), "hello wörld");
    assert!(!tail.is_empty());
}

#[test]
fn chunk_boundaries_do_not_matter() {
    let stream = b"the quick brown fox jumps over the lazy dog";
    for cut in 1..stream.len() {
        let mut whole = TailBuffer::new(10);
        whole.push_chunk(stream);
        let mut pieces = TailBuffer::new(10);
        for chunk in stream.chunks(cut) {
            pieces.push_chunk(chunk);
        }
        assert_eq!(whole.contents(), b"e lazy dog");
        assert_eq!(pieces.contents(), whole.contents());
    }
}

#[test]
fn a_ring_without_room_keeps_nothing() {
    let mut b = TailBuffer::new(0);
    b.push_chunk(b"abc");
    assert!(b.is_empty());
    assert_eq!(b.tail_chars(5), "");
    b.push_chunk(b"");
    assert_eq!(b.len(), 0);
}

#[test]
fn a_shorter_tail_ends_a_longer_one() {
    let mut b = TailBuffer::new(64);
    b.push_chunk("grüße aus Köln".as_bytes());
    let all = b.text();
    assert_eq!(all, "grüße aus Köln");
    for n in 0..20 {
        assert!(all.ends_with(&b.tail_chars(n)));
        assert_eq!(b.tail_chars(n).chars().count(), n.min(14));
    }
}

#[test]
fn a_fresh_handle_is_empty_and_live_reads_nothing() {
    let tail = TaskTail::default();
    assert!(tail.is_empty());
    assert_eq!(live(&tail.contents(), REMIND_TAIL_CHARS), None);
    assert_eq!(tail.snapshot(), "");
    tail.append(b"phase-one started\n");
    assert_eq!(live(&tail.contents(), 5), Some("rted\n".to_string()));
    assert_eq!(live(&tail.contents(), 100000), Some("phase-one started\n".to_string()));
}

#[test]
fn a_handle_is_shared_between_threads() {
    fn shareable<T: Send + Sync + Clone>(_: &T) {}
    shareable(&TaskTail::new());
}

#[test]
fn an_empty_ring_has_no_live_part() {
    let mut ring = TailBuffer::new(8);
    assert_eq!(live(&ring.contents(), 5), None);
    ring.push_chunk(b"abcdef");
    assert_eq!(live(&ring.contents(), 2), Some("ef".to_string()));
    assert_eq!(live(&ring.contents(), 0), Some(String::new()));
    let tail = TaskTail::default();
    assert_eq!(live(&tail.contents(), 5), None);
    tail.append(b"xyz");
    assert_eq!(live(&tail.contents(), 2), Some("yz".to_string()));
}

#[test]
fn a_shared_ring_is_empty_until_something_is_written_and_keeps_its_bound() {
    let tail = TaskTail::new();
    assert!(tail.is_empty());
    tail.append(b"a");
    assert!(!tail.is_empty());
    tail.append(&vec![b'x'; TAIL_BUFFER_CAP + 1]);
    assert_eq!(tail.snapshot().len(), TAIL_BUFFER_CAP);
}
