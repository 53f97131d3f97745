use splengine::chunk::{decode, ChunkReader, ReadEvent, ReadRequest, ReadStep};
use splengine::error::EngineError;
use splengine::policy::TimingPolicy;

/// Feeds `events` to `reader` and returns how the chunk ended and how many
/// of the events it took, or `None` if the chunk has not ended.
fn feed_all(
    reader: ChunkReader,
    events: &[ReadEvent],
) -> Option<(Result<String, EngineError>, usize)> {
    let mut reader = reader;
    for (taken, event) in events.iter().enumerate() {
        match reader.feed(*event) {
            ReadStep::Pending(next) => reader = next,
            ReadStep::Done(result) => return Some((result, taken + 1)),
        }
    }
    None
}

fn bytes(text: &[u8]) -> Vec<ReadEvent> {
    text.iter().map(|b| ReadEvent::Byte(*b)).collect()
}

fn policy(debounce: usize) -> TimingPolicy {
    TimingPolicy::new(50, debounce).unwrap()
}

#[test]
fn drain_ends_at_the_first_idle_signal_with_a_debounce_of_one() {
    let mut events = bytes(b"ok");
    events.push(ReadEvent::TimedOut);
    assert_eq!(
        feed_all(ChunkReader::drain(&policy(1)), &events),
        Some((Ok("ok".to_string()), 3))
    );
}

#[test]
fn drain_needs_as_many_idle_signals_in_a_row_as_the_debounce_count() {
    let mut events = bytes(b"login:");
    events.extend([ReadEvent::TimedOut; 2]);
    assert_eq!(feed_all(ChunkReader::drain(&policy(3)), &events), None);
    events.push(ReadEvent::TimedOut);
    assert_eq!(
        feed_all(ChunkReader::drain(&policy(3)), &events),
        Some((Ok("login:".to_string()), 9))
    );
}

#[test]
fn a_byte_starts_the_count_of_idle_signals_anew() {
    let mut events = bytes(b"a");
    events.extend([ReadEvent::TimedOut; 2]);
    events.extend(bytes(b"b"));
    events.extend([ReadEvent::TimedOut; 2]);
    events.extend(bytes(b"c"));
    assert_eq!(feed_all(ChunkReader::drain(&policy(3)), &events), None);
    events.extend([ReadEvent::TimedOut; 3]);
    assert_eq!(
        feed_all(ChunkReader::drain(&policy(3)), &events),
        Some((Ok("abc".to_string()), 10))
    );
}

#[test]
fn drain_returns_every_byte_that_came_before_the_boundary() {
    for debounce in 1..6usize {
        let mut events = Vec::new();
        let mut expected = String::new();
        for round in 0..debounce {
            events.push(ReadEvent::Byte(b'a' + round as u8));
            expected.push((b'a' + round as u8) as char);
            events.extend(vec![ReadEvent::TimedOut; debounce - 1]);
        }
        events.extend(bytes(b"!"));
        expected.push('!');
        assert_eq!(feed_all(ChunkReader::drain(&policy(debounce)), &events), None);
        let before = events.len();
        events.extend(vec![ReadEvent::TimedOut; debounce]);
        assert_eq!(
            feed_all(ChunkReader::drain(&policy(debounce)), &events),
            Some((Ok(expected), before + debounce))
        );
    }
}

#[test]
fn drain_of_a_silent_endpoint_is_the_empty_text() {
    let events = [ReadEvent::TimedOut; 5];
    assert_eq!(
        feed_all(ChunkReader::drain(&policy(5)), &events),
        Some((Ok(String::new()), 5))
    );
}

#[test]
fn drain_takes_a_failure_of_the_endpoint_for_an_idle_signal() {
    let mut events = bytes(b"bye");
    events.extend([ReadEvent::Failed, ReadEvent::TimedOut, ReadEvent::Failed]);
    assert_eq!(
        feed_all(ChunkReader::drain(&policy(3)), &events),
        Some((Ok("bye".to_string()), 6))
    );
}

#[test]
fn drain_always_waits_under_the_timeout() {
    let reader = ChunkReader::drain(&policy(2));
    assert_eq!(reader.request(), ReadRequest::Timed);
    match reader.feed(ReadEvent::Byte(b'x')) {
        ReadStep::Pending(reader) => assert_eq!(reader.request(), ReadRequest::Timed),
        ReadStep::Done(_) => panic!("the chunk ended on a byte"),
    }
}

#[test]
fn a_full_chunk_waits_for_its_first_byte_without_timeout() {
    let mut reader = ChunkReader::full(&policy(1));
    for _ in 0..100 {
        assert_eq!(reader.request(), ReadRequest::Untimed);
        match reader.feed(ReadEvent::TimedOut) {
            ReadStep::Pending(next) => reader = next,
            ReadStep::Done(_) => panic!("the chunk ended before its first byte"),
        }
    }
    match reader.feed(ReadEvent::Byte(b'>')) {
        ReadStep::Pending(next) => reader = next,
        ReadStep::Done(_) => panic!("the chunk ended on a byte"),
    }
    assert_eq!(reader.request(), ReadRequest::Timed);
    match reader.feed(ReadEvent::TimedOut) {
        ReadStep::Done(result) => assert_eq!(result, Ok(">".to_string())),
        ReadStep::Pending(_) => panic!("the chunk went on after the boundary"),
    }
}

#[test]
fn a_full_chunk_is_never_empty() {
    let mut events = vec![ReadEvent::TimedOut; 7];
    events.extend(bytes(b"$ "));
    events.extend([ReadEvent::TimedOut; 2]);
    match feed_all(ChunkReader::full(&policy(2)), &events) {
        Some((Ok(text), taken)) => {
            assert!(!text.is_empty());
            assert_eq!(text, "$ ");
            assert_eq!(taken, 11);
        }
        other => panic!("unexpected end: {:?}", other),
    }
}

#[test]
fn a_failure_before_the_first_byte_fails_the_full_chunk() {
    assert_eq!(
        feed_all(ChunkReader::full(&policy(3)), &[ReadEvent::Failed]),
        Some((Err(EngineError::Transport), 1))
    );
}

#[test]
fn a_failure_after_the_first_byte_is_an_idle_signal() {
    let events = [ReadEvent::Byte(b'x'), ReadEvent::Failed, ReadEvent::Failed];
    assert_eq!(
        feed_all(ChunkReader::full(&policy(2)), &events),
        Some((Ok("x".to_string()), 3))
    );
}

#[test]
fn bytes_that_are_not_utf8_fail_the_chunk() {
    let events = [ReadEvent::Byte(0xff), ReadEvent::TimedOut];
    assert_eq!(
        feed_all(ChunkReader::drain(&policy(1)), &events),
        Some((Err(EngineError::InvalidUtf8), 2))
    );
    let cut = [ReadEvent::Byte(0xc3), ReadEvent::TimedOut];
    assert_eq!(
        feed_all(ChunkReader::full(&policy(1)), &cut),
        Some((Err(EngineError::InvalidUtf8), 2))
    );
}

#[test]
fn a_chunk_is_decoded_as_utf8() {
    let mut events = bytes("h\u{e9}llo \u{4e16}\u{754c}".as_bytes());
    events.push(ReadEvent::TimedOut);
    match feed_all(ChunkReader::full(&policy(1)), &events) {
        Some((Ok(text), _)) => {
            assert_eq!(text, "h\u{e9}llo \u{4e16}\u{754c}");
            assert_eq!(text.chars().count(), 8);
        }
        other => panic!("unexpected end: {:?}", other),
    }
}

#[test]
fn decode_gives_the_text_or_the_error() {
    assert_eq!(decode(vec![0xe2, 0x82, 0xac]), Ok("\u{20ac}".to_string()));
    assert_eq!(decode(Vec::new()), Ok(String::new()));
    assert_eq!(decode(vec![0x61, 0x80]), Err(EngineError::InvalidUtf8));
    assert_eq!(decode(vec![0xed, 0xa0, 0x80]), Err(EngineError::InvalidUtf8));
}
