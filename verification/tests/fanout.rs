use splengine::fanout::FanOut;
use tokio::sync::mpsc::error::TryRecvError;

#[test]
fn forward_delivers_the_lines_in_order() {
    let (mut sink, mut consumer) = FanOut::channel();
    assert_eq!(sink.forward("a\nb\nc"), 3);
    assert_eq!(consumer.try_recv(), Ok("a".to_string()));
    assert_eq!(consumer.try_recv(), Ok("b".to_string()));
    assert_eq!(consumer.try_recv(), Ok("c".to_string()));
    assert_eq!(consumer.try_recv(), Err(TryRecvError::Empty));
}

#[test]
fn forward_delivers_the_empty_line_after_a_final_terminator() {
    let (mut sink, mut consumer) = FanOut::channel();
    assert_eq!(sink.forward("a\n"), 2);
    assert_eq!(consumer.try_recv(), Ok("a".to_string()));
    assert_eq!(consumer.try_recv(), Ok(String::new()));
    assert_eq!(consumer.try_recv(), Err(TryRecvError::Empty));
}

#[test]
fn forward_of_an_empty_chunk_delivers_one_empty_line() {
    let (mut sink, mut consumer) = FanOut::channel();
    assert_eq!(sink.forward(""), 1);
    assert_eq!(consumer.try_recv(), Ok(String::new()));
    assert_eq!(consumer.try_recv(), Err(TryRecvError::Empty));
}

#[test]
fn forward_never_waits_for_the_consumer() {
    let (mut sink, mut consumer) = FanOut::channel();
    let mut expected = Vec::new();
    for round in 0..1000 {
        let chunk = format!("{}\n{}", round, round + 1);
        assert_eq!(sink.forward(&chunk), 2);
        expected.push(round.to_string());
        expected.push((round + 1).to_string());
    }
    for line in expected {
        assert_eq!(consumer.try_recv(), Ok(line));
    }
    assert_eq!(consumer.try_recv(), Err(TryRecvError::Empty));
}

#[test]
fn forward_drops_the_lines_when_the_consumer_has_gone() {
    let (mut sink, consumer) = FanOut::channel();
    drop(consumer);
    assert_eq!(sink.forward("a\nb\nc"), 0);
    assert_eq!(sink.forward("d"), 0);
}

#[test]
fn forward_keeps_what_was_delivered_before_the_consumer_closed() {
    let (mut sink, mut consumer) = FanOut::channel();
    assert_eq!(sink.forward("first\nsecond"), 2);
    consumer.close();
    assert_eq!(sink.forward("third"), 0);
    assert_eq!(consumer.try_recv(), Ok("first".to_string()));
    assert_eq!(consumer.try_recv(), Ok("second".to_string()));
    assert_eq!(consumer.try_recv(), Err(TryRecvError::Disconnected));
}
