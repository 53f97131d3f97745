//! The fan-out sink: best-effort delivery of output lines to a consumer.
//!
//! Lines go to the consumer over an unbounded queue, so a slow consumer never
//! holds the producer back. A consumer that has gone is no error: the lines
//! that it would have got are dropped.

use crate::lines::{lemma_split_shape, split, split_lines, texts};
use tokio::sync::mpsc::{UnboundedReceiver, UnboundedSender};
use vstd::prelude::*;

verus! {

/// `tokio::sync::mpsc::UnboundedSender`, the producing end of an unbounded
/// queue. Nothing is known of what it holds but `accepted`.
#[verifier::external_type_specification]
#[verifier::external_body]
#[verifier::reject_recursive_types(T)]
pub struct ExUnboundedSender<T>(tokio::sync::mpsc::UnboundedSender<T>);

/// `tokio::sync::mpsc::UnboundedReceiver`, the consuming end of an unbounded
/// queue. The library hands it to the consumer and never reads it.
#[verifier::external_type_specification]
#[verifier::external_body]
#[verifier::reject_recursive_types(T)]
pub struct ExUnboundedReceiver<T>(tokio::sync::mpsc::UnboundedReceiver<T>);

/// The lines that the queue has accepted from this sender since it was made,
/// oldest first: those that the consumer has taken out since are still among
/// them.
pub uninterp spec fn accepted(sender: UnboundedSender<String>) -> Seq<Seq<char>>;

/// `tokio::sync::mpsc::unbounded_channel`: a new queue, which has accepted
/// nothing yet.
#[verifier::external_body]
fn line_channel() -> (ends: (UnboundedSender<String>, UnboundedReceiver<String>))
    ensures
        accepted(ends.0) == Seq::<Seq<char>>::empty(),
{
    tokio::sync::mpsc::unbounded_channel()
}

/// `UnboundedSender::is_closed`: whether the receiving end has been closed or
/// dropped. The answer depends on what the consumer has done, so nothing is
/// claimed of it.
#[verifier::external_body]
fn consumer_gone(sender: &UnboundedSender<String>) -> bool {
    sender.is_closed()
}

/// `UnboundedSender::send`, which never waits. Where it succeeds the line has
/// been put at the end of the queue; where it fails, because the receiving
/// end is closed, the queue has accepted nothing. (The queue gives up, and
/// the process with it, only at more lines in waiting than half the address
/// space could count.)
#[verifier::external_body]
fn offer(sender: &mut UnboundedSender<String>, line: String) -> (taken: bool)
    ensures
        accepted(*final(sender)) == if taken {
            accepted(*old(sender)).push(line@)
        } else {
            accepted(*old(sender))
        },
{
    sender.send(line).is_ok()
}

/// The producing end of the line queue.
pub struct FanOut {
    sender: UnboundedSender<String>,
    gone: bool,
}

impl FanOut {
    /// Every line that the queue has accepted so far, oldest first.
    pub closed spec fn delivered(&self) -> Seq<Seq<char>> {
        accepted(self.sender)
    }

    /// The sink has found the consumer gone, and offers it nothing more.
    pub closed spec fn gave_up(&self) -> bool {
        self.gone
    }

    /// A new queue: the sink that fills it and the handle that the consumer
    /// reads it with.
    pub fn channel() -> (ends: (FanOut, UnboundedReceiver<String>))
        ensures
            ends.0.delivered() == Seq::<Seq<char>>::empty(),
            !ends.0.gave_up(),
    {
        let (sender, receiver) = line_channel();
        (FanOut { sender, gone: false }, receiver)
    }

    /// Offers the lines of `text` to the consumer, in order, and returns how
    /// many the queue accepted. Before each line the sink looks whether the
    /// consumer has gone; from the first line that cannot be delivered on,
    /// this chunk and all later ones are dropped.
    pub fn forward(&mut self, text: &str) -> (count: usize)
        ensures
            count <= split_lines(text@).len(),
            final(self).delivered() == old(self).delivered() + split_lines(text@).take(
                count as int,
            ),
            old(self).gave_up() ==> count == 0,
            final(self).gave_up() <==> count < split_lines(text@).len(),
    {
        let ghost all = split_lines(text@);
        proof {
            lemma_split_shape(text@);
            assert(all.take(0) == Seq::<Seq<char>>::empty());
        }
        if self.gone {
            return 0;
        }
        let lines = split(text);
        let total = lines.len();
        let mut count: usize = 0;
        assert(total == all.len());
        for line in it: lines
            invariant
                it.seq() == lines@,
                lines@.len() == total,
                all == texts(lines@),
                count <= it.index(),
                !self.gone ==> count == it.index(),
                self.gone ==> count < total,
                !old(self).gone,
                self.delivered() == old(self).delivered() + all.take(count as int),
        {
            if !self.gone {
                if consumer_gone(&self.sender) {
                    self.gone = true;
                } else if offer(&mut self.sender, line) {
                    assert(count < total);
                    assert(all.take(count + 1) == all.take(count as int).push(line@));
                    count = count + 1;
                } else {
                    self.gone = true;
                }
            }
        }
        count
    }
}

} // verus!
