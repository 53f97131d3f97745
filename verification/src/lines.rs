//! Splitting a chunk of text into lines.

use vstd::prelude::*;

verus! {

/// The lines of `text`: the pieces between line terminators, in order. A text
/// that ends with a terminator has an empty last line; the empty text has one
/// empty line.
pub open spec fn split_lines(text: Seq<char>) -> Seq<Seq<char>>
    decreases text.len(),
{
    if text.len() == 0 {
        seq![Seq::empty()]
    } else {
        let before = split_lines(text.drop_last());
        if text.last() == '\n' {
            before.push(Seq::empty())
        } else {
            before.update(before.len() - 1, before.last().push(text.last()))
        }
    }
}

/// The texts that a vector of strings holds.
pub open spec fn texts(lines: Seq<String>) -> Seq<Seq<char>> {
    Seq::new(lines.len(), |i: int| lines[i]@)
}

/// `String::push`: the character is appended to the string.
#[verifier::external_body]
fn push_char(line: &mut String, c: char)
    ensures
        final(line)@ == old(line)@.push(c),
{
    line.push(c)
}

/// Splits `text` on the line terminator.
pub fn split(text: &str) -> (lines: Vec<String>)
    ensures
        texts(lines@) == split_lines(text@),
{
    let mut lines: Vec<String> = Vec::new();
    let mut current = String::new();
    for c in it: text.chars()
        invariant
            it.seq() == text@,
            texts(lines@.push(current)) == split_lines(text@.take(it.index() as int)),
    {
        proof {
            let seen = text@.take(it.index() as int);
            let next = text@.take(it.index() as int + 1);
            assert(c == text@[it.index() as int]);
            assert(next.drop_last() == seen);
            assert(next.last() == c);
        }
        let ghost before = lines@.push(current);
        if c == '\n' {
            lines.push(current);
            current = String::new();
            assert(texts(lines@.push(current)) == texts(before).push(Seq::empty()));
        } else {
            push_char(&mut current, c);
            assert(texts(lines@.push(current)) == texts(before).update(
                before.len() - 1,
                texts(before).last().push(c),
            ));
        }
    }
    assert(text@.take(text@.len() as int) == text@);
    lines.push(current);
    lines
}

/// The text that `lines` make when a line terminator is put between each two.
pub open spec fn join_lines(lines: Seq<Seq<char>>) -> Seq<char>
    decreases lines.len(),
{
    if lines.len() == 0 {
        Seq::empty()
    } else if lines.len() == 1 {
        lines[0]
    } else {
        join_lines(lines.drop_last()).push('\n') + lines.last()
    }
}

/// `line` holds no line terminator.
pub open spec fn unbroken(line: Seq<char>) -> bool {
    forall|i: int| 0 <= i < line.len() ==> line[i] != '\n'
}

/// The number of line terminators in `text`.
pub open spec fn terminators(text: Seq<char>) -> nat
    decreases text.len(),
{
    if text.len() == 0 {
        0
    } else if text.last() == '\n' {
        terminators(text.drop_last()) + 1
    } else {
        terminators(text.drop_last())
    }
}

/// A text has one line more than it has line terminators, and none of its
/// lines holds a terminator.
pub proof fn lemma_split_shape(text: Seq<char>)
    ensures
        split_lines(text).len() == terminators(text) + 1,
        forall|i: int| 0 <= i < split_lines(text).len() ==> unbroken(#[trigger] split_lines(text)[i]),
    decreases text.len(),
{
    if text.len() > 0 {
        lemma_split_shape(text.drop_last());
    }
}

/// Joining the lines of a text gives the text back.
pub proof fn lemma_join_of_split(text: Seq<char>)
    ensures
        join_lines(split_lines(text)) == text,
    decreases text.len(),
{
    if text.len() > 0 {
        let shorter = text.drop_last();
        let before = split_lines(shorter);
        let after = split_lines(text);
        lemma_join_of_split(shorter);
        lemma_split_shape(shorter);
        assert(shorter.push(text.last()) == text);
        if text.last() == '\n' {
            assert(after.drop_last() == before);
            assert(join_lines(before).push('\n') + Seq::<char>::empty() == text);
        } else if before.len() == 1 {
        } else {
            assert(after.drop_last() == before.drop_last());
            assert(join_lines(before.drop_last()).push('\n') + before.last().push(text.last())
                == (join_lines(before.drop_last()).push('\n') + before.last()).push(
                text.last(),
            ));
        }
    }
}

/// Splitting what unbroken lines were joined to gives the lines back: the
/// lines of a text are the only unbroken pieces that join to it.
pub proof fn lemma_split_of_join(lines: Seq<Seq<char>>)
    requires
        lines.len() >= 1,
        forall|i: int| 0 <= i < lines.len() ==> unbroken(#[trigger] lines[i]),
    ensures
        split_lines(join_lines(lines)) == lines,
    decreases lines.len(),
{
    if lines.len() == 1 {
        lemma_split_of_unbroken(Seq::empty(), lines[0]);
        assert(Seq::<char>::empty() + lines[0] == lines[0]);
        assert(split_lines(Seq::<char>::empty()) == seq![Seq::<char>::empty()]);
        assert(seq![Seq::<char>::empty()].update(0, Seq::<char>::empty() + lines[0]) == lines);
    } else {
        let head = lines.drop_last();
        lemma_split_of_join(head);
        let stem = join_lines(head).push('\n');
        assert(stem.drop_last() == join_lines(head));
        lemma_split_of_unbroken(stem, lines.last());
        assert(split_lines(stem) == head.push(Seq::<char>::empty()));
        assert(Seq::<char>::empty() + lines.last() == lines.last());
        assert(head.push(Seq::<char>::empty()).update(head.len() as int, lines.last()) == lines);
    }
}

/// Unbroken text that follows `stem` goes to the last line of `stem`.
proof fn lemma_split_of_unbroken(stem: Seq<char>, tail: Seq<char>)
    requires
        unbroken(tail),
    ensures
        split_lines(stem).len() >= 1,
        split_lines(stem + tail) == split_lines(stem).update(
            split_lines(stem).len() - 1,
            split_lines(stem).last() + tail,
        ),
    decreases tail.len(),
{
    lemma_split_shape(stem);
    if tail.len() == 0 {
        assert(stem + tail == stem);
        assert(split_lines(stem).last() + tail == split_lines(stem).last());
        assert(split_lines(stem).update(split_lines(stem).len() - 1, split_lines(stem).last())
            == split_lines(stem));
    } else {
        let shorter = tail.drop_last();
        lemma_split_of_unbroken(stem, shorter);
        let whole = stem + tail;
        assert(whole.drop_last() == stem + shorter);
        assert(whole.last() == tail.last());
        assert((split_lines(stem).last() + shorter).push(tail.last()) == split_lines(stem).last()
            + tail);
    }
}

} // verus!
