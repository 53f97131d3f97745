//! What a remote shell reports about the process it has started.

use crate::lines::{lemma_split_shape, split, split_lines, terminators, unbroken};
use vstd::prelude::*;

verus! {

/// The last line of `listing` that a line terminator completes, if there is
/// one: what follows the last terminator does not count.
pub open spec fn last_complete_line(listing: Seq<char>) -> Option<Seq<char>> {
    let lines = split_lines(listing);
    if lines.len() >= 2 {
        Some(lines[lines.len() - 2])
    } else {
        None
    }
}

/// The process id that a listing of process ids, one to a line, names last:
/// the id of the process that was started last.
pub fn newest_pid(listing: &str) -> (pid: Option<String>)
    ensures
        pid is Some <==> last_complete_line(listing@) is Some,
        pid matches Some(id) ==> last_complete_line(listing@) == Some(id@),
{
    let lines = split(listing);
    let count = lines.len();
    if count >= 2 {
        Some(lines[count - 2].clone())
    } else {
        None
    }
}

/// A listing names a process exactly if it holds a line terminator, and the
/// line it names holds none.
pub proof fn lemma_last_complete_line(listing: Seq<char>)
    ensures
        last_complete_line(listing) is Some <==> exists|i: int|
            0 <= i < listing.len() && listing[i] == '\n',
        last_complete_line(listing) matches Some(line) ==> unbroken(line),
{
    lemma_split_shape(listing);
    lemma_terminators(listing);
}

proof fn lemma_terminators(text: Seq<char>)
    ensures
        terminators(text) >= 1 <==> exists|i: int|
            0 <= i < text.len() && text[i] == '\n',
    decreases text.len(),
{
    if text.len() > 0 {
        let shorter = text.drop_last();
        lemma_terminators(shorter);
        if exists|i: int| 0 <= i < shorter.len() && shorter[i] == '\n' {
            let i = choose|i: int| 0 <= i < shorter.len() && shorter[i] == '\n';
            assert(text[i] == '\n');
        }
        if exists|i: int| 0 <= i < text.len() && text[i] == '\n' {
            let i = choose|i: int| 0 <= i < text.len() && text[i] == '\n';
            if i < shorter.len() {
                assert(shorter[i] == '\n');
            }
        }
    }
}

} // verus!
