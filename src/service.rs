use vstd::prelude::*;
use crate::filter::{admits, after, FilterState};
use crate::journal::{
    ends_with_newline, entry_of, is_single_line, journal_entry, last_line, lemma_entry_recovered,
    SCAN_START,
};
use crate::position::{position_of, Fix};

verus! {

/// One turn of the service loop: `sentence` is the line as received and
/// `fix` what the decoder made of it. The fix goes through the movement
/// filter; when it is accepted the result holds the bytes to append to the
/// journal, and otherwise there is nothing to write.
pub fn handle_sentence(state: &mut FilterState, sentence: &[u8], fix: Fix) -> (r: Option<Vec<u8>>)
    ensures
        final(state)@ == after(old(state)@, fix),
        match r {
            Some(e) => admits(old(state)@, fix) && e@ == entry_of(sentence@),
            None => !admits(old(state)@, fix) && *final(state) == *old(state),
        },
{
    if state.offer(fix) {
        Some(journal_entry(sentence))
    } else {
        None
    }
}

/// A restart right after an append resumes from the appended fix. When
/// `sentence`, decoded as `fix`, is accepted and appended to a journal whose
/// entries are all terminated, recovery finds exactly that entry, which is
/// the sentence up to its terminator; the state restored from its fix equals
/// the state before the restart; and the same fix offered again is rejected,
/// since it did not move at all.
pub proof fn lemma_restart_after_append(
    journal: Seq<u8>,
    sentence: Seq<u8>,
    before: FilterState,
    fix: Fix,
)
    requires
        ends_with_newline(journal),
        is_single_line(sentence),
        entry_of(sentence).len() >= SCAN_START - 1,
        admits(before@, fix),
    ensures
        last_line(journal + entry_of(sentence)) == Some(entry_of(sentence)),
        after(before@, fix) == position_of(fix),
        position_of(fix) is Some,
        !admits(position_of(fix), fix),
        after(position_of(fix), fix) == position_of(fix),
{
    lemma_entry_recovered(journal, sentence);
}

} // verus!
