use vstd::prelude::*;

verus! {

/// The line terminator of journal entries.
pub const NEWLINE: u8 = 10;

/// How far before the end of the journal the backward scan inspects its
/// first byte. Starting there steps over the terminator that ends the last
/// entry, so the first newline met is the one that ends the entry before it.
pub const SCAN_START: usize = 6;

/// Whether `s` ends with a newline.
pub open spec fn ends_with_newline(s: Seq<u8>) -> bool {
    s.len() > 0 && s.last() == NEWLINE
}

/// The bytes appended to the journal for an accepted sentence: the sentence
/// as received, with a newline added when it does not already end in one.
pub open spec fn entry_of(sentence: Seq<u8>) -> Seq<u8> {
    if ends_with_newline(sentence) {
        sentence
    } else {
        sentence.push(NEWLINE)
    }
}

/// `s` without one trailing newline, if it has one.
pub open spec fn without_terminator(s: Seq<u8>) -> Seq<u8> {
    if ends_with_newline(s) {
        s.drop_last()
    } else {
        s
    }
}

/// Whether `s` holds no newline except, possibly, as its last byte.
pub open spec fn is_single_line(s: Seq<u8>) -> bool {
    forall|k: int| 0 <= k < s.len() - 1 ==> s[k] != NEWLINE
}

/// The index of the last newline of `j` at or before index `i`.
pub open spec fn newline_at_or_before(j: Seq<u8>, i: int) -> Option<int>
    decreases i + 1,
{
    if i < 0 {
        None
    } else if i < j.len() && j[i] == NEWLINE {
        Some(i)
    } else {
        newline_at_or_before(j, i - 1)
    }
}

/// The block that recovery hands to the decoder: everything after the last
/// newline found at or before `SCAN_START` bytes from the end. There is none
/// when the scan runs past the start of the journal without meeting a
/// newline, which is the case for an empty journal and for one that holds a
/// single entry.
pub open spec fn last_line(j: Seq<u8>) -> Option<Seq<u8>> {
    match newline_at_or_before(j, j.len() - SCAN_START) {
        Some(b) => Some(j.subrange(b + 1, j.len() as int)),
        None => None,
    }
}

/// Frames an accepted sentence for the journal: a newline is appended when
/// the sentence does not already end in one, so entries never run together
/// and never hold an empty line between them.
pub fn journal_entry(sentence: &[u8]) -> (r: Vec<u8>)
    ensures
        r@ == entry_of(sentence@),
{
    let mut r = vstd::slice::slice_to_vec(sentence);
    let n = sentence.len();
    if n == 0 || sentence[n - 1] != NEWLINE {
        r.push(NEWLINE);
    }
    r
}

/// Locates the last entry of a journal by walking backward from
/// `SCAN_START` bytes before its end, one byte at a time, to the first
/// newline; the block from just after that newline to the end is returned,
/// terminator included. When the walk passes the start of the journal there
/// is nothing to recover.
pub fn recover_last_line(journal: &[u8]) -> (r: Option<Vec<u8>>)
    ensures
        match r {
            Some(v) => last_line(journal@) == Some(v@),
            None => last_line(journal@) == None::<Seq<u8>>,
        },
{
    let n = journal.len();
    if n < SCAN_START {
        assert(newline_at_or_before(journal@, n - SCAN_START) == None::<int>);
        return None;
    }
    let mut i: usize = n - SCAN_START;
    loop
        invariant
            n == journal@.len(),
            i < n,
            newline_at_or_before(journal@, n - SCAN_START) == newline_at_or_before(journal@, i as int),
        decreases i,
    {
        if journal[i] == NEWLINE {
            let tail = vstd::slice::slice_subrange(journal, i + 1, n);
            return Some(vstd::slice::slice_to_vec(tail));
        }
        if i == 0 {
            assert(newline_at_or_before(journal@, i - 1) == None::<int>);
            return None;
        }
        i = i - 1;
    }
}

proof fn lemma_scan_skips(j: Seq<u8>, lo: int, i: int)
    requires
        -1 <= lo <= i < j.len(),
        forall|k: int| lo < k <= i ==> j[k] != NEWLINE,
    ensures
        newline_at_or_before(j, i) == newline_at_or_before(j, lo),
    decreases i - lo,
{
    if i > lo {
        lemma_scan_skips(j, lo, i - 1);
    }
}

/// Appending a single-line sentence to a journal whose entries are all
/// terminated makes that sentence's entry the block that recovery finds,
/// and the entry is the sentence itself up to its terminator. Recovery needs
/// an earlier entry before it and an entry of at least `SCAN_START - 1`
/// bytes.
pub proof fn lemma_entry_recovered(journal: Seq<u8>, sentence: Seq<u8>)
    requires
        ends_with_newline(journal),
        is_single_line(sentence),
        entry_of(sentence).len() >= SCAN_START - 1,
    ensures
        last_line(journal + entry_of(sentence)) == Some(entry_of(sentence)),
        without_terminator(entry_of(sentence)) == without_terminator(sentence),
        ends_with_newline(journal + entry_of(sentence)),
{
    let e = entry_of(sentence);
    let j = journal + e;
    let b = journal.len() - 1;
    assert forall|k: int| b < k <= j.len() - SCAN_START implies j[k] != NEWLINE by {
        assert(j[k] == e[k - journal.len()]);
        if !ends_with_newline(sentence) && k - journal.len() == sentence.len() - 1 {
            assert(e[k - journal.len()] == sentence.last());
        }
    }
    lemma_scan_skips(j, b, j.len() - SCAN_START);
    assert(j[b] == NEWLINE);
    assert(j.subrange(b + 1, j.len() as int) =~= e);
    if !ends_with_newline(sentence) {
        assert(e.drop_last() =~= sentence);
    }
}

} // verus!
