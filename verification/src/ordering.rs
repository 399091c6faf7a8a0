//! The byte order of identifiers, and sorting entries by it.

use vstd::prelude::*;
use crate::entry::Entry;
use std::cmp::Ordering;

verus! {

/// Whether `a` comes strictly before `b` in lexicographic byte order.
pub open spec fn lex_less(a: Seq<u8>, b: Seq<u8>) -> bool
    decreases a.len(),
{
    if b.len() == 0 {
        false
    } else if a.len() == 0 {
        true
    } else if a[0] != b[0] {
        a[0] < b[0]
    } else {
        lex_less(a.drop_first(), b.drop_first())
    }
}

/// Whether the entries are in non-decreasing order of identifier bytes.
pub open spec fn is_sorted_by_identifier(entries: Seq<Entry>) -> bool {
    forall|i: int, j: int|
        0 <= i < j < entries.len() ==> !lex_less(
            #[trigger] entries[j].identifier(),
            #[trigger] entries[i].identifier(),
        )
}

/// Of two different byte strings one comes before the other.
pub proof fn lemma_lex_total(a: Seq<u8>, b: Seq<u8>)
    ensures
        a == b || lex_less(a, b) || lex_less(b, a),
    decreases a.len(),
{
    if a.len() > 0 && b.len() > 0 && a[0] == b[0] {
        lemma_lex_total(a.drop_first(), b.drop_first());
        if a.drop_first() == b.drop_first() {
            assert(a =~= seq![a[0]].add(a.drop_first()));
            assert(b =~= seq![b[0]].add(b.drop_first()));
        }
    } else if a.len() == 0 && b.len() == 0 {
        assert(a =~= b);
    }
}

/// No byte string comes before itself, and of two byte strings at most one
/// comes before the other.
pub proof fn lemma_lex_asymmetric(a: Seq<u8>, b: Seq<u8>)
    ensures
        !(lex_less(a, b) && lex_less(b, a)),
    decreases a.len(),
{
    if a.len() > 0 && b.len() > 0 && a[0] == b[0] {
        lemma_lex_asymmetric(a.drop_first(), b.drop_first());
    }
}

/// Whether two byte strings are the same.
pub fn bytes_equal(a: &[u8], b: &[u8]) -> (r: bool)
    ensures
        r == (a@ == b@),
{
    if a.len() != b.len() {
        return false;
    }
    let mut i: usize = 0;
    while i < a.len()
        invariant
            i <= a@.len(),
            a@.len() == b@.len(),
            forall|j: int| 0 <= j < i ==> a@[j] == b@[j],
        decreases a@.len() - i,
    {
        if a[i] != b[i] {
            return false;
        }
        i += 1;
    }
    assert(a@ =~= b@);
    true
}

/// Whether `a` comes strictly before `b` in lexicographic byte order.
pub fn bytes_less(a: &[u8], b: &[u8]) -> (r: bool)
    ensures
        r == lex_less(a@, b@),
{
    let mut i: usize = 0;
    proof {
        assert(a@.subrange(0, a@.len() as int) =~= a@);
        assert(b@.subrange(0, b@.len() as int) =~= b@);
    }
    while i < a.len() && i < b.len()
        invariant
            i <= a@.len(),
            i <= b@.len(),
            lex_less(a@, b@) == lex_less(
                a@.subrange(i as int, a@.len() as int),
                b@.subrange(i as int, b@.len() as int),
            ),
        decreases a@.len() - i,
    {
        let ghost rest_a = a@.subrange(i as int, a@.len() as int);
        let ghost rest_b = b@.subrange(i as int, b@.len() as int);
        proof {
            assert(rest_a.drop_first() =~= a@.subrange(i + 1, a@.len() as int));
            assert(rest_b.drop_first() =~= b@.subrange(i + 1, b@.len() as int));
            assert(rest_a[0] == a@[i as int]);
            assert(rest_b[0] == b@[i as int]);
        }
        if a[i] != b[i] {
            return a[i] < b[i];
        }
        i += 1;
    }
    proof {
        assert(a@.subrange(i as int, a@.len() as int).len() == a@.len() - i);
        assert(b@.subrange(i as int, b@.len() as int).len() == b@.len() - i);
    }
    i < b.len()
}

/// How the identifiers of two entries compare in byte order.
pub fn compare_identifiers(a: &Entry, b: &Entry) -> (o: Ordering)
    ensures
        (o is Less) == lex_less(a.identifier(), b.identifier()),
        (o is Greater) == lex_less(b.identifier(), a.identifier()),
        (o is Equal) == (a.identifier() == b.identifier()),
{
    let left = a.data().as_bytes();
    let right = b.data().as_bytes();
    proof {
        lemma_lex_total(left@, right@);
        lemma_lex_asymmetric(left@, right@);
        lemma_lex_asymmetric(left@, left@);
    }
    if bytes_less(left, right) {
        Ordering::Less
    } else if bytes_less(right, left) {
        Ordering::Greater
    } else {
        Ordering::Equal
    }
}

/// Calls `sort_by` of std's slices with `compare_identifiers`. Trusted: the
/// vector afterwards holds the same entries, each as often as before, in
/// non-decreasing order of identifier bytes.
#[verifier::external_body]
pub(crate) fn sort_entries(entries: &mut Vec<Entry>)
    ensures
        is_sorted_by_identifier(final(entries)@),
        final(entries)@.to_multiset() == old(entries)@.to_multiset(),
{
    entries.sort_by(|a, b| compare_identifiers(a, b));
}

} // verus!
