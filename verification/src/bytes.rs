//! Byte strings: comparing them and searching them.

use vstd::prelude::*;

verus! {

/// Whether two byte strings hold the same bytes.
pub fn bytes_equal(a: &[u8], b: &[u8]) -> (r: bool)
    ensures
        r == (a@ == b@),
{
    if a.len() != b.len() {
        return false;
    }
    let mut i: usize = 0;
    while i < a.len()
        invariant
            i <= a.len(),
            a.len() == b.len(),
            a@.take(i as int) == b@.take(i as int),
        decreases a.len() - i,
    {
        if a[i] != b[i] {
            return false;
        }
        proof {
            assert(a@.take(i + 1) == a@.take(i as int).push(a@[i as int]));
            assert(b@.take(i + 1) == b@.take(i as int).push(b@[i as int]));
        }
        i += 1;
    }
    proof {
        assert(a@.take(i as int) == a@);
        assert(b@.take(i as int) == b@);
    }
    true
}

/// Appends `bytes` to `out`.
pub fn push_all(out: &mut Vec<u8>, bytes: &[u8])
    ensures
        final(out)@ == old(out)@ + bytes@,
{
    let mut i: usize = 0;
    while i < bytes.len()
        invariant
            i <= bytes.len(),
            out@ =~= old(out)@ + bytes@.take(i as int),
        decreases bytes.len() - i,
    {
        proof {
            assert(bytes@.take(i + 1) =~= bytes@.take(i as int).push(bytes@[i as int]));
        }
        out.push(bytes[i]);
        i += 1;
    }
    proof {
        assert(bytes@.take(i as int) =~= bytes@);
    }
}

/// The position of the first byte that `accepts` refuses; `bytes.len()` when
/// it accepts them all.
pub open spec fn first_rejected(bytes: Seq<u8>, accepts: spec_fn(u8) -> bool) -> int
    decreases bytes.len(),
{
    if bytes.len() == 0 {
        0
    } else if !accepts(bytes[0]) {
        0
    } else {
        1 + first_rejected(bytes.skip(1), accepts)
    }
}

/// Every byte before the first rejected one is accepted, and the byte at
/// that position, if there is one, is not.
pub proof fn lemma_first_rejected(bytes: Seq<u8>, accepts: spec_fn(u8) -> bool)
    ensures
        0 <= first_rejected(bytes, accepts) <= bytes.len(),
        forall|j: int| 0 <= j < first_rejected(bytes, accepts) ==> accepts(#[trigger] bytes[j]),
        first_rejected(bytes, accepts) < bytes.len() ==> !accepts(
            bytes[first_rejected(bytes, accepts)],
        ),
    decreases bytes.len(),
{
    if bytes.len() > 0 && accepts(bytes[0]) {
        let rest = bytes.skip(1);
        lemma_first_rejected(rest, accepts);
        assert forall|j: int| 0 <= j < first_rejected(bytes, accepts) implies accepts(
            #[trigger] bytes[j],
        ) by {
            if j > 0 {
                assert(bytes[j] == rest[j - 1]);
            }
        }
        if first_rejected(bytes, accepts) < bytes.len() {
            assert(rest[first_rejected(rest, accepts)] == bytes[first_rejected(bytes, accepts)]);
        }
    }
}

/// A position with only accepted bytes before it, which ends the bytes or
/// holds a rejected one, is the first rejected position.
pub proof fn lemma_first_rejected_at(bytes: Seq<u8>, accepts: spec_fn(u8) -> bool, at: int)
    requires
        0 <= at <= bytes.len(),
        forall|j: int| 0 <= j < at ==> accepts(#[trigger] bytes[j]),
        at < bytes.len() ==> !accepts(bytes[at]),
    ensures
        first_rejected(bytes, accepts) == at,
{
    lemma_first_rejected(bytes, accepts);
}

} // verus!
