use std::cmp::Ordering;
use vstd::prelude::*;

verus! {

/// Strict lexicographic order on two byte strings of the same length.
pub open spec fn lex_less(a: Seq<u8>, b: Seq<u8>) -> bool {
    exists|k: int|
        0 <= k < a.len() && k < b.len() && a.subrange(0, k) == b.subrange(0, k) && #[trigger] a[k]
            < b[k]
}

/// How two byte strings of the same length stand to each other in
/// lexicographic order.
pub open spec fn lex_order(a: Seq<u8>, b: Seq<u8>) -> Ordering {
    if lex_less(a, b) {
        Ordering::Less
    } else if a == b {
        Ordering::Equal
    } else {
        Ordering::Greater
    }
}

/// Byte order never puts two identifiers each before the other.
pub proof fn lemma_lex_less_asymmetric(a: Seq<u8>, b: Seq<u8>)
    requires
        lex_less(a, b),
    ensures
        !lex_less(b, a),
        a != b,
{
    let k = choose|k: int|
        0 <= k < a.len() && k < b.len() && a.subrange(0, k) == b.subrange(0, k) && #[trigger] a[k]
            < b[k];
    if lex_less(b, a) {
        let m = choose|m: int|
            0 <= m < b.len() && m < a.len() && b.subrange(0, m) == a.subrange(0, m)
                && #[trigger] b[m] < a[m];
        if m < k {
            assert(a.subrange(0, k)[m] == a[m]);
            assert(b.subrange(0, k)[m] == b[m]);
        } else if k < m {
            assert(a.subrange(0, m)[k] == a[k]);
            assert(b.subrange(0, m)[k] == b[k]);
        }
    }
}

/// Of two different byte strings of one length, one comes before the other.
pub proof fn lemma_lex_less_total(a: Seq<u8>, b: Seq<u8>)
    requires
        a.len() == b.len(),
        a != b,
    ensures
        lex_less(a, b) || lex_less(b, a),
    decreases a.len(),
{
    if a.len() == 0 {
        assert(a =~= b);
    } else if a[0] != b[0] {
        assert(a.subrange(0, 0) =~= b.subrange(0, 0));
        if a[0] < b[0] {
            assert(lex_less(a, b));
        } else {
            assert(b.subrange(0, 0) =~= a.subrange(0, 0));
            assert(b[0] < a[0]);
            assert(lex_less(b, a));
        }
    } else {
        let x = a.drop_first();
        let y = b.drop_first();
        if x == y {
            assert(a =~= seq![a[0]] + x);
            assert(b =~= seq![b[0]] + y);
        }
        lemma_lex_less_total(x, y);
        if lex_less(x, y) {
            let k = choose|k: int|
                0 <= k < x.len() && k < y.len() && x.subrange(0, k) == y.subrange(0, k)
                    && #[trigger] x[k] < y[k];
            assert(a.subrange(0, k + 1) =~= seq![a[0]] + x.subrange(0, k));
            assert(b.subrange(0, k + 1) =~= seq![b[0]] + y.subrange(0, k));
            assert(a[k + 1] == x[k] && b[k + 1] == y[k]);
            assert(lex_less(a, b));
        } else {
            let k = choose|k: int|
                0 <= k < y.len() && k < x.len() && y.subrange(0, k) == x.subrange(0, k)
                    && #[trigger] y[k] < x[k];
            assert(a.subrange(0, k + 1) =~= seq![a[0]] + x.subrange(0, k));
            assert(b.subrange(0, k + 1) =~= seq![b[0]] + y.subrange(0, k));
            assert(a[k + 1] == x[k] && b[k + 1] == y[k]);
            assert(lex_less(b, a));
        }
    }
}

/// The identifier of one revision: twenty raw bytes.
#[derive(Clone, Copy, Debug)]
pub struct RevisionId {
    pub bytes: [u8; 20],
}

impl View for RevisionId {
    type V = Seq<u8>;

    open spec fn view(&self) -> Seq<u8> {
        self.bytes@
    }
}

impl RevisionId {
    /// Wraps twenty raw bytes as an identifier.
    pub fn from_bytes(bytes: [u8; 20]) -> (id: RevisionId)
        ensures
            id@ == bytes@,
            id@.len() == 20,
    {
        RevisionId { bytes }
    }

    /// Tells whether two identifiers hold the same bytes.
    pub fn same_as(&self, other: &RevisionId) -> (r: bool)
        ensures
            r == (self@ == other@),
    {
        let mut i: usize = 0;
        while i < 20
            invariant
                0 <= i <= 20,
                self@.len() == 20,
                other@.len() == 20,
                forall|j: int| 0 <= j < i ==> self@[j] == other@[j],
            decreases 20 - i,
        {
            if self.bytes[i] != other.bytes[i] {
                return false;
            }
            i += 1;
        }
        assert(self@ =~= other@);
        true
    }

    /// Tells whether `self` comes strictly before `other` in byte order.
    pub fn less_than(&self, other: &RevisionId) -> (r: bool)
        ensures
            r == lex_less(self@, other@),
    {
        let mut i: usize = 0;
        while i < 20
            invariant
                0 <= i <= 20,
                self@.len() == 20,
                other@.len() == 20,
                forall|j: int| 0 <= j < i ==> self@[j] == other@[j],
            decreases 20 - i,
        {
            if self.bytes[i] != other.bytes[i] {
                let lt = self.bytes[i] < other.bytes[i];
                proof {
                    let a = self@;
                    let b = other@;
                    let k = i as int;
                    assert(a.subrange(0, k) =~= b.subrange(0, k));
                    if !lt {
                        assert forall|m: int|
                            0 <= m < a.len() && m < b.len() && a.subrange(0, m) == b.subrange(0, m)
                            implies !(#[trigger] a[m] < b[m]) by {
                            if m > k {
                                assert(a.subrange(0, m)[k] == a[k]);
                                assert(b.subrange(0, m)[k] == b[k]);
                            }
                        }
                    }
                }
                return lt;
            }
            i += 1;
        }
        proof {
            assert(self@ =~= other@);
        }
        false
    }

    /// Compares two identifiers byte by byte, the first byte weighing most.
    pub fn compare(&self, other: &RevisionId) -> (r: Ordering)
        ensures
            r == lex_order(self@, other@),
    {
        if self.less_than(other) {
            Ordering::Less
        } else if self.same_as(other) {
            Ordering::Equal
        } else {
            Ordering::Greater
        }
    }
}

} // verus!
