use vstd::prelude::*;

verus! {

/// Strict lexicographic order on byte sequences. Field names of structured
/// entries and keys of field conditions are kept sorted in this order.
pub open spec fn lex_lt(a: Seq<u8>, b: Seq<u8>) -> bool
    decreases a.len(),
{
    if b.len() == 0 {
        false
    } else if a.len() == 0 {
        true
    } else {
        a[0] < b[0] || (a[0] == b[0] && lex_lt(a.skip(1), b.skip(1)))
    }
}

/// `lex_lt` is a strict order: of any two sequences, at most one is below the
/// other, and incomparable sequences are equal.
pub proof fn lemma_lex_lt_trichotomy(a: Seq<u8>, b: Seq<u8>)
    ensures
        lex_lt(a, b) || lex_lt(b, a) || a == b,
        lex_lt(a, b) ==> !lex_lt(b, a) && a != b,
    decreases a.len(),
{
    if a.len() == 0 && b.len() == 0 {
        assert(a =~= b);
    } else if a.len() > 0 && b.len() > 0 {
        lemma_lex_lt_trichotomy(a.skip(1), b.skip(1));
        if a[0] == b[0] && a.skip(1) == b.skip(1) {
            assert(a.skip(1).len() == a.len() - 1);
            assert(b.skip(1).len() == b.len() - 1);
            assert forall|i: int| 0 <= i < a.len() implies a[i] == b[i] by {
                if i >= 1 {
                    assert(a[i] == a.skip(1)[i - 1]);
                    assert(b[i] == b.skip(1)[i - 1]);
                }
            }
            assert(a =~= b);
        }
        if a == b {
            assert(a.skip(1) =~= b.skip(1));
        }
    }
}

/// `lex_lt` is transitive.
pub proof fn lemma_lex_lt_transitive(a: Seq<u8>, b: Seq<u8>, c: Seq<u8>)
    ensures
        lex_lt(a, b) && lex_lt(b, c) ==> lex_lt(a, c),
    decreases a.len(),
{
    if a.len() > 0 && b.len() > 0 && c.len() > 0 {
        lemma_lex_lt_transitive(a.skip(1), b.skip(1), c.skip(1));
    }
}

/// Equal prefixes do not affect the order of the remainders.
proof fn lemma_lex_lt_skip(a: Seq<u8>, b: Seq<u8>, k: int)
    requires
        0 <= k <= a.len(),
        k <= b.len(),
        forall|j: int| 0 <= j < k ==> a[j] == b[j],
    ensures
        lex_lt(a, b) == lex_lt(a.skip(k), b.skip(k)),
    decreases k,
{
    if k == 0 {
        assert(a.skip(0) =~= a);
        assert(b.skip(0) =~= b);
    } else {
        lemma_lex_lt_skip(a.skip(1), b.skip(1), k - 1);
        assert(a.skip(1).skip(k - 1) =~= a.skip(k));
        assert(b.skip(1).skip(k - 1) =~= b.skip(k));
    }
}

/// Three-way comparison result for byte sequences.
#[derive(Debug, Clone, Copy, PartialEq, Eq, Structural)]
pub enum Rel {
    Less,
    Equal,
    Greater,
}

/// Lexicographic three-way comparison of two byte strings, the executable
/// counterpart of `lex_lt`.
pub fn bytes_cmp(a: &Vec<u8>, b: &Vec<u8>) -> (r: Rel)
    ensures
        r == Rel::Less <==> lex_lt(a@, b@),
        r == Rel::Equal <==> a@ == b@,
        r == Rel::Greater <==> lex_lt(b@, a@),
{
    let a_len = a.len();
    let b_len = b.len();
    let mut i: usize = 0;
    while i < a_len && i < b_len
        invariant
            i <= a_len,
            i <= b_len,
            a_len == a@.len(),
            b_len == b@.len(),
            forall|j: int| 0 <= j < i ==> a@[j] == b@[j],
        decreases a_len - i,
    {
        let x = a[i];
        let y = b[i];
        if x < y {
            proof {
                lemma_lex_lt_skip(a@, b@, i as int);
                lemma_lex_lt_trichotomy(a@, b@);
            }
            return Rel::Less;
        }
        if y < x {
            proof {
                lemma_lex_lt_skip(b@, a@, i as int);
                lemma_lex_lt_trichotomy(b@, a@);
            }
            return Rel::Greater;
        }
        i = i + 1;
    }
    if a_len < b_len {
        proof {
            lemma_lex_lt_skip(a@, b@, i as int);
            lemma_lex_lt_trichotomy(a@, b@);
        }
        Rel::Less
    } else if b_len < a_len {
        proof {
            lemma_lex_lt_skip(b@, a@, i as int);
            lemma_lex_lt_trichotomy(b@, a@);
        }
        Rel::Greater
    } else {
        proof {
            assert(a@ =~= b@);
            lemma_lex_lt_trichotomy(a@, b@);
        }
        Rel::Equal
    }
}

} // verus!
