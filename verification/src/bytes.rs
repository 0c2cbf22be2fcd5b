//! Big-endian integer reads and byte-wise lexicographic comparison over
//! byte strings, with their specifications.

use vstd::prelude::*;

verus! {

/// The value of the big-endian 32-bit integer stored at byte position `p`.
pub open spec fn be_u32_at(d: Seq<u8>, p: int) -> int
    recommends
        0 <= p,
        p + 4 <= d.len(),
{
    0x100_0000 * (d[p] as int) + 0x1_0000 * (d[p + 1] as int) + 0x100 * (d[p + 2] as int) + (d[p
        + 3] as int)
}

/// The value of the big-endian 64-bit integer stored at byte position `p`.
pub open spec fn be_u64_at(d: Seq<u8>, p: int) -> int
    recommends
        0 <= p,
        p + 8 <= d.len(),
{
    0x100_0000_0000_0000 * (d[p] as int) + 0x1_0000_0000_0000 * (d[p + 1] as int)
        + 0x100_0000_0000 * (d[p + 2] as int) + 0x1_0000_0000 * (d[p + 3] as int) + 0x100_0000 * (
    d[p + 4] as int) + 0x1_0000 * (d[p + 5] as int) + 0x100 * (d[p + 6] as int) + (d[p + 7] as int)
}

/// Reads the big-endian 32-bit integer at byte position `p` of `d`.
pub fn read_be_u32(d: &[u8], p: usize) -> (r: u32)
    requires
        p + 4 <= d@.len(),
    ensures
        r == be_u32_at(d@, p as int),
{
    let b0 = d[p] as u32;
    let b1 = d[p + 1] as u32;
    let b2 = d[p + 2] as u32;
    let b3 = d[p + 3] as u32;
    b0 * 0x100_0000 + b1 * 0x1_0000 + b2 * 0x100 + b3
}

/// Reads the big-endian 64-bit integer at byte position `p` of `d`.
pub fn read_be_u64(d: &[u8], p: usize) -> (r: u64)
    requires
        p + 8 <= d@.len(),
    ensures
        r == be_u64_at(d@, p as int),
{
    let b0 = d[p] as u64;
    let b1 = d[p + 1] as u64;
    let b2 = d[p + 2] as u64;
    let b3 = d[p + 3] as u64;
    let b4 = d[p + 4] as u64;
    let b5 = d[p + 5] as u64;
    let b6 = d[p + 6] as u64;
    let b7 = d[p + 7] as u64;
    b0 * 0x100_0000_0000_0000 + b1 * 0x1_0000_0000_0000 + b2 * 0x100_0000_0000 + b3
        * 0x1_0000_0000 + b4 * 0x100_0000 + b5 * 0x1_0000 + b6 * 0x100 + b7
}

/// Strict byte-wise lexicographic order on byte strings: a proper prefix
/// comes before every extension of it.
pub open spec fn lex_lt(a: Seq<u8>, b: Seq<u8>) -> bool
    decreases a.len(),
{
    if b.len() == 0 {
        false
    } else if a.len() == 0 {
        true
    } else if a[0] != b[0] {
        a[0] < b[0]
    } else {
        lex_lt(a.drop_first(), b.drop_first())
    }
}

/// The order is irreflexive: strictly related byte strings differ.
pub proof fn lemma_lex_lt_neq(a: Seq<u8>, b: Seq<u8>)
    requires
        lex_lt(a, b),
    ensures
        a != b,
    decreases a.len(),
{
    if a.len() != 0 && b.len() != 0 && a[0] == b[0] {
        lemma_lex_lt_neq(a.drop_first(), b.drop_first());
        assert(a == b ==> a.drop_first() == b.drop_first());
    }
}

/// The order is transitive.
pub proof fn lemma_lex_lt_trans(a: Seq<u8>, b: Seq<u8>, c: Seq<u8>)
    requires
        lex_lt(a, b),
        lex_lt(b, c),
    ensures
        lex_lt(a, c),
    decreases a.len(),
{
    if a.len() != 0 && b.len() != 0 && c.len() != 0 {
        if a[0] == b[0] && b[0] == c[0] {
            lemma_lex_lt_trans(a.drop_first(), b.drop_first(), c.drop_first());
        }
    }
}

/// Relates the order on two byte strings that agree on their first `k`
/// bytes to what stands at position `k`.
pub proof fn lemma_lex_from_prefix(a: Seq<u8>, b: Seq<u8>, k: int)
    requires
        0 <= k <= a.len(),
        k <= b.len(),
        forall|j: int| 0 <= j < k ==> a[j] == b[j],
    ensures
        (k < a.len() && k < b.len() && a[k] < b[k]) ==> lex_lt(a, b),
        (k == a.len() && k < b.len()) ==> lex_lt(a, b),
        (k == a.len() && k == b.len()) ==> a == b,
    decreases k,
{
    if k == 0 {
        if k == a.len() && k == b.len() {
            assert(a =~= b);
        }
    } else {
        let a1 = a.drop_first();
        let b1 = b.drop_first();
        assert(forall|j: int| 0 <= j < k - 1 ==> a1[j] == b1[j]);
        lemma_lex_from_prefix(a1, b1, k - 1);
        if k < a.len() && k < b.len() && a[k] < b[k] {
            assert(a1[k - 1] == a[k] && b1[k - 1] == b[k]);
        }
        if k == a.len() && k == b.len() && a1 == b1 {
            assert(a =~= b);
        }
    }
}

/// The result of a three-way byte-string comparison.
pub enum ByteCmp {
    Less,
    Equal,
    Greater,
}

/// Three-way byte-wise lexicographic comparison.
pub fn lex_compare(a: &[u8], b: &[u8]) -> (r: ByteCmp)
    ensures
        r is Less ==> lex_lt(a@, b@),
        r is Greater ==> lex_lt(b@, a@),
        r is Equal ==> a@ == b@,
{
    let a_len = a.len();
    let b_len = b.len();
    let n = if a_len < b_len {
        a_len
    } else {
        b_len
    };
    let mut i: usize = 0;
    while i < n
        invariant
            i <= n,
            n <= a@.len(),
            n <= b@.len(),
            n == a@.len() || n == b@.len(),
            forall|k: int| 0 <= k < i ==> a@[k] == b@[k],
        decreases n - i,
    {
        let x = a[i];
        let y = b[i];
        if x < y {
            proof {
                lemma_lex_from_prefix(a@, b@, i as int);
            }
            return ByteCmp::Less;
        }
        if x > y {
            proof {
                lemma_lex_from_prefix(b@, a@, i as int);
            }
            return ByteCmp::Greater;
        }
        i += 1;
    }
    proof {
        lemma_lex_from_prefix(a@, b@, n as int);
        lemma_lex_from_prefix(b@, a@, n as int);
    }
    if a_len == b_len {
        ByteCmp::Equal
    } else if a_len < b_len {
        ByteCmp::Less
    } else {
        ByteCmp::Greater
    }
}

} // verus!
