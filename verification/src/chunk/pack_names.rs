//! The pack-names chunk: one null-terminated path per pack, in strictly
//! increasing byte-wise order; trailing bytes after the last terminator
//! are tolerated and ignored.

use vstd::prelude::*;
use crate::bytes::{lex_compare, lex_lt, lemma_lex_lt_neq, lemma_lex_lt_trans, ByteCmp};
use vstd::slice::slice_to_vec;

verus! {

/// Why the pack-names chunk was rejected.
#[derive(Debug)]
pub enum Error {
    NotOrderedAlphabetically,
    MissingNullByte,
    PathEncoding { path: Vec<u8> },
}

/// Index of the first null byte of `s`, if any.
pub open spec fn find_null(s: Seq<u8>) -> Option<int>
    decreases s.len(),
{
    if s.len() == 0 {
        None
    } else if s[0] == 0 {
        Some(0int)
    } else {
        match find_null(s.drop_first()) {
            None => None,
            Some(j) => Some(j + 1),
        }
    }
}

/// `find_null` names the first null byte: everything before it is
/// non-null, and when there is none the whole string is non-null.
pub proof fn lemma_find_null(s: Seq<u8>)
    ensures
        match find_null(s) {
            Some(j) => 0 <= j < s.len() && s[j] == 0 && forall|k: int| 0 <= k < j ==> s[k] != 0,
            None => forall|k: int| 0 <= k < s.len() ==> s[k] != 0,
        },
    decreases s.len(),
{
    if s.len() != 0 && s[0] != 0 {
        let t = s.drop_first();
        lemma_find_null(t);
        match find_null(t) {
            None => {
                assert forall|k: int| 0 <= k < s.len() implies s[k] != 0 by {
                    if k > 0 {
                        assert(t[k - 1] != 0);
                    }
                }
            },
            Some(j) => {
                assert(t[j] == s[j + 1]);
                assert forall|k: int| 0 <= k < j + 1 implies s[k] != 0 by {
                    if k > 0 {
                        assert(t[k - 1] != 0);
                    }
                }
            },
        }
    }
}

/// Splitting the chunk into `n` names, apart from host-encoding checks:
/// either the names, a missing terminator, or an ordering violation,
/// whichever the left-to-right scan meets first.
pub enum Split {
    Names(Seq<Seq<u8>>),
    MissingNull,
    Unordered,
}

/// One step of the scan per name, carrying the names taken so far.
pub open spec fn split_rec(chunk: Seq<u8>, n: int, acc: Seq<Seq<u8>>) -> Split
    decreases n,
{
    if n <= 0 {
        Split::Names(acc)
    } else {
        match find_null(chunk) {
            None => Split::MissingNull,
            Some(p) => {
                let name = chunk.take(p);
                if acc.len() > 0 && !lex_lt(acc.last(), name) {
                    Split::Unordered
                } else {
                    split_rec(chunk.skip(p + 1), n - 1, acc.push(name))
                }
            },
        }
    }
}

/// The names of the chunk, split on null terminators.
pub open spec fn split_names(chunk: Seq<u8>, n: int) -> Split {
    split_rec(chunk, n, Seq::empty())
}

/// Each name is strictly below its successor in byte-wise order.
pub open spec fn strictly_increasing(names: Seq<Seq<u8>>) -> bool {
    forall|i: int| 0 <= i < names.len() - 1 ==> #[trigger] lex_lt(names[i], names[i + 1])
}

/// The names the scan examines, in order, carrying the names taken so
/// far: every name whose terminator exists and whose predecessors are
/// strictly increasing, including the first name that itself breaks the
/// order — the scan looks at that one before comparing it.
pub open spec fn taken_rec(chunk: Seq<u8>, n: int, acc: Seq<Seq<u8>>) -> Seq<Seq<u8>>
    decreases n,
{
    if n <= 0 {
        acc
    } else {
        match find_null(chunk) {
            None => acc,
            Some(p) => {
                let name = chunk.take(p);
                if acc.len() > 0 && !lex_lt(acc.last(), name) {
                    acc.push(name)
                } else {
                    taken_rec(chunk.skip(p + 1), n - 1, acc.push(name))
                }
            },
        }
    }
}

/// The names the scan of the chunk examines, in order.
pub open spec fn taken_names(chunk: Seq<u8>, n: int) -> Seq<Seq<u8>> {
    taken_rec(chunk, n, Seq::empty())
}

/// Whatever the accumulator holds, the finished scan still holds.
proof fn lemma_taken_keeps(chunk: Seq<u8>, n: int, acc: Seq<Seq<u8>>, x: Seq<u8>)
    requires
        acc.contains(x),
    ensures
        taken_rec(chunk, n, acc).contains(x),
    decreases n,
{
    let i = choose|i: int| 0 <= i < acc.len() && acc[i] == x;
    if n > 0 {
        match find_null(chunk) {
            None => {},
            Some(p) => {
                let name = chunk.take(p);
                assert(acc.push(name)[i] == x);
                if !(acc.len() > 0 && !lex_lt(acc.last(), name)) {
                    lemma_taken_keeps(chunk.skip(p + 1), n - 1, acc.push(name), x);
                }
            },
        }
    }
}

/// Every byte is plain ASCII.
pub open spec fn all_ascii(s: Seq<u8>) -> bool {
    forall|k: int| 0 <= k < s.len() ==> s[k] < 0x80
}

/// Relies on os_str_bytes::OsStrBytes::from_io_bytes for std::path::Path:
/// the bytes convert to a host path exactly when the host encoding
/// accepts them. Unix-family hosts accept every byte string and the
/// others exactly valid UTF-8, so every supported host accepts at least
/// plain ASCII.
#[verifier::external_body]
fn path_encoding_ok(name: &[u8]) -> (r: bool)
    ensures
        all_ascii(name@) ==> r,
{
    <std::path::Path as os_str_bytes::OsStrBytes>::from_io_bytes(name).is_some()
}

/// Splits the chunk into exactly `num_packs` null-terminated names,
/// requiring strictly increasing byte-wise order and a host-representable
/// encoding for each name.
pub fn from_slice(chunk: &[u8], num_packs: u32) -> (r: Result<Vec<Vec<u8>>, Error>)
    ensures
        r matches Ok(names) ==> {
            &&& split_names(chunk@, num_packs as int) == Split::Names(names.deep_view())
            &&& names.deep_view().len() == num_packs
            &&& strictly_increasing(names.deep_view())
        },
        r matches Err(Error::MissingNullByte) ==> split_names(chunk@, num_packs as int)
            is MissingNull,
        r matches Err(Error::NotOrderedAlphabetically) ==> split_names(chunk@, num_packs as int)
            is Unordered,
        r matches Err(Error::PathEncoding { path }) ==> num_packs > 0 && taken_names(
            chunk@,
            num_packs as int,
        ).contains(path@) && !all_ascii(path@),
        num_packs == 0 ==> r is Ok,
{
    let mut out: Vec<Vec<u8>> = Vec::new();
    let mut cursor: usize = 0;
    let mut k: u32 = 0;
    proof {
        assert(chunk@.skip(0) =~= chunk@);
        assert(out.deep_view() =~= Seq::<Seq<u8>>::empty());
    }
    while k < num_packs
        invariant
            k <= num_packs,
            cursor <= chunk@.len(),
            out.deep_view().len() == k,
            strictly_increasing(out.deep_view()),
            split_names(chunk@, num_packs as int) == split_rec(
                chunk@.skip(cursor as int),
                num_packs - k,
                out.deep_view(),
            ),
            taken_names(chunk@, num_packs as int) == taken_rec(
                chunk@.skip(cursor as int),
                num_packs - k,
                out.deep_view(),
            ),
        decreases num_packs - k,
    {
        let ghost rest = chunk@.skip(cursor as int);
        let mut j: usize = cursor;
        while j < chunk.len() && chunk[j] != 0
            invariant
                cursor <= j <= chunk@.len(),
                forall|m: int| cursor <= m < j ==> chunk@[m] != 0,
            decreases chunk@.len() - j,
        {
            j += 1;
        }
        proof {
            lemma_find_null(rest);
            assert(forall|m: int| 0 <= m < j - cursor ==> rest[m] == chunk@[cursor + m]);
        }
        if j == chunk.len() {
            proof {
                if find_null(rest) is Some {
                    let jj = find_null(rest).unwrap();
                    assert(chunk@[cursor + jj] != 0);
                }
            }
            return Err(Error::MissingNullByte);
        }
        let ghost p: int = j - cursor;
        proof {
            assert(rest[p] == chunk@[j as int] && rest[p] == 0);
            if find_null(rest) is None {
                assert(rest[p] != 0);
            }
            let jj = find_null(rest).unwrap();
            if jj < p {
                assert(chunk@[cursor + jj] != 0);
                assert(rest[jj] == 0);
            }
            if jj > p {
                assert(rest[p] != 0);
            }
            assert(find_null(rest) == Some(p));
        }
        let name_slice = &chunk[cursor..j];
        proof {
            assert(name_slice@ =~= rest.take(p));
        }
        let name: Vec<u8> = slice_to_vec(name_slice);
        if !path_encoding_ok(name_slice) {
            proof {
                let acc = out.deep_view();
                let taken = acc.push(rest.take(p));
                assert(taken[acc.len() as int] == rest.take(p));
                if !(acc.len() > 0 && !lex_lt(acc.last(), rest.take(p))) {
                    lemma_taken_keeps(rest.skip(p + 1), num_packs - k - 1, taken, rest.take(p));
                }
                assert(taken_names(chunk@, num_packs as int).contains(rest.take(p)));
            }
            return Err(Error::PathEncoding { path: name });
        }
        if out.len() > 0 {
            let prev = &out[out.len() - 1];
            let ghost prev_seq = out.deep_view().last();
            proof {
                assert(prev@ =~= prev_seq);
            }
            let cmp = lex_compare(prev.as_slice(), name.as_slice());
            if !matches!(cmp, ByteCmp::Less) {
                proof {
                    if lex_lt(prev_seq, name@) {
                        lemma_lex_lt_neq(prev_seq, name@);
                        if cmp is Greater {
                            lemma_lex_lt_trans(prev_seq, name@, prev_seq);
                            lemma_lex_lt_neq(prev_seq, prev_seq);
                        }
                    }
                }
                return Err(Error::NotOrderedAlphabetically);
            }
        }
        let ghost old_out = out.deep_view();
        out.push(name);
        cursor = j + 1;
        k = k + 1;
        proof {
            assert(out.deep_view() =~~= old_out.push(rest.take(p)));
            assert(chunk@.skip(cursor as int) =~= rest.skip(p + 1));
            assert(strictly_increasing(out.deep_view())) by {
                let nv = out.deep_view();
                assert(forall|i: int| 0 <= i < nv.len() - 1 ==> nv[i] == old_out[i]);
                assert(forall|i: int| 0 <= i < nv.len() - 2 ==> #[trigger] lex_lt(
                    nv[i],
                    nv[i + 1],
                ) == lex_lt(old_out[i], old_out[i + 1]));
            }
        }
    }
    Ok(out)
}

} // verus!
