//! Ordering records by a numeric key, largest first.

use vstd::prelude::*;

verus! {

/// `order` lists each index of `keys` exactly once, largest key first.
pub open spec fn sorted_desc_permutation(keys: Seq<u64>, order: Seq<usize>) -> bool {
    &&& order.len() == keys.len()
    &&& order.no_duplicates()
    &&& forall|a: int| 0 <= a < order.len() ==> #[trigger] order[a] < keys.len()
    &&& forall|a: int, b: int| 0 <= a < b < order.len() ==> keys[#[trigger] order[a] as int] >= keys[#[trigger] order[b] as int]
}

/// Every index below `n` occurs in `order`.
pub open spec fn covers(order: Seq<usize>, n: int) -> bool {
    forall|x: usize| x < n ==> #[trigger] order.contains(x)
}

/// The indices of `keys`, ordered by decreasing key; among equal keys the
/// earlier index comes first.
pub fn sort_indices_desc(keys: &Vec<u64>) -> (r: Vec<usize>)
    ensures
        sorted_desc_permutation(keys@, r@),
        covers(r@, keys@.len() as int),
{
    let mut out: Vec<usize> = Vec::new();
    let mut i: usize = 0;
    while i < keys.len()
        invariant
            i <= keys@.len(),
            out@.len() == i,
            out@.no_duplicates(),
            forall|a: int| 0 <= a < out@.len() ==> #[trigger] out@[a] < i,
            forall|a: int, b: int| 0 <= a < b < out@.len() ==> keys@[#[trigger] out@[a] as int] >= keys@[#[trigger] out@[b] as int],
            covers(out@, i as int),
        decreases keys@.len() - i,
    {
        let k = keys[i];
        let mut pos: usize = 0;
        while pos < out.len() && keys[out[pos]] >= k
            invariant
                pos <= out@.len(),
                forall|a: int| 0 <= a < out@.len() ==> #[trigger] out@[a] < i,
                i < keys@.len(),
                k == keys@[i as int],
                forall|a: int| 0 <= a < pos ==> keys@[#[trigger] out@[a] as int] >= k,
            decreases out@.len() - pos,
        {
            pos = pos + 1;
        }
        let ghost before = out@;
        proof {
            assert forall|a: int| pos <= a < before.len() implies keys@[#[trigger] before[a] as int] < k by {
                if pos < before.len() {
                    if a > pos {
                        assert(keys@[before[pos as int] as int] >= keys@[before[a] as int]);
                    }
                }
            }
        }
        out.insert(pos, i);
        proof {
            let s = out@;
            assert(s == before.insert(pos as int, i));
            assert forall|a: int| 0 <= a < s.len() implies #[trigger] s[a] < i + 1 by {
                if a < pos {
                    assert(s[a] == before[a]);
                } else if a > pos {
                    assert(s[a] == before[a - 1]);
                }
            }
            assert(s.no_duplicates()) by {
                assert forall|a: int, b: int| 0 <= a < s.len() && 0 <= b < s.len() && a != b implies s[a] != s[b] by {
                    if a != pos && b != pos {
                        let a2 = if a < pos { a } else { a - 1 };
                        let b2 = if b < pos { b } else { b - 1 };
                        assert(s[a] == before[a2] && s[b] == before[b2]);
                    } else if a == pos {
                        let b2 = if b < pos { b } else { b - 1 };
                        assert(s[b] == before[b2]);
                    } else {
                        let a2 = if a < pos { a } else { a - 1 };
                        assert(s[a] == before[a2]);
                    }
                }
            }
            assert forall|a: int, b: int| 0 <= a < b < s.len() implies keys@[#[trigger] s[a] as int] >= keys@[#[trigger] s[b] as int] by {
                if b < pos {
                    assert(s[a] == before[a] && s[b] == before[b]);
                } else if b == pos {
                    assert(s[a] == before[a]);
                } else if a < pos {
                    assert(s[a] == before[a] && s[b] == before[b - 1]);
                    assert(keys@[before[b - 1] as int] < k);
                } else if a == pos {
                    assert(s[b] == before[b - 1]);
                } else {
                    assert(s[a] == before[a - 1] && s[b] == before[b - 1]);
                }
            }
            assert forall|x: usize| x < i + 1 implies #[trigger] s.contains(x) by {
                if x == i {
                    assert(s[pos as int] == i);
                } else {
                    assert(before.contains(x));
                    let a = choose|a: int| 0 <= a < before.len() && before[a] == x;
                    if a < pos {
                        assert(s[a] == x);
                    } else {
                        assert(s[a + 1] == x);
                    }
                }
            }
        }
        i = i + 1;
    }
    out
}

} // verus!
