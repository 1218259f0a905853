//! The order of texts that `String`'s `Ord` gives (UTF-8 bytes compared
//! lexicographically, which orders as the characters' code points do), and a
//! stable sort by it.
use vstd::prelude::*;

use crate::text::chars_of;

verus! {

/// `a` comes strictly before `b`.
pub open spec fn lex_lt(a: Seq<char>, b: Seq<char>) -> bool
    decreases a.len(),
{
    if b.len() == 0 {
        false
    } else if a.len() == 0 {
        true
    } else if a[0] != b[0] {
        a[0] < b[0]
    } else {
        lex_lt(a.drop_first(), b.drop_first())
    }
}

pub proof fn lemma_lex_irreflexive(a: Seq<char>)
    ensures
        !lex_lt(a, a),
    decreases a.len(),
{
    if a.len() > 0 {
        lemma_lex_irreflexive(a.drop_first());
    }
}

pub proof fn lemma_lex_asymmetric(a: Seq<char>, b: Seq<char>)
    ensures
        !(lex_lt(a, b) && lex_lt(b, a)),
    decreases a.len(),
{
    if a.len() > 0 && b.len() > 0 && a[0] == b[0] {
        lemma_lex_asymmetric(a.drop_first(), b.drop_first());
    }
}

pub proof fn lemma_lex_total(a: Seq<char>, b: Seq<char>)
    ensures
        lex_lt(a, b) || lex_lt(b, a) || a == b,
    decreases a.len(),
{
    if a.len() > 0 && b.len() > 0 {
        if a[0] == b[0] {
            lemma_lex_total(a.drop_first(), b.drop_first());
            if a.drop_first() == b.drop_first() {
                assert(a =~= seq![a[0]] + a.drop_first());
                assert(b =~= seq![b[0]] + b.drop_first());
            }
        }
    } else if a.len() == 0 && b.len() == 0 {
        assert(a =~= b);
    }
}

pub proof fn lemma_lex_transitive(a: Seq<char>, b: Seq<char>, c: Seq<char>)
    requires
        lex_lt(a, b),
        lex_lt(b, c),
    ensures
        lex_lt(a, c),
    decreases a.len(),
{
    if a.len() > 0 && a[0] == b[0] && b[0] == c[0] {
        lemma_lex_transitive(a.drop_first(), b.drop_first(), c.drop_first());
    }
}

/// `a` does not come after `b`.
pub open spec fn lex_le(a: Seq<char>, b: Seq<char>) -> bool {
    !lex_lt(b, a)
}

/// Whether `a` comes strictly before `b`.
pub fn lex_less(a: &str, b: &str) -> (r: bool)
    ensures
        r == lex_lt(a@, b@),
{
    let va = chars_of(a);
    let vb = chars_of(b);
    let mut i: usize = 0;
    assert(va@.skip(0) == va@);
    assert(vb@.skip(0) == vb@);
    while i < va.len() && i < vb.len() && va[i] == vb[i]
        invariant
            i <= va@.len(),
            i <= vb@.len(),
            lex_lt(va@, vb@) == lex_lt(va@.skip(i as int), vb@.skip(i as int)),
        decreases va.len() - i,
    {
        assert(va@.skip(i as int).drop_first() == va@.skip(i + 1));
        assert(vb@.skip(i as int).drop_first() == vb@.skip(i + 1));
        i += 1;
    }
    if i == vb.len() {
        false
    } else if i == va.len() {
        true
    } else {
        assert(va@.skip(i as int)[0] == va@[i as int]);
        assert(vb@.skip(i as int)[0] == vb@[i as int]);
        va[i] < vb[i]
    }
}

// ── Stable sort, newest first ─────────────────────────────────────────────────

/// `perm` lists each index of `keys` once.
pub open spec fn is_permutation(perm: Seq<usize>, n: nat) -> bool {
    &&& perm.len() == n
    &&& forall|a: int| 0 <= a < perm.len() ==> #[trigger] perm[a] < n
    &&& forall|a: int, b: int| 0 <= a < b < perm.len() ==> perm[a] != perm[b]
    &&& forall|j: int| 0 <= j < n ==> #[trigger] lists(perm, j)
}

/// `j` occurs in `perm`.
pub open spec fn lists(perm: Seq<usize>, j: int) -> bool {
    exists|a: int| 0 <= a < perm.len() && #[trigger] perm[a] == j
}

/// `perm` orders `keys` from the greatest to the least, keeping the input
/// order among equal keys (what a stable sort by descending key gives).
pub open spec fn stable_descending(keys: Seq<Seq<char>>, perm: Seq<usize>) -> bool {
    &&& is_permutation(perm, keys.len())
    &&& forall|a: int, b: int|
        #![trigger perm[a], perm[b]]
        0 <= a < b < perm.len() ==> lex_le(keys[perm[b] as int], keys[perm[a] as int])
    &&& forall|a: int, b: int|
        #![trigger perm[a], perm[b]]
        0 <= a < b < perm.len() && keys[perm[a] as int] == keys[perm[b] as int] ==> perm[a]
            < perm[b]
}

/// The order in which a stable sort puts `keys`, greatest first.
pub fn descending_order(keys: &Vec<String>) -> (perm: Vec<usize>)
    ensures
        stable_descending(keys@.map_values(|k: String| k@), perm@),
{
    let ghost ks = keys@.map_values(|k: String| k@);
    let mut perm: Vec<usize> = Vec::new();
    let mut i: usize = 0;
    while i < keys.len()
        invariant
            i <= keys@.len(),
            ks == keys@.map_values(|k: String| k@),
            perm@.len() == i,
            forall|a: int| 0 <= a < perm@.len() ==> #[trigger] perm@[a] < i,
            forall|a: int, b: int| 0 <= a < b < perm@.len() ==> perm@[a] != perm@[b],
            forall|j: int| 0 <= j < i ==> #[trigger] lists(perm@, j),
            forall|a: int, b: int|
                #![trigger perm@[a], perm@[b]]
                0 <= a < b < perm@.len() ==> lex_le(ks[perm@[b] as int], ks[perm@[a] as int]),
            forall|a: int, b: int|
                #![trigger perm@[a], perm@[b]]
                0 <= a < b < perm@.len() && ks[perm@[a] as int] == ks[perm@[b] as int]
                    ==> perm@[a] < perm@[b],
        decreases keys.len() - i,
    {
        let ki = keys[i].as_str();
        assert(ki@ == ks[i as int]);
        // Insert after every key that is not smaller than `ki`.
        let mut p: usize = 0;
        while p < perm.len() && !lex_less(keys[perm[p]].as_str(), ki)
            invariant
                p <= perm@.len(),
                i < keys@.len(),
                ks == keys@.map_values(|k: String| k@),
                ki@ == ks[i as int],
                forall|a: int| 0 <= a < perm@.len() ==> #[trigger] perm@[a] < i,
                forall|a: int| 0 <= a < p ==> !lex_lt(ks[#[trigger] perm@[a] as int], ks[i as int]),
            decreases perm.len() - p,
        {
            assert(ks[perm@[p as int] as int] == keys@[perm@[p as int] as int]@);
            p += 1;
        }
        proof {
            // Everything from `p` on is smaller than `ki`.
            assert forall|b: int| p <= b < perm@.len() implies lex_lt(
                ks[#[trigger] perm@[b] as int],
                ks[i as int],
            ) by {
                let kp = ks[perm@[p as int] as int];
                let kb = ks[perm@[b] as int];
                if b > p {
                    assert(lex_le(kb, kp));
                    lemma_lex_total(kb, kp);
                    if kb != kp {
                        lemma_lex_transitive(kb, kp, ks[i as int]);
                    }
                }
            }
        }
        let ghost old_perm = perm@;
        perm.insert(p, i);
        proof {
            assert forall|a: int, b: int| 0 <= a < b < perm@.len() implies lex_le(
                ks[#[trigger] perm@[b] as int],
                ks[#[trigger] perm@[a] as int],
            ) by {
                if a < p && b < p {
                    assert(perm@[a] == old_perm[a] && perm@[b] == old_perm[b]);
                } else if a < p && b == p {
                } else if a < p && b > p {
                    assert(perm@[a] == old_perm[a] && perm@[b] == old_perm[b - 1]);
                } else if a == p {
                    assert(perm@[b] == old_perm[b - 1]);
                    lemma_lex_asymmetric(ks[perm@[b] as int], ks[i as int]);
                } else {
                    assert(perm@[a] == old_perm[a - 1] && perm@[b] == old_perm[b - 1]);
                }
            }
            assert forall|a: int, b: int|
                0 <= a < b < perm@.len() && ks[#[trigger] perm@[a] as int] == ks[#[trigger] perm@[
                    b
                ] as int] implies perm@[a] < perm@[b] by {
                if a < p && b < p {
                    assert(perm@[a] == old_perm[a] && perm@[b] == old_perm[b]);
                } else if a < p && b == p {
                    assert(perm@[a] == old_perm[a]);
                } else if a < p && b > p {
                    assert(perm@[a] == old_perm[a] && perm@[b] == old_perm[b - 1]);
                } else if a == p {
                    assert(perm@[b] == old_perm[b - 1]);
                    lemma_lex_irreflexive(ks[i as int]);
                } else {
                    assert(perm@[a] == old_perm[a - 1] && perm@[b] == old_perm[b - 1]);
                }
            }
            assert forall|a: int| 0 <= a < perm@.len() implies #[trigger] perm@[a] < i + 1 by {
                if a < p {
                    assert(perm@[a] == old_perm[a]);
                } else if a > p {
                    assert(perm@[a] == old_perm[a - 1]);
                }
            }
            assert forall|j: int| 0 <= j < i + 1 implies #[trigger] lists(perm@, j) by {
                if j == i {
                    assert(perm@[p as int] == j);
                } else {
                    assert(lists(old_perm, j));
                    let a = choose|a: int| 0 <= a < old_perm.len() && #[trigger] old_perm[a] == j;
                    if a < p {
                        assert(perm@[a] == j);
                    } else {
                        assert(perm@[a + 1] == j);
                    }
                }
            }
            assert forall|a: int, b: int| 0 <= a < b < perm@.len() implies perm@[a] != perm@[b] by {
                if a < p && b < p {
                    assert(perm@[a] == old_perm[a] && perm@[b] == old_perm[b]);
                } else if a < p && b == p {
                    assert(perm@[a] == old_perm[a]);
                } else if a < p && b > p {
                    assert(perm@[a] == old_perm[a] && perm@[b] == old_perm[b - 1]);
                } else if a == p {
                    assert(perm@[b] == old_perm[b - 1]);
                } else {
                    assert(perm@[a] == old_perm[a - 1] && perm@[b] == old_perm[b - 1]);
                }
            }
        }
        i += 1;
    }
    perm
}

} // verus!
