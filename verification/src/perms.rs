use vstd::prelude::*;
use vstd::seq_lib::*;
use vstd::set_lib::*;

verus! {

/// `s` is a permutation of the indices 0 .. n: it has length n, every
/// entry is below n, and every index below n occurs.
pub open spec fn is_permutation(s: Seq<usize>, n: nat) -> bool {
    &&& s.len() == n
    &&& forall|j: int| 0 <= j < s.len() ==> (#[trigger] s[j]) < n
    &&& forall|v: usize| v < n ==> #[trigger] s.contains(v)
}

/// A sequence of length n over 0 .. n that contains every index holds
/// each exactly once.
pub proof fn lemma_permutation_no_duplicates(s: Seq<usize>, n: nat)
    requires
        n <= usize::MAX,
        is_permutation(s, n),
    ensures
        s.no_duplicates(),
{
    let t = s.map_values(|x: usize| x as int);
    assert(t.to_set() =~= set_int_range(0, n as int)) by {
        assert forall|a: int| t.to_set().contains(a) implies set_int_range(0, n as int).contains(
            a,
        ) by {
            let j = choose|j: int| 0 <= j < t.len() && t[j] == a;
            assert(s[j] < n);
        }
        assert forall|a: int| set_int_range(0, n as int).contains(a) implies t.to_set().contains(
            a,
        ) by {
            assert(s.contains(a as usize));
            let j = choose|j: int| 0 <= j < s.len() && s[j] == a as usize;
            assert(t[j] == a);
            assert(t.contains(a));
        }
    }
    lemma_int_range(0, n as int);
    assert(t.to_set().len() == t.len());
    t.lemma_no_dup_set_cardinality();
    assert forall|i: int, j: int|
        0 <= i < s.len() && 0 <= j < s.len() && i != j implies s[i] != s[j] by {
        assert(t[i] != t[j]);
    }
}

/// Inserting the new largest index anywhere into a permutation of
/// 0 .. n-1 gives a permutation of 0 .. n.
proof fn lemma_insert_is_permutation(q: Seq<usize>, pos: int, n: nat)
    requires
        1 <= n <= usize::MAX,
        is_permutation(q, (n - 1) as nat),
        0 <= pos <= q.len(),
    ensures
        is_permutation(q.insert(pos, (n - 1) as usize), n),
{
    let v = (n - 1) as usize;
    let s = q.insert(pos, v);
    q.insert_ensures(pos, v);
    assert forall|j: int| 0 <= j < s.len() implies (#[trigger] s[j]) < n by {
        if j < pos {
            assert(s[j] == q[j]);
        } else if j == pos {
        } else {
            assert(s[j] == q[j - 1]);
        }
    }
    assert forall|w: usize| w < n implies #[trigger] s.contains(w) by {
        if w == v {
            assert(s[pos] == w);
        } else {
            assert(q.contains(w));
            let j = choose|j: int| 0 <= j < q.len() && q[j] == w;
            if j < pos {
                assert(s[j] == w);
            } else {
                assert(s[j + 1] == w);
            }
        }
    }
}

/// Every permutation of 0 .. n arises by removing the position of its
/// largest index; the remainder is a permutation of 0 .. n-1 and
/// reinserting restores the original.
proof fn lemma_permutation_decompose(s: Seq<usize>, n: nat) -> (pos: int)
    requires
        1 <= n <= usize::MAX,
        is_permutation(s, n),
    ensures
        0 <= pos < s.len(),
        s[pos] == (n - 1) as usize,
        is_permutation(s.remove(pos), (n - 1) as nat),
        s.remove(pos).insert(pos, (n - 1) as usize) == s,
{
    let v = (n - 1) as usize;
    lemma_permutation_no_duplicates(s, n);
    assert(s.contains(v));
    let pos = choose|j: int| 0 <= j < s.len() && s[j] == v;
    let q = s.remove(pos);
    s.remove_ensures(pos);
    assert forall|j: int| 0 <= j < q.len() implies (#[trigger] q[j]) < (n - 1) as nat by {
        if j < pos {
            assert(q[j] == s[j]);
            assert(s[j] != v);
        } else {
            assert(q[j] == s[j + 1]);
            assert(s[j + 1] != v);
        }
    }
    assert forall|w: usize| w < (n - 1) as nat implies #[trigger] q.contains(w) by {
        assert(s.contains(w));
        let j = choose|j: int| 0 <= j < s.len() && s[j] == w;
        if j < pos {
            assert(q[j] == w);
        } else {
            assert(j != pos);
            assert(q[j - 1] == w);
        }
    }
    assert(q.insert(pos, v) =~= s) by {
        q.insert_ensures(pos, v);
    }
    pos
}

/// Some entry of `r` reads `q` with `v` inserted at position `pos`.
pub open spec fn inserted_in(r: Seq<Vec<usize>>, q: Seq<usize>, pos: int, v: usize) -> bool {
    exists|u: int| 0 <= u < r.len() && (#[trigger] r[u])@ == q.insert(pos, v)
}

/// Appending an entry preserves `inserted_in`.
proof fn lemma_inserted_in_push(r: Seq<Vec<usize>>, w: Vec<usize>, q: Seq<usize>, pos: int, v: usize)
    requires
        inserted_in(r, q, pos, v),
    ensures
        inserted_in(r.push(w), q, pos, v),
{
    let u = choose|u: int| 0 <= u < r.len() && (#[trigger] r[u])@ == q.insert(pos, v);
    assert(r.push(w)[u]@ == q.insert(pos, v));
}

/// Copy `q` with `val` inserted at position `pos`.
fn insert_copy(q: &Vec<usize>, pos: usize, val: usize) -> (r: Vec<usize>)
    requires
        pos <= q@.len(),
    ensures
        r@ == q@.insert(pos as int, val),
{
    let mut r: Vec<usize> = Vec::new();
    let mut i: usize = 0;
    while i < pos
        invariant
            pos <= q@.len(),
            i <= pos,
            r@ =~= q@.subrange(0, i as int),
        decreases pos - i,
    {
        r.push(q[i]);
        i = i + 1;
    }
    r.push(val);
    let mut j: usize = pos;
    while j < q.len()
        invariant
            pos <= j <= q@.len(),
            r@ =~= q@.subrange(0, pos as int).push(val) + q@.subrange(pos as int, j as int),
        decreases q@.len() - j,
    {
        r.push(q[j]);
        j = j + 1;
    }
    proof {
        assert(r@ =~= q@.insert(pos as int, val));
    }
    r
}

/// All permutations of the indices 0 .. n: every entry of the result is
/// a permutation, and every permutation occurs among the entries.
pub fn all_permutations(n: usize) -> (r: Vec<Vec<usize>>)
    ensures
        r@.len() >= 1,
        forall|t: int| 0 <= t < r@.len() ==> is_permutation((#[trigger] r@[t])@, n as nat),
        forall|s: Seq<usize>|
            #[trigger] is_permutation(s, n as nat) ==> exists|t: int|
                0 <= t < r@.len() && (#[trigger] r@[t])@ == s,
    decreases n,
{
    if n == 0 {
        let mut r: Vec<Vec<usize>> = Vec::new();
        let empty: Vec<usize> = Vec::new();
        r.push(empty);
        proof {
            assert(is_permutation(r@[0]@, 0));
            assert forall|s: Seq<usize>| #[trigger] is_permutation(s, 0) implies exists|t: int|
                0 <= t < r@.len() && (#[trigger] r@[t])@ == s by {
                assert(s =~= r@[0]@);
            }
        }
        r
    } else {
        let prev = all_permutations(n - 1);
        let v: usize = n - 1;
        let mut r: Vec<Vec<usize>> = Vec::new();
        let mut p: usize = 0;
        while p < prev.len()
            invariant
                n >= 1,
                v == n - 1,
                forall|t: int|
                    0 <= t < prev@.len() ==> is_permutation((#[trigger] prev@[t])@, (n - 1) as nat),
                p <= prev@.len(),
                forall|t: int| 0 <= t < r@.len() ==> is_permutation((#[trigger] r@[t])@, n as nat),
                forall|t: int, pp: int|
                    0 <= t < p && 0 <= pp <= (n - 1) ==> #[trigger] inserted_in(
                        r@,
                        prev@[t]@,
                        pp,
                        v,
                    ),
            decreases prev@.len() - p,
        {
            let q = &prev[p];
            let mut pos: usize = 0;
            while pos < n
                invariant
                    n >= 1,
                    v == n - 1,
                    p < prev@.len(),
                    q@ == prev@[p as int]@,
                    is_permutation(q@, (n - 1) as nat),
                    pos <= n,
                    forall|t: int|
                        0 <= t < r@.len() ==> is_permutation((#[trigger] r@[t])@, n as nat),
                    forall|t: int, pp: int|
                        0 <= t < p && 0 <= pp <= (n - 1) ==> #[trigger] inserted_in(
                            r@,
                            prev@[t]@,
                            pp,
                            v,
                        ),
                    forall|pp: int| 0 <= pp < pos ==> #[trigger] inserted_in(r@, q@, pp, v),
                decreases n - pos,
            {
                let w = insert_copy(q, pos, v);
                proof {
                    lemma_insert_is_permutation(q@, pos as int, n as nat);
                }
                let ghost old_r = r@;
                r.push(w);
                proof {
                    assert forall|t: int, pp: int|
                        0 <= t < p && 0 <= pp <= (n - 1) implies #[trigger] inserted_in(
                        r@,
                        prev@[t]@,
                        pp,
                        v,
                    ) by {
                        lemma_inserted_in_push(old_r, w, prev@[t]@, pp, v);
                    }
                    assert forall|pp: int| 0 <= pp < pos implies #[trigger] inserted_in(
                        r@,
                        q@,
                        pp,
                        v,
                    ) by {
                        lemma_inserted_in_push(old_r, w, q@, pp, v);
                    }
                    assert(inserted_in(r@, q@, pos as int, v)) by {
                        assert(r@[r@.len() - 1]@ == q@.insert(pos as int, v));
                    }
                }
                pos = pos + 1;
            }
            p = p + 1;
        }
        proof {
            assert forall|s: Seq<usize>| #[trigger] is_permutation(s, n as nat) implies exists|
                t: int,
            |
                0 <= t < r@.len() && (#[trigger] r@[t])@ == s by {
                let pos = lemma_permutation_decompose(s, n as nat);
                let q = s.remove(pos);
                let t = choose|t: int| 0 <= t < prev@.len() && (#[trigger] prev@[t])@ == q;
                assert(inserted_in(r@, prev@[t]@, pos, v));
                let u = choose|u: int| 0 <= u < r@.len() && (#[trigger] r@[u])@ == q.insert(pos, v);
                assert(r@[u]@ == s);
            }
            let idseq = Seq::new(n as nat, |i: int| i as usize);
            assert(is_permutation(idseq, n as nat)) by {
                assert forall|w: usize| w < n as nat implies #[trigger] idseq.contains(w) by {
                    assert(idseq[w as int] == w);
                }
            }
            assert(exists|t: int| 0 <= t < r@.len() && (#[trigger] r@[t])@ == idseq);
        }
        r
    }
}

} // verus!
