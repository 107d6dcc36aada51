//! Levenshtein edit distance over characters.

use vstd::prelude::*;

verus! {

pub open spec fn min3(a: nat, b: nat, c: nat) -> nat {
    if a <= b && a <= c {
        a
    } else if b <= c {
        b
    } else {
        c
    }
}

pub open spec fn max_nat(a: nat, b: nat) -> nat {
    if a >= b {
        a
    } else {
        b
    }
}

/// Fewest single-character insertions, deletions and substitutions that turn
/// `a` into `b`.
pub open spec fn edit_distance(a: Seq<char>, b: Seq<char>) -> nat
    decreases a.len() + b.len(),
{
    if a.len() == 0 {
        b.len()
    } else if b.len() == 0 {
        a.len()
    } else {
        min3(
            edit_distance(a.drop_last(), b) + 1,
            edit_distance(a, b.drop_last()) + 1,
            edit_distance(a.drop_last(), b.drop_last()) + if a.last() == b.last() {
                0nat
            } else {
                1nat
            },
        )
    }
}

pub proof fn lemma_edit_distance_bound(a: Seq<char>, b: Seq<char>)
    ensures
        edit_distance(a, b) <= max_nat(a.len(), b.len()),
    decreases a.len() + b.len(),
{
    if a.len() > 0 && b.len() > 0 {
        lemma_edit_distance_bound(a.drop_last(), b.drop_last());
    }
}

pub proof fn lemma_edit_distance_step(a: Seq<char>, b: Seq<char>, i: int, j: int)
    requires
        0 < i <= a.len(),
        0 < j <= b.len(),
    ensures
        edit_distance(a.subrange(0, i), b.subrange(0, j)) == min3(
            edit_distance(a.subrange(0, i - 1), b.subrange(0, j)) + 1,
            edit_distance(a.subrange(0, i), b.subrange(0, j - 1)) + 1,
            edit_distance(a.subrange(0, i - 1), b.subrange(0, j - 1)) + if a[i - 1] == b[j - 1] {
                0nat
            } else {
                1nat
            },
        ),
{
    assert(a.subrange(0, i).drop_last() =~= a.subrange(0, i - 1));
    assert(b.subrange(0, j).drop_last() =~= b.subrange(0, j - 1));
}

/// The edit distance of two character sequences, by dynamic programming over
/// one row at a time.
pub fn edit_distance_chars(a: &Vec<char>, b: &Vec<char>) -> (r: usize)
    ensures
        r == edit_distance(a@, b@),
{
    let la = a.len();
    let lb = b.len();
    let mut prev: Vec<u128> = Vec::new();
    let mut k: usize = 0;
    while k < lb
        invariant
            k <= lb,
            lb == b@.len(),
            prev@.len() == k,
            forall|m: int|
                0 <= m < k ==> #[trigger] prev@[m] == edit_distance(
                    a@.subrange(0, 0),
                    b@.subrange(0, m),
                ),
        decreases lb + 1 - k,
    {
        prev.push(k as u128);
        k = k + 1;
    }
    prev.push(lb as u128);
    let mut i: usize = 0;
    while i < la
        invariant
            i <= la == a@.len(),
            lb == b@.len(),
            prev@.len() == lb + 1,
            forall|m: int|
                0 <= m <= lb ==> #[trigger] prev@[m] == edit_distance(
                    a@.subrange(0, i as int),
                    b@.subrange(0, m),
                ),
        decreases la - i,
    {
        let mut cur: Vec<u128> = Vec::new();
        proof {
            assert(b@.subrange(0, 0) =~= Seq::<char>::empty());
        }
        cur.push((i + 1) as u128);
        let mut j: usize = 0;
        while j < lb
            invariant
                i < la == a@.len(),
                lb == b@.len(),
                0 <= j <= lb,
                prev@.len() == lb + 1,
                cur@.len() == j + 1,
                forall|m: int|
                    0 <= m <= lb ==> #[trigger] prev@[m] == edit_distance(
                        a@.subrange(0, i as int),
                        b@.subrange(0, m),
                    ),
                forall|m: int|
                    0 <= m <= j ==> #[trigger] cur@[m] == edit_distance(
                        a@.subrange(0, i + 1),
                        b@.subrange(0, m),
                    ),
            decreases lb - j,
        {
            proof {
                lemma_edit_distance_step(a@, b@, i + 1, j + 1);
                lemma_edit_distance_bound(a@.subrange(0, i as int), b@.subrange(0, j + 1));
                lemma_edit_distance_bound(a@.subrange(0, i + 1), b@.subrange(0, j as int));
                lemma_edit_distance_bound(a@.subrange(0, i as int), b@.subrange(0, j as int));
            }
            let cost: u128 = if a[i] == b[j] {
                0
            } else {
                1
            };
            let del = prev[j + 1] + 1;
            let ins = cur[j] + 1;
            let sub = prev[j] + cost;
            let best = if del <= ins && del <= sub {
                del
            } else if ins <= sub {
                ins
            } else {
                sub
            };
            cur.push(best);
            j = j + 1;
        }
        prev = cur;
        i = i + 1;
    }
    proof {
        assert(a@.subrange(0, la as int) =~= a@);
        assert(b@.subrange(0, lb as int) =~= b@);
        lemma_edit_distance_bound(a@, b@);
    }
    prev[lb] as usize
}

} // verus!
