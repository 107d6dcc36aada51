//! Field-value maps: a canonical field name paired with the value read for it.

use vstd::prelude::*;
use crate::text::str_eq;

verus! {

/// Field name and value pairs, in the order the row supplied them.
pub type FieldMap = Vec<(String, String)>;

pub open spec fn pairs_view(m: Seq<(String, String)>) -> Seq<(Seq<char>, Seq<char>)> {
    m.map_values(|p: (String, String)| (p.0@, p.1@))
}

/// The value of the first entry named `k`.
pub open spec fn lookup(m: Seq<(Seq<char>, Seq<char>)>, k: Seq<char>) -> Option<Seq<char>>
    decreases m.len(),
{
    if m.len() == 0 {
        None
    } else if m[0].0 == k {
        Some(m[0].1)
    } else {
        lookup(m.drop_first(), k)
    }
}

/// The value of `k`, or the empty value where `k` is absent.
pub open spec fn value_or_empty(m: Seq<(Seq<char>, Seq<char>)>, k: Seq<char>) -> Seq<char> {
    match lookup(m, k) {
        Some(v) => v,
        None => Seq::empty(),
    }
}

/// Whether no name occurs twice.
pub open spec fn keys_unique(m: Seq<(Seq<char>, Seq<char>)>) -> bool {
    forall|i: int, j: int| 0 <= i < j < m.len() ==> m[i].0 != m[j].0
}

pub proof fn lemma_lookup_index(m: Seq<(Seq<char>, Seq<char>)>, k: Seq<char>, i: int)
    requires
        0 <= i < m.len(),
        m[i].0 == k,
        forall|j: int| 0 <= j < i ==> m[j].0 != k,
    ensures
        lookup(m, k) == Some(m[i].1),
    decreases i,
{
    if i > 0 {
        lemma_lookup_index(m.drop_first(), k, i - 1);
    }
}

pub proof fn lemma_lookup_absent(m: Seq<(Seq<char>, Seq<char>)>, k: Seq<char>)
    requires
        forall|j: int| 0 <= j < m.len() ==> m[j].0 != k,
    ensures
        lookup(m, k) is None,
    decreases m.len(),
{
    if m.len() > 0 {
        lemma_lookup_absent(m.drop_first(), k);
    }
}

/// The position of the first entry named `k`.
pub fn find_key(m: &FieldMap, k: &str) -> (r: Option<usize>)
    ensures
        r matches Some(i) ==> i < m@.len() && pairs_view(m@)[i as int].0 == k@ && lookup(
            pairs_view(m@),
            k@,
        ) == Some(pairs_view(m@)[i as int].1),
        r is None ==> lookup(pairs_view(m@), k@) is None,
{
    let ghost pv = pairs_view(m@);
    let mut i: usize = 0;
    while i < m.len()
        invariant
            i <= m@.len(),
            pv == pairs_view(m@),
            forall|j: int| 0 <= j < i ==> pv[j].0 != k@,
        decreases m.len() - i,
    {
        if str_eq(&m[i].0, k) {
            proof {
                lemma_lookup_index(pv, k@, i as int);
            }
            return Some(i);
        }
        i = i + 1;
    }
    proof {
        lemma_lookup_absent(pv, k@);
    }
    None
}

/// The value of `k`, or the empty string where `k` is absent.
pub fn get_or_empty(m: &FieldMap, k: &str) -> (r: String)
    ensures
        r@ == value_or_empty(pairs_view(m@), k@),
{
    match find_key(m, k) {
        Some(i) => m[i].1.clone(),
        None => String::new(),
    }
}

} // verus!

verus! {

/// The value of the first entry whose folded key `fk[k]` is `t`.
pub open spec fn first_folded(
    m: Seq<(Seq<char>, Seq<char>)>,
    fk: Seq<Seq<char>>,
    t: Seq<char>,
) -> Option<Seq<char>>
    decreases m.len(),
{
    if m.len() == 0 || fk.len() == 0 {
        None
    } else if fk[0] == t {
        Some(m[0].1)
    } else {
        first_folded(m.drop_first(), fk.drop_first(), t)
    }
}

/// Looks a folded text up among folded keys: `folded_keys[k]` stands for the
/// key of entry `k`, in whatever folded form the caller chose.
pub fn lookup_folded(m: &FieldMap, folded_keys: &Vec<String>, target: &str) -> (r: Option<String>)
    requires
        folded_keys@.len() == m@.len(),
    ensures
        match r {
            Some(v) => first_folded(pairs_view(m@), crate::merge::cells_view(folded_keys@), target@)
                == Some(v@),
            None => first_folded(pairs_view(m@), crate::merge::cells_view(folded_keys@), target@) is None,
        },
{
    let ghost pv = pairs_view(m@);
    let ghost fv = crate::merge::cells_view(folded_keys@);
    let mut i: usize = 0;
    assert(pv.subrange(0, pv.len() as int) =~= pv);
    assert(fv.subrange(0, fv.len() as int) =~= fv);
    while i < m.len()
        invariant
            i <= m@.len() == folded_keys@.len(),
            pv == pairs_view(m@),
            fv == crate::merge::cells_view(folded_keys@),
            first_folded(pv, fv, target@) == first_folded(
                pv.subrange(i as int, pv.len() as int),
                fv.subrange(i as int, fv.len() as int),
                target@,
            ),
        decreases m.len() - i,
    {
        assert(pv.subrange(i as int, pv.len() as int).drop_first() =~= pv.subrange(i + 1, pv.len() as int));
        assert(fv.subrange(i as int, fv.len() as int).drop_first() =~= fv.subrange(i + 1, fv.len() as int));
        assert(pv.subrange(i as int, pv.len() as int)[0] == pv[i as int]);
        assert(fv.subrange(i as int, fv.len() as int)[0] == fv[i as int]);
        assert(pv[i as int].1 == m@[i as int].1@);
        if str_eq(folded_keys[i].as_str(), target) {
            return Some(m[i].1.clone());
        }
        i = i + 1;
    }
    assert(pv.subrange(i as int, pv.len() as int).len() == 0);
    None
}

} // verus!
