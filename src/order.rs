//! Ordering of port names and the deterministic order of a sequential scan.
use vstd::prelude::*;
use vstd::string::*;

verus! {

/// `a` sorts before `b`: the first differing character decides by its code
/// point, and a proper prefix sorts first. Code-point order is the order of
/// the UTF-8 bytes, so this is the standard order of strings.
pub open spec fn name_lt(a: Seq<char>, b: Seq<char>) -> bool
    decreases a.len(),
{
    if b.len() == 0 {
        false
    } else if a.len() == 0 {
        true
    } else if (a[0] as u32) != (b[0] as u32) {
        (a[0] as u32) < (b[0] as u32)
    } else {
        name_lt(a.drop_first(), b.drop_first())
    }
}

/// No name sorts both before and after another.
pub proof fn lemma_name_lt_asymmetric(a: Seq<char>, b: Seq<char>)
    ensures
        name_lt(a, b) ==> !name_lt(b, a),
    decreases a.len(),
{
    if a.len() > 0 && b.len() > 0 && (a[0] as u32) == (b[0] as u32) {
        lemma_name_lt_asymmetric(a.drop_first(), b.drop_first());
    }
}

/// Whether name `a` sorts before name `b`.
pub fn name_before(a: &str, b: &str) -> (r: bool)
    ensures
        r == name_lt(a@, b@),
{
    let la = a.unicode_len();
    let lb = b.unicode_len();
    let mut i: usize = 0;
    assert(a@.skip(0) =~= a@);
    assert(b@.skip(0) =~= b@);
    while i < la && i < lb
        invariant
            i <= la,
            i <= lb,
            la == a@.len(),
            lb == b@.len(),
            name_lt(a@, b@) == name_lt(a@.skip(i as int), b@.skip(i as int)),
        decreases la - i,
    {
        let ca = a.get_char(i) as u32;
        let cb = b.get_char(i) as u32;
        assert(a@.skip(i as int)[0] == a@[i as int]);
        assert(b@.skip(i as int)[0] == b@[i as int]);
        if ca != cb {
            return ca < cb;
        }
        assert(a@.skip(i as int).drop_first() =~= a@.skip(i + 1));
        assert(b@.skip(i as int).drop_first() =~= b@.skip(i + 1));
        i = i + 1;
    }
    assert(a@.skip(i as int).len() == la - i);
    assert(b@.skip(i as int).len() == lb - i);
    i < lb
}

/// `order` lists each index below `n` exactly once.
pub open spec fn is_index_permutation(order: Seq<usize>, n: nat) -> bool {
    &&& order.len() == n
    &&& forall|k: int| 0 <= k < n ==> order[k] < n
    &&& forall|k: int, l: int| 0 <= k < l < n ==> order[k] != order[l]
}

/// Following `order`, no name sorts before the one after it.
pub open spec fn descending_by(names: Seq<String>, order: Seq<usize>) -> bool {
    forall|k: int|
        0 <= k && k + 1 < order.len() ==> !name_lt(
            #[trigger] names[order[k] as int]@,
            names[order[k + 1] as int]@,
        )
}

/// The order in which a sequential scan probes `names`: every index once,
/// names descending.
pub fn scan_order(names: &Vec<String>) -> (order: Vec<usize>)
    ensures
        is_index_permutation(order@, names@.len()),
        descending_by(names@, order@),
{
    let mut order: Vec<usize> = Vec::new();
    let mut i: usize = 0;
    while i < names.len()
        invariant
            i <= names@.len(),
            order@.len() == i,
            forall|k: int| 0 <= k < i ==> order@[k] < i,
            forall|k: int, l: int| 0 <= k < l < i ==> order@[k] != order@[l],
            descending_by(names@, order@),
        decreases names@.len() - i,
    {
        let mut j: usize = 0;
        while j < order.len() && !name_before(names[order[j]].as_str(), names[i].as_str())
            invariant
                j <= order@.len(),
                i < names@.len(),
                order@.len() == i,
                forall|k: int| 0 <= k < i ==> order@[k] < i,
                forall|k: int| 0 <= k < j ==> !name_lt(names@[order@[k] as int]@, names@[i as int]@),
            decreases order@.len() - j,
        {
            j = j + 1;
        }
        let ghost before = order@;
        proof {
            if j < before.len() {
                lemma_name_lt_asymmetric(names@[before[j as int] as int]@, names@[i as int]@);
            }
        }
        order.insert(j, i);
        assert(order@ == before.insert(j as int, i));
        assert forall|k: int| 0 <= k && k + 1 < order@.len() implies !name_lt(
            #[trigger] names@[order@[k] as int]@,
            names@[order@[k + 1] as int]@,
        ) by {
            if k + 1 < j {
                assert(order@[k] == before[k] && order@[k + 1] == before[k + 1]);
            } else if k + 1 == j {
                assert(order@[k] == before[k] && order@[k + 1] == i);
            } else if k == j {
                assert(order@[k] == i && order@[k + 1] == before[k]);
            } else {
                assert(order@[k] == before[k - 1] && order@[k + 1] == before[k]);
            }
        }
        i = i + 1;
    }
    order
}

} // verus!
