//! Recursive deep merge of one structured value into another.

use vstd::prelude::*;
use crate::value::{members_view, unique_keys, wf, Json, JsonV};

verus! {

/// The position of the last member named `k`, or -1 where there is none.
pub open spec fn key_index(m: Seq<(Seq<char>, JsonV)>, k: Seq<char>) -> int
    decreases m.len(),
{
    if m.len() == 0 {
        -1
    } else if m[m.len() - 1].0 == k {
        m.len() - 1
    } else {
        key_index(m.subrange(0, m.len() - 1), k)
    }
}

/// `patch` merged into `base`: two objects merge member by member, an empty
/// object patch leaves any base as it is, and anything else in `patch`
/// replaces `base` whole.
pub open spec fn merged(base: JsonV, patch: JsonV) -> JsonV
    decreases patch,
{
    if let JsonV::Object(pm) = patch {
        if let JsonV::Object(bm) = base {
            JsonV::Object(merged_members(bm, pm))
        } else if pm.len() == 0 {
            base
        } else {
            patch
        }
    } else {
        patch
    }
}

/// The members of `patch` folded, in order, into the members of `base`: a
/// key already present has its value merged, a new key is appended.
pub open spec fn merged_members(
    base: Seq<(Seq<char>, JsonV)>,
    patch: Seq<(Seq<char>, JsonV)>,
) -> Seq<(Seq<char>, JsonV)>
    decreases patch,
{
    if patch.len() == 0 {
        base
    } else {
        let acc = merged_members(base, patch.subrange(0, patch.len() - 1));
        let entry = patch[patch.len() - 1];
        let i = key_index(acc, entry.0);
        if i >= 0 {
            acc.update(i, (entry.0, merged(acc[i].1, entry.1)))
        } else {
            acc.push(entry)
        }
    }
}

proof fn lemma_key_index_prefix(m: Seq<(Seq<char>, JsonV)>, k: Seq<char>, n: int)
    requires
        0 <= n <= m.len(),
        forall|j: int| n <= j < m.len() ==> m[j].0 != k,
    ensures
        key_index(m, k) == key_index(m.subrange(0, n), k),
    decreases m.len() - n,
{
    if n < m.len() {
        assert(m.subrange(0, m.len() - 1).subrange(0, n) =~= m.subrange(0, n));
        lemma_key_index_prefix(m.subrange(0, m.len() - 1), k, n);
    } else {
        assert(m.subrange(0, n) =~= m);
    }
}

proof fn lemma_key_index_range(m: Seq<(Seq<char>, JsonV)>, k: Seq<char>)
    ensures
        -1 <= key_index(m, k) < m.len(),
        key_index(m, k) >= 0 ==> m[key_index(m, k)].0 == k,
    decreases m.len(),
{
    if m.len() > 0 && m[m.len() - 1].0 != k {
        lemma_key_index_range(m.subrange(0, m.len() - 1), k);
    }
}

/// The position of the last member named `k`.
fn find_member(m: &Vec<(String, Json)>, k: &String) -> (r: Option<usize>)
    ensures
        match r {
            Some(i) => i as int == key_index(members_view(m@), k@),
            None => key_index(members_view(m@), k@) == -1,
        },
{
    let ghost mv = members_view(m@);
    let mut i: usize = m.len();
    while i > 0
        invariant
            i <= m@.len(),
            mv == members_view(m@),
            forall|j: int| i <= j < m@.len() ==> mv[j].0 != k@,
        decreases i,
    {
        if m[i - 1].0 == *k {
            proof {
                lemma_key_index_prefix(mv, k@, i as int);
                assert(mv.subrange(0, i as int)[i - 1].0 == k@);
            }
            return Some(i - 1);
        }
        i = i - 1;
    }
    proof {
        lemma_key_index_prefix(mv, k@, 0);
    }
    None
}

/// Merges the members of `patch`, in order, into `base`.
fn merge_members(base: &mut Vec<(String, Json)>, patch: &Vec<(String, Json)>)
    ensures
        members_view(final(base)@) == merged_members(members_view(old(base)@), members_view(patch@)),
    decreases patch,
{
    let ghost b0 = members_view(base@);
    let ghost pv = members_view(patch@);
    let mut j: usize = 0;
    while j < patch.len()
        invariant
            j <= patch@.len(),
            pv == members_view(patch@),
            members_view(base@) == merged_members(b0, pv.subrange(0, j as int)),
        decreases patch@.len() - j,
    {
        let ghost before = members_view(base@);
        proof {
            assert(pv.subrange(0, j + 1).subrange(0, j as int) =~= pv.subrange(0, j as int));
        }
        let found = find_member(base, &patch[j].0);
        match found {
            Some(i) => {
                proof {
                    lemma_key_index_range(before, patch@[j as int].0@);
                    assert(decreases_to!(patch => patch@));
                    assert(decreases_to!(patch@ => patch@[j as int]));
                    assert(decreases_to!(patch@[j as int] => patch@[j as int].1));
                }
                let mut slot: (String, Json) = (String::new(), Json::Null);
                base.set_and_swap(i, &mut slot);
                merge(&mut slot.1, &patch[j].1);
                base.set(i, slot);
                proof {
                    assert(members_view(base@) =~= before.update(
                        i as int,
                        (pv[j as int].0, merged(before[i as int].1, pv[j as int].1)),
                    ));
                }
            },
            None => {
                let k = patch[j].0.clone();
                let v = patch[j].1.deep_copy();
                base.push((k, v));
                proof {
                    assert(members_view(base@) =~= before.push(pv[j as int]));
                }
            },
        }
        j = j + 1;
    }
    proof {
        assert(pv.subrange(0, j as int) =~= pv);
    }
}

/// Merges `patch` into `base` in place: where both are objects their members
/// merge recursively, keys only in `base` stay, keys only in `patch` are
/// appended; an empty object patch changes nothing; anywhere else `patch`
/// replaces `base`.
pub fn merge(base: &mut Json, patch: &Json)
    ensures
        final(base)@ == merged(old(base)@, patch@),
        wf(old(base)@) && wf(patch@) ==> wf(final(base)@),
    decreases patch,
{
    proof {
        if wf(base@) && wf(patch@) {
            lemma_merge_wf(base@, patch@);
        }
    }
    if let Json::Object(pm) = patch {
        if let Json::Object(bm) = base {
            proof {
                assert(decreases_to!(*patch => patch->Object_0));
            }
            merge_members(bm, pm);
            return;
        }
        proof {
            assert(patch@ == JsonV::Object(members_view(pm@)));
            assert(patch@->Object_0.len() == pm@.len());
            assert(!(base@ is Object));
        }
        if pm.len() == 0 {
            return;
        }
    }
    *base = patch.deep_copy();
}

proof fn lemma_key_index_absent(m: Seq<(Seq<char>, JsonV)>, k: Seq<char>)
    requires
        key_index(m, k) == -1,
    ensures
        forall|i: int| 0 <= i < m.len() ==> m[i].0 != k,
    decreases m.len(),
{
    if m.len() > 0 {
        lemma_key_index_absent(m.subrange(0, m.len() - 1), k);
        assert forall|i: int| 0 <= i < m.len() implies m[i].0 != k by {
            if i < m.len() - 1 {
                assert(m.subrange(0, m.len() - 1)[i] == m[i]);
            }
        }
    }
}

/// Merging keeps values well formed.
pub proof fn lemma_merge_wf(base: JsonV, patch: JsonV)
    requires
        wf(base),
        wf(patch),
    ensures
        wf(merged(base, patch)),
    decreases patch,
{
    if let JsonV::Object(pm) = patch {
        if let JsonV::Object(bm) = base {
            lemma_merge_members_wf(bm, pm);
        }
    }
}

proof fn lemma_merge_members_wf(base: Seq<(Seq<char>, JsonV)>, patch: Seq<(Seq<char>, JsonV)>)
    requires
        unique_keys(base),
        forall|i: int| 0 <= i < base.len() ==> wf(#[trigger] base[i].1),
        forall|i: int| 0 <= i < patch.len() ==> wf(#[trigger] patch[i].1),
    ensures
        unique_keys(merged_members(base, patch)),
        forall|i: int|
            0 <= i < merged_members(base, patch).len() ==> wf(
                #[trigger] merged_members(base, patch)[i].1,
            ),
        wf(JsonV::Object(merged_members(base, patch))),
    decreases patch,
{
    if patch.len() > 0 {
        let prefix = patch.subrange(0, patch.len() - 1);
        assert forall|i: int| 0 <= i < prefix.len() implies wf(#[trigger] prefix[i].1) by {
            assert(prefix[i] == patch[i]);
        }
        lemma_merge_members_wf(base, prefix);
        let acc = merged_members(base, prefix);
        let entry = patch[patch.len() - 1];
        let i = key_index(acc, entry.0);
        lemma_key_index_range(acc, entry.0);
        assert(decreases_to!(patch => patch[patch.len() - 1]));
        assert(decreases_to!(patch[patch.len() - 1] => patch[patch.len() - 1].1));
        if i >= 0 {
            lemma_merge_wf(acc[i].1, entry.1);
        } else {
            lemma_key_index_absent(acc, entry.0);
        }
    }
}

/// Merging an empty object into any value leaves it as it was.
pub proof fn lemma_merge_empty_patch(base: JsonV)
    ensures
        merged(base, JsonV::Object(Seq::empty())) == base,
{
}

/// Over a base that is not an object, a patch other than the empty object
/// replaces the base whole.
pub proof fn lemma_merge_over_non_object(base: JsonV, patch: JsonV)
    requires
        !(base is Object),
        patch != JsonV::Object(Seq::empty()),
    ensures
        merged(base, patch) == patch,
{
    if let JsonV::Object(pm) = patch {
        if pm.len() == 0 {
            assert(pm =~= Seq::empty());
        }
    }
}

/// A patch that is not an object replaces the base whole, whatever it was;
/// in particular a sequence is never merged element by element.
pub proof fn lemma_merge_non_object_replaces(base: JsonV, patch: JsonV)
    requires
        !(patch is Object),
    ensures
        merged(base, patch) == patch,
{
}

} // verus!
