//! What comes of looking names up: which of them are known, and as what.

use vstd::prelude::*;

verus! {

/// The names of `names` whose place in `known` holds `false`, or is beyond
/// the end of `known`, in their order.
pub open spec fn unknown_among(names: Seq<Seq<char>>, known: Seq<bool>) -> Seq<Seq<char>>
    decreases names.len(),
{
    if names.len() == 0 {
        Seq::empty()
    } else {
        let before = unknown_among(names.drop_last(), known);
        let i = names.len() - 1;
        if i < known.len() && known[i] {
            before
        } else {
            before.push(names.last())
        }
    }
}

/// The names that are not known: see `unknown_among`.
pub fn unknown_names(names: &Vec<String>, known: &Vec<bool>) -> (unknown: Vec<String>)
    ensures
        unknown.deep_view() == unknown_among(names.deep_view(), known@),
{
    let ghost all = names.deep_view();
    let n: usize = names.len();
    let mut unknown: Vec<String> = Vec::new();
    let mut i: usize = 0;
    proof {
        assert(all.take(0) =~= Seq::<Seq<char>>::empty());
        assert(unknown.deep_view() =~= Seq::<Seq<char>>::empty());
    }
    while i < n
        invariant
            n == names@.len(),
            all == names.deep_view(),
            i <= n,
            unknown.deep_view() == unknown_among(all.take(i as int), known@),
        decreases n - i,
    {
        let ghost before = unknown.deep_view();
        proof {
            assert(all[i as int] == names@[i as int]@);
            assert(all.take(i + 1).drop_last() =~= all.take(i as int));
            assert(all.take(i + 1).last() == all[i as int]);
        }
        if !(i < known.len() && known[i]) {
            unknown.push(names[i].clone());
            proof {
                assert(unknown.deep_view() =~= before.push(all[i as int]));
            }
        }
        i = i + 1;
    }
    proof {
        assert(all.take(n as int) =~= all);
    }
    unknown
}

/// Whether the catalog knows each of the tags: see `unknown_among`.
pub open spec fn known_tags(found: Seq<Option<i64>>) -> Seq<bool> {
    found.map_values(|id: Option<i64>| id is Some)
}

/// The identities of the tags `names`, as far as `found` has them.
pub open spec fn identities(found: Seq<Option<i64>>, count: int) -> Seq<i64> {
    Seq::new(count as nat, |i: int| found[i]->Some_0)
}

/// Whether each of the first `count` marks of `known` is there and set.
pub open spec fn all_known(count: int, known: Seq<bool>) -> bool {
    forall|i: int| 0 <= i < count ==> i < known.len() && #[trigger] known[i]
}

/// No name is unknown exactly where every name is marked as known.
pub proof fn lemma_none_unknown(names: Seq<Seq<char>>, known: Seq<bool>)
    ensures
        unknown_among(names, known).len() == 0 <==> all_known(names.len() as int, known),
    decreases names.len(),
{
    if names.len() > 0 {
        let shorter = names.drop_last();
        lemma_none_unknown(shorter, known);
        let before = unknown_among(shorter, known);
        let last = names.len() - 1;
        let marked = last < known.len() && known[last];
        if all_known(names.len() as int, known) {
            assert(0 <= last < names.len());
            let mark = known[last];
            assert(last < known.len());
            assert(mark);
            assert(all_known(shorter.len() as int, known));
        }
        if unknown_among(names, known).len() == 0 {
            assert(marked);
            assert(before.len() == 0);
            assert(all_known(shorter.len() as int, known));
            assert forall|i: int| 0 <= i < names.len() implies i < known.len()
                && #[trigger] known[i] by {
                if i < last {
                    assert(0 <= i < shorter.len());
                }
            }
        }
    }
}

/// Which of the tags the catalog knows: see `known_tags`.
pub fn known(found: &Vec<Option<i64>>) -> (marks: Vec<bool>)
    ensures
        marks@ == known_tags(found@),
{
    let n: usize = found.len();
    let mut marks: Vec<bool> = Vec::new();
    let mut i: usize = 0;
    while i < n
        invariant
            n == found@.len(),
            i <= n,
            marks@.len() == i,
            forall|k: int| 0 <= k < i ==> marks@[k] == (found@[k] is Some),
        decreases n - i,
    {
        marks.push(found[i].is_some());
        i = i + 1;
    }
    proof {
        assert(marks@ =~= known_tags(found@));
    }
    marks
}

/// The first `count` identities of `found`, all of which are there.
pub fn identities_of(found: &Vec<Option<i64>>, count: usize) -> (ids: Vec<i64>)
    requires
        count <= found@.len(),
        forall|i: int| 0 <= i < count ==> (#[trigger] found@[i]) is Some,
    ensures
        ids@ == identities(found@, count as int),
{
    let mut ids: Vec<i64> = Vec::new();
    let mut i: usize = 0;
    while i < count
        invariant
            count <= found@.len(),
            forall|k: int| 0 <= k < count ==> (#[trigger] found@[k]) is Some,
            i <= count,
            ids@.len() == i,
            forall|k: int| 0 <= k < i ==> ids@[k] == found@[k]->Some_0,
        decreases count - i,
    {
        match found[i] {
            Some(id) => {
                ids.push(id);
            },
            None => unreached(),
        }
        i = i + 1;
    }
    proof {
        assert(ids@ =~= identities(found@, count as int));
    }
    ids
}

/// The identities that `found` holds, in their order.
pub open spec fn found_ids(found: Seq<Option<i64>>) -> Seq<i64>
    decreases found.len(),
{
    if found.len() == 0 {
        Seq::empty()
    } else {
        let before = found_ids(found.drop_last());
        match found.last() {
            Some(id) => before.push(id),
            None => before,
        }
    }
}

/// The identities that `found` holds: see `found_ids`.
pub fn ids_found(found: &Vec<Option<i64>>) -> (ids: Vec<i64>)
    ensures
        ids@ == found_ids(found@),
{
    let n: usize = found.len();
    let mut ids: Vec<i64> = Vec::new();
    let mut i: usize = 0;
    proof {
        assert(found@.take(0) =~= Seq::<Option<i64>>::empty());
    }
    while i < n
        invariant
            n == found@.len(),
            i <= n,
            ids@ == found_ids(found@.take(i as int)),
        decreases n - i,
    {
        proof {
            assert(found@.take(i + 1).drop_last() =~= found@.take(i as int));
            assert(found@.take(i + 1).last() == found@[i as int]);
        }
        match found[i] {
            Some(id) => {
                ids.push(id);
            },
            None => {},
        }
        i = i + 1;
    }
    proof {
        assert(found@.take(n as int) =~= found@);
    }
    ids
}

} // verus!
