//! Properties of the store that relate several operations, stated over the
//! models that the operations' own contracts use.

use crate::todo::{added, completed, is_listing, TaskView};
use vstd::prelude::*;

verus! {

/// The store that a fresh repository holds after `add` was called with each
/// of `titles`, in order.
pub open spec fn after_adds(titles: Seq<Seq<char>>) -> Map<i32, TaskView>
    decreases titles.len(),
{
    if titles.len() == 0 {
        Map::empty()
    } else {
        added(after_adds(titles.drop_last()), titles.last())
    }
}

/// The identifiers `0..n`.
pub open spec fn first_ids(n: int) -> Set<i32> {
    Set::new(|k: i32| 0 <= k < n)
}

/// After `n` additions to a fresh store, and no deletion, the store holds
/// `n` records, under the identifiers `0..n`.
pub proof fn lemma_adds_count(titles: Seq<Seq<char>>)
    requires
        titles.len() <= i32::MAX + 1,
    ensures
        after_adds(titles).dom() == first_ids(titles.len() as int),
        after_adds(titles).len() == titles.len(),
    decreases titles.len(),
{
    let n = titles.len() as int;
    if n == 0 {
        assert(after_adds(titles).dom() =~= first_ids(0));
    } else {
        let before = after_adds(titles.drop_last());
        lemma_adds_count(titles.drop_last());
        lemma_first_ids_finite(n - 1);
        assert(!before.dom().contains((n - 1) as i32));
        assert(after_adds(titles).dom() =~= first_ids(n - 1).insert((n - 1) as i32));
        assert(first_ids(n - 1).insert((n - 1) as i32) =~= first_ids(n));
    }
}

proof fn lemma_first_ids_finite(n: int)
    requires
        0 <= n <= i32::MAX + 1,
    ensures
        first_ids(n).finite(),
    decreases n,
{
    if n == 0 {
        assert(first_ids(0) =~= Set::empty());
    } else {
        lemma_first_ids_finite(n - 1);
        assert(first_ids(n) =~= first_ids(n - 1).insert((n - 1) as i32));
    }
}

/// After `add(title)`, the identifier that equals the number of records
/// before the call holds that title, not completed.
pub proof fn lemma_add_then_get(m: Map<i32, TaskView>, title: Seq<char>)
    requires
        m.len() <= i32::MAX,
    ensures
        added(m, title).contains_key(m.len() as i32),
        added(m, title)[m.len() as i32] == (TaskView { title, done: false }),
{
}

/// `done(id)` on an identifier the store holds completes that record, keeps
/// its title, and leaves every other record as it was; a later `get(id)`
/// sees the completed record.
pub proof fn lemma_done_then_get(m: Map<i32, TaskView>, id: i32)
    requires
        m.contains_key(id),
    ensures
        completed(m, id).dom() == m.dom(),
        completed(m, id)[id] == (TaskView { title: m[id].title, done: true }),
        forall|k: i32| k != id && m.contains_key(k) ==> #[trigger] completed(m, id)[k] == m[k],
{
    assert(completed(m, id).dom() =~= m.dom());
}

/// After `delete(id)` the store holds no record under `id`, and the others
/// are kept; on an identifier it does not hold, `delete` changes nothing.
pub proof fn lemma_delete(m: Map<i32, TaskView>, id: i32)
    ensures
        !m.remove(id).contains_key(id),
        forall|k: i32| k != id ==> #[trigger] m.remove(id).contains_key(k) == m.contains_key(k),
        !m.contains_key(id) ==> m.remove(id) == m,
{
    if !m.contains_key(id) {
        assert(m.remove(id) =~= m);
    }
}

/// A listing holds as many records as the store.
pub proof fn lemma_listing_len(m: Map<i32, TaskView>, s: Seq<TaskView>)
    requires
        is_listing(m, s),
    ensures
        s.len() == m.len(),
{
    let ids = choose|ids: Seq<i32>|
        {
            &&& ids.no_duplicates()
            &&& ids.len() == s.len()
            &&& ids.to_set() == m.dom()
            &&& forall|i: int| 0 <= i < s.len() ==> #[trigger] s[i] == m[ids[i]]
        };
    ids.unique_seq_to_set();
}

/// Listing an empty store gives nothing.
pub proof fn lemma_list_empty(s: Seq<TaskView>)
    requires
        is_listing(Map::empty(), s),
    ensures
        s.len() == 0,
{
    lemma_listing_len(Map::empty(), s);
}

/// After adding `a` and then `b` to a fresh store, a listing holds two
/// records, one titled `a` and one titled `b`, both not completed, in some
/// order.
pub proof fn lemma_list_after_two_adds(a: Seq<char>, b: Seq<char>, s: Seq<TaskView>)
    requires
        is_listing(after_adds(seq![a, b]), s),
    ensures
        s.len() == 2,
        s.contains(TaskView { title: a, done: false }),
        s.contains(TaskView { title: b, done: false }),
{
    let titles = seq![a, b];
    let m = after_adds(titles);
    lemma_adds_count(titles);
    lemma_listing_len(m, s);
    assert(titles.drop_last() =~= seq![a]);
    assert(seq![a].drop_last() =~= Seq::<Seq<char>>::empty());
    assert(after_adds(seq![a].drop_last()) == Map::<i32, TaskView>::empty());
    let one = after_adds(seq![a]);
    lemma_adds_count(seq![a]);
    assert(one == added(Map::empty(), a));
    assert(one[0] == TaskView { title: a, done: false });
    assert(m == added(one, b));
    assert(m[0] == TaskView { title: a, done: false });
    assert(m[1] == TaskView { title: b, done: false });
    let ids = choose|ids: Seq<i32>|
        {
            &&& ids.no_duplicates()
            &&& ids.len() == s.len()
            &&& ids.to_set() == m.dom()
            &&& forall|i: int| 0 <= i < s.len() ==> #[trigger] s[i] == m[ids[i]]
        };
    assert(m.dom().contains(0));
    assert(ids.to_set().contains(0));
    let i = choose|i: int| 0 <= i < ids.len() && ids[i] == 0;
    assert(s[i] == m[0]);
    assert(m.dom().contains(1));
    assert(ids.to_set().contains(1));
    let j = choose|j: int| 0 <= j < ids.len() && ids[j] == 1;
    assert(s[j] == m[1]);
}

} // verus!
