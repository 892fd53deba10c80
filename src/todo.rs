use std::collections::HashMap;
use vstd::prelude::*;
use vstd::std_specs::hash::spec_hash_map_iter;
use vstd::std_specs::iter::IteratorSpec;

verus! {

/// What a task is, as the contracts see it.
pub struct TaskView {
    pub title: Seq<char>,
    pub done: bool,
}

/// One task: its title and whether it has been completed.
#[derive(Debug, Clone)]
pub struct TodoDetail {
    pub title: String,
    pub done: bool,
}

impl View for TodoDetail {
    type V = TaskView;

    open spec fn view(&self) -> TaskView {
        TaskView { title: self.title@, done: self.done }
    }
}

/// The one failure of the store: no record has the identifier asked for.
#[derive(Debug, PartialEq, Eq, Structural)]
pub enum TodoError {
    NotFound,
}

/// The store: a map from identifiers to task records.
pub struct TodoRepository {
    pub map: HashMap<i32, TodoDetail>,
}

impl View for TodoRepository {
    type V = Map<i32, TaskView>;

    open spec fn view(&self) -> Map<i32, TaskView> {
        self.map@.map_values(|d: TodoDetail| d@)
    }
}

/// The store after `add(title)`: the new record, not yet completed, under
/// the identifier equal to the number of records before the call.
pub open spec fn added(m: Map<i32, TaskView>, title: Seq<char>) -> Map<i32, TaskView> {
    m.insert(m.len() as i32, TaskView { title, done: false })
}

/// The store after `done(id)` on an identifier it holds: that record is
/// completed, its title kept.
pub open spec fn completed(m: Map<i32, TaskView>, id: i32) -> Map<i32, TaskView> {
    m.insert(id, TaskView { title: m[id].title, done: true })
}

/// `s` lists the records of `m`, each once, in some order.
pub open spec fn is_listing(m: Map<i32, TaskView>, s: Seq<TaskView>) -> bool {
    exists|ids: Seq<i32>|
        {
            &&& ids.no_duplicates()
            &&& ids.len() == s.len()
            &&& ids.to_set() == m.dom()
            &&& forall|i: int| 0 <= i < s.len() ==> #[trigger] s[i] == m[ids[i]]
        }
}

impl TodoRepository {
    /// An empty store.
    pub fn new() -> (r: TodoRepository)
        ensures
            r@ == Map::<i32, TaskView>::empty(),
    {
        let r = TodoRepository { map: HashMap::new() };
        assert(r@ =~= Map::<i32, TaskView>::empty());
        r
    }

    /// Adds a task with `title`, not completed, under the identifier equal to
    /// the number of records held before the call (a record already under
    /// that identifier is replaced). Never fails.
    pub fn add(&mut self, title: String) -> (r: Result<(), TodoError>)
        requires
            old(self)@.len() <= i32::MAX,
        ensures
            r is Ok,
            final(self)@ == added(old(self)@, title@),
    {
        assert(self@.dom() =~= self.map@.dom());
        let id = self.map.len() as i32;
        self.map.insert(id, TodoDetail { title, done: false });
        assert(self@ =~= added(old(self)@, title@));
        Ok(())
    }

    /// Removes the record under `id`, if there is one; otherwise leaves the
    /// store as it is. Never fails.
    pub fn delete(&mut self, id: i32) -> (r: Result<(), TodoError>)
        ensures
            r is Ok,
            final(self)@ == old(self)@.remove(id),
    {
        self.map.remove(&id);
        assert(self@ =~= old(self)@.remove(id));
        Ok(())
    }

    /// A copy of every record held, each once, in no particular order.
    /// Never fails.
    pub fn list(&mut self) -> (r: Result<Vec<TodoDetail>, TodoError>)
        ensures
            final(self)@ == old(self)@,
            r is Ok,
            is_listing(old(self)@, r->Ok_0@.map_values(|d: TodoDetail| d@)),
    {
        let mut todos: Vec<TodoDetail> = Vec::new();
        let ghost pairs = self.map.iter().remaining();
        for entry in it: self.map.iter()
            invariant
                it.seq() == pairs,
                pairs.no_duplicates(),
                todos.len() == it.index(),
                forall|i: int| 0 <= i < it.index() ==> #[trigger] todos@[i]@ == (*it.seq()[i].1)@,
        {
            let (_, detail) = entry;
            todos.push(TodoDetail { title: detail.title.clone(), done: detail.done });
        }
        proof {
            let ids = pairs.map_values(|p: (&i32, &TodoDetail)| *p.0);
            let listed = todos@.map_values(|d: TodoDetail| d@);
            let m = self.map@;
            assert(pairs == spec_hash_map_iter(&self.map).remaining());
            assert forall|i: int, j: int|
                0 <= i < ids.len() && 0 <= j < ids.len() && i != j implies ids[i] != ids[j] by {
                if ids[i] == ids[j] {
                    assert(m.contains_key(*pairs[i].0) && m[*pairs[i].0] == *pairs[i].1);
                    assert(m.contains_key(*pairs[j].0) && m[*pairs[j].0] == *pairs[j].1);
                    assert(pairs[i] == pairs[j]);
                }
            }
            assert forall|k: i32| #[trigger] m.contains_key(k) implies ids.contains(k) by {
                assert(pairs.contains((&k, &m[k])));
                let i = choose|i: int| 0 <= i < pairs.len() && pairs[i] == (&k, &m[k]);
                assert(ids[i] == k);
            }
            assert forall|k: i32| ids.contains(k) implies #[trigger] m.contains_key(k) by {
                let i = choose|i: int| 0 <= i < ids.len() && ids[i] == k;
                assert(m.contains_key(*pairs[i].0));
            }
            assert(ids.to_set() =~= self@.dom());
            assert(forall|i: int| 0 <= i < listed.len() ==> #[trigger] listed[i] == self@[ids[i]]);
        }
        Ok(todos)
    }

    /// Marks the record under `id` completed, keeping its title, and returns
    /// it; `NotFound`, with the store unchanged, where there is none.
    pub fn done(&mut self, id: i32) -> (r: Result<&TodoDetail, TodoError>)
        ensures
            old(self)@.contains_key(id) ==> {
                &&& r is Ok
                &&& final(self)@ == completed(old(self)@, id)
                &&& r->Ok_0@ == final(self)@[id]
            },
            !old(self)@.contains_key(id) ==> {
                &&& r == Err::<&TodoDetail, TodoError>(TodoError::NotFound)
                &&& final(self)@ == old(self)@
            },
    {
        match self.map.remove(&id) {
            Some(mut detail) => {
                detail.done = true;
                self.map.insert(id, detail);
                assert(self@ =~= completed(old(self)@, id));
                match self.map.get(&id) {
                    Some(t) => Ok(t),
                    None => Err(TodoError::NotFound),
                }
            },
            None => {
                assert(self@ =~= old(self)@);
                Err(TodoError::NotFound)
            },
        }
    }

    /// The record under `id`, or `NotFound` where there is none.
    pub fn get(&mut self, id: i32) -> (r: Result<&TodoDetail, TodoError>)
        ensures
            final(self)@ == old(self)@,
            old(self)@.contains_key(id) ==> r is Ok && r->Ok_0@ == old(self)@[id],
            !old(self)@.contains_key(id) ==> r == Err::<&TodoDetail, TodoError>(TodoError::NotFound),
    {
        match self.map.get(&id) {
            Some(t) => Ok(t),
            None => Err(TodoError::NotFound),
        }
    }
}

} // verus!
