//! The ordered task collection with its count invariant.
use vstd::prelude::*;

verus! {

use crate::task::{Task, default_content};

/// The contents of a task sequence: one character sequence per task, in order.
pub open spec fn contents_of(ts: Seq<Task>) -> Seq<Seq<char>> {
    ts.map_values(|t: Task| t.content@)
}

pub proof fn lemma_contents_push(ts: Seq<Task>, t: Task)
    ensures
        contents_of(ts.push(t)) == contents_of(ts).push(t.content@),
{
    assert(contents_of(ts.push(t)) =~= contents_of(ts).push(t.content@));
}

/// The store contents reached from empty by appending each of `cs` in turn,
/// as every add does.
pub open spec fn appended_all(cs: Seq<Seq<char>>) -> Seq<Seq<char>>
    decreases cs.len(),
{
    if cs.len() == 0 {
        Seq::empty()
    } else {
        appended_all(cs.drop_last()).push(cs.last())
    }
}

/// Law: after any run of adds on an empty store, the count equals the number
/// of adds and the listing holds the added contents in the exact order they
/// were added.
pub proof fn lemma_adds_in_order(cs: Seq<Seq<char>>)
    ensures
        appended_all(cs) == cs,
        appended_all(cs).len() == cs.len(),
    decreases cs.len(),
{
    if cs.len() == 0 {
        assert(appended_all(cs) =~= cs);
    } else {
        lemma_adds_in_order(cs.drop_last());
        assert(appended_all(cs) =~= cs);
    }
}

pub struct List {
    pub count: usize,
    pub todo_list: Vec<Task>,
}

impl List {
    /// The cached count always equals the length of the sequence.
    pub open spec fn wf(self) -> bool {
        self.count == self.todo_list@.len()
    }

    /// The stored contents, in order.
    pub open spec fn contents(self) -> Seq<Seq<char>> {
        contents_of(self.todo_list@)
    }

    /// A list holding the given tasks, in order.
    pub fn new(tasks: Vec<Task>) -> (l: List)
        ensures
            l.wf(),
            l.todo_list@ == tasks@,
            l.count == tasks@.len(),
    {
        let count = tasks.len();
        List { count, todo_list: tasks }
    }

    /// The task at `n`, or a not-found signal if `n` is outside `[0, count)`.
    pub fn get(&self, n: usize) -> (r: Result<&Task, ()>)
        requires
            self.wf(),
        ensures
            r is Ok <==> n < self.count,
            r matches Ok(t) ==> *t == self.todo_list@[n as int],
    {
        if n < self.todo_list.len() {
            Ok(&self.todo_list[n])
        } else {
            Err(())
        }
    }

    /// Appends a task; the count always grows by one.
    pub fn add_task(&mut self, t: Task)
        requires
            old(self).wf(),
        ensures
            final(self).wf(),
            final(self).todo_list@ == old(self).todo_list@.push(t),
            final(self).contents() == old(self).contents().push(t.content@),
            final(self).count == old(self).count + 1,
    {
        self.todo_list.push(t);
        self.count = self.todo_list.len();
        proof {
            lemma_contents_push(old(self).todo_list@, t);
        }
    }

    /// Appends a task holding the placeholder content.
    pub fn add_default(&mut self)
        requires
            old(self).wf(),
        ensures
            final(self).wf(),
            final(self).contents() == old(self).contents().push(default_content()),
            final(self).count == old(self).count + 1,
    {
        self.add_task(Task::default());
    }

    /// Removes and returns the task at `n`; every later task shifts down by
    /// one. A not-found signal if `n` is outside `[0, count)`, leaving the
    /// list unchanged.
    pub fn del_task(&mut self, n: usize) -> (r: Result<Task, ()>)
        requires
            old(self).wf(),
        ensures
            final(self).wf(),
            r is Ok <==> n < old(self).count,
            r matches Ok(t) ==> {
                &&& t == old(self).todo_list@[n as int]
                &&& final(self).todo_list@ == old(self).todo_list@.remove(n as int)
                &&& final(self).contents() == old(self).contents().remove(n as int)
                &&& final(self).count == old(self).count - 1
            },
            r is Err ==> *final(self) == *old(self),
    {
        if n >= self.count {
            return Err(());
        }
        let t = self.todo_list.remove(n);
        self.count = self.todo_list.len();
        proof {
            assert(self.contents() =~= old(self).contents().remove(n as int));
        }
        Ok(t)
    }

    /// Replaces the content at `n`, returning the previous content. A
    /// not-found signal if `n` is outside `[0, count)`, leaving the list
    /// unchanged.
    pub fn update(&mut self, n: usize, new_content: String) -> (r: Result<String, ()>)
        requires
            old(self).wf(),
        ensures
            final(self).wf(),
            r is Ok <==> n < old(self).count,
            r matches Ok(prev) ==> {
                &&& prev@ == old(self).contents()[n as int]
                &&& final(self).contents() == old(self).contents().update(n as int, new_content@)
                &&& final(self).count == old(self).count
            },
            r is Err ==> *final(self) == *old(self),
    {
        if n >= self.count {
            return Err(());
        }
        let mut t = self.todo_list.remove(n);
        let prev = t.modify(new_content);
        self.todo_list.insert(n, t);
        proof {
            assert(self.contents() =~= old(self).contents().update(n as int, new_content@));
        }
        Ok(prev)
    }

    /// Empties the collection and resets the count to zero.
    pub fn clear(&mut self)
        requires
            old(self).wf(),
        ensures
            final(self).wf(),
            final(self).count == 0,
            final(self).contents() == Seq::<Seq<char>>::empty(),
    {
        self.todo_list.clear();
        self.count = 0;
        proof {
            assert(self.contents() =~= Seq::<Seq<char>>::empty());
        }
    }

    /// An ordered listing of (index, task) pairs; does not mutate the list.
    pub fn list(&self) -> (r: Vec<(usize, Task)>)
        requires
            self.wf(),
        ensures
            r@.len() == self.count,
            forall|i: int|
                0 <= i < r@.len() ==> (#[trigger] r@[i]).0 == i && r@[i].1
                    == self.todo_list@[i],
    {
        let mut r: Vec<(usize, Task)> = Vec::new();
        let mut j: usize = 0;
        while j < self.todo_list.len()
            invariant
                self.wf(),
                j <= self.todo_list@.len(),
                r@.len() == j,
                forall|i: int|
                    0 <= i < j ==> (#[trigger] r@[i]).0 == i && r@[i].1 == self.todo_list@[i],
            decreases self.todo_list@.len() - j,
        {
            r.push((j, self.todo_list[j].clone()));
            j = j + 1;
        }
        r
    }
}

impl Default for List {
    /// An empty list.
    fn default() -> (l: Self)
        ensures
            l.wf(),
            l.count == 0,
            l.contents() == Seq::<Seq<char>>::empty(),
    {
        let l = List { count: 0, todo_list: Vec::new() };
        proof {
            assert(l.contents() =~= Seq::<Seq<char>>::empty());
        }
        l
    }
}

} // verus!
