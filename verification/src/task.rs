use vstd::prelude::*;

verus! {

/// One to-do entry: a numeric id, a free-form description, and a completion
/// flag. Ids are assigned as `length + 1` at creation time, so they are not
/// guaranteed unique once entries have been removed.
#[derive(Debug, Clone, PartialEq, Eq)]
pub struct Task {
    pub id: usize,
    pub description: String,
    pub completed: bool,
}

/// The mathematical image of a task.
#[verifier::ext_equal]
pub ghost struct TaskView {
    pub id: nat,
    pub description: Seq<char>,
    pub completed: bool,
}

impl View for Task {
    type V = TaskView;

    open spec fn view(&self) -> TaskView {
        TaskView { id: self.id as nat, description: self.description@, completed: self.completed }
    }
}

/// The image of a whole task vector.
pub open spec fn tasks_view(ts: Seq<Task>) -> Seq<TaskView> {
    ts.map(|i: int, t: Task| t@)
}

/// The ordered collection of tasks that the store holds; every operation of
/// the command surface acts on a value of this type.
#[derive(Debug, Clone, PartialEq, Eq)]
pub struct TaskList {
    pub tasks: Vec<Task>,
}

impl View for TaskList {
    type V = Seq<TaskView>;

    open spec fn view(&self) -> Seq<TaskView> {
        tasks_view(self.tasks@)
    }
}

/// Appending a task: the new entry carries id `length + 1`, the given
/// description, and an unset completion flag.
pub open spec fn spec_add(l: Seq<TaskView>, d: Seq<char>) -> Seq<TaskView> {
    l.push(TaskView { id: l.len() + 1, description: d, completed: false })
}

/// Index of the first entry with the given id, or `l.len()` if there is none.
pub open spec fn spec_find(l: Seq<TaskView>, n: nat, i: int) -> int
    decreases l.len() - i,
{
    if i < 0 || i >= l.len() {
        l.len() as int
    } else if l[i].id == n {
        i
    } else {
        spec_find(l, n, i + 1)
    }
}

/// The same task with its completion flag set.
pub open spec fn spec_mark(t: TaskView) -> TaskView {
    TaskView { id: t.id, description: t.description, completed: true }
}

/// Marking an id complete: the first entry with that id gets its flag set;
/// a list without the id is left unchanged.
pub open spec fn spec_complete(l: Seq<TaskView>, n: nat) -> Seq<TaskView> {
    let i = spec_find(l, n, 0);
    if i < l.len() {
        l.update(i, spec_mark(l[i]))
    } else {
        l
    }
}

/// Removing an id: every entry with that id is dropped, order of the rest kept.
pub open spec fn spec_remove(l: Seq<TaskView>, n: nat) -> Seq<TaskView>
    decreases l.len(),
{
    if l.len() == 0 {
        l
    } else if l.last().id != n {
        spec_remove(l.drop_last(), n).push(l.last())
    } else {
        spec_remove(l.drop_last(), n)
    }
}

impl TaskList {
    /// An empty task list.
    pub fn new() -> (r: TaskList)
        ensures
            r@ == Seq::<TaskView>::empty(),
    {
        let r = TaskList { tasks: Vec::new() };
        proof {
            assert(r@ =~= Seq::<TaskView>::empty());
        }
        r
    }

    pub fn len(&self) -> (n: usize)
        ensures
            n == self@.len(),
    {
        self.tasks.len()
    }

    /// Append a new task with id `len + 1`, the given description, and an
    /// unset completion flag.
    pub fn add(&mut self, description: String)
        requires
            old(self)@.len() < usize::MAX,
        ensures
            final(self)@ == spec_add(old(self)@, description@),
    {
        let ghost pre = self.tasks@;
        let id = self.tasks.len() + 1;
        self.tasks.push(Task { id, description, completed: false });
        proof {
            assert(final(self)@ =~= spec_add(tasks_view(pre), final(self).tasks@.last()@.description));
        }
    }

    /// Set the completion flag of the first task whose id is `num`; a list
    /// without that id is left unchanged.
    pub fn complete(&mut self, num: usize)
        ensures
            final(self)@ == spec_complete(old(self)@, num as nat),
    {
        let n = self.tasks.len();
        let mut i: usize = 0;
        while i < n
            invariant
                i <= n,
                n == self.tasks.len(),
                *self == *old(self),
                forall|k: int| 0 <= k < i ==> self@[k].id != num as nat,
            decreases n - i,
        {
            if self.tasks[i].id == num {
                let t = self.tasks.remove(i);
                self.tasks.insert(i, Task { id: t.id, description: t.description, completed: true });
                proof {
                    lemma_find_from(old(self)@, num as nat, i as int);
                    assert(final(self)@ =~= spec_complete(old(self)@, num as nat));
                }
                return ;
            }
            i = i + 1;
        }
        proof {
            lemma_find_from(old(self)@, num as nat, n as int);
            assert(final(self)@ =~= spec_complete(old(self)@, num as nat));
        }
    }

    /// Drop every task whose id is `num`, keeping the order of the rest.
    pub fn remove(&mut self, num: usize)
        ensures
            final(self)@ == spec_remove(old(self)@, num as nat),
    {
        let ghost pre = self@;
        let mut i: usize = 0;
        let ghost j: int = 0;
        while i < self.tasks.len()
            invariant
                0 <= i as int <= j <= pre.len(),
                self@ =~= spec_remove(pre.subrange(0, j), num as nat) + pre.subrange(
                    j,
                    pre.len() as int,
                ),
                i as int == spec_remove(pre.subrange(0, j), num as nat).len(),
            decreases pre.len() - j,
        {
            proof {
                assert(pre.subrange(0, j + 1).drop_last() =~= pre.subrange(0, j));
                assert(pre.subrange(0, j + 1).last() == pre[j]);
                assert(self@[i as int] == pre[j]);
            }
            if self.tasks[i].id == num {
                let ghost ts0 = self.tasks@;
                self.tasks.remove(i);
                proof {
                    lemma_view_remove(ts0, i as int);
                    assert(spec_remove(pre.subrange(0, j + 1), num as nat) == spec_remove(
                        pre.subrange(0, j),
                        num as nat,
                    ));
                    assert(self@ =~= spec_remove(pre.subrange(0, j + 1), num as nat) + pre.subrange(
                        j + 1,
                        pre.len() as int,
                    ));
                }
            } else {
                proof {
                    assert(pre[j].id != num as nat);
                    assert(spec_remove(pre.subrange(0, j + 1), num as nat) == spec_remove(
                        pre.subrange(0, j),
                        num as nat,
                    ).push(pre[j]));
                }
                i = i + 1;
                proof {
                    assert(self@ =~= spec_remove(pre.subrange(0, j + 1), num as nat) + pre.subrange(
                        j + 1,
                        pre.len() as int,
                    ));
                }
            }
            proof {
                j = j + 1;
            }
        }
        proof {
            assert(pre.subrange(0, pre.len() as int) =~= pre);
            assert(j == pre.len());
            assert(final(self)@ =~= spec_remove(pre, num as nat));
        }
    }

    /// Discard every task.
    pub fn clear(&mut self)
        ensures
            final(self)@ == Seq::<TaskView>::empty(),
    {
        self.tasks.clear();
        proof {
            assert(final(self)@ =~= Seq::<TaskView>::empty());
        }
    }
}

/// Viewing a task vector commutes with removing one of its entries.
proof fn lemma_view_remove(ts: Seq<Task>, i: int)
    requires
        0 <= i < ts.len(),
    ensures
        tasks_view(ts.remove(i)) == tasks_view(ts).remove(i),
{
    assert(tasks_view(ts.remove(i)) =~= tasks_view(ts).remove(i));
}

/// A scan that has seen no match up to `i` finds the same index as a scan
/// from the start.
proof fn lemma_find_from(l: Seq<TaskView>, n: nat, i: int)
    requires
        0 <= i <= l.len(),
        forall|k: int| 0 <= k < i ==> l[k].id != n,
    ensures
        spec_find(l, n, 0) == spec_find(l, n, i),
    decreases i,
{
    if i > 0 {
        lemma_find_from(l, n, i - 1);
        assert(spec_find(l, n, i - 1) == spec_find(l, n, i));
    }
}

/// Adding is append-only: the list grows by exactly one entry, the entries
/// already present stay as they were, and the new last entry carries the old
/// length plus one as its id, the given description, and an unset flag.
pub proof fn lemma_add_append_only(l: Seq<TaskView>, d: Seq<char>)
    ensures
        spec_add(l, d).len() == l.len() + 1,
        spec_add(l, d).last() == (TaskView { id: l.len() + 1, description: d, completed: false }),
        forall|k: int| 0 <= k < l.len() ==> spec_add(l, d)[k] == l[k],
{
}

/// Marking the same id complete a second time changes nothing: the scan finds
/// the same entry, whose flag is already set.
pub proof fn lemma_complete_idempotent(l: Seq<TaskView>, n: nat)
    ensures
        spec_complete(spec_complete(l, n), n) == spec_complete(l, n),
{
    let i = spec_find(l, n, 0);
    lemma_find_range(l, n, 0);
    if i < l.len() {
        let l1 = l.update(i, spec_mark(l[i]));
        lemma_find_same(l, l1, n, 0);
        assert(spec_find(l1, n, 0) == i);
        assert(l1.update(i, spec_mark(l1[i])) =~~= l1);
    }
}

/// `spec_find` returns an index in `[i, l.len()]`, and a match where it is
/// within range.
proof fn lemma_find_range(l: Seq<TaskView>, n: nat, i: int)
    requires
        0 <= i <= l.len(),
    ensures
        i <= spec_find(l, n, i) <= l.len(),
        spec_find(l, n, i) < l.len() ==> l[spec_find(l, n, i)].id == n,
        forall|k: int| i <= k < spec_find(l, n, i) ==> l[k].id != n,
    decreases l.len() - i,
{
    if i < l.len() && l[i].id != n {
        lemma_find_range(l, n, i + 1);
    }
}

/// Two lists of equal length whose entries carry the same ids are scanned to
/// the same index.
proof fn lemma_find_same(a: Seq<TaskView>, b: Seq<TaskView>, n: nat, i: int)
    requires
        a.len() == b.len(),
        forall|k: int| 0 <= k < a.len() ==> a[k].id == b[k].id,
        0 <= i <= a.len(),
    ensures
        spec_find(a, n, i) == spec_find(b, n, i),
    decreases a.len() - i,
{
    if i < a.len() && a[i].id != n {
        lemma_find_same(a, b, n, i + 1);
    }
}

/// Removing an id from a list that no longer holds it changes nothing, so a
/// second removal of the same id is a no-op.
pub proof fn lemma_remove_idempotent(l: Seq<TaskView>, n: nat)
    ensures
        spec_remove(spec_remove(l, n), n) == spec_remove(l, n),
    decreases l.len(),
{
    if l.len() > 0 {
        lemma_remove_idempotent(l.drop_last(), n);
        if l.last().id != n {
            let r = spec_remove(l.drop_last(), n);
            assert(r.push(l.last()).drop_last() =~= r);
            assert(r.push(l.last()).last() == l.last());
        }
    }
}

} // verus!
