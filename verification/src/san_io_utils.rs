//! A switcher over a fixed number of task groups: the groups waiting to be polled are kept
//! on a stack, and a group leaves it once it reports that it has nothing more to do.

use vstd::prelude::*;

verus! {

/// A task-group index type, convertible to and from `usize`.
pub trait TaskIndex: Copy + Sized {
    spec fn index(self) -> int;

    /// The largest index the type can hold.
    spec fn max_index() -> int;

    proof fn lemma_index(a: Self, b: Self)
        ensures
            0 <= a.index() <= Self::max_index(),
            a.index() == b.index() ==> a == b,
    ;

    fn to_index(&self) -> (r: usize)
        ensures
            r == self.index(),
    ;

    fn from_index(i: usize) -> (r: Self)
        requires
            i <= Self::max_index(),
        ensures
            r.index() == i,
    ;
}

impl TaskIndex for u8 {
    open spec fn index(self) -> int {
        self as int
    }

    open spec fn max_index() -> int {
        0xff
    }

    proof fn lemma_index(a: Self, b: Self) {
    }

    fn to_index(&self) -> (r: usize) {
        *self as usize
    }

    fn from_index(i: usize) -> (r: Self) {
        i as u8
    }
}

impl TaskIndex for u16 {
    open spec fn index(self) -> int {
        self as int
    }

    open spec fn max_index() -> int {
        0xffff
    }

    proof fn lemma_index(a: Self, b: Self) {
    }

    fn to_index(&self) -> (r: usize) {
        *self as usize
    }

    fn from_index(i: usize) -> (r: Self) {
        i as u16
    }
}

/// The task groups still to poll, the current one last.
pub struct TasksSwitcher<T, const TASKS: usize> {
    stack: Vec<T>,
}

impl<T: TaskIndex, const TASKS: usize> View for TasksSwitcher<T, TASKS> {
    type V = Seq<T>;

    closed spec fn view(&self) -> Seq<T> {
        self.stack@
    }
}

impl<T: TaskIndex, const TASKS: usize> Default for TasksSwitcher<T, TASKS> {
    fn default() -> (r: Self)
        ensures
            r@ == Seq::<T>::empty(),
    {
        let r = TasksSwitcher { stack: Vec::new() };
        assert(r@ =~= Seq::<T>::empty());
        r
    }
}

impl<T: TaskIndex, const TASKS: usize> TasksSwitcher<T, TASKS> {
    /// Puts a group on top of the stack, unless it is already waiting.
    pub fn push_last(&mut self, value: T)
        requires
            value.index() < TASKS,
        ensures
            final(self)@ == if old(self)@.contains(value) {
                old(self)@
            } else {
                old(self)@.push(value)
            },
    {
        let v = value.to_index();
        let mut i: usize = 0;
        while i < self.stack.len()
            invariant
                i <= self@.len(),
                self@ == old(self)@,
                v == value.index(),
                forall|k: int| 0 <= k < i ==> self@[k] != value,
            decreases self@.len() - i,
        {
            if self.stack[i].to_index() == v {
                proof {
                    T::lemma_index(self@[i as int], value);
                }
                return;
            }
            proof {
                T::lemma_index(self@[i as int], value);
            }
            i = i + 1;
        }
        self.stack.push(value);
    }

    /// Puts every group on the stack, the first on top.
    pub fn push_all(&mut self)
        requires
            TASKS <= T::max_index() + 1,
        ensures
            forall|k: int| 0 <= k < TASKS ==> (#[trigger] final(self)@[k]).index() == TASKS - 1 - k,
            final(self)@.len() == TASKS,
    {
        self.stack.clear();
        let mut i: usize = TASKS;
        while i > 0
            invariant
                i <= TASKS,
                TASKS <= T::max_index() + 1,
                self@.len() == TASKS - i,
                forall|k: int| 0 <= k < TASKS - i ==> (#[trigger] self@[k]).index() == TASKS - 1 - k,
            decreases i,
        {
            i = i - 1;
            let t = T::from_index(i);
            proof {
                assert forall|k: int| 0 <= k < self@.len() implies self@[k] != t by {
                    assert(self@[k].index() != t.index());
                }
            }
            self.push_last(t);
        }
    }

    /// The group to poll, if any is left.
    pub fn current(&mut self) -> (r: Option<T>)
        ensures
            final(self)@ == old(self)@,
            old(self)@.len() == 0 ==> r is None,
            old(self)@.len() > 0 ==> r == Some(old(self)@.last()),
    {
        let n = self.stack.len();
        if n == 0 {
            None
        } else {
            Some(self.stack[n - 1])
        }
    }

    /// Takes the result of polling the current group: without one, the group is done and
    /// leaves the stack. The result is handed back.
    pub fn process<R>(&mut self, res: Option<R>) -> (r: Option<R>)
        ensures
            r == res,
            res is None ==> final(self)@ == if old(self)@.len() > 0 {
                old(self)@.drop_last()
            } else {
                old(self)@
            },
            res is Some ==> final(self)@ == old(self)@,
    {
        if res.is_none() {
            let ghost s = self@;
            self.stack.pop();
            proof {
                if s.len() > 0 {
                    assert(self@ =~= s.drop_last());
                }
            }
        }
        res
    }
}

/// After every group is pushed, finishing the current group each time visits the groups
/// from the first to the last.
pub proof fn law_push_all_visits_in_order<T: TaskIndex>(stack: Seq<T>, tasks: int, done: int)
    requires
        stack.len() == tasks,
        forall|k: int| 0 <= k < tasks ==> (#[trigger] stack[k]).index() == tasks - 1 - k,
        0 <= done < tasks,
    ensures
        stack.take(tasks - done).last().index() == done,
{
    assert(stack.take(tasks - done).last() == stack[tasks - done - 1]);
}

} // verus!
