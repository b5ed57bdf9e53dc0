use vstd::prelude::*;

verus! {

/// Number of slots of a [`Stack`].
pub const STACK_CAPACITY: usize = 128;

/// A fixed-capacity LIFO stack of `Copy` values.
///
/// The slots below `current` hold the stacked values, bottom first; the
/// slots from `current` on are empty.
pub struct Stack<T> {
    values: [Option<T>; 128],
    current: usize,
}

impl<T: Copy> Stack<T> {
    /// The slots are filled exactly up to `current`.
    pub closed spec fn wf(&self) -> bool {
        &&& self.current <= STACK_CAPACITY
        &&& forall|i: int| 0 <= i < self.current ==> (#[trigger] self.values@[i]) is Some
        &&& forall|i: int| self.current <= i < STACK_CAPACITY ==> (#[trigger] self.values@[i]) is None
    }

    /// The stacked values, bottom first.
    pub closed spec fn view(&self) -> Seq<T> {
        Seq::new(self.current as nat, |i: int| self.values@[i]->0)
    }

    /// An empty stack.
    pub fn new() -> (s: Stack<T>)
        ensures
            s.wf(),
            s@ == Seq::<T>::empty(),
    {
        let s = Stack { values: [None; 128], current: 0 };
        assert(s@ =~= Seq::<T>::empty());
        s
    }

    /// Whether the bottom slot holds a value, that is whether the stack is non-empty.
    pub fn has_val(&self) -> (r: bool)
        requires
            self.wf(),
        ensures
            r == (self@.len() > 0),
    {
        match self.values[0] {
            Some(_val) => true,
            _ => false,
        }
    }

    /// Puts `val` on top of the stack; the stack must have room for it.
    pub fn push(&mut self, val: T)
        requires
            old(self).wf(),
            old(self)@.len() < STACK_CAPACITY,
        ensures
            final(self).wf(),
            final(self)@ == old(self)@.push(val),
    {
        self.values[self.current] = Some(val);
        self.current = self.current + 1;
        assert(self@ =~= old(self)@.push(val));
    }

    /// Takes the top value off the stack; the stack must not be empty.
    pub fn pop(&mut self) -> (r: T)
        requires
            old(self).wf(),
            old(self)@.len() > 0,
        ensures
            final(self).wf(),
            r == old(self)@.last(),
            final(self)@ == old(self)@.drop_last(),
    {
        self.current = self.current - 1;
        let return_val = self.values[self.current].unwrap();
        self.values[self.current] = None;
        assert(self@ =~= old(self)@.drop_last());
        return_val
    }

    /// Empties every stacked slot.
    pub fn clear(&mut self)
        requires
            old(self).wf(),
        ensures
            final(self).wf(),
            final(self)@ == Seq::<T>::empty(),
    {
        let ghost top = self.current;
        let mut i: usize = 0;
        while i < self.current
            invariant
                top == self.current,
                self.current <= STACK_CAPACITY,
                0 <= i <= self.current,
                forall|j: int| 0 <= j < i ==> (#[trigger] self.values@[j]) is None,
                forall|j: int| self.current <= j < STACK_CAPACITY ==> (#[trigger] self.values@[j]) is None,
            decreases self.current - i,
        {
            self.values[i] = None;
            i = i + 1;
        }
        self.current = 0;
        assert(self@ =~= Seq::<T>::empty());
    }
}

/// Popping right after a push hands back the pushed value and leaves the
/// stack as it was before the push.
pub proof fn law_pop_undoes_push<T>(s: Seq<T>, val: T)
    ensures
        s.push(val).last() == val,
        s.push(val).drop_last() == s,
{
    assert(s.push(val).drop_last() =~= s);
}

} // verus!
