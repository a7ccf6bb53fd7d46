use vstd::prelude::*;

verus! {

/// What happened to a user's attendance of a scheduled event.
#[derive(Debug, Clone, Copy, PartialEq, Eq, Structural)]
pub enum ChangeKind {
    Removed,
    Added,
}

/// A value that may not have arrived yet.
///
/// While the value is missing, the mutations meant for it are queued in the
/// order in which they were requested; they run, in that order, at the moment
/// the value is set.
pub enum NotYet<T, F> {
    Exists(T),
    Modify(Vec<F>),
}

impl<T, F: FnOnce(&mut T)> NotYet<T, F> {
    /// Every queued mutation can run on every value.
    pub open spec fn wf(&self) -> bool {
        match *self {
            NotYet::Exists(_) => true,
            NotYet::Modify(hooks) => forall|i: int, r: &mut T|
                0 <= i < hooks@.len() ==> call_requires(hooks@[i], (r,)),
        }
    }

    /// The mutations that wait for the value; none once it exists.
    pub open spec fn pending(&self) -> Seq<F> {
        match *self {
            NotYet::Exists(_) => Seq::empty(),
            NotYet::Modify(hooks) => hooks@,
        }
    }

    /// The value, once it exists.
    pub open spec fn value(&self) -> Option<T> {
        match *self {
            NotYet::Exists(v) => Some(v),
            NotYet::Modify(_) => None,
        }
    }

    /// Runs `f` on the value if it exists; queues it behind the mutations
    /// already waiting if not.
    pub fn modify(&mut self, f: F)
        requires
            old(self).wf(),
            forall|r: &mut T| call_requires(f, (r,)),
        ensures
            final(self).wf(),
            old(self).value() is Some ==> final(self).value() is Some && exists|r: &mut T|
                Some(*r) == old(self).value() && call_ensures(f, (r,), ()) && final(self).value()
                    == Some(*final(r)),
            old(self).value() is None ==> final(self).value() is None && final(self).pending()
                == old(self).pending().push(f),
    {
        match self {
            NotYet::Exists(v) => f(v),
            NotYet::Modify(hooks) => hooks.push(f),
        }
    }

    /// The value, if it exists.
    pub fn get(&self) -> (r: Option<&T>)
        ensures
            match r {
                Some(v) => self.value() == Some(*v),
                None => self.value() is None,
            },
    {
        match self {
            NotYet::Exists(v) => Some(v),
            NotYet::Modify(_) => None,
        }
    }

    /// Mutable access to the value, if it exists. Whatever the caller writes
    /// through the reference is the value afterwards; the queue of a missing
    /// value is left alone.
    pub fn get_mut(&mut self) -> (r: Option<&mut T>)
        ensures
            match r {
                Some(v) => old(self).value() == Some(*v) && final(self).value() == Some(*final(v)),
                None => old(self).value() is None && *final(self) == *old(self),
            },
    {
        match self {
            NotYet::Exists(v) => Some(v),
            NotYet::Modify(_) => None,
        }
    }

    /// Supplies the value. Where one exists already, nothing changes and the
    /// answer is `false`. Where none does, the queued mutations run on `t`,
    /// oldest first, the outcome becomes the value, and the answer is `true`.
    pub fn set(&mut self, t: T) -> (fresh: bool)
        requires
            old(self).wf(),
        ensures
            final(self).wf(),
            fresh == (old(self).value() is None),
            !fresh ==> *final(self) == *old(self),
            fresh ==> final(self).value() is Some && exists|steps: Seq<T>|
                {
                    &&& steps.len() == old(self).pending().len() + 1
                    &&& steps[0] == t
                    &&& Some(steps.last()) == final(self).value()
                    &&& forall|i: int|
                        #![trigger steps[i]]
                        0 <= i < old(self).pending().len() ==> exists|r: &mut T|
                            *r == steps[i] && call_ensures(old(self).pending()[i], (r,), ())
                                && *final(r) == steps[i + 1]
                },
    {
        match self {
            NotYet::Exists(_) => false,
            NotYet::Modify(hooks) => {
                let ghost queue = hooks@;
                let ghost mut done: int = 0;
                let ghost mut steps: Seq<T> = seq![t];
                let mut v = t;
                while hooks.len() > 0
                    invariant
                        0 <= done <= queue.len(),
                        hooks@ == queue.skip(done),
                        steps.len() == done + 1,
                        steps[0] == t,
                        steps.last() == v,
                        forall|i: int|
                            #![trigger steps[i]]
                            0 <= i < done ==> exists|r: &mut T|
                                *r == steps[i] && call_ensures(queue[i], (r,), ()) && *final(r)
                                    == steps[i + 1],
                        forall|i: int, r: &mut T|
                            0 <= i < queue.len() ==> call_requires(queue[i], (r,)),
                    decreases hooks.len(),
                {
                    let hook = hooks.remove(0);
                    let ghost before = v;
                    assert(hook == queue[done]);
                    hook(&mut v);
                    proof {
                        let ghost earlier = steps;
                        steps = steps.push(v);
                        assert(exists|r: &mut T|
                            *r == steps[done] && call_ensures(queue[done], (r,), ()) && *final(r)
                                == steps[done + 1]);
                        assert forall|i: int| #![trigger steps[i]] 0 <= i < done + 1 implies exists|r: &mut T|
                            *r == steps[i] && call_ensures(queue[i], (r,), ()) && *final(r)
                                == steps[i + 1] by {
                            if i < done {
                                assert(steps[i] == earlier[i]);
                                assert(steps[i + 1] == earlier[i + 1]);
                            }
                        }
                        assert(queue.skip(done).remove(0) == queue.skip(done + 1));
                        done = done + 1;
                    }
                }
                assert(done == queue.len()) by {
                    assert(queue.skip(done).len() == 0);
                }
                *self = NotYet::Exists(v);
                true
            },
        }
    }
}

} // verus!
