//! A cell that is written once, by the first `init`, and read afterwards.
use vstd::prelude::*;

verus! {

/// A cell written at most once; `once` records that it has been.
pub struct OnceLock<T> {
    pub once: bool,
    pub value: Option<T>,
}

/// What an attempt to write the cell reports.
#[derive(Clone, Copy, PartialEq, Eq, Structural, Debug)]
pub enum OnceLocStatus {
    Success,
    InitErr,
}

impl<T> OnceLock<T> {
    /// The flag and the contents agree.
    pub open spec fn wf(&self) -> bool {
        self.once == self.value.is_some()
    }

    /// An empty cell.
    pub fn new() -> (lock: Self)
        ensures
            lock.wf(),
            !lock.once,
            lock.value.is_none(),
    {
        OnceLock { once: false, value: None }
    }

    fn is_initialized(&self) -> (b: bool)
        ensures
            b == self.once,
    {
        self.once
    }

    fn initialize<F>(&mut self, f: F) -> (status: OnceLocStatus) where F: FnOnce() -> T
        requires
            f.requires(()),
        ensures
            status == OnceLocStatus::Success,
            final(self).once,
            final(self).value.is_some(),
            f.ensures((), final(self).value.unwrap()),
    {
        let v = f();
        self.value = Some(v);
        self.once = true;
        OnceLocStatus::Success
    }

    /// The contents of a cell that has been written.
    pub fn get_value_unchecked(&self) -> (v: &T)
        requires
            self.value.is_some(),
        ensures
            *v == self.value.unwrap(),
    {
        self.value.as_ref().unwrap()
    }

    fn get_value_unchecked_mut(&mut self) -> (v: &mut T)
        requires
            old(self).value.is_some(),
        ensures
            *v == old(self).value.unwrap(),
            final(self).value == Some(*final(v)),
            final(self).once == old(self).once,
    {
        self.value.as_mut().unwrap()
    }

    /// The contents, once the cell has been written.
    pub fn get(&self) -> (v: Option<&T>)
        requires
            self.wf(),
        ensures
            match v {
                Some(r) => self.once && *r == self.value.unwrap(),
                None => !self.once,
            },
    {
        match self.is_initialized() {
            true => Some(self.get_value_unchecked()),
            false => None,
        }
    }

    /// The contents for writing, once the cell has been written.
    pub fn get_mut(&mut self) -> (v: Option<&mut T>)
        requires
            old(self).wf(),
        ensures
            final(self).once == old(self).once,
            match v {
                Some(r) => old(self).once && *r == old(self).value.unwrap() && final(self).value
                    == Some(*final(r)),
                None => !old(self).once && final(self).value == old(self).value,
            },
    {
        match self.is_initialized() {
            true => Some(self.get_value_unchecked_mut()),
            false => None,
        }
    }

    /// The contents, written by `f` first if the cell is still empty.
    pub fn get_or_init<F, E>(&mut self, f: F) -> (v: &T) where F: FnOnce() -> T
        requires
            old(self).wf(),
            !old(self).once ==> f.requires(()),
        ensures
            final(self).wf(),
            final(self).once,
            *v == final(self).value.unwrap(),
            old(self).once ==> final(self).value == old(self).value,
            !old(self).once ==> f.ensures((), final(self).value.unwrap()),
    {
        if !self.is_initialized() {
            self.initialize(f);
        }
        self.get_value_unchecked()
    }

    /// Writes the value `f` makes into an empty cell; a cell that has been
    /// written is left as it is and the attempt refused.
    pub fn init<F>(&mut self, f: F) -> (status: OnceLocStatus) where F: FnOnce() -> T
        requires
            old(self).wf(),
            !old(self).once ==> f.requires(()),
        ensures
            inited(*old(self), *final(self), status),
            !old(self).once ==> f.ensures((), final(self).value.unwrap()),
    {
        match self.is_initialized() {
            true => OnceLocStatus::InitErr,
            false => self.initialize(f),
        }
    }
}

/// What `init` does to a lock: afterwards it is written; the attempt
/// succeeds on an empty lock, and a written one is refused and keeps its value.
pub open spec fn inited<T>(pre: OnceLock<T>, post: OnceLock<T>, status: OnceLocStatus) -> bool {
    &&& post.wf()
    &&& post.once
    &&& status == if pre.once {
        OnceLocStatus::InitErr
    } else {
        OnceLocStatus::Success
    }
    &&& pre.once ==> post.value == pre.value
}

/// A lock that has not been written, as `new` makes it, holds nothing (so
/// `get` and `get_mut` give `None`), and the first `init` on it succeeds
/// and leaves it written.
pub proof fn lemma_first_init_succeeds<T>(l0: OnceLock<T>, l1: OnceLock<T>, s1: OnceLocStatus)
    requires
        l0.wf(),
        !l0.once,
        inited(l0, l1, s1),
    ensures
        l0.value is None,
        s1 == OnceLocStatus::Success,
        l1.once,
        l1.value is Some,
{
}

/// Of two `init` calls in a row, the second is refused and leaves the value
/// the first one left, whatever the lock held before.
pub proof fn lemma_second_init_refused<T>(
    l0: OnceLock<T>,
    l1: OnceLock<T>,
    s1: OnceLocStatus,
    l2: OnceLock<T>,
    s2: OnceLocStatus,
)
    requires
        inited(l0, l1, s1),
        inited(l1, l2, s2),
    ensures
        s2 == OnceLocStatus::InitErr,
        l2.value == l1.value,
        l2.value is Some,
{
}

} // verus!
