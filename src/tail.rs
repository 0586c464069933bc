use vstd::prelude::*;

verus! {

/// A ring buffer that keeps the last `N` values inserted.
#[derive(Clone, Copy, Debug)]
pub struct Tail<T, const N: usize> {
    data: [T; N],
    position: usize,
    length: usize,
}

impl<T, const N: usize> Tail<T, N> {
    /// The slot of the `i`-th most recent value.
    pub closed spec fn slot(&self, i: int) -> int {
        if self.position >= i {
            self.position - i
        } else {
            self.position + N - i
        }
    }

    /// The buffer's bookkeeping is consistent.
    pub closed spec fn wf(&self) -> bool {
        &&& N > 0
        &&& self.position < N
        &&& self.length <= N
    }
}

impl<T, const N: usize> View for Tail<T, N> {
    type V = Seq<T>;

    /// The values kept, the most recent first.
    closed spec fn view(&self) -> Seq<T> {
        Seq::new(self.length as nat, |i: int| self.data@[self.slot(i)])
    }
}

impl<T, const N: usize> Tail<T, N> {
    /// Whether no value is kept.
    pub fn is_empty(&self) -> (r: bool)
        ensures
            r == (self@.len() == 0),
    {
        self.length == 0
    }

    /// How many values are kept: never more than `N`.
    pub fn len(&self) -> (r: usize)
        ensures
            r == self@.len(),
            self.wf() ==> r <= N,
    {
        self.length
    }

    /// Insert a value; the oldest one goes where `N` values are kept already.
    pub fn insert(&mut self, value: T)
        requires
            old(self).wf(),
        ensures
            final(self).wf(),
            final(self)@.len() <= N,
            final(self)@ == if old(self)@.len() < N {
                seq![value] + old(self)@
            } else {
                seq![value] + old(self)@.drop_last()
            },
    {
        let ghost before = self@;
        self.position = if self.position + 1 == N {
            0
        } else {
            self.position + 1
        };
        self.data.set(self.position, value);
        if self.length < N {
            self.length = self.length + 1;
        }
        let ghost expected = if before.len() < N {
            seq![value] + before
        } else {
            seq![value] + before.drop_last()
        };
        assert(self@ =~= expected);
    }

    /// The `index`-th most recent value, if there is one.
    pub fn get(&self, index: usize) -> (r: Option<&T>)
        requires
            self.wf(),
        ensures
            index < self@.len() ==> r == Some(&self@[index as int]),
            index >= self@.len() ==> r is None,
    {
        if self.is_empty() || index >= self.length {
            return None;
        }
        let slot = if self.position >= index {
            self.position - index
        } else {
            N - (index - self.position)
        };
        Some(&self.data[slot])
    }

    /// The most recent value, if there is one.
    pub fn last(&self) -> (r: Option<&T>)
        requires
            self.wf(),
        ensures
            self@.len() > 0 ==> r == Some(&self@[0]),
            self@.len() == 0 ==> r is None,
    {
        if self.is_empty() {
            return None;
        }
        Some(&self.data[self.position])
    }

    /// Forget the most recent value, if there is one.
    pub fn remove_last(&mut self)
        requires
            old(self).wf(),
        ensures
            final(self).wf(),
            final(self)@.len() <= N,
            final(self)@ == if old(self)@.len() > 0 {
                old(self)@.drop_first()
            } else {
                old(self)@
            },
    {
        let ghost before = self@;
        if !self.is_empty() {
            self.position = if self.position == 0 {
                N - 1
            } else {
                self.position - 1
            };
            self.length -= 1;
            assert(self@ =~= before.drop_first());
        }
    }

    /// Forget all the values.
    pub fn clear(&mut self)
        requires
            old(self).wf(),
        ensures
            final(self).wf(),
            final(self)@.len() == 0,
            final(self)@.len() <= N,
    {
        self.position = N - 1;
        self.length = 0;
    }
}

impl<T: Copy + Default, const N: usize> Default for Tail<T, N> {
    /// An empty buffer; the first value goes to the first slot.
    fn default() -> (r: Self)
        ensures
            N > 0 ==> r.wf(),
            r@.len() == 0,
            r@.len() <= N,
    {
        let fill = T::default();
        Tail { data: [fill; N], position: if N > 0 { N - 1 } else { 0 }, length: 0 }
    }
}

} // verus!
