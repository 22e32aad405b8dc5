//! A fixed-capacity, allocation-free queue of chars.
use vstd::prelude::*;

verus! {

/// Holds at most `N` chars inline, in the order they were put in, and hands them
/// out from the front. The occupied region is `array[front..back]`.
pub struct FixBuf<const N: usize> {
    array: [char; N],
    front: usize,
    back: usize,
}

impl<const N: usize> View for FixBuf<N> {
    type V = Seq<char>;

    closed spec fn view(&self) -> Seq<char> {
        self.array@.subrange(self.front as int, self.back as int)
    }
}

impl<const N: usize> FixBuf<N> {
    /// The occupied region lies inside the array.
    pub closed spec fn wf(&self) -> bool {
        self.front <= self.back <= N
    }

    /// An empty buffer.
    pub fn empty() -> (r: Self)
        ensures
            r.wf(),
            r@ == Seq::<char>::empty(),
    {
        FixBuf { array: ['\0'; N], front: 0, back: 0 }
    }

    /// Copies `elems` in order; they sit at the back of the array, the unused
    /// capacity before them.
    pub fn new(elems: &[char]) -> (r: Self)
        requires
            elems@.len() <= N,
        ensures
            r.wf(),
            r@ == elems@,
    {
        let mut array: [char; N] = ['\0'; N];
        let front: usize = N - elems.len();
        let mut i: usize = 0;
        while i < elems.len()
            invariant
                front + elems@.len() == N,
                i <= elems@.len(),
                array@.len() == N,
                forall|j: int| 0 <= j < i ==> array@[front + j] == elems@[j],
            decreases elems@.len() - i,
        {
            array[front + i] = elems[i];
            i = i + 1;
        }
        let r = FixBuf { array, front, back: N };
        assert(r@ =~= elems@);
        r
    }

    /// Number of chars held.
    pub fn len(&self) -> (r: usize)
        requires
            self.wf(),
        ensures
            r == self@.len(),
            r <= N,
    {
        self.back - self.front
    }

    /// Whether no char is held.
    pub fn is_empty(&self) -> (r: bool)
        requires
            self.wf(),
        ensures
            r == (self@.len() == 0),
    {
        self.back == self.front
    }

    /// The chars held, front first.
    pub fn as_slice(&self) -> (r: &[char])
        requires
            self.wf(),
        ensures
            r@ == self@,
    {
        &self.array.as_slice()[self.front..self.back]
    }

    /// Removes and returns the front char, or `None` when empty.
    pub fn pop_front(&mut self) -> (r: Option<char>)
        requires
            old(self).wf(),
        ensures
            final(self).wf(),
            old(self)@.len() == 0 ==> r is None && final(self)@ == old(self)@,
            old(self)@.len() > 0 ==> r == Some(old(self)@[0])
                && final(self)@ == old(self)@.drop_first(),
    {
        if self.front == self.back {
            None
        } else {
            let c = self.array[self.front];
            self.front = self.front + 1;
            assert(self@ =~= old(self)@.drop_first());
            Some(c)
        }
    }

    /// Appends `c` at the back; moves the held chars to the start of the array
    /// first when the back is full.
    pub fn push_back(&mut self, c: char)
        requires
            old(self).wf(),
            old(self)@.len() < N,
        ensures
            final(self).wf(),
            final(self)@ == old(self)@.push(c),
    {
        if self.back == N {
            let n: usize = self.back - self.front;
            let mut i: usize = 0;
            while i < n
                invariant
                    self.wf(),
                    self.back == N,
                    n == self.back - self.front,
                    i <= n,
                    self.front > 0,
                    self.array@.len() == N,
                    forall|j: int| 0 <= j < i ==> self.array@[j] == old(self).array@[old(self).front + j],
                    forall|j: int|
                        self.front + i <= j < N ==> self.array@[j] == old(self).array@[j],
                    self.front == old(self).front,
                decreases n - i,
            {
                let x = self.array[self.front + i];
                self.array[i] = x;
                i = i + 1;
            }
            self.front = 0;
            self.back = n;
            assert(self@ =~= old(self)@);
        }
        self.array[self.back] = c;
        self.back = self.back + 1;
        assert(self@ =~= old(self)@.push(c));
    }
}

} // verus!
