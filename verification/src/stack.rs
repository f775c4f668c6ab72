use vstd::prelude::*;

use crate::MAX_TOKENS;

verus! {

/// A stack of at most `MAX_TOKENS` elements kept in a fixed array.
///
/// The elements at indices `0..=idx` are occupied (bottom first), all the
/// other slots are empty.
pub struct Stack<T> {
    /// Held elements
    elements: [Option<T>; MAX_TOKENS],
    /// Possible pointer to the last inserted element
    idx: Option<usize>,
}

impl<T> View for Stack<T> {
    type V = Seq<T>;

    /// The held elements, bottom first.
    closed spec fn view(&self) -> Seq<T> {
        let n: nat = match self.idx {
            None => 0,
            Some(i) => (i + 1) as nat,
        };
        Seq::new(n, |k: int| self.elements@[k].unwrap())
    }
}

/// The fixed array that holds `s`: its elements in order, then empty slots.
pub open spec fn slots_of<T>(s: Seq<T>) -> Seq<Option<T>> {
    Seq::new(MAX_TOKENS as nat, |k: int| if k < s.len() { Some(s[k]) } else { None })
}

impl<T> Stack<T> {
    /// The index invariant: `idx` points at the last occupied slot, and the
    /// occupied slots are exactly those up to it.
    pub closed spec fn wf(&self) -> bool {
        &&& self.idx matches Some(i) ==> i < MAX_TOKENS
        &&& self.elements@ == slots_of(self@)
    }

    pub proof fn lemma_len_bound(&self)
        requires
            self.wf(),
        ensures
            self@.len() <= MAX_TOKENS,
    {
    }

    /// Pushes `elem` on top; fails, leaving the stack unchanged, when it
    /// already holds `MAX_TOKENS` elements.
    pub fn push(&mut self, elem: T) -> (r: Result<(), ()>)
        requires
            old(self).wf(),
        ensures
            final(self).wf(),
            old(self)@.len() < MAX_TOKENS ==> r is Ok && final(self)@ == old(self)@.push(elem),
            old(self)@.len() >= MAX_TOKENS ==> r is Err && final(self)@ == old(self)@,
    {
        match self.idx {
            None => {
                self.elements[0] = Some(elem);
                self.idx = Some(0);
                assert(self.elements@ =~= slots_of(self@));
                Ok(())
            },
            Some(i) => {
                if (i + 1) >= MAX_TOKENS {
                    return Err(());
                }
                self.elements[i + 1] = Some(elem);
                self.idx = Some(i + 1);
                assert(self@ =~= old(self)@.push(elem));
                assert(self.elements@ =~= slots_of(self@));
                Ok(())
            },
        }
    }

    /// Removes and returns the top element, if there is one.
    pub fn pop(&mut self) -> (r: Option<T>)
        requires
            old(self).wf(),
        ensures
            final(self).wf(),
            old(self)@.len() == 0 ==> r is None && final(self)@ == old(self)@,
            old(self)@.len() > 0 ==> r == Some(old(self)@.last()) && final(self)@
                == old(self)@.drop_last(),
    {
        match self.idx {
            None => None,
            Some(i) => {
                let mut x = None;
                core::mem::swap(&mut x, &mut self.elements[i]);
                if i == 0 {
                    self.idx = None
                } else {
                    self.idx = Some(i - 1)
                }
                assert(self@ =~= old(self)@.drop_last());
                assert(self.elements@ =~= slots_of(self@));
                // the slot pointed to by `i` was occupied
                Some(x.unwrap())
            },
        }
    }

    pub fn is_empty(&self) -> (r: bool)
        requires
            self.wf(),
        ensures
            r == (self@.len() == 0),
    {
        self.idx.is_none()
    }

    /// The top element, if there is one.
    pub fn top(&self) -> (r: Option<&T>)
        requires
            self.wf(),
        ensures
            self@.len() == 0 ==> r is None,
            self@.len() > 0 ==> r == Some(&self@.last()),
    {
        match self.idx {
            None => None,
            // pointed to by i, must be Some
            Some(i) => Some(self.elements[i].as_ref().unwrap()),
        }
    }

    /// The fixed array that holds the elements.
    pub fn as_elements(self) -> (r: [Option<T>; MAX_TOKENS])
        requires
            self.wf(),
        ensures
            r@ == slots_of(self@),
    {
        self.elements
    }
}

/// A fixed array with every slot empty.
pub fn empty_slots<T>() -> (r: [Option<T>; MAX_TOKENS])
    ensures
        r@ == slots_of(Seq::<T>::empty()),
{
    let r = [
        None, None, None, None, None, None, None, None,
        None, None, None, None, None, None, None, None,
        None, None, None, None, None, None, None, None,
        None, None, None, None, None, None, None, None,
    ];
    assert(r@ =~= slots_of(Seq::<T>::empty()));
    r
}

impl<T> Default for Stack<T> {
    fn default() -> (r: Self)
        ensures
            r.wf(),
            r@ == Seq::<T>::empty(),
    {
        let r = Stack { elements: empty_slots(), idx: None };
        assert(r@ =~= Seq::<T>::empty());
        r
    }
}

} // verus!
