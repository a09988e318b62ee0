//! The decode cursor: a position into a shared, read-only character
//! buffer. Advancing a cursor never mutates the buffer; cloning one is
//! cheap and yields an independent position over the same characters.

use std::rc::Rc;
use vstd::prelude::*;

verus! {

/// Relies on `Rc::clone`: the returned handle shares the same
/// allocation, so it holds the very same vector.
#[verifier::external_body]
fn rc_clone(data: &Rc<Vec<char>>) -> (r: Rc<Vec<char>>)
    ensures
        r@ == data@,
{
    Rc::clone(data)
}

/// A cursor over the input being decoded: the full character sequence
/// and a zero-based position into it.
pub struct BencodedDecodeInput {
    pub index: usize,
    pub data: Rc<Vec<char>>,
}

impl BencodedDecodeInput {
    /// The characters of the underlying input.
    pub open spec fn chars(self) -> Seq<char> {
        self.data@
    }

    /// The current position.
    pub open spec fn pos(self) -> int {
        self.index as int
    }

    /// The position never passes the end of the input.
    pub open spec fn wf(self) -> bool {
        self.pos() <= self.chars().len()
    }

    /// How many characters are left from the current position on.
    pub open spec fn remaining(self) -> int {
        self.chars().len() - self.pos()
    }

    /// A fresh cursor at the start of `data`.
    pub fn new(data: Vec<char>) -> (r: Self)
        ensures
            r.wf(),
            r.chars() == data@,
            r.pos() == 0,
    {
        BencodedDecodeInput { index: 0, data: Rc::new(data) }
    }

    /// Peek-and-advance: the character at the current position, moving
    /// one past it, or nothing at end of input.
    pub fn next_char(&mut self) -> (r: Option<char>)
        ensures
            final(self).chars() == old(self).chars(),
            old(self).pos() < old(self).chars().len() ==> {
                &&& r == Some(old(self).chars()[old(self).pos()])
                &&& final(self).pos() == old(self).pos() + 1
            },
            old(self).pos() >= old(self).chars().len() ==> {
                &&& r is None
                &&& final(self).pos() == old(self).pos()
            },
            old(self).wf() ==> final(self).wf(),
    {
        if self.index < self.data.len() {
            let c = self.data[self.index];
            self.index = self.index + 1;
            Some(c)
        } else {
            None
        }
    }

    /// The length of the underlying input.
    pub fn input_len(&self) -> (n: usize)
        ensures
            n == self.chars().len(),
    {
        self.data.len()
    }

    /// The current position as an index.
    pub fn position(&self) -> (n: usize)
        ensures
            n == self.pos(),
    {
        self.index
    }

    /// A non-consuming character iterator: an independent cursor copy
    /// over the same input.
    pub fn iter(&self) -> (r: BencodedDecodeInputIter)
        ensures
            r.input.chars() == self.chars(),
            r.input.pos() == self.pos(),
    {
        BencodedDecodeInputIter { input: self.clone() }
    }

    /// A consuming character iterator: it takes the cursor and hands it
    /// back, advanced, through `into_input`.
    pub fn iter_mut(self) -> (r: BencodedDecodeInputIterMut)
        ensures
            r.input.chars() == self.chars(),
            r.input.pos() == self.pos(),
    {
        BencodedDecodeInputIterMut { input: self }
    }
}

impl Clone for BencodedDecodeInput {
    /// An independent cursor over the same (never copied) characters.
    fn clone(&self) -> (r: Self)
        ensures
            r.chars() == self.chars(),
            r.pos() == self.pos(),
    {
        BencodedDecodeInput { index: self.index, data: rc_clone(&self.data) }
    }
}

/// Character iterator over an independent cursor copy.
pub struct BencodedDecodeInputIter {
    pub input: BencodedDecodeInput,
}

impl BencodedDecodeInputIter {
    /// The next character, if any, advancing this iterator's own cursor.
    pub fn next(&mut self) -> (r: Option<char>)
        ensures
            final(self).input.chars() == old(self).input.chars(),
            old(self).input.pos() < old(self).input.chars().len() ==> {
                &&& r == Some(old(self).input.chars()[old(self).input.pos()])
                &&& final(self).input.pos() == old(self).input.pos() + 1
            },
            old(self).input.pos() >= old(self).input.chars().len() ==> {
                &&& r is None
                &&& final(self).input.pos() == old(self).input.pos()
            },
    {
        self.input.next_char()
    }
}

/// Character iterator that owns the cursor it advances.
pub struct BencodedDecodeInputIterMut {
    pub input: BencodedDecodeInput,
}

impl BencodedDecodeInputIterMut {
    /// The next character, if any, advancing the owned cursor.
    pub fn next(&mut self) -> (r: Option<char>)
        ensures
            final(self).input.chars() == old(self).input.chars(),
            old(self).input.pos() < old(self).input.chars().len() ==> {
                &&& r == Some(old(self).input.chars()[old(self).input.pos()])
                &&& final(self).input.pos() == old(self).input.pos() + 1
            },
            old(self).input.pos() >= old(self).input.chars().len() ==> {
                &&& r is None
                &&& final(self).input.pos() == old(self).input.pos()
            },
    {
        self.input.next_char()
    }

    /// Hand the advanced cursor back.
    pub fn into_input(self) -> (r: BencodedDecodeInput)
        ensures
            r == self.input,
    {
        self.input
    }
}

} // verus!
