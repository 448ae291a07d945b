use vstd::prelude::*;

verus! {

/// A view of the part of a slice that has not been chopped off yet.
pub struct Cursor<'a, T> {
    content: &'a [T],
}

impl<'a, T> Cursor<'a, T> {
    /// The items not chopped off yet.
    pub closed spec fn content(self) -> Seq<T> {
        self.content@
    }

    pub fn new(content: &'a [T]) -> (c: Self)
        ensures
            c.content() == content@,
    {
        Self { content }
    }

    /// The item `offset` places from the front, if there is one.
    pub fn peek(&self, offset: usize) -> (r: Option<&'a T>)
        ensures
            offset < self.content().len() ==> r == Some(&self.content()[offset as int]),
            offset >= self.content().len() ==> r is None,
    {
        if offset < self.content.len() {
            Some(&self.content[offset])
        } else {
            None
        }
    }

    /// Chops the first `n` items off the front and returns them; when fewer than `n`
    /// are left it returns `None` and chops nothing.
    pub fn chop(&mut self, n: usize) -> (r: Option<&'a [T]>)
        ensures
            n > old(self).content().len() ==> r is None && final(self).content() == old(
                self,
            ).content(),
            n <= old(self).content().len() ==> {
                &&& r is Some
                &&& r.unwrap()@ == old(self).content().take(n as int)
                &&& final(self).content() == old(self).content().skip(n as int)
            },
    {
        if n > self.content.len() {
            return None;
        }
        let chopped = vstd::slice::slice_subrange(self.content, 0, n);
        self.content = vstd::slice::slice_subrange(self.content, n, self.content.len());
        Some(chopped)
    }

    /// Chops off the longest front run of items on which `predicate` holds and returns it.
    pub fn chop_while<F: Fn(&T) -> bool>(&mut self, predicate: F) -> (r: Option<&'a [T]>)
        requires
            forall|t: &T| #[trigger] predicate.requires((t,)),
        ensures
            r is Some,
            old(self).content() == r.unwrap()@ + final(self).content(),
            forall|i: int|
                0 <= i < r.unwrap()@.len() ==> predicate.ensures((&old(self).content()[i],), true),
            final(self).content().len() > 0 ==> predicate.ensures(
                (&final(self).content()[0],),
                false,
            ),
    {
        let mut n: usize = 0;
        while n < self.content.len()
            invariant
                n <= self.content@.len(),
                forall|t: &T| #[trigger] predicate.requires((t,)),
                forall|i: int| 0 <= i < n ==> predicate.ensures((&self.content@[i],), true),
            ensures
                n <= self.content@.len(),
                forall|i: int| 0 <= i < n ==> predicate.ensures((&self.content@[i],), true),
                n < self.content@.len() ==> predicate.ensures((&self.content@[n as int],), false),
            decreases self.content@.len() - n,
        {
            let keep = predicate(&self.content[n]);
            if !keep {
                break;
            }
            n = n + 1;
        }
        let ghost before = self.content@;
        let r = self.chop(n);
        assert(before == before.take(n as int) + before.skip(n as int));
        r
    }

    pub fn is_empty(&self) -> (b: bool)
        ensures
            b == (self.content().len() == 0),
    {
        self.content.len() == 0
    }
}

} // verus!
