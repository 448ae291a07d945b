use vstd::prelude::*;

verus! {

/// A read position over a slice that can look ahead and consume items.
#[derive(Debug)]
pub struct PeekableCursor<'a, T> {
    items: &'a [T],
    position: usize,
}

impl<'a, T> PeekableCursor<'a, T> {
    #[verifier::type_invariant]
    spec fn inv(self) -> bool {
        self.position <= self.items@.len()
    }

    /// All items the cursor reads from.
    pub closed spec fn items(self) -> Seq<T> {
        self.items@
    }

    /// The index of the next item to be consumed.
    pub closed spec fn pos(self) -> int {
        self.position as int
    }

    /// The items not consumed yet.
    pub open spec fn rest(self) -> Seq<T> {
        self.items().subrange(self.pos(), self.items().len() as int)
    }

    pub fn new(items: &'a [T]) -> (c: Self)
        ensures
            c.items() == items@,
            c.pos() == 0,
    {
        Self { items, position: 0 }
    }

    /// The index of the next item; never past the end.
    pub fn position(&self) -> (p: usize)
        ensures
            p == self.pos(),
            p <= self.items().len(),
            self.items().len() <= usize::MAX,
    {
        proof { use_type_invariant(self); }
        let _ = self.items.len();
        self.position
    }

    pub fn is_at_end(&self) -> (b: bool)
        ensures
            b == (self.pos() >= self.items().len()),
    {
        self.position >= self.items.len()
    }

    /// The item `n` places ahead of the position, if there is one.
    pub fn peek_n(&self, n: usize) -> (r: Option<&'a T>)
        requires
            self.pos() + n <= usize::MAX,
        ensures
            self.pos() + n < self.items().len() ==> r == Some(&self.items()[self.pos() + n]),
            self.pos() + n >= self.items().len() ==> r is None,
    {
        let i = self.position + n;
        if i < self.items.len() {
            Some(&self.items[i])
        } else {
            None
        }
    }

    /// The item at the position, if there is one.
    pub fn peek(&self) -> (r: Option<&'a T>)
        ensures
            self.pos() < self.items().len() ==> r == Some(&self.items()[self.pos()]),
            self.pos() >= self.items().len() ==> r is None,
    {
        if self.position < self.items.len() {
            Some(&self.items[self.position])
        } else {
            None
        }
    }

    /// Takes the item at the position and moves past it; at the end it returns `None`
    /// and leaves the cursor as it was.
    pub fn consume(&mut self) -> (r: Option<&'a T>)
        ensures
            final(self).items() == old(self).items(),
            old(self).pos() < old(self).items().len() ==> {
                &&& r == Some(&old(self).items()[old(self).pos()])
                &&& final(self).pos() == old(self).pos() + 1
            },
            old(self).pos() >= old(self).items().len() ==> {
                &&& r is None
                &&& final(self).pos() == old(self).pos()
            },
    {
        if self.position >= self.items.len() {
            return None;
        }
        let item = &self.items[self.position];
        self.position = self.position + 1;
        Some(item)
    }

    /// Consumes the longest run of items, from the position on, on which `predicate`
    /// holds, and returns that run.
    pub fn consume_while<F: Fn(&T) -> bool>(&mut self, predicate: F) -> (run: &'a [T])
        requires
            forall|t: &T| #[trigger] predicate.requires((t,)),
        ensures
            final(self).items() == old(self).items(),
            old(self).pos() <= final(self).pos() <= old(self).items().len(),
            run@ == old(self).items().subrange(old(self).pos(), final(self).pos()),
            forall|i: int|
                old(self).pos() <= i < final(self).pos() ==> predicate.ensures(
                    (&old(self).items()[i],),
                    true,
                ),
            final(self).pos() < old(self).items().len() ==> predicate.ensures(
                (&old(self).items()[final(self).pos()],),
                false,
            ),
    {
        proof { use_type_invariant(&*self); }
        let start = self.position;
        let mut end = start;
        while end < self.items.len()
            invariant
                start <= end <= self.items@.len(),
                forall|t: &T| #[trigger] predicate.requires((t,)),
                forall|i: int| start <= i < end ==> predicate.ensures((&self.items@[i],), true),
            ensures
                start <= end <= self.items@.len(),
                forall|i: int| start <= i < end ==> predicate.ensures((&self.items@[i],), true),
                end < self.items@.len() ==> predicate.ensures((&self.items@[end as int],), false),
            decreases self.items@.len() - end,
        {
            let keep = predicate(&self.items[end]);
            if !keep {
                break;
            }
            end = end + 1;
        }
        self.position = end;
        vstd::slice::slice_subrange(self.items, start, end)
    }

    /// The items not consumed yet.
    pub fn from_position(&self) -> (r: &'a [T])
        ensures
            r@ == self.rest(),
    {
        proof { use_type_invariant(self); }
        vstd::slice::slice_subrange(self.items, self.position, self.items.len())
    }
}

} // verus!
