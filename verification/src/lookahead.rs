//! A single-pass source with one item of lookahead.

use vstd::prelude::*;

verus! {

/// Owns the items that are still to come and lets the caller look at the next
/// one before taking it.
///
/// The view is the sequence of items still to come, in the order in which
/// `advance` will hand them out.
pub struct Lookahead<T> {
    // Items still to come, stored back to front: the next item is the last one.
    stack: Vec<T>,
}

impl<T> View for Lookahead<T> {
    type V = Seq<T>;

    closed spec fn view(&self) -> Seq<T> {
        self.stack@.reverse()
    }
}

impl<T> Lookahead<T> {
    /// Wraps `items`; they will come out first to last.
    pub fn new(items: Vec<T>) -> (r: Self)
        ensures
            r@ == items@,
    {
        let ghost all = items@;
        let mut items = items;
        let mut stack: Vec<T> = Vec::new();
        while items.len() > 0
            invariant
                items@ == all.take(items@.len() as int),
                items@.len() <= all.len(),
                stack@.reverse() == all.skip(items@.len() as int),
            decreases items@.len(),
        {
            let ghost before = stack@;
            let ghost n = items@.len() as int;
            match items.pop() {
                Some(x) => {
                    stack.push(x);
                    assert(items@ =~= all.take(n - 1));
                    assert(x == all.take(n)[n - 1]);
                    assert(before.reverse().len() == all.len() - n);
                    assert forall|i: int| 0 <= i < stack@.len() implies stack@.reverse()[i] == all.skip(
                        n - 1,
                    )[i] by {
                        if i > 0 {
                            assert(stack@.reverse()[i] == before.reverse()[i - 1]);
                            assert(before.reverse()[i - 1] == all.skip(n)[i - 1]);
                        }
                    }
                    assert(stack@.reverse() =~= all.skip(n - 1));
                },
                None => {},
            }
        }
        assert(all.skip(0) =~= all);
        Lookahead { stack }
    }

    /// The next item, left in place; `None` when the source is used up.
    ///
    /// Looking moves nothing: the items still to come are the same after the
    /// call, so looking again shows the same item, and `advance` then takes
    /// that item.
    pub fn peek(&mut self) -> (r: Option<&T>)
        ensures
            final(self)@ == old(self)@,
            old(self)@.len() == 0 ==> r is None,
            old(self)@.len() > 0 ==> r == Some(&old(self)@[0]),
    {
        let n: usize = self.stack.len();
        if n == 0 {
            None
        } else {
            Some(&self.stack[n - 1])
        }
    }

    /// Takes the next item out; `None` when the source is used up.
    pub fn advance(&mut self) -> (r: Option<T>)
        ensures
            old(self)@.len() == 0 ==> r is None && final(self)@ == old(self)@,
            old(self)@.len() > 0 ==> r == Some(old(self)@[0]) && final(self)@ == old(self)@.drop_first(),
    {
        let r = self.stack.pop();
        assert(old(self)@.len() > 0 ==> final(self)@ =~= old(self)@.drop_first());
        r
    }
}

} // verus!
