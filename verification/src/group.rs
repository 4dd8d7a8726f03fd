//! The two cursors: `GroupBy` moves from group to group, `GroupIter` yields
//! the items of the group that is being read.

use vstd::prelude::*;
use crate::key::{eq_is_specified, key_of, pure_key};
use crate::lookahead::Lookahead;
use crate::model::{
    advance_group, after_items, items_read, lemma_run_len_bounds, lemma_run_len_skip, next_item,
    run_len, Cursor,
};

verus! {

/// The item cursor. It owns the source, the key function and the key of the
/// group being read, so that both cursors work on one position.
#[verifier::reject_recursive_types(T)]
#[verifier::reject_recursive_types(K)]
pub struct GroupIter<T, F, K> where F: Fn(&T) -> K {
    iter: Lookahead<T>,
    key_func: F,
    current_key: Option<K>,
}

impl<T, F, K> View for GroupIter<T, F, K> where F: Fn(&T) -> K {
    type V = Cursor<T, K>;

    closed spec fn view(&self) -> Cursor<T, K> {
        Cursor { rest: self.iter@, key: self.current_key }
    }
}

impl<T, F, K> GroupIter<T, F, K> where F: Fn(&T) -> K, K: PartialEq {
    /// The key function that this cursor groups by.
    pub closed spec fn key_fn(&self) -> F {
        self.key_func
    }

    /// The key function is pure and the keys' `==` is specified.
    pub open spec fn wf(&self) -> bool {
        &&& pure_key(self.key_fn())
        &&& eq_is_specified::<K>()
    }

    /// The key of the group being read; `None` before the first group and
    /// after the last.
    pub fn key(&self) -> (r: Option<&K>)
        ensures
            r == match self@.key {
                Some(k) => Some(&k),
                None => None,
            },
    {
        self.current_key.as_ref()
    }

    /// The key of the next item of the source, which stays where it is;
    /// `None` when the source is used up. The cursor is left as it was.
    pub fn peek_key(&mut self) -> (r: Option<K>)
        requires
            old(self).wf(),
        ensures
            final(self).key_fn() == old(self).key_fn(),
            final(self)@ == old(self)@,
            old(self)@.rest.len() == 0 ==> r is None,
            old(self)@.rest.len() > 0 ==> r == Some(key_of(old(self).key_fn(), old(self)@.rest[0])),
    {
        match self.iter.peek() {
            None => None,
            Some(item) => {
                let k = (self.key_func)(item);
                Some(k)
            },
        }
    }

    /// The next item of the current group. `None` when the group has ended:
    /// the source is used up, or its next item has another key and stays in
    /// place for the next group.
    pub fn next(&mut self) -> (r: Option<T>)
        requires
            old(self).wf(),
        ensures
            final(self).key_fn() == old(self).key_fn(),
            (r, final(self)@) == next_item(old(self).key_fn(), old(self)@),
    {
        match self.peek_key() {
            None => None,
            key => {
                if key == self.current_key {
                    self.iter.advance()
                } else {
                    None
                }
            },
        }
    }

    /// Moves to the next group: drops what is left of the current group and
    /// opens a group under the key of the item that follows. Returns whether
    /// there is such an item; when there is none, no group is current any
    /// more.
    pub fn skip_to_next_key(&mut self) -> (r: bool)
        requires
            old(self).wf(),
        ensures
            final(self).key_fn() == old(self).key_fn(),
            final(self)@ == advance_group(old(self).key_fn(), old(self)@),
            r == final(self)@.key is Some,
    {
        let ghost f = self.key_func;
        let ghost start = self@;
        if self.current_key.is_none() {
            proof {
                assert(self@.rest.skip(0) =~= self@.rest);
            }
            match self.peek_key() {
                None => false,
                key => {
                    self.current_key = key;
                    true
                },
            }
        } else {
            loop
                invariant
                    self.wf(),
                    self.key_fn() == f,
                    f == old(self).key_fn(),
                    start == old(self)@,
                    self@.key == start.key,
                    self@.key is Some,
                    advance_group(f, self@) == advance_group(f, start),
                decreases self@.rest.len(),
            {
                proof {
                    assert(self@.rest.skip(0) =~= self@.rest);
                    lemma_run_len_bounds(f, self@.rest.drop_first(), self@.key);
                    assert(self@.rest.len() > 0 ==> self@.rest.skip(1).skip(
                        run_len(f, self@.rest.drop_first(), self@.key) as int,
                    ) =~= self@.rest.skip(1 + run_len(f, self@.rest.drop_first(), self@.key) as int));
                }
                match self.peek_key() {
                    None => {
                        self.current_key = None;
                        return false;
                    },
                    key => {
                        if key == self.current_key {
                            self.iter.advance();
                        } else {
                            self.current_key = key;
                            return true;
                        }
                    },
                }
            }
        }
    }

    /// Reads up to `n` items of the current group: all that it still has,
    /// where those are fewer.
    pub fn take(&mut self, n: usize) -> (r: Vec<T>)
        requires
            old(self).wf(),
        ensures
            final(self).key_fn() == old(self).key_fn(),
            final(self)@ == after_items(old(self).key_fn(), old(self)@, n as nat),
            r@.len() == items_read(old(self).key_fn(), old(self)@, n as nat),
            r@ == old(self)@.rest.take(r@.len() as int),
    {
        let ghost f = self.key_func;
        let ghost start = self@;
        let mut out: Vec<T> = Vec::new();
        let mut ended: bool = false;
        while out.len() < n && !ended
            invariant
                self.wf(),
                self.key_fn() == f,
                self@.key == start.key,
                out@.len() <= n,
                out@.len() <= run_len(f, start.rest, start.key),
                out@.len() <= start.rest.len(),
                out@ == start.rest.take(out@.len() as int),
                self@.rest == start.rest.skip(out@.len() as int),
                ended ==> run_len(f, self@.rest, self@.key) == 0,
            decreases (if ended { 0int } else { 1int }) + n - out@.len(),
        {
            proof {
                lemma_run_len_skip(f, start.rest, start.key, out@.len());
                lemma_run_len_bounds(f, start.rest, start.key);
            }
            let ghost m = out@.len() as int;
            match self.next() {
                Some(x) => {
                    out.push(x);
                    assert(out@ =~= start.rest.take(m + 1));
                    assert(self@.rest =~= start.rest.skip(m + 1));
                },
                None => {
                    ended = true;
                },
            }
        }
        proof {
            lemma_run_len_skip(f, start.rest, start.key, out@.len());
        }
        out
    }

    /// Reads the current group to its end.
    pub fn collect(&mut self) -> (r: Vec<T>)
        requires
            old(self).wf(),
        ensures
            final(self).key_fn() == old(self).key_fn(),
            final(self)@.key == old(self)@.key,
            r@.len() == run_len(old(self).key_fn(), old(self)@.rest, old(self)@.key),
            r@ == old(self)@.rest.take(r@.len() as int),
            final(self)@.rest == old(self)@.rest.skip(r@.len() as int),
    {
        let ghost f = self.key_func;
        let ghost start = self@;
        let mut out: Vec<T> = Vec::new();
        let mut ended: bool = false;
        while !ended
            invariant
                self.wf(),
                self.key_fn() == f,
                self@.key == start.key,
                out@.len() <= run_len(f, start.rest, start.key),
                out@.len() <= start.rest.len(),
                out@ == start.rest.take(out@.len() as int),
                self@.rest == start.rest.skip(out@.len() as int),
                ended ==> run_len(f, self@.rest, self@.key) == 0,
            decreases (if ended { 0int } else { 1int }) + self@.rest.len(),
        {
            proof {
                lemma_run_len_skip(f, start.rest, start.key, out@.len());
                lemma_run_len_bounds(f, start.rest, start.key);
            }
            let ghost m = out@.len() as int;
            match self.next() {
                Some(x) => {
                    out.push(x);
                    assert(out@ =~= start.rest.take(m + 1));
                    assert(self@.rest =~= start.rest.skip(m + 1));
                },
                None => {
                    ended = true;
                },
            }
        }
        proof {
            lemma_run_len_skip(f, start.rest, start.key, out@.len());
        }
        out
    }
}

/// The group cursor: each step moves to the next group and hands out the item
/// cursor for it.
#[verifier::reject_recursive_types(T)]
#[verifier::reject_recursive_types(K)]
pub struct GroupBy<T, F, K> where F: Fn(&T) -> K {
    group_iter: GroupIter<T, F, K>,
}

impl<T, F, K> View for GroupBy<T, F, K> where F: Fn(&T) -> K {
    type V = Cursor<T, K>;

    closed spec fn view(&self) -> Cursor<T, K> {
        self.group_iter@
    }
}

impl<T, F, K> GroupBy<T, F, K> where F: Fn(&T) -> K, K: PartialEq {
    /// The key function that this cursor groups by.
    pub closed spec fn key_fn(&self) -> F {
        self.group_iter.key_fn()
    }

    /// The key function is pure and the keys' `==` is specified.
    pub open spec fn wf(&self) -> bool {
        &&& pure_key(self.key_fn())
        &&& eq_is_specified::<K>()
    }

    /// A group cursor at the start of `items`, with no group opened yet.
    pub fn new(items: Vec<T>, key_func: F) -> (r: Self)
        requires
            pure_key(key_func),
            eq_is_specified::<K>(),
        ensures
            r.wf(),
            r.key_fn() == key_func,
            r@ == (Cursor { rest: items@, key: None::<K> }),
    {
        GroupBy { group_iter: GroupIter { iter: Lookahead::new(items), key_func, current_key: None } }
    }

    /// The cursor itself, borrowed for a step.
    pub fn by_ref(&mut self) -> (r: &mut Self)
        ensures
            *r == *old(self),
            *final(self) == *final(r),
    {
        self
    }

    /// Moves to the next group and hands out the item cursor for it, or
    /// `None` when the input has ended. What the caller reads through the
    /// item cursor is gone from this cursor too.
    pub fn next(&mut self) -> (r: Option<&mut GroupIter<T, F, K>>)
        requires
            old(self).wf(),
        ensures
            match r {
                Some(g) => {
                    &&& g.wf()
                    &&& g.key_fn() == old(self).key_fn()
                    &&& g@ == advance_group(old(self).key_fn(), old(self)@)
                    &&& g@.key is Some
                    &&& final(self)@ == final(g)@
                    &&& final(self).key_fn() == final(g).key_fn()
                },
                None => {
                    &&& final(self).key_fn() == old(self).key_fn()
                    &&& final(self)@ == advance_group(old(self).key_fn(), old(self)@)
                    &&& final(self)@.key is None
                },
            },
    {
        if !self.group_iter.skip_to_next_key() {
            None
        } else {
            Some(&mut self.group_iter)
        }
    }
}

/// Sources that can be grouped: `group_by` as a method of the source itself.
pub trait GroupByIterator: Sized {
    type Item;

    /// The items of the source, first to last.
    spec fn items(&self) -> Seq<Self::Item>;

    /// A group cursor at the start of the source, grouping by `f`.
    fn group_by<F, K>(self, f: F) -> (r: GroupBy<Self::Item, F, K>) where
        F: Fn(&Self::Item) -> K,
        K: PartialEq,

        requires
            pure_key(f),
            eq_is_specified::<K>(),
        ensures
            r.wf(),
            r.key_fn() == f,
            r@ == (Cursor { rest: self.items(), key: None::<K> }),
    ;
}

impl<T> GroupByIterator for Vec<T> {
    type Item = T;

    open spec fn items(&self) -> Seq<T> {
        self@
    }

    fn group_by<F, K>(self, f: F) -> (r: GroupBy<T, F, K>) where F: Fn(&T) -> K, K: PartialEq {
        GroupBy::new(self, f)
    }
}

} // verus!
