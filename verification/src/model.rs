//! The grouping cursor as a mathematical object: the items still to come and
//! the key of the group being read, with the steps that move it.

use vstd::prelude::*;
use crate::key::{eq_is_reflexive, in_group, key_eq, key_of};

verus! {

/// The state that the group cursor and the item cursor share.
pub struct Cursor<T, K> {
    /// The items still to come, next one first.
    pub rest: Seq<T>,
    /// The key of the group being read; `None` before the first group and
    /// after the last.
    pub key: Option<K>,
}

/// How many items at the front of `s` belong to the group with key `cur`.
pub open spec fn run_len<T, K: PartialEq, F: Fn(&T) -> K>(f: F, s: Seq<T>, cur: Option<K>) -> nat
    decreases s.len(),
{
    if s.len() > 0 && in_group(f, s[0], cur) {
        1 + run_len(f, s.drop_first(), cur)
    } else {
        0
    }
}

/// One step of the item cursor: the next item comes out if it belongs to the
/// current group; otherwise nothing comes out and nothing moves.
pub open spec fn next_item<T, K: PartialEq, F: Fn(&T) -> K>(f: F, c: Cursor<T, K>) -> (
    Option<T>,
    Cursor<T, K>,
) {
    if c.rest.len() > 0 && in_group(f, c.rest[0], c.key) {
        (Some(c.rest[0]), Cursor { rest: c.rest.drop_first(), key: c.key })
    } else {
        (None, c)
    }
}

/// How many items come out in `n` steps of the item cursor: `n`, or as many as
/// the current group still has if those are fewer.
pub open spec fn items_read<T, K: PartialEq, F: Fn(&T) -> K>(f: F, c: Cursor<T, K>, n: nat) -> nat {
    let m = run_len(f, c.rest, c.key);
    if n < m {
        n
    } else {
        m
    }
}

/// The cursor after `n` steps of the item cursor.
pub open spec fn after_items<T, K: PartialEq, F: Fn(&T) -> K>(f: F, c: Cursor<T, K>, n: nat) -> Cursor<
    T,
    K,
> {
    Cursor { rest: c.rest.skip(items_read(f, c, n) as int), key: c.key }
}

/// One step of the group cursor: what is left of the current group is dropped,
/// and the next item, if there is one, opens a new group under its own key.
pub open spec fn advance_group<T, K: PartialEq, F: Fn(&T) -> K>(f: F, c: Cursor<T, K>) -> Cursor<
    T,
    K,
> {
    let rest = c.rest.skip(run_len(f, c.rest, c.key) as int);
    if rest.len() == 0 {
        Cursor { rest, key: None }
    } else {
        Cursor { rest, key: Some(key_of(f, rest[0])) }
    }
}

/// The groups that come out from `c` on, when each is read to its end before
/// the next is asked for. The list stops at a group that would have no item,
/// which takes a key that does not equal itself.
pub open spec fn groups<T, K: PartialEq, F: Fn(&T) -> K>(f: F, c: Cursor<T, K>) -> Seq<Seq<T>>
    decreases c.rest.len(),
    via groups_decreases::<T, K, F>
{
    let g = advance_group(f, c);
    let n = run_len(f, g.rest, g.key);
    if g.key is None || n == 0 {
        Seq::empty()
    } else {
        seq![g.rest.take(n as int)] + groups(f, Cursor { rest: g.rest.skip(n as int), key: g.key })
    }
}

#[via_fn]
proof fn groups_decreases<T, K: PartialEq, F: Fn(&T) -> K>(f: F, c: Cursor<T, K>) {
    lemma_run_len_bounds(f, c.rest, c.key);
    let g = advance_group(f, c);
    lemma_run_len_bounds(f, g.rest, g.key);
}

/// A run ends within the sequence, every item of it belongs to the group, and
/// the item after it, if there is one, does not.
pub proof fn lemma_run_len_bounds<T, K: PartialEq, F: Fn(&T) -> K>(f: F, s: Seq<T>, cur: Option<K>)
    ensures
        run_len(f, s, cur) <= s.len(),
        forall|i: int| 0 <= i < run_len(f, s, cur) ==> in_group(f, #[trigger] s[i], cur),
        run_len(f, s, cur) < s.len() ==> !in_group(f, s[run_len(f, s, cur) as int], cur),
    decreases s.len(),
{
    if s.len() > 0 && in_group(f, s[0], cur) {
        let t = s.drop_first();
        lemma_run_len_bounds(f, t, cur);
        assert forall|i: int| 0 <= i < run_len(f, s, cur) implies in_group(f, #[trigger] s[i], cur) by {
            if i > 0 {
                assert(s[i] == t[i - 1]);
            }
        }
        if run_len(f, s, cur) < s.len() {
            assert(s[run_len(f, s, cur) as int] == t[run_len(f, t, cur) as int]);
        }
    }
}

/// Reading `m` items of a run leaves a run that is `m` items shorter.
pub proof fn lemma_run_len_skip<T, K: PartialEq, F: Fn(&T) -> K>(
    f: F,
    s: Seq<T>,
    cur: Option<K>,
    m: nat,
)
    requires
        m <= run_len(f, s, cur),
    ensures
        m <= s.len(),
        run_len(f, s.skip(m as int), cur) == run_len(f, s, cur) - m,
        s.skip(m as int).skip(run_len(f, s, cur) - m) == s.skip(run_len(f, s, cur) as int),
    decreases m,
{
    lemma_run_len_bounds(f, s, cur);
    if m == 0 {
        assert(s.skip(0) =~= s);
    } else {
        let t = s.drop_first();
        lemma_run_len_skip(f, t, cur, (m - 1) as nat);
        assert(s.skip(m as int) =~= t.skip(m - 1));
        assert(s.skip(run_len(f, s, cur) as int) =~= t.skip(run_len(f, t, cur) as int));
    }
}

/// `after_items` counts steps of the item cursor: no step leaves the cursor
/// as it is, and one step more is one more call of `next_item`.
pub proof fn lemma_after_items_step<T, K: PartialEq, F: Fn(&T) -> K>(f: F, c: Cursor<T, K>, n: nat)
    ensures
        after_items(f, c, 0) == c,
        after_items(f, c, (n + 1) as nat) == next_item(f, after_items(f, c, n)).1,
{
    let m = run_len(f, c.rest, c.key);
    lemma_run_len_bounds(f, c.rest, c.key);
    assert(c.rest.skip(0) =~= c.rest);
    if n < m {
        assert(c.rest.skip(n as int).drop_first() =~= c.rest.skip(n as int + 1));
    }
}

/// Partial reading does not show: whatever part of the current group was read
/// before the group cursor moves on, it lands where it would have landed had
/// the group been left unread, on the first item that is not of this group.
pub proof fn lemma_partial_consumption_skips<T, K: PartialEq, F: Fn(&T) -> K>(
    f: F,
    c: Cursor<T, K>,
    n: nat,
)
    ensures
        advance_group(f, after_items(f, c, n)) == advance_group(f, c),
        advance_group(f, c).rest.len() > 0 ==> !in_group(f, advance_group(f, c).rest[0], c.key),
{
    let m = run_len(f, c.rest, c.key);
    let k: nat = if n < m { n } else { m };
    lemma_run_len_skip(f, c.rest, c.key, k);
    lemma_run_len_bounds(f, c.rest, c.key);
}

/// The end is final: once the group cursor has reported the end of the input,
/// every later step reports it again and changes nothing.
pub proof fn lemma_end_is_final<T, K: PartialEq, F: Fn(&T) -> K>(f: F, c: Cursor<T, K>)
    requires
        advance_group(f, c).key is None,
    ensures
        advance_group(f, c).rest.len() == 0,
        advance_group(f, advance_group(f, c)) == advance_group(f, c),
        next_item(f, advance_group(f, c)) == (None::<T>, advance_group(f, c)),
{
    let e = advance_group(f, c);
    assert(e.rest.skip(0) =~= e.rest);
}

/// Over an input with no item the first step of the group cursor reports the
/// end.
pub proof fn lemma_empty_input<T, K: PartialEq, F: Fn(&T) -> K>(f: F, c: Cursor<T, K>)
    requires
        c.rest.len() == 0,
    ensures
        advance_group(f, c).key is None,
        groups(f, c) == Seq::<Seq<T>>::empty(),
{
}

/// What holds of a list of groups cut from `rest`: put end to end they give
/// `rest` back, none is empty, the items of each have the key of its first
/// item, and a group does not start with the key of the group before it.
pub open spec fn is_run_partition<T, K: PartialEq, F: Fn(&T) -> K>(
    f: F,
    gs: Seq<Seq<T>>,
    rest: Seq<T>,
) -> bool {
    &&& gs.flatten() == rest
    &&& forall|i: int| 0 <= i < gs.len() ==> (#[trigger] gs[i]).len() > 0
    &&& forall|i: int, j: int|
        0 <= i < gs.len() && 0 <= j < gs[i].len() ==> key_eq(
            key_of(f, #[trigger] gs[i][j]),
            key_of(f, gs[i][0]),
        )
    &&& forall|i: int|
        0 <= i < gs.len() - 1 ==> !key_eq(key_of(f, (#[trigger] gs[i + 1])[0]), key_of(f, gs[i][0]))
}

/// Groups read from a cursor that stands between two groups cut what is left
/// of the input into its runs, and the first group starts at the next item.
pub proof fn lemma_groups_between<T, K: PartialEq, F: Fn(&T) -> K>(f: F, c: Cursor<T, K>)
    requires
        eq_is_reflexive::<K>(),
        run_len(f, c.rest, c.key) == 0,
    ensures
        is_run_partition(f, groups(f, c), c.rest),
        groups(f, c).len() > 0 ==> c.rest.len() > 0 && groups(f, c)[0][0] == c.rest[0],
    decreases c.rest.len(),
{
    let gs = groups(f, c);
    let g = advance_group(f, c);
    assert(c.rest.skip(0) =~= c.rest);
    assert(g.rest == c.rest);
    if g.rest.len() == 0 {
        assert(gs =~= Seq::<Seq<T>>::empty());
        assert(gs.flatten() =~= c.rest);
    } else {
        let k0 = key_of(f, g.rest[0]);
        assert(key_eq(k0, k0));
        let n = run_len(f, g.rest, g.key);
        assert(n > 0);
        lemma_run_len_bounds(f, g.rest, g.key);
        lemma_run_len_skip(f, g.rest, g.key, n);
        let d = Cursor { rest: g.rest.skip(n as int), key: g.key };
        lemma_groups_between(f, d);
        let hs = groups(f, d);
        let first = g.rest.take(n as int);
        assert(gs == seq![first] + hs);
        assert(gs.first() == first);
        assert(gs.drop_first() =~= hs);
        assert(gs.flatten() =~= c.rest);
        assert forall|i: int, j: int| 0 <= i < gs.len() && 0 <= j < gs[i].len() implies key_eq(
            key_of(f, #[trigger] gs[i][j]),
            key_of(f, gs[i][0]),
        ) by {
            if i == 0 {
                assert(gs[0][j] == g.rest[j]);
                assert(in_group(f, g.rest[j], g.key));
            } else {
                assert(gs[i] == hs[i - 1]);
            }
        }
        assert forall|i: int| 0 <= i < gs.len() - 1 implies !key_eq(
            key_of(f, (#[trigger] gs[i + 1])[0]),
            key_of(f, gs[i][0]),
        ) by {
            assert(gs[i + 1] == hs[i]);
            if i == 0 {
                assert(hs[0][0] == d.rest[0]);
                assert(d.rest[0] == g.rest[n as int]);
                assert(!in_group(f, g.rest[n as int], g.key));
            } else {
                assert(gs[i] == hs[i - 1]);
            }
        }
        assert forall|i: int| 0 <= i < gs.len() implies (#[trigger] gs[i]).len() > 0 by {
            if i > 0 {
                assert(gs[i] == hs[i - 1]);
            }
        }
    }
}

/// Runs are cut rightly: read from the start and each to its end, the groups
/// of `s` put end to end give `s` back, none is empty, the items of each share
/// the key of its first item, and neighbouring groups differ in key. This
/// takes keys that equal themselves.
pub proof fn lemma_groups_partition<T, K: PartialEq, F: Fn(&T) -> K>(f: F, s: Seq<T>)
    requires
        eq_is_reflexive::<K>(),
    ensures
        is_run_partition(f, groups(f, Cursor { rest: s, key: None::<K> }), s),
{
    lemma_groups_between(f, Cursor { rest: s, key: None::<K> });
}

} // verus!
