use groupby::{GroupBy, GroupByIterator, Lookahead};

fn half(x: &i32) -> i32 {
    x / 2
}

#[test]
fn it_works() {
    let mut grp = vec![1, 1, 1, 1, 2, 3, 3, 4].group_by(|x: &i32| x / 2);
    assert_eq!(
        Some((0, vec![1, 1])),
        grp.by_ref().next().map(|g| (*g.key().unwrap(), g.take(2)))
    );
    assert_eq!(
        Some((1, vec![2, 3, 3])),
        grp.by_ref().next().map(|g| (*g.key().unwrap(), g.collect()))
    );
    assert_eq!(
        Some((2, vec![4])),
        grp.by_ref().next().map(|g| (*g.key().unwrap(), g.take(5)))
    );
    assert_eq!(
        None,
        grp.by_ref().next().map(|g| (*g.key().unwrap(), g.collect()))
    );
}

#[test]
fn groups_read_to_their_end() {
    let mut grp = GroupBy::new(vec![1, 1, 1, 1, 2, 3, 3, 4], half);
    let mut seen: Vec<(i32, Vec<i32>)> = Vec::new();
    while let Some(g) = grp.next() {
        let k = *g.key().unwrap();
        seen.push((k, g.collect()));
    }
    assert_eq!(
        seen,
        vec![(0, vec![1, 1, 1, 1]), (1, vec![2, 3, 3]), (2, vec![4])]
    );
}

#[test]
fn groups_put_end_to_end_give_the_input() {
    let input = vec![5, 5, 7, 7, 7, 5, 9, 9, 2, 2, 2, 2, 9];
    let mut grp = input.clone().group_by(|x: &i32| *x);
    let mut all: Vec<i32> = Vec::new();
    let mut keys: Vec<i32> = Vec::new();
    while let Some(g) = grp.next() {
        let k = *g.key().unwrap();
        let items = g.collect();
        assert!(!items.is_empty());
        assert!(items.iter().all(|x| *x == k));
        if let Some(last) = keys.last() {
            assert_ne!(*last, k);
        }
        keys.push(k);
        all.extend(items);
    }
    assert_eq!(all, input);
    assert_eq!(keys, vec![5, 7, 5, 9, 2, 9]);
}

#[test]
fn a_key_that_comes_back_opens_a_new_group() {
    let mut grp = vec![1, 2, 1].group_by(|x: &i32| *x);
    assert_eq!(grp.next().map(|g| g.collect()), Some(vec![1]));
    assert_eq!(grp.next().map(|g| g.collect()), Some(vec![2]));
    assert_eq!(grp.next().map(|g| g.collect()), Some(vec![1]));
    assert!(grp.next().is_none());
}

#[test]
fn unread_items_are_dropped() {
    let mut grp = vec![1, 1, 1, 1, 2, 3, 3, 4].group_by(half);
    {
        let g = grp.next().unwrap();
        assert_eq!(g.next(), Some(1));
        assert_eq!(g.next(), Some(1));
    }
    let g = grp.next().unwrap();
    assert_eq!(g.key(), Some(&1));
    assert_eq!(g.peek_key(), Some(1));
    assert_eq!(g.collect(), vec![2, 3, 3]);
}

#[test]
fn a_group_left_unread_is_dropped_whole() {
    let mut grp = vec![1, 1, 1, 1, 2, 3, 3, 4].group_by(half);
    assert_eq!(grp.next().map(|g| *g.key().unwrap()), Some(0));
    assert_eq!(grp.next().map(|g| *g.key().unwrap()), Some(1));
    assert_eq!(grp.next().map(|g| (*g.key().unwrap(), g.collect())), Some((2, vec![4])));
    assert!(grp.next().is_none());
}

#[test]
fn the_end_is_reported_again_and_again() {
    let mut grp = vec![4, 4, 6].group_by(half);
    assert!(grp.next().is_some());
    assert!(grp.next().is_some());
    for _ in 0..5 {
        assert!(grp.next().is_none());
    }
}

#[test]
fn empty_input_ends_at_once() {
    let mut grp = Vec::<i32>::new().group_by(half);
    assert!(grp.by_ref().next().is_none());
    assert!(grp.by_ref().next().is_none());
    let mut direct = GroupBy::new(Vec::<i32>::new(), half);
    assert!(direct.next().is_none());
}

#[test]
fn item_cursor_stops_at_the_boundary() {
    let mut grp = vec![10, 11, 20, 21].group_by(|x: &i32| x / 10);
    let g = grp.next().unwrap();
    assert_eq!(g.key(), Some(&1));
    assert_eq!(g.next(), Some(10));
    assert_eq!(g.next(), Some(11));
    assert_eq!(g.next(), None);
    assert_eq!(g.next(), None);
    assert_eq!(g.peek_key(), Some(2));
    assert_eq!(g.key(), Some(&1));
    let g = grp.next().unwrap();
    assert_eq!(g.key(), Some(&2));
    assert_eq!(g.next(), Some(20));
    assert_eq!(g.next(), Some(21));
    assert_eq!(g.next(), None);
    assert_eq!(g.peek_key(), None);
}

#[test]
fn take_reads_no_more_than_asked_or_left() {
    let mut grp = vec![3, 3, 3, 8].group_by(|x: &i32| *x);
    let g = grp.next().unwrap();
    assert_eq!(g.take(0), Vec::<i32>::new());
    assert_eq!(g.take(2), vec![3, 3]);
    assert_eq!(g.take(2), vec![3]);
    assert_eq!(g.take(2), Vec::<i32>::new());
    assert_eq!(g.collect(), Vec::<i32>::new());
    assert_eq!(g.peek_key(), Some(8));
}

#[test]
fn skip_to_next_key_moves_the_item_cursor_itself() {
    let mut grp = vec![1, 1, 2, 2, 3].group_by(|x: &i32| *x);
    let g = grp.next().unwrap();
    assert_eq!(g.next(), Some(1));
    assert!(g.skip_to_next_key());
    assert_eq!(g.key(), Some(&2));
    assert_eq!(g.collect(), vec![2, 2]);
    assert!(g.skip_to_next_key());
    assert_eq!(g.key(), Some(&3));
    assert!(!g.skip_to_next_key());
    assert_eq!(g.key(), None);
    assert_eq!(g.next(), None);
    assert!(!g.skip_to_next_key());
    assert_eq!(g.key(), None);
}

#[test]
fn keys_need_not_be_integers() {
    let words = vec!["apple", "avocado", "banana", "blueberry", "cherry", "apricot"];
    let mut grp = words.group_by(|w: &&str| w.chars().next());
    assert_eq!(grp.next().map(|g| g.collect()), Some(vec!["apple", "avocado"]));
    assert_eq!(grp.next().map(|g| g.collect()), Some(vec!["banana", "blueberry"]));
    assert_eq!(grp.next().map(|g| g.collect()), Some(vec!["cherry"]));
    assert_eq!(grp.next().map(|g| g.collect()), Some(vec!["apricot"]));
    assert!(grp.next().is_none());
}

#[test]
fn peek_shows_the_same_item_until_advance() {
    let mut c = Lookahead::new(vec![7, 8, 9]);
    assert_eq!(c.peek(), Some(&7));
    assert_eq!(c.peek(), Some(&7));
    assert_eq!(c.peek(), Some(&7));
    assert_eq!(c.advance(), Some(7));
    assert_eq!(c.peek(), Some(&8));
    assert_eq!(c.peek(), Some(&8));
    assert_eq!(c.advance(), Some(8));
    assert_eq!(c.advance(), Some(9));
    assert_eq!(c.peek(), None);
    assert_eq!(c.peek(), None);
    assert_eq!(c.advance(), None);
    assert_eq!(c.advance(), None);
}

#[test]
fn lookahead_over_nothing() {
    let mut c = Lookahead::new(Vec::<u8>::new());
    assert_eq!(c.peek(), None);
    assert_eq!(c.advance(), None);
}
