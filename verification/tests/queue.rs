use peerwire::queue::PiecesQueue;
use std::collections::HashSet;
use std::sync::{Arc, Mutex};

#[test]
fn new_queue_holds_the_range_in_order() {
    let mut queue = PiecesQueue::new(0..4);
    assert_eq!(queue.len(), 4);
    assert!(!queue.is_empty());
    assert_eq!(queue.take_piece(), Some(0));
    assert_eq!(queue.take_piece(), Some(1));
    assert_eq!(queue.take_piece(), Some(2));
    assert_eq!(queue.take_piece(), Some(3));
    assert_eq!(queue.take_piece(), None);
    assert_eq!(queue.take_piece(), None);
    assert!(queue.is_empty());
}

#[test]
fn empty_and_reversed_ranges_give_an_empty_queue() {
    assert!(PiecesQueue::new(0..0).is_empty());
    assert!(PiecesQueue::new(5..5).is_empty());
    let mut queue = PiecesQueue::new(5..2);
    assert_eq!(queue.len(), 0);
    assert_eq!(queue.take_piece(), None);
}

#[test]
fn range_need_not_start_at_zero() {
    let mut queue = PiecesQueue::new(7..9);
    assert_eq!(queue.take_piece(), Some(7));
    assert_eq!(queue.take_piece(), Some(8));
    assert_eq!(queue.take_piece(), None);
}

#[test]
fn returned_piece_waits_behind_all_others() {
    let mut queue = PiecesQueue::new(0..3);
    assert_eq!(queue.take_piece(), Some(0));
    queue.push_piece(0);
    assert_eq!(queue.len(), 3);
    assert_eq!(queue.take_piece(), Some(1));
    assert_eq!(queue.take_piece(), Some(2));
    assert_eq!(queue.take_piece(), Some(0));
    assert_eq!(queue.take_piece(), None);
}

#[test]
fn piece_returned_to_an_empty_queue_comes_next() {
    let mut queue = PiecesQueue::new(0..1);
    assert_eq!(queue.take_piece(), Some(0));
    assert_eq!(queue.take_piece(), None);
    queue.push_piece(0);
    assert_eq!(queue.take_piece(), Some(0));
}

#[test]
fn many_workers_take_each_index_exactly_once() {
    // eight workers share the queue behind a lock and take turns in an
    // irregular order
    let count = 2000;
    let queue = Arc::new(Mutex::new(PiecesQueue::new(0..count)));
    let workers: Vec<Arc<Mutex<PiecesQueue>>> = (0..8).map(|_| Arc::clone(&queue)).collect();
    let mut taken: Vec<Vec<usize>> = vec![Vec::new(); 8];
    let mut turn: usize = 12345;
    let mut idle = 0;
    while idle < 64 {
        turn = turn.wrapping_mul(1103515245).wrapping_add(12345) % 2147483648;
        let who = (turn >> 16) % 8;
        match workers[who].lock().unwrap().take_piece() {
            Some(piece) => taken[who].push(piece),
            None => idle += 1,
        }
    }
    let mut seen = HashSet::new();
    let mut total = 0;
    for mine in &taken {
        for piece in mine {
            assert!(*piece < count);
            assert!(seen.insert(*piece), "piece {piece} was handed out twice");
            total += 1;
        }
    }
    assert_eq!(total, count);
    assert_eq!(seen.len(), count);
    assert!(queue.lock().unwrap().is_empty());
}

#[test]
fn index_repeats_only_after_it_was_returned() {
    let mut queue = PiecesQueue::new(0..3);
    let mut held: HashSet<usize> = HashSet::new();
    // take, take, return the first, take the rest
    let a = queue.take_piece().unwrap();
    assert!(held.insert(a));
    let b = queue.take_piece().unwrap();
    assert!(held.insert(b));
    assert!(held.remove(&a));
    queue.push_piece(a);
    let c = queue.take_piece().unwrap();
    assert!(held.insert(c), "an index was handed out while held");
    let d = queue.take_piece().unwrap();
    assert_eq!(d, a);
    assert!(held.insert(d));
    assert_eq!(queue.take_piece(), None);
    assert_eq!(held.len(), 3);
}

#[test]
fn all_below_looks_at_every_pending_index() {
    let mut queue = PiecesQueue::new(0..5);
    assert!(queue.all_below(5));
    assert!(queue.all_below(usize::MAX));
    assert!(!queue.all_below(4));
    assert!(!queue.all_below(0));
    queue.push_piece(9);
    assert!(!queue.all_below(5));
    assert!(queue.all_below(10));
    assert!(PiecesQueue::new(0..0).all_below(0));
}
