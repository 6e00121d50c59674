use std::cmp::Reverse;

use fpq::PriorityQueue;

#[test]
fn test_priority_queue() {
    let score_fn = Box::new(|s: &String| s.len());
    let mut queue = PriorityQueue::new(score_fn);

    assert!(queue.peek().is_none());

    queue.push("a".to_string()); // score = 1
    queue.push("ccc".to_string()); // score = 3
    queue.push("bb".to_string()); // score = 2
    queue.push_with_score("b".to_string(), 10); // score = 10

    assert_eq!(queue.peek(), Some((10, &"b".to_string())));
    assert_eq!(queue.pop(), Some((10, "b".to_string())));
    assert_eq!(queue.pop(), Some((3, "ccc".to_string())));
    assert_eq!(queue.pop(), Some((2, "bb".to_string())));
    assert_eq!(queue.pop(), Some((1, "a".to_string())));
    assert!(queue.peek().is_none());
}

#[test]
fn test_priority_queue_reverse_order() {
    let score_fn = Box::new(|s: &String| Reverse(s.len()));
    let mut queue = PriorityQueue::new(score_fn);

    queue.push("a".to_string()); // score = -1
    queue.push("ccc".to_string()); // score = -3
    queue.push("bb".to_string()); // score = -2
    queue.push_with_score("b".to_string(), Reverse(10)); // score = -10

    assert_eq!(queue.peek(), Some((Reverse(1), &"a".to_string())));
    assert_eq!(queue.pop(), Some((Reverse(1), "a".to_string())));
    assert_eq!(queue.pop(), Some((Reverse(2), "bb".to_string())));
    assert_eq!(queue.pop(), Some((Reverse(3), "ccc".to_string())));
    assert_eq!(queue.pop(), Some((Reverse(10), "b".to_string())));
    assert!(queue.peek().is_none());
}

#[test]
fn test_into_vec() {
    let score_fn = Box::new(|s: &String| s.len());
    let mut queue = PriorityQueue::new(score_fn);

    queue.push("a".to_string()); // score = 1
    queue.push("ccc".to_string()); // score = 3
    queue.push("bb".to_string()); // score = 2
    queue.push_with_score("b".to_string(), 10); // score = 10

    let mut vec = queue.into_vec();
    vec.sort_by_key(|x| x.0);
    assert_eq!(
        vec,
        vec![
            (1, "a".to_string()),
            (2, "bb".to_string()),
            (3, "ccc".to_string()),
            (10, "b".to_string()),
        ]
    );
}

#[test]
fn test_pop_on_empty() {
    let score_fn = |s: &String| s.len();
    let mut queue = PriorityQueue::new(score_fn);
    assert_eq!(queue.pop(), None);
    assert_eq!(queue.peek(), None);
}

#[test]
fn test_into_vec_on_empty() {
    let score_fn = |n: &u32| *n;
    let queue = PriorityQueue::new(score_fn);
    assert_eq!(queue.into_vec(), Vec::new());
}

#[test]
fn test_push_scores_with_the_function() {
    let score_fn = |s: &String| s.len();
    let mut queue = PriorityQueue::new(score_fn);
    queue.push("abcd".to_string());
    assert_eq!(queue.peek(), Some((4, &"abcd".to_string())));
    assert_eq!(queue.pop(), Some((4, "abcd".to_string())));
    assert_eq!(queue.pop(), None);
}

#[test]
fn test_equal_scores_keep_all_items() {
    let score_fn = |_: &&str| 1u32;
    let mut queue = PriorityQueue::new(score_fn);
    queue.push("x");
    queue.push("y");
    queue.push("z");

    let mut popped = Vec::new();
    while let Some((score, item)) = queue.pop() {
        assert_eq!(score, 1);
        popped.push(item);
    }
    popped.sort();
    assert_eq!(popped, vec!["x", "y", "z"]);
}

#[test]
fn test_interleaved_push_and_pop() {
    let score_fn = |n: &i64| *n;
    let mut queue = PriorityQueue::new(score_fn);
    queue.push(5);
    queue.push(-3);
    assert_eq!(queue.pop(), Some((5, 5)));
    queue.push(7);
    queue.push_with_score(0, 9);
    assert_eq!(queue.pop(), Some((9, 0)));
    assert_eq!(queue.pop(), Some((7, 7)));
    assert_eq!(queue.pop(), Some((-3, -3)));
    assert_eq!(queue.pop(), None);
}

#[test]
fn test_explicit_score_wins_over_function() {
    let score_fn = |s: &String| s.len();
    let mut queue = PriorityQueue::new(score_fn);
    queue.push_with_score("long enough".to_string(), 1);
    assert_eq!(queue.pop(), Some((1, "long enough".to_string())));
}
