use std::cmp::Ordering;

use fpq::ScoredItem;

#[test]
fn test_scored_item() {
    let x1 = ScoredItem {
        score: 1,
        item: "z",
    };
    let x2 = ScoredItem {
        score: 2,
        item: "a",
    };

    assert!(x1 < x2);
}

#[test]
fn test_scored_item_compares_by_score_alone() {
    let x1 = ScoredItem {
        score: 3,
        item: "z",
    };
    let x2 = ScoredItem {
        score: 3,
        item: "a",
    };

    assert!(x1 == x2);
    assert!(x1 <= x2);
    assert!(x2 >= x1);
}

#[test]
fn test_scored_item_cmp_ranks_scores() {
    let x1 = ScoredItem {
        score: 1,
        item: "z",
    };
    let x2 = ScoredItem {
        score: 2,
        item: "a",
    };

    assert_eq!(x1.cmp(&x2), Ordering::Less);
    assert_eq!(x2.cmp(&x1), Ordering::Greater);
}

#[test]
fn test_scored_item_from_pair() {
    let x = ScoredItem::from((7, "seven"));
    assert_eq!(x.score, 7);
    assert_eq!(x.item, "seven");
}
