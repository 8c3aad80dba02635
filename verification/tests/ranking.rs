use memcontext::rank::{rank_descending, select_top};
use memcontext::{Message, Role, Timestamp};

fn msg(content: &str) -> Message {
    Message::with_timestamp("s".to_string(), Role::User, content.to_string(), Timestamp { secs: 0, nanos: 0 })
}

#[test]
fn rank_is_a_stable_descending_sort() {
    assert_eq!(rank_descending(&vec![1, 3, 2, 3, 1]), vec![1, 3, 2, 0, 4]);
    assert_eq!(rank_descending(&vec![]), Vec::<usize>::new());
    assert_eq!(rank_descending(&vec![5, 5, 5]), vec![0, 1, 2]);
    assert_eq!(rank_descending(&vec![0, 1, 2, 3]), vec![3, 2, 1, 0]);
    assert_eq!(rank_descending(&vec![u64::MAX, 0, u64::MAX]), vec![0, 2, 1]);
}

#[test]
fn select_top_takes_the_best() {
    let items = vec![msg("a"), msg("b"), msg("c"), msg("d")];
    let keys = vec![2, 7, 2, 9];
    let top: Vec<String> = select_top(&items, &keys, 3).into_iter().map(|m| m.content).collect();
    assert_eq!(top, vec!["d", "b", "a"]);
    assert_eq!(select_top(&items, &keys, 0).len(), 0);
    assert_eq!(select_top(&items, &keys, 10).len(), 4);
}
