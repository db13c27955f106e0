use fedora_export::order::{insert_sorted, reversed, sort};

fn strings(items: &[&str]) -> Vec<String> {
    items.iter().map(|item| item.to_string()).collect()
}

#[test]
fn sort_is_alphanumeric() {
    assert_eq!(sort(strings(&["shot-2", "shot-1", "shot-11"])), strings(&["shot-1", "shot-2", "shot-11"]));
    assert_eq!(sort(strings(&["item:10", "item:2"])), strings(&["item:2", "item:10"]));
    assert_eq!(sort(strings(&[])), strings(&[]));
}

#[test]
fn sort_keeps_every_item() {
    assert_eq!(sort(strings(&["b", "a", "b", "a"])), strings(&["a", "a", "b", "b"]));
}

#[test]
fn insert_into_sorted() {
    let mut items = strings(&["a1", "a2", "a10"]);
    insert_sorted(&mut items, "a3".to_string());
    insert_sorted(&mut items, "a0".to_string());
    insert_sorted(&mut items, "a11".to_string());
    assert_eq!(items, strings(&["a0", "a1", "a2", "a3", "a10", "a11"]));
}

#[test]
fn reversed_turns_the_order_round() {
    assert_eq!(reversed(vec![1, 2, 3]), vec![3, 2, 1]);
    assert_eq!(reversed(Vec::<u8>::new()), Vec::<u8>::new());
}
