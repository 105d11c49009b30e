use wayfinder::frontier::{Frontier, PathNode};
use wayfinder::pubkey::Pubkey;
use wayfinder::route_table::RouteTable;
use wayfinder::token_set::TokenSet;

fn key(n: u8) -> Pubkey {
    Pubkey::new_from_array([n; 32])
}

fn node(token: u8, amount_out: u64, hops: u8) -> PathNode {
    PathNode { token: key(token), amount_out, hops, path: vec![key(token); hops as usize] }
}

#[test]
fn frontier_hands_out_the_largest_amount_first() {
    let mut frontier = Frontier::new();
    assert!(frontier.is_empty());
    assert!(frontier.pop().is_none());
    frontier.push(node(1, 10, 1));
    frontier.push(node(2, 30, 2));
    frontier.push(node(3, 20, 1));
    assert_eq!(frontier.len(), 3);
    let order: Vec<u8> = std::iter::from_fn(|| frontier.pop()).map(|n| n.token.to_bytes()[0]).collect();
    assert_eq!(order, vec![2, 3, 1]);
    assert!(frontier.is_empty());
}

#[test]
fn frontier_breaks_ties_by_hops_and_then_by_arrival() {
    let mut frontier = Frontier::new();
    frontier.push(node(1, 10, 3));
    frontier.push(node(2, 10, 1));
    frontier.push(node(3, 10, 2));
    frontier.push(node(4, 10, 1));
    frontier.push(node(5, 10, 3));
    let order: Vec<u8> = std::iter::from_fn(|| frontier.pop()).map(|n| n.token.to_bytes()[0]).collect();
    assert_eq!(order, vec![2, 4, 3, 1, 5]);
}

#[test]
fn frontier_keeps_the_nodes_whole() {
    let mut frontier = Frontier::new();
    frontier.push(PathNode { token: key(7), amount_out: 5, hops: 2, path: vec![key(1), key(2)] });
    frontier.push(PathNode { token: key(8), amount_out: 9, hops: 1, path: vec![key(3)] });
    let first = frontier.pop().unwrap();
    assert_eq!(first.token, key(8));
    assert_eq!(first.amount_out, 9);
    assert_eq!(first.hops, 1);
    assert_eq!(first.path, vec![key(3)]);
    assert!(first.precedes(&node(1, 8, 0)));
    assert!(!first.precedes(&node(1, 9, 1)));
    assert!(first.precedes(&node(1, 9, 2)));
    assert!(!first.precedes(&node(1, 10, 9)));
    let second = frontier.pop().unwrap();
    assert_eq!(second.path, vec![key(1), key(2)]);
    assert_eq!(frontier.len(), 0);
}

#[test]
fn token_set_holds_each_address_once() {
    let mut set = TokenSet::new();
    assert_eq!(set.len(), 0);
    assert!(!set.contains(&key(1)));
    assert!(set.insert(key(1)));
    assert!(set.insert(key(2)));
    assert!(!set.insert(key(1)));
    assert_eq!(set.len(), 2);
    assert!(set.contains(&key(1)));
    assert!(set.contains(&key(2)));
    assert!(!set.contains(&key(3)));
}

#[test]
fn route_table_replaces_what_it_knew() {
    let mut table = RouteTable::new();
    assert_eq!(table.get(&key(1)), None);
    table.insert(key(1), 100, 1);
    table.insert(key(2), 200, 2);
    assert_eq!(table.get(&key(1)), Some((100, 1)));
    assert_eq!(table.get(&key(2)), Some((200, 2)));
    table.insert(key(1), 150, 3);
    assert_eq!(table.get(&key(1)), Some((150, 3)));
    assert_eq!(table.get(&key(2)), Some((200, 2)));
    assert_eq!(table.get(&key(3)), None);
}
