use ln_manager::{Awaiting, ForkStep, ForkWalk, Header, WalkError};
use std::collections::HashMap;

fn header(hash: &str, height: u32, previous_hash: &str) -> Header {
    Header { hash: hash.to_string(), height, previous_hash: previous_hash.to_string() }
}

fn copy(h: &Header) -> Header {
    header(&h.hash, h.height, &h.previous_hash)
}

/// A linear chain `prefix1 .. prefixN` on top of `base` at height `base_height`.
fn extend(
    oracle: &mut HashMap<String, Header>,
    base: &str,
    base_height: u32,
    prefix: &str,
    n: u32,
) -> String {
    let mut prev = base.to_string();
    for i in 1..=n {
        let hash = format!("{}{}", prefix, base_height + i);
        oracle.insert(hash.clone(), header(&hash, base_height + i, &prev));
        prev = hash;
    }
    prev
}

/// Runs a walk against the headers of `oracle`, counting the requests.
fn run(oracle: &HashMap<String, Header>, new_tip: &str, old_tip: &str) -> (Vec<ForkStep>, usize) {
    let mut walk = ForkWalk::find_fork(new_tip.to_string(), old_tip.to_string());
    let mut requests: usize = 0;
    while !walk.is_done() {
        let wanted = walk.request();
        requests += wanted.len();
        let first = wanted.get(0).and_then(|h| oracle.get(h)).map(copy);
        let second = wanted.get(1).and_then(|h| oracle.get(h)).map(copy);
        walk.supply(first, second).unwrap();
    }
    (walk.into_steps(), requests)
}

fn describe(steps: &[ForkStep]) -> Vec<(char, String, u32)> {
    steps
        .iter()
        .map(|s| match s {
            ForkStep::DisconnectBlock(h) => ('D', h.hash.clone(), h.height),
            ForkStep::ConnectBlock(hash, height) => ('C', hash.clone(), *height),
        })
        .collect()
}

fn base_chain() -> HashMap<String, Header> {
    let mut oracle = HashMap::new();
    oracle.insert("g".to_string(), header("g", 0, ""));
    extend(&mut oracle, "g", 0, "a", 100);
    oracle
}

#[test]
fn same_hash_walk_is_empty() {
    let walk = ForkWalk::find_fork("a5".to_string(), "a5".to_string());
    assert!(walk.is_done());
    assert!(walk.steps().is_empty());
    assert!(walk.request().is_empty());
}

#[test]
fn single_new_block_fast_path() {
    let mut oracle = base_chain();
    let tip = extend(&mut oracle, "a100", 100, "n", 1);
    let (steps, requests) = run(&oracle, &tip, "a100");
    assert_eq!(describe(&steps), vec![('C', "n101".to_string(), 101)]);
    assert_eq!(requests, 1);
}

#[test]
fn symmetric_reorg_of_depth_two() {
    let mut oracle = base_chain();
    let old_tip = extend(&mut oracle, "a100", 100, "o", 2);
    let new_tip = extend(&mut oracle, "a100", 100, "n", 2);
    let (steps, _) = run(&oracle, &new_tip, &old_tip);
    assert_eq!(
        describe(&steps),
        vec![
            ('C', "n102".to_string(), 102),
            ('D', "o102".to_string(), 102),
            ('C', "n101".to_string(), 101),
            ('D', "o101".to_string(), 101),
            ('C', "a100".to_string(), 100),
        ]
    );
}

#[test]
fn symmetric_reorg_counts_and_orders() {
    for n in 1..6u32 {
        let mut oracle = base_chain();
        let old_tip = extend(&mut oracle, "a100", 100, "o", n);
        let new_tip = extend(&mut oracle, "a100", 100, "n", n);
        let (steps, _) = run(&oracle, &new_tip, &old_tip);
        let d: Vec<u32> = describe(&steps).iter().filter(|s| s.0 == 'D').map(|s| s.2).collect();
        let c: Vec<u32> = describe(&steps).iter().filter(|s| s.0 == 'C').map(|s| s.2).collect();
        assert_eq!(d, (101..=100 + n).rev().collect::<Vec<u32>>());
        assert_eq!(c, (100..=100 + n).rev().collect::<Vec<u32>>());
    }
}

#[test]
fn longer_old_chain_is_walked_back_first() {
    let mut oracle = base_chain();
    let old_tip = extend(&mut oracle, "a100", 100, "o", 3);
    let new_tip = extend(&mut oracle, "a100", 100, "n", 1);
    let (steps, _) = run(&oracle, &new_tip, &old_tip);
    assert_eq!(
        describe(&steps),
        vec![
            ('C', "n101".to_string(), 101),
            ('D', "o103".to_string(), 103),
            ('D', "o102".to_string(), 102),
            ('D', "o101".to_string(), 101),
            ('C', "a100".to_string(), 100),
        ]
    );
}

#[test]
fn new_chain_ahead_of_old_tip() {
    let mut oracle = base_chain();
    let new_tip = extend(&mut oracle, "a100", 100, "n", 3);
    let (steps, _) = run(&oracle, &new_tip, "a100");
    assert_eq!(
        describe(&steps),
        vec![
            ('C', "n103".to_string(), 103),
            ('C', "n102".to_string(), 102),
            ('C', "n101".to_string(), 101),
        ]
    );
}

#[test]
fn unknown_old_tip_walks_to_height_one() {
    let mut oracle = HashMap::new();
    oracle.insert("g".to_string(), header("g", 0, ""));
    let tip = extend(&mut oracle, "g", 0, "a", 3);
    let (steps, requests) = run(&oracle, &tip, "gone");
    assert_eq!(
        describe(&steps),
        vec![('C', "a3".to_string(), 3), ('C', "a2".to_string(), 2), ('C', "a1".to_string(), 1)]
    );
    assert_eq!(requests, 4);
    assert!(steps.iter().all(|s| match s {
        ForkStep::ConnectBlock(_, h) => *h >= 1,
        ForkStep::DisconnectBlock(h) => h.height >= 1,
    }));
}

#[test]
fn empty_old_tip_connects_only_the_tip() {
    let oracle = base_chain();
    let (steps, requests) = run(&oracle, "a100", "");
    assert_eq!(describe(&steps), vec![('C', "a100".to_string(), 100)]);
    assert_eq!(requests, 1);
}

#[test]
fn height_one_tip_stops_the_walk() {
    let mut oracle = HashMap::new();
    oracle.insert("g".to_string(), header("g", 0, ""));
    extend(&mut oracle, "g", 0, "a", 1);
    extend(&mut oracle, "g", 0, "b", 1);
    let (steps, _) = run(&oracle, "b1", "a1");
    assert_eq!(describe(&steps), vec![('C', "b1".to_string(), 1)]);
}

#[test]
fn walk_asks_for_tip_then_target() {
    let mut walk = ForkWalk::find_fork("n2".to_string(), "o2".to_string());
    assert_eq!(walk.awaiting(), Awaiting::Tip);
    assert_eq!(walk.request(), vec!["n2".to_string()]);
    walk.supply(Some(header("n2", 2, "n1")), None).unwrap();
    assert_eq!(walk.awaiting(), Awaiting::Target);
    assert_eq!(walk.request(), vec!["o2".to_string()]);
    walk.supply(Some(header("o2", 2, "o1")), None).unwrap();
    assert_eq!(walk.awaiting(), Awaiting::BothParents);
    assert_eq!(walk.request(), vec!["n1".to_string(), "o1".to_string()]);
}

#[test]
fn refused_headers_leave_the_walk_unchanged() {
    let mut walk = ForkWalk::find_fork("n2".to_string(), "o2".to_string());
    assert_eq!(walk.supply(None, None), Err(WalkError::MissingHeader));
    assert_eq!(walk.supply(Some(header("x", 2, "n1")), None), Err(WalkError::UnexpectedHeader));
    assert_eq!(walk.supply(Some(header("n2", 0, "n1")), None), Err(WalkError::UnexpectedHeader));
    assert_eq!(walk.awaiting(), Awaiting::Tip);
    assert!(walk.steps().is_empty());
    walk.supply(Some(header("n3", 3, "n2")), None).unwrap_err();
    walk.supply(Some(header("n2", 2, "n1")), None).unwrap();
    walk.supply(Some(header("o2", 2, "o1")), None).unwrap();
    // A parent must sit one block lower than its child.
    assert_eq!(
        walk.supply(Some(header("n1", 5, "g")), Some(header("o1", 1, "g"))),
        Err(WalkError::UnexpectedHeader)
    );
    assert_eq!(walk.supply(Some(header("n1", 1, "g")), None), Err(WalkError::MissingHeader));
    walk.supply(Some(header("n1", 1, "g")), Some(header("o1", 1, "g"))).unwrap();
    assert!(walk.is_done());
    assert_eq!(walk.supply(None, None), Err(WalkError::NotAwaiting));
    assert_eq!(
        describe(walk.steps()),
        vec![
            ('C', "n2".to_string(), 2),
            ('D', "o2".to_string(), 2),
            ('C', "n1".to_string(), 1),
        ]
    );
}
