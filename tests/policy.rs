use srv_rs::record::{order_srv_records, order_srv_records_with, rank_order, sort_key};
use srv_rs::{Affinity, LibResolvSrvRecord, ParsedRecord, Policy, Rfc2782};
use std::collections::HashMap;

fn record(target: &str, port: u16, priority: u16, weight: u16) -> LibResolvSrvRecord {
    LibResolvSrvRecord { target: target.to_string(), port, priority, weight }
}

#[test]
fn affinity_uris_iter_order() {
    let google = String::from("https://google.com");
    let amazon = String::from("https://amazon.com");
    let desco = String::from("https://deshaw.com");
    let cache = vec![google.clone(), amazon.clone(), desco.clone()];
    let order = |preferred: Option<&String>| {
        Affinity::uris_preferring(&cache, preferred)
            .to_vec()
            .into_iter()
            .map(|idx| &cache[idx])
            .collect::<Vec<_>>()
    };
    assert_eq!(order(None), vec![&google, &amazon, &desco]);
    assert_eq!(order(Some(&google)), vec![&google, &amazon, &desco]);
    assert_eq!(order(Some(&amazon)), vec![&amazon, &google, &desco]);
    assert_eq!(order(Some(&desco)), vec![&desco, &google, &amazon]);
}

#[test]
fn balance_uris_iter_order() {
    let mut priorities = HashMap::new();
    priorities.insert(String::from("https://google.com"), 2u16);
    priorities.insert(String::from("https://cloudflare.com"), 2);
    priorities.insert(String::from("https://amazon.com"), 1);
    priorities.insert(String::from("https://deshaw.com"), 1);

    let cache = priorities
        .iter()
        .map(|(uri, &priority)| {
            let rec = record("unused", 0, priority, rand::random::<u8>() as u16);
            ParsedRecord::new(&rec, uri.clone())
        })
        .collect::<Vec<_>>();

    let ordered = |order: Vec<usize>| {
        let mut last: Option<&String> = None;
        for item in order.into_iter().map(|idx| &cache[idx]) {
            if let Some(last) = last {
                assert!(priorities[last] <= priorities[item.uri()]);
            }
            last = Some(item.uri());
        }
    };

    for _ in 0..5 {
        ordered(Rfc2782.order(&cache));
    }
}

#[test]
fn affinity_iterator_steps() {
    let uris = vec![String::from("a"), String::from("b"), String::from("c")];
    let c = String::from("c");
    let mut iter = Affinity::uris_preferring(&uris, Some(&c));
    assert_eq!(iter.next(), Some(2));
    assert_eq!(iter.next(), Some(0));
    assert_eq!(iter.next(), Some(1));
    assert_eq!(iter.next(), None);
    assert_eq!(iter.next(), None);
}

#[test]
fn affinity_absent_or_empty() {
    let uris = vec![String::from("a"), String::from("b")];
    let z = String::from("z");
    assert_eq!(Affinity::uris_preferring(&uris, Some(&z)).to_vec(), vec![0, 1]);
    let none: Vec<String> = vec![];
    assert_eq!(Affinity::uris_preferring(&none, Some(&z)).to_vec(), Vec::<usize>::new());
    assert_eq!(Affinity::uris_preferring(&none, None).to_vec(), Vec::<usize>::new());
}

#[test]
fn affinity_duplicate_address_prefers_first() {
    let uris = vec![String::from("a"), String::from("b"), String::from("b")];
    let b = String::from("b");
    assert_eq!(Affinity::uris_preferring(&uris, Some(&b)).to_vec(), vec![1, 0, 2]);
}

#[test]
fn affinity_remembers_success() {
    let uris = vec![String::from("A"), String::from("B"), String::from("C")];
    let policy = Affinity::default();
    assert_eq!(policy.order(&uris), vec![0, 1, 2]);
    policy.note_success(&uris[1]);
    assert_eq!(policy.order(&uris), vec![1, 0, 2]);
    policy.note_success(&uris[1]);
    assert_eq!(policy.order(&uris), vec![1, 0, 2]);
    policy.note_failure(&uris[1]);
    assert_eq!(policy.order(&uris), vec![1, 0, 2]);
    policy.note_success(&uris[2]);
    assert_eq!(policy.order(&uris), vec![2, 0, 1]);
    let other = vec![String::from("A"), String::from("D")];
    assert_eq!(policy.order(&other), vec![0, 1]);
}

#[test]
fn sort_key_scales_weight() {
    assert_eq!(sort_key(3, 10, 7), (3, 70));
    assert_eq!(sort_key(0, 65535, 65535), (0, 4294836225));
    assert_eq!(sort_key(1, 0, 500), (1, 0));
}

#[test]
fn rank_order_exact() {
    let keys = [(2u16, 5u32), (1, 5), (1, 9), (2, 5), (0, 0)];
    assert_eq!(rank_order(&keys), vec![4, 2, 1, 0, 3]);
    assert_eq!(rank_order(&[]), Vec::<usize>::new());
}

#[test]
fn rfc2782_order_with_draws() {
    let recs = [
        ParsedRecord::new(&record("a", 1, 2, 10), String::from("a")),
        ParsedRecord::new(&record("b", 1, 1, 10), String::from("b")),
        ParsedRecord::new(&record("c", 1, 1, 20), String::from("c")),
        ParsedRecord::new(&record("d", 1, 1, 5), String::from("d")),
    ];
    assert_eq!(Rfc2782::order_with(&recs, &[9, 3, 1, 100]), vec![3, 1, 2, 0]);
    assert_eq!(Rfc2782::order_with(&recs, &[9, 3, 2, 0]), vec![2, 1, 3, 0]);
}

#[test]
fn rfc2782_weight_trends_with_frequency() {
    let recs = [
        ParsedRecord::new(&record("heavy", 1, 1, 1000), String::from("heavy")),
        ParsedRecord::new(&record("light", 1, 1, 1), String::from("light")),
    ];
    let mut heavy_first = 0;
    for _ in 0..200 {
        if Rfc2782.order(&recs)[0] == 0 {
            heavy_first += 1;
        }
    }
    assert!(heavy_first > 150);
}

#[test]
fn srv_records_ordered_with_draws() {
    let mut records = vec![
        record("primary.multi.local.", 8080, 10, 100),
        record("secondary.multi.local.", 8081, 20, 50),
        record("backup.multi.local.", 8082, 10, 25),
    ];
    order_srv_records_with(&mut records, &[1, 7, 8]);
    let targets: Vec<&str> = records.iter().map(|r| r.target.as_str()).collect();
    assert_eq!(
        targets,
        vec!["backup.multi.local.", "primary.multi.local.", "secondary.multi.local."]
    );
}

#[test]
fn srv_records_ordered_by_priority() {
    for _ in 0..10 {
        let mut records = vec![
            record("a", 1, 30, 5),
            record("b", 2, 10, 100),
            record("c", 3, 20, 0),
            record("d", 4, 10, 7),
        ];
        order_srv_records(&mut records);
        let priorities: Vec<u16> = records.iter().map(|r| r.priority).collect();
        assert_eq!(priorities, vec![10, 10, 20, 30]);
    }
}

#[test]
fn affinity_matches_address_ignoring_host_case() {
    let uris = vec![
        String::from("https://a.example.com:443/"),
        String::from("https://b.example.com:443/"),
    ];
    let remembered = String::from("HTTPS://B.Example.COM:443/");
    assert_eq!(Affinity::uris_preferring(&uris, Some(&remembered)).to_vec(), vec![1, 0]);
    let other_path = String::from("https://b.example.com:443/x");
    assert_eq!(Affinity::uris_preferring(&uris, Some(&other_path)).to_vec(), vec![0, 1]);
}

#[test]
fn heavier_record_never_moves_later() {
    let make = |weights: [u16; 3]| {
        vec![
            ParsedRecord::new(&record("a", 1, 1, weights[0]), String::from("a")),
            ParsedRecord::new(&record("b", 1, 1, weights[1]), String::from("b")),
            ParsedRecord::new(&record("c", 1, 1, weights[2]), String::from("c")),
        ]
    };
    let draws = [10, 10, 10];
    let position = |order: Vec<usize>| order.iter().position(|&i| i == 2).unwrap();
    let before = position(Rfc2782::order_with(&make([30, 20, 10]), &draws));
    let after = position(Rfc2782::order_with(&make([30, 20, 25]), &draws));
    assert_eq!(before, 2);
    assert_eq!(after, 1);
}
