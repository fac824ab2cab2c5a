use sabi::deterministic::{generate_deterministic_seed, DeterministicEnv, EnvTable};
use sabi::reactive::{query_id, DependencyGraph, StrSet};
use sabi::tx::TxId;

fn keys(ks: &[&str]) -> Vec<String> {
    ks.iter().map(|k| k.to_string()).collect()
}

fn sorted(mut v: Vec<String>) -> Vec<String> {
    v.sort();
    v
}

#[test]
fn recorded_queries_are_affected_by_their_keys() {
    let mut g = DependencyGraph::new();
    g.record_dependencies("q1", &keys(&["a", "b", "a"]));
    g.record_dependencies("q2", &keys(&["b", "c"]));
    let (qs, notes) = g.affected(&keys(&["b"]));
    assert_eq!(sorted(qs), keys(&["q1", "q2"]));
    assert!(notes.is_empty());
    let (qs, _) = g.affected(&keys(&["a", "a"]));
    assert_eq!(qs, keys(&["q1"]));
    let (qs, _) = g.affected(&keys(&["z"]));
    assert!(qs.is_empty());
}

#[test]
fn subscribers_hear_of_watched_keys() {
    let mut g = DependencyGraph::new();
    g.record_dependencies("q1", &keys(&["a", "b"]));
    // "x" has no node: it is passed over
    g.subscribe_to_query(7, &keys(&["a", "b", "x"]));
    g.subscribe_to_query(8, &keys(&["b"]));
    let (_, notes) = g.affected(&keys(&["a", "b", "x"]));
    let mut notes: Vec<(u128, Vec<String>)> = notes.into_iter().map(|(s, ks)| (s, sorted(ks))).collect();
    notes.sort();
    assert_eq!(notes, vec![(7, keys(&["a", "b"])), (8, keys(&["b"]))]);
    g.unsubscribe(7);
    let (_, notes) = g.affected(&keys(&["a", "b"]));
    assert_eq!(notes, vec![(8, keys(&["b"]))]);
}

#[test]
fn query_cache_versions_count_up() {
    let mut g = DependencyGraph::new();
    g.record_dependencies("q", &keys(&["a"]));
    g.update_query_cache(&keys(&["a", "missing"]));
    g.update_query_cache(&keys(&["a"]));
    let (qs, _) = g.affected(&keys(&["a"]));
    assert_eq!(qs, keys(&["q"]));
}

#[test]
fn query_ids_hash_name_and_arguments() {
    let id = query_id("getUser", &keys(&["\"alice\""]));
    assert!(id.starts_with("getUser:"));
    assert_eq!(id.len(), "getUser:".len() + 64);
    assert!(id["getUser:".len()..].chars().all(|c| c.is_ascii_hexdigit() && !c.is_ascii_uppercase()));
    assert_eq!(id, query_id("getUser", &keys(&["\"alice\""])));
    assert_ne!(id, query_id("getUser", &keys(&["\"bob\""])));
    // SHA-256 of "abc"
    assert_eq!(
        query_id("abc", &[]),
        "abc:ba7816bf8f01cfea414140de5dae2223b00361a396177a9cb410ff61f20015ad"
    );
    // the name and the arguments are hashed as one byte string
    assert_eq!(query_id("ab", &keys(&["c"])), "ab:ba7816bf8f01cfea414140de5dae2223b00361a396177a9cb410ff61f20015ad");
}

#[test]
fn string_sets_hold_each_member_once() {
    let mut s = StrSet::new();
    s.insert("a");
    s.insert("b");
    s.insert("a");
    assert!(s.contains("a"));
    assert!(!s.contains("c"));
    assert_eq!(s.members().len(), 2);
}

#[test]
fn seeds_and_random_steps() {
    let tx = TxId([1, 2, 3, 4, 5, 6, 7, 8, 9, 9, 9, 9, 9, 9, 9, 9]);
    assert_eq!(generate_deterministic_seed(&tx), 0x0807060504030201);
    let mut env = DeterministicEnv::for_transaction(tx, true);
    assert_eq!(env.now(), 0);
    assert!(env.context.is_read_only);
    let mut x: u64 = 0x0807060504030201;
    x ^= x << 13;
    x ^= x >> 7;
    x ^= x << 17;
    assert_eq!(env.next_random(), x);
    assert_eq!(env.random_seed, x);
    let mut table = EnvTable::new();
    let a = table.create_env(tx, false);
    let b = table.create_env(tx, true);
    // the second call hands back the environment the first one made
    assert!(!b.context.is_read_only);
    assert_eq!(a.random_seed, b.random_seed);
}
