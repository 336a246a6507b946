use cthulhu::network::{add_unique, unique_peers, with_fallback};

fn strings(v: &[&str]) -> Vec<String> {
    v.iter().map(|s| s.to_string()).collect()
}

#[test]
fn add_unique_skips_listed_addresses() {
    let mut c = strings(&["a:1", "b:2"]);
    add_unique(&mut c, &strings(&["b:2", "c:3", "c:3", "a:1", "d:4"]));
    assert_eq!(c, strings(&["a:1", "b:2", "c:3", "d:4"]));
}

#[test]
fn unique_peers_across_seeds() {
    let seeds = vec![strings(&["1.1.1.1:18333", "2.2.2.2:18333"]), vec![], strings(&["2.2.2.2:18333", "3.3.3.3:18333"])];
    assert_eq!(unique_peers(&seeds), strings(&["1.1.1.1:18333", "2.2.2.2:18333", "3.3.3.3:18333"]));
    assert!(unique_peers(&vec![]).is_empty());
}

#[test]
fn fallback_only_when_nothing_found() {
    assert_eq!(with_fallback(strings(&["9.9.9.9:18333"])), strings(&["9.9.9.9:18333"]));
    assert_eq!(with_fallback(vec![]), strings(&["185.210.125.33:18333", "77.163.221.171:18333"]));
}
