use kallax::address::{dedup_addresses, filter_exposed, is_loopback_address};

fn strings(v: &[&str]) -> Vec<String> {
    v.iter().map(|s| s.to_string()).collect()
}

#[test]
fn loopback_forms_are_recognised() {
    for a in [
        "/ip4/127.0.0.1/tcp/30333",
        "/ip4/127.1.2.3/tcp/30333/p2p/12D3KooW",
        "/ip6/::1/tcp/30333",
        "/ip6/::1",
        "/dns/localhost/tcp/30333",
        "/dns4/localhost/tcp/30333",
        "/dns6/localhost",
        "127.0.0.1:30333",
        "::1",
        "[::1]:30333",
        "localhost:30333",
        "localhost",
    ] {
        assert!(is_loopback_address(&a.to_string()), "{a}");
    }
}

#[test]
fn non_loopback_forms_are_kept_apart() {
    for a in [
        "/ip4/10.0.0.1/tcp/30333",
        "/ip4/128.0.0.1/tcp/30333",
        "/ip6/::12/tcp/30333",
        "/dns/localhost.example.com/tcp/30333",
        "/dns/example.com/tcp/30333",
        "10.1.2.3:30333",
        "[::12]:30333",
        "localhostx:30333",
        "",
        "p1",
    ] {
        assert!(!is_loopback_address(&a.to_string()), "{a}");
    }
}

#[test]
fn loopback_addresses_are_dropped_unless_allowed() {
    let raw = strings(&[
        "/ip4/127.0.0.1/tcp/30333",
        "/ip4/10.0.0.1/tcp/30333",
        "localhost:9944",
        "/ip4/10.0.0.2/tcp/30333",
        "/ip6/::1/tcp/30333",
    ]);
    assert_eq!(
        filter_exposed(&raw, false),
        strings(&["/ip4/10.0.0.1/tcp/30333", "/ip4/10.0.0.2/tcp/30333"])
    );
    assert_eq!(filter_exposed(&raw, true), raw);
}

#[test]
fn only_loopback_gives_an_empty_list() {
    let raw = strings(&["/ip4/127.0.0.1/tcp/30333", "[::1]:30333"]);
    assert!(filter_exposed(&raw, false).is_empty());
    assert!(filter_exposed(&Vec::new(), false).is_empty());
}

#[test]
fn repeated_addresses_are_collapsed_in_first_order() {
    let raw = strings(&["b", "a", "b", "c", "a"]);
    assert_eq!(dedup_addresses(&raw), strings(&["b", "a", "c"]));
    assert!(dedup_addresses(&Vec::new()).is_empty());
}
