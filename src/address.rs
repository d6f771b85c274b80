//! Peer addresses and the rule that tells loopback addresses apart.
use vstd::prelude::*;

verus! {

/// `s` begins with `p`.
pub open spec fn has_prefix(s: Seq<char>, p: Seq<char>) -> bool {
    p.len() <= s.len() && s.subrange(0, p.len() as int) == p
}

/// `s` is the host `h` alone, or `h` followed by the separator `sep` and more.
pub open spec fn is_host_field(s: Seq<char>, h: Seq<char>, sep: Seq<char>) -> bool {
    s == h || has_prefix(s, h + sep)
}

/// An address whose host is the local machine, in multiaddr form
/// (`/ip4/127.0.0.1/tcp/30333`, `/ip6/::1/...`, `/dns/localhost/...`) or in
/// `host:port` form (`127.0.0.1:30333`, `[::1]:30333`, `localhost:30333`).
pub open spec fn is_loopback(s: Seq<char>) -> bool {
    ||| has_prefix(s, "/ip4/127."@)
    ||| is_host_field(s, "/ip6/::1"@, "/"@)
    ||| is_host_field(s, "/dns/localhost"@, "/"@)
    ||| is_host_field(s, "/dns4/localhost"@, "/"@)
    ||| is_host_field(s, "/dns6/localhost"@, "/"@)
    ||| has_prefix(s, "127."@)
    ||| s == "::1"@
    ||| is_host_field(s, "[::1]"@, ":"@)
    ||| is_host_field(s, "localhost"@, ":"@)
}

/// Relies on `str::starts_with` with a `&str` pattern: true exactly when `p`
/// is a prefix of `s`.
#[verifier::external_body]
fn starts_with(s: &str, p: &str) -> (r: bool)
    ensures
        r == has_prefix(s@, p@),
{
    s.starts_with(p)
}

fn host_field_is(s: &String, h: &str, sep: &str) -> (r: bool)
    ensures
        r == is_host_field(s@, h@, sep@),
{
    let whole = h.to_owned();
    if *s == whole {
        return true;
    }
    let mut with_sep = h.to_owned();
    with_sep.append(sep);
    starts_with(s.as_str(), with_sep.as_str())
}

/// Whether the address `s` refers to the local machine.
pub fn is_loopback_address(s: &String) -> (r: bool)
    ensures
        r == is_loopback(s@),
{
    starts_with(s.as_str(), "/ip4/127.")
        || host_field_is(s, "/ip6/::1", "/")
        || host_field_is(s, "/dns/localhost", "/")
        || host_field_is(s, "/dns4/localhost", "/")
        || host_field_is(s, "/dns6/localhost", "/")
        || starts_with(s.as_str(), "127.")
        || *s == "::1".to_owned()
        || host_field_is(s, "[::1]", ":")
        || host_field_is(s, "localhost", ":")
}


/// The character sequences that a list of addresses holds.
pub open spec fn addrs(v: Seq<String>) -> Seq<Seq<char>> {
    v.map_values(|a: String| a@)
}

/// The addresses of `raw` that may be exposed: all of them where loopback
/// addresses are allowed, else those that are not loopback, in their order.
pub open spec fn exposed(raw: Seq<Seq<char>>, allow_loopback_ip: bool) -> Seq<Seq<char>> {
    if allow_loopback_ip {
        raw
    } else {
        raw.filter(not_loopback())
    }
}

/// The test that keeps an address when loopback addresses are not allowed.
pub open spec fn not_loopback() -> spec_fn(Seq<char>) -> bool {
    |a: Seq<char>| !is_loopback(a)
}

/// `s` with every repeated address dropped, first occurrences kept in order.
pub open spec fn dedup(s: Seq<Seq<char>>) -> Seq<Seq<char>>
    decreases s.len(),
{
    if s.len() == 0 {
        Seq::empty()
    } else {
        let d = dedup(s.drop_last());
        if d.contains(s.last()) {
            d
        } else {
            d.push(s.last())
        }
    }
}

/// A deduplicated list holds each address once, and exactly the addresses of
/// the original list.
pub proof fn lemma_dedup(s: Seq<Seq<char>>)
    ensures
        dedup(s).no_duplicates(),
        dedup(s).to_set() == s.to_set(),
    decreases s.len(),
{
    if s.len() > 0 {
        let p = s.drop_last();
        lemma_dedup(p);
        assert(s == p.push(s.last()));
        p.lemma_push_to_set_commute(s.last());
        dedup(p).lemma_push_to_set_commute(s.last());
        if dedup(p).contains(s.last()) {
            assert(dedup(p).to_set().insert(s.last()) =~= dedup(p).to_set());
        }
    }
}

/// Without leave for loopback addresses, the exposed addresses are exactly
/// the non-loopback addresses of `raw`; with it, all of them. Either way,
/// once repeated addresses are dropped, each is held once.
pub proof fn lemma_exposed(raw: Seq<Seq<char>>, allow_loopback_ip: bool)
    ensures
        forall|a: Seq<char>|
            #[trigger] exposed(raw, allow_loopback_ip).contains(a) <==> raw.contains(a) && (
            allow_loopback_ip || !is_loopback(a)),
        dedup(exposed(raw, allow_loopback_ip)).no_duplicates(),
        dedup(exposed(raw, allow_loopback_ip)).to_set() == (if allow_loopback_ip {
            raw.to_set()
        } else {
            raw.to_set().filter(not_loopback())
        }),
{
    let pred = not_loopback();
    let e = exposed(raw, allow_loopback_ip);
    if !allow_loopback_ip {
        assert forall|a: Seq<char>| #[trigger] e.contains(a) <==> raw.contains(a) && !is_loopback(a) by {
            if e.contains(a) {
                let i = choose|i: int| 0 <= i < e.len() && e[i] == a;
                raw.lemma_filter_pred(pred, i);
                raw.lemma_filter_contains_rev(pred, a);
            }
            if raw.contains(a) && !is_loopback(a) {
                let j = choose|j: int| 0 <= j < raw.len() && raw[j] == a;
                raw.lemma_filter_contains(pred, j);
            }
        }
    }
    lemma_dedup(e);
    assert(dedup(e).to_set() =~= (if allow_loopback_ip {
        raw.to_set()
    } else {
        raw.to_set().filter(pred)
    }));
}

/// The addresses of `raw` that may be exposed, in their order.
pub fn filter_exposed(raw: &Vec<String>, allow_loopback_ip: bool) -> (r: Vec<String>)
    ensures
        addrs(r@) == exposed(addrs(raw@), allow_loopback_ip),
{
    let mut out: Vec<String> = Vec::new();
    let mut i: usize = 0;
    while i < raw.len()
        invariant
            i <= raw.len(),
            addrs(out@) == exposed(addrs(raw@.take(i as int)), allow_loopback_ip),
        decreases raw.len() - i,
    {
        let a = &raw[i];
        let keep = allow_loopback_ip || !is_loopback_address(a);
        proof {
            assert(addrs(raw@.take(i + 1)) =~= addrs(raw@.take(i as int)).push(a@));
            addrs(raw@.take(i as int)).lemma_filter_push(a@, not_loopback());
        }
        if keep {
            out.push(a.clone());
        }
        assert(addrs(out@) =~= exposed(addrs(raw@.take(i + 1)), allow_loopback_ip));
        i = i + 1;
    }
    assert(raw@.take(raw.len() as int) =~= raw@);
    out
}

/// `peers` with repeated addresses dropped, first occurrences kept in order.
pub fn dedup_addresses(peers: &Vec<String>) -> (r: Vec<String>)
    ensures
        addrs(r@) == dedup(addrs(peers@)),
{
    let mut out: Vec<String> = Vec::new();
    let mut i: usize = 0;
    while i < peers.len()
        invariant
            i <= peers.len(),
            addrs(out@) == dedup(addrs(peers@.take(i as int))),
        decreases peers.len() - i,
    {
        let a = &peers[i];
        let mut seen = false;
        let mut j: usize = 0;
        while j < out.len()
            invariant
                j <= out.len(),
                seen == addrs(out@).take(j as int).contains(a@),
            decreases out.len() - j,
        {
            if out[j] == *a {
                seen = true;
            }
            proof {
                assert(addrs(out@).take(j + 1) =~= addrs(out@).take(j as int).push(out@[j as int]@));
                vstd::seq_lib::lemma_seq_contains_after_push(
                    addrs(out@).take(j as int),
                    out@[j as int]@,
                    a@,
                );
            }
            j = j + 1;
        }
        assert(addrs(out@).take(out.len() as int) =~= addrs(out@));
        let ghost prefix = addrs(peers@.take(i as int));
        assert(addrs(peers@.take(i + 1)).drop_last() =~= prefix);
        if !seen {
            out.push(a.clone());
        }
        assert(addrs(out@) =~= dedup(addrs(peers@.take(i + 1))));
        i = i + 1;
    }
    assert(peers@.take(peers.len() as int) =~= peers@);
    out
}

} // verus!
