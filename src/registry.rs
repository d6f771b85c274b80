//! The tracker's registries: the current peer addresses of each chain, and
//! the specification of each chain, both keyed by chain id.
use vstd::prelude::*;

use crate::address::{addrs, dedup, dedup_addresses};
use crate::keeper::PeerReport;

verus! {

/// A copy of `v`, address for address.
pub fn copy_addresses(v: &Vec<String>) -> (r: Vec<String>)
    ensures
        addrs(r@) == addrs(v@),
{
    let mut out: Vec<String> = Vec::new();
    let mut i: usize = 0;
    while i < v.len()
        invariant
            i <= v.len(),
            addrs(out@) == addrs(v@.take(i as int)),
        decreases v.len() - i,
    {
        let a = v[i].clone();
        assert(addrs(v@.take(i + 1)) =~= addrs(v@.take(i as int)).push(a@));
        out.push(a);
        assert(addrs(out@) =~= addrs(v@.take(i + 1)));
        i = i + 1;
    }
    assert(v@.take(v.len() as int) =~= v@);
    out
}

struct PeerEntry {
    chain_id: String,
    peers: Vec<String>,
}

/// The most recently reported peer addresses of each chain. Each entry is
/// replaced as a whole by a report; no two entries share a chain id.
pub struct PeerAddressBook {
    entries: Vec<PeerEntry>,
    contents: Ghost<Map<Seq<char>, Seq<Seq<char>>>>,
}

impl View for PeerAddressBook {
    type V = Map<Seq<char>, Seq<Seq<char>>>;

    closed spec fn view(&self) -> Self::V {
        self.contents@
    }
}

/// The peers that a fetch of `chain_id` returns from a book whose contents
/// are `book`: the stored addresses, or none for a chain never reported.
pub open spec fn peers_of(book: Map<Seq<char>, Seq<Seq<char>>>, chain_id: Seq<char>) -> Seq<Seq<char>> {
    if book.contains_key(chain_id) {
        book[chain_id]
    } else {
        Seq::empty()
    }
}

spec fn book_matches(entries: Seq<PeerEntry>, contents: Map<Seq<char>, Seq<Seq<char>>>) -> bool {
    &&& forall|i: int, j: int|
        0 <= i < j < entries.len() ==> entries[i].chain_id@ != entries[j].chain_id@
    &&& forall|i: int|
        0 <= i < entries.len() ==> #[trigger] contents.contains_key(entries[i].chain_id@)
            && contents[entries[i].chain_id@] == addrs(entries[i].peers@)
    &&& forall|k: Seq<char>|
        #[trigger] contents.contains_key(k) ==> exists|i: int|
            0 <= i < entries.len() && entries[i].chain_id@ == k
}

impl PeerAddressBook {
    /// The entries and the contents agree, and chain ids are unique.
    #[verifier::type_invariant]
    spec fn wf(&self) -> bool {
        book_matches(self.entries@, self.contents@)
    }

    /// An empty book.
    pub fn new() -> (r: PeerAddressBook)
        ensures
            r@ == Map::<Seq<char>, Seq<Seq<char>>>::empty(),
    {
        PeerAddressBook { entries: Vec::new(), contents: Ghost(Map::empty()) }
    }

    fn position(&self, chain_id: &String) -> (r: Option<usize>)
        ensures
            match r {
                Some(i) => i < self.entries@.len() && self.entries@[i as int].chain_id@
                    == chain_id@,
                None => !self@.contains_key(chain_id@),
            },
    {
        proof {
            use_type_invariant(self);
        }
        let mut i: usize = 0;
        while i < self.entries.len()
            invariant
                i <= self.entries@.len(),
                forall|j: int| 0 <= j < i ==> self.entries@[j].chain_id@ != chain_id@,
            decreases self.entries.len() - i,
        {
            if self.entries[i].chain_id == *chain_id {
                return Some(i);
            }
            i = i + 1;
        }
        None
    }

    /// Replaces the whole entry of `chain_id` with `peers`, repeated
    /// addresses dropped; nothing of the previous entry is kept.
    pub fn upsert(&mut self, chain_id: String, peers: Vec<String>)
        ensures
            final(self)@ == old(self)@.insert(chain_id@, dedup(addrs(peers@))),
    {
        proof {
            use_type_invariant(&*self);
        }
        let unique = dedup_addresses(&peers);
        let ghost key = chain_id@;
        let found = self.position(&chain_id);
        let mut taken = PeerAddressBook::new();
        std::mem::swap(self, &mut taken);
        proof {
            use_type_invariant(&taken);
        }
        let PeerAddressBook { mut entries, contents } = taken;
        let ghost pre = entries@;
        let ghost post = contents@.insert(key, dedup(addrs(peers@)));
        match found {
            Some(i) => {
                entries[i].peers = unique;
                assert forall|k: Seq<char>| #[trigger] post.contains_key(k) implies exists|j: int|
                    0 <= j < entries@.len() && entries@[j].chain_id@ == k by {
                    if k != key {
                        let j = choose|j: int| 0 <= j < pre.len() && pre[j].chain_id@ == k;
                        assert(entries@[j].chain_id@ == k);
                    } else {
                        assert(entries@[i as int].chain_id@ == k);
                    }
                }
            },
            None => {
                entries.push(PeerEntry { chain_id, peers: unique });
                assert forall|k: Seq<char>| #[trigger] post.contains_key(k) implies exists|j: int|
                    0 <= j < entries@.len() && entries@[j].chain_id@ == k by {
                    if k != key {
                        let j = choose|j: int| 0 <= j < pre.len() && pre[j].chain_id@ == k;
                        assert(entries@[j].chain_id@ == k);
                    } else {
                        assert(entries@[pre.len() as int].chain_id@ == k);
                    }
                }
            },
        }
        assert forall|j: int| 0 <= j < entries@.len() implies #[trigger] post.contains_key(
            entries@[j].chain_id@,
        ) && post[entries@[j].chain_id@] == addrs(entries@[j].peers@) by {
            if entries@[j].chain_id@ != key {
                assert(entries@[j] == pre[j]);
                assert(contents@.contains_key(pre[j].chain_id@));
            }
        }
        assert(book_matches(entries@, post));
        let mut updated = PeerAddressBook { entries, contents: Ghost(post) };
        std::mem::swap(self, &mut updated);
    }

    /// Takes in a report: the entry of its chain is replaced by its peers,
    /// whatever its layer.
    pub fn apply_report(&mut self, report: PeerReport)
        ensures
            final(self)@ == old(self)@.insert(report.chain_id@, dedup(addrs(report.peers@))),
    {
        self.upsert(report.chain_id, report.peers);
    }

    /// The current peers of `chain_id`: none for a chain never reported.
    pub fn fetch(&self, chain_id: &String) -> (r: Vec<String>)
        ensures
            addrs(r@) == peers_of(self@, chain_id@),
    {
        proof {
            use_type_invariant(self);
        }
        match self.position(chain_id) {
            Some(i) => copy_addresses(&self.entries[i].peers),
            None => {
                let r: Vec<String> = Vec::new();
                assert(addrs(r@) =~= Seq::<Seq<char>>::empty());
                r
            },
        }
    }
}

/// The contents of a book that started empty and took in `reports` in turn,
/// each a chain id and the peers reported for it.
pub open spec fn book_after(reports: Seq<(Seq<char>, Seq<Seq<char>>)>) -> Map<
    Seq<char>,
    Seq<Seq<char>>,
>
    decreases reports.len(),
{
    if reports.len() == 0 {
        Map::empty()
    } else {
        book_after(reports.drop_last()).insert(reports.last().0, dedup(reports.last().1))
    }
}

/// A chain that no report named has no peers.
pub proof fn lemma_unreported_chain_has_no_peers(
    reports: Seq<(Seq<char>, Seq<Seq<char>>)>,
    chain_id: Seq<char>,
)
    requires
        forall|i: int| 0 <= i < reports.len() ==> #[trigger] reports[i].0 != chain_id,
    ensures
        !book_after(reports).contains_key(chain_id),
        peers_of(book_after(reports), chain_id) == Seq::<Seq<char>>::empty(),
    decreases reports.len(),
{
    if reports.len() > 0 {
        let p = reports.drop_last();
        assert forall|i: int| 0 <= i < p.len() implies #[trigger] p[i].0 != chain_id by {
            assert(p[i] == reports[i]);
        }
        lemma_unreported_chain_has_no_peers(p, chain_id);
        assert(reports[reports.len() - 1].0 != chain_id);
    }
}

/// A second report of a chain replaces the first: the peers of `x` are those
/// of the last report alone, and a single address is kept as it is.
pub proof fn lemma_upsert_replaces(
    book: Map<Seq<char>, Seq<Seq<char>>>,
    x: Seq<char>,
    first: Seq<Seq<char>>,
    second: Seq<Seq<char>>,
)
    ensures
        peers_of(book.insert(x, dedup(first)).insert(x, dedup(second)), x) == dedup(second),
        second.len() == 1 ==> peers_of(book.insert(x, dedup(first)).insert(x, dedup(second)), x)
            == second,
{
    if second.len() == 1 {
        assert(second.drop_last() =~= Seq::<Seq<char>>::empty());
        assert(dedup(second.drop_last()) =~= Seq::<Seq<char>>::empty());
        assert(dedup(second) =~= second);
    }
}

struct SpecEntry {
    chain_id: String,
    spec: Vec<u8>,
}

/// The specification of each chain: an opaque blob, stored once and never
/// replaced afterwards.
pub struct ChainSpecStore {
    entries: Vec<SpecEntry>,
    contents: Ghost<Map<Seq<char>, Seq<u8>>>,
}

spec fn store_matches(entries: Seq<SpecEntry>, contents: Map<Seq<char>, Seq<u8>>) -> bool {
    &&& forall|i: int, j: int|
        0 <= i < j < entries.len() ==> entries[i].chain_id@ != entries[j].chain_id@
    &&& forall|i: int|
        0 <= i < entries.len() ==> #[trigger] contents.contains_key(entries[i].chain_id@)
            && contents[entries[i].chain_id@] == entries[i].spec@
    &&& forall|k: Seq<char>|
        #[trigger] contents.contains_key(k) ==> exists|i: int|
            0 <= i < entries.len() && entries[i].chain_id@ == k
}

impl View for ChainSpecStore {
    type V = Map<Seq<char>, Seq<u8>>;

    closed spec fn view(&self) -> Self::V {
        self.contents@
    }
}

impl ChainSpecStore {
    /// The entries and the contents agree, and chain ids are unique.
    #[verifier::type_invariant]
    spec fn wf(&self) -> bool {
        store_matches(self.entries@, self.contents@)
    }

    /// An empty store.
    pub fn new() -> (r: ChainSpecStore)
        ensures
            r@ == Map::<Seq<char>, Seq<u8>>::empty(),
    {
        ChainSpecStore { entries: Vec::new(), contents: Ghost(Map::empty()) }
    }

    fn position(&self, chain_id: &String) -> (r: Option<usize>)
        ensures
            match r {
                Some(i) => i < self.entries@.len() && self.entries@[i as int].chain_id@
                    == chain_id@,
                None => !self@.contains_key(chain_id@),
            },
    {
        proof {
            use_type_invariant(self);
        }
        let mut i: usize = 0;
        while i < self.entries.len()
            invariant
                i <= self.entries@.len(),
                forall|j: int| 0 <= j < i ==> self.entries@[j].chain_id@ != chain_id@,
            decreases self.entries.len() - i,
        {
            if self.entries[i].chain_id == *chain_id {
                return Some(i);
            }
            i = i + 1;
        }
        None
    }

    /// Stores `spec` for `chain_id` unless that chain has one already, in
    /// which case the store is left as it was. Returns whether it stored.
    pub fn insert(&mut self, chain_id: String, spec: Vec<u8>) -> (r: bool)
        ensures
            r == !old(self)@.contains_key(chain_id@),
            final(self)@ == (if r {
                old(self)@.insert(chain_id@, spec@)
            } else {
                old(self)@
            }),
    {
        proof {
            use_type_invariant(&*self);
        }
        if self.position(&chain_id).is_some() {
            return false;
        }
        let ghost key = chain_id@;
        let ghost blob = spec@;
        let mut taken = ChainSpecStore::new();
        std::mem::swap(self, &mut taken);
        proof {
            use_type_invariant(&taken);
        }
        let ChainSpecStore { mut entries, contents } = taken;
        let ghost pre = entries@;
        let ghost post = contents@.insert(key, blob);
        entries.push(SpecEntry { chain_id, spec });
        assert forall|k: Seq<char>| #[trigger] post.contains_key(k) implies exists|j: int|
            0 <= j < entries@.len() && entries@[j].chain_id@ == k by {
            if k != key {
                let j = choose|j: int| 0 <= j < pre.len() && pre[j].chain_id@ == k;
                assert(entries@[j].chain_id@ == k);
            } else {
                assert(entries@[pre.len() as int].chain_id@ == k);
            }
        }
        assert forall|j: int| 0 <= j < entries@.len() implies #[trigger] post.contains_key(
            entries@[j].chain_id@,
        ) && post[entries@[j].chain_id@] == entries@[j].spec@ by {
            if j < pre.len() {
                assert(entries@[j] == pre[j]);
                assert(contents@.contains_key(pre[j].chain_id@));
            }
        }
        assert(store_matches(entries@, post));
        let mut updated = ChainSpecStore { entries, contents: Ghost(post) };
        std::mem::swap(self, &mut updated);
        true
    }

    /// The specification of `chain_id`, or `None` where none is stored.
    pub fn get(&self, chain_id: &String) -> (r: Option<Vec<u8>>)
        ensures
            match r {
                Some(b) => self@.contains_key(chain_id@) && b@ == self@[chain_id@],
                None => !self@.contains_key(chain_id@),
            },
    {
        proof {
            use_type_invariant(self);
        }
        match self.position(chain_id) {
            Some(i) => {
                let b = self.entries[i].spec.clone();
                assert(b@ =~= self.entries@[i as int].spec@);
                assert(self.contents@.contains_key(self.entries@[i as int].chain_id@));
                Some(b)
            },
            None => None,
        }
    }
}

/// The contents of a store that started empty and was handed `inserts` in
/// turn, each a chain id and a specification; the first of each chain stays.
pub open spec fn store_after(inserts: Seq<(Seq<char>, Seq<u8>)>) -> Map<Seq<char>, Seq<u8>>
    decreases inserts.len(),
{
    if inserts.len() == 0 {
        Map::empty()
    } else {
        let m = store_after(inserts.drop_last());
        if m.contains_key(inserts.last().0) {
            m
        } else {
            m.insert(inserts.last().0, inserts.last().1)
        }
    }
}

/// A specification once stored stays as it was, whatever is inserted after.
pub proof fn lemma_spec_never_replaced(
    inserts: Seq<(Seq<char>, Seq<u8>)>,
    more: Seq<(Seq<char>, Seq<u8>)>,
    chain_id: Seq<char>,
)
    requires
        store_after(inserts).contains_key(chain_id),
    ensures
        store_after(inserts + more).contains_key(chain_id),
        store_after(inserts + more)[chain_id] == store_after(inserts)[chain_id],
    decreases more.len(),
{
    if more.len() == 0 {
        assert(inserts + more =~= inserts);
    } else {
        lemma_spec_never_replaced(inserts, more.drop_last(), chain_id);
        assert((inserts + more).drop_last() =~= inserts + more.drop_last());
    }
}

/// A chain that no insertion named has no specification.
pub proof fn lemma_unregistered_chain_has_no_spec(
    inserts: Seq<(Seq<char>, Seq<u8>)>,
    chain_id: Seq<char>,
)
    requires
        forall|i: int| 0 <= i < inserts.len() ==> #[trigger] inserts[i].0 != chain_id,
    ensures
        !store_after(inserts).contains_key(chain_id),
    decreases inserts.len(),
{
    if inserts.len() > 0 {
        let p = inserts.drop_last();
        assert forall|i: int| 0 <= i < p.len() implies #[trigger] p[i].0 != chain_id by {
            assert(p[i] == inserts[i]);
        }
        lemma_unregistered_chain_has_no_spec(p, chain_id);
        assert(inserts[inserts.len() - 1].0 != chain_id);
    }
}

} // verus!
