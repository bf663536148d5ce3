//! The table of registered clients: each registered name and the address of the
//! client that registered it, in the order in which the names were first registered.
//! A name appears at most once, as in a map keyed by name.
use vstd::prelude::*;
use crate::text::{same_text, texts};

verus! {

/// The network address of a peer, held as plain values: the IP address as a number
/// (an IPv4 address in its low 32 bits), the port, whether it is an IPv6 address,
/// and for IPv6 the flow information and the scope id. Two addresses are the same
/// exactly when all their fields are.
#[derive(Clone, Copy, Debug, PartialEq, Eq, Hash, Structural)]
pub struct PeerAddr {
    pub ip: u128,
    pub port: u16,
    pub v6: bool,
    pub flowinfo: u32,
    pub scope_id: u32,
}

/// A registered name and its address.
pub type EntryView = (Seq<char>, PeerAddr);

/// No name occurs twice.
pub open spec fn names_unique(s: Seq<EntryView>) -> bool {
    forall|i: int, j: int| 0 <= i < j < s.len() ==> #[trigger] s[i].0 != #[trigger] s[j].0
}

/// No address occurs twice.
pub open spec fn addrs_unique(s: Seq<EntryView>) -> bool {
    forall|i: int, j: int| 0 <= i < j < s.len() ==> #[trigger] s[i].1 != #[trigger] s[j].1
}

/// `name` is registered.
pub open spec fn has_name(s: Seq<EntryView>, name: Seq<char>) -> bool {
    exists|i: int| 0 <= i < s.len() && #[trigger] s[i].0 == name
}

/// Some name is registered for `addr`.
pub open spec fn has_addr(s: Seq<EntryView>, addr: PeerAddr) -> bool {
    exists|i: int| 0 <= i < s.len() && #[trigger] s[i].1 == addr
}

/// The position of `name`.
pub open spec fn name_index(s: Seq<EntryView>, name: Seq<char>) -> int {
    choose|i: int|
        0 <= i < s.len() && s[i].0 == name && forall|j: int| 0 <= j < i ==> #[trigger] s[j].0 != name
}

/// The position of the first entry for `addr`.
pub open spec fn addr_index(s: Seq<EntryView>, addr: PeerAddr) -> int {
    choose|i: int|
        0 <= i < s.len() && s[i].1 == addr && forall|j: int| 0 <= j < i ==> #[trigger] s[j].1 != addr
}

/// The address registered for `name`, if any.
pub open spec fn lookup_name(s: Seq<EntryView>, name: Seq<char>) -> Option<PeerAddr> {
    if has_name(s, name) {
        Some(s[name_index(s, name)].1)
    } else {
        None
    }
}

/// The first entry registered for `addr`, if any.
pub open spec fn lookup_addr(s: Seq<EntryView>, addr: PeerAddr) -> Option<EntryView> {
    if has_addr(s, addr) {
        Some(s[addr_index(s, addr)])
    } else {
        None
    }
}

/// The table after registering `name` at `addr`: an existing entry for the name
/// keeps its place and takes the new address; a new name goes at the end.
pub open spec fn with_entry(s: Seq<EntryView>, name: Seq<char>, addr: PeerAddr) -> Seq<EntryView> {
    if has_name(s, name) {
        s.update(name_index(s, name), (name, addr))
    } else {
        s.push((name, addr))
    }
}

/// The table after removing `name`; the other entries keep their order.
pub open spec fn without_name(s: Seq<EntryView>, name: Seq<char>) -> Seq<EntryView> {
    if has_name(s, name) {
        s.remove(name_index(s, name))
    } else {
        s
    }
}

/// The registered names, in table order.
pub open spec fn name_list(s: Seq<EntryView>) -> Seq<Seq<char>> {
    s.map_values(|e: EntryView| e.0)
}

/// A registered name has a first position.
proof fn lemma_first_name(s: Seq<EntryView>, name: Seq<char>, w: int)
    requires
        0 <= w < s.len(),
        s[w].0 == name,
    ensures
        exists|i: int|
            0 <= i < s.len() && s[i].0 == name && forall|j: int| 0 <= j < i ==> #[trigger] s[j].0 != name,
    decreases w,
{
    if exists|j: int| 0 <= j < w && #[trigger] s[j].0 == name {
        let j = choose|j: int| 0 <= j < w && #[trigger] s[j].0 == name;
        lemma_first_name(s, name, j);
    } else {
        assert(forall|j: int| 0 <= j < w ==> #[trigger] s[j].0 != name);
    }
}

/// A registered address has a first position.
proof fn lemma_first_addr(s: Seq<EntryView>, addr: PeerAddr, w: int)
    requires
        0 <= w < s.len(),
        s[w].1 == addr,
    ensures
        exists|i: int|
            0 <= i < s.len() && s[i].1 == addr && forall|j: int| 0 <= j < i ==> #[trigger] s[j].1 != addr,
    decreases w,
{
    if exists|j: int| 0 <= j < w && #[trigger] s[j].1 == addr {
        let j = choose|j: int| 0 <= j < w && #[trigger] s[j].1 == addr;
        lemma_first_addr(s, addr, j);
    } else {
        assert(forall|j: int| 0 <= j < w ==> #[trigger] s[j].1 != addr);
    }
}

/// The position of a registered name holds that name, and no earlier one does.
pub proof fn lemma_name_index(s: Seq<EntryView>, name: Seq<char>)
    requires
        has_name(s, name),
    ensures
        0 <= name_index(s, name) < s.len(),
        s[name_index(s, name)].0 == name,
        forall|j: int| 0 <= j < name_index(s, name) ==> #[trigger] s[j].0 != name,
{
    let w = choose|w: int| 0 <= w < s.len() && #[trigger] s[w].0 == name;
    lemma_first_name(s, name, w);
}

/// The position of a registered address holds that address, and no earlier one
/// does.
pub proof fn lemma_addr_index(s: Seq<EntryView>, addr: PeerAddr)
    requires
        has_addr(s, addr),
    ensures
        0 <= addr_index(s, addr) < s.len(),
        s[addr_index(s, addr)].1 == addr,
        forall|j: int| 0 <= j < addr_index(s, addr) ==> #[trigger] s[j].1 != addr,
{
    let w = choose|w: int| 0 <= w < s.len() && #[trigger] s[w].1 == addr;
    lemma_first_addr(s, addr, w);
}

/// Registering a name makes a lookup of that name give the new address, and
/// leaves every other name's address as it was; names stay unique.
pub proof fn lemma_lookup_after_insert(s: Seq<EntryView>, name: Seq<char>, addr: PeerAddr, other: Seq<char>)
    requires
        names_unique(s),
    ensures
        lookup_name(with_entry(s, name, addr), name) == Some(addr),
        other != name ==> lookup_name(with_entry(s, name, addr), other) == lookup_name(s, other),
        names_unique(with_entry(s, name, addr)),
{
    let t = with_entry(s, name, addr);
    if has_name(s, name) {
        let k = name_index(s, name);
        assert(t[k].0 == name);
        assert(has_name(t, name));
        let j = name_index(t, name);
        assert(j == k) by {
            if j != k {
                if j < k {
                    assert(s[j].0 == name);
                } else {
                    assert(t[k].0 == name);
                }
            }
        }
        assert forall|a: int, b: int| 0 <= a < b < t.len() implies #[trigger] t[a].0 != #[trigger] t[b].0 by {
            if a != k && b != k {
                assert(s[a].0 != s[b].0);
            } else if a == k {
                assert(s[b].0 != s[k].0);
            } else {
                assert(s[a].0 != s[k].0);
            }
        }
        if other != name {
            if has_name(s, other) {
                let i = name_index(s, other);
                assert(t[i] == s[i]);
                assert(has_name(t, other));
                let i2 = name_index(t, other);
                assert(i2 == i) by {
                    if i2 < i {
                        assert(t[i2].0 == other);
                        assert(i2 != k);
                        assert(s[i2].0 == other);
                    } else if i2 > i {
                        assert(t[i].0 == other);
                    }
                }
            } else {
                assert(!has_name(t, other)) by {
                    if has_name(t, other) {
                        let w = choose|w: int| 0 <= w < t.len() && #[trigger] t[w].0 == other;
                        assert(w != k);
                        assert(s[w].0 == other);
                    }
                }
            }
        }
    } else {
        let k = s.len() as int;
        assert(t[k].0 == name);
        assert(has_name(t, name));
        let j = name_index(t, name);
        assert(j == k) by {
            if j < k {
                assert(s[j].0 == name);
            }
        }
        assert forall|a: int, b: int| 0 <= a < b < t.len() implies #[trigger] t[a].0 != #[trigger] t[b].0 by {
            if b == k {
                assert(s[a].0 != name);
            } else {
                assert(s[a].0 != s[b].0);
            }
        }
        if other != name {
            if has_name(s, other) {
                let i = name_index(s, other);
                assert(t[i] == s[i]);
                assert(has_name(t, other));
                let i2 = name_index(t, other);
                assert(i2 == i) by {
                    if i2 < i {
                        assert(s[i2].0 == other);
                    } else if i2 > i {
                        assert(t[i].0 == other);
                    }
                }
            } else {
                assert(!has_name(t, other)) by {
                    if has_name(t, other) {
                        let w = choose|w: int| 0 <= w < t.len() && #[trigger] t[w].0 == other;
                        assert(w != k);
                        assert(s[w].0 == other);
                    }
                }
            }
        }
    }
}

/// Removing a name makes a lookup of it find nothing, and leaves every other
/// name's address as it was; names stay unique.
pub proof fn lemma_lookup_after_remove(s: Seq<EntryView>, name: Seq<char>, other: Seq<char>)
    requires
        names_unique(s),
    ensures
        lookup_name(without_name(s, name), name) is None,
        other != name ==> lookup_name(without_name(s, name), other) == lookup_name(s, other),
        names_unique(without_name(s, name)),
{
    let t = without_name(s, name);
    if has_name(s, name) {
        let k = name_index(s, name);
        assert forall|i: int| 0 <= i < t.len() implies #[trigger] t[i] == (if i < k { s[i] } else { s[i + 1] }) by {}
        assert(!has_name(t, name)) by {
            if has_name(t, name) {
                let w = choose|w: int| 0 <= w < t.len() && #[trigger] t[w].0 == name;
                if w < k {
                    assert(s[w].0 == name);
                } else {
                    assert(s[w + 1].0 == name);
                    assert(s[k].0 != s[w + 1].0);
                }
            }
        }
        assert forall|a: int, b: int| 0 <= a < b < t.len() implies #[trigger] t[a].0 != #[trigger] t[b].0 by {
            let a0 = if a < k { a } else { a + 1 };
            let b0 = if b < k { b } else { b + 1 };
            assert(s[a0].0 != s[b0].0);
        }
        if other != name {
            if has_name(s, other) {
                let i = name_index(s, other);
                assert(i != k);
                let i1 = if i < k { i } else { i - 1 };
                assert(t[i1] == s[i]);
                assert(has_name(t, other));
                let i2 = name_index(t, other);
                assert(i2 == i1) by {
                    let i20 = if i2 < k { i2 } else { i2 + 1 };
                    assert(s[i20].0 == other);
                    if i2 < i1 {
                        assert(i20 < i);
                    } else if i2 > i1 {
                        assert(t[i1].0 == other);
                    }
                }
            } else {
                assert(!has_name(t, other)) by {
                    if has_name(t, other) {
                        let w = choose|w: int| 0 <= w < t.len() && #[trigger] t[w].0 == other;
                        let w0 = if w < k { w } else { w + 1 };
                        assert(s[w0].0 == other);
                    }
                }
            }
        }
    }
}

/// The list of names holds each registered name exactly once, and nothing else.
pub proof fn lemma_name_list_exact(s: Seq<EntryView>, name: Seq<char>)
    requires
        names_unique(s),
    ensures
        name_list(s).len() == s.len(),
        name_list(s).no_duplicates(),
        name_list(s).contains(name) <==> has_name(s, name),
{
    let l = name_list(s);
    assert forall|i: int, j: int| 0 <= i < l.len() && 0 <= j < l.len() && i != j implies l[i] != l[j] by {
        if i < j {
            assert(s[i].0 != s[j].0);
        } else {
            assert(s[j].0 != s[i].0);
        }
    }
    if has_name(s, name) {
        let w = choose|w: int| 0 <= w < s.len() && #[trigger] s[w].0 == name;
        assert(l[w] == name);
    }
    if l.contains(name) {
        let w = choose|w: int| 0 <= w < l.len() && l[w] == name;
        assert(s[w].0 == name);
    }
}

/// The clients registered with the chat service.
pub struct Roster {
    entries: Vec<(String, PeerAddr)>,
}

impl View for Roster {
    type V = Seq<EntryView>;

    closed spec fn view(&self) -> Seq<EntryView> {
        self.entries@.map_values(|e: (String, PeerAddr)| (e.0@, e.1))
    }
}

impl Roster {
    #[verifier::type_invariant]
    closed spec fn wf(self) -> bool {
        names_unique(self@)
    }

    /// An empty table.
    pub fn new() -> (r: Roster)
        ensures
            r@ == Seq::<EntryView>::empty(),
    {
        let r = Roster { entries: Vec::new() };
        assert(r@ =~= Seq::<EntryView>::empty());
        r
    }

    /// The number of registered names.
    pub fn len(&self) -> (n: usize)
        ensures
            n == self@.len(),
            names_unique(self@),
    {
        proof {
            use_type_invariant(self);
        }
        self.entries.len()
    }

    /// The name at position `i`.
    pub fn name_at(&self, i: usize) -> (r: &String)
        requires
            i < self@.len(),
        ensures
            r@ == self@[i as int].0,
    {
        &self.entries[i].0
    }

    /// The address at position `i`.
    pub fn addr_at(&self, i: usize) -> (r: PeerAddr)
        requires
            i < self@.len(),
        ensures
            r == self@[i as int].1,
    {
        self.entries[i].1
    }

    /// The position of `name`, if it is registered.
    pub fn position(&self, name: &str) -> (r: Option<usize>)
        ensures
            names_unique(self@),
            r is None <==> !has_name(self@, name@),
            r matches Some(i) ==> i == name_index(self@, name@) && i < self@.len(),
    {
        proof {
            use_type_invariant(self);
        }
        let mut i: usize = 0;
        while i < self.entries.len()
            invariant
                i <= self@.len(),
                self@.len() == self.entries@.len(),
                names_unique(self@),
                forall|j: int| 0 <= j < i ==> #[trigger] self@[j].0 != name@,
            decreases self.entries.len() - i,
        {
            if same_text(self.entries[i].0.as_str(), name) {
                assert(self@[i as int].0 == name@);
                return Some(i);
            }
            i = i + 1;
        }
        None
    }

    /// The address registered for `name`, if any.
    pub fn lookup(&self, name: &str) -> (r: Option<PeerAddr>)
        ensures
            r == lookup_name(self@, name@),
            names_unique(self@),
    {
        match self.position(name) {
            Some(i) => Some(self.entries[i].1),
            None => None,
        }
    }

    /// Whether `name` is registered.
    pub fn contains_name(&self, name: &str) -> (r: bool)
        ensures
            r == has_name(self@, name@),
            names_unique(self@),
    {
        self.position(name).is_some()
    }

    /// The position of the first entry for `addr`, if any.
    pub fn addr_position(&self, addr: PeerAddr) -> (r: Option<usize>)
        ensures
            names_unique(self@),
            r is None <==> !has_addr(self@, addr),
            r matches Some(i) ==> i == addr_index(self@, addr) && i < self@.len(),
    {
        proof {
            use_type_invariant(self);
        }
        let mut i: usize = 0;
        while i < self.entries.len()
            invariant
                i <= self@.len(),
                self@.len() == self.entries@.len(),
                names_unique(self@),
                forall|j: int| 0 <= j < i ==> #[trigger] self@[j].1 != addr,
            decreases self.entries.len() - i,
        {
            if self.entries[i].1 == addr {
                assert(self@[i as int].1 == addr);
                return Some(i);
            }
            i = i + 1;
        }
        None
    }

    /// Whether some name is registered for `addr`.
    pub fn contains_addr(&self, addr: PeerAddr) -> (r: bool)
        ensures
            r == has_addr(self@, addr),
            names_unique(self@),
    {
        self.addr_position(addr).is_some()
    }

    /// Registers `name` at `addr`, replacing the address of a name already there.
    pub fn insert(&mut self, name: String, addr: PeerAddr)
        ensures
            final(self)@ == with_entry(old(self)@, name@, addr),
            names_unique(final(self)@),
    {
        let ghost pre = self@;
        match self.position(name.as_str()) {
            Some(i) => {
                let ghost idx = i as int;
                let mut entries: Vec<(String, PeerAddr)> = Vec::new();
                std::mem::swap(&mut entries, &mut self.entries);
                entries.set(i, (name, addr));
                proof {
                    assert(entries@.map_values(|e: (String, PeerAddr)| (e.0@, e.1)) =~= pre.update(
                        idx,
                        (name@, addr),
                    ));
                    assert forall|a: int, b: int|
                        0 <= a < b < pre.len() implies #[trigger] pre.update(idx, (name@, addr))[a].0
                        != #[trigger] pre.update(idx, (name@, addr))[b].0 by {
                        if a != idx && b != idx {
                            assert(pre[a].0 != pre[b].0);
                        } else if a == idx {
                            assert(pre[b].0 != pre[idx].0);
                        } else {
                            assert(pre[a].0 != pre[idx].0);
                        }
                    }
                }
                self.entries = entries;
            },
            None => {
                let mut entries: Vec<(String, PeerAddr)> = Vec::new();
                std::mem::swap(&mut entries, &mut self.entries);
                entries.push((name, addr));
                proof {
                    assert(entries@.map_values(|e: (String, PeerAddr)| (e.0@, e.1)) =~= pre.push(
                        (name@, addr),
                    ));
                    let post = pre.push((name@, addr));
                    assert forall|a: int, b: int|
                        0 <= a < b < post.len() implies #[trigger] post[a].0
                        != #[trigger] post[b].0 by {
                        if b == pre.len() {
                            assert(pre[a].0 != name@);
                        } else {
                            assert(pre[a].0 != pre[b].0);
                        }
                    }
                }
                self.entries = entries;
            },
        }
        proof {
            use_type_invariant(&*self);
        }
    }

    /// Removes `name`, if it is registered; the other entries keep their order.
    pub fn remove(&mut self, name: &str)
        ensures
            final(self)@ == without_name(old(self)@, name@),
            names_unique(final(self)@),
    {
        let ghost pre = self@;
        match self.position(name) {
            Some(i) => {
                let ghost idx = i as int;
                let mut entries: Vec<(String, PeerAddr)> = Vec::new();
                std::mem::swap(&mut entries, &mut self.entries);
                let ghost old_entries = entries@;
                let _removed = entries.remove(i);
                proof {
                    assert(entries@.map_values(|e: (String, PeerAddr)| (e.0@, e.1)) =~= pre.remove(
                        idx,
                    ));
                    let post = pre.remove(idx);
                    assert forall|a: int, b: int|
                        0 <= a < b < post.len() implies #[trigger] post[a].0
                        != #[trigger] post[b].0 by {
                        let a0 = if a < idx { a } else { a + 1 };
                        let b0 = if b < idx { b } else { b + 1 };
                        assert(post[a] == pre[a0]);
                        assert(post[b] == pre[b0]);
                        assert(pre[a0].0 != pre[b0].0);
                    }
                }
                self.entries = entries;
            },
            None => {},
        }
        proof {
            use_type_invariant(&*self);
        }
    }

    /// The registered names, in table order.
    pub fn names(&self) -> (r: Vec<String>)
        ensures
            texts(r@) == name_list(self@),
            names_unique(self@),
    {
        proof {
            use_type_invariant(self);
        }
        let mut r: Vec<String> = Vec::new();
        let mut i: usize = 0;
        while i < self.entries.len()
            invariant
                i <= self@.len(),
                self@.len() == self.entries@.len(),
                texts(r@) == name_list(self@).take(i as int),
            decreases self.entries.len() - i,
        {
            let ghost prev = texts(r@);
            r.push(self.entries[i].0.clone());
            proof {
                assert(texts(r@) =~= prev.push(self@[i as int].0));
                assert(name_list(self@).take(i + 1) =~= name_list(self@).take(i as int).push(
                    self@[i as int].0,
                ));
            }
            i = i + 1;
        }
        proof {
            assert(name_list(self@).take(i as int) =~= name_list(self@));
        }
        r
    }
}

} // verus!
