//! A map keyed by address, kept in the order of the addresses' bytes, so that
//! walking it gives the same sequence on every machine.

use crate::types::{Account, Address};
use vstd::prelude::*;

verus! {

/// The number that a byte string spells, most significant byte first. Byte
/// strings of one length are ordered by it as they are ordered byte by byte.
pub open spec fn be_value(s: Seq<u8>) -> nat
    decreases s.len(),
{
    if s.len() == 0 {
        0
    } else {
        be_value(s.drop_last()) * 256 + s.last() as nat
    }
}

/// Byte strings of one length that spell the same number are equal.
pub proof fn lemma_be_value_injective(a: Seq<u8>, b: Seq<u8>)
    requires
        a.len() == b.len(),
        be_value(a) == be_value(b),
    ensures
        a == b,
    decreases a.len(),
{
    if a.len() > 0 {
        lemma_be_value_injective(a.drop_last(), b.drop_last());
        assert(a =~= a.drop_last().push(a.last()));
        assert(b =~= b.drop_last().push(b.last()));
    } else {
        assert(a =~= b);
    }
}

/// Whether `keys` is in strictly increasing order of the numbers they spell.
pub open spec fn strictly_increasing(keys: Seq<Seq<u8>>) -> bool {
    forall|i: int, j: int|
        0 <= i < j < keys.len() ==> be_value(#[trigger] keys[i]) < be_value(#[trigger] keys[j])
}

/// Whether `keys` lists exactly the members of `domain`, in strictly
/// increasing order.
pub open spec fn lists_in_order(keys: Seq<Seq<u8>>, domain: Set<Seq<u8>>) -> bool {
    strictly_increasing(keys) && forall|a: Seq<u8>| keys.contains(a) <==> domain.contains(a)
}

/// The members of `domain` in strictly increasing order, where they can be
/// so listed.
pub open spec fn sorted_keys(domain: Set<Seq<u8>>) -> Seq<Seq<u8>> {
    choose|keys: Seq<Seq<u8>>| lists_in_order(keys, domain)
}

/// Two strictly increasing sequences with the same members are equal.
pub proof fn lemma_increasing_unique(a: Seq<Seq<u8>>, b: Seq<Seq<u8>>)
    requires
        strictly_increasing(a),
        strictly_increasing(b),
        forall|x: Seq<u8>| a.contains(x) <==> b.contains(x),
    ensures
        a == b,
    decreases a.len(),
{
    if a.len() == 0 {
        if b.len() > 0 {
            assert(b.contains(b[0]));
            assert(a.contains(b[0]));
        }
        assert(a =~= b);
    } else {
        let la = a.last();
        assert(a.contains(la));
        assert(b.contains(la));
        let lb = b.last();
        assert(b.contains(lb));
        assert(a.contains(lb));
        let ia = a.index_of(lb);
        let ib = b.index_of(la);
        // Each last member is the greatest of its sequence, and a member of
        // the other: the two are the same.
        assert(la == lb) by {
            if ia < a.len() - 1 {
                assert(be_value(a[ia]) < be_value(a[a.len() - 1]));
            }
            if ib < b.len() - 1 {
                assert(be_value(b[ib]) < be_value(b[b.len() - 1]));
            }
        }
        let pa = a.drop_last();
        let pb = b.drop_last();
        assert forall|x: Seq<u8>| pa.contains(x) <==> pb.contains(x) by {
            if pa.contains(x) {
                let i = pa.index_of(x);
                assert(a[i] == x);
                assert(be_value(a[i]) < be_value(a[a.len() - 1]));
                assert(a.contains(x));
                let j = b.index_of(x);
                assert(j < b.len() - 1);
                assert(pb[j] == x);
            }
            if pb.contains(x) {
                let i = pb.index_of(x);
                assert(b[i] == x);
                assert(be_value(b[i]) < be_value(b[b.len() - 1]));
                assert(b.contains(x));
                let j = a.index_of(x);
                assert(j < a.len() - 1);
                assert(pa[j] == x);
            }
        }
        lemma_increasing_unique(pa, pb);
        assert(a =~= pa.push(la));
        assert(b =~= pb.push(lb));
    }
}

/// How `a` stands to `b` in the order of their bytes: -1 before, 0 equal, 1 after.
pub fn address_order(a: &Address, b: &Address) -> (r: i8)
    ensures
        r == -1 <==> be_value(a@) < be_value(b@),
        r == 0 <==> a@ == b@,
        r == 1 <==> be_value(a@) > be_value(b@),
        r == -1 || r == 0 || r == 1,
{
    let mut state: i8 = 0;
    let mut i: usize = 0;
    assert(a@.subrange(0, 0) =~= Seq::<u8>::empty());
    assert(b@.subrange(0, 0) =~= Seq::<u8>::empty());
    while i < 20
        invariant
            i <= 20,
            a@.len() == 20,
            b@.len() == 20,
            state == -1 || state == 0 || state == 1,
            state == -1 <==> be_value(a@.subrange(0, i as int)) < be_value(
                b@.subrange(0, i as int),
            ),
            state == 1 <==> be_value(a@.subrange(0, i as int)) > be_value(
                b@.subrange(0, i as int),
            ),
        decreases 20 - i,
    {
        proof {
            let pa = a@.subrange(0, i + 1);
            let pb = b@.subrange(0, i + 1);
            assert(pa.drop_last() =~= a@.subrange(0, i as int));
            assert(pb.drop_last() =~= b@.subrange(0, i as int));
            assert(pa.last() == a@[i as int]);
            assert(pb.last() == b@[i as int]);
        }
        if state == 0 {
            if a.0[i] < b.0[i] {
                state = -1;
            } else if a.0[i] > b.0[i] {
                state = 1;
            }
        }
        i += 1;
    }
    proof {
        assert(a@.subrange(0, 20) =~= a@);
        assert(b@.subrange(0, 20) =~= b@);
        if state == 0 {
            lemma_be_value_injective(a@, b@);
        }
    }
    state
}

/// One entry of an address map.
pub struct Entry<V> {
    pub address: Address,
    pub value: V,
}

/// A map from addresses to values of type `V`.
pub struct AddressMap<V> {
    entries: Vec<Entry<V>>,
}

impl<V> AddressMap<V> {
    /// The addresses of the entries, in the order in which they are held.
    pub closed spec fn keys(&self) -> Seq<Seq<u8>> {
        self.entries@.map_values(|e: Entry<V>| e.address@)
    }

    /// The values of the entries, in the order in which they are held.
    pub closed spec fn values(&self) -> Seq<V> {
        self.entries@.map_values(|e: Entry<V>| e.value)
    }

    /// The invariant: the entries are held in strictly increasing order of
    /// their addresses, so no address occurs twice. Every map has it.
    #[verifier::type_invariant]
    pub closed spec fn well_formed(&self) -> bool {
        forall|i: int, j: int|
            0 <= i < j < self.entries@.len() ==> be_value(
                (#[trigger] self.entries@[i]).address@,
            ) < be_value((#[trigger] self.entries@[j]).address@)
    }

    /// Whether the map holds an entry for a given address.
    pub closed spec fn contains(&self, address: Seq<u8>) -> bool {
        exists|i: int| 0 <= i < self.entries@.len() && (#[trigger] self.entries@[i]).address@ == address
    }

    /// Where the entry for a given address is.
    pub closed spec fn position(&self, address: Seq<u8>) -> int {
        choose|i: int| 0 <= i < self.entries@.len() && (#[trigger] self.entries@[i]).address@ == address
    }

    /// The map as a mathematical map from address bytes to values.
    pub closed spec fn view(&self) -> Map<Seq<u8>, V> {
        Map::new(
            |a: Seq<u8>| self.contains(a),
            |a: Seq<u8>| self.entries@[self.position(a)].value,
        )
    }

    /// The keys are in order, each has its value in the map, and the map has
    /// no other keys.
    pub proof fn lemma_keys_and_values(&self)
        requires
            self.well_formed(),
        ensures
            self.keys().len() == self.values().len(),
            strictly_increasing(self.keys()),
            lists_in_order(self.keys(), self@.dom()),
            self.keys() == sorted_keys(self@.dom()),
            forall|i: int|
                0 <= i < self.keys().len() ==> self@.contains_key(#[trigger] self.keys()[i])
                    && self@[self.keys()[i]] == self.values()[i],
            forall|a: Seq<u8>|
                self@.contains_key(a) ==> exists|i: int|
                    0 <= i < self.keys().len() && #[trigger] self.keys()[i] == a,
            forall|i: int| 0 <= i < self.keys().len() ==> (#[trigger] self.keys()[i]).len() == 20,
    {
        assert forall|i: int| 0 <= i < self.keys().len() implies self@.contains_key(
            #[trigger] self.keys()[i],
        ) && self@[self.keys()[i]] == self.values()[i] by {
            let a = self.keys()[i];
            assert(self.entries@[i].address@ == a);
            assert(self.contains(a));
            let p = self.position(a);
            if p < i {
                assert(be_value(self.entries@[p].address@) < be_value(self.entries@[i].address@));
            } else if i < p {
                assert(be_value(self.entries@[i].address@) < be_value(self.entries@[p].address@));
            }
        }
        assert forall|a: Seq<u8>| self@.contains_key(a) implies exists|i: int|
            0 <= i < self.keys().len() && #[trigger] self.keys()[i] == a by {
            let p = self.position(a);
            assert(self.keys()[p] == a);
        }
        assert forall|i: int, j: int| 0 <= i < j < self.keys().len() implies be_value(
            #[trigger] self.keys()[i],
        ) < be_value(#[trigger] self.keys()[j]) by {
            assert(be_value(self.entries@[i].address@) < be_value(self.entries@[j].address@));
        }
        assert forall|a: Seq<u8>| self.keys().contains(a) <==> self@.dom().contains(a) by {
            if self.keys().contains(a) {
                let i = self.keys().index_of(a);
                assert(self@.contains_key(self.keys()[i]));
            }
            if self@.dom().contains(a) {
                let p = self.position(a);
                assert(self.keys()[p] == a);
            }
        }
        assert(lists_in_order(self.keys(), self@.dom()));
        let chosen = sorted_keys(self@.dom());
        assert(lists_in_order(chosen, self@.dom()));
        lemma_increasing_unique(self.keys(), chosen);
    }

    /// The map has as many keys as entries are held.
    pub proof fn lemma_domain_size(&self)
        requires
            self.well_formed(),
        ensures
            self@.dom().finite(),
            self@.dom().len() == self.keys().len(),
    {
        self.lemma_keys_and_values();
        let keys = self.keys();
        assert(keys.no_duplicates()) by {
            assert forall|i: int, j: int| 0 <= i < keys.len() && 0 <= j < keys.len() && i
                != j implies keys[i] != keys[j] by {
                if i < j {
                    assert(be_value(keys[i]) < be_value(keys[j]));
                } else {
                    assert(be_value(keys[j]) < be_value(keys[i]));
                }
            }
        }
        keys.unique_seq_to_set();
        assert(keys.to_set() =~= self@.dom()) by {
            assert forall|a: Seq<u8>| keys.to_set().contains(a) <==> self@.dom().contains(a) by {
                if keys.to_set().contains(a) {
                    let i = choose|i: int| 0 <= i < keys.len() && keys[i] == a;
                    assert(self@.contains_key(keys[i]));
                }
                if self@.dom().contains(a) {
                    let i = choose|i: int| 0 <= i < keys.len() && #[trigger] keys[i] == a;
                    assert(keys.contains(a));
                }
            }
        }
    }

    /// An empty map.
    pub fn new() -> (m: AddressMap<V>)
        ensures
            m.well_formed(),
            m@ == Map::<Seq<u8>, V>::empty(),
            m.keys() == Seq::<Seq<u8>>::empty(),
    {
        let m = AddressMap { entries: Vec::new() };
        assert(m@ =~= Map::<Seq<u8>, V>::empty());
        assert(m.keys() =~= Seq::<Seq<u8>>::empty());
        m
    }

    /// The number of entries.
    pub fn len(&self) -> (n: usize)
        ensures
            n == self.keys().len(),
            n == self.values().len(),
    {
        self.entries.len()
    }

    /// The entry at position `i` in the order of the addresses.
    pub fn entry_at(&self, i: usize) -> (e: &Entry<V>)
        requires
            i < self.keys().len(),
        ensures
            e.address@ == self.keys()[i as int],
            e.value == self.values()[i as int],
    {
        &self.entries[i]
    }

    /// Where `address` is, or where it would have to go.
    fn search(&self, address: &Address) -> (r: (usize, bool))
        requires
            self.well_formed(),
        ensures
            r.0 <= self.entries@.len(),
            r.1 ==> r.0 < self.entries@.len() && self.entries@[r.0 as int].address@ == address@,
            !r.1 ==> !self.contains(address@),
            forall|j: int|
                0 <= j < r.0 ==> be_value((#[trigger] self.entries@[j]).address@) < be_value(
                    address@,
                ),
            !r.1 ==> forall|j: int|
                r.0 <= j < self.entries@.len() ==> be_value(address@) < be_value(
                    (#[trigger] self.entries@[j]).address@,
                ),
    {
        let mut i: usize = 0;
        while i < self.entries.len()
            invariant
                i <= self.entries@.len(),
                self.well_formed(),
                forall|j: int|
                    0 <= j < i ==> be_value((#[trigger] self.entries@[j]).address@) < be_value(
                        address@,
                    ),
            decreases self.entries@.len() - i,
        {
            let order = address_order(&self.entries[i].address, address);
            if order == 0 {
                return (i, true);
            }
            if order == 1 {
                assert forall|j: int| i <= j < self.entries@.len() implies be_value(address@)
                    < be_value((#[trigger] self.entries@[j]).address@) by {
                    if i < j {
                        assert(be_value(self.entries@[i as int].address@) < be_value(
                            self.entries@[j].address@,
                        ));
                    }
                }
                return (i, false);
            }
            i += 1;
        }
        (i, false)
    }

    /// The value held for `address`, if there is one.
    pub fn get(&self, address: &Address) -> (r: Option<&V>)
        ensures
            match r {
                Some(v) => self@.contains_key(address@) && self@[address@] == *v,
                None => !self@.contains_key(address@),
            },
    {
        proof {
            use_type_invariant(self);
        }
        let (i, found) = self.search(address);
        if found {
            proof {
                assert(self.contains(address@));
                let p = self.position(address@);
                if p < i {
                    assert(be_value(self.entries@[p].address@) < be_value(
                        self.entries@[i as int].address@,
                    ));
                } else if i < p {
                    assert(be_value(self.entries@[i as int].address@) < be_value(
                        self.entries@[p].address@,
                    ));
                }
            }
            Some(&self.entries[i].value)
        } else {
            None
        }
    }

    /// Whether a value is held for `address`.
    pub fn contains_key(&self, address: &Address) -> (r: bool)
        ensures
            r == self@.contains_key(address@),
    {
        proof {
            use_type_invariant(self);
        }
        self.search(address).1
    }

    /// Sets the value for `address`, in place of the one held before if there
    /// was one.
    pub fn insert(&mut self, address: Address, value: V)
        ensures
            final(self).well_formed(),
            final(self)@ == old(self)@.insert(address@, value),
    {
        proof {
            use_type_invariant(&*self);
        }
        let (i, found) = self.search(&address);
        let ghost before = self.entries@;
        let mut entries: Vec<Entry<V>> = Vec::new();
        std::mem::swap(&mut entries, &mut self.entries);
        if found {
            entries.set(i, Entry { address, value });
            proof {
                let after = entries@;
                assert forall|x: int, y: int| 0 <= x < y < after.len() implies be_value(
                    (#[trigger] after[x]).address@,
                ) < be_value((#[trigger] after[y]).address@) by {
                    assert(after[x].address@ == before[x].address@);
                    assert(after[y].address@ == before[y].address@);
                }
            }
        } else {
            entries.insert(i, Entry { address, value });
            proof {
                let after = entries@;
                assert forall|x: int, y: int| 0 <= x < y < after.len() implies be_value(
                    (#[trigger] after[x]).address@,
                ) < be_value((#[trigger] after[y]).address@) by {
                    let bx = if x < i { x } else { x - 1 };
                    let by = if y < i { y } else { y - 1 };
                    if x != i && y != i {
                        assert(after[x] == before[bx]);
                        assert(after[y] == before[by]);
                    } else if x == i {
                        assert(after[y] == before[by]);
                    } else {
                        assert(after[x] == before[bx]);
                    }
                }
            }
        }
        self.entries = entries;
        proof {
            let after = self.entries@;
            let old_map = old(self)@.insert(address@, value);
            assert forall|a: Seq<u8>| self.contains(a) <==> old_map.contains_key(a) by {
                if self.contains(a) {
                    let p = self.position(a);
                    if found {
                        if p != i {
                            assert(before[p].address@ == a);
                        }
                    } else {
                        if p < i {
                            assert(before[p].address@ == a);
                        } else if p > i {
                            assert(before[p - 1].address@ == a);
                        }
                    }
                }
                if old_map.contains_key(a) {
                    if a == address@ {
                        assert(after[i as int].address@ == a);
                    } else {
                        let p = old(self).position(a);
                        if found {
                            assert(after[p].address@ == a);
                        } else if p < i {
                            assert(after[p].address@ == a);
                        } else {
                            assert(after[p + 1].address@ == a);
                        }
                    }
                }
            }
            assert forall|a: Seq<u8>| self.contains(a) implies self@[a] == old_map[a] by {
                let p = self.position(a);
                if a == address@ {
                    if p < i {
                        assert(be_value(after[p].address@) < be_value(after[i as int].address@));
                    } else if i < p {
                        assert(be_value(after[i as int].address@) < be_value(after[p].address@));
                    }
                } else {
                    let q = old(self).position(a);
                    let q_after = if found || q < i { q } else { q + 1 };
                    assert(after[q_after] == before[q]);
                    if p < q_after {
                        assert(be_value(after[p].address@) < be_value(after[q_after].address@));
                    } else if q_after < p {
                        assert(be_value(after[q_after].address@) < be_value(after[p].address@));
                    }
                }
            }
            assert(self@ =~= old_map);
        }
    }
}

impl AddressMap<Account> {
    /// A copy of a map of accounts: the same addresses in the same order,
    /// each with a copy of its account.
    pub fn clone_with_accounts(&self) -> (r: AddressMap<Account>)
        ensures
            r.keys() == self.keys(),
            r@.map_values(|a: Account| a@) == self@.map_values(|a: Account| a@),
    {
        proof {
            use_type_invariant(self);
        }
        let mut entries: Vec<Entry<Account>> = Vec::new();
        let mut i: usize = 0;
        while i < self.entries.len()
            invariant
                i <= self.entries@.len(),
                entries@.len() == i,
                forall|j: int|
                    0 <= j < i ==> (#[trigger] entries@[j]).address == self.entries@[j].address
                        && entries@[j].value@ == self.entries@[j].value@,
            decreases self.entries@.len() - i,
        {
            let entry = &self.entries[i];
            entries.push(Entry { address: entry.address, value: entry.value.clone() });
            i += 1;
        }
        proof {
            use_type_invariant(self);
            assert forall|x: int, y: int| 0 <= x < y < entries@.len() implies be_value(
                (#[trigger] entries@[x]).address@,
            ) < be_value((#[trigger] entries@[y]).address@) by {
                assert(be_value(self.entries@[x].address@) < be_value(self.entries@[y].address@));
            }
        }
        let r = AddressMap { entries };
        proof {
            assert(r.keys() =~= self.keys());
            assert forall|a: Seq<u8>| r.contains(a) <==> self.contains(a) by {
                if r.contains(a) {
                    let p = r.position(a);
                    assert(self.entries@[p].address@ == a);
                }
                if self.contains(a) {
                    let p = self.position(a);
                    assert(r.entries@[p].address@ == a);
                }
            }
            let left = r@.map_values(|a: Account| a@);
            let right = self@.map_values(|a: Account| a@);
            assert forall|a: Seq<u8>| left.contains_key(a) implies left[a] == right[a] by {
                let p = r.position(a);
                let q = self.position(a);
                assert(r.entries@[q].address@ == a);
                assert(self.entries@[p].address@ == a);
                assert(r.entries@[p].value@ == self.entries@[p].value@);
                assert(r.entries@[q].value@ == self.entries@[q].value@);
                assert(left[a] == r.entries@[p].value@);
                assert(right[a] == self.entries@[q].value@);
                if p < q {
                    assert(be_value(self.entries@[p].address@) < be_value(
                        self.entries@[q].address@,
                    ));
                } else if q < p {
                    assert(be_value(self.entries@[q].address@) < be_value(
                        self.entries@[p].address@,
                    ));
                }
            }
            assert(left =~= right);
        }
        r
    }
}

} // verus!
