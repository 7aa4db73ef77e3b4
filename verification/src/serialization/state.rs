//! The canonical encoding of the world state: the accounts as a list in the
//! order of the addresses' bytes, then the global nonce, the state root and
//! the block number. Only a list in that order is accepted, so a state has
//! one encoding.

use super::{item_views, list_encodable, list_encoding, write_list, Canonical};
use crate::address_map::{
    address_order, be_value, lemma_increasing_unique, lists_in_order, sorted_keys,
    strictly_increasing, AddressMap,
};
use crate::types::{Account, AccountView, Address, BlockHash, WorldState, WorldStateView};
use vstd::prelude::*;

verus! {

/// One account with its address, as it stands in the list.
pub type AccountEntry = (Address, Account);

/// The addresses of the entries, in order.
pub open spec fn entry_keys(entries: Seq<(Seq<u8>, AccountView)>) -> Seq<Seq<u8>> {
    entries.map_values(|e: (Seq<u8>, AccountView)| e.0)
}

/// The accounts of a map as a list, in the order of the addresses' bytes.
pub open spec fn entries_of(accounts: Map<Seq<u8>, AccountView>) -> Seq<(Seq<u8>, AccountView)> {
    let keys = sorted_keys(accounts.dom());
    Seq::new(keys.len(), |i: int| (keys[i], accounts[keys[i]]))
}

/// A position in the list at which `address` stands, if it stands in it.
pub open spec fn entry_position(entries: Seq<(Seq<u8>, AccountView)>, address: Seq<u8>) -> int {
    choose|i: int| 0 <= i < entries.len() && (#[trigger] entries[i]).0 == address
}

/// The map that a list of entries stands for.
pub open spec fn map_of(entries: Seq<(Seq<u8>, AccountView)>) -> Map<Seq<u8>, AccountView> {
    Map::new(
        |a: Seq<u8>| exists|i: int| 0 <= i < entries.len() && (#[trigger] entries[i]).0 == a,
        |a: Seq<u8>| entries[entry_position(entries, a)].1,
    )
}

/// A list in order stands for a map whose list it is.
pub proof fn lemma_entries_of_map_of(entries: Seq<(Seq<u8>, AccountView)>)
    requires
        strictly_increasing(entry_keys(entries)),
    ensures
        lists_in_order(entry_keys(entries), map_of(entries).dom()),
        entries_of(map_of(entries)) == entries,
{
    let keys = entry_keys(entries);
    let m = map_of(entries);
    assert forall|a: Seq<u8>| keys.contains(a) <==> m.dom().contains(a) by {
        if keys.contains(a) {
            let i = keys.index_of(a);
            assert(entries[i].0 == a);
        }
        if m.dom().contains(a) {
            let i = entry_position(entries, a);
            assert(keys[i] == a);
        }
    }
    let chosen = sorted_keys(m.dom());
    assert(lists_in_order(keys, m.dom()));
    lemma_increasing_unique(keys, chosen);
    assert forall|i: int| 0 <= i < entries.len() implies #[trigger] entries_of(m)[i]
        == entries[i] by {
        let a = keys[i];
        assert(entries[i].0 == a);
        let c = entry_position(entries, a);
        if c < i {
            assert(be_value(keys[c]) < be_value(keys[i]));
        } else if i < c {
            assert(be_value(keys[i]) < be_value(keys[c]));
        }
        assert(c == i);
        assert(m.dom().contains(a));
        assert(m[a] == entries[c].1);
        assert(chosen[i] == a);
    }
    assert(entries_of(m) =~= entries);
}

/// A map whose keys can be listed in order is the map that its list stands for.
pub proof fn lemma_map_of_entries_of(accounts: Map<Seq<u8>, AccountView>)
    requires
        lists_in_order(sorted_keys(accounts.dom()), accounts.dom()),
    ensures
        strictly_increasing(entry_keys(entries_of(accounts))),
        entry_keys(entries_of(accounts)) == sorted_keys(accounts.dom()),
        map_of(entries_of(accounts)) == accounts,
{
    let keys = sorted_keys(accounts.dom());
    let entries = entries_of(accounts);
    assert(entry_keys(entries) =~= keys);
    let m = map_of(entries);
    assert forall|a: Seq<u8>| m.dom().contains(a) <==> accounts.dom().contains(a) by {
        if m.dom().contains(a) {
            let i = entry_position(entries, a);
            assert(keys[i] == a);
            assert(keys.contains(a));
        }
        if accounts.dom().contains(a) {
            assert(keys.contains(a));
            let i = keys.index_of(a);
            assert(entries[i].0 == a);
        }
    }
    assert forall|a: Seq<u8>| m.dom().contains(a) implies m[a] == accounts[a] by {
        let c = entry_position(entries, a);
        assert(entries[c].1 == accounts[keys[c]]);
    }
    assert(m =~= accounts);
}

/// A list in order with one more entry behind it stands for the map of the
/// list with that entry put in.
pub proof fn lemma_map_of_push(entries: Seq<(Seq<u8>, AccountView)>, last: (Seq<u8>, AccountView))
    requires
        strictly_increasing(entry_keys(entries.push(last))),
    ensures
        map_of(entries.push(last)) == map_of(entries).insert(last.0, last.1),
{
    let longer = entries.push(last);
    let keys = entry_keys(longer);
    let left = map_of(longer);
    let right = map_of(entries).insert(last.0, last.1);
    assert forall|a: Seq<u8>| left.dom().contains(a) <==> right.dom().contains(a) by {
        if left.dom().contains(a) {
            let i = entry_position(longer, a);
            if i < entries.len() {
                assert(entries[i].0 == a);
            }
        }
        if right.dom().contains(a) {
            if a == last.0 {
                assert(longer[entries.len() as int].0 == a);
            } else {
                let i = entry_position(entries, a);
                assert(longer[i].0 == a);
            }
        }
    }
    assert forall|a: Seq<u8>| left.dom().contains(a) implies left[a] == right[a] by {
        let c = entry_position(longer, a);
        let n = entries.len() as int;
        if a == last.0 {
            if c < n {
                assert(be_value(keys[c]) < be_value(keys[n]));
            }
        } else {
            let d = entry_position(entries, a);
            assert(longer[d].0 == a);
            if c < d {
                assert(be_value(keys[c]) < be_value(keys[d]));
            } else if d < c {
                assert(be_value(keys[d]) < be_value(keys[c]));
            }
        }
    }
    assert(left =~= right);
}

/// The accounts of a state as a list, in the order of the addresses' bytes.
pub fn account_entries(state: &WorldState) -> (entries: Vec<AccountEntry>)
    ensures
        item_views(entries@) == entries_of(state.account_views()),
        lists_in_order(
            sorted_keys(state.account_views().dom()),
            state.account_views().dom(),
        ),
        forall|i: int| 0 <= i < entries@.len() ==> (#[trigger] item_views(entries@)[i]).0.len() == 20,
{
    let ghost accounts = state.account_views();
    proof {
        use_type_invariant(&state.accounts);
        state.accounts.lemma_keys_and_values();
        assert(accounts.dom() =~= state.accounts@.dom());
    }
    let n = state.accounts.len();
    let mut entries: Vec<AccountEntry> = Vec::new();
    let mut i: usize = 0;
    while i < n
        invariant
            i <= n,
            n == state.accounts.keys().len(),
            entries@.len() == i,
            forall|j: int|
                0 <= j < i ==> (#[trigger] entries@[j])@ == (
                    state.accounts.keys()[j],
                    state.accounts.values()[j]@,
                ),
        decreases n - i,
    {
        let entry = state.accounts.entry_at(i);
        entries.push((entry.address, entry.value.clone()));
        i += 1;
    }
    proof {
        let listed = entries_of(accounts);
        assert forall|j: int| 0 <= j < n implies #[trigger] item_views(entries@)[j]
            == listed[j] by {
            assert(state.accounts@.contains_key(state.accounts.keys()[j]));
            assert(item_views(entries@)[j] == entries@[j]@);
        }
        assert(item_views(entries@) =~= listed);
    }
    entries
}

/// The map that a list of entries stands for, if the list is in order.
pub fn accounts_from_entries(entries: Vec<AccountEntry>) -> (r: Option<AddressMap<Account>>)
    ensures
        match r {
            Some(accounts) => strictly_increasing(entry_keys(item_views(entries@)))
                && accounts@.map_values(|a: Account| a@) == map_of(item_views(entries@)),
            None => !strictly_increasing(entry_keys(item_views(entries@))),
        },
{
    let ghost views = item_views(entries@);
    let mut accounts: AddressMap<Account> = AddressMap::new();
    let mut i: usize = 0;
    proof {
        assert(accounts@.map_values(|a: Account| a@) =~= map_of(views.subrange(0, 0)));
    }
    while i < entries.len()
        invariant
            i <= entries@.len(),
            views == item_views(entries@),
            accounts.well_formed(),
            strictly_increasing(entry_keys(views.subrange(0, i as int))),
            accounts@.map_values(|a: Account| a@) == map_of(views.subrange(0, i as int)),
        decreases entries@.len() - i,
    {
        let ghost prefix = views.subrange(0, i as int);
        let ghost longer = views.subrange(0, i + 1);
        proof {
            assert(views[i as int] == entries@[i as int]@);
            assert(longer =~= prefix.push(views[i as int]));
        }
        if i > 0 && address_order(&entries[i - 1].0, &entries[i].0) != -1 {
            proof {
                assert(views[i - 1] == entries@[i - 1]@);
                let keys = entry_keys(views);
                assert(keys[i - 1] == views[i - 1].0 && keys[i as int] == views[i as int].0);
                assert(!(be_value(keys[i - 1]) < be_value(keys[i as int])));
            }
            return None;
        }
        proof {
            let keys = entry_keys(longer);
            assert forall|x: int, y: int| 0 <= x < y < keys.len() implies be_value(
                #[trigger] keys[x],
            ) < be_value(#[trigger] keys[y]) by {
                let before = entry_keys(prefix);
                if y < i {
                    assert(be_value(before[x]) < be_value(before[y]));
                } else if x == i - 1 {
                    assert(keys[x] == views[i - 1].0);
                    assert(views[i - 1] == entries@[i - 1]@);
                } else {
                    assert(be_value(before[x]) < be_value(before[i - 1]));
                    assert(before[i - 1] == views[i - 1].0);
                    assert(views[i - 1] == entries@[i - 1]@);
                }
            }
            lemma_map_of_push(prefix, views[i as int]);
        }
        let ghost before_map = accounts@;
        let account = entries[i].1.clone();
        let ghost account_view = account@;
        accounts.insert(entries[i].0, account);
        proof {
            assert(accounts@.map_values(|a: Account| a@) =~= before_map.map_values(
                |a: Account| a@,
            ).insert(views[i as int].0, account_view));
        }
        i += 1;
    }
    assert(views.subrange(0, views.len() as int) =~= views);
    Some(accounts)
}

/// The parts of a state in the order in which they are written.
pub type WorldStateFields = (super::Items<AccountEntry>, (u64, (BlockHash, u64)));

impl Canonical for WorldState {
    open spec fn encodable(v: WorldStateView) -> bool {
        &&& lists_in_order(sorted_keys(v.accounts.dom()), v.accounts.dom())
        &&& list_encodable::<AccountEntry>(entries_of(v.accounts))
        &&& v.state_root.len() == 32
    }

    open spec fn encoding(v: WorldStateView) -> Seq<u8> {
        list_encoding::<AccountEntry>(entries_of(v.accounts)) + u64::encoding(v.global_nonce)
            + BlockHash::encoding(v.state_root) + u64::encoding(v.block_number)
    }

    open spec fn parse(b: Seq<u8>) -> Option<(WorldStateView, int)> {
        match <WorldStateFields as Canonical>::parse(b) {
            Some(((entries, (global_nonce, (state_root, block_number))), n)) => if strictly_increasing(
                entry_keys(entries),
            ) {
                Some(
                    (
                        WorldStateView {
                            accounts: map_of(entries),
                            global_nonce,
                            state_root,
                            block_number,
                        },
                        n,
                    ),
                )
            } else {
                None
            },
            None => None,
        }
    }

    proof fn lemma_parse_of_encoding(v: WorldStateView, rest: Seq<u8>) {
        let entries = entries_of(v.accounts);
        let f = (entries, (v.global_nonce, (v.state_root, v.block_number)));
        lemma_map_of_entries_of(v.accounts);
        assert(Self::encoding(v) =~= <WorldStateFields as Canonical>::encoding(f));
        <WorldStateFields as Canonical>::lemma_parse_of_encoding(f, rest);
    }

    proof fn lemma_encoding_of_parse(b: Seq<u8>) {
        <WorldStateFields as Canonical>::lemma_encoding_of_parse(b);
        if let Some((f, n)) = <WorldStateFields as Canonical>::parse(b) {
            let (entries, (global_nonce, (state_root, block_number))) = f;
            if strictly_increasing(entry_keys(entries)) {
                lemma_entries_of_map_of(entries);
                let v = WorldStateView {
                    accounts: map_of(entries),
                    global_nonce,
                    state_root,
                    block_number,
                };
                assert(sorted_keys(v.accounts.dom()) == entry_keys(entries)) by {
                    lemma_increasing_unique(entry_keys(entries), sorted_keys(v.accounts.dom()));
                }
                assert(Self::encoding(v) =~= <WorldStateFields as Canonical>::encoding(f));
            }
        }
    }

    fn write(&self, out: &mut Vec<u8>) {
        let entries = account_entries(self);
        write_list(&entries, out);
        self.global_nonce.write(out);
        self.state_root.write(out);
        self.block_number.write(out);
        assert(out@ =~= old(out)@ + Self::encoding(self@));
    }

    fn read(data: &[u8], pos: usize) -> (r: Option<(WorldState, usize)>) {
        match <WorldStateFields as Canonical>::read(data, pos) {
            None => None,
            Some(((entries, (global_nonce, (state_root, block_number))), next)) => {
                match accounts_from_entries(entries.0) {
                    None => None,
                    Some(accounts) => Some(
                        (WorldState { accounts, global_nonce, state_root, block_number }, next),
                    ),
                }
            },
        }
    }
}

} // verus!
