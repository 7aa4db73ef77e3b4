//! Collecting attestations. They arrive in any order; what is collected is
//! the same whatever the order, one attestation for each validator, kept in
//! the order of the validators' addresses.

use crate::address_map::{sorted_keys, AddressMap};
use crate::serialization::item_views;
use crate::types::{ValidatorSignature, ValidatorSignatureView};
use vstd::prelude::*;

verus! {

/// The attestations collected for one header.
pub struct AttestationPool {
    by_validator: AddressMap<ValidatorSignature>,
}

/// The attestations of a map in the order of the validators' addresses.
pub open spec fn in_address_order(attestations: Map<Seq<u8>, ValidatorSignatureView>) -> Seq<
    ValidatorSignatureView,
> {
    let keys = sorted_keys(attestations.dom());
    Seq::new(keys.len(), |i: int| attestations[keys[i]])
}

impl AttestationPool {
    /// The attestations collected, by the validator's address.
    pub closed spec fn view(&self) -> Map<Seq<u8>, ValidatorSignatureView> {
        self.by_validator@.map_values(|a: ValidatorSignature| a@)
    }

    /// A pool without attestations.
    pub fn new() -> (pool: AttestationPool)
        ensures
            pool@ == Map::<Seq<u8>, ValidatorSignatureView>::empty(),
    {
        let pool = AttestationPool { by_validator: AddressMap::new() };
        assert(pool@ =~= Map::<Seq<u8>, ValidatorSignatureView>::empty());
        pool
    }

    /// Takes an attestation in. One by the same validator that was taken in
    /// before gives way to it. Gives whether the validator is new to the pool.
    pub fn add(&mut self, attestation: ValidatorSignature) -> (fresh: bool)
        ensures
            fresh == !old(self)@.contains_key(attestation@.validator_address),
            final(self)@ == old(self)@.insert(attestation@.validator_address, attestation@),
    {
        let address = attestation.validator_address;
        let fresh = !self.by_validator.contains_key(&address);
        let ghost view = attestation@;
        self.by_validator.insert(address, attestation);
        assert(self@ =~= old(self)@.insert(view.validator_address, view));
        fresh
    }

    /// The number of validators that have attested.
    pub fn len(&self) -> (n: usize)
        ensures
            n == self@.dom().len(),
    {
        proof {
            use_type_invariant(&self.by_validator);
            self.by_validator.lemma_domain_size();
            assert(self@.dom() =~= self.by_validator@.dom());
        }
        self.by_validator.len()
    }

    /// The attestations collected, in the order of the validators'
    /// addresses: the order in which a block carries them.
    pub fn attestations(&self) -> (list: Vec<ValidatorSignature>)
        ensures
            item_views(list@) == in_address_order(self@),
    {
        proof {
            use_type_invariant(&self.by_validator);
            self.by_validator.lemma_keys_and_values();
            assert(self@.dom() =~= self.by_validator@.dom());
        }
        let n = self.by_validator.len();
        let mut list: Vec<ValidatorSignature> = Vec::new();
        let mut i: usize = 0;
        while i < n
            invariant
                i <= n,
                n == self.by_validator.keys().len(),
                list@.len() == i,
                forall|j: int|
                    0 <= j < i ==> (#[trigger] list@[j])@ == self.by_validator.values()[j]@,
            decreases n - i,
        {
            list.push(self.by_validator.entry_at(i).value.clone());
            i += 1;
        }
        proof {
            let ordered = in_address_order(self@);
            assert forall|j: int| 0 <= j < n implies #[trigger] item_views(list@)[j]
                == ordered[j] by {
                assert(self.by_validator@.contains_key(self.by_validator.keys()[j]));
                assert(item_views(list@)[j] == list@[j]@);
            }
            assert(item_views(list@) =~= ordered);
        }
        list
    }
}

/// Collecting is commutative: two attestations by different validators
/// leave the same collection, and so the same list, in whichever order
/// they are taken in.
pub proof fn lemma_collecting_commutes(
    collected: Map<Seq<u8>, ValidatorSignatureView>,
    a: ValidatorSignatureView,
    b: ValidatorSignatureView,
)
    requires
        a.validator_address != b.validator_address,
    ensures
        collected.insert(a.validator_address, a).insert(b.validator_address, b)
            == collected.insert(b.validator_address, b).insert(a.validator_address, a),
        in_address_order(collected.insert(a.validator_address, a).insert(b.validator_address, b))
            == in_address_order(
            collected.insert(b.validator_address, b).insert(a.validator_address, a),
        ),
{
    assert(collected.insert(a.validator_address, a).insert(b.validator_address, b)
        =~= collected.insert(b.validator_address, b).insert(a.validator_address, a));
}

} // verus!
