//! The kitties module: its storage, its errors and events, and the calls that
//! create, breed, trade and bury kitties.
//!
//! Account ids and balances are `u64`, kitty ids are `u32` and block numbers
//! are `u64`.
use crate::dna::{mix_dna, spec_mix_dna};
use crate::hashing::{low_u32_of_be, low_u32_of_be_bytes, random_value, spec_random_value};
use crate::linked_item::{
    LinkedItem, LinkedList, lemma_without_absent, lemma_without_all_contains, lemma_without_all_none,
    lemma_without_all_push, lemma_without_contains, without, without_all,
};
use std::collections::HashMap;
use vstd::prelude::*;

verus! {

broadcast use vstd::std_specs::hash::group_hash_axioms;

/// A kitty: its DNA, how many blocks it lives, and the block it was born in.
#[derive(Clone, Copy, Debug, PartialEq, Eq)]
pub struct Kitty {
    pub dna: [u8; 16],
    pub lifespan: u64,
    pub birthday: u64,
}

/// The block in which `kitty` dies.
pub open spec fn death_block(kitty: Kitty) -> int {
    kitty.birthday + kitty.lifespan
}

/// The constants a runtime sets for this module, in blocks.
#[derive(Clone, Copy, Debug, PartialEq, Eq)]
pub struct Config {
    /// The oldest age at which a kitty may breed.
    pub max_breeding_age: u64,
    /// The youngest age at which a kitty may breed.
    pub min_breeding_age: u64,
    /// The bound (exclusive) of the random part of a lifespan.
    pub max_lifespan_delta: u64,
}

impl Config {
    /// Lifespans can be computed: the random part has a non-zero bound and
    /// the two breeding ages add up within a block number.
    pub open spec fn lifespans_computable(&self) -> bool {
        &&& self.max_lifespan_delta > 0
        &&& self.max_breeding_age + self.min_breeding_age <= u64::MAX
    }
}

/// The lifespan drawn from the random value `r`: the mean of the two breeding
/// ages plus the low 32 bits of `r` (read big-endian) modulo the delta.
pub open spec fn spec_lifespan(config: Config, r: Seq<u8>) -> int {
    (config.max_breeding_age + config.min_breeding_age) / 2
        + low_u32_of_be(r) as int % config.max_lifespan_delta as int
}

/// A lifespan fits in a block number once the breeding ages add up in one.
pub proof fn lemma_lifespan_fits(config: Config, r: Seq<u8>)
    requires
        config.lifespans_computable(),
    ensures
        0 <= spec_lifespan(config, r) <= u64::MAX,
{
    let low = low_u32_of_be(r) as int;
    let d = config.max_lifespan_delta as int;
    assert(0 <= low % d <= low) by (nonlinear_arith)
        requires
            0 <= low,
            0 < d,
    ;
}

/// Computes the lifespan drawn from the random value `r`.
pub fn lifespan_from_random(config: &Config, r: &[u8; 16]) -> (l: u64)
    requires
        config.lifespans_computable(),
    ensures
        l == spec_lifespan(*config, r@),
{
    proof {
        lemma_lifespan_fits(*config, r@);
    }
    let ran = low_u32_of_be_bytes(r) as u64;
    (config.max_breeding_age + config.min_breeding_age) / 2 + ran % config.max_lifespan_delta
}

/// The errors of this module, in the order that gives each its code.
#[derive(Clone, Copy, Debug, PartialEq, Eq)]
pub enum Error {
    RequiresOwner,
    InvalidKittyId,
    KittyNotForSale,
    PriceTooLow,
    KittiesIdOverflow,
    RequiresDifferentParents,
    Kitty1TooYoung,
    Kitty1TooOld,
    Kitty2TooYoung,
    Kitty2TooOld,
}

impl Error {
    /// The position of the error in the declaration, from 0.
    pub open spec fn spec_code(&self) -> u8 {
        match self {
            Error::RequiresOwner => 0,
            Error::InvalidKittyId => 1,
            Error::KittyNotForSale => 2,
            Error::PriceTooLow => 3,
            Error::KittiesIdOverflow => 4,
            Error::RequiresDifferentParents => 5,
            Error::Kitty1TooYoung => 6,
            Error::Kitty1TooOld => 7,
            Error::Kitty2TooYoung => 8,
            Error::Kitty2TooOld => 9,
        }
    }

    /// The error's code: its position in the declaration, from 0.
    pub fn code(&self) -> (c: u8)
        ensures
            c == self.spec_code(),
    {
        match self {
            Error::RequiresOwner => 0,
            Error::InvalidKittyId => 1,
            Error::KittyNotForSale => 2,
            Error::PriceTooLow => 3,
            Error::KittiesIdOverflow => 4,
            Error::RequiresDifferentParents => 5,
            Error::Kitty1TooYoung => 6,
            Error::Kitty1TooOld => 7,
            Error::Kitty2TooYoung => 8,
            Error::Kitty2TooOld => 9,
        }
    }

    /// The error's name.
    pub fn name(&self) -> (s: &'static str)
        ensures
            s@ == match self {
                Error::RequiresOwner => "RequiresOwner"@,
                Error::InvalidKittyId => "InvalidKittyId"@,
                Error::KittyNotForSale => "KittyNotForSale"@,
                Error::PriceTooLow => "PriceTooLow"@,
                Error::KittiesIdOverflow => "KittiesIdOverflow"@,
                Error::RequiresDifferentParents => "RequiresDifferentParents"@,
                Error::Kitty1TooYoung => "Kitty1TooYoung"@,
                Error::Kitty1TooOld => "Kitty1TooOld"@,
                Error::Kitty2TooYoung => "Kitty2TooYoung"@,
                Error::Kitty2TooOld => "Kitty2TooOld"@,
            },
    {
        match self {
            Error::RequiresOwner => "RequiresOwner",
            Error::InvalidKittyId => "InvalidKittyId",
            Error::KittyNotForSale => "KittyNotForSale",
            Error::PriceTooLow => "PriceTooLow",
            Error::KittiesIdOverflow => "KittiesIdOverflow",
            Error::RequiresDifferentParents => "RequiresDifferentParents",
            Error::Kitty1TooYoung => "Kitty1TooYoung",
            Error::Kitty1TooOld => "Kitty1TooOld",
            Error::Kitty2TooYoung => "Kitty2TooYoung",
            Error::Kitty2TooOld => "Kitty2TooOld",
        }
    }
}

/// Why a call failed.
#[derive(Clone, Copy, Debug, PartialEq, Eq)]
pub enum DispatchError {
    /// An error of this module.
    Module(Error),
    /// The call was not signed by an account.
    BadOrigin,
    /// An error raised outside this module, such as by the currency.
    Other(&'static str),
}

/// Who makes a call.
#[derive(Clone, Copy, Debug, PartialEq, Eq)]
pub enum Origin {
    Signed(u64),
    Root,
    Unsigned,
}

/// The account that signed a call, or `BadOrigin`.
pub fn ensure_signed(origin: Origin) -> (r: Result<u64, DispatchError>)
    ensures
        r == match origin {
            Origin::Signed(a) => Ok::<u64, DispatchError>(a),
            _ => Err(DispatchError::BadOrigin),
        },
{
    match origin {
        Origin::Signed(a) => Ok(a),
        _ => Err(DispatchError::BadOrigin),
    }
}

/// What this module reports.
#[derive(Clone, Copy, Debug, PartialEq, Eq)]
pub enum Event {
    /// A kitty is created: (owner, kitty id).
    Created(u64, u32),
    /// A kitty is transferred: (from, to, kitty id).
    Transferred(u64, u64, u32),
    /// A kitty is offered for sale, or withdrawn with `None`: (owner, kitty id, price).
    Ask(u64, u32, Option<u64>),
    /// A kitty is sold: (from, to, kitty id, price).
    Sold(u64, u64, u32, u64),
    /// A kitty died: (owner, kitty id).
    Died(u64, u32),
}

/// What the runtime supplies to this module: moving balance between accounts.
///
/// Each runtime says through `transfer_spec` what its transfer does; this
/// module relies on nothing more than that relation.
pub trait Trait: Sized {
    /// `after` and `r` are a state and result that moving `value` from `from`
    /// to `to` may lead to from `self`.
    spec fn transfer_spec(&self, from: u64, to: u64, value: u64, after: Self, r: Result<(), DispatchError>) -> bool;

    /// Moves `value` from `from` to `to`, keeping `from` alive, or fails.
    fn transfer(&mut self, from: u64, to: u64, value: u64) -> (r: Result<(), DispatchError>)
        ensures
            old(self).transfer_spec(from, to, value, *final(self), r),
    ;
}

/// The state of the module as plain values.
pub struct KittiesView {
    pub config: Config,
    /// Every living kitty by id.
    pub kitties: Map<u32, Kitty>,
    /// How many kitties live.
    pub kitties_count: u32,
    /// The id the next kitty gets.
    pub next_kitty_id: u32,
    /// For each block, the kitties that die in it, in the order they were born.
    pub tombs: Map<u64, Seq<u32>>,
    /// The list of kitties of each owner.
    pub owned_kitties: LinkedList,
    /// The owner of each kitty.
    pub kitty_owners: Map<u32, u64>,
    /// The price of each kitty for sale.
    pub kitty_prices: Map<u32, u64>,
    /// The current block.
    pub block_number: u64,
    /// The index of the current extrinsic in its block, if any.
    pub extrinsic_index: Option<u32>,
    /// The current random seed.
    pub random_seed: [u8; 32],
    /// The events reported, oldest first.
    pub events: Seq<Event>,
}

impl KittiesView {
    /// The kitties that die in block `b`.
    pub open spec fn tomb(&self, b: u64) -> Seq<u32> {
        if self.tombs.contains_key(b) {
            self.tombs[b]
        } else {
            Seq::empty()
        }
    }

    /// The kitties of `account`, in the order they came to it.
    pub open spec fn owned(&self, account: u64) -> Seq<u32> {
        self.owned_kitties.list(account)
    }

    /// The storage agrees with itself: the lists, owners, prices, count and
    /// tombs all describe the same set of living kitties.
    pub open spec fn consistent(&self) -> bool {
        &&& self.owned_kitties.wf()
        &&& self.kitties.dom() == self.kitty_owners.dom()
        &&& self.kitty_prices.dom().subset_of(self.kitties.dom())
        &&& self.kitties.dom().finite()
        &&& self.kitties_count == self.kitties.dom().len()
        &&& forall|id: u32| #[trigger] self.kitties.contains_key(id) ==> death_block(self.kitties[id]) <= u64::MAX
        &&& forall|a: u64, id: u32| #[trigger] self.owned(a).contains(id)
            <==> (self.kitty_owners.contains_key(id) && self.kitty_owners[id] == a)
        &&& forall|b: u64| #[trigger] self.tombs.contains_key(b) ==> self.tombs[b].len() > 0
        &&& forall|b: u64| #[trigger] self.tomb(b).no_duplicates()
        &&& forall|b: u64, id: u32| #[trigger] self.tomb(b).contains(id)
            <==> (self.kitties.contains_key(id) && death_block(self.kitties[id]) == b)
    }

    /// Every living kitty's id is below the id the next kitty gets.
    pub open spec fn ids_below_next(&self) -> bool {
        forall|id: u32| #[trigger] self.kitties.contains_key(id) ==> id < self.next_kitty_id
    }

    /// The invariant of the module: a consistent storage whose ids in use
    /// are all below the next id.
    pub open spec fn wf(&self) -> bool {
        &&& self.consistent()
        &&& self.ids_below_next()
    }

    /// Who a purchase of kitty `id` offering `price` pays and how much: the
    /// owner and the asked price, or why the kitty cannot be bought.
    pub open spec fn buy_terms(&self, id: u32, price: u64) -> Result<(u64, u64), DispatchError> {
        if !self.kitty_owners.contains_key(id) {
            Err(DispatchError::Module(Error::InvalidKittyId))
        } else if !self.kitty_prices.contains_key(id) {
            Err(DispatchError::Module(Error::KittyNotForSale))
        } else if price < self.kitty_prices[id] {
            Err(DispatchError::Module(Error::PriceTooLow))
        } else {
            Ok((self.kitty_owners[id], self.kitty_prices[id]))
        }
    }

    /// Why two kitties of the given birthdays may not breed now, if they may
    /// not: each must be at least the youngest and at most the oldest
    /// breeding age, the first kitty checked first.
    pub open spec fn age_check(&self, birthday1: u64, birthday2: u64) -> Result<(), DispatchError> {
        let age1 = self.block_number - birthday1;
        let age2 = self.block_number - birthday2;
        if age1 < self.config.min_breeding_age {
            Err(DispatchError::Module(Error::Kitty1TooYoung))
        } else if age1 > self.config.max_breeding_age {
            Err(DispatchError::Module(Error::Kitty1TooOld))
        } else if age2 < self.config.min_breeding_age {
            Err(DispatchError::Module(Error::Kitty2TooYoung))
        } else if age2 > self.config.max_breeding_age {
            Err(DispatchError::Module(Error::Kitty2TooOld))
        } else {
            Ok(())
        }
    }

    /// `account` owns kitty `id`.
    pub open spec fn is_owner(&self, account: u64, id: u32) -> bool {
        self.kitty_owners.contains_key(id) && self.kitty_owners[id] == account
    }

    /// The checks before `sender` breeds `id1` with `id2` reach the ages.
    pub open spec fn breed_reaches_ages(&self, sender: u64, id1: u32, id2: u32) -> bool {
        &&& self.kitties.contains_key(id1)
        &&& self.kitties.contains_key(id2)
        &&& id1 != id2
        &&& self.is_owner(sender, id1)
        &&& self.is_owner(sender, id2)
    }

    /// Why `sender` may not breed kitties `id1` and `id2`, if so: both must
    /// exist, differ, belong to `sender`, be of breeding age, and an id must
    /// be left for the child.
    pub open spec fn breed_check(&self, sender: u64, id1: u32, id2: u32) -> Result<(), DispatchError> {
        if !self.kitties.contains_key(id1) || !self.kitties.contains_key(id2) {
            Err(DispatchError::Module(Error::InvalidKittyId))
        } else if id1 == id2 {
            Err(DispatchError::Module(Error::RequiresDifferentParents))
        } else if !self.is_owner(sender, id1) || !self.is_owner(sender, id2) {
            Err(DispatchError::Module(Error::RequiresOwner))
        } else if self.age_check(self.kitties[id1].birthday, self.kitties[id2].birthday) is Err {
            self.age_check(self.kitties[id1].birthday, self.kitties[id2].birthday)
        } else if self.next_kitty_id == u32::MAX {
            Err(DispatchError::Module(Error::KittiesIdOverflow))
        } else {
            Ok(())
        }
    }

    /// No parent that a breed by `sender` would weigh was born after the
    /// current block.
    pub open spec fn parents_born_by_now(&self, sender: u64, id1: u32, id2: u32) -> bool {
        self.breed_reaches_ages(sender, id1, id2) ==> {
            &&& self.kitties[id1].birthday <= self.block_number
            &&& self.kitties[id2].birthday <= self.block_number
        }
    }

    /// The lifespan of a kitty born now to `owner`.
    pub open spec fn lifespan_for(&self, owner: u64) -> int {
        spec_lifespan(
            self.config,
            spec_random_value(self.random_seed@, owner, self.extrinsic_index, self.block_number),
        )
    }

    /// A kitty can be born now to `owner`: its lifespan can be computed and
    /// its death block fits in a block number.
    pub open spec fn birth_fits(&self, owner: u64) -> bool {
        &&& self.config.lifespans_computable()
        &&& self.block_number + self.lifespan_for(owner) <= u64::MAX
    }

    /// The kitty that is born now for `owner` with `dna`.
    pub open spec fn newborn(&self, owner: u64, dna: [u8; 16]) -> Kitty {
        Kitty {
            dna,
            lifespan: self.lifespan_for(owner) as u64,
            birthday: self.block_number,
        }
    }
}

/// The invariant depends on the stored kitties, lists, owners, prices, count
/// and tombs, and on the next id only through the bound on the ids in use.
proof fn lemma_wf_frame(v1: KittiesView, v2: KittiesView)
    requires
        v1.wf(),
        v2.kitties == v1.kitties,
        v2.kitties_count == v1.kitties_count,
        v2.tombs == v1.tombs,
        v2.owned_kitties == v1.owned_kitties,
        v2.kitty_owners == v1.kitty_owners,
        v2.kitty_prices.dom().subset_of(v2.kitties.dom()),
        forall|id: u32| #[trigger] v1.kitties.contains_key(id) ==> id < v2.next_kitty_id,
    ensures
        v2.wf(),
{
    assert forall|a: u64, id: u32| #[trigger] v2.owned(a).contains(id)
        <==> (v2.kitty_owners.contains_key(id) && v2.kitty_owners[id] == a) by {
        assert(v2.owned(a) == v1.owned(a));
        if v1.owned(a).contains(id) {
        }
    }
    assert forall|b: u64| #[trigger] v2.tomb(b).no_duplicates() by {
        assert(v2.tomb(b) == v1.tomb(b));
    }
    assert forall|b: u64, id: u32| #[trigger] v2.tomb(b).contains(id)
        <==> (v2.kitties.contains_key(id) && death_block(v2.kitties[id]) == b) by {
        assert(v2.tomb(b) == v1.tomb(b));
        if v1.tomb(b).contains(id) {
        }
    }
}

/// A set of ids below `bound` that misses one of them has fewer than `bound`
/// members.
proof fn lemma_ids_below(ids: Set<u32>, missing: u32, bound: u32)
    requires
        ids.finite(),
        forall|id: u32| #[trigger] ids.contains(id) ==> id < bound,
        !ids.contains(missing),
        missing < bound,
    ensures
        ids.len() < bound,
{
    let range = <u32 as vstd::set_lib::FiniteRange>::range_set(0u32, bound);
    vstd::set_lib::range_set_properties::<u32>(0u32, bound);
    assert(ids.insert(missing).subset_of(range));
    vstd::set_lib::lemma_len_subset(ids.insert(missing), range);
}

/// The view after a kitty `k` with a fresh id is born to `owner`.
pub open spec fn after_birth(v: KittiesView, owned_kitties: LinkedList, owner: u64, id: u32, k: Kitty) -> KittiesView {
    let d = death_block(k) as u64;
    KittiesView {
        kitties: v.kitties.insert(id, k),
        kitties_count: (v.kitties_count + 1) as u32,
        tombs: v.tombs.insert(d, v.tomb(d).push(id)),
        owned_kitties,
        kitty_owners: v.kitty_owners.insert(id, owner),
        ..v
    }
}

/// `v2` is `v1` after kitty `id` was born to `owner` with DNA `dna` under the
/// next id: the id is taken and the kitty is stored, counted, listed and
/// booked for death. The events are left to the caller to state.
pub open spec fn born(v1: KittiesView, v2: KittiesView, owner: u64, id: u32, dna: Seq<u8>) -> bool {
    &&& v1.next_kitty_id == id
    &&& v2.kitties.contains_key(id)
    &&& v2.kitties[id].dna@ == dna
    &&& (KittiesView { events: v1.events, ..v2 }) == after_birth(
        KittiesView { next_kitty_id: (id + 1) as u32, ..v1 },
        v2.owned_kitties,
        owner,
        id,
        v1.newborn(owner, v2.kitties[id].dna),
    )
    &&& v2.owned(owner) == v1.owned(owner).push(id)
    &&& v2.owned_kitties.entry(owner, None) is Some
    &&& forall|b: u64| b != owner ==> #[trigger] v2.owned(b) == v1.owned(b)
    &&& forall|b: u64, y: Option<u32>| b != owner
        ==> #[trigger] v2.owned_kitties.entry(b, y) == v1.owned_kitties.entry(b, y)
}

/// The events reporting the deaths of `ids`, with the owners they had in `v`.
pub open spec fn death_events(v: KittiesView, ids: Seq<u32>) -> Seq<Event> {
    ids.map_values(|id: u32| Event::Died(v.kitty_owners[id], id))
}

/// The owners that `ids` had in `v`.
pub open spec fn owners_of(v: KittiesView, ids: Seq<u32>) -> Seq<u64> {
    ids.map_values(|id: u32| v.kitty_owners[id])
}

/// `v2` is `v1` after the kitties booked to die in block `n` died: they are
/// gone from the storage and from their owners' lists, uncounted, their tomb
/// is cleared, and each death is reported in the order of the tomb, which is
/// the order in which the dying kitties were born. (A runtime that keeps the
/// tomb in hashed storage walks it by its hashed keys, and so may report the
/// deaths of one block in another order; the set of deaths is the same.)
pub open spec fn buried(v1: KittiesView, v2: KittiesView, n: u64) -> bool {
    let dying = v1.tomb(n);
    let gone = dying.to_set();
    &&& v2 == (KittiesView {
        kitties: v1.kitties.remove_keys(gone),
        kitties_count: (v1.kitties_count - dying.len()) as u32,
        tombs: v1.tombs.remove(n),
        owned_kitties: v2.owned_kitties,
        kitty_owners: v1.kitty_owners.remove_keys(gone),
        kitty_prices: v1.kitty_prices.remove_keys(gone),
        events: v1.events + death_events(v1, dying),
        ..v1
    })
    &&& forall|a: u64| #[trigger] v2.owned(a) == without_all(v1.owned(a), dying)
    &&& forall|b: u64| #[trigger] owners_of(v1, dying).contains(b) ==> v2.owned_kitties.entry(b, None) is Some
    &&& forall|b: u64, y: Option<u32>| !owners_of(v1, dying).contains(b)
        ==> #[trigger] v2.owned_kitties.entry(b, y) == v1.owned_kitties.entry(b, y)
}

/// A burial keeps the invariant.
proof fn lemma_burial_wf(v1: KittiesView, v2: KittiesView, n: u64)
    requires
        v1.wf(),
        v2.owned_kitties.wf(),
        v2.kitties_count == v2.kitties.dom().len(),
        buried(v1, v2, n),
    ensures
        v2.wf(),
{
    let dying = v1.tomb(n);
    let gone = dying.to_set();
    assert(v2.kitties.dom() =~= v2.kitty_owners.dom());
    assert(v2.kitties.dom().subset_of(v1.kitties.dom()));
    vstd::set_lib::lemma_set_subset_finite(v1.kitties.dom(), v2.kitties.dom());
    assert forall|a: u64, x: u32| #[trigger] v2.owned(a).contains(x)
        <==> (v2.kitty_owners.contains_key(x) && v2.kitty_owners[x] == a) by {
        lemma_without_all_contains(v1.owned(a), dying, x);
        assert(v1.owned(a).contains(x) <==> (v1.kitty_owners.contains_key(x) && v1.kitty_owners[x] == a));
    }
    assert forall|b: u64| #[trigger] v2.tombs.contains_key(b) implies v2.tombs[b].len() > 0 by {
        assert(v1.tombs.contains_key(b));
    }
    assert forall|b: u64| #[trigger] v2.tomb(b).no_duplicates() by {
        if b != n {
            assert(v2.tomb(b) == v1.tomb(b));
        } else {
            assert(v2.tomb(b) =~= Seq::<u32>::empty());
        }
    }
    assert forall|b: u64, x: u32| #[trigger] v2.tomb(b).contains(x)
        <==> (v2.kitties.contains_key(x) && death_block(v2.kitties[x]) == b) by {
        if b != n {
            assert(v2.tomb(b) == v1.tomb(b));
            if v1.tomb(b).contains(x) {
                assert(v1.kitties.contains_key(x) && death_block(v1.kitties[x]) == b);
                if gone.contains(x) {
                    assert(dying.contains(x));
                    assert(death_block(v1.kitties[x]) == n);
                }
            }
        } else {
            assert(v2.tomb(b) =~= Seq::<u32>::empty());
            if v2.kitties.contains_key(x) && death_block(v2.kitties[x]) == b {
                assert(v1.tomb(n).contains(x));
                assert(gone.contains(x));
            }
        }
    }
}

/// Whether a birth happened does not depend on the events.
proof fn lemma_born_events(v1: KittiesView, v2: KittiesView, v3: KittiesView, owner: u64, id: u32, dna: Seq<u8>)
    requires
        born(v1, v2, owner, id, dna),
        v3 == (KittiesView { events: v3.events, ..v2 }),
    ensures
        born(v1, v3, owner, id, dna),
{
    assert forall|b: u64| b != owner implies #[trigger] v3.owned(b) == v1.owned(b) by {
        assert(v3.owned(b) == v2.owned(b));
    }
    assert forall|b: u64, y: Option<u32>| b != owner
        implies #[trigger] v3.owned_kitties.entry(b, y) == v1.owned_kitties.entry(b, y) by {
        assert(v3.owned_kitties.entry(b, y) == v2.owned_kitties.entry(b, y));
    }
}

/// A birth keeps the invariant.
proof fn lemma_birth_wf(v1: KittiesView, v2: KittiesView, owner: u64, id: u32, k: Kitty)
    requires
        v1.consistent(),
        !v1.kitties.contains_key(id),
        death_block(k) <= u64::MAX,
        v1.kitties_count + 1 <= u32::MAX,
        v2 == after_birth(v1, v2.owned_kitties, owner, id, k),
        v2.owned_kitties.wf(),
        v2.owned(owner) == v1.owned(owner).push(id),
        forall|b: u64| b != owner ==> #[trigger] v2.owned(b) == v1.owned(b),
    ensures
        v2.consistent(),
        v1.ids_below_next() && id < v1.next_kitty_id ==> v2.ids_below_next(),
{
    let d = death_block(k) as u64;
    assert(v2.kitties.dom() =~= v2.kitty_owners.dom());
    assert(v2.kitties.dom() == v1.kitties.dom().insert(id));
    assert forall|x: u32| #[trigger] v2.kitties.contains_key(x) implies death_block(v2.kitties[x]) <= u64::MAX by {
        if x != id {
            assert(v1.kitties.contains_key(x));
        }
    }
    assert forall|a: u64, x: u32| #[trigger] v2.owned(a).contains(x)
        <==> (v2.kitty_owners.contains_key(x) && v2.kitty_owners[x] == a) by {
        if a == owner {
            if v2.owned(a).contains(x) {
                let j = choose|j: int| 0 <= j < v2.owned(a).len() && v2.owned(a)[j] == x;
                if j < v1.owned(a).len() {
                    assert(v1.owned(a)[j] == x);
                    assert(v1.owned(a).contains(x));
                }
            }
            if v2.kitty_owners.contains_key(x) && v2.kitty_owners[x] == a {
                if x == id {
                    assert(v2.owned(a)[v1.owned(a).len() as int] == id);
                } else {
                    assert(v1.owned(a).contains(x));
                    let j = choose|j: int| 0 <= j < v1.owned(a).len() && v1.owned(a)[j] == x;
                    assert(v2.owned(a)[j] == x);
                }
            }
        } else {
            assert(v2.owned(a) == v1.owned(a));
            if x == id {
                assert(!v1.owned(a).contains(id));
            }
        }
    }
    assert forall|b: u64| #[trigger] v2.tombs.contains_key(b) implies v2.tombs[b].len() > 0 by {
        if b != d {
            assert(v1.tombs.contains_key(b));
        }
    }
    assert forall|b: u64| #[trigger] v2.tomb(b).no_duplicates() by {
        if b == d {
            let t = v1.tomb(d);
            assert(v2.tomb(b) == t.push(id));
            assert(!t.contains(id));
            assert(t.no_duplicates());
            assert forall|i: int, j: int| 0 <= i < t.len() + 1 && 0 <= j < t.len() + 1 && i != j
                implies t.push(id)[i] != t.push(id)[j] by {
                if i < t.len() && j < t.len() {
                } else if i == t.len() {
                    assert(t.contains(t[j]));
                } else {
                    assert(t.contains(t[i]));
                }
            }
        } else {
            assert(v2.tomb(b) == v1.tomb(b));
        }
    }
    assert forall|b: u64, x: u32| #[trigger] v2.tomb(b).contains(x)
        <==> (v2.kitties.contains_key(x) && death_block(v2.kitties[x]) == b) by {
        if b == d {
            let t = v1.tomb(d);
            assert(v2.tomb(b) == t.push(id));
            if t.push(id).contains(x) {
                let j = choose|j: int| 0 <= j < t.len() + 1 && t.push(id)[j] == x;
                if j < t.len() {
                    assert(t[j] == x);
                    assert(t.contains(x));
                }
            }
            if v2.kitties.contains_key(x) && death_block(v2.kitties[x]) == b {
                if x == id {
                    assert(t.push(id)[t.len() as int] == id);
                } else {
                    assert(t.contains(x));
                    let j = choose|j: int| 0 <= j < t.len() && t[j] == x;
                    assert(t.push(id)[j] == x);
                }
            }
        } else {
            assert(v2.tomb(b) == v1.tomb(b));
            if x == id {
                assert(!v1.tomb(b).contains(id));
            }
        }
    }
}

/// `v2` is `v1` after kitty `id` moved to `to`: the kitty is taken out of
/// every list and appended to that of `to`, and `to` owns it. The events are
/// left to the caller to state.
pub open spec fn transferred(v1: KittiesView, v2: KittiesView, from: u64, to: u64, id: u32) -> bool {
    &&& (KittiesView { events: v1.events, ..v2 }) == (KittiesView {
        owned_kitties: v2.owned_kitties,
        kitty_owners: v1.kitty_owners.insert(id, to),
        ..v1
    })
    &&& v2.owned(to) == without(v1.owned(to), id).push(id)
    &&& forall|a: u64| a != to ==> #[trigger] v2.owned(a) == without(v1.owned(a), id)
    &&& v2.owned_kitties.entry(from, None) is Some
    &&& v2.owned_kitties.entry(to, None) is Some
    &&& forall|b: u64, y: Option<u32>| b != from && b != to
        ==> #[trigger] v2.owned_kitties.entry(b, y) == v1.owned_kitties.entry(b, y)
}

/// `v2` is `v1` after kitty `id` was sold by its owner `owner` to `buyer` for
/// `price`: it is transferred, no longer for sale, and the sale is reported.
pub open spec fn sold(v1: KittiesView, v2: KittiesView, owner: u64, buyer: u64, id: u32, price: u64) -> bool {
    &&& transferred(KittiesView { kitty_prices: v1.kitty_prices.remove(id), ..v1 }, v2, owner, buyer, id)
    &&& v2.events == v1.events.push(Event::Sold(owner, buyer, id, price))
}

/// Whether a transfer happened does not depend on the events.
proof fn lemma_transferred_events(v1: KittiesView, v2: KittiesView, v3: KittiesView, from: u64, to: u64, id: u32)
    requires
        transferred(v1, v2, from, to, id),
        v3 == (KittiesView { events: v3.events, ..v2 }),
    ensures
        transferred(v1, v3, from, to, id),
{
    assert forall|a: u64| a != to implies #[trigger] v3.owned(a) == without(v1.owned(a), id) by {
        assert(v3.owned(a) == v2.owned(a));
    }
    assert forall|b: u64, y: Option<u32>| b != from && b != to
        implies #[trigger] v3.owned_kitties.entry(b, y) == v1.owned_kitties.entry(b, y) by {
        assert(v3.owned_kitties.entry(b, y) == v2.owned_kitties.entry(b, y));
    }
}

/// A transfer of a kitty from its owner keeps the invariant.
proof fn lemma_transfer_wf(v1: KittiesView, v2: KittiesView, from: u64, to: u64, id: u32)
    requires
        v1.wf(),
        v1.kitty_owners.contains_key(id),
        v1.kitty_owners[id] == from,
        v2.owned_kitties.wf(),
        transferred(v1, v2, from, to, id),
    ensures
        v2.wf(),
{
    assert(v2.kitties.dom() =~= v2.kitty_owners.dom());
    assert forall|a: u64, x: u32| #[trigger] v2.owned(a).contains(x)
        <==> (v2.kitty_owners.contains_key(x) && v2.kitty_owners[x] == a) by {
        lemma_without_contains(v1.owned(a), id, x);
        if a == to {
            let w = without(v1.owned(to), id);
            if w.push(id).contains(x) {
                let j = choose|j: int| 0 <= j < w.len() + 1 && w.push(id)[j] == x;
                if j < w.len() {
                    assert(w[j] == x);
                    assert(w.contains(x));
                }
            }
            if x == id {
                assert(w.push(id)[w.len() as int] == id);
            } else if v1.owned(a).contains(x) {
                let j = choose|j: int| 0 <= j < w.len() && w[j] == x;
                assert(w.push(id)[j] == x);
            }
        } else {
            assert(v2.owned(a) == without(v1.owned(a), id));
        }
    }
    assert forall|b: u64| #[trigger] v2.tomb(b).no_duplicates() by {
        assert(v2.tomb(b) == v1.tomb(b));
    }
    assert forall|b: u64, x: u32| #[trigger] v2.tomb(b).contains(x)
        <==> (v2.kitties.contains_key(x) && death_block(v2.kitties[x]) == b) by {
        assert(v2.tomb(b) == v1.tomb(b));
    }
}

/// The kitties module.
pub struct Module {
    config: Config,
    kitties: HashMap<u32, Kitty>,
    kitties_count: u32,
    kitties_next_id: u32,
    kitty_tombs: HashMap<u64, Vec<u32>>,
    owned_kitties: LinkedList,
    kitty_owners: HashMap<u32, u64>,
    kitty_prices: HashMap<u32, u64>,
    block_number: u64,
    extrinsic_index: Option<u32>,
    random_seed: [u8; 32],
    events: Vec<Event>,
}

impl View for Module {
    type V = KittiesView;

    closed spec fn view(&self) -> KittiesView {
        KittiesView {
            config: self.config,
            kitties: self.kitties@,
            kitties_count: self.kitties_count,
            next_kitty_id: self.kitties_next_id,
            tombs: self.kitty_tombs@.map_values(|v: Vec<u32>| v@),
            owned_kitties: self.owned_kitties,
            kitty_owners: self.kitty_owners@,
            kitty_prices: self.kitty_prices@,
            block_number: self.block_number,
            extrinsic_index: self.extrinsic_index,
            random_seed: self.random_seed,
            events: self.events@,
        }
    }
}

impl Module {
    /// A module with no kitties, at block 0, with no extrinsic index and an
    /// all-zero random seed.
    pub fn new(config: Config) -> (m: Self)
        ensures
            m@.wf(),
            m@.config == config,
            m@.kitties == Map::<u32, Kitty>::empty(),
            m@.kitties_count == 0,
            m@.next_kitty_id == 0,
            m@.tombs == Map::<u64, Seq<u32>>::empty(),
            forall|a: u64| #[trigger] m@.owned(a) == Seq::<u32>::empty(),
            forall|a: u64, v: Option<u32>| #[trigger] m@.owned_kitties.entry(a, v) is None,
            m@.kitty_owners == Map::<u32, u64>::empty(),
            m@.kitty_prices == Map::<u32, u64>::empty(),
            m@.block_number == 0,
            m@.extrinsic_index is None,
            m@.random_seed@ == Seq::new(32, |i: int| 0u8),
            m@.events == Seq::<Event>::empty(),
    {
        let m = Module {
            config,
            kitties: HashMap::new(),
            kitties_count: 0,
            kitties_next_id: 0,
            kitty_tombs: HashMap::new(),
            owned_kitties: LinkedList::new(),
            kitty_owners: HashMap::new(),
            kitty_prices: HashMap::new(),
            block_number: 0,
            extrinsic_index: None,
            random_seed: [0u8; 32],
            events: Vec::new(),
        };
        proof {
            assert(m@.tombs =~= Map::<u64, Seq<u32>>::empty());
            assert(m@.random_seed@ =~= Seq::new(32, |i: int| 0u8));
            assert(m@.kitties.dom() =~= Set::<u32>::empty());
            assert forall|b: u64| #[trigger] m@.tomb(b).no_duplicates() by {}
            assert forall|a: u64, id: u32| #[trigger] m@.owned(a).contains(id)
                <==> (m@.kitty_owners.contains_key(id) && m@.kitty_owners[id] == a) by {
                assert(m@.owned(a) == Seq::<u32>::empty());
            }
        }
        m
    }

    /// The current block number.
    pub fn block_number(&self) -> (n: u64)
        ensures
            n == self@.block_number,
    {
        self.block_number
    }

    /// The random value drawn for `sender` in the current block context.
    pub fn random_value(&self, sender: u64) -> (r: [u8; 16])
        ensures
            r@ == spec_random_value(self@.random_seed@, sender, self@.extrinsic_index, self@.block_number),
    {
        random_value(self.random_seed, sender, self.extrinsic_index, self.block_number)
    }

    /// The lifespan of a kitty born now to `sender`.
    pub fn gen_kitty_lifespan(&self, sender: u64) -> (l: u64)
        requires
            self@.config.lifespans_computable(),
        ensures
            l == self@.lifespan_for(sender),
    {
        let r = self.random_value(sender);
        lifespan_from_random(&self.config, &r)
    }

    /// Stores a kitty with a fresh id, born now to `owner` with `dna`: counts
    /// it, records its owner, appends it to the owner's list and books its
    /// death.
    pub fn insert_kitty(&mut self, owner: u64, kitty_id: u32, dna: [u8; 16])
        requires
            old(self)@.consistent(),
            old(self)@.birth_fits(owner),
            !old(self)@.kitties.contains_key(kitty_id),
            old(self)@.kitties_count < u32::MAX,
        ensures
            final(self)@.consistent(),
            old(self)@.wf() && kitty_id < old(self)@.next_kitty_id ==> final(self)@.wf(),
            final(self)@ == after_birth(old(self)@, final(self)@.owned_kitties, owner, kitty_id, old(self)@.newborn(owner, dna)),
            final(self)@.owned(owner) == old(self)@.owned(owner).push(kitty_id),
            final(self)@.owned_kitties.entry(owner, None) is Some,
            forall|b: u64| b != owner ==> #[trigger] final(self)@.owned(b) == old(self)@.owned(b),
            forall|b: u64, y: Option<u32>| b != owner
                ==> #[trigger] final(self)@.owned_kitties.entry(b, y) == old(self)@.owned_kitties.entry(b, y),
    {
        let ghost v1 = self@;
        let kitty = Kitty { dna, lifespan: self.gen_kitty_lifespan(owner), birthday: self.block_number() };
        proof {
            assert(kitty == v1.newborn(owner, dna));
            assert(!v1.owned(owner).contains(kitty_id));
        }
        self.kitties.insert(kitty_id, kitty);
        self.kitties_count = self.kitties_count + 1;
        self.kitty_owners.insert(kitty_id, owner);
        self.owned_kitties.append(owner, kitty_id);
        let death = kitty.lifespan + kitty.birthday;
        let ghost tomb = v1.tomb(death);
        let slot = self.kitty_tombs.remove(&death);
        let ids = match slot {
            Some(v) => {
                let mut v = v;
                v.push(kitty_id);
                v
            },
            None => {
                let mut v = Vec::new();
                v.push(kitty_id);
                v
            },
        };
        proof {
            assert(ids@ =~= tomb.push(kitty_id));
        }
        self.kitty_tombs.insert(death, ids);
        proof {
            assert(self@.tombs =~= v1.tombs.insert(death, tomb.push(kitty_id)));
            assert(self@.kitties == v1.kitties.insert(kitty_id, kitty));
            assert(self@ == after_birth(v1, self@.owned_kitties, owner, kitty_id, kitty));
            lemma_birth_wf(v1, self@, owner, kitty_id, kitty);
        }
    }

    /// Moves kitty `kitty_id` from its owner `from` to `to`.
    pub fn do_transfer(&mut self, from: u64, to: u64, kitty_id: u32)
        requires
            old(self)@.wf(),
            old(self)@.kitty_owners.contains_key(kitty_id),
            old(self)@.kitty_owners[kitty_id] == from,
        ensures
            final(self)@.wf(),
            transferred(old(self)@, final(self)@, from, to, kitty_id),
            final(self)@.events == old(self)@.events,
    {
        let ghost v1 = self@;
        self.owned_kitties.remove(from, kitty_id);
        proof {
            lemma_without_contains(v1.owned(from), kitty_id, kitty_id);
            if to != from {
                assert(!v1.owned(to).contains(kitty_id));
            }
        }
        let ghost l_mid = self.owned_kitties;
        self.owned_kitties.append(to, kitty_id);
        self.kitty_owners.insert(kitty_id, to);
        proof {
            let v2 = self@;
            assert forall|a: u64| a != to implies #[trigger] v2.owned(a) == without(v1.owned(a), kitty_id) by {
                if a != from {
                    assert(!v1.owned(a).contains(kitty_id));
                    lemma_without_absent(v1.owned(a), kitty_id);
                }
            }
            if to != from {
                assert(!v1.owned(to).contains(kitty_id));
                lemma_without_absent(v1.owned(to), kitty_id);
            }
            assert(v2.owned(to) == without(v1.owned(to), kitty_id).push(kitty_id));
            if from != to {
                assert(v2.owned_kitties.entry(from, None) == l_mid.entry(from, None));
            }
            assert forall|b: u64, y: Option<u32>| b != from && b != to
                implies #[trigger] v2.owned_kitties.entry(b, y) == v1.owned_kitties.entry(b, y) by {
                assert(l_mid.entry(b, y) == v1.owned_kitties.entry(b, y));
            }
            lemma_transfer_wf(v1, v2, from, to, kitty_id);
        }
    }

    /// Deletes kitty `kitty_id` of `owner`: its record, owner and price, and
    /// its place in the owner's list. The count and the tombs are left as
    /// they are.
    pub fn remove_kitty(&mut self, owner: u64, kitty_id: u32)
        requires
            old(self)@.owned_kitties.wf(),
        ensures
            final(self)@ == (KittiesView {
                kitties: old(self)@.kitties.remove(kitty_id),
                owned_kitties: final(self)@.owned_kitties,
                kitty_owners: old(self)@.kitty_owners.remove(kitty_id),
                kitty_prices: old(self)@.kitty_prices.remove(kitty_id),
                ..old(self)@
            }),
            final(self)@.owned_kitties.wf(),
            final(self)@.owned(owner) == without(old(self)@.owned(owner), kitty_id),
            old(self)@.owned(owner).contains(kitty_id) ==> final(self)@.owned_kitties.entry(owner, None) is Some,
            !old(self)@.owned(owner).contains(kitty_id) ==> forall|y: Option<u32>|
                #[trigger] final(self)@.owned_kitties.entry(owner, y) == old(self)@.owned_kitties.entry(owner, y),
            forall|b: u64| b != owner ==> #[trigger] final(self)@.owned(b) == old(self)@.owned(b),
            forall|b: u64, y: Option<u32>| b != owner
                ==> #[trigger] final(self)@.owned_kitties.entry(b, y) == old(self)@.owned_kitties.entry(b, y),
    {
        self.kitties.remove(&kitty_id);
        self.kitty_owners.remove(&kitty_id);
        self.kitty_prices.remove(&kitty_id);
        self.owned_kitties.remove(owner, kitty_id);
    }

    /// Puts kitty `kitty_id` of `sender` up for sale at `price`, or withdraws
    /// it with `None`.
    pub fn ask_kitty(&mut self, sender: u64, kitty_id: u32, price: Option<u64>) -> (r: Result<(), DispatchError>)
        requires
            old(self)@.wf(),
        ensures
            final(self)@.wf(),
            !old(self)@.owned(sender).contains(kitty_id) ==> r == Err::<(), DispatchError>(
                DispatchError::Module(Error::RequiresOwner),
            ) && final(self)@ == old(self)@,
            old(self)@.owned(sender).contains(kitty_id) ==> r == Ok::<(), DispatchError>(())
                && final(self)@ == (KittiesView {
                kitty_prices: match price {
                    Some(p) => old(self)@.kitty_prices.insert(kitty_id, p),
                    None => old(self)@.kitty_prices.remove(kitty_id),
                },
                events: old(self)@.events.push(Event::Ask(sender, kitty_id, price)),
                ..old(self)@
            }),
    {
        proof {
            self@.owned_kitties.lemma_entry_iff_listed(sender, kitty_id);
        }
        if !self.owned_kitties.contains(sender, Some(kitty_id)) {
            return Err(DispatchError::Module(Error::RequiresOwner));
        }
        let ghost v1 = self@;
        proof {
            assert(v1.owned(sender).contains(kitty_id));
            assert(v1.kitty_owners.contains_key(kitty_id));
        }
        match price {
            Some(p) => {
                self.kitty_prices.insert(kitty_id, p);
            },
            None => {
                self.kitty_prices.remove(&kitty_id);
            },
        }
        self.events.push(Event::Ask(sender, kitty_id, price));
        proof {
            assert(v1.kitties.contains_key(kitty_id));
            assert(self@.kitty_prices.dom().subset_of(self@.kitties.dom()));
            lemma_wf_frame(v1, self@);
        }
        Ok(())
    }

    /// What a purchase of kitty `kitty_id` offering `price` would pay to
    /// whom: its owner and asked price, or why it cannot be bought.
    pub fn buy_terms(&self, kitty_id: u32, price: u64) -> (r: Result<(u64, u64), DispatchError>)
        ensures
            r == self@.buy_terms(kitty_id, price),
    {
        let owner = match self.kitty_owners.get(&kitty_id) {
            Some(o) => *o,
            None => {
                return Err(DispatchError::Module(Error::InvalidKittyId));
            },
        };
        let kitty_price = match self.kitty_prices.get(&kitty_id) {
            Some(p) => *p,
            None => {
                return Err(DispatchError::Module(Error::KittyNotForSale));
            },
        };
        if !(price >= kitty_price) {
            return Err(DispatchError::Module(Error::PriceTooLow));
        }
        Ok((owner, kitty_price))
    }

    /// Finishes the purchase of kitty `kitty_id` by `sender` from `owner` at
    /// `kitty_price`, given what the payment returned: on a failed payment
    /// nothing changes and its error is returned.
    pub fn complete_buy(
        &mut self,
        sender: u64,
        kitty_id: u32,
        owner: u64,
        kitty_price: u64,
        paid: Result<(), DispatchError>,
    ) -> (r: Result<(), DispatchError>)
        requires
            old(self)@.wf(),
            old(self)@.kitty_owners.contains_key(kitty_id),
            old(self)@.kitty_owners[kitty_id] == owner,
        ensures
            final(self)@.wf(),
            r == paid,
            paid is Err ==> final(self)@ == old(self)@,
            paid is Ok ==> sold(old(self)@, final(self)@, owner, sender, kitty_id, kitty_price),
    {
        if paid.is_err() {
            return paid;
        }
        let ghost v1 = self@;
        self.kitty_prices.remove(&kitty_id);
        let ghost v_mid = self@;
        proof {
            lemma_wf_frame(v1, v_mid);
        }
        self.do_transfer(owner, sender, kitty_id);
        let ghost v_moved = self@;
        self.events.push(Event::Sold(owner, sender, kitty_id, kitty_price));
        proof {
            lemma_wf_frame(v_moved, self@);
            lemma_transferred_events(v_mid, v_moved, self@, owner, sender, kitty_id);
        }
        paid
    }

    /// Buys kitty `kitty_id` for `sender`, offering `price`: checks the
    /// terms, pays the asked price (not the offer) from `sender` to the owner
    /// through `runtime`, and on success transfers the kitty. Refused terms
    /// leave `runtime` untouched; a failed payment's error is returned.
    pub fn buy_kitty<T: Trait>(&mut self, runtime: &mut T, sender: u64, kitty_id: u32, price: u64) -> (r: Result<(), DispatchError>)
        requires
            old(self)@.wf(),
        ensures
            final(self)@.wf(),
            match old(self)@.buy_terms(kitty_id, price) {
                Err(e) => {
                    &&& r == Err::<(), DispatchError>(e)
                    &&& final(self)@ == old(self)@
                    &&& *final(runtime) == *old(runtime)
                },
                Ok((owner, kitty_price)) => {
                    &&& old(runtime).transfer_spec(sender, owner, kitty_price, *final(runtime), r)
                    &&& r is Err ==> final(self)@ == old(self)@
                    &&& r is Ok ==> sold(old(self)@, final(self)@, owner, sender, kitty_id, kitty_price)
                },
            },
    {
        let (owner, kitty_price) = match self.buy_terms(kitty_id, price) {
            Ok(t) => t,
            Err(e) => {
                return Err(e);
            },
        };
        let paid = runtime.transfer(sender, owner, kitty_price);
        self.complete_buy(sender, kitty_id, owner, kitty_price, paid)
    }

    /// Creates a kitty for `sender` with random DNA under the next id.
    pub fn create_kitty(&mut self, sender: u64) -> (r: Result<(), DispatchError>)
        requires
            old(self)@.wf(),
            old(self)@.next_kitty_id < u32::MAX ==> old(self)@.birth_fits(sender),
        ensures
            final(self)@.wf(),
            old(self)@.next_kitty_id == u32::MAX ==> r == Err::<(), DispatchError>(
                DispatchError::Module(Error::KittiesIdOverflow),
            ) && final(self)@ == old(self)@,
            old(self)@.next_kitty_id < u32::MAX ==> {
                &&& r == Ok::<(), DispatchError>(())
                &&& born(
                    old(self)@,
                    final(self)@,
                    sender,
                    old(self)@.next_kitty_id,
                    spec_random_value(old(self)@.random_seed@, sender, old(self)@.extrinsic_index, old(self)@.block_number),
                )
                &&& final(self)@.events == old(self)@.events.push(Event::Created(sender, old(self)@.next_kitty_id))
            },
    {
        let ghost v1 = self@;
        let kitty_id = match self.next_kitty_id() {
            Ok(id) => id,
            Err(e) => {
                return Err(e);
            },
        };
        let dna = self.random_value(sender);
        proof {
            assert(!self@.kitties.contains_key(kitty_id));
            lemma_ids_below(self@.kitties.dom(), kitty_id, self@.next_kitty_id);
        }
        self.insert_kitty(sender, kitty_id, dna);
        let ghost v2 = self@;
        self.events.push(Event::Created(sender, kitty_id));
        proof {
            lemma_wf_frame(v2, self@);
            lemma_born_events(v1, v2, self@, sender, kitty_id, dna@);
        }
        Ok(())
    }

    /// Checks that two kitties are of breeding age now.
    pub fn check_age(&self, kitty1: &Option<Kitty>, kitty2: &Option<Kitty>) -> (r: Result<(), DispatchError>)
        requires
            kitty1 is Some,
            kitty2 is Some,
            kitty1->Some_0.birthday <= self@.block_number,
            kitty2->Some_0.birthday <= self@.block_number,
        ensures
            r == self@.age_check(kitty1->Some_0.birthday, kitty2->Some_0.birthday),
    {
        let kitty1 = kitty1.as_ref().unwrap();
        let kitty2 = kitty2.as_ref().unwrap();
        let bn = self.block_number();
        let kitty1_age = bn - kitty1.birthday;
        let kitty2_age = bn - kitty2.birthday;
        let max_breed_age = self.config.max_breeding_age;
        let min_breed_age = self.config.min_breeding_age;
        if !(kitty1_age >= min_breed_age) {
            return Err(DispatchError::Module(Error::Kitty1TooYoung));
        }
        if !(kitty1_age <= max_breed_age) {
            return Err(DispatchError::Module(Error::Kitty1TooOld));
        }
        if !(kitty2_age >= min_breed_age) {
            return Err(DispatchError::Module(Error::Kitty2TooYoung));
        }
        if !(kitty2_age <= max_breed_age) {
            return Err(DispatchError::Module(Error::Kitty2TooOld));
        }
        Ok(())
    }

    /// Breeds kitties `kitty_id_1` and `kitty_id_2` of `sender` into a new
    /// kitty of `sender` under the next id, whose DNA mixes the parents'
    /// under the random value of `sender`.
    pub fn do_breed(&mut self, sender: u64, kitty_id_1: u32, kitty_id_2: u32) -> (r: Result<u32, DispatchError>)
        requires
            old(self)@.wf(),
            old(self)@.parents_born_by_now(sender, kitty_id_1, kitty_id_2),
            old(self)@.breed_check(sender, kitty_id_1, kitty_id_2) is Ok ==> old(self)@.birth_fits(sender),
        ensures
            final(self)@.wf(),
            match old(self)@.breed_check(sender, kitty_id_1, kitty_id_2) {
                Err(e) => r == Err::<u32, DispatchError>(e) && final(self)@ == old(self)@,
                Ok(()) => {
                    &&& r == Ok::<u32, DispatchError>(old(self)@.next_kitty_id)
                    &&& final(self)@.events == old(self)@.events
                    &&& born(
                        old(self)@,
                        final(self)@,
                        sender,
                        old(self)@.next_kitty_id,
                        spec_mix_dna(
                            old(self)@.kitties[kitty_id_1].dna@,
                            old(self)@.kitties[kitty_id_2].dna@,
                            spec_random_value(old(self)@.random_seed@, sender, old(self)@.extrinsic_index, old(self)@.block_number),
                        ),
                    )
                },
            },
    {
        let kitty1 = self.kitties(kitty_id_1);
        let kitty2 = self.kitties(kitty_id_2);
        if kitty1.is_none() {
            return Err(DispatchError::Module(Error::InvalidKittyId));
        }
        if kitty2.is_none() {
            return Err(DispatchError::Module(Error::InvalidKittyId));
        }
        if kitty_id_1 == kitty_id_2 {
            return Err(DispatchError::Module(Error::RequiresDifferentParents));
        }
        let owns1 = match self.kitty_owner(kitty_id_1) {
            Some(owner) => owner == sender,
            None => false,
        };
        if !owns1 {
            return Err(DispatchError::Module(Error::RequiresOwner));
        }
        let owns2 = match self.kitty_owner(kitty_id_2) {
            Some(owner) => owner == sender,
            None => false,
        };
        if !owns2 {
            return Err(DispatchError::Module(Error::RequiresOwner));
        }
        match self.check_age(&kitty1, &kitty2) {
            Ok(()) => {},
            Err(e) => {
                return Err(e);
            },
        }
        let kitty_id = match self.next_kitty_id() {
            Ok(id) => id,
            Err(e) => {
                return Err(e);
            },
        };
        let kitty1_dna = kitty1.unwrap().dna;
        let kitty2_dna = kitty2.unwrap().dna;
        let selector = self.random_value(sender);
        let new_dna = mix_dna(&kitty1_dna, &kitty2_dna, &selector);
        proof {
            assert(!self@.kitties.contains_key(kitty_id));
            lemma_ids_below(self@.kitties.dom(), kitty_id, self@.next_kitty_id);
        }
        self.insert_kitty(sender, kitty_id, new_dna);
        Ok(kitty_id)
    }

    /// The kitty stored under `kitty_id`.
    pub fn kitties(&self, kitty_id: u32) -> (r: Option<Kitty>)
        ensures
            r == (if self@.kitties.contains_key(kitty_id) {
                Some(self@.kitties[kitty_id])
            } else {
                None
            }),
    {
        match self.kitties.get(&kitty_id) {
            Some(k) => Some(*k),
            None => None,
        }
    }

    /// The owner of kitty `kitty_id`.
    pub fn kitty_owner(&self, kitty_id: u32) -> (r: Option<u64>)
        ensures
            r == (if self@.kitty_owners.contains_key(kitty_id) {
                Some(self@.kitty_owners[kitty_id])
            } else {
                None
            }),
    {
        match self.kitty_owners.get(&kitty_id) {
            Some(o) => Some(*o),
            None => None,
        }
    }

    /// The asked price of kitty `kitty_id`; `None` where it is not for sale.
    pub fn kitty_price(&self, kitty_id: u32) -> (r: Option<u64>)
        ensures
            r == (if self@.kitty_prices.contains_key(kitty_id) {
                Some(self@.kitty_prices[kitty_id])
            } else {
                None
            }),
    {
        match self.kitty_prices.get(&kitty_id) {
            Some(p) => Some(*p),
            None => None,
        }
    }

    /// How many kitties live.
    pub fn kitties_count(&self) -> (n: u32)
        ensures
            n == self@.kitties_count,
    {
        self.kitties_count
    }

    /// Buries the kitties whose lives end in block `n`, reporting their
    /// deaths in the order they were born.
    pub fn kitty_initialize(&mut self, n: u64)
        requires
            old(self)@.wf(),
        ensures
            final(self)@.wf(),
            buried(old(self)@, final(self)@, n),
    {
        let ghost v1 = self@;
        let ghost dying = v1.tomb(n);
        let ids = match self.kitty_tombs.remove(&n) {
            Some(v) => v,
            None => Vec::new(),
        };
        proof {
            assert(ids@ == dying);
            assert(self@.tombs =~= v1.tombs.remove(n));
            lemma_without_all_none(v1.owned(0));
            assert forall|a: u64| #[trigger] self@.owned(a) == without_all(v1.owned(a), dying.take(0)) by {
                assert(dying.take(0) =~= Seq::<u32>::empty());
                lemma_without_all_none(v1.owned(a));
            }
            assert(dying.take(0).to_set() =~= Set::<u32>::empty());
            assert(self@.kitties =~= v1.kitties.remove_keys(dying.take(0).to_set()));
            assert(self@.kitty_owners =~= v1.kitty_owners.remove_keys(dying.take(0).to_set()));
            assert(self@.kitty_prices =~= v1.kitty_prices.remove_keys(dying.take(0).to_set()));
            assert(self@.events =~= v1.events + death_events(v1, dying.take(0)));
            assert(owners_of(v1, dying.take(0)) =~= Seq::<u64>::empty());
        }
        let mut i: u32 = 0;
        let mut j: usize = 0;
        while j < ids.len()
            invariant
                v1.wf(),
                dying == v1.tomb(n),
                ids@ == dying,
                dying.no_duplicates(),
                0 <= j <= ids.len(),
                i as int == j as int,
                self@.config == v1.config,
                self@.next_kitty_id == v1.next_kitty_id,
                self@.block_number == v1.block_number,
                self@.extrinsic_index == v1.extrinsic_index,
                self@.random_seed == v1.random_seed,
                self@.kitties_count == v1.kitties_count,
                self@.tombs == v1.tombs.remove(n),
                self@.kitties == v1.kitties.remove_keys(dying.take(j as int).to_set()),
                self@.kitty_owners == v1.kitty_owners.remove_keys(dying.take(j as int).to_set()),
                self@.kitty_prices == v1.kitty_prices.remove_keys(dying.take(j as int).to_set()),
                self@.kitties.dom().finite(),
                self@.kitties.dom().len() + j == v1.kitties.dom().len(),
                self@.owned_kitties.wf(),
                forall|a: u64| #[trigger] self@.owned(a) == without_all(v1.owned(a), dying.take(j as int)),
                self@.events == v1.events + death_events(v1, dying.take(j as int)),
                forall|b: u64| #[trigger] owners_of(v1, dying.take(j as int)).contains(b)
                    ==> self@.owned_kitties.entry(b, None) is Some,
                forall|b: u64, y: Option<u32>| !owners_of(v1, dying.take(j as int)).contains(b)
                    ==> #[trigger] self@.owned_kitties.entry(b, y) == v1.owned_kitties.entry(b, y),
            decreases ids.len() - j,
        {
            let kitty_id = ids[j];
            let ghost done = dying.take(j as int);
            let ghost v_prev = self@;
            proof {
                assert(dying.contains(kitty_id));
                assert(v1.kitties.contains_key(kitty_id));
                assert(!done.contains(kitty_id)) by {
                    if done.contains(kitty_id) {
                        let k = choose|k: int| 0 <= k < done.len() && done[k] == kitty_id;
                        assert(dying[k] == dying[j as int]);
                    }
                }
                assert(self@.kitty_owners.contains_key(kitty_id));
            }
            let owner = self.kitty_owner(kitty_id).unwrap();
            proof {
                assert(owner == v1.kitty_owners[kitty_id]);
                assert(v1.owned(owner).contains(kitty_id));
                lemma_without_all_contains(v1.owned(owner), done, kitty_id);
            }
            self.remove_kitty(owner, kitty_id);
            let ghost v_rm = self@;
            self.events.push(Event::Died(owner, kitty_id));
            proof {
                let v2 = self@;
                let done2 = dying.take(j as int + 1);
                assert(done2 =~= done.push(kitty_id));
                done.lemma_push_to_set_commute(kitty_id);
                assert(done2.to_set() == done.to_set().insert(kitty_id));
                assert(v2.kitties =~= v1.kitties.remove_keys(done2.to_set()));
                assert(v2.kitty_owners =~= v1.kitty_owners.remove_keys(done2.to_set()));
                assert(v2.kitty_prices =~= v1.kitty_prices.remove_keys(done2.to_set()));
                assert(v2.kitties.dom() =~= v_prev.kitties.dom().remove(kitty_id));
                assert(death_events(v1, done2) =~= death_events(v1, done).push(Event::Died(owner, kitty_id)));
                assert(v2.events =~= v1.events + death_events(v1, done2));
                assert(owners_of(v1, done2) =~= owners_of(v1, done).push(owner));
                assert forall|a: u64| #[trigger] v2.owned(a) == without_all(v1.owned(a), done2) by {
                    assert(v_prev.owned(a) == without_all(v1.owned(a), done));
                    lemma_without_all_push(v1.owned(a), done, kitty_id);
                    if a == owner {
                        assert(v2.owned(a) == without(v_prev.owned(a), kitty_id));
                    } else {
                        assert(v_rm.owned(a) == v_prev.owned(a));
                        assert(v2.owned(a) == v_prev.owned(a));
                    }
                    if a != owner {
                        assert(!v1.owned(a).contains(kitty_id));
                        lemma_without_all_contains(v1.owned(a), done, kitty_id);
                        lemma_without_absent(without_all(v1.owned(a), done), kitty_id);
                    }
                }
                assert forall|b: u64| #[trigger] owners_of(v1, done2).contains(b)
                    implies v2.owned_kitties.entry(b, None) is Some by {
                    if b != owner {
                        let k = choose|k: int| 0 <= k < owners_of(v1, done2).len() && owners_of(v1, done2)[k] == b;
                        assert(owners_of(v1, done)[k] == b);
                        assert(owners_of(v1, done).contains(b));
                        assert(v_rm.owned_kitties.entry(b, None) == v_prev.owned_kitties.entry(b, None));
                    }
                }
                assert forall|b: u64, y: Option<u32>| !owners_of(v1, done2).contains(b)
                    implies #[trigger] v2.owned_kitties.entry(b, y) == v1.owned_kitties.entry(b, y) by {
                    assert(owners_of(v1, done2)[done.len() as int] == owner);
                    if owners_of(v1, done).contains(b) {
                        let k = choose|k: int| 0 <= k < owners_of(v1, done).len() && owners_of(v1, done)[k] == b;
                        assert(owners_of(v1, done2)[k] == b);
                    }
                    assert(v_rm.owned_kitties.entry(b, y) == v_prev.owned_kitties.entry(b, y));
                    assert(v2.owned_kitties.entry(b, y) == v_prev.owned_kitties.entry(b, y));
                }
            }
            i = i + 1;
            j = j + 1;
        }
        let ghost v_loop = self@;
        if i > 0 {
            self.kitties_count = self.kitties_count - i;
        }
        proof {
            assert(dying.take(dying.len() as int) =~= dying);
            let v2 = self@;
            assert(v2.kitties_count == v1.kitties_count - dying.len());
            assert(v2.kitties == v1.kitties.remove_keys(dying.to_set()));
            assert(v2.events == v1.events + death_events(v1, dying));
            assert(v2.tombs == v1.tombs.remove(n));
            assert(v2 == (KittiesView {
                kitties: v1.kitties.remove_keys(dying.to_set()),
                kitties_count: (v1.kitties_count - dying.len()) as u32,
                tombs: v1.tombs.remove(n),
                owned_kitties: v2.owned_kitties,
                kitty_owners: v1.kitty_owners.remove_keys(dying.to_set()),
                kitty_prices: v1.kitty_prices.remove_keys(dying.to_set()),
                events: v1.events + death_events(v1, dying),
                ..v1
            }));
            assert forall|a: u64| #[trigger] v2.owned(a) == without_all(v1.owned(a), dying) by {
                assert(v_loop.owned(a) == without_all(v1.owned(a), dying.take(j as int)));
                assert(v2.owned(a) == v_loop.owned(a));
            }
            assert forall|b: u64| #[trigger] owners_of(v1, dying).contains(b)
                implies v2.owned_kitties.entry(b, None) is Some by {
                assert(owners_of(v1, dying.take(j as int)).contains(b));
                assert(v_loop.owned_kitties.entry(b, None) is Some);
            }
            assert forall|b: u64, y: Option<u32>| !owners_of(v1, dying).contains(b)
                implies #[trigger] v2.owned_kitties.entry(b, y) == v1.owned_kitties.entry(b, y) by {
                assert(v_loop.owned_kitties.entry(b, y) == v1.owned_kitties.entry(b, y));
            }
            assert(buried(v1, v2, n));
            lemma_burial_wf(v1, self@, n);
        }
    }

    /// The dispatchable call that creates a kitty for the signer.
    pub fn create(&mut self, origin: Origin) -> (r: Result<(), DispatchError>)
        requires
            old(self)@.wf(),
            origin matches Origin::Signed(sender) ==> (old(self)@.next_kitty_id < u32::MAX
                ==> old(self)@.birth_fits(sender)),
        ensures
            final(self)@.wf(),
            match origin {
                Origin::Signed(sender) => {
                    &&& old(self)@.next_kitty_id == u32::MAX ==> r == Err::<(), DispatchError>(
                        DispatchError::Module(Error::KittiesIdOverflow),
                    ) && final(self)@ == old(self)@
                    &&& old(self)@.next_kitty_id < u32::MAX ==> {
                        &&& r == Ok::<(), DispatchError>(())
                        &&& born(
                            old(self)@,
                            final(self)@,
                            sender,
                            old(self)@.next_kitty_id,
                            spec_random_value(old(self)@.random_seed@, sender, old(self)@.extrinsic_index, old(self)@.block_number),
                        )
                        &&& final(self)@.events == old(self)@.events.push(Event::Created(sender, old(self)@.next_kitty_id))
                    }
                },
                _ => r == Err::<(), DispatchError>(DispatchError::BadOrigin) && final(self)@ == old(self)@,
            },
    {
        let sender = match ensure_signed(origin) {
            Ok(s) => s,
            Err(e) => {
                return Err(e);
            },
        };
        self.create_kitty(sender)
    }

    /// The dispatchable call that breeds two kitties of the signer and
    /// reports the child.
    pub fn breed(&mut self, origin: Origin, kitty_id_1: u32, kitty_id_2: u32) -> (r: Result<(), DispatchError>)
        requires
            old(self)@.wf(),
            origin matches Origin::Signed(sender) ==> old(self)@.parents_born_by_now(sender, kitty_id_1, kitty_id_2),
            origin matches Origin::Signed(sender) ==> (old(self)@.breed_check(sender, kitty_id_1, kitty_id_2) is Ok
                ==> old(self)@.birth_fits(sender)),
        ensures
            final(self)@.wf(),
            match origin {
                Origin::Signed(sender) => match old(self)@.breed_check(sender, kitty_id_1, kitty_id_2) {
                    Err(e) => r == Err::<(), DispatchError>(e) && final(self)@ == old(self)@,
                    Ok(()) => {
                        &&& r == Ok::<(), DispatchError>(())
                        &&& born(
                            old(self)@,
                            final(self)@,
                            sender,
                            old(self)@.next_kitty_id,
                            spec_mix_dna(
                                old(self)@.kitties[kitty_id_1].dna@,
                                old(self)@.kitties[kitty_id_2].dna@,
                                spec_random_value(old(self)@.random_seed@, sender, old(self)@.extrinsic_index, old(self)@.block_number),
                            ),
                        )
                        &&& final(self)@.events == old(self)@.events.push(Event::Created(sender, old(self)@.next_kitty_id))
                    },
                },
                _ => r == Err::<(), DispatchError>(DispatchError::BadOrigin) && final(self)@ == old(self)@,
            },
    {
        let sender = match ensure_signed(origin) {
            Ok(s) => s,
            Err(e) => {
                return Err(e);
            },
        };
        let new_kitty_id = match self.do_breed(sender, kitty_id_1, kitty_id_2) {
            Ok(id) => id,
            Err(e) => {
                return Err(e);
            },
        };
        let ghost v2 = self@;
        self.events.push(Event::Created(sender, new_kitty_id));
        proof {
            lemma_wf_frame(v2, self@);
            lemma_born_events(
                old(self)@,
                v2,
                self@,
                sender,
                new_kitty_id,
                spec_mix_dna(
                    old(self)@.kitties[kitty_id_1].dna@,
                    old(self)@.kitties[kitty_id_2].dna@,
                    spec_random_value(old(self)@.random_seed@, sender, old(self)@.extrinsic_index, old(self)@.block_number),
                ),
            );
        }
        Ok(())
    }

    /// The dispatchable call that gives a kitty of the signer to `to`.
    pub fn transfer(&mut self, origin: Origin, to: u64, kitty_id: u32) -> (r: Result<(), DispatchError>)
        requires
            old(self)@.wf(),
        ensures
            final(self)@.wf(),
            match origin {
                Origin::Signed(sender) => if old(self)@.owned(sender).contains(kitty_id) {
                    &&& r == Ok::<(), DispatchError>(())
                    &&& transferred(old(self)@, final(self)@, sender, to, kitty_id)
                    &&& final(self)@.events == old(self)@.events.push(Event::Transferred(sender, to, kitty_id))
                } else {
                    r == Err::<(), DispatchError>(DispatchError::Module(Error::RequiresOwner)) && final(self)@ == old(self)@
                },
                _ => r == Err::<(), DispatchError>(DispatchError::BadOrigin) && final(self)@ == old(self)@,
            },
    {
        let sender = match ensure_signed(origin) {
            Ok(s) => s,
            Err(e) => {
                return Err(e);
            },
        };
        proof {
            self@.owned_kitties.lemma_entry_iff_listed(sender, kitty_id);
        }
        if !self.owned_kitties.contains(sender, Some(kitty_id)) {
            return Err(DispatchError::Module(Error::RequiresOwner));
        }
        proof {
            assert(self@.owned(sender).contains(kitty_id));
        }
        self.do_transfer(sender, to, kitty_id);
        let ghost v2 = self@;
        self.events.push(Event::Transferred(sender, to, kitty_id));
        proof {
            lemma_wf_frame(v2, self@);
            lemma_transferred_events(old(self)@, v2, self@, sender, to, kitty_id);
        }
        Ok(())
    }

    /// The dispatchable call that puts a kitty of the signer up for sale, or
    /// withdraws it with `None`.
    pub fn ask(&mut self, origin: Origin, kitty_id: u32, price: Option<u64>) -> (r: Result<(), DispatchError>)
        requires
            old(self)@.wf(),
        ensures
            final(self)@.wf(),
            match origin {
                Origin::Signed(sender) => if old(self)@.owned(sender).contains(kitty_id) {
                    r == Ok::<(), DispatchError>(()) && final(self)@ == (KittiesView {
                        kitty_prices: match price {
                            Some(p) => old(self)@.kitty_prices.insert(kitty_id, p),
                            None => old(self)@.kitty_prices.remove(kitty_id),
                        },
                        events: old(self)@.events.push(Event::Ask(sender, kitty_id, price)),
                        ..old(self)@
                    })
                } else {
                    r == Err::<(), DispatchError>(DispatchError::Module(Error::RequiresOwner)) && final(self)@ == old(self)@
                },
                _ => r == Err::<(), DispatchError>(DispatchError::BadOrigin) && final(self)@ == old(self)@,
            },
    {
        let sender = match ensure_signed(origin) {
            Ok(s) => s,
            Err(e) => {
                return Err(e);
            },
        };
        self.ask_kitty(sender, kitty_id, price)
    }

    /// The dispatchable call by which the signer buys a kitty offering
    /// `price`, paying through `runtime`.
    pub fn buy<T: Trait>(&mut self, runtime: &mut T, origin: Origin, kitty_id: u32, price: u64) -> (r: Result<(), DispatchError>)
        requires
            old(self)@.wf(),
        ensures
            final(self)@.wf(),
            match origin {
                Origin::Signed(sender) => match old(self)@.buy_terms(kitty_id, price) {
                    Err(e) => {
                        &&& r == Err::<(), DispatchError>(e)
                        &&& final(self)@ == old(self)@
                        &&& *final(runtime) == *old(runtime)
                    },
                    Ok((owner, kitty_price)) => {
                        &&& old(runtime).transfer_spec(sender, owner, kitty_price, *final(runtime), r)
                        &&& r is Err ==> final(self)@ == old(self)@
                        &&& r is Ok ==> sold(old(self)@, final(self)@, owner, sender, kitty_id, kitty_price)
                    },
                },
                _ => {
                    &&& r == Err::<(), DispatchError>(DispatchError::BadOrigin)
                    &&& final(self)@ == old(self)@
                    &&& *final(runtime) == *old(runtime)
                },
            },
    {
        let sender = match ensure_signed(origin) {
            Ok(s) => s,
            Err(e) => {
                return Err(e);
            },
        };
        self.buy_kitty(runtime, sender, kitty_id, price)
    }

    /// The hook run as block `n` begins: buries the kitties whose lives end
    /// in it.
    pub fn on_initialize(&mut self, n: u64)
        requires
            old(self)@.wf(),
        ensures
            final(self)@.wf(),
            buried(old(self)@, final(self)@, n),
    {
        self.kitty_initialize(n);
    }

    /// Whether kitty `kitty_id` is booked to die in block `block`: its id if
    /// so.
    pub fn kitty_tombs(&self, block: u64, kitty_id: u32) -> (r: Option<u32>)
        ensures
            r == (if self@.tomb(block).contains(kitty_id) {
                Some(kitty_id)
            } else {
                None
            }),
    {
        let ids = match self.kitty_tombs.get(&block) {
            Some(v) => v,
            None => {
                return None;
            },
        };
        let mut j: usize = 0;
        while j < ids.len()
            invariant
                ids@ == self@.tomb(block),
                0 <= j <= ids.len(),
                forall|k: int| 0 <= k < j ==> ids@[k] != kitty_id,
            decreases ids.len() - j,
        {
            if ids[j] == kitty_id {
                return Some(kitty_id);
            }
            j = j + 1;
        }
        None
    }

    /// The cell stored in the owners' lists under `(account, value)`.
    pub fn owned_kitties(&self, account: u64, value: Option<u32>) -> (r: Option<LinkedItem>)
        ensures
            r == self@.owned_kitties.entry(account, value),
    {
        self.owned_kitties.get(account, value)
    }

    /// The owners' lists.
    pub fn owned_kitties_list(&self) -> (l: &LinkedList)
        ensures
            *l == self@.owned_kitties,
    {
        &self.owned_kitties
    }

    /// The events reported so far, oldest first.
    pub fn events(&self) -> (e: &[Event])
        ensures
            e@ == self@.events,
    {
        self.events.as_slice()
    }

    /// Moves to block `n`.
    pub fn set_block_number(&mut self, n: u64)
        ensures
            final(self)@ == (KittiesView { block_number: n, ..old(self)@ }),
            old(self)@.wf() ==> final(self)@.wf(),
    {
        self.block_number = n;
        proof {
            if old(self)@.wf() {
                lemma_wf_frame(old(self)@, self@);
            }
        }
    }

    /// Sets the index of the current extrinsic in its block.
    pub fn set_extrinsic_index(&mut self, index: Option<u32>)
        ensures
            final(self)@ == (KittiesView { extrinsic_index: index, ..old(self)@ }),
            old(self)@.wf() ==> final(self)@.wf(),
    {
        self.extrinsic_index = index;
        proof {
            if old(self)@.wf() {
                lemma_wf_frame(old(self)@, self@);
            }
        }
    }

    /// Sets the random seed of the current block.
    pub fn set_random_seed(&mut self, seed: [u8; 32])
        ensures
            final(self)@ == (KittiesView { random_seed: seed, ..old(self)@ }),
            old(self)@.wf() ==> final(self)@.wf(),
    {
        self.random_seed = seed;
        proof {
            if old(self)@.wf() {
                lemma_wf_frame(old(self)@, self@);
            }
        }
    }

    /// Whether a kitty can be born now to `owner`: whether its lifespan can be
    /// computed and its death block fits in a block number.
    pub fn birth_fits(&self, owner: u64) -> (b: bool)
        ensures
            b == self@.birth_fits(owner),
    {
        if self.config.max_lifespan_delta == 0 {
            return false;
        }
        if self.config.max_breeding_age > u64::MAX - self.config.min_breeding_age {
            return false;
        }
        let lifespan = self.gen_kitty_lifespan(owner);
        lifespan <= u64::MAX - self.block_number
    }

    /// Creates a kitty for the signer where its death block fits in a block
    /// number; returns `None`, changing nothing, where it would not.
    pub fn try_create(&mut self, origin: Origin) -> (r: Option<Result<(), DispatchError>>)
        requires
            old(self)@.wf(),
        ensures
            final(self)@.wf(),
            match origin {
                Origin::Signed(sender) => if old(self)@.next_kitty_id < u32::MAX && !old(self)@.birth_fits(sender) {
                    r is None && final(self)@ == old(self)@
                } else {
                    r == Some(if old(self)@.next_kitty_id == u32::MAX {
                        Err::<(), DispatchError>(DispatchError::Module(Error::KittiesIdOverflow))
                    } else {
                        Ok(())
                    })
                },
                _ => r == Some(Err::<(), DispatchError>(DispatchError::BadOrigin)) && final(self)@ == old(self)@,
            },
            r matches Some(res) ==> res is Err ==> final(self)@ == old(self)@,
            r matches Some(res) ==> res is Ok ==> (origin matches Origin::Signed(sender) && born(
                old(self)@,
                final(self)@,
                sender,
                old(self)@.next_kitty_id,
                spec_random_value(old(self)@.random_seed@, sender, old(self)@.extrinsic_index, old(self)@.block_number),
            ) && final(self)@.events == old(self)@.events.push(Event::Created(sender, old(self)@.next_kitty_id))),
    {
        if let Origin::Signed(sender) = origin {
            if self.kitties_next_id < u32::MAX && !self.birth_fits(sender) {
                return None;
            }
        }
        Some(self.create(origin))
    }

    /// Breeds two kitties of the signer where the child's death block fits
    /// in a block number; returns `None`, changing nothing, where it would not.
    pub fn try_breed(&mut self, origin: Origin, kitty_id_1: u32, kitty_id_2: u32) -> (r: Option<Result<(), DispatchError>>)
        requires
            old(self)@.wf(),
            origin matches Origin::Signed(sender) ==> old(self)@.parents_born_by_now(sender, kitty_id_1, kitty_id_2),
        ensures
            final(self)@.wf(),
            match origin {
                Origin::Signed(sender) => if old(self)@.breed_check(sender, kitty_id_1, kitty_id_2) is Ok
                    && !old(self)@.birth_fits(sender) {
                    r is None && final(self)@ == old(self)@
                } else {
                    r == Some(old(self)@.breed_check(sender, kitty_id_1, kitty_id_2))
                },
                _ => r == Some(Err::<(), DispatchError>(DispatchError::BadOrigin)) && final(self)@ == old(self)@,
            },
            r matches Some(res) ==> res is Err ==> final(self)@ == old(self)@,
            r matches Some(res) ==> res is Ok ==> (origin matches Origin::Signed(sender) && born(
                old(self)@,
                final(self)@,
                sender,
                old(self)@.next_kitty_id,
                spec_mix_dna(
                    old(self)@.kitties[kitty_id_1].dna@,
                    old(self)@.kitties[kitty_id_2].dna@,
                    spec_random_value(old(self)@.random_seed@, sender, old(self)@.extrinsic_index, old(self)@.block_number),
                ),
            ) && final(self)@.events == old(self)@.events.push(Event::Created(sender, old(self)@.next_kitty_id))),
    {
        if let Origin::Signed(sender) = origin {
            if self.breed_allowed(sender, kitty_id_1, kitty_id_2) && !self.birth_fits(sender) {
                return None;
            }
        }
        Some(self.breed(origin, kitty_id_1, kitty_id_2))
    }

    /// Whether `sender` may breed kitties `kitty_id_1` and `kitty_id_2` now.
    fn breed_allowed(&self, sender: u64, kitty_id_1: u32, kitty_id_2: u32) -> (b: bool)
        requires
            self@.parents_born_by_now(sender, kitty_id_1, kitty_id_2),
        ensures
            b == self@.breed_check(sender, kitty_id_1, kitty_id_2) is Ok,
    {
        let kitty1 = self.kitties(kitty_id_1);
        let kitty2 = self.kitties(kitty_id_2);
        if kitty1.is_none() || kitty2.is_none() || kitty_id_1 == kitty_id_2 {
            return false;
        }
        let owns1 = match self.kitty_owner(kitty_id_1) {
            Some(owner) => owner == sender,
            None => false,
        };
        let owns2 = match self.kitty_owner(kitty_id_2) {
            Some(owner) => owner == sender,
            None => false,
        };
        if !owns1 || !owns2 {
            return false;
        }
        if self.check_age(&kitty1, &kitty2).is_err() {
            return false;
        }
        self.kitties_next_id < u32::MAX
    }

    /// Sets the id the next kitty gets.
    pub fn set_kitties_id(&mut self, c: u32)
        ensures
            final(self)@ == (KittiesView { next_kitty_id: c, ..old(self)@ }),
            old(self)@.wf() && (forall|id: u32| #[trigger] old(self)@.kitties.contains_key(id) ==> id < c)
                ==> final(self)@.wf(),
    {
        self.kitties_next_id = c;
        proof {
            if old(self)@.wf() && (forall|id: u32| #[trigger] old(self)@.kitties.contains_key(id) ==> id < c) {
                lemma_wf_frame(old(self)@, self@);
            }
        }
    }

    /// Takes the id for a new kitty and advances the next id; fails when the
    /// ids are used up.
    pub fn next_kitty_id(&mut self) -> (r: Result<u32, DispatchError>)
        ensures
            old(self)@.next_kitty_id == u32::MAX ==> r == Err::<u32, DispatchError>(
                DispatchError::Module(Error::KittiesIdOverflow),
            ) && final(self)@ == old(self)@,
            old(self)@.next_kitty_id < u32::MAX ==> r == Ok::<u32, DispatchError>(old(self)@.next_kitty_id)
                && final(self)@ == (KittiesView {
                next_kitty_id: (old(self)@.next_kitty_id + 1) as u32,
                ..old(self)@
            }),
            old(self)@.wf() ==> final(self)@.wf(),
    {
        let tmp = self.kitties_next_id;
        if tmp == u32::MAX {
            return Err(DispatchError::Module(Error::KittiesIdOverflow));
        }
        self.kitties_next_id = tmp + 1;
        proof {
            if old(self)@.wf() {
                lemma_wf_frame(old(self)@, self@);
            }
        }
        Ok(tmp)
    }
}

} // verus!
