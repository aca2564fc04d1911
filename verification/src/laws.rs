//! Properties that relate several operations of the library, stated over the
//! views that the operations' own contracts use.
use crate::dna::{lemma_combine_dna_takes_selected_bits, spec_combine_dna, spec_mix_dna};
use crate::hashing::low_u32_of_be;
use crate::kitties::{buried, death_block, sold, spec_lifespan, transferred, Config, DispatchError, Error, Event, KittiesView};
use crate::linked_item::{lemma_without_all_contains, lemma_without_contains, lemma_without_push, walk_begin, walk_len, without};
use vstd::prelude::*;

verus! {

/// A child of two parents with the same DNA byte gets that byte, whatever
/// the selector.
pub proof fn law_combine_same_parents(dna: u8, selector: u8)
    ensures
        spec_combine_dna(dna, dna, selector) == dna,
{
    assert((selector & dna) | (!selector & dna) == dna) by (bit_vector);
}

/// Each bit of each byte of a child's DNA is the first parent's where the
/// selector bit is set and the second parent's where it is clear.
pub proof fn law_child_takes_parent_bits(dna1: Seq<u8>, dna2: Seq<u8>, selector: Seq<u8>, i: int)
    requires
        0 <= i < 16,
    ensures
        spec_mix_dna(dna1, dna2, selector)[i] & selector[i] == dna1[i] & selector[i],
        spec_mix_dna(dna1, dna2, selector)[i] & !selector[i] == dna2[i] & !selector[i],
{
    lemma_combine_dna_takes_selected_bits(dna1[i], dna2[i], selector[i]);
}

/// Appending a value that a list does not hold and then removing it gives
/// back the list.
pub proof fn law_append_then_remove(s: Seq<u32>, v: u32)
    requires
        !s.contains(v),
    ensures
        without(s.push(v), v) == s,
{
    lemma_without_push(s, v);
}

/// A walk from the front with room for the whole list collects the whole
/// list, and returns its last value.
pub proof fn law_collect_whole_list(s: Seq<u32>, max_count: u32)
    requires
        s.len() <= max_count,
    ensures
        walk_begin(s, None) == 0,
        s.subrange(0, walk_len(s, 0, max_count)) == s,
        s.len() > 0 ==> s[walk_len(s, 0, max_count) - 1] == s.last(),
{
    assert(s.subrange(0, s.len() as int) =~= s);
}

/// No living kitty is listed under two owners.
pub proof fn law_one_list_per_kitty(v: KittiesView, a: u64, b: u64, id: u32)
    requires
        v.wf(),
        v.owned(a).contains(id),
        v.owned(b).contains(id),
    ensures
        a == b,
{
}

/// The id a new kitty gets belongs to no living kitty.
pub proof fn law_next_id_is_fresh(v: KittiesView)
    requires
        v.wf(),
    ensures
        !v.kitties.contains_key(v.next_kitty_id),
{
}

/// The count of kitties is the number of living kitties.
pub proof fn law_count_is_number_of_kitties(v: KittiesView)
    requires
        v.wf(),
    ensures
        v.kitties_count == v.kitties.dom().len(),
{
}

/// As block `birthday + lifespan` of a kitty begins, the kitty dies: it is
/// gone from the storage and from every list.
pub proof fn law_kitty_dies_at_its_death_block(v1: KittiesView, v2: KittiesView, id: u32)
    requires
        v1.wf(),
        v1.kitties.contains_key(id),
        buried(v1, v2, death_block(v1.kitties[id]) as u64),
    ensures
        !v2.kitties.contains_key(id),
        !v2.kitty_owners.contains_key(id),
        !v2.kitty_prices.contains_key(id),
        forall|a: u64| !(#[trigger] v2.owned(a)).contains(id),
{
    let n = death_block(v1.kitties[id]) as u64;
    assert(v1.tomb(n).contains(id));
    assert(v1.tomb(n).to_set().contains(id));
    assert forall|a: u64| !(#[trigger] v2.owned(a)).contains(id) by {
        lemma_without_all_contains(v1.owned(a), v1.tomb(n), id);
    }
}

/// A kitty whose death block is not `n` lives on, unchanged, when block `n`
/// begins.
pub proof fn law_other_kitties_survive(v1: KittiesView, v2: KittiesView, n: u64, id: u32)
    requires
        v1.wf(),
        v1.kitties.contains_key(id),
        death_block(v1.kitties[id]) != n,
        buried(v1, v2, n),
    ensures
        v2.kitties.contains_key(id),
        v2.kitties[id] == v1.kitties[id],
        v2.kitty_owners[id] == v1.kitty_owners[id],
        v2.owned(v1.kitty_owners[id]).contains(id),
{
    assert(!v1.tomb(n).contains(id));
    assert(!v1.tomb(n).to_set().contains(id));
    let a = v1.kitty_owners[id];
    assert(v1.owned(a).contains(id));
    lemma_without_all_contains(v1.owned(a), v1.tomb(n), id);
}

/// After a transfer to `to`, `to` owns the kitty, it is the last of the
/// list of `to`, and no other list holds it.
pub proof fn law_transfer_moves_kitty(v1: KittiesView, v2: KittiesView, from: u64, to: u64, id: u32)
    requires
        transferred(v1, v2, from, to, id),
    ensures
        v2.kitty_owners[id] == to,
        v2.owned(to).last() == id,
        forall|a: u64| a != to ==> !(#[trigger] v2.owned(a)).contains(id),
{
    assert forall|a: u64| a != to implies !(#[trigger] v2.owned(a)).contains(id) by {
        lemma_without_contains(v1.owned(a), id, id);
    }
}

/// Once its owner has asked a price for a kitty, an offer of at least that
/// price meets the terms: it pays that price to the owner.
pub proof fn law_ask_then_buy_terms(v1: KittiesView, owner: u64, id: u32, p: u64, offer: u64)
    requires
        v1.wf(),
        v1.owned(owner).contains(id),
        p <= offer,
    ensures
        (KittiesView {
            kitty_prices: v1.kitty_prices.insert(id, p),
            events: v1.events.push(Event::Ask(owner, id, Some(p))),
            ..v1
        }).buy_terms(id, offer) == Ok::<(u64, u64), DispatchError>((owner, p)),
{
}

/// Once its owner has withdrawn a kitty from sale, no offer meets the terms.
pub proof fn law_withdrawn_kitty_is_not_for_sale(v1: KittiesView, owner: u64, id: u32, offer: u64)
    requires
        v1.wf(),
        v1.owned(owner).contains(id),
    ensures
        (KittiesView {
            kitty_prices: v1.kitty_prices.remove(id),
            events: v1.events.push(Event::Ask(owner, id, None)),
            ..v1
        }).buy_terms(id, offer) == Err::<(u64, u64), DispatchError>(DispatchError::Module(Error::KittyNotForSale)),
{
}

/// After a sale, the buyer owns the kitty and it is no longer for sale.
pub proof fn law_sale_hands_over_kitty(v1: KittiesView, v2: KittiesView, owner: u64, buyer: u64, id: u32, price: u64)
    requires
        sold(v1, v2, owner, buyer, id, price),
    ensures
        v2.kitty_owners[id] == buyer,
        !v2.kitty_prices.contains_key(id),
        v2.owned(buyer).last() == id,
        v2.events.last() == Event::Sold(owner, buyer, id, price),
{
}

/// Two kitties may breed only when each one's age, the current block minus
/// its birthday, lies between the youngest and the oldest breeding age; the
/// first kitty is judged first, too young before too old.
pub proof fn law_breeding_ages(v: KittiesView, birthday1: u64, birthday2: u64)
    requires
        birthday1 <= v.block_number,
        birthday2 <= v.block_number,
    ensures
        v.age_check(birthday1, birthday2) is Ok <==> {
            &&& v.config.min_breeding_age <= v.block_number - birthday1 <= v.config.max_breeding_age
            &&& v.config.min_breeding_age <= v.block_number - birthday2 <= v.config.max_breeding_age
        },
        v.block_number - birthday1 < v.config.min_breeding_age ==> v.age_check(birthday1, birthday2)
            == Err::<(), DispatchError>(DispatchError::Module(Error::Kitty1TooYoung)),
        v.config.min_breeding_age <= v.block_number - birthday1 && v.block_number - birthday1
            > v.config.max_breeding_age ==> v.age_check(birthday1, birthday2) == Err::<(), DispatchError>(
            DispatchError::Module(Error::Kitty1TooOld),
        ),
        v.config.min_breeding_age <= v.block_number - birthday1 <= v.config.max_breeding_age
            && v.block_number - birthday2 < v.config.min_breeding_age ==> v.age_check(birthday1, birthday2)
            == Err::<(), DispatchError>(DispatchError::Module(Error::Kitty2TooYoung)),
        v.config.min_breeding_age <= v.block_number - birthday1 <= v.config.max_breeding_age
            && v.block_number - birthday2 > v.config.max_breeding_age ==> v.age_check(birthday1, birthday2)
            == Err::<(), DispatchError>(DispatchError::Module(Error::Kitty2TooOld)),
{
}

/// A breed by `sender` is allowed only for two distinct living kitties, both
/// owned by `sender`, both of breeding age, while an id is left; two distinct
/// living kitties of which `sender` does not own both are refused with
/// `RequiresOwner`.
pub proof fn law_breed_needs_owner_and_age(v: KittiesView, sender: u64, id1: u32, id2: u32)
    ensures
        v.breed_check(sender, id1, id2) is Ok ==> {
            &&& v.kitties.contains_key(id1) && v.kitties.contains_key(id2)
            &&& id1 != id2
            &&& v.kitty_owners.contains_key(id1) && v.kitty_owners[id1] == sender
            &&& v.kitty_owners.contains_key(id2) && v.kitty_owners[id2] == sender
            &&& v.config.min_breeding_age <= v.block_number - v.kitties[id1].birthday <= v.config.max_breeding_age
            &&& v.config.min_breeding_age <= v.block_number - v.kitties[id2].birthday <= v.config.max_breeding_age
            &&& v.next_kitty_id < u32::MAX
        },
        v.kitties.contains_key(id1) && v.kitties.contains_key(id2) && id1 != id2 && !(v.kitty_owners.contains_key(
            id1,
        ) && v.kitty_owners[id1] == sender && v.kitty_owners.contains_key(id2) && v.kitty_owners[id2] == sender)
            ==> v.breed_check(sender, id1, id2) == Err::<(), DispatchError>(
            DispatchError::Module(Error::RequiresOwner),
        ),
{
}

/// Every lifespan lies between the mean breeding age and that mean plus the
/// lifespan delta (exclusive), and its random part agrees with the random
/// number modulo the delta.
pub proof fn law_lifespan_bounds(config: Config, r: Seq<u8>)
    requires
        config.lifespans_computable(),
    ensures
        (config.max_breeding_age + config.min_breeding_age) / 2 <= spec_lifespan(config, r),
        spec_lifespan(config, r) < (config.max_breeding_age + config.min_breeding_age) / 2
            + config.max_lifespan_delta,
        (spec_lifespan(config, r) - (config.max_breeding_age + config.min_breeding_age) / 2)
            % (config.max_lifespan_delta as int) == (low_u32_of_be(r) as int) % (config.max_lifespan_delta as int),
{
    let low = low_u32_of_be(r) as int;
    let d = config.max_lifespan_delta as int;
    assert(0 <= low % d < d) by (nonlinear_arith)
        requires
            0 <= low,
            0 < d,
    ;
    assert((low % d) % d == low % d) by (nonlinear_arith)
        requires
            0 <= low,
            0 < d,
    ;
}

/// An offer below the asked price of a kitty for sale is refused with
/// `PriceTooLow`; accepted terms pay the kitty's owner its asked price, and
/// only for an offer of at least that price.
pub proof fn law_buy_needs_offer_at_asked_price(v: KittiesView, id: u32, offer: u64)
    ensures
        v.kitty_owners.contains_key(id) && v.kitty_prices.contains_key(id) && offer < v.kitty_prices[id]
            ==> v.buy_terms(id, offer) == Err::<(u64, u64), DispatchError>(
            DispatchError::Module(Error::PriceTooLow),
        ),
        v.buy_terms(id, offer) is Ok ==> {
            &&& v.kitty_owners.contains_key(id) && v.kitty_prices.contains_key(id)
            &&& offer >= v.kitty_prices[id]
            &&& v.buy_terms(id, offer) == Ok::<(u64, u64), DispatchError>((v.kitty_owners[id], v.kitty_prices[id]))
        },
{
}

/// A burial at block `n` leaves the record, owner and price of every kitty
/// that does not die at `n` as they were; only the dying lose theirs.
pub proof fn law_burial_spares_the_living(v1: KittiesView, v2: KittiesView, n: u64, id: u32)
    requires
        v1.wf(),
        buried(v1, v2, n),
        !(v1.kitties.contains_key(id) && death_block(v1.kitties[id]) == n),
    ensures
        v2.kitty_prices.contains_key(id) == v1.kitty_prices.contains_key(id),
        v1.kitty_prices.contains_key(id) ==> v2.kitty_prices[id] == v1.kitty_prices[id],
        v2.kitties.contains_key(id) == v1.kitties.contains_key(id),
        v1.kitties.contains_key(id) ==> v2.kitties[id] == v1.kitties[id],
        v2.kitty_owners.contains_key(id) == v1.kitty_owners.contains_key(id),
        v1.kitty_owners.contains_key(id) ==> v2.kitty_owners[id] == v1.kitty_owners[id],
{
    assert(!v1.tomb(n).contains(id));
    assert(!v1.tomb(n).to_set().contains(id));
}

/// A burial at block `n` removes every kitty that dies at `n`, with its
/// owner and price.
pub proof fn law_burial_takes_the_dying(v1: KittiesView, v2: KittiesView, n: u64, id: u32)
    requires
        v1.wf(),
        buried(v1, v2, n),
        v1.kitties.contains_key(id),
        death_block(v1.kitties[id]) == n,
    ensures
        !v2.kitties.contains_key(id),
        !v2.kitty_owners.contains_key(id),
        !v2.kitty_prices.contains_key(id),
{
    assert(v1.tomb(n).contains(id));
    assert(v1.tomb(n).to_set().contains(id));
}

} // verus!
