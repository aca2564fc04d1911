use kitties::{
    combine_dna, ensure_signed, lifespan_from_random, mix_dna, random_value, Config, DispatchError, Error, Event,
    LinkedItem, LinkedList, Module, Origin, Trait,
};
use std::collections::HashMap;

fn config() -> Config {
    Config { max_breeding_age: 150, min_breeding_age: 60, max_lifespan_delta: 150 }
}

#[derive(Clone)]
struct Ledger {
    free: HashMap<u64, u64>,
    calls: Vec<(u64, u64, u64)>,
}

impl Ledger {
    fn with(accounts: &[(u64, u64)]) -> Self {
        let mut free = HashMap::new();
        for (a, b) in accounts {
            free.insert(*a, *b);
        }
        Ledger { free, calls: Vec::new() }
    }
}

impl Trait for Ledger {
    fn transfer_spec(&self, from: u64, to: u64, value: u64, after: Self, r: Result<(), DispatchError>) -> bool {
        let mut expected = self.clone();
        let expected_r = expected.transfer(from, to, value);
        after.free == expected.free && r == expected_r
    }

    fn transfer(&mut self, from: u64, to: u64, value: u64) -> Result<(), DispatchError> {
        self.calls.push((from, to, value));
        let have = *self.free.get(&from).unwrap_or(&0);
        if have < value {
            return Err(DispatchError::Other("InsufficientBalance"));
        }
        self.free.insert(from, have - value);
        let to_have = *self.free.get(&to).unwrap_or(&0);
        self.free.insert(to, to_have + value);
        Ok(())
    }
}

const DNA_1_NONE_0: [u8; 16] = [239, 88, 163, 86, 133, 106, 57, 202, 75, 6, 61, 34, 57, 251, 238, 203];
const DNA_1_0_0: [u8; 16] = [10, 75, 51, 209, 24, 230, 125, 33, 112, 116, 233, 110, 164, 201, 198, 237];
const DNA_1_1_0: [u8; 16] = [137, 35, 39, 78, 130, 134, 55, 149, 143, 255, 28, 96, 92, 96, 156, 77];

#[test]
fn random_value_is_blake2_of_scale_payload() {
    assert_eq!(random_value([0u8; 32], 1, None, 0), DNA_1_NONE_0);
    assert_eq!(random_value([0u8; 32], 1, Some(0), 0), DNA_1_0_0);
    assert_eq!(random_value([0u8; 32], 1, Some(1), 0), DNA_1_1_0);
    let mut seed = [0u8; 32];
    for (i, b) in seed.iter_mut().enumerate() {
        *b = i as u8;
    }
    assert_eq!(
        random_value(seed, 7, Some(5), 1000),
        [135, 21, 202, 97, 42, 150, 54, 57, 82, 40, 58, 225, 52, 226, 220, 67]
    );
}

#[test]
fn combine_dna_takes_bits_by_selector() {
    assert_eq!(combine_dna(0xF0, 0x0F, 0xCC), 0xC3);
    assert_eq!(combine_dna(0xAB, 0x12, 0xFF), 0xAB);
    assert_eq!(combine_dna(0xAB, 0x12, 0x00), 0x12);
    assert_eq!(combine_dna(0x5A, 0x5A, 0x37), 0x5A);
}

#[test]
fn mix_dna_mixes_each_byte() {
    let selector = random_value([0u8; 32], 1, Some(1), 61);
    assert_eq!(
        mix_dna(&DNA_1_0_0, &DNA_1_1_0, &selector),
        [137, 35, 55, 65, 8, 134, 55, 5, 183, 119, 200, 98, 172, 97, 198, 77]
    );
}

#[test]
fn lifespan_from_random_value() {
    // low 32 bits big-endian of DNA_1_NONE_0 are 972811979; 105 + 972811979 % 150 = 134
    assert_eq!(lifespan_from_random(&config(), &DNA_1_NONE_0), 134);
    let mut r = [0u8; 16];
    assert_eq!(lifespan_from_random(&config(), &r), 105);
    r[15] = 149;
    assert_eq!(lifespan_from_random(&config(), &r), 254);
    r[15] = 150;
    assert_eq!(lifespan_from_random(&config(), &r), 105);
}

#[test]
fn create_kitty_stores_random_kitty() {
    let mut m = Module::new(config());
    assert_eq!(m.create(Origin::Signed(1)), Ok(()));
    let k = m.kitties(0).unwrap();
    assert_eq!(k.dna, DNA_1_NONE_0);
    assert_eq!(k.birthday, 0);
    assert_eq!(k.lifespan, 134);
    assert_eq!(m.kitty_owner(0), Some(1));
    assert_eq!(m.kitty_tombs(134, 0), Some(0));
    assert_eq!(m.kitty_tombs(133, 0), None);
    assert_eq!(m.events().to_vec(), vec![Event::Created(1, 0)]);
    assert_eq!(m.owned_kitties(1, None), Some(LinkedItem { prev: Some(0), next: Some(0) }));
}

#[test]
fn breed_kitty_child_dna_and_event() {
    let mut m = Module::new(config());
    m.set_extrinsic_index(Some(0));
    m.create_kitty(1).unwrap();
    m.set_extrinsic_index(Some(1));
    m.create_kitty(1).unwrap();
    m.set_block_number(61);
    assert_eq!(m.breed(Origin::Signed(1), 0, 1), Ok(()));
    let child = m.kitties(2).unwrap();
    assert_eq!(child.dna, [137, 35, 55, 65, 8, 134, 55, 5, 183, 119, 200, 98, 172, 97, 198, 77]);
    assert_eq!(child.birthday, 61);
    assert_eq!(child.lifespan, 210);
    assert_eq!(m.events().last(), Some(&Event::Created(1, 2)));
    assert_eq!(m.owned_kitties_list().collect(1, None, 10), (Some(2), vec![0u32, 1, 2]));
}

#[test]
fn breed_errors() {
    let mut m = Module::new(config());
    m.set_extrinsic_index(Some(0));
    m.create_kitty(1).unwrap();
    m.set_extrinsic_index(Some(1));
    m.create_kitty(1).unwrap();
    m.create_kitty(2).unwrap();
    m.set_block_number(61);
    assert_eq!(m.do_breed(1, 0, 9), Err(DispatchError::Module(Error::InvalidKittyId)));
    assert_eq!(m.do_breed(1, 9, 0), Err(DispatchError::Module(Error::InvalidKittyId)));
    assert_eq!(m.do_breed(1, 0, 0), Err(DispatchError::Module(Error::RequiresDifferentParents)));
    assert_eq!(m.do_breed(1, 0, 2), Err(DispatchError::Module(Error::RequiresOwner)));
    assert_eq!(m.do_breed(2, 0, 1), Err(DispatchError::Module(Error::RequiresOwner)));
    assert_eq!(m.breed(Origin::Root, 0, 1), Err(DispatchError::BadOrigin));
    assert_eq!(m.kitties_count(), 3);
    // the second parent is younger than the first
    m.set_block_number(60);
    m.create_kitty(1).unwrap();
    m.set_block_number(119);
    assert_eq!(m.do_breed(1, 0, 3), Err(DispatchError::Module(Error::Kitty2TooYoung)));
    let mut m2 = Module::new(config());
    m2.create_kitty(1).unwrap();
    m2.set_block_number(100);
    m2.create_kitty(1).unwrap();
    m2.set_block_number(160);
    // kitty 0 is 160 blocks old, kitty 1 is 60
    assert_eq!(m2.do_breed(1, 1, 0), Err(DispatchError::Module(Error::Kitty2TooOld)));
    assert_eq!(m2.do_breed(1, 0, 1), Err(DispatchError::Module(Error::Kitty1TooOld)));
}

#[test]
fn breed_overflow_of_ids() {
    let mut m = Module::new(config());
    m.create_kitty(1).unwrap();
    m.create_kitty(1).unwrap();
    m.set_block_number(61);
    m.set_kitties_id(u32::MAX);
    assert_eq!(m.do_breed(1, 0, 1), Err(DispatchError::Module(Error::KittiesIdOverflow)));
    assert_eq!(m.kitties_count(), 2);
}

#[test]
fn error_codes_follow_declaration() {
    let all = [
        Error::RequiresOwner,
        Error::InvalidKittyId,
        Error::KittyNotForSale,
        Error::PriceTooLow,
        Error::KittiesIdOverflow,
        Error::RequiresDifferentParents,
        Error::Kitty1TooYoung,
        Error::Kitty1TooOld,
        Error::Kitty2TooYoung,
        Error::Kitty2TooOld,
    ];
    for (i, e) in all.iter().enumerate() {
        assert_eq!(e.code() as usize, i);
    }
    assert_eq!(Error::RequiresOwner.name(), "RequiresOwner");
    assert_eq!(Error::Kitty2TooOld.name(), "Kitty2TooOld");
    assert_eq!(Error::PriceTooLow.name(), "PriceTooLow");
}

#[test]
fn ensure_signed_needs_a_signer() {
    assert_eq!(ensure_signed(Origin::Signed(4)), Ok(4));
    assert_eq!(ensure_signed(Origin::Root), Err(DispatchError::BadOrigin));
    assert_eq!(ensure_signed(Origin::Unsigned), Err(DispatchError::BadOrigin));
    let mut m = Module::new(config());
    assert_eq!(m.create(Origin::Unsigned), Err(DispatchError::BadOrigin));
    assert_eq!(m.kitties_count(), 0);
}

#[test]
fn ask_and_buy_errors() {
    let mut m = Module::new(config());
    let mut ledger = Ledger::with(&[(1, 100), (2, 50)]);
    m.create_kitty(1).unwrap();
    assert_eq!(m.ask_kitty(2, 0, Some(10)), Err(DispatchError::Module(Error::RequiresOwner)));
    assert_eq!(m.buy_kitty(&mut ledger, 2, 7, 10), Err(DispatchError::Module(Error::InvalidKittyId)));
    assert_eq!(m.buy_kitty(&mut ledger, 2, 0, 10), Err(DispatchError::Module(Error::KittyNotForSale)));
    assert_eq!(m.ask(Origin::Signed(1), 0, Some(80)), Ok(()));
    assert_eq!(m.buy_kitty(&mut ledger, 2, 0, 79), Err(DispatchError::Module(Error::PriceTooLow)));
    assert!(ledger.calls.is_empty());
    // the buyer cannot pay
    assert_eq!(m.buy_kitty(&mut ledger, 2, 0, 90), Err(DispatchError::Other("InsufficientBalance")));
    assert_eq!(ledger.calls, vec![(2, 1, 80)]);
    assert_eq!(m.kitty_owner(0), Some(1));
    assert_eq!(m.kitty_price(0), Some(80));
    // withdrawn from sale
    assert_eq!(m.ask(Origin::Signed(1), 0, None), Ok(()));
    assert_eq!(m.kitty_price(0), None);
    assert_eq!(m.buy_kitty(&mut ledger, 3, 0, 90), Err(DispatchError::Module(Error::KittyNotForSale)));
    assert_eq!(
        m.events().to_vec(),
        vec![Event::Created(1, 0), Event::Ask(1, 0, Some(80)), Event::Ask(1, 0, None)]
    );
}

#[test]
fn buy_pays_asked_price_and_moves_kitty() {
    let mut m = Module::new(config());
    let mut ledger = Ledger::with(&[(1, 0), (2, 500)]);
    m.create_kitty(1).unwrap();
    m.ask_kitty(1, 0, Some(300)).unwrap();
    assert_eq!(m.buy(&mut ledger, Origin::Signed(2), 0, 400), Ok(()));
    assert_eq!(ledger.calls, vec![(2, 1, 300)]);
    assert_eq!(ledger.free.get(&1), Some(&300));
    assert_eq!(ledger.free.get(&2), Some(&200));
    assert_eq!(m.kitty_owner(0), Some(2));
    assert_eq!(m.kitty_price(0), None);
    assert_eq!(m.events().last(), Some(&Event::Sold(1, 2, 0, 300)));
}

#[test]
fn transfer_moves_kitty_to_end_of_list() {
    let mut m = Module::new(config());
    m.create_kitty(1).unwrap();
    m.create_kitty(2).unwrap();
    m.create_kitty(1).unwrap();
    assert_eq!(m.transfer(Origin::Signed(2), 3, 0), Err(DispatchError::Module(Error::RequiresOwner)));
    assert_eq!(m.transfer(Origin::Signed(1), 2, 0), Ok(()));
    assert_eq!(m.owned_kitties_list().collect(1, None, 10).1, vec![2u32]);
    assert_eq!(m.owned_kitties_list().collect(2, None, 10).1, vec![1u32, 0]);
    assert_eq!(m.kitty_owner(0), Some(2));
    assert_eq!(m.events().last(), Some(&Event::Transferred(1, 2, 0)));
    // giving a kitty to its own owner moves it to the end of the list
    assert_eq!(m.transfer(Origin::Signed(2), 2, 1), Ok(()));
    assert_eq!(m.owned_kitties_list().collect(2, None, 10).1, vec![0u32, 1]);
}

#[test]
fn kitties_die_at_their_death_block() {
    let mut m = Module::new(config());
    m.create_kitty(1).unwrap();
    m.create_kitty(2).unwrap();
    let k0 = m.kitties(0).unwrap();
    let k1 = m.kitties(1).unwrap();
    assert_eq!(k0.birthday + k0.lifespan, 134);
    assert_eq!(k1.birthday + k1.lifespan, 127);
    m.on_initialize(133);
    assert_eq!(m.kitties_count(), 2);
    m.on_initialize(127);
    assert_eq!(m.kitties_count(), 1);
    assert_eq!(m.kitties(1), None);
    assert_eq!(m.kitty_tombs(127, 1), None);
    assert!(m.kitties(0).is_some());
    m.on_initialize(134);
    assert_eq!(m.kitties_count(), 0);
    assert_eq!(
        m.events().to_vec(),
        vec![Event::Created(1, 0), Event::Created(2, 1), Event::Died(2, 1), Event::Died(1, 0)]
    );
    assert_eq!(m.owned_kitties(1, None), Some(LinkedItem { prev: None, next: None }));
}

#[test]
fn append_then_remove_restores_list() {
    let mut list = LinkedList::new();
    list.append(5, 10);
    list.append(5, 20);
    let before = list.collect(5, None, 10);
    list.append(5, 30);
    list.remove(5, 30);
    assert_eq!(list.collect(5, None, 10), before);
    // removing what is not there changes nothing
    list.remove(5, 99);
    list.remove(6, 10);
    assert_eq!(list.collect(5, None, 10), before);
    assert_eq!(list.get(6, None), None);
}

#[test]
fn collect_pages_through_list() {
    let mut list = LinkedList::new();
    for v in [4u32, 8, 15, 16, 23, 42] {
        list.append(1, v);
    }
    assert_eq!(list.collect(1, None, 4), (Some(16), vec![4u32, 8, 15, 16]));
    assert_eq!(list.collect(1, Some(16), 4), (Some(42), vec![23u32, 42]));
    assert_eq!(list.collect(1, Some(42), 4), (Some(42), vec![]));
    assert_eq!(list.collect(1, Some(7), 4), (Some(7), vec![]));
    assert_eq!(list.collect(1, None, 0), (None, vec![]));
    assert_eq!(list.collect(2, None, 4), (None, vec![]));
    // accounts do not share lists
    list.append(2, 4);
    assert_eq!(list.collect(2, None, 4), (Some(4), vec![4u32]));
    assert_eq!(list.collect(1, None, 1), (Some(4), vec![4u32]));
}

#[test]
fn births_that_would_overflow_the_block_number_are_refused() {
    let mut m = Module::new(config());
    assert!(m.birth_fits(1));
    assert_eq!(m.try_create(Origin::Signed(1)), Some(Ok(())));
    m.set_block_number(u64::MAX - 10);
    assert!(!m.birth_fits(1));
    assert_eq!(m.try_create(Origin::Signed(1)), None);
    assert_eq!(m.kitties_count(), 1);
    assert_eq!(m.try_create(Origin::Root), Some(Err(DispatchError::BadOrigin)));
    // breeding a kitty with itself fails before any birth is attempted
    assert_eq!(m.try_breed(Origin::Signed(1), 0, 0), Some(Err(DispatchError::Module(Error::RequiresDifferentParents))));
    let mut zero_delta = Module::new(Config { max_breeding_age: 150, min_breeding_age: 60, max_lifespan_delta: 0 });
    assert!(!zero_delta.birth_fits(1));
    assert_eq!(zero_delta.try_create(Origin::Signed(1)), None);
}

#[test]
fn try_breed_breeds_when_the_child_fits() {
    let mut m = Module::new(config());
    m.set_extrinsic_index(Some(0));
    m.create_kitty(1).unwrap();
    m.set_extrinsic_index(Some(1));
    m.create_kitty(1).unwrap();
    m.set_block_number(61);
    assert_eq!(m.try_breed(Origin::Signed(1), 0, 1), Some(Ok(())));
    assert_eq!(m.kitties_count(), 3);
    assert_eq!(m.try_breed(Origin::Signed(2), 0, 1), Some(Err(DispatchError::Module(Error::RequiresOwner))));
}

#[test]
fn overpaying_buyer_is_charged_the_asked_price() {
    let mut m = Module::new(config());
    let mut ledger = Ledger::with(&[(1, 10000), (2, 10000), (3, 10000), (4, 10000)]);
    m.create(Origin::Signed(1)).unwrap();
    m.create(Origin::Signed(2)).unwrap();
    m.ask_kitty(1, 0, Some(1000)).unwrap();
    assert_eq!(m.buy_kitty(&mut ledger, 2, 0, 5000), Ok(()));
    assert_eq!(ledger.calls, vec![(2, 1, 1000)]);
    assert_eq!(ledger.free.get(&2), Some(&9000));
    assert_eq!(ledger.free.get(&1), Some(&11000));
    assert_eq!(m.kitty_price(0), None);
    assert_eq!(m.kitty_owner(0), Some(2));
}

#[test]
fn insert_kitty_lists_kitties_in_order() {
    let mut m = Module::new(config());
    m.insert_kitty(0, 1, [0u8; 16]);
    assert_eq!(m.owned_kitties(0, None), Some(LinkedItem { prev: Some(1), next: Some(1) }));
    assert_eq!(m.owned_kitties(0, Some(1)), Some(LinkedItem { prev: None, next: None }));
    m.insert_kitty(0, 2, [0u8; 16]);
    m.insert_kitty(0, 3, [0u8; 16]);
    assert_eq!(m.owned_kitties(0, None), Some(LinkedItem { prev: Some(3), next: Some(1) }));
    assert_eq!(m.owned_kitties(0, Some(1)), Some(LinkedItem { prev: None, next: Some(2) }));
    assert_eq!(m.owned_kitties(0, Some(2)), Some(LinkedItem { prev: Some(1), next: Some(3) }));
    assert_eq!(m.owned_kitties(0, Some(3)), Some(LinkedItem { prev: Some(2), next: None }));
    assert_eq!(m.owned_kitties_list().collect(0, None, 100), (Some(3), vec![1u32, 2, 3]));
    assert_eq!(m.kitties_count(), 3);
    assert_eq!(m.kitty_owner(2), Some(0));
}
