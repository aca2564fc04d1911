use kitties::{Config, DispatchError, Error, LinkedItem, LinkedList, Module, Origin, Trait};
use std::collections::HashMap;

/// Breeding ages and lifespan delta of the test runtime, in blocks.
const MAX_BREEDING_AGE: u64 = 5 * 60000 / 2000;
const MIN_BREEDING_AGE: u64 = 2 * 60000 / 2000;
const MAX_LIFESPAN_DELTA: u64 = 5 * 60_000 / 2000;

fn test_config() -> Config {
    Config {
        max_breeding_age: MAX_BREEDING_AGE,
        min_breeding_age: MIN_BREEDING_AGE,
        max_lifespan_delta: MAX_LIFESPAN_DELTA,
    }
}

fn new_module() -> Module {
    Module::new(test_config())
}

/// A ledger of balances, as the test runtime's currency.
#[derive(Clone)]
struct Balances {
    free: HashMap<u64, u64>,
}

impl Balances {
    fn new() -> Self {
        let mut free = HashMap::new();
        for a in 1..=4u64 {
            free.insert(a, 10000);
        }
        Balances { free }
    }

    fn balance(&self, a: u64) -> u64 {
        *self.free.get(&a).unwrap_or(&0)
    }
}

impl Trait for Balances {
    fn transfer_spec(&self, from: u64, to: u64, value: u64, after: Self, r: Result<(), DispatchError>) -> bool {
        let mut expected = self.clone();
        let expected_r = expected.transfer(from, to, value);
        after.free == expected.free && r == expected_r
    }

    fn transfer(&mut self, from: u64, to: u64, value: u64) -> Result<(), DispatchError> {
        let have = self.balance(from);
        if have < value {
            return Err(DispatchError::Other("InsufficientBalance"));
        }
        self.free.insert(from, have - value);
        let to_have = self.balance(to);
        self.free.insert(to, to_have + value);
        Ok(())
    }
}

fn collect(m: &Module, account: u64) -> Vec<u32> {
    m.owned_kitties_list().collect(account, None, 100).1
}

#[test]
fn create_kitty() {
    let mut m = new_module();
    let _ = m.create_kitty(1);
    assert_eq!(1, m.kitties_count());
    if let Some(kitty) = m.kitties(0) {
        let v: Vec<u8> = (&kitty.dna[..]).into();
        let b = v.iter().fold(0u128, |sum, &x| sum + x as u128);
        assert!(b > 0);
    } else {
        panic!("error")
    }
}

#[test]
fn create_kitty_overflow() {
    let mut m = new_module();
    m.set_kitties_id(u32::MAX);
    let r = m.create_kitty(1);
    assert_eq!(r, Err(DispatchError::Module(Error::KittiesIdOverflow)));
}

#[test]
fn test_transfer() {
    let mut m = new_module();
    let _ = m.create_kitty(1);
    assert_eq!(1, m.kitties_count());
    let _ = m.transfer(Origin::Signed(1), 0, 2);
    assert_eq!(1, m.kitties_count());
}

#[test]
fn breed_age() {
    let mut m = new_module();
    m.set_extrinsic_index(Some(0));
    let _ = m.create_kitty(1);

    m.set_extrinsic_index(Some(1));
    let _ = m.create_kitty(1);

    let r = m.do_breed(1, 0, 1);
    assert_eq!(r, Err(DispatchError::Module(Error::Kitty1TooYoung)));
    assert_eq!(Error::Kitty1TooYoung.code(), 6);
    assert_eq!(Error::Kitty1TooYoung.name(), "Kitty1TooYoung");

    m.set_block_number(MIN_BREEDING_AGE + MAX_BREEDING_AGE * 2 + MAX_LIFESPAN_DELTA);

    let r = m.do_breed(1, 0, 1);
    assert_eq!(r, Err(DispatchError::Module(Error::Kitty1TooOld)));
    assert_eq!(Error::Kitty1TooOld.code(), 7);
    assert_eq!(Error::Kitty1TooOld.name(), "Kitty1TooOld");
}

#[test]
fn test_ask_buy() {
    let mut m = new_module();
    let mut balances = Balances::new();
    // kitty id 0
    let _ = m.create(Origin::Signed(1));
    // kitty id 1
    let _ = m.create(Origin::Signed(2));
    // ask kitty id 0
    assert_eq!(m.ask_kitty(1, 0, Some(1000)), Ok(()));
    assert_eq!(m.kitty_price(0), Some(1000));
    assert_eq!(collect(&m, 1), vec![0u32]);
    assert_eq!(collect(&m, 2), vec![1u32]);
    assert_eq!(m.kitty_owner(0), Some(1));
    assert_eq!(m.kitty_owner(1), Some(2));

    assert_eq!(m.buy_kitty(&mut balances, 2, 0, 1000), Ok(()));
    assert_eq!(collect(&m, 1).len(), 0);
    assert_eq!(collect(&m, 2), vec![1u32, 0]);
    assert_eq!(m.kitty_price(0), None);
    assert_eq!(m.kitty_price(1), None);
    assert_eq!(m.kitty_owner(0), Some(2));
    assert_eq!(m.kitty_owner(1), Some(2));

    assert_eq!(m.kitties_count(), 2);
    let kitty1 = m.kitties(0).unwrap();
    let kitty2 = m.kitties(1).unwrap();
    m.kitty_initialize(kitty1.lifespan + kitty1.birthday);
    m.kitty_initialize(kitty2.lifespan + kitty2.birthday);
    assert_eq!(m.kitty_owner(0), None);
    assert_eq!(m.kitty_owner(1), None);
    assert_eq!(m.kitties(0), None);
    assert_eq!(m.kitties(1), None);
    assert_eq!(m.kitties_count(), 0);
    assert_eq!(collect(&m, 1).len(), 0);
    assert_eq!(collect(&m, 2).len(), 0);
}

#[test]
fn breed_kitty() {
    let mut m = new_module();
    m.set_extrinsic_index(Some(0));
    let _ = m.create_kitty(1);

    m.set_extrinsic_index(Some(1));
    let _ = m.create_kitty(1);

    assert_eq!(2, m.kitties_count());

    m.set_block_number(MIN_BREEDING_AGE + 1);

    assert_eq!(m.do_breed(1, 0, 1), Ok(2));
    assert_eq!(3, m.kitties_count());
    let dna1 = m.kitties(0).unwrap().dna;
    let dna2 = m.kitties(1).unwrap().dna;
    let dna3 = m.kitties(2).unwrap().dna;
    assert_ne!(dna1, dna2);
    assert_ne!(dna1, dna3);
    assert_ne!(dna2, dna3);
}

fn item(prev: Option<u32>, next: Option<u32>) -> Option<LinkedItem> {
    Some(LinkedItem { prev, next })
}

#[test]
fn owned_kitties_can_append_values() {
    let mut list = LinkedList::new();
    list.append(0, 1);

    assert_eq!(list.get(0, None), item(Some(1), Some(1)));
    assert_eq!(list.get(0, Some(1)), item(None, None));

    list.append(0, 2);

    assert_eq!(list.get(0, None), item(Some(2), Some(1)));
    assert_eq!(list.get(0, Some(1)), item(None, Some(2)));
    assert_eq!(list.get(0, Some(2)), item(Some(1), None));

    list.append(0, 3);

    assert_eq!(list.get(0, None), item(Some(3), Some(1)));
    assert_eq!(list.get(0, Some(1)), item(None, Some(2)));
    assert_eq!(list.get(0, Some(2)), item(Some(1), Some(3)));
    assert_eq!(list.get(0, Some(3)), item(Some(2), None));

    assert_eq!(list.collect(0, None, 100), (Some(3), vec![1u32, 2, 3]));
}

#[test]
fn owned_kitties_can_remove_values() {
    let mut list = LinkedList::new();
    list.append(0, 1);
    list.append(0, 2);
    list.append(0, 3);

    list.remove(0, 2);

    assert_eq!(list.get(0, None), item(Some(3), Some(1)));
    assert_eq!(list.get(0, Some(1)), item(None, Some(3)));
    assert_eq!(list.get(0, Some(2)), None);
    assert_eq!(list.get(0, Some(3)), item(Some(1), None));

    list.remove(0, 1);

    assert_eq!(list.get(0, None), item(Some(3), Some(3)));
    assert_eq!(list.get(0, Some(1)), None);
    assert_eq!(list.get(0, Some(2)), None);
    assert_eq!(list.get(0, Some(3)), item(None, None));

    list.remove(0, 3);

    assert_eq!(list.get(0, None), item(None, None));
    assert_eq!(list.get(0, Some(1)), None);
    assert_eq!(list.get(0, Some(2)), None);
    assert_eq!(list.get(0, Some(2)), None);
}
