//! A doubly linked list per account, kept as cells in a key-value store.
//!
//! The cell stored under `(account, None)` is the list's anchor: its `next`
//! names the first value of the list and its `prev` the last one. The cell
//! stored under `(account, Some(value))` links `value` to its neighbours.
use std::collections::HashMap;
use vstd::prelude::*;

verus! {

broadcast use vstd::std_specs::hash::group_hash_axioms;

/// The links stored for one position of a list.
#[derive(Clone, Copy, Debug, PartialEq, Eq)]
pub struct LinkedItem {
    pub prev: Option<u32>,
    pub next: Option<u32>,
}

/// The cell that a missing position reads as.
pub open spec fn empty_item() -> LinkedItem {
    LinkedItem { prev: None, next: None }
}

/// The anchor cell of a list holding `s`.
pub open spec fn head_of(s: Seq<u32>) -> LinkedItem {
    LinkedItem {
        prev: if s.len() > 0 { Some(s.last()) } else { None },
        next: if s.len() > 0 { Some(s[0]) } else { None },
    }
}

/// The cell of the value at position `i` of a list holding `s`.
pub open spec fn item_at(s: Seq<u32>, i: int) -> LinkedItem {
    LinkedItem {
        prev: if i > 0 { Some(s[i - 1]) } else { None },
        next: if i + 1 < s.len() { Some(s[i + 1]) } else { None },
    }
}

/// `s` with every occurrence of `v` taken out.
pub open spec fn without(s: Seq<u32>, v: u32) -> Seq<u32> {
    s.filter(differs_from(v))
}

/// The test "is not `v`".
pub open spec fn differs_from(v: u32) -> spec_fn(u32) -> bool {
    |y: u32| y != v
}

/// Where a walk that resumes after `start` begins in `s`: at the front for
/// `None`, just after `start` where `s` holds it, and past the end otherwise.
pub open spec fn walk_begin(s: Seq<u32>, start: Option<u32>) -> int {
    match start {
        None => 0,
        Some(x) => if s.contains(x) {
            s.index_of(x) + 1
        } else {
            s.len() as int
        },
    }
}

/// How many values a walk of at most `max_count` steps from `begin` collects.
pub open spec fn walk_len(s: Seq<u32>, begin: int, max_count: u32) -> int {
    if s.len() - begin < max_count {
        s.len() - begin
    } else {
        max_count as int
    }
}

/// Filtering by a predicate that every element meets changes nothing.
proof fn lemma_filter_keeps_all(s: Seq<u32>, p: spec_fn(u32) -> bool)
    requires
        forall|i: int| 0 <= i < s.len() ==> p(#[trigger] s[i]),
    ensures
        s.filter(p) == s,
    decreases s.len(),
{
    reveal(Seq::filter);
    if s.len() > 0 {
        lemma_filter_keeps_all(s.drop_last(), p);
        assert(s.drop_last().push(s.last()) =~= s);
    }
}

/// Taking out a value that a list does not hold changes nothing.
pub proof fn lemma_without_absent(s: Seq<u32>, v: u32)
    requires
        !s.contains(v),
    ensures
        without(s, v) == s,
{
    assert forall|i: int| 0 <= i < s.len() implies differs_from(v)(#[trigger] s[i]) by {
        assert(s.contains(s[i]));
    }
    lemma_filter_keeps_all(s, differs_from(v));
}

/// In a list without duplicates, taking out the value at position `i` is
/// removing that position.
pub proof fn lemma_without_at(s: Seq<u32>, i: int)
    requires
        s.no_duplicates(),
        0 <= i < s.len(),
    ensures
        without(s, s[i]) == s.remove(i),
{
    let v = s[i];
    let p = differs_from(v);
    let a = s.subrange(0, i);
    let b = s.subrange(i + 1, s.len() as int);
    let m = seq![v];
    assert(s =~= a + m + b);
    Seq::filter_distributes_over_add(a + m, b, p);
    Seq::filter_distributes_over_add(a, m, p);
    assert forall|k: int| 0 <= k < a.len() implies p(#[trigger] a[k]) by {
        assert(a[k] == s[k]);
    }
    assert forall|k: int| 0 <= k < b.len() implies p(#[trigger] b[k]) by {
        assert(b[k] == s[k + i + 1]);
    }
    lemma_filter_keeps_all(a, p);
    lemma_filter_keeps_all(b, p);
    assert(m.filter(p) =~= Seq::<u32>::empty()) by {
        reveal(Seq::filter);
        assert(m.drop_last() =~= Seq::<u32>::empty());
        assert(m.drop_last().filter(p) =~= Seq::<u32>::empty()) by {
            reveal(Seq::filter);
        }
    }
    assert(a + Seq::<u32>::empty() + b =~= s.remove(i));
}

/// What a list holds after taking out `v`: what it held, but `v`.
pub proof fn lemma_without_contains(s: Seq<u32>, v: u32, x: u32)
    ensures
        without(s, v).contains(x) <==> (s.contains(x) && x != v),
{
    if without(s, v).contains(x) {
        s.lemma_filter_contains_rev(differs_from(v), x);
    }
    if s.contains(x) && x != v {
        let i = choose|i: int| 0 <= i < s.len() && s[i] == x;
        s.lemma_filter_contains(differs_from(v), i);
    }
}

/// Taking out the value that was just added at the end of a list that did not
/// hold it gives back the list.
pub proof fn lemma_without_push(s: Seq<u32>, v: u32)
    requires
        !s.contains(v),
    ensures
        without(s.push(v), v) == s,
{
    s.lemma_filter_push(v, differs_from(v));
    lemma_without_absent(s, v);
}

/// The test "is none of `ids`".
pub open spec fn not_in(ids: Seq<u32>) -> spec_fn(u32) -> bool {
    |y: u32| !ids.contains(y)
}

/// `s` with every one of `ids` taken out.
pub open spec fn without_all(s: Seq<u32>, ids: Seq<u32>) -> Seq<u32> {
    s.filter(not_in(ids))
}

/// Filtering twice is filtering once by both tests.
proof fn lemma_filter_twice(s: Seq<u32>, p: spec_fn(u32) -> bool, q: spec_fn(u32) -> bool, r: spec_fn(u32) -> bool)
    requires
        forall|y: u32| #[trigger] r(y) == (p(y) && q(y)),
    ensures
        s.filter(p).filter(q) == s.filter(r),
    decreases s.len(),
{
    if s.len() > 0 {
        let init = s.drop_last();
        let x = s.last();
        lemma_filter_twice(init, p, q, r);
        assert(init.push(x) =~= s);
        init.lemma_filter_push(x, p);
        init.lemma_filter_push(x, r);
        if p(x) {
            init.filter(p).lemma_filter_push(x, q);
        }
    } else {
        reveal(Seq::filter);
    }
}

/// Taking out nothing changes nothing.
pub proof fn lemma_without_all_none(s: Seq<u32>)
    ensures
        without_all(s, Seq::empty()) == s,
{
    lemma_filter_keeps_all(s, not_in(Seq::empty()));
}

/// Taking out the values `ids` and then `x` is taking out `ids` with `x`.
pub proof fn lemma_without_all_push(s: Seq<u32>, ids: Seq<u32>, x: u32)
    ensures
        without(without_all(s, ids), x) == without_all(s, ids.push(x)),
{
    assert forall|y: u32| #[trigger] not_in(ids.push(x))(y) == (not_in(ids)(y) && differs_from(x)(y)) by {
        if ids.push(x).contains(y) {
            let i = choose|i: int| 0 <= i < ids.len() + 1 && ids.push(x)[i] == y;
            if i < ids.len() {
                assert(ids[i] == y);
            }
        }
        if ids.contains(y) {
            let i = choose|i: int| 0 <= i < ids.len() && ids[i] == y;
            assert(ids.push(x)[i] == y);
        }
        if y == x {
            assert(ids.push(x)[ids.len() as int] == x);
        }
    }
    lemma_filter_twice(s, not_in(ids), differs_from(x), not_in(ids.push(x)));
}

/// What a list holds after taking out `ids`: what it held, but those.
pub proof fn lemma_without_all_contains(s: Seq<u32>, ids: Seq<u32>, x: u32)
    ensures
        without_all(s, ids).contains(x) <==> (s.contains(x) && !ids.contains(x)),
{
    if without_all(s, ids).contains(x) {
        s.lemma_filter_contains_rev(not_in(ids), x);
    }
    if s.contains(x) && !ids.contains(x) {
        let i = choose|i: int| 0 <= i < s.len() && s[i] == x;
        s.lemma_filter_contains(not_in(ids), i);
    }
}

/// The store key of the cell for `(account, value)`.
pub open spec fn slot(account: u64, value: Option<u32>) -> int {
    match value {
        None => account * 0x2_0000_0000,
        Some(v) => account * 0x2_0000_0000 + 0x1_0000_0000 + v,
    }
}

proof fn lemma_slot_bounds(account: u64, value: Option<u32>)
    ensures
        0 <= slot(account, value) < account * 0x2_0000_0000 + 0x2_0000_0000,
        account * 0x2_0000_0000 + 0x2_0000_0000 <= 0x2_0000_0000_0000_0000_0000_0000,
{
}

/// Distinct cells live under distinct keys.
proof fn lemma_slot_injective(a1: u64, v1: Option<u32>, a2: u64, v2: Option<u32>)
    ensures
        slot(a1, v1) == slot(a2, v2) ==> a1 == a2 && v1 == v2,
{
    lemma_slot_bounds(a1, v1);
    lemma_slot_bounds(a2, v2);
    if a1 < a2 {
        assert(a1 * 0x2_0000_0000 + 0x2_0000_0000 <= a2 * 0x2_0000_0000);
    } else if a2 < a1 {
        assert(a2 * 0x2_0000_0000 + 0x2_0000_0000 <= a1 * 0x2_0000_0000);
    }
}

fn slot_key(account: u64, value: Option<u32>) -> (k: u128)
    ensures
        k == slot(account, value),
{
    proof {
        lemma_slot_bounds(account, value);
    }
    let base: u128 = (account as u128) * 0x2_0000_0000;
    match value {
        None => base,
        Some(v) => base + 0x1_0000_0000 + (v as u128),
    }
}

/// Lists of `u32` values, one per `u64` account.
pub struct LinkedList {
    entries: HashMap<u128, LinkedItem>,
    lists: Ghost<Map<u64, Seq<u32>>>,
}

impl LinkedList {
    /// The cell stored for `(account, value)`, if any.
    pub closed spec fn entry(&self, account: u64, value: Option<u32>) -> Option<LinkedItem> {
        let k = slot(account, value) as u128;
        if self.entries@.contains_key(k) {
            Some(self.entries@[k])
        } else {
            None
        }
    }

    /// The cell for `(account, value)` as a read sees it: a missing cell reads
    /// as empty.
    pub open spec fn read_spec(&self, account: u64, value: Option<u32>) -> LinkedItem {
        match self.entry(account, value) {
            Some(item) => item,
            None => empty_item(),
        }
    }

    /// The values in the list of `account`, first to last.
    pub closed spec fn list(&self, account: u64) -> Seq<u32> {
        if self.lists@.contains_key(account) {
            self.lists@[account]
        } else {
            Seq::empty()
        }
    }

    /// The cells of each account spell out its list.
    pub open spec fn account_wf(&self, a: u64) -> bool {
        let s = self.list(a);
        &&& s.no_duplicates()
        &&& self.read_spec(a, None) == head_of(s)
        &&& (self.entry(a, None) is Some || s.len() == 0)
        &&& forall|i: int| 0 <= i < s.len() ==> #[trigger] self.entry(a, Some(s[i])) == Some(item_at(s, i))
        &&& forall|x: u32| !s.contains(x) ==> #[trigger] self.entry(a, Some(x)) is None
    }

    /// The cells of every account spell out its list.
    pub open spec fn wf(&self) -> bool {
        forall|a: u64| #[trigger] self.account_wf(a)
    }

    /// In a well-formed store a value has a cell in an account exactly where
    /// the account's list holds it, and no list holds a value twice.
    pub proof fn lemma_entry_iff_listed(&self, account: u64, value: u32)
        requires
            self.wf(),
        ensures
            self.entry(account, Some(value)) is Some <==> self.list(account).contains(value),
            self.list(account).no_duplicates(),
    {
        assert(self.account_wf(account));
        if self.list(account).contains(value) {
            let i = choose|i: int| 0 <= i < self.list(account).len() && self.list(account)[i] == value;
            assert(self.entry(account, Some(self.list(account)[i])) == Some(item_at(self.list(account), i)));
        }
    }

    /// An empty store.
    pub fn new() -> (r: Self)
        ensures
            r.wf(),
            forall|a: u64| #[trigger] r.list(a) == Seq::<u32>::empty(),
            forall|a: u64, v: Option<u32>| #[trigger] r.entry(a, v) is None,
    {
        let r = LinkedList { entries: HashMap::new(), lists: Ghost(Map::empty()) };
        assert forall|a: u64| #[trigger] r.account_wf(a) by {
            assert(r.list(a) =~= Seq::<u32>::empty());
        }
        r
    }

    /// The cell stored for `(account, value)`.
    pub fn get(&self, account: u64, value: Option<u32>) -> (r: Option<LinkedItem>)
        ensures
            r == self.entry(account, value),
    {
        let k = slot_key(account, value);
        match self.entries.get(&k) {
            Some(item) => Some(*item),
            None => None,
        }
    }

    /// Whether a cell is stored for `(account, value)`.
    pub fn contains(&self, account: u64, value: Option<u32>) -> (r: bool)
        ensures
            r == self.entry(account, value) is Some,
    {
        let k = slot_key(account, value);
        self.entries.contains_key(&k)
    }

    /// The cell for `(account, value)`, or an empty one where none is stored.
    fn read(&self, account: u64, value: Option<u32>) -> (r: LinkedItem)
        ensures
            r == self.read_spec(account, value),
    {
        match self.get(account, value) {
            Some(item) => item,
            None => LinkedItem { prev: None, next: None },
        }
    }

    /// Stores `item` as the cell for `(account, value)`.
    fn write(&mut self, account: u64, value: Option<u32>, item: LinkedItem)
        ensures
            final(self).lists == old(self).lists,
            final(self).entry(account, value) == Some(item),
            forall|b: u64, y: Option<u32>|
                !(b == account && y == value) ==> #[trigger] final(self).entry(b, y) == old(self).entry(b, y),
    {
        let k = slot_key(account, value);
        self.entries.insert(k, item);
        proof {
            assert forall|b: u64, y: Option<u32>|
                !(b == account && y == value) implies #[trigger] self.entry(b, y) == old(self).entry(b, y) by {
                lemma_slot_injective(b, y, account, value);
                lemma_slot_bounds(b, y);
                lemma_slot_bounds(account, value);
            }
        }
    }

    /// Adds `value` at the end of the list of `account`.
    pub fn append(&mut self, account: u64, value: u32)
        requires
            old(self).wf(),
            !old(self).list(account).contains(value),
        ensures
            final(self).wf(),
            final(self).list(account) == old(self).list(account).push(value),
            final(self).entry(account, None) is Some,
            forall|b: u64| b != account ==> #[trigger] final(self).list(b) == old(self).list(b),
            forall|b: u64, y: Option<u32>|
                b != account ==> #[trigger] final(self).entry(b, y) == old(self).entry(b, y),
    {
        let ghost s = self.list(account);
        let ghost n = s.len() as int;
        proof {
            assert(self.account_wf(account));
        }
        let head = self.read(account, None);
        let new_head = LinkedItem { prev: Some(value), next: head.next };
        self.write(account, None, new_head);
        let ghost st1 = *self;
        let prev = self.read(account, head.prev);
        proof {
            if n > 0 {
                assert(old(self).entry(account, Some(s[n - 1])) == Some(item_at(s, n - 1)));
            }
        }
        let new_prev = LinkedItem { prev: prev.prev, next: Some(value) };
        self.write(account, head.prev, new_prev);
        let ghost st2 = *self;
        let item = LinkedItem { prev: head.prev, next: None };
        self.write(account, Some(value), item);
        let ghost st3 = *self;
        let ghost s2 = s.push(value);
        self.lists = Ghost(self.lists@.insert(account, s2));
        proof {
            assert forall|b: u64, y: Option<u32>| #[trigger] self.entry(b, y) == st3.entry(b, y) by {}
            assert forall|b: u64, y: Option<u32>| b != account implies #[trigger] self.entry(b, y) == old(self).entry(b, y) by {
                assert(self.entry(b, y) == st3.entry(b, y));
                assert(st3.entry(b, y) == st2.entry(b, y));
                assert(st2.entry(b, y) == st1.entry(b, y));
                assert(st1.entry(b, y) == old(self).entry(b, y));
            }

            assert(self.list(account) == s2);
            assert forall|b: u64| b != account implies #[trigger] self.list(b) == old(self).list(b) by {}
            assert forall|b: u64| #[trigger] self.account_wf(b) by {
                if b != account {
                    assert(old(self).account_wf(b));
                    assert(self.list(b) == old(self).list(b));
                    assert forall|i: int| 0 <= i < self.list(b).len() implies
                        #[trigger] self.entry(b, Some(self.list(b)[i])) == Some(item_at(self.list(b), i)) by {
                        let x = self.list(b)[i];
                        assert(x == old(self).list(b)[i]);
                        assert(old(self).entry(b, Some(old(self).list(b)[i])) == Some(item_at(old(self).list(b), i)));
                        assert(self.entry(b, Some(x)) == old(self).entry(b, Some(x)));
                    }
                    assert forall|x: u32| !self.list(b).contains(x) implies #[trigger] self.entry(b, Some(x)) is None by {
                        assert(old(self).entry(b, Some(x)) is None);
                    }
                } else {
                    assert(s2.no_duplicates()) by {
                        assert forall|i: int, j: int| 0 <= i < s2.len() && 0 <= j < s2.len() && i != j
                            implies s2[i] != s2[j] by {
                            if i < n && j < n {
                                assert(s2[i] == s[i] && s2[j] == s[j]);
                            } else if i == n {
                                assert(s2[j] == s[j]);
                                assert(s.contains(s[j]));
                            } else {
                                assert(s2[i] == s[i]);
                                assert(s.contains(s[i]));
                            }
                        }
                    }
                    assert(self.read_spec(account, None) == head_of(s2));
                    assert forall|i: int| 0 <= i < s2.len() implies
                        #[trigger] self.entry(account, Some(s2[i])) == Some(item_at(s2, i)) by {
                        if i < n - 1 {
                            assert(s2[i] == s[i]);
                            assert(old(self).entry(account, Some(s[i])) == Some(item_at(s, i)));
                            assert(s[i] != s[n - 1]);
                            assert(s[i] != value);
                        } else if i == n - 1 {
                            assert(s2[i] == s[i]);
                            assert(s[i] != value);
                        }
                    }
                    assert forall|x: u32| !s2.contains(x) implies #[trigger] self.entry(account, Some(x)) is None by {
                        assert(!s.contains(x)) by {
                            if s.contains(x) {
                                let j = choose|j: int| 0 <= j < s.len() && s[j] == x;
                                assert(s2[j] == x);
                            }
                        }
                        assert(old(self).entry(account, Some(x)) is None);
                        assert(x != value) by { assert(s2[n] == value); }
                        if n > 0 {
                            assert(x != s[n - 1]) by { assert(s2[n - 1] == s[n - 1]); }
                        }
                    }
                }
            }
        }
    }

    /// Takes `value` out of the list of `account`; nothing changes where the
    /// list does not hold it.
    pub fn remove(&mut self, account: u64, value: u32)
        requires
            old(self).wf(),
        ensures
            final(self).wf(),
            final(self).list(account) == without(old(self).list(account), value),
            old(self).list(account).contains(value) ==> final(self).entry(account, None) is Some,
            !old(self).list(account).contains(value) ==> forall|y: Option<u32>|
                #[trigger] final(self).entry(account, y) == old(self).entry(account, y),
            forall|b: u64| b != account ==> #[trigger] final(self).list(b) == old(self).list(b),
            forall|b: u64, y: Option<u32>|
                b != account ==> #[trigger] final(self).entry(b, y) == old(self).entry(b, y),
    {
        let ghost s = self.list(account);
        let ghost n = s.len() as int;
        proof {
            assert(self.account_wf(account));
        }
        let taken = self.take(account, Some(value));
        let ghost st1 = *self;
        match taken {
            None => {
                proof {
                    if s.contains(value) {
                        let i = choose|i: int| 0 <= i < s.len() && s[i] == value;
                        assert(old(self).entry(account, Some(s[i])) == Some(item_at(s, i)));
                    }
                    lemma_without_absent(s, value);
                    assert forall|b: u64, y: Option<u32>| #[trigger] self.entry(b, y) == old(self).entry(b, y) by {}
                    assert forall|b: u64| #[trigger] self.account_wf(b) by {
                        assert(old(self).account_wf(b));
                        assert(self.list(b) == old(self).list(b));
                        assert forall|j: int| 0 <= j < self.list(b).len() implies
                            #[trigger] self.entry(b, Some(self.list(b)[j])) == Some(item_at(self.list(b), j)) by {
                            assert(old(self).entry(b, Some(old(self).list(b)[j])) == Some(item_at(old(self).list(b), j)));
                        }
                        assert forall|x: u32| !self.list(b).contains(x) implies #[trigger] self.entry(b, Some(x)) is None by {
                            assert(old(self).entry(b, Some(x)) is None);
                        }
                    }
                }
            },
            Some(item) => {
                let ghost i = choose|i: int| 0 <= i < s.len() && s[i] == value;
                proof {
                    assert(s.contains(value)) by {
                        if !s.contains(value) {
                            assert(old(self).entry(account, Some(value)) is None);
                        }
                    }
                    assert(old(self).entry(account, Some(s[i])) == Some(item_at(s, i)));
                    assert(item == item_at(s, i));
                    if i > 0 {
                        assert(old(self).entry(account, Some(s[i - 1])) == Some(item_at(s, i - 1)));
                        assert(s[i - 1] != value);
                    }
                    if i + 1 < n {
                        assert(old(self).entry(account, Some(s[i + 1])) == Some(item_at(s, i + 1)));
                        assert(s[i + 1] != value);
                    }
                    if i > 0 && i + 1 < n {
                        assert(s[i - 1] != s[i + 1]);
                    }
                }
                let prev = self.read(account, item.prev);
                let new_prev = LinkedItem { prev: prev.prev, next: item.next };
                self.write(account, item.prev, new_prev);
                let ghost st2 = *self;
                let next = self.read(account, item.next);
                proof {
                    if i > 0 {
                        assert(prev == item_at(s, i - 1));
                    } else {
                        assert(prev == head_of(s));
                    }
                    if i + 1 < n {
                        assert(next == item_at(s, i + 1));
                    } else if i > 0 {
                        assert(next == head_of(s));
                    } else {
                        assert(next == new_prev);
                    }
                }
                let new_next = LinkedItem { prev: item.prev, next: next.next };
                self.write(account, item.next, new_next);
                let ghost st3 = *self;
                let ghost s2 = s.remove(i);
                self.lists = Ghost(self.lists@.insert(account, s2));
                proof {
                    lemma_without_at(s, i);
                    assert(self.list(account) == s2);
                    assert forall|b: u64, y: Option<u32>| #[trigger] self.entry(b, y) == st3.entry(b, y) by {}
                    assert forall|y: Option<u32>| #[trigger] self.entry(account, y) == (if y == item.next {
                        Some(new_next)
                    } else if y == item.prev {
                        Some(new_prev)
                    } else {
                        st1.entry(account, y)
                    }) by {
                        assert(self.entry(account, y) == st3.entry(account, y));
                        if y != item.next {
                            assert(st3.entry(account, y) == st2.entry(account, y));
                            if y != item.prev {
                                assert(st2.entry(account, y) == st1.entry(account, y));
                            }
                        }
                    }
                    assert forall|b: u64, y: Option<u32>| b != account implies #[trigger] self.entry(b, y) == old(self).entry(b, y) by {
                        assert(self.entry(b, y) == st3.entry(b, y));
                        assert(st3.entry(b, y) == st2.entry(b, y));
                        assert(st2.entry(b, y) == st1.entry(b, y));
                        assert(st1.entry(b, y) == old(self).entry(b, y));
                    }
                    assert(s2.no_duplicates()) by {
                        assert forall|j: int, k: int| 0 <= j < s2.len() && 0 <= k < s2.len() && j != k
                            implies s2[j] != s2[k] by {
                            let jj = if j < i { j } else { j + 1 };
                            let kk = if k < i { k } else { k + 1 };
                            assert(s2[j] == s[jj]);
                            assert(s2[k] == s[kk]);
                        }
                    }
                    assert(self.read_spec(account, None) == head_of(s2)) by {
                        if n == 1 {
                        } else if i == 0 {
                            assert(s2[0] == s[1]);
                            assert(s2.last() == s.last());
                        } else if i == n - 1 {
                            assert(s2[0] == s[0]);
                            assert(s2.last() == s[n - 2]);
                        } else {
                            assert(s2[0] == s[0]);
                            assert(s2.last() == s.last());
                            assert(self.entry(account, None) == st1.entry(account, None));
                        }
                    }
                    assert forall|j: int| 0 <= j < s2.len() implies
                        #[trigger] self.entry(account, Some(s2[j])) == Some(item_at(s2, j)) by {
                        let jj = if j < i { j } else { j + 1 };
                        assert(s2[j] == s[jj]);
                        assert(old(self).entry(account, Some(s[jj])) == Some(item_at(s, jj)));
                        if j + 1 < s2.len() {
                            assert(s2[j + 1] == (if j + 1 < i { s[j + 1] } else { s[j + 2] }));
                        }
                        if j > 0 {
                            assert(s2[j - 1] == (if j - 1 < i { s[j - 1] } else { s[j] }));
                        }
                        if jj == i - 1 {
                            assert(Some(s[jj]) == item.prev);
                        } else if jj == i + 1 {
                            assert(Some(s[jj]) == item.next);
                            if i > 0 {
                                assert(Some(s[jj]) != item.prev);
                            }
                        } else {
                            assert(s[jj] != value);
                            if i > 0 {
                                assert(s[jj] != s[i - 1]);
                            }
                            if i + 1 < n {
                                assert(s[jj] != s[i + 1]);
                            }
                            assert(self.entry(account, Some(s[jj])) == st1.entry(account, Some(s[jj])));
                        }
                    }
                    assert forall|x: u32| !s2.contains(x) implies #[trigger] self.entry(account, Some(x)) is None by {
                        if x == value {
                            if i > 0 {
                                assert(s[i - 1] != value);
                            }
                            if i + 1 < n {
                                assert(s[i + 1] != value);
                            }
                        } else {
                            assert(!s.contains(x)) by {
                                if s.contains(x) {
                                    let k = choose|k: int| 0 <= k < s.len() && s[k] == x;
                                    let kk = if k < i { k } else { k - 1 };
                                    assert(s2[kk] == x);
                                }
                            }
                            assert(old(self).entry(account, Some(x)) is None);
                            if i > 0 {
                                assert(s[i - 1] != x) by { assert(s.contains(s[i - 1])); }
                            }
                            if i + 1 < n {
                                assert(s[i + 1] != x) by { assert(s.contains(s[i + 1])); }
                            }
                        }
                    }
                    assert forall|b: u64| #[trigger] self.account_wf(b) by {
                        if b != account {
                            assert(old(self).account_wf(b));
                            assert(self.list(b) == old(self).list(b));
                            assert forall|j: int| 0 <= j < self.list(b).len() implies
                                #[trigger] self.entry(b, Some(self.list(b)[j])) == Some(item_at(self.list(b), j)) by {
                                assert(old(self).entry(b, Some(old(self).list(b)[j])) == Some(item_at(old(self).list(b), j)));
                            }
                            assert forall|x: u32| !self.list(b).contains(x) implies #[trigger] self.entry(b, Some(x)) is None by {
                                assert(old(self).entry(b, Some(x)) is None);
                            }
                        }
                    }
                }
            },
        }
    }

    /// Walks the list of `account` from just after `start` (from its front for
    /// `None`), collecting at most `max_count` values. Returns the last value
    /// collected (`start` where none was) and the values in list order.
    pub fn collect(&self, account: u64, start: Option<u32>, max_count: u32) -> (r: (Option<u32>, Vec<u32>))
        requires
            self.wf(),
        ensures
            ({
                let s = self.list(account);
                let b = walk_begin(s, start);
                let k = walk_len(s, b, max_count);
                &&& r.1@ == s.subrange(b, b + k)
                &&& r.0 == if k == 0 {
                    start
                } else {
                    Some(s[b + k - 1])
                }
            }),
    {
        let ghost s = self.list(account);
        let ghost n = s.len() as int;
        let ghost b = walk_begin(s, start);
        proof {
            assert(self.account_wf(account));
            if let Some(x) = start {
                if s.contains(x) {
                    assert(0 <= s.index_of(x) < n && s[s.index_of(x)] == x);
                }
            }
        }
        let mut values: Vec<u32> = Vec::new();
        let mut cur = start;
        let mut count: u32 = 0;
        let mut done = false;
        while count < max_count && !done
            invariant
                self.wf(),
                s == self.list(account),
                n == s.len(),
                b == walk_begin(s, start),
                0 <= b <= n,
                count <= max_count,
                b + count <= n,
                values@ == s.subrange(b, b + count),
                cur == (if count == 0 {
                    start
                } else {
                    Some(s[b + count - 1])
                }),
                done ==> b + count == n,
            decreases max_count - count + (if done { 0int } else { 1int }),
        {
            let item = self.read(account, cur);
            proof {
                assert(self.account_wf(account));
                if count > 0 {
                    assert(self.entry(account, Some(s[b + count - 1])) == Some(item_at(s, b + count - 1)));
                } else if let Some(x) = start {
                    if s.contains(x) {
                        let p = s.index_of(x);
                        assert(self.entry(account, Some(s[p])) == Some(item_at(s, p)));
                    } else {
                        assert(self.entry(account, Some(x)) is None);
                    }
                }
                assert(item.next == (if b + count < n {
                    Some(s[b + count])
                } else {
                    None::<u32>
                }));
            }
            match item.next {
                Some(v) => {
                    values.push(v);
                    cur = Some(v);
                    proof {
                        assert(values@ =~= s.subrange(b, b + count + 1));
                    }
                    count = count + 1;
                },
                None => {
                    done = true;
                },
            }
        }
        (cur, values)
    }

    /// Removes and returns the cell for `(account, value)`.
    fn take(&mut self, account: u64, value: Option<u32>) -> (r: Option<LinkedItem>)
        ensures
            r == old(self).entry(account, value),
            final(self).lists == old(self).lists,
            final(self).entry(account, value) is None,
            forall|b: u64, y: Option<u32>|
                !(b == account && y == value) ==> #[trigger] final(self).entry(b, y) == old(self).entry(b, y),
    {
        let k = slot_key(account, value);
        let r = self.entries.remove(&k);
        proof {
            assert forall|b: u64, y: Option<u32>|
                !(b == account && y == value) implies #[trigger] self.entry(b, y) == old(self).entry(b, y) by {
                lemma_slot_injective(b, y, account, value);
                lemma_slot_bounds(b, y);
                lemma_slot_bounds(account, value);
            }
        }
        r
    }
}

} // verus!
