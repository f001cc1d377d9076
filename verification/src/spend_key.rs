//! Wallet-side bookkeeping of discrete unit-valued coins: a mapping from
//! coin id to spend key, supporting spend, split and lookup. Value
//! conservation on split is enforced here over machine integers; the
//! double-spend defense proper lives in the ledger, not here.

use vstd::prelude::*;
use vstd::arithmetic::div_mod::lemma_add_mod_noop_right;

use crate::errors::LedgerError;
use crate::field::{fe_add, fe_from_i64, field_modulus, mod_value, FieldElement};
use crate::oracle::{random_field_element, random_i32};

verus! {

/// A coin: its serial number, its integer value, and whether it has been
/// spent.
#[derive(Clone, Copy, Debug, PartialEq, Eq, Structural)]
pub struct SpendKey {
    pub sn: FieldElement,
    pub value: i32,
    pub is_spent: bool,
}

/// The field element a spend key folds to: serial number plus value plus
/// spent flag, in the field.
pub open spec fn spend_key_value(k: SpendKey) -> nat {
    mod_value(k.sn@ + k.value + (if k.is_spent {
        1int
    } else {
        0int
    }))
}

impl SpendKey {
    /// Well-formedness: the serial number is canonical.
    pub open spec fn inv(&self) -> bool {
        self.sn.inv()
    }

    pub fn new(key: FieldElement, spent: bool, val: i32) -> (r: SpendKey)
        ensures
            r == (SpendKey { sn: key, value: val, is_spent: spent }),
    {
        SpendKey { sn: key, value: val, is_spent: spent }
    }

    pub fn sn(&self) -> (r: FieldElement)
        ensures
            r == self.sn,
    {
        self.sn
    }

    pub fn is_spent(&self) -> (r: bool)
        ensures
            r == self.is_spent,
    {
        self.is_spent
    }

    pub fn value(&self) -> (r: i32)
        ensures
            r == self.value,
    {
        self.value
    }

    /// A coin with a sampled serial number and value, already marked
    /// spent. Nothing is assumed of the sampled values beyond canonical
    /// form.
    pub fn from_random() -> (r: SpendKey)
        ensures
            r.inv(),
            r.is_spent,
    {
        SpendKey { sn: random_field_element(), value: random_i32(), is_spent: true }
    }

    /// Folds the coin into one field element:
    /// `sn + value + (1 if spent else 0)`, all in the field.
    pub fn to_fr(&self) -> (r: FieldElement)
        requires
            self.inv(),
        ensures
            r.inv(),
            r@ == spend_key_value(*self),
    {
        let value_part = fe_from_i64(self.value as i64);
        let flag_part = if self.is_spent {
            FieldElement::from_u64(1)
        } else {
            FieldElement::from_u64(0)
        };
        let partial = fe_add(&self.sn, &value_part);
        let total = fe_add(&partial, &flag_part);
        proof {
            let p = field_modulus() as int;
            let v = self.value as int;
            let f: int = if self.is_spent {
                1
            } else {
                0
            };
            lemma_add_mod_noop_right(self.sn@ as int, v, p);
            assert(partial@ == (self.sn@ + v) % p);
            lemma_add_mod_noop_right(f, self.sn@ + v, p);
            assert(total@ == (self.sn@ + v + f) % p);
        }
        total
    }
}

/// Whether some entry of `s` carries the id.
pub open spec fn has_id(s: Seq<(usize, SpendKey)>, id: usize) -> bool {
    exists|i: int| 0 <= i < s.len() && s[i].0 == id
}

/// `m` is an id of `s` and no id of `s` exceeds it.
pub open spec fn is_max_id(s: Seq<(usize, SpendKey)>, m: usize) -> bool {
    &&& has_id(s, m)
    &&& forall|j: int| 0 <= j < s.len() ==> (#[trigger] s[j]).0 <= m
}

/// The coin map: `(id, spend key)` pairs with unique ids.
#[derive(Clone)]
pub struct SpendKeyMap {
    pub entries: Vec<(usize, SpendKey)>,
}

impl SpendKeyMap {
    /// Well-formedness: ids unique and every key canonical.
    pub open spec fn inv(&self) -> bool {
        &&& forall|i: int, j: int|
            0 <= i < j < self.entries@.len() ==> (#[trigger] self.entries@[i]).0 != (
            #[trigger] self.entries@[j]).0
        &&& forall|i: int| 0 <= i < self.entries@.len() ==> (#[trigger] self.entries@[i]).1.inv()
    }

    /// Builds the map from an initial batch, assigning sequential ids from
    /// 0. Of each tuple the second field is the serial number and the
    /// fourth the value; coins start unspent.
    pub fn new(data: Vec<(FieldElement, FieldElement, FieldElement, i32)>) -> (r: SpendKeyMap)
        requires
            forall|i: int| 0 <= i < data@.len() ==> (#[trigger] data@[i]).1.inv(),
        ensures
            r.inv(),
            r.entries@.len() == data@.len(),
            forall|i: int|
                0 <= i < data@.len() ==> (#[trigger] r.entries@[i]) == (
                i as usize,
                (SpendKey { sn: data@[i].1, value: data@[i].3, is_spent: false }),
                ),
    {
        let mut entries: Vec<(usize, SpendKey)> = Vec::new();
        let mut i: usize = 0;
        while i < data.len()
            invariant
                forall|j: int| 0 <= j < data@.len() ==> (#[trigger] data@[j]).1.inv(),
                i <= data@.len(),
                entries@.len() == i,
                forall|j: int|
                    0 <= j < i ==> (#[trigger] entries@[j]) == (
                    j as usize,
                    (SpendKey { sn: data@[j].1, value: data@[j].3, is_spent: false }),
                    ),
            decreases data@.len() - i,
        {
            let element = data[i];
            entries.push((i, SpendKey::new(element.1, false, element.3)));
            i = i + 1;
        }
        SpendKeyMap { entries }
    }

    /// A copy of the `(id, spend key)` pairs, in storage order.
    pub fn inner(&self) -> (r: Vec<(usize, SpendKey)>)
        ensures
            r@ == self.entries@,
    {
        let mut r: Vec<(usize, SpendKey)> = Vec::new();
        let mut i: usize = 0;
        while i < self.entries.len()
            invariant
                i <= self.entries@.len(),
                r@ == self.entries@.subrange(0, i as int),
            decreases self.entries@.len() - i,
        {
            r.push(self.entries[i]);
            i = i + 1;
        }
        proof {
            assert(r@ =~= self.entries@);
        }
        r
    }

    /// The storage index of the entry carrying `coin_id`, if any.
    fn find_index(&self, coin_id: usize) -> (r: Option<usize>)
        ensures
            match r {
                Some(i) => (i as int) < self.entries@.len() && self.entries@[i as int].0 == coin_id,
                None => !has_id(self.entries@, coin_id),
            },
    {
        let mut i: usize = 0;
        while i < self.entries.len()
            invariant
                i <= self.entries@.len(),
                forall|j: int| 0 <= j < i ==> (#[trigger] self.entries@[j]).0 != coin_id,
            decreases self.entries@.len() - i,
        {
            if self.entries[i].0 == coin_id {
                return Some(i);
            }
            i = i + 1;
        }
        None
    }

    /// Marks the coin spent. Fails with `UnknownCoinId` exactly when the
    /// id is absent; re-spending an already spent coin is permitted here
    /// (the ledger, not this map, enforces spend-once).
    pub fn spend_coin(&mut self, coin_id: usize) -> (r: Result<(), LedgerError>)
        requires
            old(self).inv(),
        ensures
            final(self).inv(),
            match r {
                Ok(()) => {
                    &&& has_id(old(self).entries@, coin_id)
                    &&& final(self).entries@.len() == old(self).entries@.len()
                    &&& forall|j: int|
                        0 <= j < old(self).entries@.len() ==> #[trigger] final(self).entries@[j]
                            == (if old(self).entries@[j].0 == coin_id {
                            (
                            coin_id,
                            (SpendKey {
                                sn: old(self).entries@[j].1.sn,
                                value: old(self).entries@[j].1.value,
                                is_spent: true,
                            }),
                            )
                        } else {
                            old(self).entries@[j]
                        })
                },
                Err(e) => !has_id(old(self).entries@, coin_id) && *final(self) == *old(self) && e
                    == (LedgerError::UnknownCoinId { coin_id }),
            },
    {
        let idx = match self.find_index(coin_id) {
            Some(idx) => idx,
            None => {
                return Err(LedgerError::UnknownCoinId { coin_id });
            },
        };
        let k = self.entries[idx].1;
        self.entries.set(idx, (coin_id, SpendKey { sn: k.sn, value: k.value, is_spent: true }));
        proof {
            assert forall|j: int|
                0 <= j < old(self).entries@.len() && j != idx implies (#[trigger] old(
                self,
            ).entries@[j]).0 != coin_id by {
                assert(old(self).entries@[idx as int].0 == coin_id);
            }
        }
        Ok(())
    }

    /// Marks every listed coin spent. All ids are validated before any
    /// entry is touched, so on failure the map is unchanged; the reported
    /// id is the first absent one in list order.
    pub fn spend_coins(&mut self, coin_ids: Vec<usize>) -> (r: Result<(), LedgerError>)
        requires
            old(self).inv(),
        ensures
            final(self).inv(),
            match r {
                Ok(()) => {
                    &&& forall|k: int|
                        0 <= k < coin_ids@.len() ==> has_id(
                            old(self).entries@,
                            #[trigger] coin_ids@[k],
                        )
                    &&& final(self).entries@.len() == old(self).entries@.len()
                    &&& forall|j: int|
                        0 <= j < old(self).entries@.len() ==> #[trigger] final(self).entries@[j]
                            == (
                        old(self).entries@[j].0,
                        (SpendKey {
                            sn: old(self).entries@[j].1.sn,
                            value: old(self).entries@[j].1.value,
                            is_spent: old(self).entries@[j].1.is_spent || coin_ids@.contains(
                                old(self).entries@[j].0,
                            ),
                        }),
                        )
                },
                Err(e) => {
                    &&& *final(self) == *old(self)
                    &&& exists|k: int|
                        {
                            &&& 0 <= k < coin_ids@.len()
                            &&& !has_id(old(self).entries@, #[trigger] coin_ids@[k])
                            &&& e == (LedgerError::UnknownCoinId { coin_id: coin_ids@[k] })
                            &&& forall|j: int|
                                0 <= j < k ==> has_id(old(self).entries@, #[trigger] coin_ids@[j])
                        }
                },
            },
    {
        let mut k: usize = 0;
        while k < coin_ids.len()
            invariant
                self.inv(),
                *self == *old(self),
                k <= coin_ids@.len(),
                forall|j: int| 0 <= j < k ==> has_id(self.entries@, #[trigger] coin_ids@[j]),
            decreases coin_ids@.len() - k,
        {
            match self.find_index(coin_ids[k]) {
                Some(_) => {
                },
                None => {
                    return Err(LedgerError::UnknownCoinId { coin_id: coin_ids[k] });
                },
            }
            k = k + 1;
        }
        let ghost initial = self.entries@;
        let mut k: usize = 0;
        while k < coin_ids.len()
            invariant
                self.inv(),
                forall|j: int| 0 <= j < coin_ids@.len() ==> has_id(initial, #[trigger] coin_ids@[j]),
                k <= coin_ids@.len(),
                self.entries@.len() == initial.len(),
                forall|j: int|
                    0 <= j < initial.len() ==> #[trigger] self.entries@[j] == (
                    initial[j].0,
                    (SpendKey {
                        sn: initial[j].1.sn,
                        value: initial[j].1.value,
                        is_spent: initial[j].1.is_spent || coin_ids@.take(k as int).contains(
                            initial[j].0,
                        ),
                    }),
                    ),
            decreases coin_ids@.len() - k,
        {
            let ghost before = self.entries@;
            let r = self.spend_coin(coin_ids[k]);
            proof {
                if r is Err {
                    let witness = choose|i: int| 0 <= i < initial.len() && initial[i].0
                        == coin_ids@[k as int];
                    assert(before[witness].0 == coin_ids@[k as int]);
                    assert(false);
                }
                assert forall|j: int| 0 <= j < initial.len() implies #[trigger] self.entries@[j]
                    == (
                initial[j].0,
                (SpendKey {
                    sn: initial[j].1.sn,
                    value: initial[j].1.value,
                    is_spent: initial[j].1.is_spent || coin_ids@.take(k as int + 1).contains(
                        initial[j].0,
                    ),
                }),
                ) by {
                    let taken = coin_ids@.take(k as int);
                    let taken_next = coin_ids@.take(k as int + 1);
                    assert(taken_next =~= taken.push(coin_ids@[k as int]));
                    if taken.contains(initial[j].0) {
                        let w = choose|w: int| 0 <= w < taken.len() && taken[w] == initial[j].0;
                        assert(taken_next[w] == initial[j].0);
                    }
                    if initial[j].0 == coin_ids@[k as int] {
                        assert(taken_next[k as int] == initial[j].0);
                    }
                    if taken_next.contains(initial[j].0) && initial[j].0 != coin_ids@[k as int] {
                        let w = choose|w: int|
                            0 <= w < taken_next.len() && taken_next[w] == initial[j].0;
                        assert(taken[w] == initial[j].0);
                    }
                }
            }
            k = k + 1;
        }
        proof {
            assert(coin_ids@.take(coin_ids@.len() as int) =~= coin_ids@);
        }
        Ok(())
    }

    /// The largest id in the map; `EmptyMap` exactly when there is none.
    pub fn find_biggest_id(&self) -> (r: Result<usize, LedgerError>)
        ensures
            match r {
                Ok(m) => is_max_id(self.entries@, m),
                Err(e) => self.entries@.len() == 0 && e == LedgerError::EmptyMap,
            },
    {
        if self.entries.len() == 0 {
            return Err(LedgerError::EmptyMap);
        }
        let mut best: usize = self.entries[0].0;
        let mut i: usize = 1;
        while i < self.entries.len()
            invariant
                1 <= i <= self.entries@.len(),
                has_id(self.entries@, best),
                forall|j: int| 0 <= j < i ==> (#[trigger] self.entries@[j]).0 <= best,
            decreases self.entries@.len() - i,
        {
            if self.entries[i].0 > best {
                best = self.entries[i].0;
            }
            i = i + 1;
        }
        Ok(best)
    }

    /// The serial numbers of all coins, in storage order.
    pub fn all_serial_numbers(&self) -> (r: Vec<FieldElement>)
        ensures
            r@.len() == self.entries@.len(),
            forall|i: int| 0 <= i < r@.len() ==> #[trigger] r@[i] == self.entries@[i].1.sn,
    {
        let mut r: Vec<FieldElement> = Vec::new();
        let mut i: usize = 0;
        while i < self.entries.len()
            invariant
                i <= self.entries@.len(),
                r@.len() == i,
                forall|j: int| 0 <= j < i ==> #[trigger] r@[j] == self.entries@[j].1.sn,
            decreases self.entries@.len() - i,
        {
            r.push(self.entries[i].1.sn());
            i = i + 1;
        }
        r
    }

    /// Replaces the coin `coin_id` by `key1` and `key2`, provided their
    /// values sum to the original's. The original's entry is removed and
    /// the two keys are inserted under the two ids above the map's current
    /// maximum. Fails with `UnknownCoinId` when the id is absent and with
    /// `ValueConservationViolation` when the values do not add up; on
    /// failure the map is unchanged.
    pub fn split_coin(&mut self, coin_id: usize, key1: SpendKey, key2: SpendKey) -> (r: Result<
        (),
        LedgerError,
    >)
        requires
            old(self).inv(),
            key1.inv(),
            key2.inv(),
            forall|j: int|
                0 <= j < old(self).entries@.len() ==> (#[trigger] old(self).entries@[j]).0 + 2
                    <= usize::MAX,
        ensures
            final(self).inv(),
            match r {
                Ok(()) => exists|i: int, m: usize|
                    #![trigger old(self).entries@[i], is_max_id(old(self).entries@, m)]
                    {
                        &&& 0 <= i < old(self).entries@.len()
                        &&& old(self).entries@[i].0 == coin_id
                        &&& key1.value + key2.value == old(self).entries@[i].1.value
                        &&& is_max_id(old(self).entries@, m)
                        &&& final(self).entries@ == old(self).entries@.remove(i).push(
                            ((m + 1) as usize, key1),
                        ).push(((m + 2) as usize, key2))
                    },
                Err(e) => {
                    &&& *final(self) == *old(self)
                    &&& match e {
                        LedgerError::UnknownCoinId { coin_id: c } => c == coin_id && !has_id(
                            old(self).entries@,
                            coin_id,
                        ),
                        LedgerError::ValueConservationViolation { expected, actual } => {
                            &&& exists|i: int|
                                {
                                    &&& 0 <= i < old(self).entries@.len()
                                    &&& (#[trigger] old(self).entries@[i]).0 == coin_id
                                    &&& key1.value + key2.value != old(self).entries@[i].1.value
                                    &&& expected@ == mod_value(old(self).entries@[i].1.value as int)
                                }
                            &&& actual@ == mod_value(key1.value + key2.value)
                        },
                        _ => false,
                    }
                },
            },
    {
        let idx = match self.find_index(coin_id) {
            Some(idx) => idx,
            None => {
                return Err(LedgerError::UnknownCoinId { coin_id });
            },
        };
        let original = self.entries[idx].1;
        let sum: i64 = key1.value as i64 + key2.value as i64;
        if sum != original.value as i64 {
            return Err(LedgerError::ValueConservationViolation {
                expected: fe_from_i64(original.value as i64),
                actual: fe_from_i64(sum),
            });
        }
        let m = match self.find_biggest_id() {
            Ok(m) => m,
            Err(e) => {
                return Err(e);
            },
        };
        let ghost before = self.entries@;
        self.entries.remove(idx);
        self.entries.push((m + 1, key1));
        self.entries.push((m + 2, key2));
        proof {
            assert forall|a: int, b: int|
                0 <= a < b < self.entries@.len() implies (#[trigger] self.entries@[a]).0 != (
            #[trigger] self.entries@[b]).0 by {
                let removed = before.remove(idx as int);
                if a < removed.len() {
                    assert(self.entries@[a] == (if a < idx {
                        before[a]
                    } else {
                        before[a + 1]
                    }));
                }
                if b < removed.len() {
                    assert(self.entries@[b] == (if b < idx {
                        before[b]
                    } else {
                        before[b + 1]
                    }));
                }
            }
            assert forall|a: int| 0 <= a < self.entries@.len() implies (
            #[trigger] self.entries@[a]).1.inv() by {
                if a < before.len() - 1 {
                    assert(self.entries@[a] == (if a < idx {
                        before[a]
                    } else {
                        before[a + 1]
                    }));
                }
            }
        }
        Ok(())
    }
}

} // verus!
