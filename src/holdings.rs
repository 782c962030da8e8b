use vstd::prelude::*;

use crate::account::AccountId;
use crate::ids::{ClassId, TokenId};

verus! {

/// What `owner` holds of token `token_id` of class `class_id`.
#[derive(Clone, Copy, Debug)]
pub struct Balance {
    pub class_id: ClassId,
    pub token_id: TokenId,
    pub owner: AccountId,
    pub quantity: u64,
}

/// Whether record `b` is about token `(c, t)` and, when `who` is given, held by it.
pub open spec fn counts_for(b: Balance, c: ClassId, t: TokenId, who: Option<AccountId>) -> bool {
    &&& b.class_id == c
    &&& b.token_id == t
    &&& match who {
        Some(w) => b.owner == w,
        None => true,
    }
}

/// Sum of the quantities of the records in `s` that count for `(c, t, who)`.
pub open spec fn held(s: Seq<Balance>, c: ClassId, t: TokenId, who: Option<AccountId>) -> nat
    decreases s.len(),
{
    if s.len() == 0 {
        0
    } else {
        held(s.drop_last(), c, t, who) + if counts_for(s.last(), c, t, who) {
            s.last().quantity as nat
        } else {
            0
        }
    }
}

/// Everything held of token `(c, t)`, whoever holds it.
pub open spec fn token_sum(s: Seq<Balance>, c: ClassId, t: TokenId) -> nat {
    held(s, c, t, None)
}

/// What `w` holds of token `(c, t)`.
pub open spec fn balance_in(s: Seq<Balance>, c: ClassId, t: TokenId, w: AccountId) -> nat {
    held(s, c, t, Some(w))
}

/// No two records share token and owner.
pub open spec fn owners_unique(s: Seq<Balance>) -> bool {
    forall|i: int, j: int|
        0 <= i < j < s.len() ==> !counts_for(
            #[trigger] s[i],
            s[j].class_id,
            s[j].token_id,
            Some(#[trigger] s[j].owner),
        )
}

/// Records `a` and `b` are about the same token and owner.
pub open spec fn same_slot(a: Balance, b: Balance) -> bool {
    a.class_id == b.class_id && a.token_id == b.token_id && a.owner == b.owner
}

/// Replacing one record by another of the same slot changes every sum by the
/// difference of their quantities, where the slot counts.
proof fn lemma_held_update(s: Seq<Balance>, k: int, nb: Balance, c: ClassId, t: TokenId, who: Option<AccountId>)
    requires
        0 <= k < s.len(),
        same_slot(s[k], nb),
    ensures
        held(s.update(k, nb), c, t, who) == held(s, c, t, who) - (if counts_for(s[k], c, t, who) {
            s[k].quantity as int
        } else {
            0
        }) + (if counts_for(s[k], c, t, who) {
            nb.quantity as int
        } else {
            0
        }),
    decreases s.len(),
{
    let u = s.update(k, nb);
    if k == s.len() - 1 {
        assert(u.drop_last() =~= s.drop_last());
    } else {
        assert(u.drop_last() =~= s.drop_last().update(k, nb));
        lemma_held_update(s.drop_last(), k, nb, c, t, who);
    }
}

/// Appending a record adds its quantity where it counts.
proof fn lemma_held_push(s: Seq<Balance>, nb: Balance, c: ClassId, t: TokenId, who: Option<AccountId>)
    ensures
        held(s.push(nb), c, t, who) == held(s, c, t, who) + if counts_for(nb, c, t, who) {
            nb.quantity as nat
        } else {
            0
        },
{
    assert(s.push(nb).drop_last() =~= s);
}

/// A sum over no counting record is zero.
proof fn lemma_held_none(s: Seq<Balance>, c: ClassId, t: TokenId, who: Option<AccountId>)
    requires
        forall|i: int| 0 <= i < s.len() ==> !counts_for(#[trigger] s[i], c, t, who),
    ensures
        held(s, c, t, who) == 0,
    decreases s.len(),
{
    if s.len() > 0 {
        lemma_held_none(s.drop_last(), c, t, who);
    }
}

/// A counting record is at most the sum it counts in.
proof fn lemma_held_entry_le(s: Seq<Balance>, k: int, c: ClassId, t: TokenId, who: Option<AccountId>)
    requires
        0 <= k < s.len(),
        counts_for(s[k], c, t, who),
    ensures
        s[k].quantity <= held(s, c, t, who),
    decreases s.len(),
{
    if k < s.len() - 1 {
        lemma_held_entry_le(s.drop_last(), k, c, t, who);
    }
}

/// With unique owners, an owner's balance is the quantity of its one record.
proof fn lemma_balance_is_entry(s: Seq<Balance>, k: int)
    requires
        owners_unique(s),
        0 <= k < s.len(),
    ensures
        balance_in(s, s[k].class_id, s[k].token_id, s[k].owner) == s[k].quantity,
    decreases s.len(),
{
    let b = s[k];
    let p = s.drop_last();
    if k == s.len() - 1 {
        assert forall|i: int| 0 <= i < p.len() implies !counts_for(
            #[trigger] p[i],
            b.class_id,
            b.token_id,
            Some(b.owner),
        ) by {
            assert(s[i] == p[i]);
        }
        lemma_held_none(p, b.class_id, b.token_id, Some(b.owner));
    } else {
        assert(p[k] == b);
        lemma_balance_is_entry(p, k);
    }
}

/// Position of the record of `(c, t, w)`, if there is one.
pub fn find_slot(s: &Vec<Balance>, c: ClassId, t: TokenId, w: &AccountId) -> (r: Option<usize>)
    ensures
        match r {
            Some(k) => k < s@.len() && counts_for(s@[k as int], c, t, Some(*w)),
            None => forall|i: int| 0 <= i < s@.len() ==> !counts_for(#[trigger] s@[i], c, t, Some(*w)),
        },
{
    let mut i: usize = 0;
    while i < s.len()
        invariant
            0 <= i <= s@.len(),
            forall|j: int| 0 <= j < i ==> !counts_for(#[trigger] s@[j], c, t, Some(*w)),
        decreases s@.len() - i,
    {
        let b = s[i];
        if b.class_id == c && b.token_id == t && b.owner.same_as(w) {
            return Some(i);
        }
        i = i + 1;
    }
    None
}

/// Adds `amount` to what `w` holds of `(c, t)`, making a record when it has none.
pub fn credit(s: &mut Vec<Balance>, c: ClassId, t: TokenId, w: AccountId, amount: u64)
    requires
        owners_unique(old(s)@),
        token_sum(old(s)@, c, t) + amount <= u64::MAX,
    ensures
        owners_unique(final(s)@),
        forall|c2: ClassId, t2: TokenId| #[trigger]
            token_sum(final(s)@, c2, t2) == token_sum(old(s)@, c2, t2) + if c2 == c && t2 == t {
                amount as nat
            } else {
                0
            },
        forall|c2: ClassId, t2: TokenId, w2: AccountId| #[trigger]
            balance_in(final(s)@, c2, t2, w2) == balance_in(old(s)@, c2, t2, w2) + if c2 == c && t2
                == t && w2 == w {
                amount as nat
            } else {
                0
            },
        old(s)@.len() <= final(s)@.len(),
        forall|i: int| 0 <= i < old(s)@.len() ==> same_slot(#[trigger] final(s)@[i], old(s)@[i]),
        forall|i: int|
            old(s)@.len() <= i < final(s)@.len() ==> (#[trigger] final(s)@[i]).class_id == c
                && final(s)@[i].token_id == t,
{
    let ghost s0 = s@;
    match find_slot(s, c, t, &w) {
        Some(k) => {
            let mut b = s[k];
            proof {
                lemma_held_entry_le(s0, k as int, c, t, None);
            }
            b.quantity = b.quantity + amount;
            s.set(k, b);
            proof {
                assert(s@ == s0.update(k as int, b));
                assert forall|c2: ClassId, t2: TokenId| #[trigger]
                    token_sum(s@, c2, t2) == token_sum(s0, c2, t2) + if c2 == c && t2 == t {
                        amount as nat
                    } else {
                        0
                    } by {
                    lemma_held_update(s0, k as int, b, c2, t2, None);
                }
                assert forall|c2: ClassId, t2: TokenId, w2: AccountId| #[trigger]
                    balance_in(s@, c2, t2, w2) == balance_in(s0, c2, t2, w2) + if c2 == c && t2 == t
                        && w2 == w {
                        amount as nat
                    } else {
                        0
                    } by {
                    lemma_held_update(s0, k as int, b, c2, t2, Some(w2));
                }
                assert forall|i: int, j: int| 0 <= i < j < s@.len() implies !counts_for(
                    #[trigger] s@[i],
                    s@[j].class_id,
                    s@[j].token_id,
                    Some(#[trigger] s@[j].owner),
                ) by {
                    assert(same_slot(s@[i], s0[i]));
                    assert(same_slot(s@[j], s0[j]));
                }
            }
        },
        None => {
            let b = Balance { class_id: c, token_id: t, owner: w, quantity: amount };
            s.push(b);
            proof {
                assert(s@ == s0.push(b));
                assert forall|c2: ClassId, t2: TokenId| #[trigger]
                    token_sum(s@, c2, t2) == token_sum(s0, c2, t2) + if c2 == c && t2 == t {
                        amount as nat
                    } else {
                        0
                    } by {
                    lemma_held_push(s0, b, c2, t2, None);
                }
                assert forall|c2: ClassId, t2: TokenId, w2: AccountId| #[trigger]
                    balance_in(s@, c2, t2, w2) == balance_in(s0, c2, t2, w2) + if c2 == c && t2 == t
                        && w2 == w {
                        amount as nat
                    } else {
                        0
                    } by {
                    lemma_held_push(s0, b, c2, t2, Some(w2));
                }
                assert forall|i: int, j: int| 0 <= i < j < s@.len() implies !counts_for(
                    #[trigger] s@[i],
                    s@[j].class_id,
                    s@[j].token_id,
                    Some(#[trigger] s@[j].owner),
                ) by {
                    if j == s0.len() {
                        assert(s@[i] == s0[i]);
                    } else {
                        assert(s@[i] == s0[i] && s@[j] == s0[j]);
                    }
                }
            }
        },
    }
}

/// Takes `amount` from what `w` holds of `(c, t)`.
pub fn debit(s: &mut Vec<Balance>, c: ClassId, t: TokenId, w: AccountId, amount: u64)
    requires
        owners_unique(old(s)@),
        amount <= balance_in(old(s)@, c, t, w),
    ensures
        owners_unique(final(s)@),
        forall|c2: ClassId, t2: TokenId| #[trigger]
            token_sum(final(s)@, c2, t2) == token_sum(old(s)@, c2, t2) - if c2 == c && t2 == t {
                amount as int
            } else {
                0
            },
        forall|c2: ClassId, t2: TokenId, w2: AccountId| #[trigger]
            balance_in(final(s)@, c2, t2, w2) == balance_in(old(s)@, c2, t2, w2) - if c2 == c && t2
                == t && w2 == w {
                amount as int
            } else {
                0
            },
        old(s)@.len() == final(s)@.len(),
        forall|i: int| 0 <= i < old(s)@.len() ==> same_slot(#[trigger] final(s)@[i], old(s)@[i]),
{
    let ghost s0 = s@;
    match find_slot(s, c, t, &w) {
        Some(k) => {
            let mut b = s[k];
            proof {
                lemma_balance_is_entry(s0, k as int);
            }
            b.quantity = b.quantity - amount;
            s.set(k, b);
            proof {
                assert(s@ == s0.update(k as int, b));
                assert forall|c2: ClassId, t2: TokenId| #[trigger]
                    token_sum(s@, c2, t2) == token_sum(s0, c2, t2) - if c2 == c && t2 == t {
                        amount as int
                    } else {
                        0
                    } by {
                    lemma_held_update(s0, k as int, b, c2, t2, None);
                }
                assert forall|c2: ClassId, t2: TokenId, w2: AccountId| #[trigger]
                    balance_in(s@, c2, t2, w2) == balance_in(s0, c2, t2, w2) - if c2 == c && t2 == t
                        && w2 == w {
                        amount as int
                    } else {
                        0
                    } by {
                    lemma_held_update(s0, k as int, b, c2, t2, Some(w2));
                }
                assert forall|i: int, j: int| 0 <= i < j < s@.len() implies !counts_for(
                    #[trigger] s@[i],
                    s@[j].class_id,
                    s@[j].token_id,
                    Some(#[trigger] s@[j].owner),
                ) by {
                    assert(same_slot(s@[i], s0[i]));
                    assert(same_slot(s@[j], s0[j]));
                }
            }
        },
        None => {
            proof {
                lemma_held_none(s0, c, t, Some(w));
            }
        },
    }
}

/// Moves `q` units of token `(c, t)` from `from` to `to`.
pub fn move_units(s: &mut Vec<Balance>, from: AccountId, to: AccountId, c: ClassId, t: TokenId, q: u64)
    requires
        owners_unique(old(s)@),
        q <= balance_in(old(s)@, c, t, from),
        token_sum(old(s)@, c, t) <= u64::MAX,
    ensures
        owners_unique(final(s)@),
        forall|c2: ClassId, t2: TokenId| #[trigger]
            token_sum(final(s)@, c2, t2) == token_sum(old(s)@, c2, t2),
        forall|c2: ClassId, t2: TokenId, w2: AccountId| #[trigger]
            balance_in(final(s)@, c2, t2, w2) == balance_in(old(s)@, c2, t2, w2) - (if c2 == c
                && t2 == t && w2 == from {
                q as int
            } else {
                0
            }) + (if c2 == c && t2 == t && w2 == to {
                q as int
            } else {
                0
            }),
{
    let ghost s0 = s@;
    debit(s, c, t, from, q);
    let ghost s1 = s@;
    assert(token_sum(s1, c, t) == token_sum(s0, c, t) - q);
    credit(s, c, t, to, q);
    assert forall|c2: ClassId, t2: TokenId| #[trigger]
        token_sum(s@, c2, t2) == token_sum(s0, c2, t2) by {
        assert(token_sum(s1, c2, t2) == token_sum(s0, c2, t2) - if c2 == c && t2 == t {
            q as int
        } else {
            0
        });
    }
    assert forall|c2: ClassId, t2: TokenId, w2: AccountId| #[trigger]
        balance_in(s@, c2, t2, w2) == balance_in(s0, c2, t2, w2) - (if c2 == c && t2 == t && w2
            == from {
            q as int
        } else {
            0
        }) + (if c2 == c && t2 == t && w2 == to {
            q as int
        } else {
            0
        }) by {
        assert(balance_in(s1, c2, t2, w2) == balance_in(s0, c2, t2, w2) - if c2 == c && t2 == t
            && w2 == from {
            q as int
        } else {
            0
        });
    }
}

/// A copy of `s`.
pub fn copy_records<T: Copy>(s: &Vec<T>) -> (r: Vec<T>)
    ensures
        r@ == s@,
{
    let mut r: Vec<T> = Vec::new();
    let mut i: usize = 0;
    while i < s.len()
        invariant
            0 <= i <= s@.len(),
            r@ == s@.subrange(0, i as int),
        decreases s@.len() - i,
    {
        r.push(s[i]);
        i = i + 1;
    }
    assert(r@ =~= s@);
    r
}

/// What `w` holds of token `(c, t)`.
pub fn balance_lookup(s: &Vec<Balance>, c: ClassId, t: TokenId, w: &AccountId) -> (r: u64)
    requires
        owners_unique(s@),
    ensures
        r == balance_in(s@, c, t, *w),
{
    match find_slot(s, c, t, w) {
        Some(k) => {
            proof {
                lemma_balance_is_entry(s@, k as int);
            }
            s[k].quantity
        },
        None => {
            proof {
                lemma_held_none(s@, c, t, Some(*w));
            }
            0
        },
    }
}

} // verus!
