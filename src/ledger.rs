use vstd::prelude::*;

use crate::account::AccountId;
use crate::holdings::{
    balance_in, balance_lookup, copy_records, credit, move_units, owners_unique, token_sum, Balance,
};
use crate::ids::{ClassId, IdAllocator, TokenId};

verus! {

/// The `properties` bit that lets holders move a class's tokens.
pub const TRANSFERABLE: u8 = 1;

/// Royalties are given in basis points: this many make the whole quantity.
pub const BPS_DENOMINATOR: u16 = 10000;

/// Why a ledger operation was refused.
#[derive(Clone, Copy, Debug, PartialEq, Eq, Structural)]
pub enum LedgerError {
    ClassNotFound,
    Unauthorized,
    InvalidQuantity,
    InsufficientBalance,
    NotTransferable,
    RandomnessUnavailable,
    InvalidRoyalty,
    IdsExhausted,
}

/// Who receives a class's royalty, and how many basis points of each mint.
#[derive(Clone, Copy, Debug)]
pub struct Royalty {
    pub recipient: AccountId,
    pub bps: u16,
}

/// A token class as registered.
#[derive(Debug)]
pub struct Class {
    pub owner: AccountId,
    pub metadata: Vec<u8>,
    pub name: Vec<u8>,
    pub description: Vec<u8>,
    pub properties: u8,
    pub royalty: Royalty,
    pub created_block: u64,
}

/// A minted token and its total supply.
#[derive(Debug)]
pub struct TokenInfo {
    pub class_id: ClassId,
    pub token_id: TokenId,
    pub metadata: Vec<u8>,
    pub quantity: u64,
    pub create_block: u64,
}

/// What a successful mint reports: class owner, beneficiary, class, token, quantity.
pub type MintReceipt = (AccountId, AccountId, ClassId, TokenId, u64);

/// One move of a batch: class, token, quantity.
pub type TransferItem = (ClassId, TokenId, u64);

/// The withheld part of a mint of `quantity` at `bps` basis points, rounded down.
pub open spec fn royalty_spec(quantity: u64, bps: u16) -> nat {
    (quantity * bps / 10000) as nat
}

/// What a mint withholds for the royalty recipient.
pub open spec fn withheld_spec(quantity: u64, bps: u16, charge_royalty: Option<bool>) -> nat {
    if charge_royalty == Some(true) {
        royalty_spec(quantity, bps)
    } else {
        0
    }
}

/// The royalty on a mint of `quantity` at `royalty_bps` basis points, rounded down.
pub fn royalty_amount(quantity: u64, royalty_bps: u16) -> (r: u64)
    requires
        royalty_bps <= BPS_DENOMINATOR,
    ensures
        r == royalty_spec(quantity, royalty_bps),
        r <= quantity,
{
    assert(quantity * royalty_bps <= 0xffff_ffff_ffff_ffff * 10000) by (nonlinear_arith)
        requires
            quantity <= 0xffff_ffff_ffff_ffff,
            royalty_bps <= 10000,
    ;
    let p: u128 = quantity as u128 * royalty_bps as u128;
    let r: u128 = p / 10000;
    assert(r <= quantity) by (nonlinear_arith)
        requires
            p == quantity * royalty_bps,
            r == p / 10000,
            royalty_bps <= 10000,
    ;
    r as u64
}

/// Total of the quantities of the items among the first `n` of `items` that
/// move token `(c, t)`.
pub open spec fn spent(items: Seq<TransferItem>, n: int, c: ClassId, t: TokenId) -> nat
    decreases n,
{
    if n <= 0 || n > items.len() {
        0
    } else {
        spent(items, n - 1, c, t) + if items[n - 1].0 == c && items[n - 1].1 == t {
            items[n - 1].2 as nat
        } else {
            0
        }
    }
}

/// No two token records share class and token id.
pub open spec fn tokens_unique(s: Seq<TokenInfo>) -> bool {
    forall|i: int, j: int|
        0 <= i < s.len() && 0 <= j < s.len() && i != j ==> !(#[trigger] s[i].class_id == #[trigger] s[j].class_id
            && s[i].token_id == s[j].token_id)
}

/// The registry of classes, their tokens and who holds how much of each.
pub struct Ledger {
    classes: Vec<Class>,
    class_ids: IdAllocator,
    token_ids: Vec<IdAllocator>,
    tokens: Vec<TokenInfo>,
    balances: Vec<Balance>,
}

impl Ledger {
    /// Class `c` is stored at position `c - 1`.
    pub closed spec fn classes(self) -> Seq<Class> {
        self.classes@
    }

    /// Every minted token, in the order of minting.
    pub closed spec fn tokens(self) -> Seq<TokenInfo> {
        self.tokens@
    }

    /// The balance records.
    pub closed spec fn balances(self) -> Seq<Balance> {
        self.balances@
    }

    /// How many token ids class `c` has handed out.
    pub closed spec fn tokens_issued(self, c: ClassId) -> nat {
        self.token_ids@[c - 1]@
    }

    pub open spec fn class_exists(self, c: ClassId) -> bool {
        1 <= c <= self.classes().len()
    }

    pub open spec fn class(self, c: ClassId) -> Class {
        self.classes()[c - 1]
    }

    /// Whether `t` has been handed out as a token id of class `c`.
    pub open spec fn token_issued(self, c: ClassId, t: TokenId) -> bool {
        self.class_exists(c) && 1 <= t <= self.tokens_issued(c)
    }

    /// Whether the token record at `i` is token `(c, t)`.
    pub open spec fn token_at(self, i: int, c: ClassId, t: TokenId) -> bool {
        0 <= i < self.tokens().len() && self.tokens()[i].class_id == c && self.tokens()[i].token_id
            == t
    }

    pub open spec fn has_token(self, c: ClassId, t: TokenId) -> bool {
        exists|i: int| self.token_at(i, c, t)
    }

    /// What `w` holds of token `(c, t)`.
    pub open spec fn balance_of(self, c: ClassId, t: TokenId, w: AccountId) -> nat {
        balance_in(self.balances(), c, t, w)
    }

    /// Everything held of token `(c, t)`.
    pub open spec fn total_held(self, c: ClassId, t: TokenId) -> nat {
        token_sum(self.balances(), c, t)
    }

    pub open spec fn transferable(self, c: ClassId) -> bool {
        self.class(c).properties & TRANSFERABLE != 0
    }

    /// The refusal, if any, of a move of `q` units of a token of class `c`
    /// from a sender that holds `available` of it.
    pub open spec fn transfer_refusal(self, c: ClassId, q: u64, available: int) -> Option<
        LedgerError,
    > {
        if !self.class_exists(c) {
            Some(LedgerError::ClassNotFound)
        } else if !self.transferable(c) {
            Some(LedgerError::NotTransferable)
        } else if q == 0 {
            Some(LedgerError::InvalidQuantity)
        } else if available < q {
            Some(LedgerError::InsufficientBalance)
        } else {
            None
        }
    }

    /// The refusal, if any, of a mint by `caller` into class `c`.
    pub open spec fn mint_refusal(self, caller: AccountId, c: ClassId, quantity: u64) -> Option<
        LedgerError,
    > {
        if !self.class_exists(c) {
            Some(LedgerError::ClassNotFound)
        } else if self.class(c).owner != caller {
            Some(LedgerError::Unauthorized)
        } else if quantity == 0 {
            Some(LedgerError::InvalidQuantity)
        } else if self.tokens_issued(c) == u64::MAX {
            Some(LedgerError::IdsExhausted)
        } else {
            None
        }
    }

    /// What the sender holds of item `i`'s token when a batch from `from` to
    /// `to` reaches that item, the earlier items having been applied.
    pub open spec fn available_at(
        self,
        from: AccountId,
        to: AccountId,
        items: Seq<TransferItem>,
        i: int,
    ) -> int {
        let (c, t, q) = items[i];
        if from == to {
            self.balance_of(c, t, from) as int
        } else {
            self.balance_of(c, t, from) - spent(items, i, c, t)
        }
    }

    /// The refusal of the first item from `i` on that cannot be applied.
    pub open spec fn batch_refusal(
        self,
        from: AccountId,
        to: AccountId,
        items: Seq<TransferItem>,
        i: int,
    ) -> Option<LedgerError>
        decreases items.len() - i,
    {
        if i < 0 || i >= items.len() {
            None
        } else {
            match self.transfer_refusal(
                items[i].0,
                items[i].2,
                self.available_at(from, to, items, i),
            ) {
                Some(e) => Some(e),
                None => self.batch_refusal(from, to, items, i + 1),
            }
        }
    }

    /// `self` and `other` have the same classes, tokens and token counters.
    pub open spec fn same_registry(self, other: Ledger) -> bool {
        &&& self.classes() == other.classes()
        &&& self.tokens() == other.tokens()
        &&& forall|c: ClassId| #[trigger]
            self.class_exists(c) ==> self.tokens_issued(c) == other.tokens_issued(c)
    }

    /// What `create_class` returns.
    pub open spec fn create_result(self, owner: AccountId, royalty: Royalty) -> Result<
        (AccountId, ClassId),
        LedgerError,
    > {
        if royalty.bps > BPS_DENOMINATOR {
            Err(LedgerError::InvalidRoyalty)
        } else if self.classes().len() == u64::MAX {
            Err(LedgerError::IdsExhausted)
        } else {
            Ok((owner, (self.classes().len() + 1) as u64))
        }
    }

    /// `new` is what `create_class` leaves of `self`: unchanged on a refusal,
    /// else with one more class, under an id no earlier class has, and no
    /// other change.
    pub open spec fn create_effect(
        self,
        new: Ledger,
        owner: AccountId,
        metadata: Vec<u8>,
        name: Vec<u8>,
        description: Vec<u8>,
        properties: u8,
        royalty: Royalty,
        now: u64,
    ) -> bool {
        if royalty.bps > BPS_DENOMINATOR || self.classes().len() == u64::MAX {
            new == self
        } else {
            let id = (self.classes().len() + 1) as u64;
            &&& !self.class_exists(id)
            &&& forall|c: ClassId| self.class_exists(c) ==> c < id
            &&& new.classes() == self.classes().push(
                (Class {
                    owner,
                    metadata,
                    name,
                    description,
                    properties,
                    royalty,
                    created_block: now,
                }),
            )
            &&& new.tokens() == self.tokens()
            &&& new.balances() == self.balances()
            &&& new.tokens_issued(id) == 0
            &&& forall|c: ClassId| #[trigger]
                self.class_exists(c) ==> new.tokens_issued(c) == self.tokens_issued(c)
        }
    }

    /// The id the next token of existing class `c` gets.
    pub open spec fn next_token_id(self, c: ClassId) -> TokenId {
        (self.tokens_issued(c) + 1) as u64
    }

    /// What `mint` returns.
    pub open spec fn mint_result(self, caller: AccountId, class_id: ClassId, quantity: u64) -> Result<
        MintReceipt,
        LedgerError,
    > {
        match self.mint_refusal(caller, class_id, quantity) {
            Some(e) => Err(e),
            None => Ok(
                (
                    self.class(class_id).owner,
                    caller,
                    class_id,
                    self.next_token_id(class_id),
                    quantity,
                ),
            ),
        }
    }

    /// `new` is what `mint` leaves of `self`: unchanged on a refusal, else
    /// with one more token, under an id above every earlier one of its class,
    /// its units credited to the caller and the royalty recipient.
    pub open spec fn mint_effect(
        self,
        new: Ledger,
        caller: AccountId,
        class_id: ClassId,
        metadata: Vec<u8>,
        quantity: u64,
        charge_royalty: Option<bool>,
        now: u64,
    ) -> bool {
        match self.mint_refusal(caller, class_id, quantity) {
            Some(e) => new == self,
            None => {
                let tid = self.next_token_id(class_id);
                let cl = self.class(class_id);
                let kept = withheld_spec(quantity, cl.royalty.bps, charge_royalty);
                &&& !self.token_issued(class_id, tid)
                &&& forall|t: TokenId| self.token_issued(class_id, t) ==> t < tid
                &&& new.classes() == self.classes()
                &&& new.tokens() == self.tokens().push(
                    (TokenInfo { class_id, token_id: tid, metadata, quantity, create_block: now }),
                )
                &&& new.tokens_issued(class_id) == tid
                &&& forall|c: ClassId| #[trigger]
                    self.class_exists(c) && c != class_id ==> new.tokens_issued(c)
                        == self.tokens_issued(c)
                &&& new.total_held(class_id, tid) == quantity
                &&& forall|c: ClassId, t: TokenId, w: AccountId| #[trigger]
                    new.balance_of(c, t, w) == self.balance_of(c, t, w) + if c == class_id && t
                        == tid {
                        (if w == caller {
                            quantity - kept
                        } else {
                            0int
                        }) + (if w == cl.royalty.recipient {
                            kept as int
                        } else {
                            0int
                        })
                    } else {
                        0int
                    }
            },
        }
    }

    /// What `transfer` returns.
    pub open spec fn transfer_result(
        self,
        from: AccountId,
        class_id: ClassId,
        token_id: TokenId,
        quantity: u64,
    ) -> Result<(), LedgerError> {
        match self.transfer_refusal(
            class_id,
            quantity,
            self.balance_of(class_id, token_id, from) as int,
        ) {
            Some(e) => Err(e),
            None => Ok(()),
        }
    }

    /// `new` is what `transfer` leaves of `self`: unchanged on a refusal,
    /// else with `quantity` units moved from `from` to `to` and no other change.
    pub open spec fn transfer_effect(
        self,
        new: Ledger,
        from: AccountId,
        to: AccountId,
        class_id: ClassId,
        token_id: TokenId,
        quantity: u64,
    ) -> bool {
        if self.transfer_result(from, class_id, token_id, quantity) is Err {
            new == self
        } else {
            &&& new.same_registry(self)
            &&& forall|c: ClassId, t: TokenId, w: AccountId| #[trigger]
                new.balance_of(c, t, w) == self.balance_of(c, t, w) - (if c == class_id && t
                    == token_id && w == from {
                    quantity as int
                } else {
                    0
                }) + (if c == class_id && t == token_id && w == to {
                    quantity as int
                } else {
                    0
                })
        }
    }

    /// What `transfer_all` returns.
    pub open spec fn batch_result(self, from: AccountId, to: AccountId, items: Seq<TransferItem>) -> Result<
        (),
        LedgerError,
    > {
        match self.batch_refusal(from, to, items, 0) {
            Some(e) => Err(e),
            None => Ok(()),
        }
    }

    /// `new` is what `transfer_all` leaves of `self`: unchanged on a refusal,
    /// else with the moves of every item applied and no other change.
    pub open spec fn batch_effect(
        self,
        new: Ledger,
        from: AccountId,
        to: AccountId,
        items: Seq<TransferItem>,
    ) -> bool {
        if self.batch_refusal(from, to, items, 0) is Some {
            new == self
        } else {
            &&& new.same_registry(self)
            &&& forall|c: ClassId, t: TokenId, w: AccountId| #[trigger]
                new.balance_of(c, t, w) == self.balance_of(c, t, w) - (if w == from {
                    spent(items, items.len() as int, c, t) as int
                } else {
                    0
                }) + (if w == to {
                    spent(items, items.len() as int, c, t) as int
                } else {
                    0
                })
        }
    }

    /// The ledger's invariant.
    pub closed spec fn wf(self) -> bool {
        &&& self.class_ids@ == self.classes@.len()
        &&& self.token_ids@.len() == self.classes@.len()
        &&& forall|i: int|
            0 <= i < self.classes@.len() ==> (#[trigger] self.classes@[i]).royalty.bps
                <= BPS_DENOMINATOR
        &&& forall|i: int|
            0 <= i < self.tokens@.len() ==> self.token_issued(
                (#[trigger] self.tokens@[i]).class_id,
                self.tokens@[i].token_id,
            )
        &&& tokens_unique(self.tokens@)
        &&& forall|i: int|
            0 <= i < self.tokens@.len() ==> token_sum(
                self.balances@,
                (#[trigger] self.tokens@[i]).class_id,
                self.tokens@[i].token_id,
            ) == self.tokens@[i].quantity
        &&& forall|c: ClassId, t: TokenId| #[trigger]
            token_sum(self.balances@, c, t) <= u64::MAX
        &&& forall|c: ClassId, t: TokenId|
            !self.token_issued(c, t) ==> #[trigger] token_sum(self.balances@, c, t) == 0
        &&& owners_unique(self.balances@)
    }

    /// An empty ledger.
    pub fn new() -> (r: Ledger)
        ensures
            r.wf(),
            r.classes().len() == 0,
            r.tokens().len() == 0,
            forall|c: ClassId, t: TokenId| #[trigger] r.total_held(c, t) == 0,
            forall|c: ClassId, t: TokenId, w: AccountId| #[trigger] r.balance_of(c, t, w) == 0,
    {
        let r = Ledger {
            classes: Vec::new(),
            class_ids: IdAllocator::new(),
            token_ids: Vec::new(),
            tokens: Vec::new(),
            balances: Vec::new(),
        };
        assert(r.balances@.len() == 0);
        r
    }

    /// Number of registered classes; they have the ids `1..=class_count`.
    pub fn class_count(&self) -> (r: u64)
        requires
            self.wf(),
        ensures
            r == self.classes().len(),
    {
        self.class_ids.issued()
    }

    /// Position of existing class `c` in the registry.
    fn class_index(&self, c: ClassId) -> (r: usize)
        requires
            self.wf(),
            self.class_exists(c),
        ensures
            r == c - 1,
    {
        let len: usize = self.classes.len();
        assert(c - 1 < len);
        (c - 1) as usize
    }

    /// Registers a new class owned by `owner` under the next class id. Anyone
    /// may create a class; identical arguments still make distinct classes.
    pub fn create_class(
        &mut self,
        owner: AccountId,
        metadata: Vec<u8>,
        name: Vec<u8>,
        description: Vec<u8>,
        properties: u8,
        royalty: Royalty,
        now: u64,
    ) -> (r: Result<(AccountId, ClassId), LedgerError>)
        requires
            old(self).wf(),
        ensures
            final(self).wf(),
            r == old(self).create_result(owner, royalty),
            old(self).create_effect(
                *final(self),
                owner,
                metadata,
                name,
                description,
                properties,
                royalty,
                now,
            ),
    {
        if royalty.bps > BPS_DENOMINATOR {
            return Err(LedgerError::InvalidRoyalty);
        }
        if self.class_ids.issued() == u64::MAX {
            return Err(LedgerError::IdsExhausted);
        }
        let ghost before = *self;
        let id = match self.class_ids.issue() {
            Some(id) => id,
            None => {
                return Err(LedgerError::IdsExhausted);
            },
        };
        self.classes.push(
            Class { owner, metadata, name, description, properties, royalty, created_block: now },
        );
        self.token_ids.push(IdAllocator::new());
        proof {
            assert forall|c: ClassId| #[trigger]
                before.class_exists(c) implies self.tokens_issued(c) == before.tokens_issued(c) by {
                assert(self.token_ids@[c - 1] == before.token_ids@[c - 1]);
            }
            assert forall|c: ClassId, t: TokenId|
                !self.token_issued(c, t) implies #[trigger] token_sum(self.balances@, c, t) == 0 by {
                if before.token_issued(c, t) {
                    assert(self.tokens_issued(c) == before.tokens_issued(c));
                }
            }
            assert forall|i: int| 0 <= i < self.tokens@.len() implies self.token_issued(
                (#[trigger] self.tokens@[i]).class_id,
                self.tokens@[i].token_id,
            ) by {
                assert(before.token_issued(self.tokens@[i].class_id, self.tokens@[i].token_id));
                assert(self.tokens_issued(self.tokens@[i].class_id) == before.tokens_issued(
                    self.tokens@[i].class_id,
                ));
            }
            assert forall|i: int| 0 <= i < self.classes@.len() implies (
            #[trigger] self.classes@[i]).royalty.bps <= BPS_DENOMINATOR by {
                if i < before.classes@.len() {
                    assert(self.classes@[i] == before.classes@[i]);
                }
            }
        }
        Ok((owner, id))
    }

    /// Mints a new token of class `class_id` with `quantity` units, all
    /// credited to `caller` but for the royalty, which is withheld for the
    /// class's royalty recipient when `charge_royalty` is `Some(true)`.
    /// Only the class owner may mint.
    pub fn mint(
        &mut self,
        caller: AccountId,
        class_id: ClassId,
        metadata: Vec<u8>,
        quantity: u64,
        charge_royalty: Option<bool>,
        now: u64,
    ) -> (r: Result<MintReceipt, LedgerError>)
        requires
            old(self).wf(),
        ensures
            final(self).wf(),
            r == old(self).mint_result(caller, class_id, quantity),
            old(self).mint_effect(
                *final(self),
                caller,
                class_id,
                metadata,
                quantity,
                charge_royalty,
                now,
            ),
    {
        let n = self.class_ids.issued();
        if class_id < 1 || class_id > n {
            return Err(LedgerError::ClassNotFound);
        }
        let ci = self.class_index(class_id);
        let owner = self.classes[ci].owner;
        if !owner.same_as(&caller) {
            return Err(LedgerError::Unauthorized);
        }
        if quantity == 0 {
            return Err(LedgerError::InvalidQuantity);
        }
        let mut alloc = self.token_ids[ci];
        if alloc.issued() == u64::MAX {
            return Err(LedgerError::IdsExhausted);
        }
        let ghost before = *self;
        let tid = match alloc.issue() {
            Some(id) => id,
            None => {
                return Err(LedgerError::IdsExhausted);
            },
        };
        self.token_ids.set(ci, alloc);
        let royalty = self.classes[ci].royalty;
        let kept: u64 = match charge_royalty {
            Some(true) => royalty_amount(quantity, royalty.bps),
            _ => 0,
        };
        assert(!before.token_issued(class_id, tid));
        credit(&mut self.balances, class_id, tid, caller, quantity - kept);
        credit(&mut self.balances, class_id, tid, royalty.recipient, kept);
        self.tokens.push(
            TokenInfo { class_id, token_id: tid, metadata, quantity, create_block: now },
        );
        proof {
            assert forall|c: ClassId| #[trigger]
                before.class_exists(c) && c != class_id implies self.tokens_issued(c)
                == before.tokens_issued(c) by {
                assert(self.token_ids@[c - 1] == before.token_ids@[c - 1]);
            }
            assert forall|c: ClassId, t: TokenId|
                before.token_issued(c, t) implies #[trigger] self.token_issued(c, t) by {
                if c != class_id {
                    assert(self.tokens_issued(c) == before.tokens_issued(c));
                }
            }
            assert forall|c: ClassId, t: TokenId|
                !self.token_issued(c, t) implies #[trigger] token_sum(self.balances@, c, t) == 0 by {
                assert(!before.token_issued(c, t));
                assert(token_sum(before.balances@, c, t) == 0);
            }
            assert forall|i: int| 0 <= i < self.tokens@.len() implies self.token_issued(
                (#[trigger] self.tokens@[i]).class_id,
                self.tokens@[i].token_id,
            ) by {
                if i < before.tokens@.len() {
                    assert(self.tokens@[i] == before.tokens@[i]);
                    assert(before.token_issued(self.tokens@[i].class_id, self.tokens@[i].token_id));
                }
            }
            assert forall|i: int, j: int|
                0 <= i < self.tokens@.len() && 0 <= j < self.tokens@.len() && i != j implies !(
            #[trigger] self.tokens@[i].class_id == #[trigger] self.tokens@[j].class_id
                && self.tokens@[i].token_id == self.tokens@[j].token_id) by {
                let last = before.tokens@.len() as int;
                if i < last && j < last {
                    assert(self.tokens@[i] == before.tokens@[i]);
                    assert(self.tokens@[j] == before.tokens@[j]);
                } else if i < last {
                    assert(self.tokens@[i] == before.tokens@[i]);
                    assert(before.token_issued(self.tokens@[i].class_id, self.tokens@[i].token_id));
                } else if j < last {
                    assert(self.tokens@[j] == before.tokens@[j]);
                    assert(before.token_issued(self.tokens@[j].class_id, self.tokens@[j].token_id));
                }
            }
            assert forall|i: int| 0 <= i < self.tokens@.len() implies token_sum(
                self.balances@,
                (#[trigger] self.tokens@[i]).class_id,
                self.tokens@[i].token_id,
            ) == self.tokens@[i].quantity by {
                if i < before.tokens@.len() {
                    assert(self.tokens@[i] == before.tokens@[i]);
                    assert(before.token_issued(self.tokens@[i].class_id, self.tokens@[i].token_id));
                }
            }
        }
        Ok((owner, caller, class_id, tid, quantity))
    }

    /// What `owner` holds of token `token_id` of class `class_id`.
    pub fn balance(&self, class_id: ClassId, token_id: TokenId, owner: AccountId) -> (r: u64)
        requires
            self.wf(),
        ensures
            r == self.balance_of(class_id, token_id, owner),
    {
        balance_lookup(&self.balances, class_id, token_id, &owner)
    }

    /// Metadata, total quantity and creation block of token `(class_id,
    /// token_id)`; for a token that does not exist, empty metadata and zeros.
    pub fn get_token(&self, class_id: ClassId, token_id: TokenId) -> (r: (Vec<u8>, u64, u64))
        requires
            self.wf(),
        ensures
            forall|i: int|
                self.token_at(i, class_id, token_id) ==> r.0@ == self.tokens()[i].metadata@ && r.1
                    == self.tokens()[i].quantity && r.2 == self.tokens()[i].create_block,
            !self.has_token(class_id, token_id) ==> r.0@.len() == 0 && r.1 == 0 && r.2 == 0,
    {
        let mut i: usize = 0;
        while i < self.tokens.len()
            invariant
                self.wf(),
                0 <= i <= self.tokens@.len(),
                forall|j: int| 0 <= j < i ==> !self.token_at(j, class_id, token_id),
            decreases self.tokens@.len() - i,
        {
            let info = &self.tokens[i];
            if info.class_id == class_id && info.token_id == token_id {
                let ghost a = i as int;
                assert(self.token_at(a, class_id, token_id));
                assert forall|j: int| self.token_at(j, class_id, token_id) implies j == a by {
                    if j != a {
                        assert(!(self.tokens@[j].class_id == self.tokens@[a].class_id
                            && self.tokens@[j].token_id == self.tokens@[a].token_id));
                    }
                }
                return (copy_records(&info.metadata), info.quantity, info.create_block);
            }
            i = i + 1;
        }
        (Vec::new(), 0, 0)
    }

    /// The refusal of a move of `q` units of class `c` by a sender that holds
    /// `available`, computed.
    fn check_transfer(&self, c: ClassId, q: u64, available: u64) -> (r: Option<LedgerError>)
        requires
            self.wf(),
        ensures
            r == self.transfer_refusal(c, q, available as int),
    {
        let n = self.class_ids.issued();
        if c < 1 || c > n {
            return Some(LedgerError::ClassNotFound);
        }
        let ci = self.class_index(c);
        if self.classes[ci].properties & TRANSFERABLE == 0 {
            Some(LedgerError::NotTransferable)
        } else if q == 0 {
            Some(LedgerError::InvalidQuantity)
        } else if available < q {
            Some(LedgerError::InsufficientBalance)
        } else {
            None
        }
    }

    /// Moves `quantity` units of token `(class_id, token_id)` from `from` to
    /// `to`; on any refusal nothing changes.
    pub fn transfer(
        &mut self,
        from: AccountId,
        to: AccountId,
        class_id: ClassId,
        token_id: TokenId,
        quantity: u64,
    ) -> (r: Result<(), LedgerError>)
        requires
            old(self).wf(),
        ensures
            final(self).wf(),
            r == old(self).transfer_result(from, class_id, token_id, quantity),
            old(self).transfer_effect(*final(self), from, to, class_id, token_id, quantity),
    {
        let available = balance_lookup(&self.balances, class_id, token_id, &from);
        match self.check_transfer(class_id, quantity, available) {
            Some(e) => Err(e),
            None => {
                move_units(&mut self.balances, from, to, class_id, token_id, quantity);
                Ok(())
            },
        }
    }

    /// Applies the moves of `items`, in order, from `from` to `to`, each
    /// checked against the balances the earlier ones left. Either all of them
    /// take effect or, on the first refusal, none does.
    pub fn transfer_all(&mut self, from: AccountId, to: AccountId, items: &Vec<TransferItem>) -> (r:
        Result<(), LedgerError>)
        requires
            old(self).wf(),
        ensures
            final(self).wf(),
            r == old(self).batch_result(from, to, items@),
            old(self).batch_effect(*final(self), from, to, items@),
    {
        let mut work = copy_records(&self.balances);
        let mut i: usize = 0;
        while i < items.len()
            invariant
                self.wf(),
                *self == *old(self),
                0 <= i <= items@.len(),
                owners_unique(work@),
                forall|c: ClassId, t: TokenId| #[trigger]
                    token_sum(work@, c, t) == token_sum(self.balances@, c, t),
                forall|c: ClassId, t: TokenId, w: AccountId| #[trigger]
                    balance_in(work@, c, t, w) == balance_in(self.balances@, c, t, w) - (if w
                        == from {
                        spent(items@, i as int, c, t) as int
                    } else {
                        0
                    }) + (if w == to {
                        spent(items@, i as int, c, t) as int
                    } else {
                        0
                    }),
                self.batch_refusal(from, to, items@, 0) == self.batch_refusal(
                    from,
                    to,
                    items@,
                    i as int,
                ),
            decreases items@.len() - i,
        {
            let (c, t, q) = items[i];
            let available = balance_lookup(&work, c, t, &from);
            assert(available == self.available_at(from, to, items@, i as int));
            match self.check_transfer(c, q, available) {
                Some(e) => {
                    return Err(e);
                },
                None => {},
            }
            let ghost w0 = work@;
            move_units(&mut work, from, to, c, t, q);
            proof {
                assert forall|c2: ClassId, t2: TokenId|
                    #[trigger] spent(items@, i + 1, c2, t2) == spent(items@, i as int, c2, t2) + if c2
                        == c && t2 == t {
                        q as int
                    } else {
                        0
                    } by {}
                assert forall|c2: ClassId, t2: TokenId, w2: AccountId| #[trigger]
                    balance_in(work@, c2, t2, w2) == balance_in(self.balances@, c2, t2, w2) - (if w2
                        == from {
                        spent(items@, i + 1, c2, t2) as int
                    } else {
                        0
                    }) + (if w2 == to {
                        spent(items@, i + 1, c2, t2) as int
                    } else {
                        0
                    }) by {
                    assert(spent(items@, i + 1, c2, t2) == spent(items@, i as int, c2, t2) + if c2
                        == c && t2 == t {
                        q as int
                    } else {
                        0
                    });
                }
            }
            i = i + 1;
        }
        self.balances = work;
        Ok(())
    }

    /// The class registered under `class_id`.
    pub fn get_class(&self, class_id: ClassId) -> (r: Result<&Class, LedgerError>)
        requires
            self.wf(),
        ensures
            match r {
                Ok(cl) => self.class_exists(class_id) && *cl == self.class(class_id),
                Err(e) => !self.class_exists(class_id) && e == LedgerError::ClassNotFound,
            },
    {
        let n = self.class_ids.issued();
        if class_id < 1 || class_id > n {
            Err(LedgerError::ClassNotFound)
        } else {
            Ok(&self.classes[self.class_index(class_id)])
        }
    }
}

/// Whatever sequence of operations built a ledger, the units held of each
/// token add up to that token's total quantity.
pub proof fn lemma_supply_conserved(l: Ledger)
    requires
        l.wf(),
    ensures
        forall|i: int|
            0 <= i < l.tokens().len() ==> l.total_held(
                (#[trigger] l.tokens()[i]).class_id,
                l.tokens()[i].token_id,
            ) == l.tokens()[i].quantity,
{
}

/// No token id is ever handed out twice within a class: the token records
/// of a ledger have pairwise distinct (class, token) ids, and each was issued
/// by its class's counter.
pub proof fn lemma_token_ids_unique(l: Ledger)
    requires
        l.wf(),
    ensures
        tokens_unique(l.tokens()),
        forall|i: int|
            0 <= i < l.tokens().len() ==> l.token_issued(
                (#[trigger] l.tokens()[i]).class_id,
                l.tokens()[i].token_id,
            ),
{
}

} // verus!
