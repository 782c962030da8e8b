use vstd::prelude::*;

use crate::account::AccountId;
use crate::ids::{ClassId, TokenId};
use crate::ledger::{Ledger, LedgerError, Royalty, TransferItem};

verus! {

/// Published after a new random value was stored.
#[derive(Clone, Copy, Debug)]
pub struct RandomUpdated {
    pub new: [u8; 32],
}

/// Published after a class was created through the contract.
#[derive(Clone, Copy, Debug)]
pub struct CreateClassFromContract {
    pub owner: AccountId,
    pub class_id: ClassId,
}

/// The contract front end: each entry point forwards to the ledger on
/// behalf of its caller, and one 32-byte slot keeps the last random value.
pub struct ContractDemo {
    value: [u8; 32],
    ledger: Ledger,
}

impl ContractDemo {
    /// The stored random value.
    pub closed spec fn stored_value(self) -> [u8; 32] {
        self.value
    }

    /// The ledger the entry points act on.
    pub closed spec fn ledger_state(self) -> Ledger {
        self.ledger
    }

    pub open spec fn wf(self) -> bool {
        self.ledger_state().wf()
    }

    /// A contract over an empty ledger, with the random slot all zeros.
    pub fn new() -> (r: ContractDemo)
        ensures
            r.wf(),
            r.ledger_state().classes().len() == 0,
            r.ledger_state().tokens().len() == 0,
            forall|i: int| 0 <= i < 32 ==> r.stored_value()[i] == 0,
    {
        ContractDemo { value: [0u8; 32], ledger: Ledger::new() }
    }

    /// The ledger, for reading.
    pub fn ledger(&self) -> (r: &Ledger)
        ensures
            *r == self.ledger_state(),
    {
        &self.ledger
    }

    /// Metadata, total quantity and creation block of a token; empty
    /// metadata and zeros for a token that does not exist.
    pub fn tokens(&self, class_id: ClassId, token_id: TokenId) -> (r: (Vec<u8>, u64, u64))
        requires
            self.wf(),
        ensures
            forall|i: int|
                self.ledger_state().token_at(i, class_id, token_id) ==> r.0@
                    == self.ledger_state().tokens()[i].metadata@ && r.1
                    == self.ledger_state().tokens()[i].quantity && r.2
                    == self.ledger_state().tokens()[i].create_block,
            !self.ledger_state().has_token(class_id, token_id) ==> r.0@.len() == 0 && r.1 == 0
                && r.2 == 0,
    {
        self.ledger.get_token(class_id, token_id)
    }

    /// Creates a class owned by `caller`, with no royalty, and reports it.
    pub fn create_class(
        &mut self,
        caller: AccountId,
        metadata: Vec<u8>,
        name: Vec<u8>,
        description: Vec<u8>,
        properties: u8,
        now: u64,
    ) -> (r: Result<CreateClassFromContract, LedgerError>)
        requires
            old(self).wf(),
        ensures
            final(self).wf(),
            final(self).stored_value() == old(self).stored_value(),
            old(self).ledger_state().create_effect(
                final(self).ledger_state(),
                caller,
                metadata,
                name,
                description,
                properties,
                (Royalty { recipient: caller, bps: 0 }),
                now,
            ),
            match old(self).ledger_state().create_result(
                caller,
                (Royalty { recipient: caller, bps: 0 }),
            ) {
                Ok((owner, class_id)) => r == Ok::<CreateClassFromContract, LedgerError>(
                    (CreateClassFromContract { owner, class_id }),
                ),
                Err(e) => r == Err::<CreateClassFromContract, LedgerError>(e),
            },
    {
        let royalty = Royalty { recipient: caller, bps: 0 };
        match self.ledger.create_class(caller, metadata, name, description, properties, royalty, now) {
            Ok((owner, class_id)) => Ok(CreateClassFromContract { owner, class_id }),
            Err(e) => Err(e),
        }
    }

    /// Mints a new token of `class_id` for `caller`, who must own the class.
    pub fn mint_nft(
        &mut self,
        caller: AccountId,
        class_id: ClassId,
        metadata: Vec<u8>,
        quantity: u64,
        charge_royalty: Option<bool>,
        now: u64,
    ) -> (r: Result<(), LedgerError>)
        requires
            old(self).wf(),
        ensures
            final(self).wf(),
            final(self).stored_value() == old(self).stored_value(),
            old(self).ledger_state().mint_effect(
                final(self).ledger_state(),
                caller,
                class_id,
                metadata,
                quantity,
                charge_royalty,
                now,
            ),
            match old(self).ledger_state().mint_result(caller, class_id, quantity) {
                Ok(_) => r == Ok::<(), LedgerError>(()),
                Err(e) => r == Err::<(), LedgerError>(e),
            },
    {
        match self.ledger.mint(caller, class_id, metadata, quantity, charge_royalty, now) {
            Ok(_) => Ok(()),
            Err(e) => Err(e),
        }
    }

    /// Moves `quantity` units of a token from `caller` to `to`.
    pub fn transfer(
        &mut self,
        caller: AccountId,
        to: AccountId,
        class_id: ClassId,
        token_id: TokenId,
        quantity: u64,
    ) -> (r: Result<(), LedgerError>)
        requires
            old(self).wf(),
        ensures
            final(self).wf(),
            final(self).stored_value() == old(self).stored_value(),
            r == old(self).ledger_state().transfer_result(caller, class_id, token_id, quantity),
            old(self).ledger_state().transfer_effect(
                final(self).ledger_state(),
                caller,
                to,
                class_id,
                token_id,
                quantity,
            ),
    {
        self.ledger.transfer(caller, to, class_id, token_id, quantity)
    }

    /// Moves every item from `caller` to `to`, all or nothing.
    pub fn transfer_all(&mut self, caller: AccountId, to: AccountId, items: Vec<TransferItem>) -> (r:
        Result<(), LedgerError>)
        requires
            old(self).wf(),
        ensures
            final(self).wf(),
            final(self).stored_value() == old(self).stored_value(),
            r == old(self).ledger_state().batch_result(caller, to, items@),
            old(self).ledger_state().batch_effect(final(self).ledger_state(), caller, to, items@),
    {
        self.ledger.transfer_all(caller, to, &items)
    }

    /// Stores a freshly fetched random value and reports it; when none could
    /// be fetched, refuses with `RandomnessUnavailable` and keeps the old one.
    pub fn update(&mut self, fetched: Option<[u8; 32]>) -> (r: Result<RandomUpdated, LedgerError>)
        ensures
            final(self).ledger_state() == old(self).ledger_state(),
            match fetched {
                Some(v) => final(self).stored_value() == v && r == Ok::<
                    RandomUpdated,
                    LedgerError,
                >((RandomUpdated { new: v })),
                None => final(self).stored_value() == old(self).stored_value() && r == Err::<
                    RandomUpdated,
                    LedgerError,
                >(LedgerError::RandomnessUnavailable),
            },
    {
        match fetched {
            Some(v) => {
                self.value = v;
                Ok(RandomUpdated { new: v })
            },
            None => Err(LedgerError::RandomnessUnavailable),
        }
    }

    /// The last stored random value.
    pub fn get(&self) -> (r: [u8; 32])
        ensures
            r == self.stored_value(),
    {
        self.value
    }
}

} // verus!
