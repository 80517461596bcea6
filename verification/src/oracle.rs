//! Entitlement oracle: the boundary that answers token balance, token
//! ownership and collectible queries. The core consumes these answers and
//! folds every failure to a negative answer (fail-closed); a query against a
//! contract marked as failing errors instead of answering.
//!
//! The oracle is an explicit value injected per call: its tables say what each
//! entitlement contract would answer, and a failing-contract list models
//! queries that error out.

use vstd::prelude::*;

use crate::errors::ContractError;

verus! {

/// What each entitlement contract currently answers. Later entries are
/// shadowed by earlier ones, so every setter prepends.
pub struct EntitlementOracle {
    failing: Vec<String>,
    erc721_balances: Vec<(String, String, u128)>,
    erc721_owners: Vec<(String, u64, String)>,
    erc1155_balances: Vec<(String, String, u64, u128)>,
    collectibles: Vec<(String, u64, bool)>,
}

impl EntitlementOracle {
    pub closed spec fn spec_fails_of(s: Seq<String>, c: Seq<char>) -> bool
        decreases s.len(),
    {
        if s.len() == 0 {
            false
        } else if s[0]@ == c {
            true
        } else {
            Self::spec_fails_of(s.drop_first(), c)
        }
    }

    pub closed spec fn spec_bal721_of(s: Seq<(String, String, u128)>, c: Seq<char>, o: Seq<char>) -> u128
        decreases s.len(),
    {
        if s.len() == 0 {
            0
        } else if s[0].0@ == c && s[0].1@ == o {
            s[0].2
        } else {
            Self::spec_bal721_of(s.drop_first(), c, o)
        }
    }

    pub closed spec fn spec_owner721_of(s: Seq<(String, u64, String)>, c: Seq<char>, id: u64) -> Option<
        Seq<char>,
    >
        decreases s.len(),
    {
        if s.len() == 0 {
            None
        } else if s[0].0@ == c && s[0].1 == id {
            Some(s[0].2@)
        } else {
            Self::spec_owner721_of(s.drop_first(), c, id)
        }
    }

    pub closed spec fn spec_bal1155_of(
        s: Seq<(String, String, u64, u128)>,
        c: Seq<char>,
        o: Seq<char>,
        id: u64,
    ) -> u128
        decreases s.len(),
    {
        if s.len() == 0 {
            0
        } else if s[0].0@ == c && s[0].1@ == o && s[0].2 == id {
            s[0].3
        } else {
            Self::spec_bal1155_of(s.drop_first(), c, o, id)
        }
    }

    pub closed spec fn spec_collectible_of(s: Seq<(String, u64, bool)>, c: Seq<char>, id: u64) -> Option<
        bool,
    >
        decreases s.len(),
    {
        if s.len() == 0 {
            None
        } else if s[0].0@ == c && s[0].1 == id {
            Some(s[0].2)
        } else {
            Self::spec_collectible_of(s.drop_first(), c, id)
        }
    }

    /// Whether a query against contract `c` errors out.
    pub closed spec fn spec_fails(&self, c: Seq<char>) -> bool {
        Self::spec_fails_of(self.failing@, c)
    }

    /// The fungible-style balance an entitlement contract reports for an
    /// owner; 0 when no balance is recorded.
    pub closed spec fn spec_bal721(&self, c: Seq<char>, o: Seq<char>) -> u128 {
        Self::spec_bal721_of(self.erc721_balances@, c, o)
    }

    /// The owner an entitlement contract reports for a token id, if any.
    pub closed spec fn spec_owner721(&self, c: Seq<char>, id: u64) -> Option<Seq<char>> {
        Self::spec_owner721_of(self.erc721_owners@, c, id)
    }

    /// The per-token-id balance an entitlement contract reports for an
    /// account; 0 when no balance is recorded.
    pub closed spec fn spec_bal1155(&self, c: Seq<char>, o: Seq<char>, id: u64) -> u128 {
        Self::spec_bal1155_of(self.erc1155_balances@, c, o, id)
    }

    /// The active flag a collectible contract reports for an id, if any.
    pub closed spec fn spec_collectible(&self, c: Seq<char>, id: u64) -> Option<bool> {
        Self::spec_collectible_of(self.collectibles@, c, id)
    }

    /// An oracle that answers every query with the default: nothing fails,
    /// every balance is zero, no token has an owner, no collectible exists.
    pub fn new() -> (r: EntitlementOracle)
        ensures
            forall|c: Seq<char>| !r.spec_fails(c),
            forall|c: Seq<char>, o: Seq<char>| r.spec_bal721(c, o) == 0,
            forall|c: Seq<char>, id: u64| r.spec_owner721(c, id) is None,
            forall|c: Seq<char>, o: Seq<char>, id: u64| r.spec_bal1155(c, o, id) == 0,
            forall|c: Seq<char>, id: u64| r.spec_collectible(c, id) is None,
    {
        EntitlementOracle {
            failing: Vec::new(),
            erc721_balances: Vec::new(),
            erc721_owners: Vec::new(),
            erc1155_balances: Vec::new(),
            collectibles: Vec::new(),
        }
    }

    /// Marks every future query against `contract` as erroring.
    pub fn set_failing(&mut self, contract: String)
        ensures
            final(self).spec_fails(contract@),
            forall|c: Seq<char>|
                c != contract@ ==> final(self).spec_fails(c) == old(self).spec_fails(c),
            forall|c: Seq<char>, o: Seq<char>|
                final(self).spec_bal721(c, o) == old(self).spec_bal721(c, o),
            forall|c: Seq<char>, id: u64|
                final(self).spec_owner721(c, id) == old(self).spec_owner721(c, id),
            forall|c: Seq<char>, o: Seq<char>, id: u64|
                final(self).spec_bal1155(c, o, id) == old(self).spec_bal1155(c, o, id),
            forall|c: Seq<char>, id: u64|
                final(self).spec_collectible(c, id) == old(self).spec_collectible(c, id),
    {
        let ghost cv = contract@;
        self.failing.insert(0, contract);
        proof {
            assert(self.failing@[0]@ == cv);
            assert(self.failing@.drop_first() =~= old(self).failing@);
        }
    }

    /// Records the balance that `contract` reports for `owner`.
    pub fn set_erc721_balance(&mut self, contract: String, owner: String, amount: u128)
        ensures
            final(self).spec_bal721(contract@, owner@) == amount,
            forall|c: Seq<char>, o: Seq<char>|
                !(c == contract@ && o == owner@) ==> final(self).spec_bal721(c, o) == old(
                    self,
                ).spec_bal721(c, o),
            forall|c: Seq<char>| final(self).spec_fails(c) == old(self).spec_fails(c),
            forall|c: Seq<char>, id: u64|
                final(self).spec_owner721(c, id) == old(self).spec_owner721(c, id),
            forall|c: Seq<char>, o: Seq<char>, id: u64|
                final(self).spec_bal1155(c, o, id) == old(self).spec_bal1155(c, o, id),
            forall|c: Seq<char>, id: u64|
                final(self).spec_collectible(c, id) == old(self).spec_collectible(c, id),
    {
        let ghost cv = contract@;
        let ghost ov = owner@;
        self.erc721_balances.insert(0, (contract, owner, amount));
        proof {
            assert(self.erc721_balances@[0].0@ == cv && self.erc721_balances@[0].1@ == ov);
            assert(self.erc721_balances@.drop_first() =~= old(self).erc721_balances@);
        }
    }

    /// Records the owner that `contract` reports for `token_id`.
    pub fn set_erc721_owner(&mut self, contract: String, token_id: u64, owner: String)
        ensures
            final(self).spec_owner721(contract@, token_id) == Some(owner@),
            forall|c: Seq<char>, id: u64|
                !(c == contract@ && id == token_id) ==> final(self).spec_owner721(c, id) == old(
                    self,
                ).spec_owner721(c, id),
            forall|c: Seq<char>| final(self).spec_fails(c) == old(self).spec_fails(c),
            forall|c: Seq<char>, o: Seq<char>|
                final(self).spec_bal721(c, o) == old(self).spec_bal721(c, o),
            forall|c: Seq<char>, o: Seq<char>, id: u64|
                final(self).spec_bal1155(c, o, id) == old(self).spec_bal1155(c, o, id),
            forall|c: Seq<char>, id: u64|
                final(self).spec_collectible(c, id) == old(self).spec_collectible(c, id),
    {
        let ghost cv = contract@;
        let ghost ov = owner@;
        self.erc721_owners.insert(0, (contract, token_id, owner));
        proof {
            assert(self.erc721_owners@[0].0@ == cv && self.erc721_owners@[0].2@ == ov);
            assert(self.erc721_owners@.drop_first() =~= old(self).erc721_owners@);
        }
    }

    /// Records the balance that `contract` reports for (`account`, `id`).
    pub fn set_erc1155_balance(&mut self, contract: String, account: String, id: u64, amount: u128)
        ensures
            final(self).spec_bal1155(contract@, account@, id) == amount,
            forall|c: Seq<char>, o: Seq<char>, i: u64|
                !(c == contract@ && o == account@ && i == id) ==> final(self).spec_bal1155(
                    c,
                    o,
                    i,
                ) == old(self).spec_bal1155(c, o, i),
            forall|c: Seq<char>| final(self).spec_fails(c) == old(self).spec_fails(c),
            forall|c: Seq<char>, o: Seq<char>|
                final(self).spec_bal721(c, o) == old(self).spec_bal721(c, o),
            forall|c: Seq<char>, id: u64|
                final(self).spec_owner721(c, id) == old(self).spec_owner721(c, id),
            forall|c: Seq<char>, id: u64|
                final(self).spec_collectible(c, id) == old(self).spec_collectible(c, id),
    {
        let ghost cv = contract@;
        let ghost ov = account@;
        self.erc1155_balances.insert(0, (contract, account, id, amount));
        proof {
            assert(self.erc1155_balances@[0].0@ == cv && self.erc1155_balances@[0].1@ == ov);
            assert(self.erc1155_balances@.drop_first() =~= old(self).erc1155_balances@);
        }
    }

    /// Records the active flag that `contract` reports for collectible `id`.
    pub fn set_collectible(&mut self, contract: String, id: u64, is_active: bool)
        ensures
            final(self).spec_collectible(contract@, id) == Some(is_active),
            forall|c: Seq<char>, i: u64|
                !(c == contract@ && i == id) ==> final(self).spec_collectible(c, i) == old(
                    self,
                ).spec_collectible(c, i),
            forall|c: Seq<char>| final(self).spec_fails(c) == old(self).spec_fails(c),
            forall|c: Seq<char>, o: Seq<char>|
                final(self).spec_bal721(c, o) == old(self).spec_bal721(c, o),
            forall|c: Seq<char>, id: u64|
                final(self).spec_owner721(c, id) == old(self).spec_owner721(c, id),
            forall|c: Seq<char>, o: Seq<char>, id: u64|
                final(self).spec_bal1155(c, o, id) == old(self).spec_bal1155(c, o, id),
    {
        let ghost cv = contract@;
        self.collectibles.insert(0, (contract, id, is_active));
        proof {
            assert(self.collectibles@[0].0@ == cv);
            assert(self.collectibles@.drop_first() =~= old(self).collectibles@);
        }
    }

    fn fails(&self, contract: &String) -> (r: bool)
        ensures
            r == self.spec_fails(contract@),
    {
        proof {
            assert(self.failing@.skip(0) =~= self.failing@);
        }
        let mut i: usize = 0;
        while i < self.failing.len()
            invariant
                i <= self.failing@.len(),
                Self::spec_fails_of(self.failing@.skip(i as int), contract@) == self.spec_fails(
                    contract@,
                ),
            decreases self.failing@.len() - i,
        {
            proof {
                assert(self.failing@.skip(i as int)[0] == self.failing@[i as int]);
                assert(self.failing@.skip(i as int).drop_first() =~= self.failing@.skip(
                    i as int + 1,
                ));
            }
            if self.failing[i] == *contract {
                return true;
            }
            i = i + 1;
        }
        proof {
            assert(self.failing@.skip(i as int) =~= Seq::<String>::empty());
        }
        false
    }

    /// Relies on the recorded table: the balance `contract` reports for
    /// `owner`, or an error when the contract's queries fail.
    pub fn erc721_balance_of(&self, contract: &String, owner: &String) -> (r: Result<
        u128,
        ContractError,
    >)
        ensures
            r is Ok <==> !self.spec_fails(contract@),
            r is Ok ==> r == Result::<u128, ContractError>::Ok(
                self.spec_bal721(contract@, owner@),
            ),
            r is Err ==> r == Result::<u128, ContractError>::Err(
                ContractError::ExternalQueryFailure,
            ),
    {
        if self.fails(contract) {
            return Err(ContractError::ExternalQueryFailure);
        }
        proof {
            assert(self.erc721_balances@.skip(0) =~= self.erc721_balances@);
        }
        let mut i: usize = 0;
        while i < self.erc721_balances.len()
            invariant
                i <= self.erc721_balances@.len(),
                Self::spec_bal721_of(self.erc721_balances@.skip(i as int), contract@, owner@)
                    == self.spec_bal721(contract@, owner@),
            decreases self.erc721_balances@.len() - i,
        {
            proof {
                assert(self.erc721_balances@.skip(i as int)[0] == self.erc721_balances@[i as int]);
                assert(self.erc721_balances@.skip(i as int).drop_first()
                    =~= self.erc721_balances@.skip(i as int + 1));
            }
            if self.erc721_balances[i].0 == *contract && self.erc721_balances[i].1 == *owner {
                return Ok(self.erc721_balances[i].2);
            }
            i = i + 1;
        }
        proof {
            assert(self.erc721_balances@.skip(i as int) =~= Seq::<(String, String, u128)>::empty());
        }
        Ok(0)
    }

    /// Relies on the recorded table: the owner `contract` reports for
    /// `token_id`; an error when the contract fails or reports no owner.
    pub fn erc721_owner_of(&self, contract: &String, token_id: u64) -> (r: Result<
        String,
        ContractError,
    >)
        ensures
            r is Ok <==> (!self.spec_fails(contract@) && self.spec_owner721(contract@, token_id)
                is Some),
            r matches Ok(o) ==> self.spec_owner721(contract@, token_id) == Some(o@),
            r is Err ==> r == Result::<String, ContractError>::Err(
                ContractError::ExternalQueryFailure,
            ),
    {
        if self.fails(contract) {
            return Err(ContractError::ExternalQueryFailure);
        }
        proof {
            assert(self.erc721_owners@.skip(0) =~= self.erc721_owners@);
        }
        let mut i: usize = 0;
        while i < self.erc721_owners.len()
            invariant
                i <= self.erc721_owners@.len(),
                Self::spec_owner721_of(self.erc721_owners@.skip(i as int), contract@, token_id)
                    == self.spec_owner721(contract@, token_id),
            decreases self.erc721_owners@.len() - i,
        {
            proof {
                assert(self.erc721_owners@.skip(i as int)[0] == self.erc721_owners@[i as int]);
                assert(self.erc721_owners@.skip(i as int).drop_first()
                    =~= self.erc721_owners@.skip(i as int + 1));
            }
            if self.erc721_owners[i].0 == *contract && self.erc721_owners[i].1 == token_id {
                return Ok(self.erc721_owners[i].2.clone());
            }
            i = i + 1;
        }
        proof {
            assert(self.erc721_owners@.skip(i as int) =~= Seq::<(String, u64, String)>::empty());
        }
        Err(ContractError::ExternalQueryFailure)
    }

    /// Relies on the recorded table: the balance `contract` reports for
    /// (`account`, `id`), or an error when the contract's queries fail.
    pub fn erc1155_balance_of(&self, contract: &String, account: &String, id: u64) -> (r: Result<
        u128,
        ContractError,
    >)
        ensures
            r is Ok <==> !self.spec_fails(contract@),
            r is Ok ==> r == Result::<u128, ContractError>::Ok(
                self.spec_bal1155(contract@, account@, id),
            ),
            r is Err ==> r == Result::<u128, ContractError>::Err(
                ContractError::ExternalQueryFailure,
            ),
    {
        if self.fails(contract) {
            return Err(ContractError::ExternalQueryFailure);
        }
        proof {
            assert(self.erc1155_balances@.skip(0) =~= self.erc1155_balances@);
        }
        let mut i: usize = 0;
        while i < self.erc1155_balances.len()
            invariant
                i <= self.erc1155_balances@.len(),
                Self::spec_bal1155_of(
                    self.erc1155_balances@.skip(i as int),
                    contract@,
                    account@,
                    id,
                ) == self.spec_bal1155(contract@, account@, id),
            decreases self.erc1155_balances@.len() - i,
        {
            proof {
                assert(self.erc1155_balances@.skip(i as int)[0]
                    == self.erc1155_balances@[i as int]);
                assert(self.erc1155_balances@.skip(i as int).drop_first()
                    =~= self.erc1155_balances@.skip(i as int + 1));
            }
            if self.erc1155_balances[i].0 == *contract && self.erc1155_balances[i].1 == *account
                && self.erc1155_balances[i].2 == id {
                return Ok(self.erc1155_balances[i].3);
            }
            i = i + 1;
        }
        proof {
            assert(self.erc1155_balances@.skip(i as int) =~= Seq::<
                (String, String, u64, u128),
            >::empty());
        }
        Ok(0)
    }

    /// Relies on the recorded table: the active flag `contract` reports for
    /// collectible `id`; an error when the contract fails or does not know the
    /// collectible.
    pub fn get_collectible(&self, contract: &String, id: u64) -> (r: Result<bool, ContractError>)
        ensures
            r is Ok <==> (!self.spec_fails(contract@) && self.spec_collectible(contract@, id)
                is Some),
            r matches Ok(a) ==> self.spec_collectible(contract@, id) == Some(a),
            r is Err ==> r == Result::<bool, ContractError>::Err(
                ContractError::ExternalQueryFailure,
            ),
    {
        if self.fails(contract) {
            return Err(ContractError::ExternalQueryFailure);
        }
        proof {
            assert(self.collectibles@.skip(0) =~= self.collectibles@);
        }
        let mut i: usize = 0;
        while i < self.collectibles.len()
            invariant
                i <= self.collectibles@.len(),
                Self::spec_collectible_of(self.collectibles@.skip(i as int), contract@, id)
                    == self.spec_collectible(contract@, id),
            decreases self.collectibles@.len() - i,
        {
            proof {
                assert(self.collectibles@.skip(i as int)[0] == self.collectibles@[i as int]);
                assert(self.collectibles@.skip(i as int).drop_first() =~= self.collectibles@.skip(
                    i as int + 1,
                ));
            }
            if self.collectibles[i].0 == *contract && self.collectibles[i].1 == id {
                return Ok(self.collectibles[i].2);
            }
            i = i + 1;
        }
        proof {
            assert(self.collectibles@.skip(i as int) =~= Seq::<(String, u64, bool)>::empty());
        }
        Err(ContractError::ExternalQueryFailure)
    }
}

} // verus!
