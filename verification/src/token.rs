//! The token ledger: each token's supply and who holds how much of it.
//!
//! Whatever happens to a token, its balances add up to its total supply.

use vstd::prelude::*;
use candid::Principal;
use crate::table::find_last;
use crate::table::lemma_find_last;
use crate::table::lemma_find_last_push;
use crate::table::lemma_find_last_same_hits;
use crate::table::lemma_find_last_unique;
use crate::types::same_principal;
use crate::types::LendError;

verus! {

/// What one owner holds of a token.
#[derive(Clone, Copy, Debug, PartialEq, Eq)]
pub struct Account {
    pub owner: Principal,
    pub amount: u64,
}

/// A token with its accounts.  `owner` is the mint authority.
pub struct Token {
    pub id: u64,
    pub name: String,
    pub symbol: String,
    pub total_supply: u64,
    pub owner: Principal,
    pub accounts: Vec<Account>,
}

/// The predicate "is the account of `who`".
pub open spec fn owned_by(who: Principal) -> spec_fn(Account) -> bool {
    |a: Account| a.owner == who
}

/// The sum of all balances.
pub open spec fn sum_of(accounts: Seq<Account>) -> nat
    decreases accounts.len(),
{
    if accounts.len() == 0 {
        0
    } else {
        sum_of(accounts.drop_last()) + accounts.last().amount as nat
    }
}

/// One more account adds its balance to the sum.
pub proof fn lemma_sum_push(accounts: Seq<Account>, account: Account)
    ensures
        sum_of(accounts.push(account)) == sum_of(accounts) + account.amount,
{
    assert(accounts.push(account).drop_last() == accounts);
}

/// Changing one balance changes the sum by the difference; and no balance
/// exceeds the sum.
pub proof fn lemma_sum_update(accounts: Seq<Account>, i: int, account: Account)
    requires
        0 <= i < accounts.len(),
    ensures
        sum_of(accounts) >= accounts[i].amount,
        sum_of(accounts.update(i, account)) == sum_of(accounts) - accounts[i].amount + account.amount,
    decreases accounts.len(),
{
    if i == accounts.len() - 1 {
        assert(accounts.update(i, account).drop_last() == accounts.drop_last());
    } else {
        let front = accounts.drop_last();
        assert(front[i] == accounts[i]);
        assert(accounts.update(i, account).drop_last() == front.update(i, account));
        lemma_sum_update(front, i, account);
    }
}

/// What a token is: its description, its supply and its accounts in the order
/// they were opened.
pub struct TokenView {
    pub id: u64,
    pub name: Seq<char>,
    pub symbol: Seq<char>,
    pub total_supply: u64,
    pub owner: Principal,
    pub accounts: Seq<Account>,
}

impl TokenView {
    /// Where the account of `who` stands, if there is one.
    pub open spec fn account(self, who: Principal) -> Option<int> {
        find_last(self.accounts, owned_by(who))
    }

    /// What `who` holds.
    pub open spec fn balance_of(self, who: Principal) -> nat {
        match self.account(who) {
            Some(i) => self.accounts[i].amount as nat,
            None => 0,
        }
    }

    /// No owner has two accounts.
    pub open spec fn distinct(self) -> bool {
        forall|i: int, j: int|
            0 <= i < j < self.accounts.len() ==> #[trigger] self.accounts[i].owner
                != #[trigger] self.accounts[j].owner
    }

    /// The balances add up to the total supply.
    pub open spec fn conserved(self) -> bool {
        sum_of(self.accounts) == self.total_supply
    }

    /// A token is well-formed when its accounts are distinct and its supply
    /// is conserved.
    pub open spec fn wf(self) -> bool {
        self.distinct() && self.conserved()
    }

    /// The token with `who` holding `balance`.  An account that is not there
    /// yet is opened.
    pub open spec fn with_balance(self, who: Principal, balance: u64) -> TokenView {
        match self.account(who) {
            Some(i) => TokenView {
                accounts: self.accounts.update(i, Account { amount: balance, ..self.accounts[i] }),
                ..self
            },
            None => TokenView { accounts: self.accounts.push(Account { owner: who, amount: balance }), ..self },
        }
    }

    /// The token with `amount` more in circulation, held by `to`.
    pub open spec fn minted(self, to: Principal, amount: u64) -> TokenView {
        TokenView {
            total_supply: (self.total_supply + amount) as u64,
            ..self.with_balance(to, (self.balance_of(to) + amount) as u64)
        }
    }

    /// The token with `amount` less in circulation, taken from `from`.
    pub open spec fn burned(self, from: Principal, amount: u64) -> TokenView {
        TokenView {
            total_supply: (self.total_supply - amount) as u64,
            ..self.with_balance(from, (self.balance_of(from) - amount) as u64)
        }
    }

    /// The token with `amount` moved from `from` to `to`.
    pub open spec fn transferred(self, from: Principal, to: Principal, amount: u64) -> TokenView {
        let debited = self.with_balance(from, (self.balance_of(from) - amount) as u64);
        debited.with_balance(to, (debited.balance_of(to) + amount) as u64)
    }

    /// Setting a balance changes what that owner holds and nothing else, and
    /// moves the sum of the balances by the difference.
    pub proof fn lemma_with_balance(self, who: Principal, balance: u64)
        requires
            self.distinct(),
        ensures
            self.with_balance(who, balance).distinct(),
            self.with_balance(who, balance).account(who) is Some,
            forall|o: Principal|
                #![trigger self.with_balance(who, balance).balance_of(o)]
                self.with_balance(who, balance).balance_of(o) == if o == who {
                    balance as nat
                } else {
                    self.balance_of(o)
                },
            sum_of(self.with_balance(who, balance).accounts) == sum_of(self.accounts) - self.balance_of(who)
                + balance,
            self.balance_of(who) <= sum_of(self.accounts),
    {
        let after = self.with_balance(who, balance);
        lemma_find_last(self.accounts, owned_by(who));
        match self.account(who) {
            Some(i) => {
                lemma_sum_update(self.accounts, i, Account { amount: balance, ..self.accounts[i] });
            },
            None => {
                lemma_sum_push(self.accounts, Account { owner: who, amount: balance });
            },
        }
        assert forall|o: Principal| #![trigger after.balance_of(o)] after.balance_of(o) == if o == who {
            balance as nat
        } else {
            self.balance_of(o)
        } by {
            self.lemma_with_balance_at(who, balance, o);
        }
        self.lemma_with_balance_at(who, balance, who);
    }

    /// What `o` holds once `who` holds `balance`.
    proof fn lemma_with_balance_at(self, who: Principal, balance: u64, o: Principal)
        requires
            self.distinct(),
        ensures
            ({
                let after = self.with_balance(who, balance);
                if o == who {
                    after.account(o) is Some && after.balance_of(o) == balance
                } else {
                    after.balance_of(o) == self.balance_of(o)
                }
            }),
    {
        let after = self.with_balance(who, balance);
        lemma_find_last(self.accounts, owned_by(who));
        lemma_find_last(self.accounts, owned_by(o));
        match self.account(who) {
            Some(i) => {
                assert forall|j: int| 0 <= j < self.accounts.len() implies owned_by(o)(self.accounts[j])
                    == owned_by(o)(after.accounts[j]) by {}
                lemma_find_last_same_hits(self.accounts, after.accounts, owned_by(o));
            },
            None => {
                lemma_find_last_push(self.accounts, Account { owner: who, amount: balance }, owned_by(o));
            },
        }
    }
}

impl Token {
    /// What the token is.
    pub open spec fn view(&self) -> TokenView {
        TokenView {
            id: self.id,
            name: self.name@,
            symbol: self.symbol@,
            total_supply: self.total_supply,
            owner: self.owner,
            accounts: self.accounts@,
        }
    }

    /// Where the account of `who` stands.
    fn find(&self, who: &Principal) -> (found: Option<usize>)
        requires
            self@.distinct(),
        ensures
            match found {
                Some(i) => i < self.accounts.len() && self@.account(*who) == Some(i as int),
                None => self@.account(*who) is None,
            },
    {
        let mut i: usize = 0;
        while i < self.accounts.len()
            invariant
                i <= self.accounts.len(),
                self@.distinct(),
                forall|j: int| 0 <= j < i ==> !owned_by(*who)(self.accounts@[j]),
            decreases self.accounts.len() - i,
        {
            if same_principal(&self.accounts[i].owner, who) {
                proof {
                    lemma_find_last_unique(self.accounts@, owned_by(*who), i as int);
                }
                return Some(i);
            }
            i += 1;
        }
        proof {
            lemma_find_last(self.accounts@, owned_by(*who));
        }
        None
    }

    /// What `who` holds.
    fn balance(&self, who: &Principal) -> (balance: u64)
        requires
            self@.distinct(),
        ensures
            balance == self@.balance_of(*who),
    {
        match self.find(who) {
            Some(i) => self.accounts[i].amount,
            None => 0,
        }
    }

    /// Makes `who` hold `balance`.
    fn set_balance(&mut self, who: Principal, balance: u64)
        requires
            old(self)@.distinct(),
        ensures
            final(self)@ == old(self)@.with_balance(who, balance),
            final(self)@.distinct(),
    {
        proof {
            self@.lemma_with_balance(who, balance);
        }
        match self.find(&who) {
            Some(i) => {
                self.accounts.set(i, Account { owner: self.accounts[i].owner, amount: balance });
            },
            None => {
                self.accounts.push(Account { owner: who, amount: balance });
            },
        }
    }
}

/// What a ledger holds: its tokens, by id.
pub struct LedgerView {
    pub tokens: Seq<TokenView>,
}

impl LedgerView {
    /// Every token carries its index as id, has one account per owner and
    /// balances that add up to its supply; and no two tokens share a name.
    pub open spec fn wf(self) -> bool {
        &&& forall|i: int|
            0 <= i < self.tokens.len() ==> (#[trigger] self.tokens[i]).id == i && self.tokens[i].wf()
        &&& forall|i: int, j: int|
            0 <= i < j < self.tokens.len() ==> #[trigger] self.tokens[i].name != #[trigger] self.tokens[j].name
    }

    /// Whether some token is called `name`.
    pub open spec fn name_taken(self, name: Seq<char>) -> bool {
        exists|i: int| 0 <= i < self.tokens.len() && (#[trigger] self.tokens[i]).name == name
    }

    /// What `who` holds of token `token_id`; nothing of a token that does not
    /// exist.
    pub open spec fn balance_of(self, token_id: u64, who: Principal) -> nat {
        if token_id < self.tokens.len() {
            self.tokens[token_id as int].balance_of(who)
        } else {
            0
        }
    }

    /// The ledger with `token` in the place of token `token_id`.
    pub open spec fn with_token(self, token_id: u64, token: TokenView) -> LedgerView {
        LedgerView { tokens: self.tokens.update(token_id as int, token) }
    }

    /// What `create_token` answers: the id of the new token.
    pub open spec fn create_outcome(self, name: Seq<char>) -> Result<u64, LendError> {
        if self.name_taken(name) {
            Err(LendError::TokenNameTaken)
        } else {
            Ok(self.tokens.len() as u64)
        }
    }

    /// The ledger after `create_token`: the new token's whole supply is held
    /// by its owner.
    pub open spec fn created(
        self,
        name: Seq<char>,
        symbol: Seq<char>,
        total_supply: u64,
        owner: Principal,
    ) -> LedgerView {
        if self.create_outcome(name) is Ok {
            LedgerView {
                tokens: self.tokens.push(
                    TokenView {
                        id: self.tokens.len() as u64,
                        name,
                        symbol,
                        total_supply,
                        owner,
                        accounts: Seq::<Account>::empty().push(Account { owner, amount: total_supply }),
                    },
                ),
            }
        } else {
            self
        }
    }

    /// What `mint_tokens` answers: only the token's owner mints, and only an
    /// amount that is not zero and that the supply can take.
    pub open spec fn mint_outcome(self, token_id: u64, caller: Principal, amount: u64) -> Result<(), LendError> {
        if token_id >= self.tokens.len() {
            Err(LendError::TokenNotFound)
        } else if self.tokens[token_id as int].owner != caller {
            Err(LendError::Unauthorized)
        } else if amount == 0 || self.tokens[token_id as int].total_supply + amount > u64::MAX {
            Err(LendError::InvalidAmount)
        } else {
            Ok(())
        }
    }

    /// The ledger after `mint_tokens`.
    pub open spec fn minted(self, token_id: u64, caller: Principal, to: Principal, amount: u64) -> LedgerView {
        if self.mint_outcome(token_id, caller, amount) is Ok {
            self.with_token(token_id, self.tokens[token_id as int].minted(to, amount))
        } else {
            self
        }
    }

    /// What `burn_tokens` and `transfer_tokens` answer: no more can leave an
    /// account than it holds.
    pub open spec fn debit_outcome(self, token_id: u64, from: Principal, amount: u64) -> Result<(), LendError> {
        if token_id >= self.tokens.len() {
            Err(LendError::TokenNotFound)
        } else if amount > self.tokens[token_id as int].balance_of(from) {
            Err(LendError::InsufficientBalance)
        } else {
            Ok(())
        }
    }

    /// The ledger after `burn_tokens`.
    pub open spec fn burned(self, token_id: u64, from: Principal, amount: u64) -> LedgerView {
        if self.debit_outcome(token_id, from, amount) is Ok && amount > 0 {
            self.with_token(token_id, self.tokens[token_id as int].burned(from, amount))
        } else {
            self
        }
    }

    /// The ledger after `transfer_tokens`.
    pub open spec fn transferred(self, token_id: u64, from: Principal, to: Principal, amount: u64) -> LedgerView {
        if self.debit_outcome(token_id, from, amount) is Ok && amount > 0 {
            self.with_token(token_id, self.tokens[token_id as int].transferred(from, to, amount))
        } else {
            self
        }
    }

    /// In a well-formed ledger the balances of every token add up to its
    /// total supply, and no balance exceeds it.
    pub proof fn lemma_supply_conserved(self, token_id: u64, who: Principal)
        requires
            self.wf(),
            token_id < self.tokens.len(),
        ensures
            sum_of(self.tokens[token_id as int].accounts) == self.tokens[token_id as int].total_supply,
            self.balance_of(token_id, who) <= self.tokens[token_id as int].total_supply,
    {
        let token = self.tokens[token_id as int];
        token.lemma_with_balance(who, 0);
    }

    /// A new token starts with balances that add up to its total supply, and
    /// leaves the other tokens as they were.
    pub proof fn lemma_creation_conserves(
        self,
        name: Seq<char>,
        symbol: Seq<char>,
        total_supply: u64,
        owner: Principal,
    )
        requires
            self.wf(),
            self.tokens.len() < u64::MAX,
        ensures
            self.created(name, symbol, total_supply, owner).wf(),
            forall|i: int|
                0 <= i < self.tokens.len() ==> #[trigger] self.created(name, symbol, total_supply, owner).tokens[i]
                    == self.tokens[i],
    {
        lemma_sum_push(Seq::<Account>::empty(), Account { owner, amount: total_supply });
    }

    /// Minting, burning and transferring keep a ledger well-formed: after
    /// each, the balances of every token still add up to its total supply.
    pub proof fn lemma_moves_conserve(self, token_id: u64, caller: Principal, from: Principal, to: Principal, amount: u64)
        requires
            self.wf(),
        ensures
            self.minted(token_id, caller, to, amount).wf(),
            self.burned(token_id, from, amount).wf(),
            self.transferred(token_id, from, to, amount).wf(),
    {
        if token_id < self.tokens.len() {
            let token = self.tokens[token_id as int];
            token.lemma_with_balance(to, (token.balance_of(to) + amount) as u64);
            token.lemma_with_balance(from, (token.balance_of(from) - amount) as u64);
            let debited = token.with_balance(from, (token.balance_of(from) - amount) as u64);
            debited.lemma_with_balance(to, (debited.balance_of(to) + amount) as u64);
            token.lemma_with_balance(to, 0);
            if self.mint_outcome(token_id, caller, amount) is Ok {
                let after = self.minted(token_id, caller, to, amount);
                assert(after.tokens[token_id as int].wf());
                assert(after.wf());
            }
            if self.debit_outcome(token_id, from, amount) is Ok && amount > 0 {
                let burned = self.burned(token_id, from, amount);
                assert(burned.tokens[token_id as int].wf());
                assert(burned.wf());
                let moved = self.transferred(token_id, from, to, amount);
                assert(debited.balance_of(to) + amount <= u64::MAX);
                assert(moved.tokens[token_id as int].wf());
                assert(moved.wf());
            }
        }
    }
}

/// The token ledger.
pub struct TokenLedger {
    tokens: Vec<Token>,
}

impl TokenLedger {
    /// What the ledger holds.
    pub closed spec fn view(&self) -> LedgerView {
        LedgerView { tokens: Seq::new(self.tokens@.len(), |i: int| self.tokens@[i]@) }
    }

    /// The ledger is well-formed when what it holds is.
    pub open spec fn wf(&self) -> bool {
        self@.wf()
    }

    /// A ledger without tokens.
    pub fn new() -> (ledger: TokenLedger)
        ensures
            ledger.wf(),
            ledger@.tokens.len() == 0,
    {
        TokenLedger { tokens: Vec::new() }
    }

    /// Creates a token called `name` whose whole `total_supply` is held by
    /// `owner`, the token's mint authority, and returns its id.  A name can be
    /// used once.
    pub fn create_token(&mut self, name: String, symbol: String, total_supply: u64, owner: Principal) -> (outcome:
        Result<u64, LendError>)
        requires
            old(self).wf(),
        ensures
            final(self).wf(),
            outcome == old(self)@.create_outcome(name@),
            final(self)@ == old(self)@.created(name@, symbol@, total_supply, owner),
    {
        let mut i: usize = 0;
        while i < self.tokens.len()
            invariant
                i <= self.tokens.len(),
                *self == *old(self),
                self.wf(),
                forall|j: int| 0 <= j < i ==> (#[trigger] self@.tokens[j]).name != name@,
            decreases self.tokens.len() - i,
        {
            if self.tokens[i].name.eq(&name) {
                assert(self@.tokens[i as int].name == name@);
                return Err(LendError::TokenNameTaken);
            }
            i += 1;
        }
        let id: u64 = self.tokens.len() as u64;
        let mut accounts: Vec<Account> = Vec::new();
        accounts.push(Account { owner, amount: total_supply });
        proof {
            lemma_sum_push(Seq::<Account>::empty(), Account { owner, amount: total_supply });
        }
        self.tokens.push(Token { id, name, symbol, total_supply, owner, accounts });
        assert(self@.tokens == old(self)@.created(name@, symbol@, total_supply, owner).tokens);
        Ok(id)
    }

    /// Puts `amount` new units of token `token_id` into the account of `to`.
    /// Only the token's owner may call this.
    pub fn mint_tokens(&mut self, token_id: u64, caller: Principal, to: Principal, amount: u64) -> (outcome: Result<
        (),
        LendError,
    >)
        requires
            old(self).wf(),
        ensures
            final(self).wf(),
            outcome == old(self)@.mint_outcome(token_id, caller, amount),
            final(self)@ == old(self)@.minted(token_id, caller, to, amount),
    {
        if token_id >= self.tokens.len() as u64 {
            return Err(LendError::TokenNotFound);
        }
        let at: usize = token_id as usize;
        assert(self@.tokens[at as int] == self.tokens[at as int]@);
        if !same_principal(&self.tokens[at].owner, &caller) {
            return Err(LendError::Unauthorized);
        }
        if amount == 0 {
            return Err(LendError::InvalidAmount);
        }
        match self.tokens[at].total_supply.checked_add(amount) {
            None => Err(LendError::InvalidAmount),
            Some(supply) => {
                let held: u64 = self.tokens[at].balance(&to);
                proof {
                    old(self)@.lemma_supply_conserved(token_id, to);
                    old(self)@.lemma_moves_conserve(token_id, caller, to, to, amount);
                }
                self.tokens[at].set_balance(to, held + amount);
                self.tokens[at].total_supply = supply;
                assert(self@.tokens == old(self)@.minted(token_id, caller, to, amount).tokens);
                Ok(())
            },
        }
    }

    /// Takes `amount` units of token `token_id` out of the account of `from`
    /// and out of circulation.
    pub fn burn_tokens(&mut self, token_id: u64, from: Principal, amount: u64) -> (outcome: Result<(), LendError>)
        requires
            old(self).wf(),
        ensures
            final(self).wf(),
            outcome == old(self)@.debit_outcome(token_id, from, amount),
            final(self)@ == old(self)@.burned(token_id, from, amount),
    {
        if token_id >= self.tokens.len() as u64 {
            return Err(LendError::TokenNotFound);
        }
        let at: usize = token_id as usize;
        assert(self@.tokens[at as int] == self.tokens[at as int]@);
        let held: u64 = self.tokens[at].balance(&from);
        if amount > held {
            return Err(LendError::InsufficientBalance);
        }
        if amount > 0 {
            proof {
                old(self)@.lemma_supply_conserved(token_id, from);
                old(self)@.lemma_moves_conserve(token_id, from, from, from, amount);
            }
            let supply: u64 = self.tokens[at].total_supply - amount;
            self.tokens[at].set_balance(from, held - amount);
            self.tokens[at].total_supply = supply;
            assert(self@.tokens == old(self)@.burned(token_id, from, amount).tokens);
        }
        Ok(())
    }

    /// Moves `amount` units of token `token_id` from the account of `from` to
    /// that of `to`.  Where `from` holds less, nothing moves.
    pub fn transfer_tokens(&mut self, token_id: u64, from: Principal, to: Principal, amount: u64) -> (outcome:
        Result<(), LendError>)
        requires
            old(self).wf(),
        ensures
            final(self).wf(),
            outcome == old(self)@.debit_outcome(token_id, from, amount),
            final(self)@ == old(self)@.transferred(token_id, from, to, amount),
    {
        if token_id >= self.tokens.len() as u64 {
            return Err(LendError::TokenNotFound);
        }
        let at: usize = token_id as usize;
        assert(self@.tokens[at as int] == self.tokens[at as int]@);
        let held: u64 = self.tokens[at].balance(&from);
        if amount > held {
            return Err(LendError::InsufficientBalance);
        }
        if amount > 0 {
            proof {
                old(self)@.lemma_supply_conserved(token_id, from);
                old(self)@.lemma_moves_conserve(token_id, from, from, to, amount);
                let token = old(self)@.tokens[at as int];
                token.lemma_with_balance(from, (held - amount) as u64);
                let debited = token.with_balance(from, (held - amount) as u64);
                debited.lemma_with_balance(to, 0);
            }
            self.tokens[at].set_balance(from, held - amount);
            let received: u64 = self.tokens[at].balance(&to);
            self.tokens[at].set_balance(to, received + amount);
            assert(self@.tokens == old(self)@.transferred(token_id, from, to, amount).tokens);
        }
        Ok(())
    }

    /// What `who` holds of token `token_id`.
    pub fn balance_of(&self, token_id: u64, who: Principal) -> (balance: u64)
        requires
            self.wf(),
        ensures
            balance == self@.balance_of(token_id, who),
    {
        if token_id >= self.tokens.len() as u64 {
            return 0;
        }
        assert(self@.tokens[token_id as int] == self.tokens[token_id as int]@);
        self.tokens[token_id as usize].balance(&who)
    }

    /// The total supply of token `token_id`, if the token exists.
    pub fn total_supply(&self, token_id: u64) -> (supply: Option<u64>)
        ensures
            supply == if token_id < self@.tokens.len() {
                Some(self@.tokens[token_id as int].total_supply)
            } else {
                None
            },
    {
        if token_id >= self.tokens.len() as u64 {
            return None;
        }
        assert(self@.tokens[token_id as int] == self.tokens[token_id as int]@);
        Some(self.tokens[token_id as usize].total_supply)
    }

    /// The symbol of token `token_id`, if the token exists.
    pub fn token_symbol(&self, token_id: u64) -> (symbol: Option<String>)
        ensures
            symbol is Some <==> token_id < self@.tokens.len(),
            symbol matches Some(text) ==> text@ == self@.tokens[token_id as int].symbol,
    {
        if token_id >= self.tokens.len() as u64 {
            return None;
        }
        assert(self@.tokens[token_id as int] == self.tokens[token_id as int]@);
        Some(self.tokens[token_id as usize].symbol.clone())
    }

    /// How many tokens there are.
    pub fn token_count(&self) -> (count: u64)
        ensures
            count == self@.tokens.len(),
    {
        self.tokens.len() as u64
    }
}

} // verus!
