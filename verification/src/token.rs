//! The carbon credit token: balances, allowances, supply accounting,
//! a burner role, SEP-41 metadata and a compliance allowlist.

use std::collections::HashMap;
use vstd::prelude::*;

use crate::common::{copy_vec, Address, Auth};
use crate::sums::{lemma_sum_over_agree, lemma_sum_over_remove, sum_over};

verus! {

broadcast use vstd::std_specs::hash::group_hash_axioms;

/// Default SEP-41 metadata applied at initialization.
pub const DEFAULT_DECIMALS: u32 = 7;

/// Errors returned by the credit token.
#[derive(PartialEq, Eq, Structural, Clone, Copy, Debug)]
pub enum TokenError {
    InsufficientBalance,
    Overflow,
    NegativeAmount,
    Unauthorized,
    AllowanceUnderflow,
}

impl TokenError {
    /// The numeric contract error code of the variant, as the token reports
    /// it.
    pub open spec fn spec_code(self) -> u32 {
        match self {
            TokenError::InsufficientBalance => 100,
            TokenError::Overflow => 101,
            TokenError::NegativeAmount => 102,
            TokenError::Unauthorized => 103,
            TokenError::AllowanceUnderflow => 104,
        }
    }

    /// The numeric contract error code of the variant.
    pub fn code(&self) -> (c: u32)
        ensures
            c == self.spec_code(),
    {
        match self {
            TokenError::InsufficientBalance => 100,
            TokenError::Overflow => 101,
            TokenError::NegativeAmount => 102,
            TokenError::Unauthorized => 103,
            TokenError::AllowanceUnderflow => 104,
        }
    }
}

/// An event published by the credit token.
#[derive(PartialEq, Eq, Structural, Clone, Copy, Debug)]
pub enum TokenEvent {
    /// `amount` moved from `from` to `to` (also by a delegated transfer).
    Transfer { from: Address, to: Address, amount: i128 },
    /// `from` allowed `spender` to move up to `amount`.
    Approve { from: Address, spender: Address, amount: i128 },
    /// The admin minted `amount` to `to`.
    Mint { admin: Address, to: Address, amount: i128 },
    /// `amount` held by `from` was burned; the topic names the admin.
    Burn { admin: Address, from: Address, amount: i128 },
}

/// The abstract state of a credit token contract.
pub struct TokenState {
    /// The admin (the registry); `None` until initialization.
    pub admin: Option<Address>,
    pub decimals: u32,
    pub name: Seq<char>,
    pub symbol: Seq<char>,
    /// Tokens in circulation: minted minus burned.
    pub total_supply: i128,
    pub balances: Map<Address, i128>,
    pub allowances: Map<(Address, Address), i128>,
    /// The contract allowed to burn, once set.
    pub burner: Option<Address>,
    pub allowlist_enabled: bool,
    pub allowlisted: Map<Address, bool>,
    /// The events published so far, oldest first.
    pub events: Seq<TokenEvent>,
}

impl TokenState {
    pub open spec fn initialized(self) -> bool {
        self.admin is Some
    }

    /// No balance or allowance is ever negative.
    pub open spec fn wf(self) -> bool {
        &&& forall|a: Address| #[trigger] self.balances.contains_key(a) ==> self.balances[a] >= 0
        &&& forall|k: (Address, Address)| #[trigger] self.allowances.contains_key(k) ==> self.allowances[k] >= 0
    }

    /// The balance of `a`; zero when none was ever stored.
    pub open spec fn balance(self, a: Address) -> i128 {
        if self.balances.contains_key(a) {
            self.balances[a]
        } else {
            0
        }
    }

    /// The allowance granted by `owner` to `spender`; zero by default.
    pub open spec fn allowance(self, owner: Address, spender: Address) -> i128 {
        if self.allowances.contains_key((owner, spender)) {
            self.allowances[(owner, spender)]
        } else {
            0
        }
    }

    /// Whether `a` is on the allowlist; false by default.
    pub open spec fn listed(self, a: Address) -> bool {
        self.allowlisted.contains_key(a) && self.allowlisted[a]
    }

    /// The compliance gate: passes when the allowlist is off, or when both
    /// parties are allowlisted.
    pub open spec fn gate(self, from: Address, to: Address) -> bool {
        !self.allowlist_enabled || (self.listed(from) && self.listed(to))
    }

    pub open spec fn with_balance(self, a: Address, v: i128) -> TokenState {
        TokenState { balances: self.balances.insert(a, v), ..self }
    }

    /// The address whose authorization a burn needs: the burner once set,
    /// the admin before that.
    pub open spec fn burn_authority(self) -> Address {
        match self.burner {
            Some(b) => b,
            None => self.admin.unwrap(),
        }
    }

    /// The outcome of transferring `amount` from `from` to `to`.
    pub open spec fn transfer(self, from: Address, to: Address, amount: i128) -> Result<
        TokenState,
        TokenError,
    > {
        if amount <= 0 {
            Err(TokenError::NegativeAmount)
        } else if !self.gate(from, to) {
            Err(TokenError::Unauthorized)
        } else if self.balance(from) < amount {
            Err(TokenError::InsufficientBalance)
        } else {
            let debited = self.with_balance(from, (self.balance(from) - amount) as i128);
            if debited.balance(to) + amount > i128::MAX {
                Err(TokenError::Overflow)
            } else {
                Ok(
                    TokenState {
                        events: self.events.push(TokenEvent::Transfer { from, to, amount }),
                        ..debited.with_balance(to, (debited.balance(to) + amount) as i128)
                    },
                )
            }
        }
    }

    /// The outcome of `spender` moving `amount` from `from` to `to`.
    pub open spec fn transfer_from(
        self,
        spender: Address,
        from: Address,
        to: Address,
        amount: i128,
    ) -> Result<TokenState, TokenError> {
        if amount <= 0 {
            Err(TokenError::NegativeAmount)
        } else if !self.gate(from, to) {
            Err(TokenError::Unauthorized)
        } else if self.allowance(from, spender) < amount {
            Err(TokenError::AllowanceUnderflow)
        } else if self.balance(from) < amount {
            Err(TokenError::InsufficientBalance)
        } else {
            let spent = TokenState {
                allowances: self.allowances.insert(
                    (from, spender),
                    (self.allowance(from, spender) - amount) as i128,
                ),
                ..self
            };
            let debited = spent.with_balance(from, (self.balance(from) - amount) as i128);
            if debited.balance(to) + amount > i128::MAX {
                Err(TokenError::Overflow)
            } else {
                Ok(
                    TokenState {
                        events: self.events.push(TokenEvent::Transfer { from, to, amount }),
                        ..debited.with_balance(to, (debited.balance(to) + amount) as i128)
                    },
                )
            }
        }
    }

    /// The outcome of `from` approving `spender` for `amount`.
    pub open spec fn approve(self, from: Address, spender: Address, amount: i128) -> Result<
        TokenState,
        TokenError,
    > {
        if amount <= 0 {
            Err(TokenError::NegativeAmount)
        } else {
            Ok(
                TokenState {
                    allowances: self.allowances.insert((from, spender), amount),
                    events: self.events.push(TokenEvent::Approve { from, spender, amount }),
                    ..self
                },
            )
        }
    }

    /// The outcome of minting `amount` to `to`.
    pub open spec fn mint(self, to: Address, amount: i128) -> Result<TokenState, TokenError> {
        if amount <= 0 {
            Err(TokenError::NegativeAmount)
        } else if !self.gate(to, to) {
            Err(TokenError::Unauthorized)
        } else if self.balance(to) + amount > i128::MAX {
            Err(TokenError::Overflow)
        } else if self.total_supply + amount > i128::MAX {
            Err(TokenError::Overflow)
        } else {
            Ok(
                TokenState {
                    total_supply: (self.total_supply + amount) as i128,
                    events: self.events.push(
                        TokenEvent::Mint { admin: self.admin.unwrap(), to, amount },
                    ),
                    ..self.with_balance(to, (self.balance(to) + amount) as i128)
                },
            )
        }
    }

    /// The outcome of burning `amount` held by `from`.
    pub open spec fn burn(self, from: Address, amount: i128) -> Result<TokenState, TokenError> {
        if amount <= 0 {
            Err(TokenError::NegativeAmount)
        } else if !self.gate(from, from) {
            Err(TokenError::Unauthorized)
        } else if self.balance(from) < amount {
            Err(TokenError::InsufficientBalance)
        } else if self.total_supply - amount < i128::MIN {
            Err(TokenError::Overflow)
        } else {
            Ok(
                TokenState {
                    total_supply: (self.total_supply - amount) as i128,
                    events: self.events.push(
                        TokenEvent::Burn { admin: self.admin.unwrap(), from, amount },
                    ),
                    ..self.with_balance(from, (self.balance(from) - amount) as i128)
                },
            )
        }
    }

    /// The state right after initialization with `admin`.
    pub open spec fn initialized_with(admin: Address) -> TokenState {
        TokenState {
            admin: Some(admin),
            decimals: DEFAULT_DECIMALS,
            name: default_name(),
            symbol: default_symbol(),
            total_supply: 0,
            balances: Map::empty(),
            allowances: Map::empty(),
            burner: None,
            allowlist_enabled: false,
            allowlisted: Map::empty(),
            events: Seq::empty(),
        }
    }
}

/// The default human-readable token name.
pub open spec fn default_name() -> Seq<char> {
    "Cambium Carbon Credit"@
}

/// The default token ticker symbol.
pub open spec fn default_symbol() -> Seq<char> {
    "CAMB"@
}

/// The single storage key under which an allowance of `owner` to `spender`
/// is kept.
pub open spec fn pair_key(owner: Address, spender: Address) -> u128 {
    (owner as int * 0x1_0000_0000_0000_0000 + spender as int) as u128
}

proof fn lemma_pair_key_bounds(owner: Address, spender: Address)
    ensures
        0 <= owner as int * 0x1_0000_0000_0000_0000 + spender as int <= u128::MAX,
{
    assert(0 <= owner as int * 0x1_0000_0000_0000_0000 <= 0xffff_ffff_ffff_ffff as int
        * 0x1_0000_0000_0000_0000) by (nonlinear_arith)
        requires
            0 <= owner <= 0xffff_ffff_ffff_ffff,
    ;
}

proof fn lemma_pair_key_injective(a1: Address, b1: Address, a2: Address, b2: Address)
    ensures
        pair_key(a1, b1) == pair_key(a2, b2) ==> a1 == a2 && b1 == b2,
{
    lemma_pair_key_bounds(a1, b1);
    lemma_pair_key_bounds(a2, b2);
    if pair_key(a1, b1) == pair_key(a2, b2) {
        let k: int = 0x1_0000_0000_0000_0000;
        assert(a1 as int * k + b1 as int == a2 as int * k + b2 as int);
        assert(a1 == a2 && b1 == b2) by (nonlinear_arith)
            requires
                a1 as int * k + b1 as int == a2 as int * k + b2 as int,
                0 <= b1 < k,
                0 <= b2 < k,
                0 <= a1,
                0 <= a2,
                k == 0x1_0000_0000_0000_0000,
        ;
    }
}

fn pair_key_exec(owner: Address, spender: Address) -> (r: u128)
    ensures
        r == pair_key(owner, spender),
{
    proof {
        lemma_pair_key_bounds(owner, spender);
    }
    (owner as u128) * 0x1_0000_0000_0000_0000u128 + (spender as u128)
}

/// A credit token contract.
#[derive(Clone)]
pub struct CreditTokenContract {
    admin: Option<Address>,
    decimals: u32,
    name: String,
    symbol: String,
    total_supply: i128,
    balances: HashMap<u64, i128>,
    allowances: HashMap<u128, i128>,
    burner: Option<Address>,
    allowlist_enabled: bool,
    allowlisted: HashMap<u64, bool>,
    events: Vec<TokenEvent>,
}

impl View for CreditTokenContract {
    type V = TokenState;

    closed spec fn view(&self) -> TokenState {
        TokenState {
            admin: self.admin,
            decimals: self.decimals,
            name: self.name@,
            symbol: self.symbol@,
            total_supply: self.total_supply,
            balances: self.balances@,
            allowances: Map::new(
                |k: (Address, Address)| self.allowances@.contains_key(pair_key(k.0, k.1)),
                |k: (Address, Address)| self.allowances@[pair_key(k.0, k.1)],
            ),
            burner: self.burner,
            allowlist_enabled: self.allowlist_enabled,
            allowlisted: self.allowlisted@,
            events: self.events@,
        }
    }
}

impl CreditTokenContract {
    /// A token contract that has not been initialized yet.
    pub fn new() -> (r: Self)
        ensures
            !r@.initialized(),
            r@.decimals == 0,
            r@.name == Seq::<char>::empty(),
            r@.symbol == Seq::<char>::empty(),
            r@.balances == Map::<Address, i128>::empty(),
            r@.allowances == Map::<(Address, Address), i128>::empty(),
            r@.allowlisted == Map::<Address, bool>::empty(),
            r@.burner is None,
            !r@.allowlist_enabled,
            r@.total_supply == 0,
            r@.events == Seq::<TokenEvent>::empty(),
    {
        let r = CreditTokenContract {
            admin: None,
            decimals: 0,
            name: String::new(),
            symbol: String::new(),
            total_supply: 0,
            balances: HashMap::new(),
            allowances: HashMap::new(),
            burner: None,
            allowlist_enabled: false,
            allowlisted: HashMap::new(),
            events: Vec::new(),
        };
        assert(r@.allowances =~= Map::<(Address, Address), i128>::empty());
        r
    }

    /// Initialize the token with an admin (the registry). SEP-41 metadata is
    /// seeded with its defaults and the supply starts at zero.
    pub fn initialize(&mut self, admin: Address)
        requires
            !old(self)@.initialized(),
        ensures
            final(self)@ == (TokenState {
                admin: Some(admin),
                decimals: DEFAULT_DECIMALS,
                name: default_name(),
                symbol: default_symbol(),
                total_supply: 0,
                ..old(self)@
            }),
    {
        self.admin = Some(admin);
        self.decimals = DEFAULT_DECIMALS;
        self.name = String::from_str("Cambium Carbon Credit");
        self.symbol = String::from_str("CAMB");
        self.total_supply = 0;
        proof {
            reveal_strlit("Cambium Carbon Credit");
            reveal_strlit("CAMB");
        }
    }

    /// Whether the token has been initialized.
    pub fn is_initialized(&self) -> (r: bool)
        ensures
            r == self@.initialized(),
    {
        self.admin.is_some()
    }

    /// The admin address.
    pub fn admin(&self) -> (r: Address)
        requires
            self@.initialized(),
        ensures
            Some(r) == self@.admin,
    {
        self.admin.unwrap()
    }

    /// Override the SEP-41 metadata. Needs the admin's authorization; an
    /// empty name or symbol is refused with `Unauthorized`.
    pub fn set_metadata(&mut self, auth: &Auth, decimals: u32, name: String, symbol: String) -> (r:
        Result<(), TokenError>)
        requires
            old(self)@.initialized(),
            auth.allows(old(self)@.admin.unwrap()),
        ensures
            r is Err <==> (name@.len() == 0 || symbol@.len() == 0),
            r is Err ==> r == Err::<(), TokenError>(TokenError::Unauthorized) && final(self)@
                == old(self)@,
            r is Ok ==> final(self)@ == (TokenState {
                decimals,
                name: name@,
                symbol: symbol@,
                ..old(self)@
            }),
    {
        if name.as_str().is_empty() || symbol.as_str().is_empty() {
            return Err(TokenError::Unauthorized);
        }
        self.decimals = decimals;
        self.name = name;
        self.symbol = symbol;
        Ok(())
    }

    /// The number of decimals used for display.
    pub fn decimals(&self) -> (r: u32)
        requires
            self@.initialized(),
        ensures
            r == self@.decimals,
    {
        self.decimals
    }

    /// The human-readable token name.
    pub fn name(&self) -> (r: String)
        requires
            self@.initialized(),
        ensures
            r@ == self@.name,
    {
        self.name.clone()
    }

    /// The token ticker symbol.
    pub fn symbol(&self) -> (r: String)
        requires
            self@.initialized(),
        ensures
            r@ == self@.symbol,
    {
        self.symbol.clone()
    }

    /// Tokens in circulation: minted minus burned.
    pub fn total_supply(&self) -> (r: i128)
        requires
            self@.initialized(),
        ensures
            r == self@.total_supply,
    {
        self.total_supply
    }

    /// The balance of `id`; zero when nothing was ever held.
    pub fn balance(&self, id: Address) -> (r: i128)
        ensures
            r == self@.balance(id),
    {
        match self.balances.get(&id) {
            Some(v) => *v,
            None => 0,
        }
    }

    /// The allowance `spender` has over `owner`'s tokens; zero by default.
    pub fn allowance(&self, owner: Address, spender: Address) -> (r: i128)
        ensures
            r == self@.allowance(owner, spender),
    {
        let k = pair_key_exec(owner, spender);
        match self.allowances.get(&k) {
            Some(v) => *v,
            None => 0,
        }
    }

    /// Whether `address` is on the allowlist.
    pub fn is_allowlisted(&self, address: Address) -> (r: bool)
        ensures
            r == self@.listed(address),
    {
        match self.allowlisted.get(&address) {
            Some(v) => *v,
            None => false,
        }
    }

    /// The events the token has published, oldest first.
    pub fn events(&self) -> (r: Vec<TokenEvent>)
        ensures
            r@ == self@.events,
    {
        copy_vec(&self.events)
    }

    /// The burner contract, once one has been set.
    pub fn get_burner(&self) -> (r: Option<Address>)
        ensures
            r == self@.burner,
    {
        self.burner
    }

    /// The compliance gate between two parties.
    fn enforce_allowlist(&self, from: Address, to: Address) -> (r: Result<(), TokenError>)
        ensures
            r is Ok <==> self@.gate(from, to),
            r is Err ==> r == Err::<(), TokenError>(TokenError::Unauthorized),
    {
        if !self.allowlist_enabled {
            return Ok(());
        }
        if self.is_allowlisted(from) && self.is_allowlisted(to) {
            Ok(())
        } else {
            Err(TokenError::Unauthorized)
        }
    }

    fn set_balance(&mut self, a: Address, v: i128)
        ensures
            final(self)@ == old(self)@.with_balance(a, v),
    {
        self.balances.insert(a, v);
    }

    fn set_allowance(&mut self, owner: Address, spender: Address, v: i128)
        ensures
            final(self)@ == (TokenState {
                allowances: old(self)@.allowances.insert((owner, spender), v),
                ..old(self)@
            }),
    {
        let k = pair_key_exec(owner, spender);
        self.allowances.insert(k, v);
        proof {
            assert forall|p: (Address, Address)|
                #![trigger final(self)@.allowances.contains_key(p)]
                final(self)@.allowances.contains_key(p) == old(self)@.allowances.insert(
                    (owner, spender),
                    v,
                ).contains_key(p) by {
                lemma_pair_key_injective(p.0, p.1, owner, spender);
            }
            assert forall|p: (Address, Address)|
                #![trigger final(self)@.allowances[p]]
                final(self)@.allowances.contains_key(p) ==> final(self)@.allowances[p]
                    == old(self)@.allowances.insert((owner, spender), v)[p] by {
                lemma_pair_key_injective(p.0, p.1, owner, spender);
            }
            assert(final(self)@.allowances =~= old(self)@.allowances.insert((owner, spender), v));
        }
    }

    /// Transfer `amount` from `from` to `to`; needs `from`'s authorization.
    ///
    /// Refused with `NegativeAmount` for a non-positive amount, with
    /// `Unauthorized` when the allowlist gate fails, with
    /// `InsufficientBalance` when `from` holds less than `amount`, and with
    /// `Overflow` when the recipient's balance would overflow. A refused
    /// transfer changes nothing.
    pub fn transfer(&mut self, auth: &Auth, from: Address, to: Address, amount: i128) -> (r: Result<
        (),
        TokenError,
    >)
        requires
            amount > 0 ==> auth.allows(from),
        ensures
            match old(self)@.transfer(from, to, amount) {
                Ok(s) => r is Ok && final(self)@ == s,
                Err(e) => r == Err::<(), TokenError>(e) && final(self)@ == old(self)@,
            },
    {
        if amount <= 0 {
            return Err(TokenError::NegativeAmount);
        }
        self.enforce_allowlist(from, to)?;
        let from_balance = self.balance(from);
        if from_balance < amount {
            return Err(TokenError::InsufficientBalance);
        }
        let to_balance = if from == to {
            from_balance - amount
        } else {
            self.balance(to)
        };
        let new_to_balance = match to_balance.checked_add(amount) {
            Some(v) => v,
            None => {
                return Err(TokenError::Overflow);
            },
        };
        self.set_balance(from, from_balance - amount);
        self.set_balance(to, new_to_balance);
        self.events.push(TokenEvent::Transfer { from, to, amount });
        Ok(())
    }

    /// Move `amount` from `from` to `to` using the allowance granted to
    /// `spender`; needs `spender`'s authorization.
    ///
    /// Refused with `NegativeAmount`, `Unauthorized` (allowlist gate),
    /// `AllowanceUnderflow` (allowance below `amount`),
    /// `InsufficientBalance`, or `Overflow`, in that order of precedence.
    pub fn transfer_from(
        &mut self,
        auth: &Auth,
        spender: Address,
        from: Address,
        to: Address,
        amount: i128,
    ) -> (r: Result<(), TokenError>)
        requires
            amount > 0 ==> auth.allows(spender),
        ensures
            match old(self)@.transfer_from(spender, from, to, amount) {
                Ok(s) => r is Ok && final(self)@ == s,
                Err(e) => r == Err::<(), TokenError>(e) && final(self)@ == old(self)@,
            },
    {
        if amount <= 0 {
            return Err(TokenError::NegativeAmount);
        }
        self.enforce_allowlist(from, to)?;
        let allowance = self.allowance(from, spender);
        if allowance < amount {
            return Err(TokenError::AllowanceUnderflow);
        }
        let from_balance = self.balance(from);
        if from_balance < amount {
            return Err(TokenError::InsufficientBalance);
        }
        let to_balance = if from == to {
            from_balance - amount
        } else {
            self.balance(to)
        };
        let new_to_balance = match to_balance.checked_add(amount) {
            Some(v) => v,
            None => {
                return Err(TokenError::Overflow);
            },
        };
        self.set_allowance(from, spender, allowance - amount);
        self.set_balance(from, from_balance - amount);
        self.set_balance(to, new_to_balance);
        self.events.push(TokenEvent::Transfer { from, to, amount });
        Ok(())
    }

    /// Approve `spender` to move up to `amount` of `from`'s tokens; needs
    /// `from`'s authorization. A non-positive amount is refused with
    /// `NegativeAmount`.
    pub fn approve(&mut self, auth: &Auth, from: Address, spender: Address, amount: i128) -> (r:
        Result<(), TokenError>)
        requires
            amount > 0 ==> auth.allows(from),
        ensures
            match old(self)@.approve(from, spender, amount) {
                Ok(s) => r is Ok && final(self)@ == s,
                Err(e) => r == Err::<(), TokenError>(e) && final(self)@ == old(self)@,
            },
    {
        if amount <= 0 {
            return Err(TokenError::NegativeAmount);
        }
        self.set_allowance(from, spender, amount);
        self.events.push(TokenEvent::Approve { from, spender, amount });
        Ok(())
    }

    /// Mint `amount` to `to`; needs the admin's authorization.
    ///
    /// Refused with `NegativeAmount`, `Unauthorized` (allowlist gate on the
    /// recipient) or `Overflow` (recipient balance or total supply).
    pub fn mint(&mut self, auth: &Auth, to: Address, amount: i128) -> (r: Result<(), TokenError>)
        requires
            amount > 0 ==> old(self)@.initialized() && auth.allows(old(self)@.admin.unwrap()),
        ensures
            match old(self)@.mint(to, amount) {
                Ok(s) => r is Ok && final(self)@ == s,
                Err(e) => r == Err::<(), TokenError>(e) && final(self)@ == old(self)@,
            },
    {
        if amount <= 0 {
            return Err(TokenError::NegativeAmount);
        }
        self.enforce_allowlist(to, to)?;
        let current_balance = self.balance(to);
        let new_balance = match current_balance.checked_add(amount) {
            Some(v) => v,
            None => {
                return Err(TokenError::Overflow);
            },
        };
        let new_supply = match self.total_supply.checked_add(amount) {
            Some(v) => v,
            None => {
                return Err(TokenError::Overflow);
            },
        };
        self.total_supply = new_supply;
        self.set_balance(to, new_balance);
        let admin = self.admin.unwrap();
        self.events.push(TokenEvent::Mint { admin, to, amount });
        Ok(())
    }

    /// Set the contract allowed to burn tokens; needs the admin's
    /// authorization.
    pub fn set_burner(&mut self, auth: &Auth, burner: Address) -> (r: Result<(), TokenError>)
        requires
            old(self)@.initialized(),
            auth.allows(old(self)@.admin.unwrap()),
        ensures
            r is Ok,
            final(self)@ == (TokenState { burner: Some(burner), ..old(self)@ }),
    {
        self.burner = Some(burner);
        Ok(())
    }

    /// Burn `amount` held by `from`. Needs the burner's authorization once a
    /// burner is set, the admin's before that.
    ///
    /// Refused with `NegativeAmount`, `Unauthorized` (allowlist gate on the
    /// holder), `InsufficientBalance`, or `Overflow` (total supply).
    pub fn burn(&mut self, auth: &Auth, from: Address, amount: i128) -> (r: Result<(), TokenError>)
        requires
            amount > 0 ==> old(self)@.initialized() && auth.allows(old(self)@.burn_authority()),
        ensures
            match old(self)@.burn(from, amount) {
                Ok(s) => r is Ok && final(self)@ == s,
                Err(e) => r == Err::<(), TokenError>(e) && final(self)@ == old(self)@,
            },
    {
        if amount <= 0 {
            return Err(TokenError::NegativeAmount);
        }
        self.enforce_allowlist(from, from)?;
        let from_balance = self.balance(from);
        if from_balance < amount {
            return Err(TokenError::InsufficientBalance);
        }
        let new_supply = match self.total_supply.checked_sub(amount) {
            Some(v) => v,
            None => {
                return Err(TokenError::Overflow);
            },
        };
        self.total_supply = new_supply;
        self.set_balance(from, from_balance - amount);
        let admin = self.admin.unwrap();
        self.events.push(TokenEvent::Burn { admin, from, amount });
        Ok(())
    }

    /// Turn compliance allowlisting on or off; needs the admin's
    /// authorization.
    pub fn enable_allowlist(&mut self, auth: &Auth, enabled: bool) -> (r: Result<(), TokenError>)
        requires
            old(self)@.initialized(),
            auth.allows(old(self)@.admin.unwrap()),
        ensures
            r is Ok,
            final(self)@ == (TokenState { allowlist_enabled: enabled, ..old(self)@ }),
    {
        self.allowlist_enabled = enabled;
        Ok(())
    }

    /// Add `address` to, or remove it from, the allowlist; needs the admin's
    /// authorization.
    pub fn set_allowlisted(&mut self, auth: &Auth, address: Address, allowed: bool) -> (r: Result<
        (),
        TokenError,
    >)
        requires
            old(self)@.initialized(),
            auth.allows(old(self)@.admin.unwrap()),
        ensures
            r is Ok,
            final(self)@ == (TokenState {
                allowlisted: old(self)@.allowlisted.insert(address, allowed),
                ..old(self)@
            }),
    {
        self.allowlisted.insert(address, allowed);
        Ok(())
    }
}


/// The abstract state of the deployed token contracts, by address.
pub type LedgerState = Map<Address, TokenState>;

/// The outcome of the contract at `invoker` asking the token at `token` to
/// move `amount` from `from` to `to`, any failure of the call being caught
/// and reported as `Error::InsufficientBalance`: the token is missing,
/// `from` has not authorized (the invoker always authorizes itself), or the
/// token refuses the transfer.
pub open spec fn ledger_transfer(
    ledger: LedgerState,
    auth: Auth,
    invoker: Address,
    token: Address,
    from: Address,
    to: Address,
    amount: i128,
) -> Result<LedgerState, crate::common::Error> {
    if !ledger.contains_key(token) {
        Err(crate::common::Error::InsufficientBalance)
    } else if amount > 0 && !auth.allows(from) && from != invoker {
        Err(crate::common::Error::InsufficientBalance)
    } else {
        match ledger[token].transfer(from, to, amount) {
            Ok(s) => Ok(ledger.insert(token, s)),
            Err(_) => Err(crate::common::Error::InsufficientBalance),
        }
    }
}

/// The outcome of the contract at `invoker` asking the token at `token` to
/// burn `amount` held by `from`, any failure of the call being caught and
/// reported as `Error::InsufficientBalance`: the token is missing or not
/// initialized, its burn authority has not authorized (the invoker always
/// authorizes itself), or the token refuses the burn.
pub open spec fn ledger_burn(
    ledger: LedgerState,
    auth: Auth,
    invoker: Address,
    token: Address,
    from: Address,
    amount: i128,
) -> Result<LedgerState, crate::common::Error> {
    if !ledger.contains_key(token) {
        Err(crate::common::Error::InsufficientBalance)
    } else if amount > 0 && !ledger[token].initialized() {
        Err(crate::common::Error::InsufficientBalance)
    } else if amount > 0 && !auth.allows(ledger[token].burn_authority())
        && ledger[token].burn_authority() != invoker {
        Err(crate::common::Error::InsufficientBalance)
    } else {
        match ledger[token].burn(from, amount) {
            Ok(s) => Ok(ledger.insert(token, s)),
            Err(_) => Err(crate::common::Error::InsufficientBalance),
        }
    }
}

/// What a successful ledger transfer between two distinct holders does: the
/// token exists, the amount is positive and covered by the sender's balance,
/// the sender's balance drops by it and the recipient's grows by it, and no
/// other token changes.
pub proof fn lemma_ledger_transfer_effect(
    ledger: LedgerState,
    auth: Auth,
    invoker: Address,
    token: Address,
    from: Address,
    to: Address,
    amount: i128,
)
    requires
        ledger_transfer(ledger, auth, invoker, token, from, to, amount) is Ok,
        from != to,
    ensures
        ({
            let l = ledger_transfer(ledger, auth, invoker, token, from, to, amount)->Ok_0;
            &&& l.dom() == ledger.dom()
            &&& ledger.contains_key(token)
            &&& amount > 0
            &&& ledger[token].balance(from) >= amount
            &&& l[token].balance(from) == ledger[token].balance(from) - amount
            &&& l[token].balance(to) == ledger[token].balance(to) + amount
            &&& l[token].total_supply == ledger[token].total_supply
            &&& forall|h: Address|
                h != from && h != to ==> #[trigger] l[token].balance(h) == ledger[token].balance(h)
            &&& forall|w: Address| w != token && ledger.contains_key(w) ==> #[trigger] l[w] == ledger[w]
        }),
{
    let l = ledger_transfer(ledger, auth, invoker, token, from, to, amount)->Ok_0;
    assert(l.dom() =~= ledger.dom());
}

/// The token contracts deployed on the network, by address.
pub struct TokenLedger {
    tokens: HashMap<u64, CreditTokenContract>,
}

impl View for TokenLedger {
    type V = LedgerState;

    closed spec fn view(&self) -> LedgerState {
        self.tokens@.map_values(|t: CreditTokenContract| t@)
    }
}

impl TokenLedger {
    /// A network with no token deployed.
    pub fn new() -> (r: Self)
        ensures
            r@ == Map::<Address, TokenState>::empty(),
    {
        let r = TokenLedger { tokens: HashMap::new() };
        assert(r@ =~= Map::<Address, TokenState>::empty());
        r
    }

    /// Deploy `token` at `address`, replacing what was there.
    pub fn deploy(&mut self, address: Address, token: CreditTokenContract)
        ensures
            final(self)@ == old(self)@.insert(address, token@),
    {
        self.tokens.insert(address, token);
        assert(self@ =~= old(self)@.insert(address, token@));
    }

    /// The token deployed at `address`.
    pub fn get(&self, address: Address) -> (r: Option<&CreditTokenContract>)
        ensures
            match r {
                Some(t) => self@.contains_key(address) && t@ == self@[address],
                None => !self@.contains_key(address),
            },
    {
        self.tokens.get(&address)
    }

    /// Take the token deployed at `address` off the network.
    pub fn take(&mut self, address: Address) -> (r: Option<CreditTokenContract>)
        ensures
            final(self)@ == old(self)@.remove(address),
            match r {
                Some(t) => old(self)@.contains_key(address) && t@ == old(self)@[address],
                None => !old(self)@.contains_key(address),
            },
    {
        let r = self.tokens.remove(&address);
        assert(self@ =~= old(self)@.remove(address));
        r
    }

    /// A copy of the whole network.
    pub fn duplicate(&self) -> (r: Self)
        ensures
            r@ == self@,
    {
        TokenLedger { tokens: self.tokens.clone() }
    }

    /// The balance of `holder` in the token at `token`; zero when no token
    /// is deployed there.
    pub fn balance_of(&self, token: Address, holder: Address) -> (r: i128)
        ensures
            r == (if self@.contains_key(token) { self@[token].balance(holder) } else { 0 }),
    {
        match self.tokens.get(&token) {
            Some(t) => t.balance(holder),
            None => 0,
        }
    }

    /// On behalf of the contract at `invoker`, ask the token at `token` to
    /// move `amount` from `from` to `to`, with the authorization `auth`; any
    /// failure is caught and reported as `Error::InsufficientBalance`,
    /// leaving the network unchanged.
    pub fn transfer(
        &mut self,
        auth: &Auth,
        invoker: Address,
        token: Address,
        from: Address,
        to: Address,
        amount: i128,
    ) -> (r: Result<(), crate::common::Error>)
        ensures
            match ledger_transfer(old(self)@, *auth, invoker, token, from, to, amount) {
                Ok(l) => r is Ok && final(self)@ == l,
                Err(e) => r == Err::<(), crate::common::Error>(e) && final(self)@ == old(self)@,
            },
    {
        match self.tokens.remove(&token) {
            None => Err(crate::common::Error::InsufficientBalance),
            Some(mut t) => {
                if amount > 0 && !auth.authorizes(from) && from != invoker {
                    self.tokens.insert(token, t);
                    assert(self@ =~= old(self)@);
                    return Err(crate::common::Error::InsufficientBalance);
                }
                let callee_auth = auth.invoked_by(invoker);
                let r = t.transfer(&callee_auth, from, to, amount);
                self.tokens.insert(token, t);
                match r {
                    Ok(()) => {
                        assert(self@ =~= old(self)@.insert(token, t@));
                        Ok(())
                    },
                    Err(_) => {
                        assert(self@ =~= old(self)@);
                        Err(crate::common::Error::InsufficientBalance)
                    },
                }
            },
        }
    }

    /// On behalf of the contract at `invoker`, ask the token at `token` to
    /// burn `amount` held by `from`, with the authorization `auth`; any
    /// failure is caught and reported as `Error::InsufficientBalance`,
    /// leaving the network unchanged.
    pub fn burn(
        &mut self,
        auth: &Auth,
        invoker: Address,
        token: Address,
        from: Address,
        amount: i128,
    ) -> (r: Result<(), crate::common::Error>)
        ensures
            match ledger_burn(old(self)@, *auth, invoker, token, from, amount) {
                Ok(l) => r is Ok && final(self)@ == l,
                Err(e) => r == Err::<(), crate::common::Error>(e) && final(self)@ == old(self)@,
            },
    {
        match self.tokens.remove(&token) {
            None => Err(crate::common::Error::InsufficientBalance),
            Some(mut t) => {
                if amount > 0 {
                    let allowed = if !t.is_initialized() {
                        false
                    } else {
                        let authority = match t.get_burner() {
                            Some(b) => b,
                            None => t.admin(),
                        };
                        auth.authorizes(authority) || authority == invoker
                    };
                    if !allowed {
                        self.tokens.insert(token, t);
                        assert(self@ =~= old(self)@);
                        return Err(crate::common::Error::InsufficientBalance);
                    }
                }
                let callee_auth = auth.invoked_by(invoker);
                let r = t.burn(&callee_auth, from, amount);
                self.tokens.insert(token, t);
                match r {
                    Ok(()) => {
                        assert(self@ =~= old(self)@.insert(token, t@));
                        Ok(())
                    },
                    Err(_) => {
                        assert(self@ =~= old(self)@);
                        Err(crate::common::Error::InsufficientBalance)
                    },
                }
            },
        }
    }

    /// On behalf of the contract at `invoker`, have the token at `token`
    /// mint `amount` to `to`, with the authorization `auth`.
    pub fn mint(
        &mut self,
        auth: &Auth,
        invoker: Address,
        token: Address,
        to: Address,
        amount: i128,
    ) -> (r: Result<(), TokenError>)
        requires
            old(self)@.contains_key(token),
            amount > 0 ==> old(self)@[token].initialized() && (auth.allows(
                old(self)@[token].admin.unwrap(),
            ) || old(self)@[token].admin.unwrap() == invoker),
        ensures
            match old(self)@[token].mint(to, amount) {
                Ok(s) => r is Ok && final(self)@ == old(self)@.insert(token, s),
                Err(e) => r == Err::<(), TokenError>(e) && final(self)@ == old(self)@,
            },
    {
        let mut t = match self.tokens.remove(&token) {
            Some(t) => t,
            None => {
                return Err(TokenError::Unauthorized);
            },
        };
        let callee_auth = auth.invoked_by(invoker);
        let r = t.mint(&callee_auth, to, amount);
        self.tokens.insert(token, t);
        match r {
            Ok(()) => {
                assert(self@ =~= old(self)@.insert(token, t@));
            },
            Err(_) => {
                assert(self@ =~= old(self)@);
            },
        }
        r
    }
}

/// A transfer neither creates nor destroys credits: the total supply and the
/// allowances stay as they were, the sender's balance drops by the amount and
/// the recipient's grows by it (a transfer to oneself changes no balance),
/// and every other balance is untouched.
pub proof fn law_transfer_conserves_credits(s: TokenState, from: Address, to: Address, amount: i128)
    requires
        s.transfer(from, to, amount) is Ok,
    ensures
        ({
            let t = s.transfer(from, to, amount)->Ok_0;
            &&& t.total_supply == s.total_supply
            &&& t.allowances == s.allowances
            &&& from != to ==> t.balance(from) == s.balance(from) - amount
                && t.balance(to) == s.balance(to) + amount
            &&& from == to ==> t.balance(from) == s.balance(from)
            &&& forall|h: Address| h != from && h != to ==> #[trigger] t.balance(h) == s.balance(h)
        }),
{
}

/// A delegated transfer spends exactly the amount from the spender's
/// allowance, leaves every other allowance and the total supply as they
/// were, and moves the balances as a transfer does.
pub proof fn law_transfer_from_spends_allowance(
    s: TokenState,
    spender: Address,
    from: Address,
    to: Address,
    amount: i128,
)
    requires
        s.transfer_from(spender, from, to, amount) is Ok,
    ensures
        ({
            let t = s.transfer_from(spender, from, to, amount)->Ok_0;
            &&& t.allowance(from, spender) == s.allowance(from, spender) - amount
            &&& forall|o: Address, p: Address|
                (o, p) != (from, spender) ==> #[trigger] t.allowance(o, p) == s.allowance(o, p)
            &&& t.total_supply == s.total_supply
            &&& from != to ==> t.balance(from) == s.balance(from) - amount
                && t.balance(to) == s.balance(to) + amount
            &&& from == to ==> t.balance(from) == s.balance(from)
            &&& forall|h: Address| h != from && h != to ==> #[trigger] t.balance(h) == s.balance(h)
        }),
{
}

/// A transfer is refused only when one of its conditions fails: it goes
/// through exactly when the amount is positive, the compliance gate lets the
/// two parties trade, the sender holds at least the amount, and the
/// recipient's balance can take it (always so when one sends to oneself).
pub proof fn law_transfer_succeeds_when_covered(s: TokenState, from: Address, to: Address, amount: i128)
    ensures
        s.transfer(from, to, amount) is Ok <==> {
            &&& amount > 0
            &&& s.gate(from, to)
            &&& s.balance(from) >= amount
            &&& from == to || s.balance(to) + amount <= i128::MAX
        },
{
}

/// A delegated transfer is refused only when one of its conditions fails:
/// it goes through exactly when the amount is positive, the compliance gate
/// lets the two parties trade, the allowance granted to the spender covers
/// the amount (spending all of it is allowed), the owner holds at least the
/// amount, and the recipient's balance can take it.
pub proof fn law_transfer_from_succeeds_within_allowance(
    s: TokenState,
    spender: Address,
    from: Address,
    to: Address,
    amount: i128,
)
    ensures
        s.transfer_from(spender, from, to, amount) is Ok <==> {
            &&& amount > 0
            &&& s.gate(from, to)
            &&& s.allowance(from, spender) >= amount
            &&& s.balance(from) >= amount
            &&& from == to || s.balance(to) + amount <= i128::MAX
        },
{
}

/// An approval sets the allowance to the amount given, whatever it was
/// before; it is refused with `NegativeAmount` exactly when the amount is
/// not positive, and it changes no other allowance and no balance.
pub proof fn law_approve_sets_allowance(s: TokenState, from: Address, spender: Address, amount: i128)
    ensures
        s.approve(from, spender, amount) is Ok <==> amount > 0,
        amount <= 0 ==> s.approve(from, spender, amount) == Err::<TokenState, TokenError>(
            TokenError::NegativeAmount,
        ),
        s.approve(from, spender, amount) is Ok ==> ({
            let t = s.approve(from, spender, amount)->Ok_0;
            &&& t.allowance(from, spender) == amount
            &&& forall|o: Address, p: Address|
                (o, p) != (from, spender) ==> #[trigger] t.allowance(o, p) == s.allowance(o, p)
            &&& t.balances == s.balances
            &&& t.total_supply == s.total_supply
        }),
{
}

/// The total supply tracks issuance: a mint raises it, and the holder's
/// balance, by the amount; a burn lowers both by the amount; no other
/// balance moves.
pub proof fn law_supply_tracks_mint_and_burn(s: TokenState, holder: Address, amount: i128)
    ensures
        s.mint(holder, amount) is Ok ==> ({
            let t = s.mint(holder, amount)->Ok_0;
            &&& t.total_supply == s.total_supply + amount
            &&& t.balance(holder) == s.balance(holder) + amount
            &&& forall|h: Address| h != holder ==> #[trigger] t.balance(h) == s.balance(h)
        }),
        s.burn(holder, amount) is Ok ==> ({
            let t = s.burn(holder, amount)->Ok_0;
            &&& t.total_supply == s.total_supply - amount
            &&& t.balance(holder) == s.balance(holder) - amount
            &&& forall|h: Address| h != holder ==> #[trigger] t.balance(h) == s.balance(h)
        }),
{
}

/// The balance recorded for `a`, zero when none is.
pub open spec fn held(balances: Map<Address, i128>, a: Address) -> int {
    if balances.contains_key(a) {
        balances[a] as int
    } else {
        0
    }
}

/// The sum of the balances recorded in `balances`.
pub open spec fn sum_of_held(balances: Map<Address, i128>) -> int {
    sum_over(balances.dom(), |a: Address| held(balances, a))
}

/// Recording the balance `v` for `a` changes the sum of all balances by the
/// difference with what `a` held.
proof fn lemma_sum_of_held_insert(balances: Map<Address, i128>, a: Address, v: i128)
    requires
        balances.dom().finite(),
    ensures
        balances.insert(a, v).dom().finite(),
        sum_of_held(balances.insert(a, v)) == sum_of_held(balances) - held(balances, a) + v,
{
    let b2 = balances.insert(a, v);
    let d = balances.dom();
    let f1 = |x: Address| held(balances, x);
    let f2 = |x: Address| held(b2, x);
    assert(b2.dom() =~= d.insert(a));
    lemma_sum_over_remove(d.insert(a), f2, a);
    assert(d.insert(a).remove(a) =~= d.remove(a));
    lemma_sum_over_agree(d.remove(a), f2, f1);
    if d.contains(a) {
        lemma_sum_over_remove(d, f1, a);
    } else {
        assert(d.remove(a) =~= d);
    }
}

impl TokenState {
    /// The sum of all balances.
    pub open spec fn sum_of_balances(self) -> int {
        sum_of_held(self.balances)
    }

    /// The total supply is the sum of the balances, of which finitely many
    /// are recorded.
    pub open spec fn supply_matches(self) -> bool {
        &&& self.balances.dom().finite()
        &&& self.total_supply == self.sum_of_balances()
    }
}

/// The total supply is always the sum of all balances: a token starts with
/// none of either, and every transfer, delegated transfer, approval, mint
/// and burn keeps the two equal.
pub proof fn law_supply_is_sum_of_balances(
    s: TokenState,
    spender: Address,
    from: Address,
    to: Address,
    amount: i128,
)
    requires
        s.supply_matches(),
    ensures
        TokenState::initialized_with(to).supply_matches(),
        s.transfer(from, to, amount) is Ok ==> s.transfer(from, to, amount)->Ok_0.supply_matches(),
        s.transfer_from(spender, from, to, amount) is Ok ==> s.transfer_from(
            spender,
            from,
            to,
            amount,
        )->Ok_0.supply_matches(),
        s.approve(from, spender, amount) is Ok ==> s.approve(from, spender, amount)->Ok_0.supply_matches(),
        s.mint(to, amount) is Ok ==> s.mint(to, amount)->Ok_0.supply_matches(),
        s.burn(from, amount) is Ok ==> s.burn(from, amount)->Ok_0.supply_matches(),
{
    assert(TokenState::initialized_with(to).balances.dom() =~= Set::<Address>::empty());
    if s.transfer(from, to, amount) is Ok {
        let debited = s.with_balance(from, (s.balance(from) - amount) as i128);
        lemma_sum_of_held_insert(s.balances, from, (s.balance(from) - amount) as i128);
        lemma_sum_of_held_insert(debited.balances, to, (debited.balance(to) + amount) as i128);
    }
    if s.transfer_from(spender, from, to, amount) is Ok {
        let debited = s.with_balance(from, (s.balance(from) - amount) as i128);
        lemma_sum_of_held_insert(s.balances, from, (s.balance(from) - amount) as i128);
        lemma_sum_of_held_insert(debited.balances, to, (debited.balance(to) + amount) as i128);
    }
    if s.mint(to, amount) is Ok {
        lemma_sum_of_held_insert(s.balances, to, (s.balance(to) + amount) as i128);
    }
    if s.burn(from, amount) is Ok {
        lemma_sum_of_held_insert(s.balances, from, (s.balance(from) - amount) as i128);
    }
}

/// No operation of the token ever drives a balance or an allowance below
/// zero: a state without negative amounts, which is how every token starts,
/// stays so through every transfer, delegated transfer, approval, mint and
/// burn.
pub proof fn law_amounts_stay_nonnegative(
    s: TokenState,
    spender: Address,
    from: Address,
    to: Address,
    amount: i128,
)
    requires
        s.wf(),
    ensures
        TokenState::initialized_with(to).wf(),
        s.transfer(from, to, amount) is Ok ==> s.transfer(from, to, amount)->Ok_0.wf(),
        s.transfer_from(spender, from, to, amount) is Ok ==> s.transfer_from(
            spender,
            from,
            to,
            amount,
        )->Ok_0.wf(),
        s.approve(from, spender, amount) is Ok ==> s.approve(from, spender, amount)->Ok_0.wf(),
        s.mint(to, amount) is Ok ==> s.mint(to, amount)->Ok_0.wf(),
        s.burn(from, amount) is Ok ==> s.burn(from, amount)->Ok_0.wf(),
{
}

/// Burning what was just minted always succeeds and restores the total
/// supply and every balance.
pub proof fn law_mint_then_burn_restores(s: TokenState, holder: Address, amount: i128)
    requires
        s.wf(),
        s.mint(holder, amount) is Ok,
    ensures
        s.mint(holder, amount)->Ok_0.burn(holder, amount) is Ok,
        ({
            let t = s.mint(holder, amount)->Ok_0.burn(holder, amount)->Ok_0;
            &&& t.total_supply == s.total_supply
            &&& forall|h: Address| #[trigger] t.balance(h) == s.balance(h)
        }),
{
    let m = s.mint(holder, amount)->Ok_0;
    assert(m.balance(holder) == s.balance(holder) + amount);
    assert(m.gate(holder, holder) == s.gate(holder, holder));
    let t = m.burn(holder, amount)->Ok_0;
    assert forall|h: Address| #[trigger] t.balance(h) == s.balance(h) by {
        if h != holder {
            assert(m.balance(h) == s.balance(h));
        }
    }
}

/// A token transfer between holders through the ledger changes no token's
/// total supply and deploys or removes no token.
pub proof fn law_ledger_transfer_keeps_supplies(
    ledger: LedgerState,
    auth: Auth,
    invoker: Address,
    token: Address,
    from: Address,
    to: Address,
    amount: i128,
)
    requires
        ledger_transfer(ledger, auth, invoker, token, from, to, amount) is Ok,
    ensures
        ({
            let l = ledger_transfer(ledger, auth, invoker, token, from, to, amount)->Ok_0;
            &&& l.dom() == ledger.dom()
            &&& forall|w: Address| #[trigger] ledger.contains_key(w) ==> l[w].total_supply
                == ledger[w].total_supply
        }),
{
    let l = ledger_transfer(ledger, auth, invoker, token, from, to, amount)->Ok_0;
    assert(l.dom() =~= ledger.dom());
}

} // verus!
