use cambium::{Address, Auth, CreditTokenContract, TokenError, TokenEvent};

const ADMIN: Address = 1;
const USER: Address = 2;

fn setup() -> (CreditTokenContract, Auth) {
    let mut c = CreditTokenContract::new();
    c.initialize(ADMIN);
    (c, Auth::everyone())
}

// ---- initialize tests ----

#[test]
fn initialize_sets_admin() {
    let (c, _auth) = setup();
    assert_eq!(c.admin(), ADMIN);
}

#[test]
fn balance_defaults_to_zero() {
    let (c, _auth) = setup();
    assert_eq!(c.balance(USER), 0);
}

// ---- SEP-41 metadata tests ----

#[test]
fn initialize_seeds_default_metadata() {
    let (c, _auth) = setup();
    assert_eq!(c.decimals(), 7);
    assert_eq!(c.name(), String::from("Cambium Carbon Credit"));
    assert_eq!(c.symbol(), String::from("CAMB"));
    assert_eq!(c.total_supply(), 0);
}

#[test]
fn set_metadata_overrides_defaults() {
    let (mut c, auth) = setup();
    c.set_metadata(&auth, 6, String::from("Cambium Verified"), String::from("CVC")).unwrap();
    assert_eq!(c.decimals(), 6);
    assert_eq!(c.name(), String::from("Cambium Verified"));
    assert_eq!(c.symbol(), String::from("CVC"));
}

#[test]
fn set_metadata_rejects_empty_name_or_symbol() {
    let (mut c, auth) = setup();
    assert_eq!(
        c.set_metadata(&auth, 7, String::from(""), String::from("CAMB")),
        Err(TokenError::Unauthorized)
    );
    assert_eq!(
        c.set_metadata(&auth, 7, String::from("name"), String::from("")),
        Err(TokenError::Unauthorized)
    );
}

// ---- total supply tests ----

#[test]
fn total_supply_tracks_mint_and_burn() {
    let (mut c, auth) = setup();
    c.mint(&auth, USER, 1000).unwrap();
    c.mint(&auth, USER, 500).unwrap();
    assert_eq!(c.total_supply(), 1500);

    c.transfer(&auth, USER, 3, 300).unwrap();
    assert_eq!(c.total_supply(), 1500, "transfers must not change supply");

    c.burn(&auth, USER, 400).unwrap();
    assert_eq!(c.total_supply(), 1100);
    assert_eq!(c.balance(USER), 800);
}

// ---- mint tests ----

#[test]
fn mint_by_admin_succeeds() {
    let (mut c, auth) = setup();
    c.mint(&auth, USER, 1000).unwrap();
    assert_eq!(c.balance(USER), 1000);
}

#[test]
fn mint_zero_fails() {
    let (mut c, auth) = setup();
    assert_eq!(c.mint(&auth, USER, 0), Err(TokenError::NegativeAmount));
}

#[test]
fn mint_negative_fails() {
    let (mut c, auth) = setup();
    assert_eq!(c.mint(&auth, USER, -100), Err(TokenError::NegativeAmount));
}

#[test]
fn mint_accumulates_balance() {
    let (mut c, auth) = setup();
    c.mint(&auth, USER, 500).unwrap();
    c.mint(&auth, USER, 300).unwrap();
    assert_eq!(c.balance(USER), 800);
}

// ---- transfer tests ----

#[test]
fn transfer_succeeds() {
    let (mut c, auth) = setup();
    let recipient = 10;
    c.mint(&auth, USER, 1000).unwrap();
    c.transfer(&auth, USER, recipient, 400).unwrap();
    assert_eq!(c.balance(USER), 600);
    assert_eq!(c.balance(recipient), 400);
}

#[test]
fn transfer_insufficient_balance() {
    let (mut c, auth) = setup();
    let recipient = 10;
    c.mint(&auth, USER, 100).unwrap();
    let result = c.transfer(&auth, USER, recipient, 200);
    assert_eq!(result, Err(TokenError::InsufficientBalance));
    assert_eq!(c.balance(USER), 100);
    assert_eq!(c.balance(recipient), 0);
}

#[test]
fn transfer_zero_fails() {
    let (mut c, auth) = setup();
    c.mint(&auth, USER, 1000).unwrap();
    assert_eq!(c.transfer(&auth, USER, 10, 0), Err(TokenError::NegativeAmount));
}

#[test]
fn transfer_negative_fails() {
    let (mut c, auth) = setup();
    c.mint(&auth, USER, 1000).unwrap();
    assert_eq!(c.transfer(&auth, USER, 10, -1), Err(TokenError::NegativeAmount));
}

// ---- approve & transfer_from tests ----

#[test]
fn approve_and_transfer_from_succeeds() {
    let (mut c, auth) = setup();
    let spender = 11;
    let recipient = 12;
    c.mint(&auth, USER, 1000).unwrap();
    c.approve(&auth, USER, spender, 500).unwrap();
    assert_eq!(c.allowance(USER, spender), 500);

    c.transfer_from(&auth, spender, USER, recipient, 300).unwrap();
    assert_eq!(c.balance(USER), 700);
    assert_eq!(c.balance(recipient), 300);
    assert_eq!(c.allowance(USER, spender), 200);
}

#[test]
fn transfer_from_exceeds_allowance() {
    let (mut c, auth) = setup();
    let spender = 11;
    let recipient = 12;
    c.mint(&auth, USER, 1000).unwrap();
    c.approve(&auth, USER, spender, 100).unwrap();
    let result = c.transfer_from(&auth, spender, USER, recipient, 200);
    assert_eq!(result, Err(TokenError::AllowanceUnderflow));
    assert_eq!(c.balance(USER), 1000);
}

#[test]
fn transfer_from_insufficient_balance() {
    let (mut c, auth) = setup();
    let spender = 11;
    let recipient = 12;
    c.mint(&auth, USER, 50).unwrap();
    c.approve(&auth, USER, spender, 1000).unwrap();
    let result = c.transfer_from(&auth, spender, USER, recipient, 100);
    assert_eq!(result, Err(TokenError::InsufficientBalance));
}

#[test]
fn transfer_from_zero_fails() {
    let (mut c, auth) = setup();
    let spender = 11;
    let recipient = 12;
    c.mint(&auth, USER, 1000).unwrap();
    c.approve(&auth, USER, spender, 500).unwrap();
    let result = c.transfer_from(&auth, spender, USER, recipient, 0);
    assert_eq!(result, Err(TokenError::NegativeAmount));
}

#[test]
fn approve_zero_fails() {
    let (mut c, auth) = setup();
    assert_eq!(c.approve(&auth, USER, 11, 0), Err(TokenError::NegativeAmount));
}

#[test]
fn approve_negative_fails() {
    let (mut c, auth) = setup();
    assert_eq!(c.approve(&auth, USER, 11, -1), Err(TokenError::NegativeAmount));
}

// ---- burn tests ----

#[test]
fn burn_by_admin_succeeds() {
    let (mut c, auth) = setup();
    c.mint(&auth, USER, 1000).unwrap();
    c.burn(&auth, USER, 400).unwrap();
    assert_eq!(c.balance(USER), 600);
}

#[test]
fn burn_by_burner_succeeds() {
    let (mut c, auth) = setup();
    let burner = 20;
    c.mint(&auth, USER, 1000).unwrap();
    c.set_burner(&auth, burner).unwrap();
    assert_eq!(c.get_burner(), Some(burner));
    c.burn(&auth, USER, 300).unwrap();
    assert_eq!(c.balance(USER), 700);
}

#[test]
fn burn_insufficient_balance() {
    let (mut c, auth) = setup();
    c.mint(&auth, USER, 100).unwrap();
    assert_eq!(c.burn(&auth, USER, 200), Err(TokenError::InsufficientBalance));
    assert_eq!(c.balance(USER), 100);
}

#[test]
fn burn_zero_fails() {
    let (mut c, auth) = setup();
    c.mint(&auth, USER, 100).unwrap();
    assert_eq!(c.burn(&auth, USER, 0), Err(TokenError::NegativeAmount));
}

#[test]
fn burn_negative_fails() {
    let (mut c, auth) = setup();
    c.mint(&auth, USER, 100).unwrap();
    assert_eq!(c.burn(&auth, USER, -1), Err(TokenError::NegativeAmount));
}

// ---- compliance allowlist tests ----

#[test]
fn allowlist_disabled_by_default() {
    let (mut c, auth) = setup();
    assert!(!c.is_allowlisted(USER));
    let recipient = 10;
    c.mint(&auth, USER, 1000).unwrap();
    c.transfer(&auth, USER, recipient, 100).unwrap();
    assert_eq!(c.balance(recipient), 100);
}

#[test]
fn allowlist_gates_transfer() {
    let (mut c, auth) = setup();
    let recipient = 10;
    c.mint(&auth, USER, 1000).unwrap();
    c.set_allowlisted(&auth, USER, true).unwrap();
    c.enable_allowlist(&auth, true).unwrap();

    assert_eq!(c.transfer(&auth, USER, recipient, 100), Err(TokenError::Unauthorized));

    c.set_allowlisted(&auth, recipient, true).unwrap();
    c.transfer(&auth, USER, recipient, 100).unwrap();
    assert_eq!(c.balance(recipient), 100);
}

#[test]
fn allowlist_gates_transfer_from() {
    let (mut c, auth) = setup();
    let spender = 11;
    let recipient = 12;
    c.mint(&auth, USER, 1000).unwrap();
    c.approve(&auth, USER, spender, 500).unwrap();
    c.set_allowlisted(&auth, USER, true).unwrap();
    c.enable_allowlist(&auth, true).unwrap();

    let result = c.transfer_from(&auth, spender, USER, recipient, 100);
    assert_eq!(result, Err(TokenError::Unauthorized));

    c.set_allowlisted(&auth, recipient, true).unwrap();
    c.transfer_from(&auth, spender, USER, recipient, 100).unwrap();
    assert_eq!(c.balance(recipient), 100);
}

#[test]
fn allowlist_gates_mint() {
    let (mut c, auth) = setup();
    c.set_allowlisted(&auth, USER, true).unwrap();
    c.enable_allowlist(&auth, true).unwrap();

    c.mint(&auth, USER, 100).unwrap();
    assert_eq!(c.balance(USER), 100);

    let stranger = 30;
    assert_eq!(c.mint(&auth, stranger, 100), Err(TokenError::Unauthorized));
}

#[test]
fn allowlist_gates_burn() {
    let (mut c, auth) = setup();
    c.mint(&auth, USER, 1000).unwrap();
    c.set_allowlisted(&auth, USER, true).unwrap();
    c.enable_allowlist(&auth, true).unwrap();

    c.burn(&auth, USER, 100).unwrap();
    assert_eq!(c.balance(USER), 900);

    let stranger = 30;
    assert_eq!(c.mint(&auth, stranger, 1000), Err(TokenError::Unauthorized));

    c.set_allowlisted(&auth, stranger, true).unwrap();
    c.mint(&auth, stranger, 1000).unwrap();
    c.burn(&auth, stranger, 100).unwrap();
    assert_eq!(c.balance(stranger), 900);
}

// ---- further cases ----

#[test]
fn refused_mint_keeps_balance_and_supply() {
    let (mut c, auth) = setup();
    c.mint(&auth, USER, i128::MAX).unwrap();
    assert_eq!(c.mint(&auth, USER, 1), Err(TokenError::Overflow));
    assert_eq!(c.balance(USER), i128::MAX);
    assert_eq!(c.total_supply(), i128::MAX);
}

#[test]
fn transfer_to_self_keeps_balance() {
    let (mut c, auth) = setup();
    c.mint(&auth, USER, 100).unwrap();
    c.transfer(&auth, USER, USER, 60).unwrap();
    assert_eq!(c.balance(USER), 100);
}

#[test]
fn mint_then_burn_restores_supply() {
    let (mut c, auth) = setup();
    c.mint(&auth, USER, 250).unwrap();
    c.mint(&auth, 7, 40).unwrap();
    c.burn(&auth, 7, 40).unwrap();
    assert_eq!(c.total_supply(), 250);
    assert_eq!(c.balance(7), 0);
}

#[test]
fn error_codes_match_contract_codes() {
    assert_eq!(TokenError::InsufficientBalance.code(), 100);
    assert_eq!(TokenError::Overflow.code(), 101);
    assert_eq!(TokenError::NegativeAmount.code(), 102);
    assert_eq!(TokenError::Unauthorized.code(), 103);
    assert_eq!(TokenError::AllowanceUnderflow.code(), 104);
}

// ---- event tests ----

#[test]
fn transfer_emits_event() {
    let (mut c, auth) = setup();
    let recipient = 13;
    c.mint(&auth, USER, 1000).unwrap();
    c.transfer(&auth, USER, recipient, 100).unwrap();
    assert_eq!(
        c.events().last(),
        Some(&TokenEvent::Transfer { from: USER, to: recipient, amount: 100 })
    );
}

#[test]
fn transfer_from_emits_event() {
    let (mut c, auth) = setup();
    let spender = 11;
    let recipient = 12;
    c.mint(&auth, USER, 1000).unwrap();
    c.approve(&auth, USER, spender, 500).unwrap();
    c.transfer_from(&auth, spender, USER, recipient, 100).unwrap();
    assert_eq!(
        c.events().last(),
        Some(&TokenEvent::Transfer { from: USER, to: recipient, amount: 100 })
    );
}

#[test]
fn mint_emits_event() {
    let (mut c, auth) = setup();
    c.mint(&auth, USER, 1000).unwrap();
    assert_eq!(c.events(), vec![TokenEvent::Mint { admin: ADMIN, to: USER, amount: 1000 }]);
}

#[test]
fn burn_emits_event() {
    let (mut c, auth) = setup();
    c.mint(&auth, USER, 1000).unwrap();
    c.burn(&auth, USER, 400).unwrap();
    assert_eq!(c.events().last(), Some(&TokenEvent::Burn { admin: ADMIN, from: USER, amount: 400 }));
}

#[test]
fn approve_emits_event() {
    let (mut c, auth) = setup();
    let spender = 11;
    c.approve(&auth, USER, spender, 500).unwrap();
    assert_eq!(
        c.events().last(),
        Some(&TokenEvent::Approve { from: USER, spender, amount: 500 })
    );
}

#[test]
fn refused_operations_publish_nothing() {
    let (mut c, auth) = setup();
    assert!(c.transfer(&auth, USER, 13, 100).is_err());
    assert!(c.approve(&auth, USER, 13, 0).is_err());
    assert!(c.events().is_empty());
}
