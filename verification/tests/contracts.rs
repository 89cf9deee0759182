use nft_art::contract::{address_is_zero, StylusNFTArt, StylusNftArtError};
use nft_art::generate::generate_art_data_uri;
use nft_art::nft::{StylusNFT, StylusNFTError, ERC20_MIN_BALANCE_TO_MINT};

const NONE: [u8; 20] = [0; 20];

fn account(n: u8) -> [u8; 20] {
    let mut bytes = [0u8; 20];
    bytes[19] = n;
    bytes
}

#[test]
fn zero_address_is_all_zero_bytes() {
    assert!(address_is_zero(&NONE));
    assert!(!address_is_zero(&account(1)));
    let mut first = NONE;
    first[0] = 1;
    assert!(!address_is_zero(&first));
    assert!(!address_is_zero(&[0xff; 20]));
}

#[test]
fn art_contract_is_initialized_once() {
    let mut contract = StylusNFTArt { token_contract_address: NONE };
    assert_eq!(contract.get_token_contract_address(), Ok(NONE));
    assert_eq!(contract.initialize(account(1)), Ok(()));
    assert_eq!(contract.get_token_contract_address(), Ok(account(1)));
    assert_eq!(contract.initialize(account(2)), Err(StylusNftArtError::AlreadyInitialized));
    assert_eq!(contract.get_token_contract_address(), Ok(account(1)));
}

#[test]
fn art_contract_initialized_with_the_zero_address_stays_open() {
    let mut contract = StylusNFTArt { token_contract_address: NONE };
    assert_eq!(contract.initialize(NONE), Ok(()));
    assert_eq!(contract.initialize(account(3)), Ok(()));
    assert_eq!(contract.token_contract_address, account(3));
}

#[test]
fn art_contract_draws_for_the_owner_it_is_given() {
    let mut contract = StylusNFTArt { token_contract_address: account(1) };
    let token_id = [5u8; 32];
    let art = contract.generate_art_with_owner(&token_id, &account(8));
    assert_eq!(art, Ok(generate_art_data_uri(&token_id, &account(8))));
    let art = contract.generate_art(&token_id, Some(account(8)));
    assert_eq!(art, Ok(generate_art_data_uri(&token_id, &account(8))));
    assert_eq!(contract.token_contract_address, account(1));
}

#[test]
fn art_contract_reports_a_failed_owner_lookup() {
    let mut contract = StylusNFTArt { token_contract_address: account(1) };
    let art = contract.generate_art(&[5u8; 32], None);
    assert_eq!(art, Err(StylusNftArtError::ExternalCallFailed));
    assert_eq!(contract.token_contract_address, account(1));
}

#[test]
fn minting_takes_a_balance_of_ten() {
    let mut contract =
        StylusNFT { art_contract_address: account(1), erc20_token_contract_address: account(2) };
    assert_eq!(ERC20_MIN_BALANCE_TO_MINT, 10);
    for balance in [[10u64, 0, 0, 0], [11, 0, 0, 0], [0, 1, 0, 0], [0, 0, 0, 1], [u64::MAX; 4]] {
        assert!(contract.user_has_enough_erc20_token_balance(Some(balance)).is_ok());
    }
    for held in 0..10u64 {
        let refused = contract.user_has_enough_erc20_token_balance(Some([held, 0, 0, 0]));
        assert!(matches!(
            refused,
            Err(StylusNFTError::NotEnoughERC20Balance { balance, expected })
                if balance == [held, 0, 0, 0] && expected == [10, 0, 0, 0]
        ));
    }
}

#[test]
fn minting_reports_a_failed_balance_lookup() {
    let mut contract =
        StylusNFT { art_contract_address: account(1), erc20_token_contract_address: account(2) };
    let refused = contract.user_has_enough_erc20_token_balance(None);
    assert!(matches!(refused, Err(StylusNFTError::ExternalCallFailed)));
    assert_eq!(contract.art_contract_address, account(1));
    assert_eq!(contract.erc20_token_contract_address, account(2));
}

#[test]
fn token_contract_is_initialized_once() {
    let mut contract = StylusNFT { art_contract_address: NONE, erc20_token_contract_address: NONE };
    assert!(matches!(contract.get_art_contract_address(), Ok(NONE)));
    assert!(contract.initialize(account(1), account(2)).is_ok());
    assert_eq!(contract.art_contract_address, account(1));
    assert_eq!(contract.erc20_token_contract_address, account(2));
    let again = contract.initialize(account(3), account(4));
    assert!(matches!(again, Err(StylusNFTError::AlreadyInitialized)));
    assert_eq!(contract.art_contract_address, account(1));
    assert_eq!(contract.erc20_token_contract_address, account(2));
    assert!(matches!(contract.get_art_contract_address(), Ok(held) if held == account(1)));
}

#[test]
fn token_contract_with_only_the_token_address_set() {
    let mut contract =
        StylusNFT { art_contract_address: NONE, erc20_token_contract_address: account(2) };
    let refused = contract.initialize(account(3), account(4));
    assert!(matches!(refused, Err(StylusNFTError::AlreadyInitialized)));
    // the art contract's address is taken before the other one is looked at
    assert_eq!(contract.art_contract_address, account(3));
    assert_eq!(contract.erc20_token_contract_address, account(2));
}
