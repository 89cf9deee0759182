//! The rules of the token contract, free of the ledger: who may mint, and
//! when the contract can be initialized.
use crate::contract::{address_is_zero, is_zero_address, Address};
use vstd::prelude::*;

verus! {

/// A balance of 256 bits, as four limbs of 64 bits, least significant first.
pub type Balance = [u64; 4];

/// The number that `balance` stands for.
pub open spec fn balance_value(balance: Balance) -> nat {
    (balance[0] + balance[1] * 0x1_0000_0000_0000_0000 + balance[2]
        * 0x1_0000_0000_0000_0000_0000_0000_0000_0000 + balance[3]
        * 0x1_0000_0000_0000_0000_0000_0000_0000_0000_0000_0000_0000_0000) as nat
}

/// Minimum balance on ERC-20 tokens that the minter must have to mint an NFT
pub const ERC20_MIN_BALANCE_TO_MINT: u64 = 10;

/// Represents the ways methods may fail.
#[derive(Debug, Clone, Copy)]
pub enum StylusNFTError {
    /// Contract has already been initialized
    AlreadyInitialized,
    /// Minter does not have enough ERC-20 balance to mint an NFT
    NotEnoughERC20Balance { balance: Balance, expected: Balance },
    /// A call to an external contract failed
    ExternalCallFailed,
}

/// The state of the token contract, as far as its own rules read it.
pub struct StylusNFT {
    /// The contract that draws the art; the zero address until set.
    pub art_contract_address: Address,
    /// The contract of the ERC-20 token that minters must hold; the zero
    /// address until set.
    pub erc20_token_contract_address: Address,
}

impl StylusNFT {
    /// Check if the minter has enough balance of the ERC-20 token configured.
    /// `balance` is what the ERC-20 contract answered when asked for the
    /// account's balance, and `None` where that call failed.
    pub fn user_has_enough_erc20_token_balance(&mut self, balance: Option<Balance>) -> (enough:
        Result<(), StylusNFTError>)
        ensures
            *final(self) == *old(self),
            match balance {
                None => enough matches Err(StylusNFTError::ExternalCallFailed),
                Some(held) => if balance_value(held) < ERC20_MIN_BALANCE_TO_MINT {
                    enough matches Err(
                        StylusNFTError::NotEnoughERC20Balance { balance: reported, expected },
                    ) && reported == held && balance_value(expected) == ERC20_MIN_BALANCE_TO_MINT
                } else {
                    enough is Ok
                },
            },
    {
        match balance {
            None => Err(StylusNFTError::ExternalCallFailed),
            Some(held) => {
                if held[3] == 0 && held[2] == 0 && held[1] == 0 && held[0]
                    < ERC20_MIN_BALANCE_TO_MINT {
                    let expected: Balance = [ERC20_MIN_BALANCE_TO_MINT, 0, 0, 0];
                    Err(StylusNFTError::NotEnoughERC20Balance { balance: held, expected })
                } else {
                    Ok(())
                }
            },
        }
    }

    /// Initialize program: takes the two addresses, each only where none
    /// was set before. The art contract's address is looked at and set
    /// first, so it stays set where only the other one was set before.
    pub fn initialize(
        &mut self,
        art_contract_address: Address,
        erc20_token_contract_address: Address,
    ) -> (done: Result<(), StylusNFTError>)
        ensures
            !is_zero_address(old(self).art_contract_address) ==> {
                &&& done matches Err(StylusNFTError::AlreadyInitialized)
                &&& *final(self) == *old(self)
            },
            is_zero_address(old(self).art_contract_address) ==> {
                &&& final(self).art_contract_address == art_contract_address
                &&& if is_zero_address(old(self).erc20_token_contract_address) {
                    &&& done is Ok
                    &&& final(self).erc20_token_contract_address == erc20_token_contract_address
                } else {
                    &&& done matches Err(StylusNFTError::AlreadyInitialized)
                    &&& final(self).erc20_token_contract_address == old(self).erc20_token_contract_address
                }
            },
    {
        if !address_is_zero(&self.art_contract_address) {
            return Err(StylusNFTError::AlreadyInitialized);
        }
        self.art_contract_address = art_contract_address;
        if !address_is_zero(&self.erc20_token_contract_address) {
            return Err(StylusNFTError::AlreadyInitialized);
        }
        self.erc20_token_contract_address = erc20_token_contract_address;
        Ok(())
    }

    /// Getter for the art contract address
    pub fn get_art_contract_address(&mut self) -> (address: Result<Address, StylusNFTError>)
        ensures
            *final(self) == *old(self),
            address matches Ok(held) && held == old(self).art_contract_address,
    {
        Ok(self.art_contract_address)
    }
}

} // verus!
