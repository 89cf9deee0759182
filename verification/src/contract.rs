//! The rules of the art contract, free of the ledger: what it holds, when
//! it can be initialized, and what it answers.
use crate::generate::{art_data_uri, generate_art_data_uri};
use vstd::prelude::*;

verus! {

/// An account on the ledger, as its twenty bytes.
pub type Address = [u8; 20];

/// A token identifier, as the thirty-two bytes of the number, least
/// significant first.
pub type TokenId = [u8; 32];

/// Whether `address` is the zero address, which stands for "none".
pub open spec fn is_zero_address(address: Address) -> bool {
    forall|i: int| 0 <= i < 20 ==> address[i] == 0
}

/// Whether `address` is the zero address.
pub fn address_is_zero(address: &Address) -> (zero: bool)
    ensures
        zero == is_zero_address(*address),
{
    let mut i: usize = 0;
    while i < 20
        invariant
            i <= 20,
            forall|k: int| 0 <= k < i ==> address[k] == 0,
        decreases 20 - i,
    {
        if address[i] != 0 {
            return false;
        }
        i += 1;
    }
    true
}

/// Error definitions
#[derive(Debug, Clone, Copy, PartialEq, Eq, Structural)]
pub enum StylusNftArtError {
    /// Contract is already initialized
    AlreadyInitialized,
    /// A call to an external contract failed
    ExternalCallFailed,
}

/// The state of the art contract.
pub struct StylusNFTArt {
    /// The NFT contract that this Art contract delivers the art for; the
    /// zero address until the contract is initialized.
    pub token_contract_address: Address,
}

impl StylusNFTArt {
    /// Generates the art of a specific token_id. `owner` is what the token
    /// contract answered when asked for the token's owner, and `None`
    /// where that call failed.
    pub fn generate_art(&mut self, token_id: &TokenId, owner: Option<Address>) -> (art: Result<
        String,
        StylusNftArtError,
    >)
        ensures
            *final(self) == *old(self),
            match owner {
                Some(owner) => art matches Ok(uri) && uri@ == art_data_uri(token_id@, owner@),
                None => art == Err::<String, StylusNftArtError>(
                    StylusNftArtError::ExternalCallFailed,
                ),
            },
    {
        match owner {
            Some(owner) => self.generate_art_with_owner(token_id, &owner),
            None => Err(StylusNftArtError::ExternalCallFailed),
        }
    }

    /// Generates the art of a specific token_id and a specific address (assuming it's the owner)
    pub fn generate_art_with_owner(&mut self, token_id: &TokenId, owner: &Address) -> (art: Result<
        String,
        StylusNftArtError,
    >)
        ensures
            *final(self) == *old(self),
            art matches Ok(uri) && uri@ == art_data_uri(token_id@, owner@),
    {
        Ok(generate_art_data_uri(token_id.as_slice(), owner.as_slice()))
    }

    /// Initialize program
    pub fn initialize(&mut self, token_contract_address: Address) -> (done: Result<
        (),
        StylusNftArtError,
    >)
        ensures
            is_zero_address(old(self).token_contract_address) ==> done == Ok::<
                (),
                StylusNftArtError,
            >(()) && final(self).token_contract_address == token_contract_address,
            !is_zero_address(old(self).token_contract_address) ==> done == Err::<
                (),
                StylusNftArtError,
            >(StylusNftArtError::AlreadyInitialized) && *final(self) == *old(self),
    {
        if !address_is_zero(&self.token_contract_address) {
            return Err(StylusNftArtError::AlreadyInitialized);
        }
        self.token_contract_address = token_contract_address;
        Ok(())
    }

    /// Getter for the art contract address
    pub fn get_token_contract_address(&mut self) -> (address: Result<Address, StylusNftArtError>)
        ensures
            *final(self) == *old(self),
            address == Ok::<Address, StylusNftArtError>(old(self).token_contract_address),
    {
        Ok(self.token_contract_address)
    }
}

} // verus!
