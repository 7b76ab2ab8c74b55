use vstd::prelude::*;
use std::collections::HashMap;
use crate::errors::ContractError;
use crate::invoice::Address;
use crate::storage::DataKey;

verus! {

broadcast use vstd::std_specs::hash::group_hash_axioms;

/// What an invoice NFT records.
#[derive(Copy, Clone, Debug, PartialEq, Eq, Structural)]
pub struct InvoiceNftMetadata {
    /// The invoice this NFT represents.
    pub invoice_id: u64,
    /// Full invoice amount.
    pub amount: i128,
    /// Unix timestamp when the invoice is due.
    pub due_date: u32,
    /// Discount rate in basis points.
    pub discount_rate: u32,
    /// Token used for the invoice.
    pub token: Address,
    /// Current owner of the NFT.
    pub owner: Address,
    /// Ledger timestamp, truncated to 32 bits, when the NFT was minted.
    pub minted_at: u32,
}

/// Storage key of the NFT of `invoice_id`.
pub fn get_nft_key(invoice_id: u64) -> (k: DataKey)
    ensures
        k == DataKey::InvoiceNft(invoice_id),
{
    DataKey::InvoiceNft(invoice_id)
}

/// Storage key of the owner of the NFT of `invoice_id`.
pub fn get_nft_owner_key(invoice_id: u64) -> (k: DataKey)
    ensures
        k == DataKey::InvoiceNftOwner(invoice_id),
{
    DataKey::InvoiceNftOwner(invoice_id)
}

/// The invoice NFTs in existence, by invoice id. Each invoice has at most one NFT: minted to the
/// freelancer on submission, passed to the LP on funding, burnt on payment.
pub struct NftRegistry {
    pub tokens: HashMap<u64, InvoiceNftMetadata>,
}

impl NftRegistry {
    /// The NFTs by invoice id.
    pub open spec fn view_map(&self) -> Map<u64, InvoiceNftMetadata> {
        self.tokens@
    }

    pub fn new() -> (r: Self)
        ensures
            r.view_map() == Map::<u64, InvoiceNftMetadata>::empty(),
    {
        NftRegistry { tokens: HashMap::new() }
    }

    /// Mints the NFT of `invoice_id` to `owner`.
    pub fn mint_invoice_nft(
        &mut self,
        invoice_id: u64,
        owner: Address,
        amount: i128,
        due_date: u32,
        discount_rate: u32,
        token: Address,
        now: u64,
    ) -> (r: Result<(), ContractError>)
        ensures
            old(self).view_map().contains_key(invoice_id) <==> r is Err,
            r is Err ==> r == Err::<(), ContractError>(ContractError::InvoiceNftAlreadyExists)
                && final(self).view_map() == old(self).view_map(),
            r is Ok ==> final(self).view_map() == old(self).view_map().insert(
                invoice_id,
                InvoiceNftMetadata {
                    invoice_id,
                    amount,
                    due_date,
                    discount_rate,
                    token,
                    owner,
                    minted_at: now as u32,
                },
            ),
    {
        if self.tokens.contains_key(&invoice_id) {
            return Err(ContractError::InvoiceNftAlreadyExists);
        }
        #[verifier::truncate]
        let minted_at = now as u32;
        let metadata = InvoiceNftMetadata {
            invoice_id,
            amount,
            due_date,
            discount_rate,
            token,
            owner,
            minted_at,
        };
        self.tokens.insert(invoice_id, metadata);
        Ok(())
    }

    /// Passes the NFT of `invoice_id` from `from` to `to`.
    pub fn transfer_invoice_nft(&mut self, invoice_id: u64, from: Address, to: Address) -> (r: Result<(), ContractError>)
        ensures
            !old(self).view_map().contains_key(invoice_id) ==> r == Err::<(), ContractError>(
                ContractError::InvoiceNftNotFound,
            ),
            old(self).view_map().contains_key(invoice_id) && old(self).view_map()[invoice_id].owner != from
                ==> r == Err::<(), ContractError>(ContractError::InvoiceNftNotOwned),
            r is Err ==> final(self).view_map() == old(self).view_map(),
            r is Ok <==> old(self).view_map().contains_key(invoice_id) && old(self).view_map()[invoice_id].owner == from,
            r is Ok ==> final(self).view_map() == old(self).view_map().insert(
                invoice_id,
                InvoiceNftMetadata { owner: to, ..old(self).view_map()[invoice_id] },
            ),
    {
        let mut metadata = match self.tokens.get(&invoice_id) {
            None => {
                return Err(ContractError::InvoiceNftNotFound);
            },
            Some(m) => *m,
        };
        if metadata.owner != from {
            return Err(ContractError::InvoiceNftNotOwned);
        }
        metadata.owner = to;
        self.tokens.insert(invoice_id, metadata);
        Ok(())
    }

    /// Destroys the NFT of `invoice_id`, which `owner` must hold.
    pub fn burn_invoice_nft(&mut self, invoice_id: u64, owner: Address) -> (r: Result<(), ContractError>)
        ensures
            !old(self).view_map().contains_key(invoice_id) ==> r == Err::<(), ContractError>(
                ContractError::InvoiceNftNotFound,
            ),
            old(self).view_map().contains_key(invoice_id) && old(self).view_map()[invoice_id].owner != owner
                ==> r == Err::<(), ContractError>(ContractError::InvoiceNftNotOwned),
            r is Err ==> final(self).view_map() == old(self).view_map(),
            r is Ok <==> old(self).view_map().contains_key(invoice_id) && old(self).view_map()[invoice_id].owner == owner,
            r is Ok ==> final(self).view_map() == old(self).view_map().remove(invoice_id),
    {
        let current = match self.tokens.get(&invoice_id) {
            None => {
                return Err(ContractError::InvoiceNftNotFound);
            },
            Some(m) => m.owner,
        };
        if current != owner {
            return Err(ContractError::InvoiceNftNotOwned);
        }
        self.tokens.remove(&invoice_id);
        Ok(())
    }

    /// The metadata of the NFT of `invoice_id`, if it exists.
    pub fn get_invoice_nft_metadata(&self, invoice_id: u64) -> (r: Option<InvoiceNftMetadata>)
        ensures
            r == (if self.view_map().contains_key(invoice_id) {
                Some(self.view_map()[invoice_id])
            } else {
                None
            }),
    {
        match self.tokens.get(&invoice_id) {
            None => None,
            Some(m) => Some(*m),
        }
    }

    /// The owner of the NFT of `invoice_id`, if it exists.
    pub fn get_invoice_nft_owner(&self, invoice_id: u64) -> (r: Option<Address>)
        ensures
            r == (if self.view_map().contains_key(invoice_id) {
                Some(self.view_map()[invoice_id].owner)
            } else {
                None
            }),
    {
        match self.tokens.get(&invoice_id) {
            None => None,
            Some(m) => Some(m.owner),
        }
    }

    /// Whether the NFT of `invoice_id` exists.
    pub fn invoice_nft_exists(&self, invoice_id: u64) -> (b: bool)
        ensures
            b == self.view_map().contains_key(invoice_id),
    {
        self.tokens.contains_key(&invoice_id)
    }

    /// Public query of the metadata of the NFT of `invoice_id`.
    pub fn query_nft_metadata(&self, invoice_id: u64) -> (r: Option<InvoiceNftMetadata>)
        ensures
            r == (if self.view_map().contains_key(invoice_id) {
                Some(self.view_map()[invoice_id])
            } else {
                None
            }),
    {
        self.get_invoice_nft_metadata(invoice_id)
    }

    /// Public query of the owner of the NFT of `invoice_id`.
    pub fn query_nft_owner(&self, invoice_id: u64) -> (r: Option<Address>)
        ensures
            r == (if self.view_map().contains_key(invoice_id) {
                Some(self.view_map()[invoice_id].owner)
            } else {
                None
            }),
    {
        self.get_invoice_nft_owner(invoice_id)
    }
}

} // verus!
