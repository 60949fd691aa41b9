//! Plain-value models of the ledger's data, and the calls into the ledger
//! client libraries.
//!
//! Everything the rest of the crate knows about addresses, instructions and
//! signed transactions is stated over the types of this module. The functions
//! marked `external_body` are the only places where the client libraries are
//! called; their contracts are assumed, not proved.

use mpl_token_metadata::instruction::update_metadata_accounts_v2;
use solana_sdk::instruction::AccountMeta;
use solana_sdk::pubkey::ParsePubkeyError;
use solana_sdk::pubkey::Pubkey;
use solana_sdk::signature::Keypair;
use solana_sdk::signer::Signer;
use solana_sdk::transaction::Transaction;
use std::str::FromStr;
use vstd::prelude::*;

verus! {

/// A 32-byte account address.
#[derive(Clone, Copy, Debug, PartialEq, Eq)]
pub struct Address {
    pub bytes: [u8; 32],
}

impl View for Address {
    type V = Seq<u8>;

    open spec fn view(&self) -> Seq<u8> {
        self.bytes@
    }
}

/// Why a text is not an address.
#[derive(Clone, Copy, Debug, PartialEq, Eq)]
pub enum AddressError {
    /// The text is too long, or does not decode to 32 bytes.
    WrongSize,
    /// The text is not Base58.
    Invalid,
}

/// A 32-byte hash of a recent block, which dates a transaction.
#[derive(Clone, Copy, Debug, PartialEq, Eq)]
pub struct Blockhash {
    pub bytes: [u8; 32],
}

impl View for Blockhash {
    type V = Seq<u8>;

    open spec fn view(&self) -> Seq<u8> {
        self.bytes@
    }
}

/// One account that an instruction touches.
#[derive(Clone, Copy, Debug, PartialEq, Eq)]
pub struct AccountRef {
    pub address: Address,
    pub is_signer: bool,
    pub is_writable: bool,
}

/// What an `AccountRef` stands for.
pub struct AccountRefView {
    pub address: Seq<u8>,
    pub is_signer: bool,
    pub is_writable: bool,
}

impl View for AccountRef {
    type V = AccountRefView;

    open spec fn view(&self) -> AccountRefView {
        AccountRefView {
            address: self.address@,
            is_signer: self.is_signer,
            is_writable: self.is_writable,
        }
    }
}

/// One instruction for a program on the ledger.
#[derive(Clone, Debug, PartialEq, Eq)]
pub struct Instruction {
    pub program: Address,
    pub accounts: Vec<AccountRef>,
    pub data: Vec<u8>,
}

/// What an `Instruction` stands for.
pub struct InstructionView {
    pub program: Seq<u8>,
    pub accounts: Seq<AccountRefView>,
    pub data: Seq<u8>,
}

impl View for Instruction {
    type V = InstructionView;

    open spec fn view(&self) -> InstructionView {
        InstructionView {
            program: self.program@,
            accounts: Seq::new(self.accounts@.len(), |i: int| self.accounts@[i]@),
            data: self.data@,
        }
    }
}

/// A transaction with its signatures, ready to be submitted.
#[derive(Debug, PartialEq, Eq)]
pub struct SignedTransaction {
    /// One signature of 64 bytes for each signer.
    pub signatures: Vec<Vec<u8>>,
    /// The bytes that were signed: the message in its wire form.
    pub message: Vec<u8>,
}

/// What a `SignedTransaction` stands for: its signatures and the bytes signed.
pub struct SignedTransactionView {
    pub signatures: Seq<Seq<u8>>,
    pub message: Seq<u8>,
}

impl View for SignedTransaction {
    type V = SignedTransactionView;

    open spec fn view(&self) -> SignedTransactionView {
        SignedTransactionView {
            signatures: Seq::new(self.signatures@.len(), |i: int| self.signatures@[i]@),
            message: self.message@,
        }
    }
}

/// The bytes of each seed, in order.
pub open spec fn seeds_view(seeds: Seq<Vec<u8>>) -> Seq<Seq<u8>> {
    Seq::new(seeds.len(), |i: int| seeds[i]@)
}

/// What a parse result stands for.
pub open spec fn parsed_view(r: Result<Address, AddressError>) -> Result<Seq<u8>, AddressError> {
    match r {
        Ok(a) => Ok(a@),
        Err(e) => Err(e),
    }
}

/// What a derived address, with its bump seed, stands for.
pub open spec fn derived_view(r: Option<(Address, u8)>) -> Option<(Seq<u8>, u8)> {
    match r {
        Some((a, bump)) => Some((a@, bump)),
        None => None,
    }
}

/// The address that a text encodes in Base58, or why it encodes none.
pub uninterp spec fn decoded_address(text: Seq<char>) -> Result<Seq<u8>, AddressError>;

/// The address derived from `seeds` for `program`, with the bump seed that
/// was found, or `None` where no bump seed gives one.
pub uninterp spec fn program_address(seeds: Seq<Seq<u8>>, program: Seq<u8>) -> Option<
    (Seq<u8>, u8),
>;

/// Whether 64 bytes are accepted as a signing keypair.
pub uninterp spec fn keypair_accepted(bytes: Seq<u8>) -> bool;

/// The transaction that holds `ix` alone, is paid for by `payer`, is dated by
/// `blockhash` and is signed with `keypair`.
pub uninterp spec fn signed_with_payer(
    ix: InstructionView,
    payer: Seq<u8>,
    keypair: Seq<u8>,
    blockhash: Seq<u8>,
) -> SignedTransactionView;

/// Why an instruction cannot be signed by one credential in a transaction
/// of its own.
#[derive(Clone, Copy, Debug, PartialEq, Eq)]
pub enum Unsignable {
    /// The instruction has 255 accounts or more, or more than 65,535 bytes of
    /// data: the message that carries it cannot be written.
    TooLarge,
    /// An account other than the payer has to sign.
    OtherSigner,
}

/// Whether `ix` is too large for a message: the wire form counts accounts in
/// one byte and the bytes of the data in two.
pub open spec fn too_large(ix: InstructionView) -> bool {
    ix.accounts.len() >= 255 || ix.data.len() > 65535
}

/// Whether a transaction that holds `ix` alone and is paid for by `payer`
/// can be written, and needs no signature but the payer's.
pub open spec fn signable(ix: InstructionView, payer: Seq<u8>) -> bool {
    &&& !too_large(ix)
    &&& forall|i: int|
        0 <= i < ix.accounts.len() && #[trigger] ix.accounts[i].is_signer ==> ix.accounts[i].address
            == payer
}

/// Why `ix` cannot be signed by the payer alone, if it cannot. Size is
/// looked at first.
pub open spec fn refusal(ix: InstructionView, payer: Seq<u8>) -> Option<Unsignable> {
    if too_large(ix) {
        Some(Unsignable::TooLarge)
    } else if !signable(ix, payer) {
        Some(Unsignable::OtherSigner)
    } else {
        None
    }
}

/// How an optional flag is laid out in instruction data.
pub open spec fn flag_bytes(flag: Option<bool>) -> Seq<u8> {
    match flag {
        None => seq![0u8],
        Some(b) => seq![1u8, if b { 1u8 } else { 0u8 }],
    }
}

/// How an optional address is laid out in instruction data.
pub open spec fn optional_address_bytes(address: Option<Address>) -> Seq<u8> {
    match address {
        None => seq![0u8],
        Some(a) => seq![1u8] + a@,
    }
}

/// The instruction that updates a metadata account without replacing its data.
pub open spec fn update_metadata_spec(
    program: Seq<u8>,
    metadata: Seq<u8>,
    authority: Seq<u8>,
    new_authority: Option<Address>,
    primary_sale_happened: Option<bool>,
    is_mutable: Option<bool>,
) -> InstructionView {
    InstructionView {
        program,
        accounts: seq![
            AccountRefView { address: metadata, is_signer: false, is_writable: true },
            AccountRefView { address: authority, is_signer: true, is_writable: false },
        ],
        data: seq![15u8, 0u8] + optional_address_bytes(new_authority) + flag_bytes(
            primary_sale_happened,
        ) + flag_bytes(is_mutable),
    }
}

/// The bytes of the token metadata program's address.
pub open spec fn metadata_program_bytes() -> Seq<u8> {
    seq![
        11u8, 112u8, 101u8, 177u8, 227u8, 209u8, 124u8, 69u8,
        56u8, 157u8, 82u8, 127u8, 107u8, 4u8, 195u8, 205u8,
        88u8, 184u8, 108u8, 115u8, 26u8, 160u8, 253u8, 181u8,
        73u8, 182u8, 209u8, 188u8, 3u8, 248u8, 41u8, 70u8,
    ]
}

/// Calls `Pubkey::from_str`. Assumed: the result is a function of the text
/// alone, the one that `decoded_address` names; the two kinds of error are
/// those of `ParsePubkeyError`.
#[verifier::external_body]
pub(crate) fn parse_address(text: &str) -> (r: Result<Address, AddressError>)
    ensures
        parsed_view(r) == decoded_address(text@),
{
    match Pubkey::from_str(text) {
        Ok(key) => Ok(Address { bytes: key.to_bytes() }),
        Err(ParsePubkeyError::WrongSize) => Err(AddressError::WrongSize),
        Err(ParsePubkeyError::Invalid) => Err(AddressError::Invalid),
    }
}

/// Calls `Pubkey::try_find_program_address`. Assumed: the result is a
/// function of the seeds and the program's address alone, the one that
/// `program_address` names.
#[verifier::external_body]
pub(crate) fn find_program_address(seeds: &Vec<Vec<u8>>, program: &Address) -> (r: Option<
    (Address, u8),
>)
    ensures
        derived_view(r) == program_address(seeds_view(seeds@), program@),
{
    let parts: Vec<&[u8]> = seeds.iter().map(|s| s.as_slice()).collect();
    match Pubkey::try_find_program_address(&parts, &Pubkey::new_from_array(program.bytes)) {
        Some((key, bump)) => Some((Address { bytes: key.to_bytes() }, bump)),
        None => None,
    }
}

/// Reads `mpl_token_metadata::ID`. Assumed: the address of the token
/// metadata program is the 32 bytes of `metadata_program_bytes`.
#[verifier::external_body]
pub(crate) fn metadata_program() -> (program: Address)
    ensures
        program@ == metadata_program_bytes(),
{
    Address { bytes: mpl_token_metadata::ID.to_bytes() }
}

/// Calls `mpl_token_metadata::instruction::update_metadata_accounts_v2`, with
/// no replacement data. Assumed: the instruction goes to `program`; it names
/// the metadata account as writable and the update authority as a read-only
/// signer, in that order; its data is the tag 15, an absent data record, and
/// the three optional fields, each as a presence byte and its value.
#[verifier::external_body]
pub(crate) fn update_metadata_instruction(
    program: &Address,
    metadata: &Address,
    authority: &Address,
    new_authority: Option<Address>,
    primary_sale_happened: Option<bool>,
    is_mutable: Option<bool>,
) -> (ix: Instruction)
    ensures
        ix@ == update_metadata_spec(
            program@,
            metadata@,
            authority@,
            new_authority,
            primary_sale_happened,
            is_mutable,
        ),
{
    let key = |a: &Address| Pubkey::new_from_array(a.bytes);
    let ix = update_metadata_accounts_v2(
        key(program), key(metadata), key(authority),
        new_authority.map(|a| key(&a)), None, primary_sale_happened, is_mutable,
    );
    let accounts = ix.accounts.iter().map(|m| AccountRef {
        address: Address { bytes: m.pubkey.to_bytes() },
        is_signer: m.is_signer,
        is_writable: m.is_writable,
    }).collect();
    Instruction { program: Address { bytes: ix.program_id.to_bytes() }, accounts, data: ix.data }
}

/// Calls `Keypair::from_bytes` and, on the keypair it gives, `Signer::pubkey`.
/// Assumed: whether the bytes are accepted is a function of the bytes alone,
/// the one that `keypair_accepted` names; accepted bytes are 64 in number,
/// and the keypair's address is the second half of them.
#[verifier::external_body]
pub(crate) fn keypair_address(bytes: &Vec<u8>) -> (r: Option<Address>)
    ensures
        r is Some <==> keypair_accepted(bytes@),
        r matches Some(a) ==> bytes@.len() == 64 && a@ == bytes@.subrange(32, 64),
{
    match Keypair::from_bytes(bytes) {
        Ok(keypair) => Some(Address { bytes: keypair.pubkey().to_bytes() }),
        Err(_) => None,
    }
}

/// Calls `Transaction::new_signed_with_payer` with one instruction and one
/// signer. Assumed: the result is a function of the four arguments alone, the
/// one that `signed_with_payer` names: the signatures, and the message in
/// its wire form. The call panics where signing fails and where the message
/// cannot be written, which can be so with 255 accounts or more and is so
/// with more than 65,535 bytes of data. The conditions leave all of that out: the
/// keypair is an accepted one, it is the payer's, no other account has to
/// sign, the accounts are fewer than 255 and the data bytes at most 65,535.
#[verifier::external_body]
pub(crate) fn sign_with_payer(
    ix: &Instruction,
    payer: &Address,
    keypair: &Vec<u8>,
    blockhash: &Blockhash,
) -> (tx: SignedTransaction)
    requires
        keypair_accepted(keypair@),
        keypair@.subrange(32, 64) == payer@,
        signable(ix@, payer@),
    ensures
        tx@ == signed_with_payer(ix@, payer@, keypair@, blockhash@),
{
    let accounts = ix.accounts.iter().map(|a| AccountMeta {
        pubkey: Pubkey::from(a.address.bytes),
        is_signer: a.is_signer,
        is_writable: a.is_writable,
    }).collect();
    let program_id = Pubkey::from(ix.program.bytes);
    let one = solana_sdk::instruction::Instruction { program_id, accounts, data: ix.data.clone() };
    let signer = Keypair::from_bytes(keypair).unwrap();
    let hash = solana_sdk::hash::Hash::new_from_array(blockhash.bytes);
    let raw = Transaction::new_signed_with_payer(
        &[one], Some(&Pubkey::from(payer.bytes)), &[&signer], hash);
    let signatures = raw.signatures.iter().map(|s| s.as_ref().to_vec()).collect();
    SignedTransaction { signatures, message: raw.message_data() }
}

} // verus!
