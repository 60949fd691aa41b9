//! The operation that marks a token's primary sale as done.
//!
//! One run of the operation on one target is a fixed sequence: build the
//! instruction, fetch a recent blockhash, sign, submit. The two steps in the
//! middle of it that talk to the ledger are the caller's; the functions here
//! are the steps before, between and after them.

use crate::credential::Credential;
use crate::ledger::Address;
use crate::ledger::AddressError;
use crate::ledger::Blockhash;
use crate::ledger::decoded_address;
use crate::ledger::derived_view;
use crate::ledger::find_program_address;
use crate::ledger::Instruction;
use crate::ledger::InstructionView;
use crate::ledger::metadata_program;
use crate::ledger::metadata_program_bytes;
use crate::ledger::parse_address;
use crate::ledger::program_address;
use crate::ledger::refusal;
use crate::ledger::seeds_view;
use crate::ledger::sign_with_payer;
use crate::ledger::signable;
use crate::ledger::signed_with_payer;
use crate::ledger::SignedTransaction;
use crate::ledger::SignedTransactionView;
use crate::ledger::too_large;
use crate::ledger::Unsignable;
use crate::ledger::update_metadata_instruction;
use crate::ledger::update_metadata_spec;
use crate::outcome::attempt_view;
use crate::outcome::OperationError;
use crate::outcome::OperationErrorView;
use vstd::prelude::*;

verus! {

/// The operation "set primary sale happened", applied to every target of a batch.
pub struct SetPrimarySaleHappenedAll {}

impl SetPrimarySaleHappenedAll {
    /// The name under which the operation is reported.
    pub fn name() -> (n: &'static str)
        ensures
            n@ == "set-primary-sale-happened-all"@,
    {
        "set-primary-sale-happened-all"
    }
}

/// The first seed of every metadata address: the bytes of the word "metadata".
pub open spec fn metadata_prefix() -> Seq<u8> {
    seq![109u8, 101u8, 116u8, 97u8, 100u8, 97u8, 116u8, 97u8]
}

/// The seeds from which the metadata address of `mint` is derived.
pub open spec fn metadata_seeds(mint: Seq<u8>) -> Seq<Seq<u8>> {
    seq![metadata_prefix(), metadata_program_bytes(), mint]
}

/// The reason reported for a target that is not an address.
pub open spec fn address_error_text(e: AddressError) -> Seq<char> {
    match e {
        AddressError::WrongSize => "String is the wrong size"@,
        AddressError::Invalid => "Invalid Base58 string"@,
    }
}

/// The reason reported for a mint that has no metadata address.
pub open spec fn no_metadata_text() -> Seq<char> {
    "Unable to find a metadata address for the mint"@
}

/// The reason reported for an instruction that was not signed.
pub open spec fn unsignable_text(why: Unsignable) -> Seq<char> {
    match why {
        Unsignable::TooLarge => "The instruction is too large for one transaction"@,
        Unsignable::OtherSigner => "The instruction cannot be signed by the credential alone"@,
    }
}

/// The instruction for a mint whose metadata address was looked for with the
/// result `derived`.
pub open spec fn flag_instruction_spec(
    target: Seq<char>,
    derived: Option<(Seq<u8>, u8)>,
    authority: Seq<u8>,
) -> Result<InstructionView, OperationErrorView> {
    match derived {
        None => Err(OperationErrorView { target, reason: no_metadata_text() }),
        Some((metadata, _)) => Ok(
            update_metadata_spec(
                metadata_program_bytes(),
                metadata,
                authority,
                None,
                Some(true),
                None,
            ),
        ),
    }
}

/// The instruction that sets the flag on the metadata of the mint that
/// `target` names, signed for by `authority`; or the failure to report.
pub open spec fn primary_sale_instruction_spec(target: Seq<char>, authority: Seq<u8>) -> Result<
    InstructionView,
    OperationErrorView,
> {
    match decoded_address(target) {
        Err(e) => Err(OperationErrorView { target, reason: address_error_text(e) }),
        Ok(mint) => flag_instruction_spec(
            target,
            program_address(metadata_seeds(mint), metadata_program_bytes()),
            authority,
        ),
    }
}

/// What the result of building an instruction stands for.
pub open spec fn built_view(r: Result<Instruction, OperationError>) -> Result<
    InstructionView,
    OperationErrorView,
> {
    match r {
        Ok(ix) => Ok(ix@),
        Err(e) => Err(e@),
    }
}

/// What the result of signing stands for.
pub open spec fn signed_view(r: Result<SignedTransaction, OperationError>) -> Result<
    SignedTransactionView,
    OperationErrorView,
> {
    match r {
        Ok(tx) => Ok(tx@),
        Err(e) => Err(e@),
    }
}

/// What a fetched blockhash, or the failure to fetch one, stands for.
pub open spec fn fetched_view(r: Result<Blockhash, String>) -> Result<Seq<u8>, Seq<char>> {
    match r {
        Ok(hash) => Ok(hash@),
        Err(message) => Err(message@),
    }
}

/// What the ledger's answer to a submission stands for.
pub open spec fn sent_view(r: Result<String, String>) -> Result<Seq<char>, Seq<char>> {
    match r {
        Ok(signature) => Ok(signature@),
        Err(message) => Err(message@),
    }
}

/// The signed transaction for `ix`, once the blockhash was asked for with the
/// result `fetched`; or the failure to report.
pub open spec fn sign_for_target_spec(
    target: Seq<char>,
    ix: InstructionView,
    payer: Seq<u8>,
    keypair: Seq<u8>,
    fetched: Result<Seq<u8>, Seq<char>>,
) -> Result<SignedTransactionView, OperationErrorView> {
    match fetched {
        Err(message) => Err(OperationErrorView { target, reason: message }),
        Ok(hash) => match refusal(ix, payer) {
            None => Ok(signed_with_payer(ix, payer, keypair, hash)),
            Some(why) => Err(OperationErrorView { target, reason: unsignable_text(why) }),
        },
    }
}

/// The end of an attempt, once the transaction was submitted with the result
/// `sent`.
pub open spec fn confirm_for_target_spec(
    target: Seq<char>,
    sent: Result<Seq<char>, Seq<char>>,
) -> Result<Seq<char>, OperationErrorView> {
    match sent {
        Ok(signature) => Ok(signature),
        Err(message) => Err(OperationErrorView { target, reason: message }),
    }
}

/// Whether two addresses are the same.
pub fn same_address(a: &Address, b: &Address) -> (same: bool)
    ensures
        same == (a@ == b@),
{
    let mut i: usize = 0;
    while i < 32
        invariant
            i <= 32,
            forall|k: int| 0 <= k < i ==> a.bytes@[k] == b.bytes@[k],
        decreases 32 - i,
    {
        if a.bytes[i] != b.bytes[i] {
            return false;
        }
        i += 1;
    }
    assert(a@ =~= b@);
    true
}

/// The 32 bytes of an address, as a vector.
pub fn address_bytes(a: &Address) -> (v: Vec<u8>)
    ensures
        v@ == a@,
{
    let mut v: Vec<u8> = Vec::new();
    let mut i: usize = 0;
    while i < 32
        invariant
            i <= 32,
            v@ == a.bytes@.subrange(0, i as int),
        decreases 32 - i,
    {
        v.push(a.bytes[i]);
        i += 1;
    }
    v
}

/// The failure to report for a target that is not an address.
pub fn mint_failure(target: &str, e: AddressError) -> (failure: OperationError)
    ensures
        failure@ == (OperationErrorView { target: target@, reason: address_error_text(e) }),
{
    match e {
        AddressError::WrongSize => OperationError::new(target, "String is the wrong size"),
        AddressError::Invalid => OperationError::new(target, "Invalid Base58 string"),
    }
}

/// The metadata address of `mint`, with its bump seed: the address that the
/// token metadata program derives from the word "metadata", its own address
/// and the mint's.
pub fn metadata_address(mint: &Address) -> (r: Option<(Address, u8)>)
    ensures
        derived_view(r) == program_address(metadata_seeds(mint@), metadata_program_bytes()),
{
    let program = metadata_program();
    let mut prefix: Vec<u8> = Vec::new();
    prefix.push(109);
    prefix.push(101);
    prefix.push(116);
    prefix.push(97);
    prefix.push(100);
    prefix.push(97);
    prefix.push(116);
    prefix.push(97);
    assert(prefix@ =~= metadata_prefix());
    let mut seeds: Vec<Vec<u8>> = Vec::new();
    seeds.push(prefix);
    seeds.push(address_bytes(&program));
    seeds.push(address_bytes(mint));
    assert(seeds_view(seeds@) =~= metadata_seeds(mint@));
    find_program_address(&seeds, &program)
}

/// The instruction that updates the metadata account at `metadata`, signed
/// for by `authority`: it hands the account to `new_authority` and sets the
/// two flags, each where a value is given, and leaves the rest as it is.
pub fn metadata_update(
    metadata: &Address,
    authority: &Address,
    new_authority: Option<Address>,
    primary_sale_happened: Option<bool>,
    is_mutable: Option<bool>,
) -> (ix: Instruction)
    ensures
        ix@ == update_metadata_spec(
            metadata_program_bytes(),
            metadata@,
            authority@,
            new_authority,
            primary_sale_happened,
            is_mutable,
        ),
{
    let program = metadata_program();
    update_metadata_instruction(
        &program,
        metadata,
        authority,
        new_authority,
        primary_sale_happened,
        is_mutable,
    )
}

/// The instruction for `target`, once its metadata address was looked for
/// with the result `derived`.
pub fn flag_instruction(target: &str, derived: Option<(Address, u8)>, authority: &Address) -> (r:
    Result<Instruction, OperationError>)
    ensures
        built_view(r) == flag_instruction_spec(target@, derived_view(derived), authority@),
{
    match derived {
        None => Err(
            OperationError::new(target, "Unable to find a metadata address for the mint"),
        ),
        Some((metadata, _)) => Ok(metadata_update(&metadata, authority, None, Some(true), None)),
    }
}

/// The first step of an attempt: the instruction that sets the flag on the
/// metadata of the mint that `target` names, with `authority` as the update
/// authority.
///
/// Fails, with the target and the reason, where the target is not an address
/// or has no metadata address.
pub fn primary_sale_instruction(target: &str, authority: &Address) -> (r: Result<
    Instruction,
    OperationError,
>)
    ensures
        built_view(r) == primary_sale_instruction_spec(target@, authority@),
{
    match parse_address(target) {
        Err(e) => Err(mint_failure(target, e)),
        Ok(mint) => {
            let derived = metadata_address(&mint);
            flag_instruction(target, derived, authority)
        },
    }
}

/// Whether `ix` is too large for the message of a transaction.
pub fn is_too_large(ix: &Instruction) -> (b: bool)
    ensures
        b == too_large(ix@),
{
    ix.accounts.len() >= 255 || ix.data.len() > 65535
}

/// Whether a transaction that holds `ix` alone can be written, and the
/// payer's signature is the only one that it needs.
pub fn is_signable(ix: &Instruction, payer: &Address) -> (b: bool)
    ensures
        b == signable(ix@, payer@),
{
    if is_too_large(ix) {
        return false;
    }
    let mut i: usize = 0;
    while i < ix.accounts.len()
        invariant
            i <= ix.accounts@.len(),
            ix@.accounts.len() == ix.accounts@.len(),
            !too_large(ix@),
            forall|k: int|
                0 <= k < i && #[trigger] ix@.accounts[k].is_signer ==> ix@.accounts[k].address
                    == payer@,
        decreases ix.accounts@.len() - i,
    {
        if ix.accounts[i].is_signer && !same_address(&ix.accounts[i].address, payer) {
            assert(ix@.accounts[i as int].is_signer);
            return false;
        }
        i += 1;
    }
    true
}

/// The transaction that holds `ix` alone, is paid for and signed by the
/// credential, and is dated by `blockhash`.
///
/// It is refused as `TooLarge` where `ix` has 255 accounts or more, or more
/// than 65,535 bytes of data; else as `OtherSigner` where an account other
/// than the credential's has to sign.
pub fn sign_instruction(ix: &Instruction, credential: &Credential, blockhash: &Blockhash) -> (r:
    Result<SignedTransaction, Unsignable>)
    ensures
        match refusal(ix@, credential.address_view()) {
            Some(why) => r == Err::<SignedTransaction, Unsignable>(why),
            None => r matches Ok(tx) && tx@ == signed_with_payer(
                ix@,
                credential.address_view(),
                credential.bytes_view(),
                blockhash@,
            ),
        },
{
    let payer = credential.address();
    if is_too_large(ix) {
        return Err(Unsignable::TooLarge);
    }
    if !is_signable(ix, &payer) {
        return Err(Unsignable::OtherSigner);
    }
    let keypair = credential.bytes();
    Ok(sign_with_payer(ix, &payer, keypair, blockhash))
}

/// The failure to report for an instruction that was not signed.
pub fn unsignable_failure(target: &str, why: Unsignable) -> (failure: OperationError)
    ensures
        failure@ == (OperationErrorView { target: target@, reason: unsignable_text(why) }),
{
    match why {
        Unsignable::TooLarge => OperationError::new(
            target,
            "The instruction is too large for one transaction",
        ),
        Unsignable::OtherSigner => OperationError::new(
            target,
            "The instruction cannot be signed by the credential alone",
        ),
    }
}

/// The step after the blockhash was asked for: the signed transaction to
/// submit, or the failure to report.
///
/// A blockhash that could not be fetched fails the attempt with the message
/// that came with it; an instruction that cannot be signed fails it with the
/// reason of the refusal.
pub fn sign_for_target(
    target: &str,
    ix: &Instruction,
    credential: &Credential,
    fetched: Result<Blockhash, String>,
) -> (r: Result<SignedTransaction, OperationError>)
    ensures
        signed_view(r) == sign_for_target_spec(
            target@,
            ix@,
            credential.address_view(),
            credential.bytes_view(),
            fetched_view(fetched),
        ),
{
    match fetched {
        Err(message) => Err(OperationError::new(target, message.as_str())),
        Ok(hash) => match sign_instruction(ix, credential, &hash) {
            Ok(tx) => Ok(tx),
            Err(why) => Err(unsignable_failure(target, why)),
        },
    }
}

/// The last step of an attempt: the signature that the ledger confirmed, or
/// the failure to report, with the message that the ledger client gave.
pub fn confirm_for_target(target: &str, sent: Result<String, String>) -> (r: Result<
    String,
    OperationError,
>)
    ensures
        attempt_view(r) == confirm_for_target_spec(target@, sent_view(sent)),
{
    match sent {
        Ok(signature) => Ok(signature),
        Err(message) => Err(OperationError::new(target, message.as_str())),
    }
}

/// The instruction that `primary_sale_instruction` builds is small, and
/// needs no signature but that of its update authority: a credential can
/// always sign the instruction built for its own address.
pub proof fn lemma_primary_sale_signable(target: Seq<char>, authority: Seq<u8>)
    ensures
        primary_sale_instruction_spec(target, authority) matches Ok(ix) ==> signable(
            ix,
            authority,
        ),
{
}

} // verus!
