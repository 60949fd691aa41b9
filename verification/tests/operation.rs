use primary_sale::credential::Credential;
use primary_sale::ledger::{
    AccountRef, Address, AddressError, Blockhash, Instruction, SignedTransaction, Unsignable,
};
use primary_sale::outcome::OperationError;
use primary_sale::primary_sale::{
    address_bytes, confirm_for_target, flag_instruction, is_signable, is_too_large,
    metadata_address, metadata_update, mint_failure, primary_sale_instruction, same_address,
    sign_for_target, sign_instruction, unsignable_failure, SetPrimarySaleHappenedAll,
};
use solana_sdk::pubkey::Pubkey;
use solana_sdk::message::Message;
use solana_sdk::signature::{Keypair, Signature};
use solana_sdk::signer::Signer;
use solana_sdk::transaction::Transaction;
use std::str::FromStr;

const MINT: &str = "So11111111111111111111111111111111111111112";

const METADATA_PROGRAM: [u8; 32] = [
    11, 112, 101, 177, 227, 209, 124, 69, 56, 157, 82, 127, 107, 4, 195, 205, 88, 184, 108, 115,
    26, 160, 253, 181, 73, 182, 209, 188, 3, 248, 41, 70,
];

fn address_of(key: &Pubkey) -> Address {
    Address { bytes: key.to_bytes() }
}

fn some_credential() -> (Keypair, Credential) {
    let keypair = Keypair::new();
    let credential = Credential::from_bytes(keypair.to_bytes().to_vec()).unwrap();
    (keypair, credential)
}

/// The transaction as the ledger client takes it.
fn client_transaction(signed: &SignedTransaction) -> Transaction {
    let message: Message = bincode::deserialize(&signed.message).unwrap();
    let signatures =
        signed.signatures.iter().map(|s| Signature::try_from(s.as_slice()).unwrap()).collect();
    Transaction { signatures, message }
}

/// An instruction with `accounts` accounts, each with an address of its own,
/// and `data` bytes of data.
fn instruction_of_size(accounts: usize, data: usize) -> Instruction {
    let account = |i: usize| {
        let mut bytes = [7u8; 32];
        bytes[0] = (i % 256) as u8;
        bytes[1] = (i / 256) as u8;
        AccountRef { address: Address { bytes }, is_signer: false, is_writable: i % 2 == 0 }
    };
    Instruction {
        program: Address { bytes: [6u8; 32] },
        accounts: (0..accounts).map(account).collect(),
        data: vec![1u8; data],
    }
}

#[test]
fn operation_name_is_reported() {
    assert_eq!(SetPrimarySaleHappenedAll::name(), "set-primary-sale-happened-all");
}

#[test]
fn metadata_program_is_the_token_metadata_program() {
    let parsed = Pubkey::from_str("metaqbxxUerdq28cj1RbAWkYQm3ybzjb6a8bt518x1s").unwrap();
    assert_eq!(parsed.to_bytes(), METADATA_PROGRAM);
    assert_eq!(mpl_token_metadata::ID.to_bytes(), METADATA_PROGRAM);
}

#[test]
fn metadata_address_is_the_derived_address() {
    let mint = Pubkey::from_str(MINT).unwrap();
    let program = Pubkey::new_from_array(METADATA_PROGRAM);
    let seeds: [&[u8]; 3] = [b"metadata", program.as_ref(), mint.as_ref()];
    let (expected, bump) = Pubkey::find_program_address(&seeds, &program);
    let (address, found_bump) = metadata_address(&address_of(&mint)).unwrap();
    assert_eq!(address, address_of(&expected));
    assert_eq!(found_bump, bump);
    assert_ne!(address, address_of(&mint));
    let (through_the_program_crate, _) = mpl_token_metadata::pda::find_metadata_account(&mint);
    assert_eq!(address, address_of(&through_the_program_crate));
}

#[test]
fn instruction_sets_the_flag_and_nothing_else() {
    let authority = Keypair::new().pubkey();
    let ix = primary_sale_instruction(MINT, &address_of(&authority)).unwrap();
    let mint = Pubkey::from_str(MINT).unwrap();
    let (metadata, _) = mpl_token_metadata::pda::find_metadata_account(&mint);
    assert_eq!(ix.program.bytes, METADATA_PROGRAM);
    assert_eq!(
        ix.accounts,
        vec![
            AccountRef { address: address_of(&metadata), is_signer: false, is_writable: true },
            AccountRef { address: address_of(&authority), is_signer: true, is_writable: false },
        ]
    );
    assert_eq!(ix.data, vec![15u8, 0, 0, 1, 1, 0]);
}

#[test]
fn instruction_is_the_one_the_program_crate_builds() {
    let authority = Keypair::new().pubkey();
    let mint = Pubkey::from_str(MINT).unwrap();
    let (metadata, _) = mpl_token_metadata::pda::find_metadata_account(&mint);
    let expected = mpl_token_metadata::instruction::update_metadata_accounts_v2(
        mpl_token_metadata::ID,
        metadata,
        authority,
        None,
        None,
        Some(true),
        None,
    );
    let ix = primary_sale_instruction(MINT, &address_of(&authority)).unwrap();
    assert_eq!(ix.program, address_of(&expected.program_id));
    assert_eq!(ix.data, expected.data);
    assert_eq!(ix.accounts.len(), expected.accounts.len());
    for (ours, theirs) in ix.accounts.iter().zip(expected.accounts.iter()) {
        assert_eq!(ours.address, address_of(&theirs.pubkey));
        assert_eq!(ours.is_signer, theirs.is_signer);
        assert_eq!(ours.is_writable, theirs.is_writable);
    }
}

#[test]
fn target_that_is_not_base58_fails_with_the_target() {
    let authority = address_of(&Keypair::new().pubkey());
    let failure = primary_sale_instruction("not a mint!", &authority).unwrap_err();
    assert_eq!(
        failure,
        OperationError { target: "not a mint!".to_string(), reason: "Invalid Base58 string".to_string() }
    );
}

#[test]
fn target_of_the_wrong_size_fails_with_the_target() {
    let authority = address_of(&Keypair::new().pubkey());
    let short = primary_sale_instruction("abc", &authority).unwrap_err();
    assert_eq!(short.target, "abc");
    assert_eq!(short.reason, "String is the wrong size");
    let long = "1".repeat(45);
    let failure = primary_sale_instruction(&long, &authority).unwrap_err();
    assert_eq!(failure.target, long);
    assert_eq!(failure.reason, "String is the wrong size");
}

#[test]
fn mint_failure_names_each_kind() {
    assert_eq!(mint_failure("t", AddressError::WrongSize).reason, "String is the wrong size");
    assert_eq!(mint_failure("t", AddressError::Invalid).reason, "Invalid Base58 string");
    assert_eq!(mint_failure("t", AddressError::Invalid).target, "t");
}

#[test]
fn flag_instruction_without_metadata_address_fails() {
    let authority = address_of(&Keypair::new().pubkey());
    let failure = flag_instruction("mintA", None, &authority).unwrap_err();
    assert_eq!(failure.target, "mintA");
    assert_eq!(failure.reason, "Unable to find a metadata address for the mint");
}

#[test]
fn flag_instruction_uses_the_address_it_is_given() {
    let authority = address_of(&Keypair::new().pubkey());
    let metadata = address_of(&Keypair::new().pubkey());
    let ix = flag_instruction("mintA", Some((metadata, 254)), &authority).unwrap();
    assert_eq!(ix.accounts[0].address, metadata);
    assert_eq!(ix.accounts[1].address, authority);
    assert_eq!(ix.data, vec![15u8, 0, 0, 1, 1, 0]);
}

#[test]
fn credential_address_is_the_public_key() {
    let (keypair, credential) = some_credential();
    assert_eq!(credential.address(), address_of(&keypair.pubkey()));
    assert_eq!(credential.bytes().as_slice(), &keypair.to_bytes()[..]);
    assert_eq!(&credential.bytes()[32..], &credential.address().bytes[..]);
}

#[test]
fn credential_rejects_bytes_that_are_no_keypair() {
    assert!(Credential::from_bytes(vec![1u8; 63]).is_none());
    assert!(Credential::from_bytes(Vec::new()).is_none());
    assert!(Credential::from_bytes(vec![0u8; 65]).is_none());
}

#[test]
fn same_address_compares_all_bytes() {
    let a = Address { bytes: [7u8; 32] };
    let mut b = a;
    assert!(same_address(&a, &b));
    b.bytes[31] = 8;
    assert!(!same_address(&a, &b));
    assert_eq!(address_bytes(&b), b.bytes.to_vec());
}

#[test]
fn signed_transaction_verifies_and_carries_the_blockhash() {
    let (keypair, credential) = some_credential();
    let ix = primary_sale_instruction(MINT, &credential.address()).unwrap();
    let blockhash = Blockhash { bytes: [9u8; 32] };
    let tx = sign_instruction(&ix, &credential, &blockhash).unwrap();
    assert_eq!(tx.signatures.len(), 1);
    assert_eq!(tx.signatures[0].len(), 64);
    let raw = client_transaction(&tx);
    assert_eq!(raw.message_data(), tx.message);
    assert_eq!(raw.message.recent_blockhash.to_bytes(), [9u8; 32]);
    assert_eq!(raw.message.account_keys[0], keypair.pubkey());
    assert_eq!(raw.message.header.num_required_signatures, 1);
    assert_eq!(raw.message.instructions.len(), 1);
    assert_eq!(raw.message.instructions[0].data, vec![15u8, 0, 0, 1, 1, 0]);
    assert!(raw.verify().is_ok());
    assert!(raw.is_signed());
}

#[test]
fn signed_transaction_is_the_one_the_client_library_signs() {
    let (keypair, credential) = some_credential();
    let mint = Pubkey::from_str(MINT).unwrap();
    let (metadata, _) = mpl_token_metadata::pda::find_metadata_account(&mint);
    let theirs = mpl_token_metadata::instruction::update_metadata_accounts_v2(
        mpl_token_metadata::ID,
        metadata,
        keypair.pubkey(),
        None,
        None,
        Some(true),
        None,
    );
    let hash = solana_sdk::hash::Hash::new_from_array([9u8; 32]);
    let expected =
        Transaction::new_signed_with_payer(&[theirs], Some(&keypair.pubkey()), &[&keypair], hash);
    let ix = primary_sale_instruction(MINT, &credential.address()).unwrap();
    let tx = sign_instruction(&ix, &credential, &Blockhash { bytes: [9u8; 32] }).unwrap();
    assert_eq!(client_transaction(&tx), expected);
}

#[test]
fn signing_is_a_function_of_its_arguments() {
    let (_, credential) = some_credential();
    let ix = primary_sale_instruction(MINT, &credential.address()).unwrap();
    let blockhash = Blockhash { bytes: [3u8; 32] };
    let first = sign_instruction(&ix, &credential, &blockhash).unwrap();
    let second = sign_instruction(&ix, &credential, &blockhash).unwrap();
    assert_eq!(first, second);
    let other = sign_instruction(&ix, &credential, &Blockhash { bytes: [4u8; 32] }).unwrap();
    assert_ne!(first.signatures, other.signatures);
}

#[test]
fn instruction_for_another_signer_is_not_signed() {
    let (_, credential) = some_credential();
    let stranger = address_of(&Keypair::new().pubkey());
    let ix = primary_sale_instruction(MINT, &stranger).unwrap();
    assert!(!is_signable(&ix, &credential.address()));
    assert!(is_signable(&ix, &stranger));
    assert_eq!(
        sign_instruction(&ix, &credential, &Blockhash { bytes: [1u8; 32] }),
        Err(Unsignable::OtherSigner)
    );
    let failure =
        sign_for_target(MINT, &ix, &credential, Ok(Blockhash { bytes: [1u8; 32] })).unwrap_err();
    assert_eq!(failure.target, MINT);
    assert_eq!(failure.reason, "The instruction cannot be signed by the credential alone");
}

#[test]
fn instruction_with_too_many_accounts_is_not_signed() {
    let (_, credential) = some_credential();
    let hash = Blockhash { bytes: [1u8; 32] };
    let ix = instruction_of_size(255, 0);
    assert!(is_too_large(&ix));
    assert!(!is_signable(&ix, &credential.address()));
    assert_eq!(sign_instruction(&ix, &credential, &hash), Err(Unsignable::TooLarge));
    let fewer = instruction_of_size(254, 0);
    assert!(!is_too_large(&fewer));
    assert!(is_signable(&fewer, &credential.address()));
    let tx = sign_instruction(&fewer, &credential, &hash).unwrap();
    let raw = client_transaction(&tx);
    assert_eq!(raw.message.account_keys.len(), 256);
    assert_eq!(raw.message.instructions[0].accounts.len(), 254);
    assert!(raw.verify().is_ok());
}

#[test]
fn instruction_with_too_much_data_is_not_signed() {
    let (_, credential) = some_credential();
    let hash = Blockhash { bytes: [1u8; 32] };
    let ix = instruction_of_size(0, 65536);
    assert!(is_too_large(&ix));
    assert!(!is_signable(&ix, &credential.address()));
    assert_eq!(sign_instruction(&ix, &credential, &hash), Err(Unsignable::TooLarge));
    let failure = sign_for_target(MINT, &ix, &credential, Ok(hash)).unwrap_err();
    assert_eq!(failure.target, MINT);
    assert_eq!(failure.reason, "The instruction is too large for one transaction");

    let most = instruction_of_size(0, 65535);
    assert!(!is_too_large(&most));
    assert!(is_signable(&most, &credential.address()));
    let tx = sign_instruction(&most, &credential, &hash).unwrap();
    let raw = client_transaction(&tx);
    assert_eq!(raw.message.instructions[0].data.len(), 65535);
    assert!(raw.verify().is_ok());
}

#[test]
fn largest_instruction_is_signed() {
    let (_, credential) = some_credential();
    let ix = instruction_of_size(254, 65535);
    let tx = sign_instruction(&ix, &credential, &Blockhash { bytes: [1u8; 32] }).unwrap();
    assert!(client_transaction(&tx).verify().is_ok());
}

#[test]
fn size_is_looked_at_before_the_signers() {
    let (_, credential) = some_credential();
    let mut ix = instruction_of_size(1, 65536);
    ix.accounts[0].is_signer = true;
    assert_eq!(
        sign_instruction(&ix, &credential, &Blockhash { bytes: [1u8; 32] }),
        Err(Unsignable::TooLarge)
    );
}

#[test]
fn unsignable_failure_names_each_kind() {
    assert_eq!(
        unsignable_failure("t", Unsignable::TooLarge).reason,
        "The instruction is too large for one transaction"
    );
    assert_eq!(
        unsignable_failure("t", Unsignable::OtherSigner).reason,
        "The instruction cannot be signed by the credential alone"
    );
    assert_eq!(unsignable_failure("t", Unsignable::OtherSigner).target, "t");
}

#[test]
fn blockhash_that_was_not_fetched_fails_the_attempt() {
    let (_, credential) = some_credential();
    let ix = primary_sale_instruction(MINT, &credential.address()).unwrap();
    let failure =
        sign_for_target(MINT, &ix, &credential, Err("connection refused".to_string())).unwrap_err();
    assert_eq!(failure.target, MINT);
    assert_eq!(failure.reason, "connection refused");
}

#[test]
fn fetched_blockhash_gives_the_signed_transaction() {
    let (_, credential) = some_credential();
    let ix = primary_sale_instruction(MINT, &credential.address()).unwrap();
    let blockhash = Blockhash { bytes: [2u8; 32] };
    let tx = sign_for_target(MINT, &ix, &credential, Ok(blockhash)).unwrap();
    assert_eq!(tx, sign_instruction(&ix, &credential, &blockhash).unwrap());
}

#[test]
fn confirmation_passes_the_signature_on() {
    assert_eq!(confirm_for_target("mintA", Ok("5sig".to_string())), Ok("5sig".to_string()));
}

#[test]
fn rejection_fails_the_attempt_with_the_target() {
    let failure = confirm_for_target("mintA", Err("blockhash not found".to_string())).unwrap_err();
    assert_eq!(failure.target, "mintA");
    assert_eq!(failure.reason, "blockhash not found");
}

#[test]
fn metadata_update_lays_out_every_optional_field() {
    let metadata = address_of(&Keypair::new().pubkey());
    let authority = address_of(&Keypair::new().pubkey());
    let heir = Address { bytes: [0xabu8; 32] };
    let ix = metadata_update(&metadata, &authority, Some(heir), Some(false), Some(true));
    let mut expected = vec![15u8, 0, 1];
    expected.extend_from_slice(&[0xab; 32]);
    expected.extend_from_slice(&[1, 0, 1, 1]);
    assert_eq!(ix.data, expected);
    assert_eq!(metadata_update(&metadata, &authority, None, None, None).data, vec![15u8, 0, 0, 0, 0]);
    assert_eq!(metadata_update(&metadata, &authority, None, None, Some(false)).data, vec![15u8, 0, 0, 0, 1, 0]);
}

#[test]
fn metadata_update_is_what_the_program_crate_builds() {
    let metadata = Keypair::new().pubkey();
    let authority = Keypair::new().pubkey();
    let heir = Keypair::new().pubkey();
    let flags = [None, Some(false), Some(true)];
    for new_authority in [None, Some(heir)] {
        for primary_sale_happened in flags {
            for is_mutable in flags {
                let expected = mpl_token_metadata::instruction::update_metadata_accounts_v2(
                    mpl_token_metadata::ID,
                    metadata,
                    authority,
                    new_authority,
                    None,
                    primary_sale_happened,
                    is_mutable,
                );
                let ix = metadata_update(
                    &address_of(&metadata),
                    &address_of(&authority),
                    new_authority.as_ref().map(address_of),
                    primary_sale_happened,
                    is_mutable,
                );
                assert_eq!(ix.program, address_of(&expected.program_id));
                assert_eq!(ix.data, expected.data);
                assert_eq!(
                    ix.accounts,
                    vec![
                        AccountRef { address: address_of(&metadata), is_signer: false, is_writable: true },
                        AccountRef { address: address_of(&authority), is_signer: true, is_writable: false },
                    ]
                );
                assert_eq!(expected.accounts.len(), 2);
                assert!(!expected.accounts[0].is_signer && expected.accounts[0].is_writable);
                assert!(expected.accounts[1].is_signer && !expected.accounts[1].is_writable);
            }
        }
    }
}
