use gpu_storage::address::{derive_address, verify_address};
use gpu_storage::codec::{Entry, Storage, CURRENT_SCHEMA_VERSION};
use gpu_storage::error::PError;
use gpu_storage::instruction::ProgramInstruction;
use gpu_storage::processor::{commit, AccountBuffer, Processor};
use gpu_storage::reserve::FeeSchedule;
use gpu_storage::store::append_entry;

const NAMESPACE: &[u8] = b"Storage";

fn fees() -> FeeSchedule {
    FeeSchedule { lamports_per_byte_year: 3480, exemption_years: 2 }
}

fn program() -> [u8; 32] {
    [7u8; 32]
}

fn owner_a() -> [u8; 32] {
    [1u8; 32]
}

fn owner_b() -> [u8; 32] {
    [2u8; 32]
}

fn storage_key(owner: &[u8; 32]) -> [u8; 32] {
    derive_address(NAMESPACE, owner, &program()).unwrap().0
}

fn buffer(key: [u8; 32], is_signer: bool, lamports: u64, data: Vec<u8>) -> AccountBuffer {
    AccountBuffer { key, is_signer, is_writable: true, lamports, data }
}

fn fresh_accounts(owner: [u8; 32]) -> Vec<AccountBuffer> {
    vec![buffer(owner, true, 10_000_000, Vec::new()), buffer(storage_key(&owner), false, 0, Vec::new())]
}

fn run(accounts: &mut Vec<AccountBuffer>, data: &[u8]) -> Result<(), PError> {
    let update = Processor::process(&program(), accounts, data, &fees())?;
    commit(accounts, update, true)
}

fn create_entry_bytes(owner: &[u8; 32], model: &[u8]) -> Vec<u8> {
    let mut v = vec![1u8];
    v.extend_from_slice(owner);
    v.extend_from_slice(&(model.len() as u32).to_le_bytes());
    v.extend_from_slice(model);
    v
}

fn request_bytes(provider: &[u8; 32], hours: u64, amount: u64) -> Vec<u8> {
    let mut v = vec![2u8];
    v.extend_from_slice(provider);
    v.extend_from_slice(&hours.to_le_bytes());
    v.extend_from_slice(&amount.to_le_bytes());
    v
}

fn fulfill_bytes(id: u32) -> Vec<u8> {
    let mut v = vec![3u8];
    v.extend_from_slice(&id.to_le_bytes());
    v
}

fn initialized_accounts(owner: [u8; 32]) -> Vec<AccountBuffer> {
    let mut accounts = fresh_accounts(owner);
    run(&mut accounts, &[0u8]).unwrap();
    accounts
}

fn entry(owner: [u8; 32], model: &[u8]) -> Entry {
    Entry { owner, storage: [9u8; 32], fulfilled: None, model: model.to_vec() }
}

#[test]
fn derived_address_verifies_for_its_owner_only() {
    let (addr, _bump) = derive_address(NAMESPACE, &owner_a(), &program()).unwrap();
    assert_ne!(addr, owner_a());
    assert!(verify_address(&addr, NAMESPACE, &owner_a(), &program()));
    assert!(!verify_address(&addr, NAMESPACE, &owner_b(), &program()));
    assert!(!verify_address(&addr, b"storagePool", &owner_a(), &program()));
}

#[test]
fn derivation_is_deterministic() {
    assert_eq!(
        derive_address(NAMESPACE, &owner_a(), &program()),
        derive_address(NAMESPACE, &owner_a(), &program())
    );
    assert_ne!(storage_key(&owner_a()), storage_key(&owner_b()));
}

#[test]
fn overlong_namespace_has_no_address() {
    assert_eq!(derive_address(&[65u8; 33], &owner_a(), &program()), None);
}

#[test]
fn record_round_trips_through_its_encoding() {
    let record = Storage {
        initialized: true,
        schema_version: CURRENT_SCHEMA_VERSION,
        authority: owner_a(),
        bump: 254,
        entries: vec![
            entry(owner_a(), b"model-x"),
            Entry { owner: owner_b(), storage: [3u8; 32], fulfilled: Some(false), model: vec![5u8; 16] },
            Entry { owner: owner_b(), storage: [3u8; 32], fulfilled: Some(true), model: b"z".to_vec() },
        ],
    };
    let bytes = record.encode();
    assert_eq!(bytes.len(), 39 + 76 + 85 + 70);
    assert_eq!(bytes[0], 1);
    assert_eq!(bytes[1], CURRENT_SCHEMA_VERSION);
    assert_eq!(&bytes[2..34], &owner_a()[..]);
    assert_eq!(bytes[34], 254);
    assert_eq!(&bytes[35..39], &3u32.to_le_bytes()[..]);
    let back = Storage::decode(&bytes).unwrap();
    assert_eq!(back.encode(), bytes);
    assert_eq!(back.entries.len(), 3);
    assert_eq!(back.entries[1].fulfilled, Some(false));
    assert_eq!(back.entries[2].model, b"z".to_vec());
}

#[test]
fn empty_and_zero_buffers_decode_as_uninitialized() {
    let empty = Storage::decode(&[]).unwrap();
    assert!(!empty.initialized);
    assert!(empty.entries.is_empty());
    let zeros = Storage::decode(&[0u8; 64]).unwrap();
    assert!(!zeros.initialized);
    assert_eq!(zeros.authority, [0u8; 32]);
    assert!(zeros.entries.is_empty());
}

#[test]
fn truncated_record_is_rejected() {
    let record = Storage {
        initialized: true,
        schema_version: CURRENT_SCHEMA_VERSION,
        authority: owner_a(),
        bump: 1,
        entries: vec![entry(owner_a(), b"model-x")],
    };
    let bytes = record.encode();
    assert_eq!(Storage::decode(&bytes[..bytes.len() - 1]).unwrap_err(), PError::InvalidRecordData);
    assert_eq!(Storage::decode(&[2u8; 40]).unwrap_err(), PError::InvalidRecordData);
}

#[test]
fn future_schema_version_is_migrated() {
    let mut bytes = vec![1u8, 9u8];
    bytes.extend_from_slice(&owner_a());
    bytes.push(253);
    bytes.extend_from_slice(&[0xAB; 20]);
    let record = Storage::decode(&bytes).unwrap();
    assert!(record.initialized);
    assert_eq!(record.schema_version, CURRENT_SCHEMA_VERSION);
    assert_eq!(record.authority, owner_a());
    assert_eq!(record.bump, 253);
    assert!(record.entries.is_empty());
    assert_eq!(record.encode()[1], CURRENT_SCHEMA_VERSION);
}

#[test]
fn appends_keep_insertion_order() {
    let mut record = Storage::blank();
    record.initialized = true;
    let mut size = record.encode().len();
    let payloads: [&[u8]; 3] = [b"a-much-longer-model-name", b"b", b"mid-size"];
    for p in payloads.iter() {
        size = append_entry(&mut record, entry(owner_a(), p), size).unwrap();
        assert_eq!(size, record.encode().len());
    }
    let models: Vec<Vec<u8>> = record.entries.iter().map(|e| e.model.clone()).collect();
    assert_eq!(models, vec![payloads[0].to_vec(), payloads[1].to_vec(), payloads[2].to_vec()]);
}

#[test]
fn append_rejects_empty_payload() {
    let mut record = Storage::blank();
    let size = record.encode().len();
    assert_eq!(append_entry(&mut record, entry(owner_a(), b""), size), Err(PError::InvalidEntryData));
    assert!(record.entries.is_empty());
}

#[test]
fn entry_length_counts_payload() {
    assert_eq!(Entry::calculate_len(b"model-x"), 76);
    assert_eq!(Entry::calculate_len(b""), 69);
}

#[test]
fn min_reserve_values_and_monotonicity() {
    let f = fees();
    assert_eq!(f.min_reserve(0), 128 * 3480 * 2);
    assert_eq!(f.min_reserve(39), 1_162_320);
    assert!(f.min_reserve(39) <= f.min_reserve(115));
    assert_eq!(f.min_reserve(u64::MAX), u64::MAX);
    let free = FeeSchedule { lamports_per_byte_year: 0, exemption_years: 2 };
    assert_eq!(free.min_reserve(u64::MAX), 0);
    assert_eq!(f.shortfall(39, 1_000_000), 162_320);
    assert_eq!(f.shortfall(39, 2_000_000), 0);
}

#[test]
fn unpack_decodes_each_command() {
    assert!(matches!(ProgramInstruction::unpack(&[0u8]), Ok(ProgramInstruction::InitStorage)));
    match ProgramInstruction::unpack(&create_entry_bytes(&owner_a(), b"model-x")).unwrap() {
        ProgramInstruction::CreateEntry { owner, model } => {
            assert_eq!(owner, owner_a());
            assert_eq!(model, b"model-x".to_vec());
        }
        other => panic!("unexpected {:?}", other),
    }
    match ProgramInstruction::unpack(&request_bytes(&owner_b(), 5, 900)).unwrap() {
        ProgramInstruction::RequestService { provider, hours, amount_paid } => {
            assert_eq!(provider, owner_b());
            assert_eq!(hours, 5);
            assert_eq!(amount_paid, 900);
        }
        other => panic!("unexpected {:?}", other),
    }
    assert!(matches!(
        ProgramInstruction::unpack(&fulfill_bytes(4)),
        Ok(ProgramInstruction::FulfillRequest { request_id: 4 })
    ));
}

#[test]
fn create_entry_wire_form_matches_borsh() {
    let fields = (owner_a(), String::from("model-x"));
    let mut expected = vec![1u8];
    expected.extend_from_slice(&borsh::to_vec(&fields).unwrap());
    assert_eq!(create_entry_bytes(&owner_a(), b"model-x"), expected);
    assert!(ProgramInstruction::unpack(&expected).is_ok());
}

#[test]
fn unpack_rejects_bad_commands() {
    assert_eq!(ProgramInstruction::unpack(&[]).unwrap_err(), PError::InvalidInstruction);
    assert_eq!(ProgramInstruction::unpack(&[9u8]).unwrap_err(), PError::InvalidInstruction);
    assert_eq!(ProgramInstruction::unpack(&[0u8, 0u8]).unwrap_err(), PError::MalformedPayload);
    let mut long = create_entry_bytes(&owner_a(), b"model-x");
    long.push(0);
    assert_eq!(ProgramInstruction::unpack(&long).unwrap_err(), PError::MalformedPayload);
    let short = create_entry_bytes(&owner_a(), b"model-x");
    assert_eq!(ProgramInstruction::unpack(&short[..short.len() - 1]).unwrap_err(), PError::MalformedPayload);
    assert_eq!(ProgramInstruction::unpack(&[1u8; 20]).unwrap_err(), PError::MalformedPayload);
    assert_eq!(ProgramInstruction::unpack(&[2u8; 48]).unwrap_err(), PError::MalformedPayload);
    assert_eq!(ProgramInstruction::unpack(&[3u8, 0, 0]).unwrap_err(), PError::MalformedPayload);
}

#[test]
fn init_storage_creates_funded_empty_record() {
    let accounts = initialized_accounts(owner_a());
    let record = Storage::decode(&accounts[1].data).unwrap();
    assert!(record.initialized);
    assert_eq!(record.authority, owner_a());
    assert!(record.entries.is_empty());
    assert_eq!(record.bump, derive_address(NAMESPACE, &owner_a(), &program()).unwrap().1);
    assert_eq!(accounts[1].data.len(), 39);
    assert_eq!(accounts[1].lamports, fees().min_reserve(39));
    assert_eq!(accounts[0].lamports, 10_000_000 - fees().min_reserve(39));
}

#[test]
fn init_storage_twice_is_refused() {
    let mut accounts = initialized_accounts(owner_a());
    assert_eq!(run(&mut accounts, &[0u8]), Err(PError::AlreadyInitialized));
}

#[test]
fn init_storage_needs_signature_and_derived_address() {
    let mut unsigned = fresh_accounts(owner_a());
    unsigned[0].is_signer = false;
    assert_eq!(run(&mut unsigned, &[0u8]), Err(PError::MissingSignature));
    let mut wrong = fresh_accounts(owner_a());
    wrong[1].key = storage_key(&owner_b());
    assert_eq!(run(&mut wrong, &[0u8]), Err(PError::InvalidStorageAddress));
    let mut read_only = fresh_accounts(owner_a());
    read_only[1].is_writable = false;
    assert_eq!(run(&mut read_only, &[0u8]), Err(PError::AccountNotWritable));
    let mut missing = fresh_accounts(owner_a());
    missing.pop();
    assert_eq!(run(&mut missing, &[0u8]), Err(PError::NotEnoughAccounts));
}

#[test]
fn create_entry_appends_and_resizes() {
    let mut accounts = initialized_accounts(owner_a());
    run(&mut accounts, &create_entry_bytes(&owner_a(), b"model-x")).unwrap();
    let record = Storage::decode(&accounts[1].data).unwrap();
    assert_eq!(record.entries.len(), 1);
    assert_eq!(record.entries[0].owner, owner_a());
    assert_eq!(record.entries[0].storage, storage_key(&owner_a()));
    assert_eq!(record.entries[0].model, b"model-x".to_vec());
    assert_eq!(record.entries[0].fulfilled, None);
    assert_eq!(accounts[1].data.len(), 39 + Entry::calculate_len(b"model-x"));
    assert_eq!(accounts[1].lamports, fees().min_reserve(115));
}

#[test]
fn create_entry_with_empty_payload_changes_nothing() {
    let mut accounts = initialized_accounts(owner_a());
    let before = accounts[1].data.clone();
    assert_eq!(run(&mut accounts, &create_entry_bytes(&owner_a(), b"")), Err(PError::InvalidEntryData));
    assert_eq!(accounts[1].data, before);
}

#[test]
fn create_entry_checks_state_and_authority() {
    let mut fresh = fresh_accounts(owner_a());
    assert_eq!(run(&mut fresh, &create_entry_bytes(&owner_a(), b"m")), Err(PError::NotInitialized));
    let mut other = initialized_accounts(owner_a());
    other[0].key = owner_b();
    assert_eq!(run(&mut other, &create_entry_bytes(&owner_a(), b"m")), Err(PError::InvalidStorageAddress));
    let mut garbage = initialized_accounts(owner_a());
    garbage[1].data = vec![7u8; 10];
    assert_eq!(run(&mut garbage, &create_entry_bytes(&owner_a(), b"m")), Err(PError::InvalidRecordData));
}

#[test]
fn failed_transfer_leaves_buffers_unchanged() {
    let mut accounts = initialized_accounts(owner_a());
    let before_data = accounts[1].data.clone();
    let before_funds = (accounts[0].lamports, accounts[1].lamports);
    let update = Processor::process(&program(), &accounts, &create_entry_bytes(&owner_a(), b"model-x"), &fees()).unwrap();
    assert!(update.top_up > 0);
    assert_eq!(commit(&mut accounts, update, false), Err(PError::ReserveTransferFailed));
    assert_eq!(accounts[1].data, before_data);
    assert_eq!((accounts[0].lamports, accounts[1].lamports), before_funds);
}

#[test]
fn unaffordable_transfer_leaves_buffers_unchanged() {
    let mut accounts = initialized_accounts(owner_a());
    accounts[0].lamports = 1;
    let before_data = accounts[1].data.clone();
    let update = Processor::process(&program(), &accounts, &create_entry_bytes(&owner_a(), b"model-x"), &fees()).unwrap();
    assert_eq!(commit(&mut accounts, update, true), Err(PError::ReserveTransferFailed));
    assert_eq!(accounts[1].data, before_data);
    assert_eq!(accounts[0].lamports, 1);
}

#[test]
fn request_then_fulfil_twice() {
    let mut accounts = initialized_accounts(owner_a());
    let requester = vec![buffer(owner_b(), true, 10_000_000, Vec::new()), accounts[1].clone()];
    let mut requester = requester;
    run(&mut requester, &request_bytes(&owner_a(), 3, 1500)).unwrap();
    let record = Storage::decode(&requester[1].data).unwrap();
    assert_eq!(record.entries.len(), 1);
    assert_eq!(record.entries[0].owner, owner_b());
    assert_eq!(record.entries[0].fulfilled, Some(false));
    let mut descriptor = 3u64.to_le_bytes().to_vec();
    descriptor.extend_from_slice(&1500u64.to_le_bytes());
    assert_eq!(record.entries[0].model, descriptor);

    accounts[1] = requester[1].clone();
    assert_eq!(run(&mut accounts, &fulfill_bytes(0)), Ok(()));
    let record = Storage::decode(&accounts[1].data).unwrap();
    assert_eq!(record.entries[0].fulfilled, Some(true));
    assert_eq!(run(&mut accounts, &fulfill_bytes(0)), Err(PError::AlreadyFulfilled));
}

#[test]
fn fulfil_checks_entry_and_authority() {
    let mut accounts = initialized_accounts(owner_a());
    run(&mut accounts, &create_entry_bytes(&owner_a(), b"plain")).unwrap();
    assert_eq!(run(&mut accounts, &fulfill_bytes(0)), Err(PError::EntryNotFound));
    assert_eq!(run(&mut accounts, &fulfill_bytes(5)), Err(PError::EntryNotFound));
    let mut requester = vec![buffer(owner_b(), true, 10_000_000, Vec::new()), accounts[1].clone()];
    assert_eq!(run(&mut requester, &fulfill_bytes(0)), Err(PError::InvalidStorageAddress));
}

#[test]
fn request_needs_initialized_provider_record() {
    let mut accounts = vec![buffer(owner_b(), true, 10_000_000, Vec::new()), buffer(storage_key(&owner_a()), false, 0, Vec::new())];
    assert_eq!(run(&mut accounts, &request_bytes(&owner_a(), 1, 1)), Err(PError::NotInitialized));
    accounts[0].is_signer = false;
    assert_eq!(run(&mut accounts, &request_bytes(&owner_a(), 1, 1)), Err(PError::MissingSignature));
}

#[test]
fn migrated_record_takes_new_entries() {
    let mut accounts = fresh_accounts(owner_a());
    let mut old = vec![1u8, 0u8];
    old.extend_from_slice(&owner_a());
    old.push(255);
    old.extend_from_slice(&[1u8; 8]);
    accounts[1].data = old;
    run(&mut accounts, &create_entry_bytes(&owner_a(), b"m2")).unwrap();
    let record = Storage::decode(&accounts[1].data).unwrap();
    assert_eq!(record.schema_version, CURRENT_SCHEMA_VERSION);
    assert_eq!(record.entries.len(), 1);
    assert_eq!(accounts[1].data[1], CURRENT_SCHEMA_VERSION);
}

#[test]
fn record_length_matches_encoding() {
    assert_eq!(Storage::blank().calculate_len(), Some(39));
    let record = Storage {
        initialized: true,
        schema_version: CURRENT_SCHEMA_VERSION,
        authority: owner_a(),
        bump: 3,
        entries: vec![entry(owner_a(), b"model-x"), entry(owner_b(), b"abc")],
    };
    assert_eq!(record.calculate_len(), Some(39 + 76 + 72));
    assert_eq!(record.calculate_len(), Some(record.encode().len()));
}
