use vstd::prelude::*;
use vstd::bytes::{spec_u64_to_le_bytes, u64_to_le_bytes};

use crate::address::{address_matches, derive_address, program_address, storage_namespace, storage_namespace_bytes, verify_address};
use crate::codec::{decode_spec, lemma_decoded_valid, record_bytes, Entry, EntryView, Storage, StorageView, CURRENT_SCHEMA_VERSION};
use crate::error::PError;
use crate::instruction::{unpack_spec, InstructionView, ProgramInstruction};
use crate::principal::{principal_eq, Principal};
use crate::reserve::{min_reserve_spec, shortfall_spec, FeeSchedule};
use crate::store::{append_entry, appended, entry_accepted, growth_possible};

verus! {

/// One principal-addressed buffer that the host hands to a command.
#[derive(Debug, Clone)]
pub struct AccountBuffer {
    pub key: Principal,
    pub is_signer: bool,
    pub is_writable: bool,
    /// The buffer's current funding.
    pub lamports: u64,
    pub data: Vec<u8>,
}

/// The mathematical value of an `AccountBuffer`.
pub struct AccountView {
    pub key: Seq<u8>,
    pub is_signer: bool,
    pub is_writable: bool,
    pub lamports: u64,
    pub data: Seq<u8>,
}

impl View for AccountBuffer {
    type V = AccountView;

    open spec fn view(&self) -> AccountView {
        AccountView {
            key: self.key@,
            is_signer: self.is_signer,
            is_writable: self.is_writable,
            lamports: self.lamports,
            data: self.data@,
        }
    }
}

/// The values of a list of buffers.
pub open spec fn accounts_view(v: Seq<AccountBuffer>) -> Seq<AccountView> {
    v.map_values(|a: AccountBuffer| a@)
}

/// What a command that succeeded asks of the host: move `top_up` from the
/// signer (the first buffer) to the record's buffer (the second), then
/// resize the record's buffer to `data`'s length and write `data` into it.
#[derive(Debug, Clone)]
pub struct Update {
    pub top_up: u64,
    pub data: Vec<u8>,
}

/// The mathematical value of an `Update`.
pub struct UpdateView {
    pub top_up: u64,
    pub data: Seq<u8>,
}

impl View for Update {
    type V = UpdateView;

    open spec fn view(&self) -> UpdateView {
        UpdateView { top_up: self.top_up, data: self.data@ }
    }
}

/// Writing `r` into the buffer `storage`: its bytes, and the funding that is
/// missing for a buffer of their size.
pub open spec fn write_spec(fees: FeeSchedule, storage: AccountView, r: StorageView) -> UpdateView {
    UpdateView {
        top_up: shortfall_spec(min_reserve_spec(fees, record_bytes(r).len() as int), storage.lamports as int) as u64,
        data: record_bytes(r),
    }
}

/// Reads the record of `owner` from `storage`, checking first that the
/// buffer sits at the address derived for `owner` and may be written.
pub open spec fn load_spec(program: Seq<u8>, storage: AccountView, owner: Seq<u8>) -> Result<StorageView, PError> {
    if !address_matches(storage.key, storage_namespace(), owner, program) {
        Err(PError::InvalidStorageAddress)
    } else if !storage.is_writable {
        Err(PError::AccountNotWritable)
    } else {
        match decode_spec(storage.data) {
            Some(r) => Ok(r),
            None => Err(PError::InvalidRecordData),
        }
    }
}

/// A fresh, empty record of `authority`.
pub open spec fn fresh_record(authority: Seq<u8>, bump: u8) -> StorageView {
    StorageView {
        initialized: true,
        schema_version: CURRENT_SCHEMA_VERSION,
        authority,
        bump,
        entries: Seq::empty(),
    }
}

/// What `InitStorage` yields.
pub open spec fn init_spec(program: Seq<u8>, accounts: Seq<AccountView>, fees: FeeSchedule) -> Result<UpdateView, PError> {
    if accounts.len() < 2 {
        Err(PError::NotEnoughAccounts)
    } else if !accounts[0].is_signer {
        Err(PError::MissingSignature)
    } else {
        match program_address(storage_namespace(), accounts[0].key, program) {
            None => Err(PError::InvalidStorageAddress),
            Some((a, bump)) => if a != accounts[1].key {
                Err(PError::InvalidStorageAddress)
            } else if !accounts[1].is_writable {
                Err(PError::AccountNotWritable)
            } else {
                match decode_spec(accounts[1].data) {
                    None => Err(PError::InvalidRecordData),
                    Some(r) => if r.initialized {
                        Err(PError::AlreadyInitialized)
                    } else {
                        Ok(write_spec(fees, accounts[1], fresh_record(accounts[0].key, bump)))
                    },
                }
            },
        }
    }
}

/// Appends `e` to `r` and writes the result to `storage`.
pub open spec fn append_spec(fees: FeeSchedule, storage: AccountView, r: StorageView, e: EntryView) -> Result<UpdateView, PError> {
    if !entry_accepted(e) {
        Err(PError::InvalidEntryData)
    } else if !growth_possible(r, record_bytes(r).len() as int, e) {
        Err(PError::ResizeFailed)
    } else {
        Ok(write_spec(fees, storage, appended(r, e)))
    }
}

/// What `CreateEntry` yields: the signer appends to its own record.
pub open spec fn create_entry_spec(
    program: Seq<u8>,
    accounts: Seq<AccountView>,
    owner: Seq<u8>,
    model: Seq<u8>,
    fees: FeeSchedule,
) -> Result<UpdateView, PError> {
    if model.len() == 0 {
        Err(PError::InvalidEntryData)
    } else if accounts.len() < 2 {
        Err(PError::NotEnoughAccounts)
    } else if !accounts[0].is_signer {
        Err(PError::MissingSignature)
    } else {
        match load_spec(program, accounts[1], accounts[0].key) {
            Err(e) => Err(e),
            Ok(r) => if !r.initialized {
                Err(PError::NotInitialized)
            } else if r.authority != accounts[0].key {
                Err(PError::Unauthorized)
            } else {
                append_spec(
                    fees,
                    accounts[1],
                    r,
                    EntryView { owner, storage: accounts[1].key, fulfilled: None, model },
                )
            },
        }
    }
}

/// The payload of a service request: hours, then amount paid, both
/// little-endian.
pub open spec fn request_descriptor(hours: u64, amount_paid: u64) -> Seq<u8> {
    spec_u64_to_le_bytes(hours) + spec_u64_to_le_bytes(amount_paid)
}

/// What `RequestService` yields: the signer appends an open request to the
/// record of `provider`.
pub open spec fn request_spec(
    program: Seq<u8>,
    accounts: Seq<AccountView>,
    provider: Seq<u8>,
    hours: u64,
    amount_paid: u64,
    fees: FeeSchedule,
) -> Result<UpdateView, PError> {
    if accounts.len() < 2 {
        Err(PError::NotEnoughAccounts)
    } else if !accounts[0].is_signer {
        Err(PError::MissingSignature)
    } else {
        match load_spec(program, accounts[1], provider) {
            Err(e) => Err(e),
            Ok(r) => if !r.initialized {
                Err(PError::NotInitialized)
            } else {
                append_spec(
                    fees,
                    accounts[1],
                    r,
                    EntryView {
                        owner: accounts[0].key,
                        storage: accounts[1].key,
                        fulfilled: Some(false),
                        model: request_descriptor(hours, amount_paid),
                    },
                )
            },
        }
    }
}

/// The record with its entry `i` marked fulfilled.
pub open spec fn fulfilled_at(r: StorageView, i: int) -> StorageView {
    StorageView { entries: r.entries.update(i, EntryView { fulfilled: Some(true), ..r.entries[i] }), ..r }
}

/// What `FulfillRequest` yields: the record's authority closes one of its
/// open requests.
pub open spec fn fulfill_spec(program: Seq<u8>, accounts: Seq<AccountView>, request_id: u32, fees: FeeSchedule) -> Result<UpdateView, PError> {
    if accounts.len() < 2 {
        Err(PError::NotEnoughAccounts)
    } else if !accounts[0].is_signer {
        Err(PError::MissingSignature)
    } else {
        match load_spec(program, accounts[1], accounts[0].key) {
            Err(e) => Err(e),
            Ok(r) => if !r.initialized {
                Err(PError::NotInitialized)
            } else if r.authority != accounts[0].key {
                Err(PError::Unauthorized)
            } else if request_id >= r.entries.len() || r.entries[request_id as int].fulfilled is None {
                Err(PError::EntryNotFound)
            } else if r.entries[request_id as int].fulfilled == Some(true) {
                Err(PError::AlreadyFulfilled)
            } else {
                Ok(write_spec(fees, accounts[1], fulfilled_at(r, request_id as int)))
            },
        }
    }
}

/// What a command does to the buffers it names, as an update to apply.
pub open spec fn process_spec(program: Seq<u8>, accounts: Seq<AccountView>, data: Seq<u8>, fees: FeeSchedule) -> Result<UpdateView, PError> {
    match unpack_spec(data) {
        Err(e) => Err(e),
        Ok(InstructionView::InitStorage) => init_spec(program, accounts, fees),
        Ok(InstructionView::CreateEntry { owner, model }) => create_entry_spec(program, accounts, owner, model, fees),
        Ok(InstructionView::RequestService { provider, hours, amount_paid }) => request_spec(
            program,
            accounts,
            provider,
            hours,
            amount_paid,
            fees,
        ),
        Ok(InstructionView::FulfillRequest { request_id }) => fulfill_spec(program, accounts, request_id, fees),
    }
}

/// The value of a command's outcome.
pub open spec fn result_view(r: Result<Update, PError>) -> Result<UpdateView, PError> {
    match r {
        Ok(u) => Ok(u@),
        Err(e) => Err(e),
    }
}

/// Encodes `record` for the buffer `storage`, with the funding it lacks.
fn write_record(fees: &FeeSchedule, storage: &AccountBuffer, record: &Storage) -> (u: Update)
    requires
        crate::codec::record_valid(record@),
    ensures
        u@ == write_spec(*fees, storage@, record@),
{
    let data = record.encode();
    let top_up = fees.shortfall(data.len() as u64, storage.lamports);
    Update { top_up, data }
}

/// Reads the record of `owner` from `storage`.
fn load_record(program_id: &Principal, storage: &AccountBuffer, owner: &Principal) -> (r: Result<Storage, PError>)
    ensures
        match r {
            Ok(s) => load_spec(program_id@, storage@, owner@) == Ok::<StorageView, PError>(s@),
            Err(e) => load_spec(program_id@, storage@, owner@) == Err::<StorageView, PError>(e),
        },
{
    let namespace = storage_namespace_bytes();
    if !verify_address(&storage.key, namespace.as_slice(), owner, program_id) {
        return Err(PError::InvalidStorageAddress);
    }
    if !storage.is_writable {
        return Err(PError::AccountNotWritable);
    }
    Storage::decode(storage.data.as_slice())
}

/// Appends `entry` to `record` and encodes the result for `storage`.
fn append_and_write(fees: &FeeSchedule, storage: &AccountBuffer, record: Storage, entry: Entry) -> (r: Result<Update, PError>)
    requires
        crate::codec::record_valid(record@),
        record@.initialized,
        entry@.owner.len() == 32,
        entry@.storage.len() == 32,
    ensures
        result_view(r) == append_spec(*fees, storage@, record@, entry@),
{
    let mut record = record;
    let ghost old_record = record@;
    let ghost e = entry@;
    let current_size: usize = match record.calculate_len() {
        Some(n) => n,
        None => {
            if entry.model.len() == 0 || entry.model.len() as u64 > u32::MAX as u64 {
                return Err(PError::InvalidEntryData);
            }
            return Err(PError::ResizeFailed);
        },
    };
    match append_entry(&mut record, entry, current_size) {
        Ok(_) => {
            assert(crate::codec::record_valid(record@)) by {
                assert forall|i: int| 0 <= i < record@.entries.len() implies crate::codec::entry_valid(
                    #[trigger] record@.entries[i],
                ) by {
                    if i < old_record.entries.len() {
                        assert(record@.entries[i] == old_record.entries[i]);
                    } else {
                        assert(record@.entries[i] == e);
                    }
                }
            }
            Ok(write_record(fees, storage, &record))
        },
        Err(e) => Err(e),
    }
}

/// Carries out decoded commands against the buffers a host supplies. The
/// first buffer is the signer, who pays any top-up; the second holds the
/// record. Nothing is written here: a command that succeeds yields the
/// `Update` to apply with `commit`.
pub struct Processor;

impl Processor {
    /// Decodes `instruction_data` and runs the command it names.
    pub fn process(
        program_id: &Principal,
        accounts: &Vec<AccountBuffer>,
        instruction_data: &[u8],
        fees: &FeeSchedule,
    ) -> (r: Result<Update, PError>)
        ensures
            result_view(r) == process_spec(program_id@, accounts_view(accounts@), instruction_data@, *fees),
    {
        match ProgramInstruction::unpack(instruction_data) {
            Err(e) => Err(e),
            Ok(ProgramInstruction::InitStorage) => Self::process_init_storage(program_id, accounts, fees),
            Ok(ProgramInstruction::CreateEntry { owner, model }) => Self::process_entry(
                program_id,
                accounts,
                owner,
                model,
                fees,
            ),
            Ok(ProgramInstruction::RequestService { provider, hours, amount_paid }) => request_gpu_service(
                program_id,
                accounts,
                provider,
                hours,
                amount_paid,
                fees,
            ),
            Ok(ProgramInstruction::FulfillRequest { request_id }) => fulfill_request(
                program_id,
                accounts,
                request_id,
                fees,
            ),
        }
    }

    /// Creates the signer's record: it must sit at the address derived for
    /// the signer and not be initialised yet. It starts with no entries and
    /// is funded to the reserve of its size.
    pub fn process_init_storage(program_id: &Principal, accounts: &Vec<AccountBuffer>, fees: &FeeSchedule) -> (r: Result<Update, PError>)
        ensures
            result_view(r) == init_spec(program_id@, accounts_view(accounts@), *fees),
    {
        if accounts.len() < 2 {
            return Err(PError::NotEnoughAccounts);
        }
        let authority = &accounts[0];
        let storage = &accounts[1];
        if !authority.is_signer {
            return Err(PError::MissingSignature);
        }
        let namespace = storage_namespace_bytes();
        let bump: u8 = match derive_address(namespace.as_slice(), &authority.key, program_id) {
            None => {
                return Err(PError::InvalidStorageAddress);
            },
            Some((a, b)) => {
                if !principal_eq(&a, &storage.key) {
                    return Err(PError::InvalidStorageAddress);
                }
                b
            },
        };
        if !storage.is_writable {
            return Err(PError::AccountNotWritable);
        }
        let existing = match Storage::decode(storage.data.as_slice()) {
            Ok(s) => s,
            Err(e) => {
                return Err(e);
            },
        };
        if existing.initialized {
            return Err(PError::AlreadyInitialized);
        }
        let record = Storage {
            initialized: true,
            schema_version: CURRENT_SCHEMA_VERSION,
            authority: authority.key,
            bump,
            entries: Vec::new(),
        };
        assert(record@.entries =~= Seq::<EntryView>::empty());
        Ok(write_record(fees, storage, &record))
    }

    /// Appends an entry with payload `model` on behalf of `owner` to the
    /// signer's own record.
    pub fn process_entry(
        program_id: &Principal,
        accounts: &Vec<AccountBuffer>,
        owner: Principal,
        model: Vec<u8>,
        fees: &FeeSchedule,
    ) -> (r: Result<Update, PError>)
        ensures
            result_view(r) == create_entry_spec(program_id@, accounts_view(accounts@), owner@, model@, *fees),
    {
        if model.len() == 0 {
            return Err(PError::InvalidEntryData);
        }
        if accounts.len() < 2 {
            return Err(PError::NotEnoughAccounts);
        }
        let authority = &accounts[0];
        let storage = &accounts[1];
        if !authority.is_signer {
            return Err(PError::MissingSignature);
        }
        let record = match load_record(program_id, storage, &authority.key) {
            Ok(s) => s,
            Err(e) => {
                return Err(e);
            },
        };
        proof {
            lemma_decoded_valid(storage@.data);
        }
        if !record.initialized {
            return Err(PError::NotInitialized);
        }
        if !principal_eq(&record.authority, &authority.key) {
            return Err(PError::Unauthorized);
        }
        let entry = Entry { owner, storage: storage.key, fulfilled: None, model };
        append_and_write(fees, storage, record, entry)
    }
}

/// Appends a service request by the signer to the record of `provider`; the
/// signer need not be the record's authority.
pub fn request_gpu_service(
    program_id: &Principal,
    accounts: &Vec<AccountBuffer>,
    provider: Principal,
    hours: u64,
    amount_paid: u64,
    fees: &FeeSchedule,
) -> (r: Result<Update, PError>)
    ensures
        result_view(r) == request_spec(program_id@, accounts_view(accounts@), provider@, hours, amount_paid, *fees),
{
    if accounts.len() < 2 {
        return Err(PError::NotEnoughAccounts);
    }
    let requester = &accounts[0];
    let storage = &accounts[1];
    if !requester.is_signer {
        return Err(PError::MissingSignature);
    }
    let record = match load_record(program_id, storage, &provider) {
        Ok(s) => s,
        Err(e) => {
            return Err(e);
        },
    };
    proof {
        lemma_decoded_valid(storage@.data);
    }
    if !record.initialized {
        return Err(PError::NotInitialized);
    }
    let mut model = u64_to_le_bytes(hours);
    let mut amount = u64_to_le_bytes(amount_paid);
    model.append(&mut amount);
    let entry = Entry { owner: requester.key, storage: storage.key, fulfilled: Some(false), model };
    append_and_write(fees, storage, record, entry)
}

/// Marks the open request at index `request_id` of the signer's own record
/// as fulfilled. A second fulfilment of the same request is refused.
pub fn fulfill_request(
    program_id: &Principal,
    accounts: &Vec<AccountBuffer>,
    request_id: u32,
    fees: &FeeSchedule,
) -> (r: Result<Update, PError>)
    ensures
        result_view(r) == fulfill_spec(program_id@, accounts_view(accounts@), request_id, *fees),
{
    if accounts.len() < 2 {
        return Err(PError::NotEnoughAccounts);
    }
    let provider = &accounts[0];
    let storage = &accounts[1];
    if !provider.is_signer {
        return Err(PError::MissingSignature);
    }
    let mut record = match load_record(program_id, storage, &provider.key) {
        Ok(s) => s,
        Err(e) => {
            return Err(e);
        },
    };
    proof {
        lemma_decoded_valid(storage@.data);
    }
    if !record.initialized {
        return Err(PError::NotInitialized);
    }
    if !principal_eq(&record.authority, &provider.key) {
        return Err(PError::Unauthorized);
    }
    let i: usize = request_id as usize;
    if i >= record.entries.len() {
        return Err(PError::EntryNotFound);
    }
    match record.entries[i].fulfilled {
        None => {
            return Err(PError::EntryNotFound);
        },
        Some(true) => {
            return Err(PError::AlreadyFulfilled);
        },
        Some(false) => {},
    }
    let ghost before = record@;
    record.entries[i].fulfilled = Some(true);
    assert(record@.entries =~= before.entries.update(
        i as int,
        EntryView { fulfilled: Some(true), ..before.entries[i as int] },
    ));
    assert(crate::codec::record_valid(record@)) by {
        assert forall|k: int| 0 <= k < record@.entries.len() implies crate::codec::entry_valid(
            #[trigger] record@.entries[k],
        ) by {
            assert(crate::codec::entry_valid(before.entries[k]));
        }
    }
    Ok(write_record(fees, storage, &record))
}

/// Whether the top-up can move: nothing is due, or the signer holds it and the
/// record's funding can take it.
pub open spec fn transfer_possible(accounts: Seq<AccountView>, top_up: u64) -> bool {
    top_up == 0 || (accounts[0].lamports >= top_up && accounts[1].lamports + top_up <= u64::MAX)
}

/// The buffers after `u` was applied: the top-up moved from the signer to
/// the record's buffer, which now holds `u.data`.
pub open spec fn committed(accounts: Seq<AccountView>, u: UpdateView) -> Seq<AccountView> {
    accounts.update(0, AccountView { lamports: (accounts[0].lamports - u.top_up) as u64, ..accounts[0] }).update(
        1,
        AccountView { lamports: (accounts[1].lamports + u.top_up) as u64, data: u.data, ..accounts[1] },
    )
}

/// Applies `update` once the host has tried the top-up transfer. When a
/// top-up was due and the transfer failed, or could not have moved the
/// funds, every buffer is left exactly as it was; otherwise the funds move
/// first, and the record's buffer is then resized to and filled with the
/// new bytes.
pub fn commit(accounts: &mut Vec<AccountBuffer>, update: Update, transfer_succeeded: bool) -> (r: Result<(), PError>)
    requires
        old(accounts).len() >= 2,
    ensures
        (update.top_up > 0 && !transfer_succeeded) || !transfer_possible(accounts_view(old(accounts)@), update.top_up)
            ==> r == Err::<(), PError>(PError::ReserveTransferFailed) && final(accounts)@ == old(accounts)@,
        !((update.top_up > 0 && !transfer_succeeded) || !transfer_possible(accounts_view(old(accounts)@), update.top_up))
            ==> r == Ok::<(), PError>(()) && accounts_view(final(accounts)@) == committed(
            accounts_view(old(accounts)@),
            update@,
        ),
{
    let top_up = update.top_up;
    if top_up > 0 && !transfer_succeeded {
        return Err(PError::ReserveTransferFailed);
    }
    let payer_funds = accounts[0].lamports;
    let record_funds = accounts[1].lamports;
    if top_up > 0 && (payer_funds < top_up || u64::MAX - record_funds < top_up) {
        return Err(PError::ReserveTransferFailed);
    }
    accounts[0].lamports = payer_funds - top_up;
    accounts[1].lamports = record_funds + top_up;
    accounts[1].data = update.data;
    assert(accounts_view(accounts@) =~= committed(accounts_view(old(accounts)@), update@));
    Ok(())
}

/// Fulfilling a request is not idempotent: once a fulfilment has been
/// applied, fulfilling the same request again fails with `AlreadyFulfilled`.
pub proof fn lemma_second_fulfilment_refused(
    program: Seq<u8>,
    accounts: Seq<AccountView>,
    request_id: u32,
    fees: FeeSchedule,
)
    requires
        fulfill_spec(program, accounts, request_id, fees) is Ok,
    ensures
        fulfill_spec(
            program,
            committed(accounts, fulfill_spec(program, accounts, request_id, fees)->Ok_0),
            request_id,
            fees,
        ) == Err::<UpdateView, PError>(PError::AlreadyFulfilled),
{
    let r = decode_spec(accounts[1].data)->Some_0;
    lemma_decoded_valid(accounts[1].data);
    let f = fulfilled_at(r, request_id as int);
    assert(crate::codec::record_valid(f)) by {
        assert forall|k: int| 0 <= k < f.entries.len() implies crate::codec::entry_valid(#[trigger] f.entries[k]) by {
            assert(crate::codec::entry_valid(r.entries[k]));
        }
    }
    crate::codec::lemma_record_round_trip(f, Seq::empty());
    let after = committed(accounts, fulfill_spec(program, accounts, request_id, fees)->Ok_0);
    assert(after[1].data == record_bytes(f));
    assert(after[0].key == accounts[0].key);
    assert(after[1].key == accounts[1].key);
}

} // verus!
