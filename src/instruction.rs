use vstd::prelude::*;
use vstd::bytes::{spec_u32_from_le_bytes, spec_u64_from_le_bytes, u32_from_le_bytes, u64_from_le_bytes};
use vstd::slice::{slice_subrange, slice_to_vec};

use crate::error::PError;
use crate::principal::{read_principal, Principal};

verus! {

/// Tag of `InitStorage`.
pub const TAG_INIT_STORAGE: u8 = 0;

/// Tag of `CreateEntry`.
pub const TAG_CREATE_ENTRY: u8 = 1;

/// Tag of `RequestService`.
pub const TAG_REQUEST_SERVICE: u8 = 2;

/// Tag of `FulfillRequest`.
pub const TAG_FULFILL_REQUEST: u8 = 3;

/// The commands the processor carries out, decoded from their wire form:
/// a tag byte, then the tag's fields in order, fixed-size fields raw and
/// integers little-endian, a payload prefixed by its four-byte length.
#[derive(Debug, Clone)]
pub enum ProgramInstruction {
    /// `[0]`
    InitStorage,
    /// `[1][owner:32][payload length:4][payload]`
    CreateEntry { owner: Principal, model: Vec<u8> },
    /// `[2][provider:32][hours:8][amount paid:8]`
    RequestService { provider: Principal, hours: u64, amount_paid: u64 },
    /// `[3][request index:4]`
    FulfillRequest { request_id: u32 },
}

/// The mathematical value of a `ProgramInstruction`.
pub enum InstructionView {
    InitStorage,
    CreateEntry { owner: Seq<u8>, model: Seq<u8> },
    RequestService { provider: Seq<u8>, hours: u64, amount_paid: u64 },
    FulfillRequest { request_id: u32 },
}

impl View for ProgramInstruction {
    type V = InstructionView;

    open spec fn view(&self) -> InstructionView {
        match self {
            ProgramInstruction::InitStorage => InstructionView::InitStorage,
            ProgramInstruction::CreateEntry { owner, model } => InstructionView::CreateEntry {
                owner: owner@,
                model: model@,
            },
            ProgramInstruction::RequestService { provider, hours, amount_paid } => InstructionView::RequestService {
                provider: provider@,
                hours: *hours,
                amount_paid: *amount_paid,
            },
            ProgramInstruction::FulfillRequest { request_id } => InstructionView::FulfillRequest {
                request_id: *request_id,
            },
        }
    }
}

/// What the command bytes `b` decode to.
pub open spec fn unpack_spec(b: Seq<u8>) -> Result<InstructionView, PError> {
    if b.len() == 0 {
        Err(PError::InvalidInstruction)
    } else if b[0] == TAG_INIT_STORAGE {
        if b.len() == 1 {
            Ok(InstructionView::InitStorage)
        } else {
            Err(PError::MalformedPayload)
        }
    } else if b[0] == TAG_CREATE_ENTRY {
        if b.len() < 37 {
            Err(PError::MalformedPayload)
        } else {
            let n = spec_u32_from_le_bytes(b.subrange(33, 37)) as int;
            if b.len() != 37 + n {
                Err(PError::MalformedPayload)
            } else {
                Ok(InstructionView::CreateEntry { owner: b.subrange(1, 33), model: b.subrange(37, 37 + n) })
            }
        }
    } else if b[0] == TAG_REQUEST_SERVICE {
        if b.len() != 49 {
            Err(PError::MalformedPayload)
        } else {
            Ok(
                InstructionView::RequestService {
                    provider: b.subrange(1, 33),
                    hours: spec_u64_from_le_bytes(b.subrange(33, 41)),
                    amount_paid: spec_u64_from_le_bytes(b.subrange(41, 49)),
                },
            )
        }
    } else if b[0] == TAG_FULFILL_REQUEST {
        if b.len() != 5 {
            Err(PError::MalformedPayload)
        } else {
            Ok(InstructionView::FulfillRequest { request_id: spec_u32_from_le_bytes(b.subrange(1, 5)) })
        }
    } else {
        Err(PError::InvalidInstruction)
    }
}

impl ProgramInstruction {
    /// Decodes command bytes. An empty input or an unknown tag is
    /// `InvalidInstruction`; fields that do not fill the input exactly are
    /// `MalformedPayload`.
    pub fn unpack(input: &[u8]) -> (r: Result<ProgramInstruction, PError>)
        ensures
            match r {
                Ok(c) => unpack_spec(input@) == Ok::<InstructionView, PError>(c@),
                Err(e) => unpack_spec(input@) == Err::<InstructionView, PError>(e),
            },
    {
        let len: usize = input.len();
        if len == 0 {
            return Err(PError::InvalidInstruction);
        }
        let tag: u8 = input[0];
        if tag == TAG_INIT_STORAGE {
            if len == 1 {
                Ok(ProgramInstruction::InitStorage)
            } else {
                Err(PError::MalformedPayload)
            }
        } else if tag == TAG_CREATE_ENTRY {
            if len < 37 {
                return Err(PError::MalformedPayload);
            }
            let n: u32 = u32_from_le_bytes(slice_subrange(input, 33, 37));
            if (len - 37) as u64 != n as u64 {
                return Err(PError::MalformedPayload);
            }
            let owner = read_principal(input, 1);
            let model = slice_to_vec(slice_subrange(input, 37, len));
            Ok(ProgramInstruction::CreateEntry { owner, model })
        } else if tag == TAG_REQUEST_SERVICE {
            if len != 49 {
                return Err(PError::MalformedPayload);
            }
            let provider = read_principal(input, 1);
            let hours: u64 = u64_from_le_bytes(slice_subrange(input, 33, 41));
            let amount_paid: u64 = u64_from_le_bytes(slice_subrange(input, 41, 49));
            Ok(ProgramInstruction::RequestService { provider, hours, amount_paid })
        } else if tag == TAG_FULFILL_REQUEST {
            if len != 5 {
                return Err(PError::MalformedPayload);
            }
            let request_id: u32 = u32_from_le_bytes(slice_subrange(input, 1, 5));
            Ok(ProgramInstruction::FulfillRequest { request_id })
        } else {
            Err(PError::InvalidInstruction)
        }
    }
}

} // verus!
