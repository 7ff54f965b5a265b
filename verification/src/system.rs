use vstd::prelude::*;
use vstd::arithmetic::power2::pow2;
use crate::keys::Pubkey;

verus! {

/// Lamports in one SOL.
pub const LAMPORTS_PER_SOL: u64 = 1_000_000_000;

/// What the first payment into an empty account adds, so that the account
/// can pay its rent.
pub const BASIC_RENT: u64 = LAMPORTS_PER_SOL / 10000 * 9;

/// One account that an instruction reads or writes.
#[derive(Clone, Copy, Debug, PartialEq, Eq)]
pub struct AccountMeta {
    pub pubkey: Pubkey,
    pub is_signer: bool,
    pub is_writable: bool,
}

/// An instruction for the runtime to execute, as plain values.
#[derive(Clone, Debug, PartialEq, Eq)]
pub struct Instruction {
    pub program_id: Pubkey,
    pub accounts: Vec<AccountMeta>,
    pub data: Vec<u8>,
}

/// What an instruction holds.
pub struct InstructionView {
    pub program_id: Pubkey,
    pub accounts: Seq<AccountMeta>,
    pub data: Seq<u8>,
}

impl View for Instruction {
    type V = InstructionView;

    open spec fn view(&self) -> InstructionView {
        InstructionView { program_id: self.program_id, accounts: self.accounts@, data: self.data@ }
    }
}

/// The address of the system program: 32 zero bytes.
pub open spec fn is_system_program(key: Pubkey) -> bool {
    key@ == Seq::new(32, |i: int| 0u8)
}

/// The eight little-endian bytes of `n`.
pub open spec fn le_bytes(n: u64) -> Seq<u8> {
    Seq::new(8, |i: int| ((n as nat) / pow2((8 * i) as nat) % 256) as u8)
}

/// The system program's instruction that moves `lamports` from `from`, which
/// signs, to `to`; both accounts are written. Its data is the variant tag 2
/// of the system instruction as a 4-byte little-endian number, then the
/// amount as 8 little-endian bytes.
pub open spec fn is_transfer(ix: InstructionView, from: Pubkey, to: Pubkey, lamports: u64) -> bool {
    &&& is_system_program(ix.program_id)
    &&& ix.accounts == seq![
        AccountMeta { pubkey: from, is_signer: true, is_writable: true },
        AccountMeta { pubkey: to, is_signer: false, is_writable: true },
    ]
    &&& ix.data == seq![2u8, 0u8, 0u8, 0u8] + le_bytes(lamports)
}

/// Builds the system transfer instruction with
/// `anchor_lang::solana_program::system_instruction::transfer`, and turns it
/// into plain values. Trusted: the contract restates that function's source
/// (two account metas, the first a signer, both writable; the system program
/// id; the bincode encoding of `SystemInstruction::Transfer { lamports }`).
#[verifier::external_body]
pub(crate) fn system_transfer(from: &Pubkey, to: &Pubkey, lamports: u64) -> (ix: Instruction)
    ensures
        is_transfer(ix@, *from, *to, lamports),
{
    let ix = anchor_lang::solana_program::system_instruction::transfer(
        &anchor_lang::prelude::Pubkey::new_from_array(from.0),
        &anchor_lang::prelude::Pubkey::new_from_array(to.0),
        lamports,
    );
    let accounts = ix.accounts.iter().map(|m| AccountMeta {
        pubkey: Pubkey(m.pubkey.to_bytes()), is_signer: m.is_signer, is_writable: m.is_writable,
    }).collect();
    Instruction { program_id: Pubkey(ix.program_id.to_bytes()), accounts, data: ix.data }
}

} // verus!
