//! Transactions as upstream encodes them, and what decoding yields.

use vstd::prelude::*;

verus! {

/// Why the cluster rejected a transaction. Carried through, never inspected.
#[verifier::external_type_specification]
#[verifier::external_body]
pub struct ExTransactionError(solana_sdk::transaction::TransactionError);

/// The identity of an account or a validator. Carried through, never inspected.
#[verifier::external_type_specification]
#[verifier::external_body]
pub struct ExPubkey(solana_sdk::pubkey::Pubkey);

/// The two text encodings of a transaction's wire bytes.
#[derive(Clone, Copy, Debug, PartialEq, Eq, Structural)]
pub enum BinaryEncoding {
    Base58,
    Base64,
}

/// One instruction of a decoded transaction.
pub struct DecodedInstruction {
    /// The program the instruction is addressed to.
    pub program_id: [u8; 32],
    /// The instruction's payload.
    pub data: Vec<u8>,
}

/// What the library reads of a decoded transaction.
pub struct DecodedTransaction {
    /// The primary signature, as text.
    pub signature: String,
    /// The instructions, in execution order.
    pub instructions: Vec<DecodedInstruction>,
}

/// An instruction as plain values: program id and payload.
pub type InstructionView = (Seq<u8>, Seq<u8>);

impl DecodedInstruction {
    pub open spec fn view(&self) -> InstructionView {
        (self.program_id@, self.data@)
    }
}

impl DecodedTransaction {
    /// The signature text and the instructions as plain values.
    pub open spec fn view(&self) -> (Seq<char>, Seq<InstructionView>) {
        (self.signature@, self.instructions@.map_values(|ix: DecodedInstruction| ix@))
    }
}

/// What `solana_transaction_status::EncodedTransaction::decode` makes of a
/// binary-encoded transaction: `None` where it rejects the text, else the
/// first signature as text and each instruction's program id and payload.
pub uninterp spec fn decoded_transaction(blob: Seq<char>, encoding: BinaryEncoding) -> Option<
    (Seq<char>, Seq<InstructionView>),
>;

/// Decodes a binary-encoded transaction with
/// `solana_transaction_status::EncodedTransaction::decode`.
///
/// Trusted: the result is the named function of the text and its encoding
/// alone. `decode` only returns transactions that pass `sanitize`, which have
/// at least one signature and whose program indices lie within the static
/// account keys, so reading the first signature and each program id cannot
/// fail.
#[verifier::external_body]
pub(crate) fn decode_transaction(blob: &str, encoding: BinaryEncoding) -> (decoded: Option<
    DecodedTransaction,
>)
    ensures
        match decoded {
            Some(tx) => decoded_transaction(blob@, encoding) == Some(tx@),
            None => decoded_transaction(blob@, encoding) is None,
        },
{
    let binary = match encoding {
        BinaryEncoding::Base58 => solana_transaction_status::TransactionBinaryEncoding::Base58,
        BinaryEncoding::Base64 => solana_transaction_status::TransactionBinaryEncoding::Base64,
    };
    let encoded = solana_transaction_status::EncodedTransaction::Binary(blob.to_string(), binary);
    let tx = encoded.decode()?;
    let keys = tx.message.static_account_keys();
    let plain = |ix: &solana_sdk::instruction::CompiledInstruction| DecodedInstruction {
        program_id: ix.program_id(keys).to_bytes(),
        data: ix.data.clone(),
    };
    Some(DecodedTransaction {
        signature: tx.signatures[0].to_string(),
        instructions: tx.message.instructions().iter().map(plain).collect(),
    })
}

} // verus!
