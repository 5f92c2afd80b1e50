//! Compute-budget directives carried by a transaction's instructions.

use solana_sdk::compute_budget::ComputeBudgetInstruction as Instruction;
use vstd::prelude::*;

use crate::scan::{first_some, lemma_first_some_push};

verus! {

/// One instruction addressed to the compute-budget program, decoded.
#[derive(Clone, Copy, Debug, PartialEq, Eq, Structural)]
pub enum ComputeBudgetDirective {
    /// The legacy combined request: a unit limit and a flat additional fee.
    RequestUnitsDeprecated { units: u32, additional_fee: u32 },
    /// A heap region size in bytes.
    RequestHeapFrame(u32),
    /// The compute units the transaction may consume.
    SetComputeUnitLimit(u32),
    /// The price of one compute unit, in micro-lamports.
    SetComputeUnitPrice(u64),
    /// The account data the transaction may load, in bytes.
    SetLoadedAccountsDataSizeLimit(u32),
}

/// The number that four bytes hold, least significant byte first.
pub open spec fn u32_from_le(bytes: Seq<u8>) -> u32
    recommends
        bytes.len() == 4,
{
    (bytes[0] + 0x100 * bytes[1] + 0x1_0000 * bytes[2] + 0x100_0000 * bytes[3]) as u32
}

/// The number that eight bytes hold, least significant byte first.
pub open spec fn u64_from_le(bytes: Seq<u8>) -> u64
    recommends
        bytes.len() == 8,
{
    (u32_from_le(bytes.subrange(0, 4)) + 0x1_0000_0000 * u32_from_le(bytes.subrange(4, 8))) as u64
}

/// The directive that instruction data encodes. The first byte names the
/// kind of directive, the directive's numbers follow least significant byte
/// first, and what comes after them does not count. Data that ends before
/// the last number, or names no kind, encodes none.
pub open spec fn compute_budget_directive(data: Seq<u8>) -> Option<ComputeBudgetDirective> {
    if data.len() >= 9 && data[0] == 0 {
        Some(
            ComputeBudgetDirective::RequestUnitsDeprecated {
                units: u32_from_le(data.subrange(1, 5)),
                additional_fee: u32_from_le(data.subrange(5, 9)),
            },
        )
    } else if data.len() >= 5 && data[0] == 1 {
        Some(ComputeBudgetDirective::RequestHeapFrame(u32_from_le(data.subrange(1, 5))))
    } else if data.len() >= 5 && data[0] == 2 {
        Some(ComputeBudgetDirective::SetComputeUnitLimit(u32_from_le(data.subrange(1, 5))))
    } else if data.len() >= 9 && data[0] == 3 {
        Some(ComputeBudgetDirective::SetComputeUnitPrice(u64_from_le(data.subrange(1, 9))))
    } else if data.len() >= 5 && data[0] == 4 {
        Some(
            ComputeBudgetDirective::SetLoadedAccountsDataSizeLimit(
                u32_from_le(data.subrange(1, 5)),
            ),
        )
    } else {
        None
    }
}

impl ComputeBudgetDirective {
    /// Decodes instruction data with
    /// `solana_sdk::borsh::try_from_slice_unchecked::<ComputeBudgetInstruction>`.
    ///
    /// Trusted: the call reads one byte for the variant, taken by its position
    /// in `ComputeBudgetInstruction`, then each field as a little-endian
    /// integer in the order of declaration, and leaves the rest of the slice
    /// unread; where the slice ends too early or the byte names no variant it
    /// reports an error and does not panic. An error becomes `None`, and each
    /// variant is copied field by field.
    #[verifier::external_body]
    pub(crate) fn parse(data: &[u8]) -> (directive: Option<ComputeBudgetDirective>)
        ensures
            directive == compute_budget_directive(data@),
    {
        let parsed = solana_sdk::borsh::try_from_slice_unchecked::<Instruction>(data);
        Some(match parsed.ok()? {
            Instruction::RequestUnitsDeprecated { units, additional_fee } => {
                Self::RequestUnitsDeprecated { units, additional_fee }
            },
            Instruction::RequestHeapFrame(bytes) => Self::RequestHeapFrame(bytes),
            Instruction::SetComputeUnitLimit(units) => Self::SetComputeUnitLimit(units),
            Instruction::SetComputeUnitPrice(price) => Self::SetComputeUnitPrice(price),
            Instruction::SetLoadedAccountsDataSizeLimit(bytes) => {
                Self::SetLoadedAccountsDataSizeLimit(bytes)
            },
        })
    }
}

/// The address of the compute-budget program
/// (`ComputeBudget111111111111111111111111111111`).
pub const COMPUTE_BUDGET_PROGRAM_ID: [u8; 32] = [
    3, 6, 70, 111, 229, 33, 23, 50, 255, 236, 173, 186, 114, 195, 155, 231,
    188, 140, 229, 187, 197, 247, 18, 107, 44, 67, 155, 58, 64, 0, 0, 0,
];

/// What a transaction asks of the compute budget.
#[derive(Clone, Copy, Debug, PartialEq, Eq, Structural)]
pub struct ComputeBudgetRequest {
    /// The compute units requested.
    pub cu_requested: Option<u32>,
    /// The price offered per compute unit, in micro-lamports.
    pub prioritization_fees: Option<u64>,
}

/// The legacy request a directive carries: its units and its additional fee.
pub open spec fn legacy_request(d: Option<ComputeBudgetDirective>) -> Option<(u32, u32)> {
    match d {
        Some(ComputeBudgetDirective::RequestUnitsDeprecated { units, additional_fee }) => Some(
            (units, additional_fee),
        ),
        _ => None,
    }
}

/// The unit limit a directive sets.
pub open spec fn unit_limit(d: Option<ComputeBudgetDirective>) -> Option<u32> {
    match d {
        Some(ComputeBudgetDirective::SetComputeUnitLimit(limit)) => Some(limit),
        _ => None,
    }
}

/// The unit price a directive sets.
pub open spec fn unit_price(d: Option<ComputeBudgetDirective>) -> Option<u64> {
    match d {
        Some(ComputeBudgetDirective::SetComputeUnitPrice(price)) => Some(price),
        _ => None,
    }
}

/// The per-unit price that stands for a legacy flat fee.
pub open spec fn legacy_price(units: u32, additional_fee: u32) -> int {
    (units * 1000) / (additional_fee as int)
}

/// What the directives of one transaction, in instruction order, ask for.
///
/// The first unit limit and the first unit price count. A legacy request,
/// where there is one, overrides the limit, and overrides the price too when
/// its additional fee is not zero.
pub open spec fn budget_of(ds: Seq<Option<ComputeBudgetDirective>>) -> ComputeBudgetRequest {
    let limit = first_some(ds.map_values(|d| unit_limit(d)));
    let price = first_some(ds.map_values(|d| unit_price(d)));
    match first_some(ds.map_values(|d| legacy_request(d))) {
        Some((units, additional_fee)) => ComputeBudgetRequest {
            cu_requested: Some(units),
            prioritization_fees: if additional_fee > 0 {
                Some(legacy_price(units, additional_fee) as u64)
            } else {
                price
            },
        },
        None => ComputeBudgetRequest { cu_requested: limit, prioritization_fees: price },
    }
}

/// The legacy price of any request fits in sixty-four bits.
pub proof fn lemma_legacy_price_fits(units: u32, additional_fee: u32)
    requires
        additional_fee > 0,
    ensures
        0 <= legacy_price(units, additional_fee) <= units * 1000 <= u64::MAX,
{
    let n: int = units * 1000;
    let d: int = additional_fee as int;
    assert(0 <= n / d <= n) by (nonlinear_arith)
        requires
            0 <= n,
            d >= 1,
    ;
}

/// Sums up what a transaction's directives ask for.
pub fn compute_budget_request(directives: &Vec<Option<ComputeBudgetDirective>>) -> (request:
    ComputeBudgetRequest)
    ensures
        request == budget_of(directives@),
{
    let mut legacy: Option<(u32, u32)> = None;
    let mut limit: Option<u32> = None;
    let mut price: Option<u64> = None;
    let ghost ds = directives@;
    let mut i: usize = 0;
    while i < directives.len()
        invariant
            i <= directives.len(),
            ds == directives@,
            legacy == first_some(ds.take(i as int).map_values(|d| legacy_request(d))),
            limit == first_some(ds.take(i as int).map_values(|d| unit_limit(d))),
            price == first_some(ds.take(i as int).map_values(|d| unit_price(d))),
        decreases directives.len() - i,
    {
        let d = directives[i];
        proof {
            let prefix = ds.take(i as int);
            assert(ds.take(i + 1) =~= prefix.push(ds[i as int]));
            assert(prefix.push(ds[i as int]).map_values(|d| legacy_request(d))
                =~= prefix.map_values(|d| legacy_request(d)).push(legacy_request(ds[i as int])));
            assert(prefix.push(ds[i as int]).map_values(|d| unit_limit(d)) =~= prefix.map_values(
                |d| unit_limit(d),
            ).push(unit_limit(ds[i as int])));
            assert(prefix.push(ds[i as int]).map_values(|d| unit_price(d)) =~= prefix.map_values(
                |d| unit_price(d),
            ).push(unit_price(ds[i as int])));
            lemma_first_some_push(
                prefix.map_values(|d| legacy_request(d)),
                legacy_request(ds[i as int]),
            );
            lemma_first_some_push(prefix.map_values(|d| unit_limit(d)), unit_limit(ds[i as int]));
            lemma_first_some_push(prefix.map_values(|d| unit_price(d)), unit_price(ds[i as int]));
        }
        match d {
            Some(ComputeBudgetDirective::RequestUnitsDeprecated { units, additional_fee }) => {
                if legacy.is_none() {
                    legacy = Some((units, additional_fee));
                }
            },
            Some(ComputeBudgetDirective::SetComputeUnitLimit(l)) => {
                if limit.is_none() {
                    limit = Some(l);
                }
            },
            Some(ComputeBudgetDirective::SetComputeUnitPrice(p)) => {
                if price.is_none() {
                    price = Some(p);
                }
            },
            _ => {},
        }
        i += 1;
    }
    assert(ds.take(i as int) =~= ds);
    match legacy {
        Some((units, additional_fee)) => {
            if additional_fee > 0 {
                proof {
                    lemma_legacy_price_fits(units, additional_fee);
                }
                let normalized: u64 = (units as u64 * 1000) / (additional_fee as u64);
                ComputeBudgetRequest {
                    cu_requested: Some(units),
                    prioritization_fees: Some(normalized),
                }
            } else {
                ComputeBudgetRequest { cu_requested: Some(units), prioritization_fees: price }
            }
        },
        None => ComputeBudgetRequest { cu_requested: limit, prioritization_fees: price },
    }
}

} // verus!
