//! The operations that a caller can ask for, and their byte encoding.
//!
//! An instruction is encoded as one tag byte that names the operation,
//! followed by its fields in declaration order: an address as its 32 bytes,
//! an integer as its bytes from the least significant up.

use vstd::prelude::*;
use crate::error::WayfinderError;

verus! {

/// The number that `bytes` spell, least significant byte first.
pub open spec fn le_value(bytes: Seq<u8>) -> nat
    decreases bytes.len(),
{
    if bytes.len() == 0 {
        0
    } else {
        bytes[0] as nat + 256 * le_value(bytes.drop_first())
    }
}

/// The `width` lowest bytes of `value`, least significant byte first.
pub open spec fn le_bytes(value: nat, width: nat) -> Seq<u8>
    decreases width,
{
    if width == 0 {
        Seq::empty()
    } else {
        seq![(value % 256) as u8] + le_bytes(value / 256, (width - 1) as nat)
    }
}

/// The number of values that `width` bytes can spell.
pub open spec fn capacity(width: nat) -> nat
    decreases width,
{
    if width == 0 {
        1
    } else {
        256 * capacity((width - 1) as nat)
    }
}

/// `le_bytes` yields as many bytes as asked for.
pub proof fn lemma_le_bytes_len(value: nat, width: nat)
    ensures
        le_bytes(value, width).len() == width,
    decreases width,
{
    if width > 0 {
        lemma_le_bytes_len(value / 256, (width - 1) as nat);
    }
}

/// Bytes spell a number below the capacity of their count.
pub proof fn lemma_le_value_bound(bytes: Seq<u8>)
    ensures
        le_value(bytes) < capacity(bytes.len()),
    decreases bytes.len(),
{
    if bytes.len() > 0 {
        lemma_le_value_bound(bytes.drop_first());
    }
}

/// Spelling the number that bytes spell gives the bytes back.
pub proof fn lemma_le_bytes_of_value(bytes: Seq<u8>)
    ensures
        le_bytes(le_value(bytes), bytes.len()) == bytes,
    decreases bytes.len(),
{
    if bytes.len() > 0 {
        let rest = bytes.drop_first();
        lemma_le_bytes_of_value(rest);
        let low = bytes[0] as nat;
        let high = le_value(rest);
        assert((low + 256 * high) % 256 == low && (low + 256 * high) / 256 == high) by (nonlinear_arith)
            requires
                low < 256,
        ;
        assert(le_bytes(le_value(bytes), bytes.len()) =~= bytes);
    } else {
        assert(le_bytes(le_value(bytes), bytes.len()) =~= bytes);
    }
}

/// Reading back the bytes of a number that fits gives the number.
pub proof fn lemma_le_value_of_bytes(value: nat, width: nat)
    requires
        value < capacity(width),
    ensures
        le_value(le_bytes(value, width)) == value,
    decreases width,
{
    if width > 0 {
        let rest = le_bytes(value / 256, (width - 1) as nat);
        assert(value / 256 < capacity((width - 1) as nat)) by (nonlinear_arith)
            requires
                value < 256 * capacity((width - 1) as nat),
        ;
        lemma_le_value_of_bytes(value / 256, (width - 1) as nat);
        assert(le_bytes(value, width).drop_first() =~= rest);
        assert(value == value % 256 + 256 * (value / 256)) by (nonlinear_arith);
    }
}

/// How many values one, two and eight bytes can spell.
pub proof fn lemma_capacities()
    ensures
        capacity(0) == 1,
        capacity(1) == 0x100,
        capacity(2) == 0x1_0000,
        capacity(3) == 0x100_0000,
        capacity(4) == 0x1_0000_0000,
        capacity(5) == 0x100_0000_0000,
        capacity(6) == 0x1_0000_0000_0000,
        capacity(7) == 0x100_0000_0000_0000,
        capacity(8) == 0x1_0000_0000_0000_0000,
{
    reveal_with_fuel(capacity, 10);
}

/// One operation of the program with its arguments.
#[derive(Debug, Clone, Copy)]
pub enum WayfinderInstruction {
    /// Initialize a route optimizer state
    InitializeRoute {
        /// Input token mint
        input_mint: [u8; 32],
        /// Output token mint
        output_mint: [u8; 32],
        /// Input amount
        amount_in: u64,
        /// Minimum output amount (slippage protection)
        min_amount_out: u64,
        /// Maximum number of hops
        max_hops: u8,
    },
    /// Find the optimal swap route
    FindOptimalRoute,
    /// Execute the found route
    ExecuteRoute,
    /// Register a liquidity pool for pathfinding
    RegisterPool { token_a_mint: [u8; 32], token_b_mint: [u8; 32], fee_bps: u16 },
}

impl WayfinderInstruction {
    /// The tag byte of the operation.
    pub open spec fn tag(&self) -> u8 {
        match self {
            WayfinderInstruction::InitializeRoute { .. } => 0,
            WayfinderInstruction::FindOptimalRoute => 1,
            WayfinderInstruction::ExecuteRoute => 2,
            WayfinderInstruction::RegisterPool { .. } => 3,
        }
    }

    /// The bytes of the fields, without the tag.
    pub open spec fn payload(&self) -> Seq<u8> {
        match self {
            WayfinderInstruction::InitializeRoute {
                input_mint,
                output_mint,
                amount_in,
                min_amount_out,
                max_hops,
            } => input_mint@ + output_mint@ + le_bytes(*amount_in as nat, 8) + le_bytes(
                *min_amount_out as nat,
                8,
            ) + seq![*max_hops],
            WayfinderInstruction::FindOptimalRoute => Seq::empty(),
            WayfinderInstruction::ExecuteRoute => Seq::empty(),
            WayfinderInstruction::RegisterPool { token_a_mint, token_b_mint, fee_bps } =>
                token_a_mint@ + token_b_mint@ + le_bytes(*fee_bps as nat, 2),
        }
    }

    /// The bytes that stand for the instruction.
    pub open spec fn encoding(&self) -> Seq<u8> {
        seq![self.tag()] + self.payload()
    }

    /// The length of the encoding.
    pub open spec fn encoded_len(&self) -> nat {
        match self {
            WayfinderInstruction::InitializeRoute { .. } => 82,
            WayfinderInstruction::FindOptimalRoute => 1,
            WayfinderInstruction::ExecuteRoute => 1,
            WayfinderInstruction::RegisterPool { .. } => 67,
        }
    }

    /// An encoding starts with the tag and has the length of its operation.
    pub proof fn lemma_encoding_shape(self)
        ensures
            self.encoding().len() == self.encoded_len(),
            self.encoding()[0] == self.tag(),
            self.tag() <= 3,
    {
        match self {
            WayfinderInstruction::InitializeRoute { amount_in, min_amount_out, .. } => {
                lemma_le_bytes_len(amount_in as nat, 8);
                lemma_le_bytes_len(min_amount_out as nat, 8);
            },
            WayfinderInstruction::RegisterPool { fee_bps, .. } => {
                lemma_le_bytes_len(fee_bps as nat, 2);
            },
            _ => {},
        }
    }

    /// Decodes an instruction. Succeeds exactly on the encodings of
    /// instructions, to the last byte: anything shorter, longer, or with an
    /// unknown tag is an invalid instruction.
    pub fn unpack(input: &[u8]) -> (r: Result<WayfinderInstruction, WayfinderError>)
        ensures
            match r {
                Ok(instruction) => instruction.encoding() == input@,
                Err(e) => e == WayfinderError::InvalidInstruction && forall|
                    instruction: WayfinderInstruction,
                | instruction.encoding() != input@,
            },
    {
        if input.len() == 0 {
            assert forall|instruction: WayfinderInstruction| instruction.encoding() != input@ by {
                instruction.lemma_encoding_shape();
            }
            return Err(WayfinderError::InvalidInstruction);
        }
        let tag = input[0];
        let expected: usize = if tag == 0 {
            82
        } else if tag == 1 || tag == 2 {
            1
        } else if tag == 3 {
            67
        } else {
            0
        };
        if input.len() != expected {
            assert forall|instruction: WayfinderInstruction| instruction.encoding() != input@ by {
                instruction.lemma_encoding_shape();
            }
            return Err(WayfinderError::InvalidInstruction);
        }
        if tag == 0 {
            let input_mint = read_key(input, 1);
            let output_mint = read_key(input, 33);
            let amount_in = read_u64(input, 65);
            let min_amount_out = read_u64(input, 73);
            let max_hops = input[81];
            let instruction = WayfinderInstruction::InitializeRoute {
                input_mint,
                output_mint,
                amount_in,
                min_amount_out,
                max_hops,
            };
            proof {
                lemma_le_bytes_of_value(input@.subrange(65, 73));
                lemma_le_bytes_of_value(input@.subrange(73, 81));
                assert(instruction.encoding() =~= input@);
            }
            Ok(instruction)
        } else if tag == 1 {
            assert(WayfinderInstruction::FindOptimalRoute.encoding() =~= input@);
            Ok(WayfinderInstruction::FindOptimalRoute)
        } else if tag == 2 {
            assert(WayfinderInstruction::ExecuteRoute.encoding() =~= input@);
            Ok(WayfinderInstruction::ExecuteRoute)
        } else {
            let token_a_mint = read_key(input, 1);
            let token_b_mint = read_key(input, 33);
            let fee_bps = read_u16(input, 65);
            let instruction = WayfinderInstruction::RegisterPool {
                token_a_mint,
                token_b_mint,
                fee_bps,
            };
            proof {
                lemma_le_bytes_of_value(input@.subrange(65, 67));
                assert(instruction.encoding() =~= input@);
            }
            Ok(instruction)
        }
    }
}

/// Two instructions with the same encoding are the same instruction.
pub proof fn lemma_encoding_injective(a: WayfinderInstruction, b: WayfinderInstruction)
    requires
        a.encoding() == b.encoding(),
    ensures
        a == b,
{
    a.lemma_encoding_shape();
    b.lemma_encoding_shape();
    lemma_capacities();
    let bytes = a.encoding();
    match (a, b) {
        (
            WayfinderInstruction::InitializeRoute {
                input_mint: i1,
                output_mint: o1,
                amount_in: a1,
                min_amount_out: m1,
                max_hops: h1,
            },
            WayfinderInstruction::InitializeRoute {
                input_mint: i2,
                output_mint: o2,
                amount_in: a2,
                min_amount_out: m2,
                max_hops: h2,
            },
        ) => {
            lemma_le_bytes_len(a1 as nat, 8);
            lemma_le_bytes_len(m1 as nat, 8);
            lemma_le_bytes_len(a2 as nat, 8);
            lemma_le_bytes_len(m2 as nat, 8);
            assert(i1@ =~= bytes.subrange(1, 33));
            assert(i2@ =~= bytes.subrange(1, 33));
            assert(o1@ =~= bytes.subrange(33, 65));
            assert(o2@ =~= bytes.subrange(33, 65));
            assert(le_bytes(a1 as nat, 8) =~= bytes.subrange(65, 73));
            assert(le_bytes(a2 as nat, 8) =~= bytes.subrange(65, 73));
            assert(le_bytes(m1 as nat, 8) =~= bytes.subrange(73, 81));
            assert(le_bytes(m2 as nat, 8) =~= bytes.subrange(73, 81));
            lemma_le_value_of_bytes(a1 as nat, 8);
            lemma_le_value_of_bytes(a2 as nat, 8);
            lemma_le_value_of_bytes(m1 as nat, 8);
            lemma_le_value_of_bytes(m2 as nat, 8);
            assert(h1 == bytes[81]);
            assert(h2 == bytes[81]);
            assert(i1 =~= i2);
            assert(o1 =~= o2);
        },
        (
            WayfinderInstruction::RegisterPool { token_a_mint: x1, token_b_mint: y1, fee_bps: f1 },
            WayfinderInstruction::RegisterPool { token_a_mint: x2, token_b_mint: y2, fee_bps: f2 },
        ) => {
            lemma_le_bytes_len(f1 as nat, 2);
            lemma_le_bytes_len(f2 as nat, 2);
            assert(x1@ =~= bytes.subrange(1, 33));
            assert(x2@ =~= bytes.subrange(1, 33));
            assert(y1@ =~= bytes.subrange(33, 65));
            assert(y2@ =~= bytes.subrange(33, 65));
            assert(le_bytes(f1 as nat, 2) =~= bytes.subrange(65, 67));
            assert(le_bytes(f2 as nat, 2) =~= bytes.subrange(65, 67));
            lemma_le_value_of_bytes(f1 as nat, 2);
            lemma_le_value_of_bytes(f2 as nat, 2);
            assert(x1 =~= x2);
            assert(y1 =~= y2);
        },
        _ => {},
    }
}

/// Reads `width` bytes at `at` as a number, least significant byte first.
fn read_le(input: &[u8], at: usize, width: usize) -> (value: u64)
    requires
        width <= 8,
        at + width <= input@.len(),
    ensures
        value == le_value(input@.subrange(at as int, at + width)),
{
    let len = input.len();
    let mut value: u64 = 0;
    let mut i: usize = width;
    while i > 0
        invariant
            0 <= i <= width <= 8,
            at + width <= len == input@.len(),
            value == le_value(input@.subrange(at + i, at + width)),
        decreases i,
    {
        i = i - 1;
        let ghost tail = input@.subrange(at + i + 1, at + width);
        let ghost whole = input@.subrange(at + i, at + width);
        proof {
            lemma_le_value_bound(tail);
            lemma_le_value_bound(whole);
            lemma_capacities();
            assert(whole.drop_first() =~= tail);
            assert(capacity(whole.len()) <= capacity(8)) by {
                reveal_with_fuel(capacity, 10);
            }
        }
        value = value * 256 + input[at + i] as u64;
    }
    value
}

/// Reads the eight bytes at `at` as a number.
fn read_u64(input: &[u8], at: usize) -> (value: u64)
    requires
        at + 8 <= input@.len(),
    ensures
        value == le_value(input@.subrange(at as int, at + 8)),
{
    read_le(input, at, 8)
}

/// Reads the two bytes at `at` as a number.
fn read_u16(input: &[u8], at: usize) -> (value: u16)
    requires
        at + 2 <= input@.len(),
    ensures
        value == le_value(input@.subrange(at as int, at + 2)),
{
    let value = read_le(input, at, 2);
    proof {
        lemma_le_value_bound(input@.subrange(at as int, at + 2));
        lemma_capacities();
    }
    value as u16
}

/// Reads the 32 bytes at `at`.
fn read_key(input: &[u8], at: usize) -> (key: [u8; 32])
    requires
        at + 32 <= input@.len(),
    ensures
        key@ == input@.subrange(at as int, at + 32),
{
    let len = input.len();
    let mut key = [0u8; 32];
    let mut i: usize = 0;
    while i < 32
        invariant
            0 <= i <= 32,
            at + 32 <= len == input@.len(),
            forall|j: int| 0 <= j < i ==> key@[j] == input@[at + j],
        decreases 32 - i,
    {
        key[i] = input[at + i];
        i = i + 1;
    }
    assert(key@ =~= input@.subrange(at as int, at + 32));
    key
}

} // verus!
