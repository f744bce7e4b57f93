use vstd::prelude::*;

verus! {

/// Number of chunks an instruction lookup index is split into.
pub const D: usize = 4;

/// Number of bits in one chunk of an instruction lookup index.
pub const LOG_K_CHUNK: usize = 16;

/// Number of values one chunk of an instruction lookup index can take.
pub const K_CHUNK: usize = 65536;

/// What a cycle did to memory.
#[derive(Clone, Copy, Debug, PartialEq, Eq, Structural)]
pub enum RamAccess {
    /// A load of `value` from `address`.
    Read { address: u64, value: u64 },
    /// A store to `address` that replaced `pre_value` by `post_value`.
    Write { address: u64, pre_value: u64, post_value: u64 },
    /// No memory access.
    NoOp,
}

/// The circuit flags of a cycle's instruction that witness generation reads.
#[derive(Clone, Copy, Debug, PartialEq, Eq, Structural)]
pub struct CycleFlags {
    /// The instruction is a jump.
    pub jump: bool,
    /// The instruction is a branch.
    pub branch: bool,
    /// The instruction writes its lookup output to the destination register.
    pub write_lookup_output_to_rd: bool,
    /// The instruction is the no-op padding instruction.
    pub is_noop: bool,
}

/// One cycle of an execution trace, as the values that witness generation reads.
#[derive(Clone, Copy, Debug, PartialEq, Eq, Structural)]
pub struct CycleRecord {
    /// First instruction input (rs1 value or program counter).
    pub left_input: u64,
    /// Second instruction input (rs2 value or immediate).
    pub right_input: i64,
    /// Output of the instruction's lookup.
    pub lookup_output: u64,
    /// Index of the instruction's lookup.
    pub lookup_index: u64,
    /// Circuit flags of the instruction.
    pub flags: CycleFlags,
    /// Destination register written by the cycle.
    pub rd: usize,
    /// Value of the destination register before the cycle.
    pub rd_pre_value: u64,
    /// Value of the destination register after the cycle.
    pub rd_post_value: u64,
    /// The cycle's memory access.
    pub ram_access: RamAccess,
    /// Row of the cycle's instruction in the preprocessed bytecode.
    pub bytecode_index: usize,
    /// The cycle's memory address, remapped into the RAM witness domain.
    pub remapped_ram_address: u64,
}

impl CycleRecord {
    /// The no-op cycle that pads a trace.
    pub open spec fn spec_no_op() -> CycleRecord {
        CycleRecord {
            left_input: 0,
            right_input: 0,
            lookup_output: 0,
            lookup_index: 0,
            flags: CycleFlags {
                jump: false,
                branch: false,
                write_lookup_output_to_rd: false,
                is_noop: true,
            },
            rd: 0,
            rd_pre_value: 0,
            rd_post_value: 0,
            ram_access: RamAccess::NoOp,
            bytecode_index: 0,
            remapped_ram_address: 0,
        }
    }

    /// The no-op cycle that pads a trace.
    pub fn no_op() -> (r: CycleRecord)
        ensures
            r == Self::spec_no_op(),
    {
        CycleRecord {
            left_input: 0,
            right_input: 0,
            lookup_output: 0,
            lookup_index: 0,
            flags: CycleFlags {
                jump: false,
                branch: false,
                write_lookup_output_to_rd: false,
                is_noop: true,
            },
            rd: 0,
            rd_pre_value: 0,
            rd_post_value: 0,
            ram_access: RamAccess::NoOp,
            bytecode_index: 0,
            remapped_ram_address: 0,
        }
    }
}

/// The `i`-th chunk of a lookup index, most significant chunk first.
pub open spec fn spec_lookup_chunk(lookup_index: u64, i: int) -> int {
    ((lookup_index >> ((LOG_K_CHUNK * (D - 1 - i)) as u64)) % (K_CHUNK as u64)) as int
}

/// The `i`-th chunk of a lookup index, most significant chunk first.
pub fn lookup_chunk(lookup_index: u64, i: usize) -> (k: usize)
    requires
        i < D,
    ensures
        k == spec_lookup_chunk(lookup_index, i as int),
        k < K_CHUNK,
{
    let shift: usize = LOG_K_CHUNK * (D - 1 - i);
    let chunk: u64 = (lookup_index >> shift) % (K_CHUNK as u64);
    chunk as usize
}

/// Reads chunks as the digits of a base-`K_CHUNK` number, most significant first.
pub open spec fn recompose_chunks(chunks: Seq<int>) -> int
    decreases chunks.len(),
{
    if chunks.len() == 0 {
        0
    } else {
        recompose_chunks(chunks.drop_last()) * (K_CHUNK as int) + chunks.last()
    }
}

/// The chunks of a lookup index, most significant first.
pub open spec fn lookup_chunks(lookup_index: u64) -> Seq<int> {
    Seq::new(D as nat, |i: int| spec_lookup_chunk(lookup_index, i))
}

/// One more digit: reading the first `k + 1` chunks is reading the first `k`
/// and appending the next one.
proof fn lemma_recompose_step(s: Seq<int>, k: int)
    requires
        0 <= k < s.len(),
    ensures
        recompose_chunks(s.subrange(0, k + 1)) == recompose_chunks(s.subrange(0, k)) * (
        K_CHUNK as int) + s[k],
{
    assert(s.subrange(0, k + 1).drop_last() =~= s.subrange(0, k));
}

/// The `D` chunks of a lookup index are its base-`K_CHUNK` digits: read back
/// as a number they give the lookup index itself.
pub proof fn lemma_lookup_chunks_recompose(lookup_index: u64)
    ensures
        recompose_chunks(lookup_chunks(lookup_index)) == lookup_index as int,
        forall|i: int| 0 <= i < D ==> 0 <= #[trigger] spec_lookup_chunk(lookup_index, i) < K_CHUNK,
{
    let x = lookup_index;
    let s = lookup_chunks(x);
    assert(x == (x >> 16u64) * 65536 + x % 65536) by (bit_vector);
    assert(x >> 16u64 == (x >> 32u64) * 65536 + (x >> 16u64) % 65536) by (bit_vector);
    assert(x >> 32u64 == (x >> 48u64) * 65536 + (x >> 32u64) % 65536) by (bit_vector);
    assert((x >> 48u64) % 65536 == x >> 48u64) by (bit_vector);
    assert(x >> 0u64 == x) by (bit_vector);
    assert(s[0] == (x >> 48u64) % 65536);
    assert(s[1] == (x >> 32u64) % 65536);
    assert(s[2] == (x >> 16u64) % 65536);
    assert(s[3] == x % 65536);
    assert(s.subrange(0, 0).len() == 0);
    lemma_recompose_step(s, 0);
    lemma_recompose_step(s, 1);
    lemma_recompose_step(s, 2);
    lemma_recompose_step(s, 3);
    assert(s.subrange(0, 4) =~= s);
}

} // verus!
