use vstd::prelude::*;

use itertools::Itertools;
use rayon::iter::{IntoParallelRefIterator, ParallelIterator};

use crate::cycle::{
    lemma_lookup_chunks_recompose, lookup_chunk, spec_lookup_chunk, CycleRecord, RamAccess, D,
    K_CHUNK,
};
use vstd::arithmetic::power2::lemma_pow2_unfold;
use crate::math::{
    ceil_log2, is_power_of_two, lemma_next_power_of_two_fits, lemma_next_power_of_two_smallest,
    lemma_seq_max, lemma_seq_max_unique, next_power_of_two, pow2, seq_max, spec_next_power_of_two,
};

verus! {

/// The polynomials the prover commits to.
#[derive(Clone, Copy, Debug, PartialEq, Eq, Structural)]
pub enum CommittedPolynomials {
    /// The "left" input to the current instruction. Typically either the
    /// rs1 value or the current program counter.
    LeftInstructionInput,
    /// The "right" input to the current instruction. Typically either the
    /// rs2 value or the immediate value.
    RightInstructionInput,
    /// Product of `LeftInstructionInput` and `RightInstructionInput`
    Product,
    /// Whether the current instruction should write the lookup output to
    /// the destination register
    WriteLookupOutputToRD,
    /// Whether the current instruction should write the program counter to
    /// the destination register
    WritePCtoRD,
    /// Whether the current instruction triggers a branch
    ShouldBranch,
    /// Whether the current instruction triggers a jump
    ShouldJump,
    /// One-hot ra polynomial for the bytecode instance of Shout
    BytecodeRa,
    /// One-hot ra/wa polynomial for the RAM instance of Twist.
    /// Only `RamRa(0)` is in use.
    RamRa(usize),
    /// Inc polynomial for the registers instance of Twist
    RdInc,
    /// Inc polynomial for the RAM instance of Twist
    RamInc,
    /// One-hot ra polynomial for the instruction lookups instance of Shout,
    /// one per chunk of the lookup index: `InstructionRa(0)` to
    /// `InstructionRa(D - 1)`.
    InstructionRa(usize),
}

/// Number of committed polynomials.
pub const NUM_COMMITTED_POLYNOMIALS: usize = 15;

/// The committed polynomials, in their canonical order.
pub open spec fn all_committed() -> Seq<CommittedPolynomials> {
    seq![
        CommittedPolynomials::LeftInstructionInput,
        CommittedPolynomials::RightInstructionInput,
        CommittedPolynomials::Product,
        CommittedPolynomials::WriteLookupOutputToRD,
        CommittedPolynomials::WritePCtoRD,
        CommittedPolynomials::ShouldBranch,
        CommittedPolynomials::ShouldJump,
        CommittedPolynomials::BytecodeRa,
        CommittedPolynomials::RamRa(0),
        CommittedPolynomials::RdInc,
        CommittedPolynomials::RamInc,
        CommittedPolynomials::InstructionRa(0),
        CommittedPolynomials::InstructionRa(1),
        CommittedPolynomials::InstructionRa(2),
        CommittedPolynomials::InstructionRa(3),
    ]
}

/// The canonical order of the committed polynomials.
pub fn all_committed_polynomials() -> (r: [CommittedPolynomials; 15])
    ensures
        r@ == all_committed(),
{
    let r = [
        CommittedPolynomials::LeftInstructionInput,
        CommittedPolynomials::RightInstructionInput,
        CommittedPolynomials::Product,
        CommittedPolynomials::WriteLookupOutputToRD,
        CommittedPolynomials::WritePCtoRD,
        CommittedPolynomials::ShouldBranch,
        CommittedPolynomials::ShouldJump,
        CommittedPolynomials::BytecodeRa,
        CommittedPolynomials::RamRa(0),
        CommittedPolynomials::RdInc,
        CommittedPolynomials::RamInc,
        CommittedPolynomials::InstructionRa(0),
        CommittedPolynomials::InstructionRa(1),
        CommittedPolynomials::InstructionRa(2),
        CommittedPolynomials::InstructionRa(3),
    ];
    assert(r@ =~= all_committed());
    r
}

/// Whether `p` is one of the committed polynomials.
pub open spec fn is_committed(p: CommittedPolynomials) -> bool {
    all_committed().contains(p)
}

/// The position of a committed polynomial in the canonical order.
pub open spec fn committed_index(p: CommittedPolynomials) -> int {
    all_committed().index_of(p)
}

/// No polynomial occurs twice in the canonical order.
pub proof fn lemma_all_committed_distinct()
    ensures
        all_committed().no_duplicates(),
        all_committed().len() == NUM_COMMITTED_POLYNOMIALS,
{
    let s = all_committed();
    assert forall|i: int, j: int| 0 <= i < s.len() && 0 <= j < s.len() && i != j implies s[i]
        != s[j] by {
        assert(s[0] == CommittedPolynomials::LeftInstructionInput);
        assert(s[1] == CommittedPolynomials::RightInstructionInput);
        assert(s[2] == CommittedPolynomials::Product);
        assert(s[3] == CommittedPolynomials::WriteLookupOutputToRD);
        assert(s[4] == CommittedPolynomials::WritePCtoRD);
        assert(s[5] == CommittedPolynomials::ShouldBranch);
        assert(s[6] == CommittedPolynomials::ShouldJump);
        assert(s[7] == CommittedPolynomials::BytecodeRa);
        assert(s[8] == CommittedPolynomials::RamRa(0));
        assert(s[9] == CommittedPolynomials::RdInc);
        assert(s[10] == CommittedPolynomials::RamInc);
        assert(s[11] == CommittedPolynomials::InstructionRa(0));
        assert(s[12] == CommittedPolynomials::InstructionRa(1));
        assert(s[13] == CommittedPolynomials::InstructionRa(2));
        assert(s[14] == CommittedPolynomials::InstructionRa(3));
    }
}

/// Reading the polynomial at a position and then asking for its position gives
/// back that position.
pub proof fn lemma_index_of_from_index(i: int)
    requires
        0 <= i < NUM_COMMITTED_POLYNOMIALS,
    ensures
        is_committed(all_committed()[i]),
        committed_index(all_committed()[i]) == i,
{
    lemma_all_committed_distinct();
    let s = all_committed();
    assert(s.contains(s[i]));
    let j = s.index_of(s[i]);
    assert(0 <= j < s.len() && s[j] == s[i]);
}

/// Asking for the position of a committed polynomial and then reading the
/// polynomial at that position gives back the polynomial.
pub proof fn lemma_from_index_of_index(p: CommittedPolynomials)
    requires
        is_committed(p),
    ensures
        0 <= committed_index(p) < NUM_COMMITTED_POLYNOMIALS,
        all_committed()[committed_index(p)] == p,
{
    lemma_all_committed_distinct();
}

/// Position of the first item that `pred` accepts, through
/// `itertools::Itertools::find_position`. The claim: the result is the first
/// index at which `pred` returned `true`, every earlier item got `false`, and
/// `None` means every item got `false`.
#[verifier::external_body]
fn find_position_in<T, P: Fn(&T) -> bool>(items: &[T], pred: P) -> (r: Option<usize>)
    requires
        forall|i: int| 0 <= i < items@.len() ==> call_requires(pred, (&items@[i],)),
    ensures
        match r {
            Some(i) => {
                &&& i < items@.len()
                &&& call_ensures(pred, (&items@[i as int],), true)
                &&& forall|j: int| 0 <= j < i ==> call_ensures(pred, (&items@[j],), false)
            },
            None => forall|j: int| 0 <= j < items@.len() ==> call_ensures(pred, (&items@[j],), false),
        },
{
    items.iter().find_position(|item| pred(*item)).map(|(i, _)| i)
}

impl CommittedPolynomials {
    /// Number of committed polynomials.
    pub fn len() -> (r: usize)
        ensures
            r == all_committed().len(),
            r == NUM_COMMITTED_POLYNOMIALS,
    {
        let all = all_committed_polynomials();
        all.len()
    }

    /// The committed polynomial at `index` in the canonical order.
    pub fn from_index(index: usize) -> (r: Self)
        requires
            index < NUM_COMMITTED_POLYNOMIALS,
        ensures
            r == all_committed()[index as int],
    {
        let all = all_committed_polynomials();
        all[index]
    }

    /// The position of this polynomial in the canonical order.
    pub fn to_index(&self) -> (r: usize)
        requires
            is_committed(*self),
        ensures
            r < NUM_COMMITTED_POLYNOMIALS,
            r == committed_index(*self),
            all_committed()[r as int] == *self,
    {
        let all = all_committed_polynomials();
        let target = *self;
        let is_target = |poly: &CommittedPolynomials| -> (b: bool)
            ensures
                b == (*poly == target),
            {
                let same: bool = *poly == target;
                same
            };
        let found = find_position_in(&all, is_target);
        proof {
            lemma_all_committed_distinct();
            lemma_from_index_of_index(target);
            let j = committed_index(target);
            assert(all@[j] == target);
        }
        found.unwrap()
    }
}

/// What witness generation needs from the prover's preprocessing.
#[derive(Clone, Copy, Debug, PartialEq, Eq, Structural)]
pub struct WitnessPreprocessing {
    /// Number of rows of the preprocessed bytecode.
    pub bytecode_code_size: usize,
}

/// A one-hot polynomial: for each cycle, the position of its single one among `k`.
#[derive(Debug)]
pub struct OneHotPolynomial {
    /// Position of the one, per cycle.
    pub indices: Vec<usize>,
    /// Number of positions.
    pub k: usize,
}

/// The witness of a committed polynomial over a whole trace.
#[derive(Debug)]
pub enum WitnessPolynomial {
    /// Small unsigned coefficients, one per cycle.
    U8Scalars(Vec<u8>),
    /// Unsigned coefficients, one per cycle.
    U64Scalars(Vec<u64>),
    /// Signed coefficients, one per cycle.
    I64Scalars(Vec<i64>),
    /// A one-hot polynomial.
    OneHot(OneHotPolynomial),
}

/// The mathematical content of a [`WitnessPolynomial`].
pub enum WitnessPolynomialView {
    U8Scalars(Seq<u8>),
    U64Scalars(Seq<u64>),
    I64Scalars(Seq<i64>),
    OneHot(Seq<usize>, usize),
}

impl View for WitnessPolynomial {
    type V = WitnessPolynomialView;

    open spec fn view(&self) -> WitnessPolynomialView {
        match self {
            WitnessPolynomial::U8Scalars(v) => WitnessPolynomialView::U8Scalars(v@),
            WitnessPolynomial::U64Scalars(v) => WitnessPolynomialView::U64Scalars(v@),
            WitnessPolynomial::I64Scalars(v) => WitnessPolynomialView::I64Scalars(v@),
            WitnessPolynomial::OneHot(p) => WitnessPolynomialView::OneHot(p.indices@, p.k),
        }
    }
}

/// The witness of a committed polynomial at a single cycle.
#[derive(Clone, Copy, Debug, PartialEq, Eq, Structural)]
pub enum StreamingWitness {
    U8Scalars(u8),
    U64Scalars(u64),
    I64Scalars(i64),
    OneHot(usize),
}

/// The cycle after position `i` of a trace; the trace is padded with a no-op.
pub open spec fn next_cycle(trace: Seq<CycleRecord>, i: int) -> CycleRecord {
    if i + 1 < trace.len() {
        trace[i + 1]
    } else {
        CycleRecord::spec_no_op()
    }
}

/// Product of the two instruction inputs, the right one read as a 64-bit
/// unsigned word (its two's complement when negative).
pub open spec fn spec_product(c: CycleRecord) -> int {
    c.left_input * (c.right_input as u64)
}

/// The product of the instruction inputs, read as above, fits in 64 bits.
pub open spec fn product_fits(c: CycleRecord) -> bool {
    spec_product(c) <= u64::MAX
}

/// The destination register, if `flag` is set.
pub open spec fn spec_rd_if(c: CycleRecord, flag: bool) -> u8 {
    if flag {
        c.rd as u8
    } else {
        0
    }
}

/// The destination register if the lookup output is written to it.
pub open spec fn spec_write_lookup_output_to_rd(c: CycleRecord) -> u8 {
    spec_rd_if(c, c.flags.write_lookup_output_to_rd)
}

/// The destination register if the program counter is written to it (jumps).
pub open spec fn spec_write_pc_to_rd(c: CycleRecord) -> u8 {
    spec_rd_if(c, c.flags.jump)
}

/// The lookup output (the branch condition) of a branch, 0 otherwise.
pub open spec fn spec_should_branch(c: CycleRecord) -> u8 {
    if c.flags.branch {
        c.lookup_output as u8
    } else {
        0
    }
}

/// 1 for a jump that is not followed by the no-op padding, 0 otherwise.
pub open spec fn spec_should_jump(c: CycleRecord, next: CycleRecord) -> u8 {
    if c.flags.jump && !next.flags.is_noop {
        1
    } else {
        0
    }
}

/// Change of the destination register, both values read as signed.
pub open spec fn spec_rd_inc(c: CycleRecord) -> int {
    (c.rd_post_value as i64) - (c.rd_pre_value as i64)
}

/// Change of memory by a store, both values read as signed; 0 for other accesses.
pub open spec fn spec_ram_inc(c: CycleRecord) -> int {
    match c.ram_access {
        RamAccess::Write { pre_value, post_value, .. } => (post_value as i64) - (pre_value as i64),
        _ => 0,
    }
}

/// The register change fits in a signed 64-bit integer.
pub open spec fn rd_inc_fits(c: CycleRecord) -> bool {
    i64::MIN <= spec_rd_inc(c) <= i64::MAX
}

/// The memory change fits in a signed 64-bit integer.
pub open spec fn ram_inc_fits(c: CycleRecord) -> bool {
    i64::MIN <= spec_ram_inc(c) <= i64::MAX
}

/// The remapped memory addresses of a trace, one per cycle.
pub open spec fn ram_indices(trace: Seq<CycleRecord>) -> Seq<usize> {
    trace.map_values(|c: CycleRecord| c.remapped_ram_address as usize)
}

/// Chunk `i` of each cycle's lookup index.
pub open spec fn chunk_indices(trace: Seq<CycleRecord>, i: int) -> Seq<usize> {
    trace.map_values(|c: CycleRecord| spec_lookup_chunk(c.lookup_index, i) as usize)
}

/// The jump witness of each cycle, looking at the cycle after it.
pub open spec fn should_jump_values(trace: Seq<CycleRecord>) -> Seq<u8> {
    Seq::new(trace.len(), |j: int| spec_should_jump(trace[j], next_cycle(trace, j)))
}

/// The inputs on which whole-trace witness generation succeeds.
pub open spec fn witness_defined(poly: CommittedPolynomials, trace: Seq<CycleRecord>) -> bool {
    match poly {
        CommittedPolynomials::Product => forall|j: int|
            0 <= j < trace.len() ==> product_fits(#[trigger] trace[j]),
        CommittedPolynomials::RdInc => forall|j: int|
            0 <= j < trace.len() ==> rd_inc_fits(#[trigger] trace[j]),
        CommittedPolynomials::RamInc => forall|j: int|
            0 <= j < trace.len() ==> ram_inc_fits(#[trigger] trace[j]),
        CommittedPolynomials::RamRa(i) => {
            &&& i == 0
            &&& trace.len() > 0
            &&& seq_max(ram_indices(trace)) <= usize::MAX / 2
        },
        CommittedPolynomials::InstructionRa(i) => i < D || (i == D && trace.len() == 0),
        _ => true,
    }
}

/// The witness of a committed polynomial over a whole trace.
pub open spec fn spec_witness(
    poly: CommittedPolynomials,
    code_size: usize,
    trace: Seq<CycleRecord>,
) -> WitnessPolynomialView {
    match poly {
        CommittedPolynomials::LeftInstructionInput => WitnessPolynomialView::U64Scalars(
            trace.map_values(|c: CycleRecord| c.left_input),
        ),
        CommittedPolynomials::RightInstructionInput => WitnessPolynomialView::I64Scalars(
            trace.map_values(|c: CycleRecord| c.right_input),
        ),
        CommittedPolynomials::Product => WitnessPolynomialView::U64Scalars(
            trace.map_values(|c: CycleRecord| spec_product(c) as u64),
        ),
        CommittedPolynomials::WriteLookupOutputToRD => WitnessPolynomialView::U8Scalars(
            trace.map_values(|c: CycleRecord| spec_write_lookup_output_to_rd(c)),
        ),
        CommittedPolynomials::WritePCtoRD => WitnessPolynomialView::U8Scalars(
            trace.map_values(|c: CycleRecord| spec_write_pc_to_rd(c)),
        ),
        CommittedPolynomials::ShouldBranch => WitnessPolynomialView::U8Scalars(
            trace.map_values(|c: CycleRecord| spec_should_branch(c)),
        ),
        CommittedPolynomials::ShouldJump => WitnessPolynomialView::U8Scalars(
            should_jump_values(trace),
        ),
        CommittedPolynomials::BytecodeRa => WitnessPolynomialView::OneHot(
            trace.map_values(|c: CycleRecord| c.bytecode_index),
            code_size,
        ),
        CommittedPolynomials::RamRa(_) => WitnessPolynomialView::OneHot(
            ram_indices(trace),
            spec_next_power_of_two((seq_max(ram_indices(trace)) + 1) as nat) as usize,
        ),
        CommittedPolynomials::RdInc => WitnessPolynomialView::I64Scalars(
            trace.map_values(|c: CycleRecord| spec_rd_inc(c) as i64),
        ),
        CommittedPolynomials::RamInc => WitnessPolynomialView::I64Scalars(
            trace.map_values(|c: CycleRecord| spec_ram_inc(c) as i64),
        ),
        CommittedPolynomials::InstructionRa(i) => WitnessPolynomialView::OneHot(
            chunk_indices(trace, i as int),
            K_CHUNK,
        ),
    }
}

/// The inputs on which single-cycle witness generation succeeds.
pub open spec fn streaming_defined(poly: CommittedPolynomials, cycle: CycleRecord) -> bool {
    match poly {
        CommittedPolynomials::Product => product_fits(cycle),
        CommittedPolynomials::RdInc => rd_inc_fits(cycle),
        CommittedPolynomials::RamInc => ram_inc_fits(cycle),
        CommittedPolynomials::RamRa(_) => false,
        CommittedPolynomials::InstructionRa(i) => i < D,
        _ => true,
    }
}

/// The witness of a committed polynomial at one cycle, given the cycle after it.
pub open spec fn spec_streaming_witness(
    poly: CommittedPolynomials,
    cycle: CycleRecord,
    next: CycleRecord,
) -> StreamingWitness {
    match poly {
        CommittedPolynomials::LeftInstructionInput => StreamingWitness::U64Scalars(cycle.left_input),
        CommittedPolynomials::RightInstructionInput => StreamingWitness::I64Scalars(
            cycle.right_input,
        ),
        CommittedPolynomials::Product => StreamingWitness::U64Scalars(spec_product(cycle) as u64),
        CommittedPolynomials::WriteLookupOutputToRD => StreamingWitness::U8Scalars(
            spec_write_lookup_output_to_rd(cycle),
        ),
        CommittedPolynomials::WritePCtoRD => StreamingWitness::U8Scalars(spec_write_pc_to_rd(cycle)),
        CommittedPolynomials::ShouldBranch => StreamingWitness::U8Scalars(spec_should_branch(cycle)),
        CommittedPolynomials::ShouldJump => StreamingWitness::U8Scalars(
            spec_should_jump(cycle, next),
        ),
        CommittedPolynomials::BytecodeRa => StreamingWitness::OneHot(cycle.bytecode_index),
        CommittedPolynomials::RamRa(_) => StreamingWitness::OneHot(
            cycle.remapped_ram_address as usize,
        ),
        CommittedPolynomials::RdInc => StreamingWitness::I64Scalars(spec_rd_inc(cycle) as i64),
        CommittedPolynomials::RamInc => StreamingWitness::I64Scalars(spec_ram_inc(cycle) as i64),
        CommittedPolynomials::InstructionRa(i) => StreamingWitness::OneHot(
            spec_lookup_chunk(cycle.lookup_index, i as int) as usize,
        ),
    }
}

/// Entry `j` of a whole-trace witness, as a single-cycle witness.
pub open spec fn witness_entry(w: WitnessPolynomialView, j: int) -> StreamingWitness {
    match w {
        WitnessPolynomialView::U8Scalars(s) => StreamingWitness::U8Scalars(s[j]),
        WitnessPolynomialView::U64Scalars(s) => StreamingWitness::U64Scalars(s[j]),
        WitnessPolynomialView::I64Scalars(s) => StreamingWitness::I64Scalars(s[j]),
        WitnessPolynomialView::OneHot(s, _) => StreamingWitness::OneHot(s[j]),
    }
}

/// Number of entries of a whole-trace witness.
pub open spec fn witness_len(w: WitnessPolynomialView) -> nat {
    match w {
        WitnessPolynomialView::U8Scalars(s) => s.len(),
        WitnessPolynomialView::U64Scalars(s) => s.len(),
        WitnessPolynomialView::I64Scalars(s) => s.len(),
        WitnessPolynomialView::OneHot(s, _) => s.len(),
    }
}

/// `rayon`'s `par_iter().map(f).collect()` on a slice. The claim: the result
/// has one item per input item, in the same order, each a result of `f` on
/// the input item at the same position.
#[verifier::external_body]
fn par_map<T: Sync, U: Send, F: Fn(&T) -> U + Sync + Send>(items: &[T], f: F) -> (r: Vec<U>)
    requires
        forall|i: int| 0 <= i < items@.len() ==> call_requires(f, (&items@[i],)),
    ensures
        r@.len() == items@.len(),
        forall|i: int| 0 <= i < items@.len() ==> call_ensures(f, (&items@[i],), #[trigger] r@[i]),
{
    items.par_iter().map(f).collect()
}

/// `rayon`'s `par_iter().max()` on a slice of `usize`. The claim: `None`
/// exactly for the empty slice, otherwise an item of the slice that no item
/// exceeds.
#[verifier::external_body]
fn par_max(items: &[usize]) -> (r: Option<usize>)
    ensures
        r is None <==> items@.len() == 0,
        r matches Some(m) ==> items@.contains(m) && forall|i: int|
            0 <= i < items@.len() ==> items@[i] <= m,
{
    items.par_iter().max().copied()
}

fn cycle_left_input(c: &CycleRecord) -> (v: u64)
    ensures
        v == c.left_input,
{
    c.left_input
}

fn cycle_right_input(c: &CycleRecord) -> (v: i64)
    ensures
        v == c.right_input,
{
    c.right_input
}

fn cycle_product(c: &CycleRecord) -> (v: u64)
    requires
        product_fits(*c),
    ensures
        v == spec_product(*c),
{
    c.left_input * (c.right_input as u64)
}

fn cycle_rd_if(c: &CycleRecord, flag: bool) -> (v: u8)
    ensures
        v == spec_rd_if(*c, flag),
{
    if flag {
        c.rd as u8
    } else {
        0
    }
}

fn cycle_should_branch(c: &CycleRecord) -> (v: u8)
    ensures
        v == spec_should_branch(*c),
{
    if c.flags.branch {
        c.lookup_output as u8
    } else {
        0
    }
}

fn cycle_should_jump(c: &CycleRecord, next: &CycleRecord) -> (v: u8)
    ensures
        v == spec_should_jump(*c, *next),
{
    if c.flags.jump && !next.flags.is_noop {
        1
    } else {
        0
    }
}

fn cycle_rd_inc(c: &CycleRecord) -> (v: i64)
    requires
        rd_inc_fits(*c),
    ensures
        v == spec_rd_inc(*c),
{
    let post = c.rd_post_value as i64;
    let pre = c.rd_pre_value as i64;
    post - pre
}

fn cycle_ram_inc(c: &CycleRecord) -> (v: i64)
    requires
        ram_inc_fits(*c),
    ensures
        v == spec_ram_inc(*c),
{
    match c.ram_access {
        RamAccess::Write { pre_value, post_value, .. } => {
            let post = post_value as i64;
            let pre = pre_value as i64;
            post - pre
        },
        _ => 0,
    }
}


/// Witness of one committed polynomial at a single cycle.
pub trait Witness {
    type Type;

    /// The cycles on which the witness is defined.
    spec fn witness_ok(&self, cycle: CycleRecord, next_cycle: CycleRecord) -> bool;

    /// The witness at `cycle`, given the cycle after it.
    spec fn spec_generate_witness(&self, cycle: CycleRecord, next_cycle: CycleRecord) -> Self::Type;

    fn generate_witness(&self, cycle: &CycleRecord, next_cycle: &CycleRecord) -> (r: Self::Type)
        requires
            self.witness_ok(*cycle, *next_cycle),
        ensures
            r == self.spec_generate_witness(*cycle, *next_cycle),
    ;
}

/// The first instruction input.
pub struct LeftInstructionInput;

/// The second instruction input.
pub struct RightInstructionInput;

/// The product of the instruction inputs.
pub struct Product;

/// Whether the lookup output is written to the destination register.
pub struct WriteLookupOutputToRD;

/// Whether the program counter is written to the destination register.
pub struct WritePCtoRD;

/// Whether the cycle branches.
pub struct ShouldBranch;

/// Whether the cycle jumps.
pub struct ShouldJump;

/// Row of the cycle's instruction in the bytecode.
pub struct BytecodeRa<'a> {
    preprocessing: &'a WitnessPreprocessing,
}

/// Row of the cycle's memory access in the RAM witness; `i` numbers the
/// RAM polynomial (only `RamRa(0)` is committed).
pub struct RamRa {
    i: usize,
}

/// Change of the destination register.
pub struct RdInc;

/// Change of memory.
pub struct RamInc;

/// Chunk of the cycle's lookup index.
pub struct InstructionRa;

impl Witness for LeftInstructionInput {
    type Type = u64;

    open spec fn witness_ok(&self, cycle: CycleRecord, next_cycle: CycleRecord) -> bool {
        true
    }

    open spec fn spec_generate_witness(&self, cycle: CycleRecord, next_cycle: CycleRecord) -> u64 {
        cycle.left_input
    }

    fn generate_witness(&self, cycle: &CycleRecord, next_cycle: &CycleRecord) -> (r: u64) {
        cycle_left_input(cycle)
    }
}

impl Witness for ShouldJump {
    type Type = u8;

    open spec fn witness_ok(&self, cycle: CycleRecord, next_cycle: CycleRecord) -> bool {
        true
    }

    open spec fn spec_generate_witness(&self, cycle: CycleRecord, next_cycle: CycleRecord) -> u8 {
        spec_should_jump(cycle, next_cycle)
    }

    fn generate_witness(&self, cycle: &CycleRecord, next_cycle: &CycleRecord) -> (r: u8) {
        cycle_should_jump(cycle, next_cycle)
    }
}

impl<'a> Witness for BytecodeRa<'a> {
    type Type = usize;

    open spec fn witness_ok(&self, cycle: CycleRecord, next_cycle: CycleRecord) -> bool {
        true
    }

    open spec fn spec_generate_witness(&self, cycle: CycleRecord, next_cycle: CycleRecord) -> usize {
        cycle.bytecode_index
    }

    fn generate_witness(&self, cycle: &CycleRecord, next_cycle: &CycleRecord) -> (r: usize) {
        cycle.bytecode_index
    }
}

impl Witness for RamRa {
    type Type = usize;

    open spec fn witness_ok(&self, cycle: CycleRecord, next_cycle: CycleRecord) -> bool {
        true
    }

    open spec fn spec_generate_witness(&self, cycle: CycleRecord, next_cycle: CycleRecord) -> usize {
        cycle.remapped_ram_address as usize
    }

    fn generate_witness(&self, cycle: &CycleRecord, next_cycle: &CycleRecord) -> (r: usize) {
        cycle.remapped_ram_address as usize
    }
}

impl CommittedPolynomials {
    /// The witness of this polynomial over a whole trace.
    pub fn generate_witness(
        &self,
        preprocessing: &WitnessPreprocessing,
        trace: &[CycleRecord],
    ) -> (r: WitnessPolynomial)
        requires
            witness_defined(*self, trace@),
        ensures
            r@ == spec_witness(*self, preprocessing.bytecode_code_size, trace@),
    {
        match self {
            CommittedPolynomials::LeftInstructionInput => {
                let f = |c: &CycleRecord| -> (v: u64)
                    ensures
                        v == c.left_input,
                    {
                        cycle_left_input(c)
                    };
                let coeffs = par_map(trace, f);
                assert(coeffs@ =~= trace@.map_values(|c: CycleRecord| c.left_input));
                WitnessPolynomial::U64Scalars(coeffs)
            },
            CommittedPolynomials::RightInstructionInput => {
                let f = |c: &CycleRecord| -> (v: i64)
                    ensures
                        v == c.right_input,
                    {
                        cycle_right_input(c)
                    };
                let coeffs = par_map(trace, f);
                assert(coeffs@ =~= trace@.map_values(|c: CycleRecord| c.right_input));
                WitnessPolynomial::I64Scalars(coeffs)
            },
            CommittedPolynomials::Product => {
                let f = |c: &CycleRecord| -> (v: u64)
                    requires
                        product_fits(*c),
                    ensures
                        v == spec_product(*c),
                    {
                        cycle_product(c)
                    };
                assert forall|i: int| 0 <= i < trace@.len() implies call_requires(
                    f,
                    (&trace@[i],),
                ) by {
                    assert(product_fits(trace@[i]));
                }
                let coeffs = par_map(trace, f);
                assert(coeffs@ =~= trace@.map_values(|c: CycleRecord| spec_product(c) as u64));
                WitnessPolynomial::U64Scalars(coeffs)
            },
            CommittedPolynomials::WriteLookupOutputToRD => {
                let f = |c: &CycleRecord| -> (v: u8)
                    ensures
                        v == spec_write_lookup_output_to_rd(*c),
                    {
                        cycle_rd_if(c, c.flags.write_lookup_output_to_rd)
                    };
                let coeffs = par_map(trace, f);
                assert(coeffs@ =~= trace@.map_values(
                    |c: CycleRecord| spec_write_lookup_output_to_rd(c),
                ));
                WitnessPolynomial::U8Scalars(coeffs)
            },
            CommittedPolynomials::WritePCtoRD => {
                let f = |c: &CycleRecord| -> (v: u8)
                    ensures
                        v == spec_write_pc_to_rd(*c),
                    {
                        cycle_rd_if(c, c.flags.jump)
                    };
                let coeffs = par_map(trace, f);
                assert(coeffs@ =~= trace@.map_values(|c: CycleRecord| spec_write_pc_to_rd(c)));
                WitnessPolynomial::U8Scalars(coeffs)
            },
            CommittedPolynomials::ShouldBranch => {
                let f = |c: &CycleRecord| -> (v: u8)
                    ensures
                        v == spec_should_branch(*c),
                    {
                        cycle_should_branch(c)
                    };
                let coeffs = par_map(trace, f);
                assert(coeffs@ =~= trace@.map_values(|c: CycleRecord| spec_should_branch(c)));
                WitnessPolynomial::U8Scalars(coeffs)
            },
            CommittedPolynomials::ShouldJump => {
                let n = trace.len();
                let mut positions: Vec<usize> = Vec::new();
                let mut j: usize = 0;
                while j < n
                    invariant
                        n == trace@.len(),
                        j <= n,
                        positions@.len() == j,
                        forall|k: int| 0 <= k < j ==> positions@[k] == k,
                    decreases n - j,
                {
                    positions.push(j);
                    j = j + 1;
                }
                let no_op = CycleRecord::no_op();
                let f = |p: &usize| -> (v: u8)
                    requires
                        *p < trace@.len(),
                    ensures
                        v == spec_should_jump(trace@[*p as int], next_cycle(trace@, *p as int)),
                    {
                        let next = if *p + 1 < trace.len() {
                            trace[*p + 1]
                        } else {
                            no_op
                        };
                        cycle_should_jump(&trace[*p], &next)
                    };
                assert forall|i: int| 0 <= i < positions@.len() implies call_requires(
                    f,
                    (&positions@[i],),
                ) by {
                    assert(positions@[i] < trace@.len());
                }
                let coeffs = par_map(&positions, f);
                assert forall|i: int| 0 <= i < coeffs@.len() implies coeffs@[i]
                    == should_jump_values(trace@)[i] by {
                    assert(positions@[i] == i);
                }
                assert(coeffs@ =~= should_jump_values(trace@));
                WitnessPolynomial::U8Scalars(coeffs)
            },
            CommittedPolynomials::BytecodeRa => {
                let f = |c: &CycleRecord| -> (v: usize)
                    ensures
                        v == c.bytecode_index,
                    {
                        c.bytecode_index
                    };
                let addresses = par_map(trace, f);
                assert(addresses@ =~= trace@.map_values(|c: CycleRecord| c.bytecode_index));
                WitnessPolynomial::OneHot(
                    OneHotPolynomial { indices: addresses, k: preprocessing.bytecode_code_size },
                )
            },
            CommittedPolynomials::RamRa(_) => {
                let f = |c: &CycleRecord| -> (v: usize)
                    ensures
                        v == c.remapped_ram_address as usize,
                    {
                        c.remapped_ram_address as usize
                    };
                let addresses = par_map(trace, f);
                assert(addresses@ =~= ram_indices(trace@));
                let max_address = par_max(&addresses).unwrap();
                proof {
                    lemma_seq_max_unique(addresses@, max_address);
                }
                let k = next_power_of_two(max_address + 1);
                WitnessPolynomial::OneHot(OneHotPolynomial { indices: addresses, k })
            },
            CommittedPolynomials::RdInc => {
                let f = |c: &CycleRecord| -> (v: i64)
                    requires
                        rd_inc_fits(*c),
                    ensures
                        v == spec_rd_inc(*c),
                    {
                        cycle_rd_inc(c)
                    };
                assert forall|i: int| 0 <= i < trace@.len() implies call_requires(
                    f,
                    (&trace@[i],),
                ) by {
                    assert(rd_inc_fits(trace@[i]));
                }
                let coeffs = par_map(trace, f);
                assert(coeffs@ =~= trace@.map_values(|c: CycleRecord| spec_rd_inc(c) as i64));
                WitnessPolynomial::I64Scalars(coeffs)
            },
            CommittedPolynomials::RamInc => {
                let f = |c: &CycleRecord| -> (v: i64)
                    requires
                        ram_inc_fits(*c),
                    ensures
                        v == spec_ram_inc(*c),
                    {
                        cycle_ram_inc(c)
                    };
                assert forall|i: int| 0 <= i < trace@.len() implies call_requires(
                    f,
                    (&trace@[i],),
                ) by {
                    assert(ram_inc_fits(trace@[i]));
                }
                let coeffs = par_map(trace, f);
                assert(coeffs@ =~= trace@.map_values(|c: CycleRecord| spec_ram_inc(c) as i64));
                WitnessPolynomial::I64Scalars(coeffs)
            },
            CommittedPolynomials::InstructionRa(i) => {
                let i = *i;
                let f = |c: &CycleRecord| -> (v: usize)
                    requires
                        i < D,
                    ensures
                        v == spec_lookup_chunk(c.lookup_index, i as int),
                    {
                        lookup_chunk(c.lookup_index, i)
                    };
                let addresses = par_map(trace, f);
                assert(addresses@ =~= chunk_indices(trace@, i as int));
                WitnessPolynomial::OneHot(OneHotPolynomial { indices: addresses, k: K_CHUNK })
            },
        }
    }

    /// The witness of this polynomial at one cycle, given the cycle after it.
    pub fn generate_streaming_witness(
        &self,
        preprocessing: &WitnessPreprocessing,
        cycle: &CycleRecord,
        next_cycle: &CycleRecord,
    ) -> (r: StreamingWitness)
        requires
            streaming_defined(*self, *cycle),
        ensures
            r == spec_streaming_witness(*self, *cycle, *next_cycle),
    {
        match self {
            CommittedPolynomials::LeftInstructionInput => StreamingWitness::U64Scalars(
                cycle_left_input(cycle),
            ),
            CommittedPolynomials::RightInstructionInput => StreamingWitness::I64Scalars(
                cycle_right_input(cycle),
            ),
            CommittedPolynomials::Product => StreamingWitness::U64Scalars(cycle_product(cycle)),
            CommittedPolynomials::WriteLookupOutputToRD => StreamingWitness::U8Scalars(
                cycle_rd_if(cycle, cycle.flags.write_lookup_output_to_rd),
            ),
            CommittedPolynomials::WritePCtoRD => StreamingWitness::U8Scalars(
                cycle_rd_if(cycle, cycle.flags.jump),
            ),
            CommittedPolynomials::ShouldBranch => StreamingWitness::U8Scalars(
                cycle_should_branch(cycle),
            ),
            CommittedPolynomials::ShouldJump => StreamingWitness::U8Scalars(
                cycle_should_jump(cycle, next_cycle),
            ),
            CommittedPolynomials::BytecodeRa => StreamingWitness::OneHot(cycle.bytecode_index),
            // Not reached: the RAM witness needs the whole trace, and
            // `streaming_defined` leaves it out.
            CommittedPolynomials::RamRa(_) => StreamingWitness::OneHot(
                cycle.remapped_ram_address as usize,
            ),
            CommittedPolynomials::RdInc => StreamingWitness::I64Scalars(cycle_rd_inc(cycle)),
            CommittedPolynomials::RamInc => StreamingWitness::I64Scalars(cycle_ram_inc(cycle)),
            CommittedPolynomials::InstructionRa(i) => StreamingWitness::OneHot(
                lookup_chunk(cycle.lookup_index, *i),
            ),
        }
    }
}


/// For every polynomial but the RAM one (whose witness needs the whole trace),
/// the witness of a single cycle, given the cycle after it, is the entry at
/// that cycle of the whole-trace witness; the whole-trace witness has one
/// entry per cycle.
pub proof fn lemma_streaming_matches_batch(
    poly: CommittedPolynomials,
    code_size: usize,
    trace: Seq<CycleRecord>,
    j: int,
)
    requires
        !(poly is RamRa),
        witness_defined(poly, trace),
        0 <= j < trace.len(),
    ensures
        streaming_defined(poly, trace[j]),
        witness_len(spec_witness(poly, code_size, trace)) == trace.len(),
        witness_entry(spec_witness(poly, code_size, trace), j) == spec_streaming_witness(
            poly,
            trace[j],
            next_cycle(trace, j),
        ),
{
}

/// The instruction-lookup witnesses are valid one-hot polynomials: every index
/// is below their size `K_CHUNK`.
pub proof fn lemma_instruction_ra_in_range(i: usize, code_size: usize, trace: Seq<CycleRecord>)
    requires
        i < D,
    ensures
        spec_witness(CommittedPolynomials::InstructionRa(i), code_size, trace) matches
            WitnessPolynomialView::OneHot(indices, k) && k == K_CHUNK && indices.len()
            == trace.len() && forall|j: int| 0 <= j < indices.len() ==> indices[j] < k,
{
    assert forall|j: int| 0 <= j < trace.len() implies chunk_indices(trace, i as int)[j]
        < K_CHUNK by {
        lemma_lookup_chunks_recompose(trace[j].lookup_index);
        assert(0 <= spec_lookup_chunk(trace[j].lookup_index, i as int) < K_CHUNK);
    }
}

/// The product witness is the product of the two inputs whenever the right
/// input is not negative; when it is negative the coefficient is the product
/// of the left input and the right input's two's complement, which agrees
/// with the signed product modulo 2^64.
pub proof fn lemma_product_is_signed_product(c: CycleRecord)
    requires
        product_fits(c),
    ensures
        c.right_input >= 0 ==> spec_product(c) == c.left_input * c.right_input,
        c.right_input < 0 ==> spec_product(c) == c.left_input * (c.right_input
            + 0x1_0000_0000_0000_0000),
        (spec_product(c) - c.left_input * c.right_input) % 0x1_0000_0000_0000_0000 == 0,
{
    let r = c.right_input;
    let l = c.left_input as int;
    if r >= 0 {
        assert((r as u64) as int == r as int) by (bit_vector)
            requires
                r >= 0,
        ;
    } else {
        assert((r as u64) as int == r as int + 0x1_0000_0000_0000_0000) by (bit_vector)
            requires
                r < 0,
        ;
        assert(l * (r + 0x1_0000_0000_0000_0000) - l * r == l * 0x1_0000_0000_0000_0000)
            by (nonlinear_arith);
        assert((l * 0x1_0000_0000_0000_0000) % 0x1_0000_0000_0000_0000 == 0) by (nonlinear_arith);
    }
}

/// The RAM witness is a valid one-hot polynomial: its size is a power of two
/// and every remapped address is below it; it is the smallest such power of
/// two, so some address reaches at least half of it (unless it is 1).
pub proof fn lemma_ram_ra_in_range(code_size: usize, trace: Seq<CycleRecord>)
    requires
        witness_defined(CommittedPolynomials::RamRa(0), trace),
    ensures
        spec_witness(CommittedPolynomials::RamRa(0), code_size, trace) matches
            WitnessPolynomialView::OneHot(indices, k) && {
            &&& is_power_of_two(k as int)
            &&& indices.len() == trace.len()
            &&& forall|j: int| 0 <= j < indices.len() ==> indices[j] < k
            &&& (k == 1 || exists|j: int| 0 <= j < indices.len() && 2 * indices[j] >= k)
        },
{
    let indices = ram_indices(trace);
    let m = seq_max(indices);
    lemma_seq_max(indices);
    lemma_next_power_of_two_smallest((m + 1) as nat);
    let k = spec_next_power_of_two((m + 1) as nat);
    assert(k <= usize::MAX) by {
        lemma_next_power_of_two_fits((m + 1) as nat);
    }
    assert(is_power_of_two(k as int)) by {
        assert(pow2(ceil_log2((m + 1) as nat)) == k);
    }
    let c = ceil_log2((m + 1) as nat);
    if c > 0 {
        lemma_pow2_unfold(c);
        assert(pow2((c - 1) as nat) < m + 1);
        assert(k == 2 * pow2((c - 1) as nat));
        assert(indices.contains(m));
        let j = choose|j: int| 0 <= j < indices.len() && indices[j] == m;
        assert(2 * indices[j] >= k);
        assert(exists|j: int| 0 <= j < indices.len() && 2 * indices[j] >= (k as usize));
    } else {
        assert(k == 1) by {
            reveal(vstd::arithmetic::power::pow);
        }
    }
}

/// The single-cycle witness structs give the entry of the whole-trace witness
/// at that cycle: the first input and the bytecode row whatever the cycle
/// after it, the jump flag given the cycle after it, the RAM row whatever the
/// cycle after it.
pub proof fn lemma_cycle_witnesses_match_batch(
    bytecode: BytecodeRa,
    ram: RamRa,
    code_size: usize,
    trace: Seq<CycleRecord>,
    j: int,
    any_next: CycleRecord,
)
    requires
        0 <= j < trace.len(),
    ensures
        witness_entry(spec_witness(CommittedPolynomials::LeftInstructionInput, code_size, trace), j)
            == StreamingWitness::U64Scalars(
            LeftInstructionInput.spec_generate_witness(trace[j], any_next),
        ),
        witness_entry(spec_witness(CommittedPolynomials::ShouldJump, code_size, trace), j)
            == StreamingWitness::U8Scalars(
            ShouldJump.spec_generate_witness(trace[j], next_cycle(trace, j)),
        ),
        witness_entry(spec_witness(CommittedPolynomials::BytecodeRa, code_size, trace), j)
            == StreamingWitness::OneHot(bytecode.spec_generate_witness(trace[j], any_next)),
        witness_entry(spec_witness(CommittedPolynomials::RamRa(0), code_size, trace), j)
            == StreamingWitness::OneHot(ram.spec_generate_witness(trace[j], any_next)),
{
}

/// The last cycle of a trace never counts as a jump: the cycle after it is the
/// no-op padding.
pub proof fn lemma_last_cycle_never_jumps(code_size: usize, trace: Seq<CycleRecord>)
    requires
        trace.len() > 0,
    ensures
        spec_witness(CommittedPolynomials::ShouldJump, code_size, trace) matches
            WitnessPolynomialView::U8Scalars(values) && values.len() == trace.len() && values.last()
            == 0,
{
}

/// The single-cycle witness of each polynomial, in terms of the cycle's own
/// fields (and, for the jump witness, the cycle after it):
/// - the inputs as they are; the product of the left input and the right
///   input read as a 64-bit word, where that fits;
/// - the register flags give the destination register's low byte when their
///   flag is set and 0 otherwise;
/// - a branch gives its lookup output (the branch condition), anything else 0;
/// - the jump witness is 1 exactly for a jump whose next cycle is not the
///   no-op, 0 otherwise;
/// - the register and memory changes are after minus before, both read as
///   signed words; accesses other than stores give 0;
/// - the instruction lookup chunks are below `K_CHUNK` and, read most
///   significant first as base-`K_CHUNK` digits, give the lookup index.
pub proof fn lemma_cycle_witness_meaning(cycle: CycleRecord, next: CycleRecord)
    ensures
        spec_streaming_witness(CommittedPolynomials::LeftInstructionInput, cycle, next)
            == StreamingWitness::U64Scalars(cycle.left_input),
        spec_streaming_witness(CommittedPolynomials::RightInstructionInput, cycle, next)
            == StreamingWitness::I64Scalars(cycle.right_input),
        ({
            let word = if cycle.right_input >= 0 {
                cycle.right_input as int
            } else {
                cycle.right_input + 0x1_0000_0000_0000_0000
            };
            cycle.left_input * word <= u64::MAX ==> (spec_streaming_witness(
                CommittedPolynomials::Product,
                cycle,
                next,
            ) matches StreamingWitness::U64Scalars(x) && x == cycle.left_input * word)
        }),
        spec_streaming_witness(CommittedPolynomials::WriteLookupOutputToRD, cycle, next) matches
            StreamingWitness::U8Scalars(x) && x == (if cycle.flags.write_lookup_output_to_rd {
            cycle.rd % 256
        } else {
            0
        }),
        spec_streaming_witness(CommittedPolynomials::WritePCtoRD, cycle, next) matches
            StreamingWitness::U8Scalars(x) && x == (if cycle.flags.jump {
            cycle.rd % 256
        } else {
            0
        }),
        spec_streaming_witness(CommittedPolynomials::ShouldBranch, cycle, next) matches
            StreamingWitness::U8Scalars(x) && x == (if cycle.flags.branch {
            cycle.lookup_output % 256
        } else {
            0
        }),
        spec_streaming_witness(CommittedPolynomials::ShouldJump, cycle, next) matches
            StreamingWitness::U8Scalars(x) && (x == 1 <==> cycle.flags.jump && !next.flags.is_noop)
            && (x == 0 <==> !(cycle.flags.jump && !next.flags.is_noop)),
        spec_streaming_witness(CommittedPolynomials::BytecodeRa, cycle, next)
            == StreamingWitness::OneHot(cycle.bytecode_index),
        ({
            let d = (cycle.rd_post_value as i64) - (cycle.rd_pre_value as i64);
            i64::MIN <= d <= i64::MAX ==> (spec_streaming_witness(
                CommittedPolynomials::RdInc,
                cycle,
                next,
            ) matches StreamingWitness::I64Scalars(x) && x == d)
        }),
        match cycle.ram_access {
            RamAccess::Write { pre_value, post_value, .. } => {
                let d = (post_value as i64) - (pre_value as i64);
                i64::MIN <= d <= i64::MAX ==> (spec_streaming_witness(
                    CommittedPolynomials::RamInc,
                    cycle,
                    next,
                ) matches StreamingWitness::I64Scalars(x) && x == d)
            },
            _ => spec_streaming_witness(CommittedPolynomials::RamInc, cycle, next)
                == StreamingWitness::I64Scalars(0),
        },
        ({
            let k = K_CHUNK as int;
            spec_streaming_witness(CommittedPolynomials::InstructionRa(0), cycle, next) matches
                StreamingWitness::OneHot(x0) && spec_streaming_witness(
                CommittedPolynomials::InstructionRa(1),
                cycle,
                next,
            ) matches StreamingWitness::OneHot(x1) && spec_streaming_witness(
                CommittedPolynomials::InstructionRa(2),
                cycle,
                next,
            ) matches StreamingWitness::OneHot(x2) && spec_streaming_witness(
                CommittedPolynomials::InstructionRa(3),
                cycle,
                next,
            ) matches StreamingWitness::OneHot(x3) && x0 < k && x1 < k && x2 < k && x3 < k && ((
            x0 * k + x1) * k + x2) * k + x3 == cycle.lookup_index
        }),
{
    let r = cycle.right_input;
    if r >= 0 {
        assert((r as u64) as int == r as int) by (bit_vector)
            requires
                r >= 0,
        ;
    } else {
        assert((r as u64) as int == r as int + 0x1_0000_0000_0000_0000) by (bit_vector)
            requires
                r < 0,
        ;
    }
    let rd = cycle.rd;
    assert((rd as u8) as int == rd as int % 256) by (bit_vector);
    let o = cycle.lookup_output;
    assert((o as u8) as int == o as int % 256) by (bit_vector);
    let x = cycle.lookup_index;
    assert(x == (x >> 16u64) * 65536 + x % 65536) by (bit_vector);
    assert(x >> 16u64 == (x >> 32u64) * 65536 + (x >> 16u64) % 65536) by (bit_vector);
    assert(x >> 32u64 == (x >> 48u64) * 65536 + (x >> 32u64) % 65536) by (bit_vector);
    assert((x >> 48u64) % 65536 == x >> 48u64) by (bit_vector);
    assert(x >> 0u64 == x) by (bit_vector);
    assert(spec_lookup_chunk(x, 0) == (x >> 48u64) % 65536);
    assert(spec_lookup_chunk(x, 1) == (x >> 32u64) % 65536);
    assert(spec_lookup_chunk(x, 2) == (x >> 16u64) % 65536);
    assert(spec_lookup_chunk(x, 3) == x % 65536);
}

/// Over a whole trace, the jump witness of cycle `j` is 1 exactly when the
/// cycle is a jump and the cycle after it is in the trace and is not a no-op;
/// every other entry is 0. The branch witness of cycle `j` is the lookup
/// output (the branch condition) of a branch, 0 for any other cycle. The
/// bytecode witness is one-hot over the `code_size` rows of the bytecode, at
/// each cycle's row.
pub proof fn lemma_trace_witness_meaning(code_size: usize, trace: Seq<CycleRecord>)
    ensures
        spec_witness(CommittedPolynomials::BytecodeRa, code_size, trace) matches
            WitnessPolynomialView::OneHot(indices, k) && k == code_size && indices.len()
            == trace.len() && forall|j: int|
            0 <= j < trace.len() ==> #[trigger] indices[j] == trace[j].bytecode_index,
        spec_witness(CommittedPolynomials::ShouldJump, code_size, trace) matches
            WitnessPolynomialView::U8Scalars(values) && values.len() == trace.len() && forall|
            j: int,
        |
            0 <= j < trace.len() ==> {
                &&& (#[trigger] values[j] == 1 <==> (trace[j].flags.jump && j + 1 < trace.len()
                    && !trace[j + 1].flags.is_noop))
                &&& (values[j] == 0 <==> !(trace[j].flags.jump && j + 1 < trace.len()
                    && !trace[j + 1].flags.is_noop))
            },
        spec_witness(CommittedPolynomials::ShouldBranch, code_size, trace) matches
            WitnessPolynomialView::U8Scalars(values) && values.len() == trace.len() && forall|
            j: int,
        |
            0 <= j < trace.len() ==> #[trigger] values[j] == (if trace[j].flags.branch {
                trace[j].lookup_output % 256
            } else {
                0
            }),
{
    assert forall|j: int| 0 <= j < trace.len() implies (spec_should_branch(trace[j]) as int) == (
    if trace[j].flags.branch {
        trace[j].lookup_output % 256
    } else {
        0
    }) by {
        lemma_cycle_witness_meaning(trace[j], next_cycle(trace, j));
    }
    assert forall|j: int| 0 <= j < trace.len() implies {
        &&& (#[trigger] should_jump_values(trace)[j] == 1 <==> (trace[j].flags.jump && j + 1
            < trace.len() && !trace[j + 1].flags.is_noop))
        &&& (should_jump_values(trace)[j] == 0 <==> !(trace[j].flags.jump && j + 1 < trace.len()
            && !trace[j + 1].flags.is_noop))
    } by {
        lemma_cycle_witness_meaning(trace[j], next_cycle(trace, j));
    }
}
} // verus!
