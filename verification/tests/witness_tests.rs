use jolt_witness::cycle::{lookup_chunk, CycleFlags, CycleRecord, RamAccess, D, K_CHUNK, LOG_K_CHUNK};
use jolt_witness::math::next_power_of_two;
use jolt_witness::witness::{
    all_committed_polynomials, CommittedPolynomials, StreamingWitness, WitnessPolynomial,
    WitnessPreprocessing, NUM_COMMITTED_POLYNOMIALS,
};

fn flags(jump: bool, branch: bool, write_lookup_output_to_rd: bool, is_noop: bool) -> CycleFlags {
    CycleFlags { jump, branch, write_lookup_output_to_rd, is_noop }
}

fn cycle(left: u64, right: i64) -> CycleRecord {
    CycleRecord {
        left_input: left,
        right_input: right,
        lookup_output: 0,
        lookup_index: 0,
        flags: flags(false, false, false, false),
        rd: 0,
        rd_pre_value: 0,
        rd_post_value: 0,
        ram_access: RamAccess::NoOp,
        bytecode_index: 0,
        remapped_ram_address: 0,
    }
}

fn sample_trace() -> Vec<CycleRecord> {
    let mut a = cycle(3, 5);
    a.rd = 7;
    a.rd_pre_value = 10;
    a.rd_post_value = 4;
    a.flags = flags(true, false, false, false);
    a.ram_access = RamAccess::Write { address: 100, pre_value: 9, post_value: 20 };
    a.bytecode_index = 2;
    a.remapped_ram_address = 3;
    a.lookup_index = 0x0102_0304_0506_0708;

    let mut b = cycle(1, -1);
    b.rd = 300;
    b.flags = flags(true, true, true, false);
    b.lookup_output = 1;
    b.ram_access = RamAccess::Read { address: 100, value: 20 };
    b.bytecode_index = 4;
    b.remapped_ram_address = 5;
    b.lookup_index = u64::MAX;

    let mut c = cycle(0, 0);
    c.flags = flags(false, false, false, true);
    c.remapped_ram_address = 1;

    let mut d = cycle(6, 7);
    d.flags = flags(true, false, false, false);
    d.rd = 1;
    d.rd_pre_value = 1;
    d.rd_post_value = 2;
    vec![a, b, c, d]
}

fn prep() -> WitnessPreprocessing {
    WitnessPreprocessing { bytecode_code_size: 16 }
}

#[test]
fn committed_polynomials_count() {
    assert_eq!(CommittedPolynomials::len(), 15);
    assert_eq!(NUM_COMMITTED_POLYNOMIALS, 15);
    assert_eq!(all_committed_polynomials().len(), 15);
    assert_eq!(D, 4);
}

#[test]
fn committed_polynomials_from_index() {
    assert_eq!(CommittedPolynomials::from_index(0), CommittedPolynomials::LeftInstructionInput);
    assert_eq!(CommittedPolynomials::from_index(8), CommittedPolynomials::RamRa(0));
    assert_eq!(CommittedPolynomials::from_index(11), CommittedPolynomials::InstructionRa(0));
    assert_eq!(CommittedPolynomials::from_index(14), CommittedPolynomials::InstructionRa(3));
}

#[test]
fn committed_polynomials_to_index() {
    assert_eq!(CommittedPolynomials::ShouldJump.to_index(), 6);
    assert_eq!(CommittedPolynomials::RamInc.to_index(), 10);
    assert_eq!(CommittedPolynomials::InstructionRa(3).to_index(), 14);
}

#[test]
fn committed_polynomials_index_roundtrip() {
    for i in 0..CommittedPolynomials::len() {
        let p = CommittedPolynomials::from_index(i);
        assert_eq!(p.to_index(), i);
        assert_eq!(CommittedPolynomials::from_index(p.to_index()), p);
    }
}

#[test]
fn witness_left_right_product() {
    let trace = sample_trace();
    match CommittedPolynomials::LeftInstructionInput.generate_witness(&prep(), &trace) {
        WitnessPolynomial::U64Scalars(v) => assert_eq!(v, vec![3, 1, 0, 6]),
        other => panic!("unexpected {:?}", other),
    }
    match CommittedPolynomials::RightInstructionInput.generate_witness(&prep(), &trace) {
        WitnessPolynomial::I64Scalars(v) => assert_eq!(v, vec![5, -1, 0, 7]),
        other => panic!("unexpected {:?}", other),
    }
    match CommittedPolynomials::Product.generate_witness(&prep(), &trace) {
        WitnessPolynomial::U64Scalars(v) => assert_eq!(v, vec![15, u64::MAX, 0, 42]),
        other => panic!("unexpected {:?}", other),
    }
}

#[test]
fn witness_register_flags() {
    let trace = sample_trace();
    match CommittedPolynomials::WriteLookupOutputToRD.generate_witness(&prep(), &trace) {
        // register 300 is truncated to 8 bits
        WitnessPolynomial::U8Scalars(v) => assert_eq!(v, vec![0, 44, 0, 0]),
        other => panic!("unexpected {:?}", other),
    }
    match CommittedPolynomials::WritePCtoRD.generate_witness(&prep(), &trace) {
        WitnessPolynomial::U8Scalars(v) => assert_eq!(v, vec![7, 44, 0, 1]),
        other => panic!("unexpected {:?}", other),
    }
    match CommittedPolynomials::ShouldBranch.generate_witness(&prep(), &trace) {
        WitnessPolynomial::U8Scalars(v) => assert_eq!(v, vec![0, 1, 0, 0]),
        other => panic!("unexpected {:?}", other),
    }
}

#[test]
fn witness_should_jump_looks_at_next_cycle() {
    let trace = sample_trace();
    // cycle 0 jumps to a real cycle; cycle 1 jumps into a no-op; cycle 3 is last
    match CommittedPolynomials::ShouldJump.generate_witness(&prep(), &trace) {
        WitnessPolynomial::U8Scalars(v) => assert_eq!(v, vec![1, 0, 0, 0]),
        other => panic!("unexpected {:?}", other),
    }
}

#[test]
fn witness_last_cycle_never_jumps() {
    let mut only = cycle(0, 0);
    only.flags = flags(true, false, false, false);
    match CommittedPolynomials::ShouldJump.generate_witness(&prep(), &[only]) {
        WitnessPolynomial::U8Scalars(v) => assert_eq!(v, vec![0]),
        other => panic!("unexpected {:?}", other),
    }
}

#[test]
fn witness_increments() {
    let trace = sample_trace();
    match CommittedPolynomials::RdInc.generate_witness(&prep(), &trace) {
        WitnessPolynomial::I64Scalars(v) => assert_eq!(v, vec![-6, 0, 0, 1]),
        other => panic!("unexpected {:?}", other),
    }
    match CommittedPolynomials::RamInc.generate_witness(&prep(), &trace) {
        WitnessPolynomial::I64Scalars(v) => assert_eq!(v, vec![11, 0, 0, 0]),
        other => panic!("unexpected {:?}", other),
    }
}

#[test]
fn witness_bytecode_ra() {
    let trace = sample_trace();
    match CommittedPolynomials::BytecodeRa.generate_witness(&prep(), &trace) {
        WitnessPolynomial::OneHot(p) => {
            assert_eq!(p.indices, vec![2, 4, 0, 0]);
            assert_eq!(p.k, 16);
        }
        other => panic!("unexpected {:?}", other),
    }
}

#[test]
fn witness_ram_ra_size_is_next_power_of_two() {
    let trace = sample_trace();
    match CommittedPolynomials::RamRa(0).generate_witness(&prep(), &trace) {
        WitnessPolynomial::OneHot(p) => {
            assert_eq!(p.indices, vec![3, 5, 1, 0]);
            assert_eq!(p.k, 8);
        }
        other => panic!("unexpected {:?}", other),
    }
}

#[test]
fn witness_ram_ra_largest_address_power_of_two() {
    let mut a = cycle(0, 0);
    a.remapped_ram_address = 4;
    match CommittedPolynomials::RamRa(0).generate_witness(&prep(), &[a]) {
        WitnessPolynomial::OneHot(p) => {
            assert_eq!(p.indices, vec![4]);
            assert_eq!(p.k, 8);
        }
        other => panic!("unexpected {:?}", other),
    }
    a.remapped_ram_address = 1;
    match CommittedPolynomials::RamRa(0).generate_witness(&prep(), &[a]) {
        WitnessPolynomial::OneHot(p) => assert_eq!(p.k, 2),
        other => panic!("unexpected {:?}", other),
    }
    a.remapped_ram_address = 0;
    match CommittedPolynomials::RamRa(0).generate_witness(&prep(), &[a]) {
        WitnessPolynomial::OneHot(p) => assert_eq!(p.k, 1),
        other => panic!("unexpected {:?}", other),
    }
}

#[test]
fn witness_product_reads_right_input_as_unsigned() {
    let a = cycle(1, -3);
    let b = cycle(0, i64::MIN);
    let c = cycle(1 << 20, 1 << 40);
    match CommittedPolynomials::Product.generate_witness(&prep(), &[a, b, c]) {
        WitnessPolynomial::U64Scalars(v) => {
            assert_eq!(v, vec![u64::MAX - 2, 0, 1 << 60]);
            // agrees with the signed product modulo 2^64
            assert_eq!(v[0], (1i64 * -3) as u64);
        }
        other => panic!("unexpected {:?}", other),
    }
}

#[test]
fn witness_instruction_ra_chunks() {
    let trace = sample_trace();
    match CommittedPolynomials::InstructionRa(0).generate_witness(&prep(), &trace) {
        WitnessPolynomial::OneHot(p) => {
            assert_eq!(p.indices, vec![0x0102, 0xffff, 0, 0]);
            assert_eq!(p.k, K_CHUNK);
            assert_eq!(p.k, 65536);
        }
        other => panic!("unexpected {:?}", other),
    }
    match CommittedPolynomials::InstructionRa(3).generate_witness(&prep(), &trace) {
        WitnessPolynomial::OneHot(p) => assert_eq!(p.indices, vec![0x0708, 0xffff, 0, 0]),
        other => panic!("unexpected {:?}", other),
    }
}

#[test]
fn witness_instruction_ra_empty_trace() {
    match CommittedPolynomials::InstructionRa(D).generate_witness(&prep(), &[]) {
        WitnessPolynomial::OneHot(p) => {
            assert!(p.indices.is_empty());
            assert_eq!(p.k, 65536);
        }
        other => panic!("unexpected {:?}", other),
    }
}

#[test]
fn lookup_chunks_recompose() {
    let x: u64 = 0xdead_beef_0123_4567;
    let mut acc: u64 = 0;
    for i in 0..D {
        let c = lookup_chunk(x, i);
        assert!(c < K_CHUNK);
        acc = (acc << LOG_K_CHUNK) | c as u64;
    }
    assert_eq!(acc, x);
    assert_eq!(lookup_chunk(x, 0), 0xdead);
    assert_eq!(lookup_chunk(x, 3), 0x4567);
}

fn entry(w: &WitnessPolynomial, j: usize) -> StreamingWitness {
    match w {
        WitnessPolynomial::U8Scalars(v) => StreamingWitness::U8Scalars(v[j]),
        WitnessPolynomial::U64Scalars(v) => StreamingWitness::U64Scalars(v[j]),
        WitnessPolynomial::I64Scalars(v) => StreamingWitness::I64Scalars(v[j]),
        WitnessPolynomial::OneHot(p) => StreamingWitness::OneHot(p.indices[j]),
    }
}

#[test]
fn streaming_matches_batch() {
    let trace = sample_trace();
    let no_op = CycleRecord::no_op();
    for i in 0..CommittedPolynomials::len() {
        let poly = CommittedPolynomials::from_index(i);
        if let CommittedPolynomials::RamRa(_) = poly {
            continue;
        }
        let batch = poly.generate_witness(&prep(), &trace);
        for j in 0..trace.len() {
            let next = if j + 1 < trace.len() { &trace[j + 1] } else { &no_op };
            let streamed = poly.generate_streaming_witness(&prep(), &trace[j], next);
            assert_eq!(streamed, entry(&batch, j), "polynomial {:?} cycle {}", poly, j);
        }
    }
}

#[test]
fn streaming_witness_values() {
    let trace = sample_trace();
    let p = prep();
    assert_eq!(
        CommittedPolynomials::Product.generate_streaming_witness(&p, &trace[0], &trace[1]),
        StreamingWitness::U64Scalars(15)
    );
    assert_eq!(
        CommittedPolynomials::Product.generate_streaming_witness(&p, &trace[1], &trace[2]),
        StreamingWitness::U64Scalars(u64::MAX)
    );
    assert_eq!(
        CommittedPolynomials::ShouldJump.generate_streaming_witness(&p, &trace[1], &trace[2]),
        StreamingWitness::U8Scalars(0)
    );
    assert_eq!(
        CommittedPolynomials::ShouldJump.generate_streaming_witness(&p, &trace[0], &trace[1]),
        StreamingWitness::U8Scalars(1)
    );
    assert_eq!(
        CommittedPolynomials::InstructionRa(1).generate_streaming_witness(&p, &trace[0], &trace[1]),
        StreamingWitness::OneHot(0x0304)
    );
    assert_eq!(
        CommittedPolynomials::BytecodeRa.generate_streaming_witness(&p, &trace[1], &trace[2]),
        StreamingWitness::OneHot(4)
    );
}

#[test]
fn next_power_of_two_values() {
    assert_eq!(next_power_of_two(0), 1);
    assert_eq!(next_power_of_two(1), 1);
    assert_eq!(next_power_of_two(2), 2);
    assert_eq!(next_power_of_two(3), 4);
    assert_eq!(next_power_of_two(5), 8);
    assert_eq!(next_power_of_two(1 << 40), 1 << 40);
    assert_eq!(next_power_of_two((1 << 40) + 1), 1 << 41);
    for n in 0..2000usize {
        assert_eq!(next_power_of_two(n), n.next_power_of_two());
    }
}

#[test]
fn no_op_cycle_is_noop() {
    let n = CycleRecord::no_op();
    assert!(n.flags.is_noop);
    assert!(!n.flags.jump);
    assert_eq!(n.ram_access, RamAccess::NoOp);
}
