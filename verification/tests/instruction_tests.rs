use jolt_witness::instruction::{
    JoltParameterSet, RV32IMInstruction, RV32IParameterSet, ZkLeanInstruction, ZkLeanInstructions,
};
use jolt_witness::text::{indent, to_decimal_string};

type Instr = ZkLeanInstruction<RV32IParameterSet>;

#[test]
fn parameter_set_word_size() {
    assert_eq!(RV32IParameterSet::word_size(), 32);
}

#[test]
fn instruction_names() {
    assert_eq!(Instr::from(RV32IMInstruction::And).name(), "AND_32");
    assert_eq!(Instr::from(RV32IMInstruction::Or).name(), "OR_32");
    assert_eq!(Instr::from(RV32IMInstruction::Xor).name(), "XOR_32");
    assert_eq!(Instr::from(RV32IMInstruction::VirtualSrl).name(), "VirtualSRL_32");
    assert_eq!(Instr::from(RV32IMInstruction::VirtualSra).name(), "VirtualSRA_32");
}

#[test]
fn iter_lists_extracted_instructions_in_order() {
    let names: Vec<String> = Instr::iter().iter().map(|i| i.name()).collect();
    assert_eq!(names, vec!["AND_32", "OR_32", "XOR_32", "VirtualSRL_32", "VirtualSRA_32"]);
}

#[test]
fn pretty_print_one_instruction() {
    let i = Instr::from(RV32IMInstruction::Xor);
    let mut out = String::new();
    i.zklean_pretty_print(&mut out, &Some(String::from("x[0] + x[1]")), 1);
    assert_eq!(
        out,
        "  def XOR_32 [Field f] : ComposedLookupTable f 64 1 :=\n    mkComposedLookupTable #[ (subtableFromMLE (fun x => x[0] + x[1]), 0) ].toVector (fun x => x[0])\n"
    );
}

#[test]
fn pretty_print_without_mle_writes_nothing() {
    let i = Instr::from(RV32IMInstruction::And);
    let mut out = String::from("keep");
    i.zklean_pretty_print(&mut out, &None, 0);
    assert_eq!(out, "keep");
}

#[test]
fn pretty_print_all_instructions() {
    let all = ZkLeanInstructions::<RV32IParameterSet>::extract();
    assert_eq!(all.len(), 5);
    let mles = vec![
        Some(String::from("a")),
        None,
        Some(String::from("c")),
        None,
        Some(String::from("e")),
    ];
    let mut out = String::new();
    all.zklean_pretty_print(&mut out, &mles, 0);
    assert_eq!(
        out,
        "def AND_32 [Field f] : ComposedLookupTable f 64 1 :=\n  mkComposedLookupTable #[ (subtableFromMLE (fun x => a), 0) ].toVector (fun x => x[0])\n\
         def XOR_32 [Field f] : ComposedLookupTable f 64 1 :=\n  mkComposedLookupTable #[ (subtableFromMLE (fun x => c), 0) ].toVector (fun x => x[0])\n\
         def VirtualSRA_32 [Field f] : ComposedLookupTable f 64 1 :=\n  mkComposedLookupTable #[ (subtableFromMLE (fun x => e), 0) ].toVector (fun x => x[0])\n"
    );
}

#[test]
fn imports() {
    let all = ZkLeanInstructions::<RV32IParameterSet>::extract();
    assert_eq!(all.zklean_imports(), vec![String::from("ZkLean"), String::from("Jolt.Subtables")]);
}

#[test]
fn module_holds_the_text() {
    let all = ZkLeanInstructions::<RV32IParameterSet>::extract();
    let mles = vec![Some(String::from("1")), None, None, None, None];
    let m = all.as_module(&mles);
    assert_eq!(m.name, "Instructions");
    assert_eq!(m.imports, vec![String::from("ZkLean"), String::from("Jolt.Subtables")]);
    assert_eq!(
        m.contents,
        b"def AND_32 [Field f] : ComposedLookupTable f 64 1 :=\n  mkComposedLookupTable #[ (subtableFromMLE (fun x => 1), 0) ].toVector (fun x => x[0])\n".to_vec()
    );
}

#[test]
fn decimal_and_indent() {
    assert_eq!(to_decimal_string(0), "0");
    assert_eq!(to_decimal_string(7), "7");
    assert_eq!(to_decimal_string(10), "10");
    assert_eq!(to_decimal_string(1234567), "1234567");
    assert_eq!(to_decimal_string(usize::MAX), usize::MAX.to_string());
    assert_eq!(indent(0), "");
    assert_eq!(indent(3), "      ");
}
