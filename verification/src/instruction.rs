use vstd::prelude::*;

use core::marker::PhantomData;
use vstd::slice::slice_to_vec;
use vstd::utf8::encode_utf8;

use crate::text::{decimal, push_decimal, push_indent, spec_indent, INDENT_WIDTH};

verus! {

/// The RV32IM instructions whose lookup tables are extracted.
#[derive(Clone, Copy, Debug, PartialEq, Eq, Structural)]
pub enum RV32IMInstruction {
    And,
    Or,
    Xor,
    VirtualSrl,
    VirtualSra,
}

impl RV32IMInstruction {
    /// The name of the instruction's variant.
    pub open spec fn spec_static_name(self) -> Seq<char> {
        match self {
            RV32IMInstruction::And => "AND"@,
            RV32IMInstruction::Or => "OR"@,
            RV32IMInstruction::Xor => "XOR"@,
            RV32IMInstruction::VirtualSrl => "VirtualSRL"@,
            RV32IMInstruction::VirtualSra => "VirtualSRA"@,
        }
    }

    /// The name of the instruction's variant.
    pub fn static_name(&self) -> (r: &'static str)
        ensures
            r@ == self.spec_static_name(),
    {
        match self {
            RV32IMInstruction::And => "AND",
            RV32IMInstruction::Or => "OR",
            RV32IMInstruction::Xor => "XOR",
            RV32IMInstruction::VirtualSrl => "VirtualSRL",
            RV32IMInstruction::VirtualSra => "VirtualSRA",
        }
    }
}

/// The instructions that are extracted, in order.
pub open spec fn extracted_instructions() -> Seq<RV32IMInstruction> {
    seq![
        RV32IMInstruction::And,
        RV32IMInstruction::Or,
        RV32IMInstruction::Xor,
        RV32IMInstruction::VirtualSrl,
        RV32IMInstruction::VirtualSra,
    ]
}

/// Parameters of the instruction set.
pub trait JoltParameterSet {
    /// Number of bits in a machine word.
    spec fn spec_word_size() -> usize;

    /// Number of bits in a machine word.
    fn word_size() -> (r: usize)
        ensures
            r == Self::spec_word_size(),
    ;
}

/// The parameters of RV32I.
pub struct RV32IParameterSet;

impl JoltParameterSet for RV32IParameterSet {
    open spec fn spec_word_size() -> usize {
        32
    }

    fn word_size() -> (r: usize) {
        32
    }
}

/// The ZkLean `ComposedLookupTable` named `name` whose inputs have `reg_size`
/// bits: one chunk, read by the single subtable given by the multilinear
/// extension `mle`, whose value is the table's value.
pub open spec fn composed_table_text(
    name: Seq<char>,
    reg_size: nat,
    mle: Seq<char>,
    level: nat,
) -> Seq<char> {
    spec_indent(level) + "def "@ + name + " [Field f] : ComposedLookupTable f "@ + decimal(reg_size)
        + " 1 :=\n"@ + spec_indent(level + 1) + "mkComposedLookupTable #[ (subtableFromMLE (fun x => "@
        + mle + "), 0) ].toVector (fun x => x[0])\n"@
}

/// Wrapper around an instruction whose lookup table is extracted.
#[derive(Debug)]
pub struct ZkLeanInstruction<J> {
    instruction: RV32IMInstruction,
    phantom: PhantomData<J>,
}

impl<J> View for ZkLeanInstruction<J> {
    type V = RV32IMInstruction;

    closed spec fn view(&self) -> RV32IMInstruction {
        self.instruction
    }
}

impl<J> From<RV32IMInstruction> for ZkLeanInstruction<J> {
    /// Wraps an instruction.
    fn from(value: RV32IMInstruction) -> (r: Self)
        ensures
            r@ == value,
    {
        ZkLeanInstruction { instruction: value, phantom: PhantomData }
    }
}

impl<J> vstd::std_specs::convert::FromSpecImpl<RV32IMInstruction> for ZkLeanInstruction<J> {
    open spec fn obeys_from_spec() -> bool {
        true
    }

    closed spec fn from_spec(value: RV32IMInstruction) -> Self {
        ZkLeanInstruction { instruction: value, phantom: PhantomData }
    }
}

/// Name of an instruction at a word size.
pub open spec fn instruction_name(instruction: RV32IMInstruction, word_size: nat) -> Seq<char> {
    instruction.spec_static_name() + "_"@ + decimal(word_size)
}

/// The text of one instruction: its `ComposedLookupTable` if it has a
/// multilinear extension `mle`, nothing otherwise.
pub open spec fn instruction_text(
    instruction: RV32IMInstruction,
    word_size: nat,
    mle: Option<Seq<char>>,
    level: nat,
) -> Seq<char> {
    match mle {
        Some(m) => composed_table_text(instruction_name(instruction, word_size), 2 * word_size, m, level),
        None => Seq::empty(),
    }
}

/// A multilinear extension as text, if there is one.
pub open spec fn mle_text(mle: Option<String>) -> Option<Seq<char>> {
    match mle {
        Some(m) => Some(m@),
        None => None,
    }
}

impl<J: JoltParameterSet> ZkLeanInstruction<J> {
    /// The instruction's name with the word size, such as `AND_32`.
    pub fn name(&self) -> (r: String)
        ensures
            r@ == instruction_name(self@, J::spec_word_size() as nat),
    {
        let mut name = String::from_str(self.instruction.static_name());
        name.append("_");
        push_decimal(&mut name, J::word_size());
        name
    }

    /// The instructions that are extracted, in order.
    pub fn iter() -> (r: Vec<Self>)
        ensures
            r@.len() == extracted_instructions().len(),
            forall|i: int| 0 <= i < r@.len() ==> #[trigger] r@[i]@ == extracted_instructions()[i],
    {
        let mut r: Vec<Self> = Vec::new();
        r.push(ZkLeanInstruction::from(RV32IMInstruction::And));
        r.push(ZkLeanInstruction::from(RV32IMInstruction::Or));
        r.push(ZkLeanInstruction::from(RV32IMInstruction::Xor));
        r.push(ZkLeanInstruction::from(RV32IMInstruction::VirtualSrl));
        r.push(ZkLeanInstruction::from(RV32IMInstruction::VirtualSra));
        r
    }

    /// Appends the instruction as a ZkLean `ComposedLookupTable`, built from
    /// its multilinear extension `mle`, to `out`; nothing if there is none.
    pub fn zklean_pretty_print(&self, out: &mut String, mle: &Option<String>, indent_level: usize)
        requires
            J::spec_word_size() * 2 <= usize::MAX,
            (indent_level + 1) * INDENT_WIDTH <= usize::MAX,
        ensures
            final(out)@ == old(out)@ + instruction_text(
                self@,
                J::spec_word_size() as nat,
                mle_text(*mle),
                indent_level as nat,
            ),
    {
        match mle {
            Some(m) => {
                let name = self.name();
                let reg_size = 2 * J::word_size();
                push_indent(out, indent_level);
                out.append("def ");
                out.append(name.as_str());
                out.append(" [Field f] : ComposedLookupTable f ");
                push_decimal(out, reg_size);
                out.append(" 1 :=\n");
                push_indent(out, indent_level + 1);
                out.append("mkComposedLookupTable #[ (subtableFromMLE (fun x => ");
                out.append(m.as_str());
                out.append("), 0) ].toVector (fun x => x[0])\n");
                assert(out@ =~= old(out)@ + instruction_text(
                    self@,
                    J::spec_word_size() as nat,
                    mle_text(*mle),
                    indent_level as nat,
                ));
            },
            None => {
                assert(out@ =~= old(out)@ + instruction_text(
                    self@,
                    J::spec_word_size() as nat,
                    mle_text(*mle),
                    indent_level as nat,
                ));
            },
        }
    }
}

/// The text of several instructions, one after the other.
pub open spec fn instructions_text(
    instructions: Seq<RV32IMInstruction>,
    word_size: nat,
    mles: Seq<Option<String>>,
    level: nat,
) -> Seq<char>
    decreases instructions.len(),
{
    if instructions.len() == 0 {
        Seq::empty()
    } else {
        instructions_text(instructions.drop_last(), word_size, mles.drop_last(), level)
            + instruction_text(instructions.last(), word_size, mle_text(mles.last()), level)
    }
}

/// Printing several instructions appends, in order, exactly what printing
/// each of them on its own appends, instruction `i` with the `i`-th
/// multilinear extension.
pub proof fn lemma_instructions_text_is_each_text(
    instructions: Seq<RV32IMInstruction>,
    word_size: nat,
    mles: Seq<Option<String>>,
    level: nat,
)
    requires
        mles.len() == instructions.len(),
    ensures
        instructions_text(instructions, word_size, mles, level) == Seq::new(
            instructions.len(),
            |i: int| instruction_text(instructions[i], word_size, mle_text(mles[i]), level),
        ).flatten(),
    decreases instructions.len(),
{
    let each = Seq::new(
        instructions.len(),
        |i: int| instruction_text(instructions[i], word_size, mle_text(mles[i]), level),
    );
    each.lemma_flatten_and_flatten_alt_are_equivalent();
    if instructions.len() > 0 {
        let ins = instructions.drop_last();
        let ms = mles.drop_last();
        lemma_instructions_text_is_each_text(ins, word_size, ms, level);
        let prev = Seq::new(
            ins.len(),
            |i: int| instruction_text(ins[i], word_size, mle_text(ms[i]), level),
        );
        assert(each.drop_last() =~= prev);
        prev.lemma_flatten_and_flatten_alt_are_equivalent();
    }
}

/// A generated Lean module.
#[derive(Debug)]
pub struct Module {
    /// Name of the module.
    pub name: String,
    /// Modules it imports.
    pub imports: Vec<String>,
    /// Its text, UTF-8 encoded.
    pub contents: Vec<u8>,
}

/// The instructions whose lookup tables are extracted.
#[derive(Debug)]
pub struct ZkLeanInstructions<J> {
    instructions: Vec<ZkLeanInstruction<J>>,
}

impl<J> View for ZkLeanInstructions<J> {
    type V = Seq<RV32IMInstruction>;

    closed spec fn view(&self) -> Seq<RV32IMInstruction> {
        self.instructions@.map_values(|i: ZkLeanInstruction<J>| i@)
    }
}

impl<J: JoltParameterSet> ZkLeanInstructions<J> {
    /// All the instructions that are extracted.
    pub fn extract() -> (r: Self)
        ensures
            r@ == extracted_instructions(),
    {
        let instructions = ZkLeanInstruction::<J>::iter();
        let r = ZkLeanInstructions { instructions };
        assert(r@ =~= extracted_instructions());
        r
    }

    /// Number of instructions.
    pub fn len(&self) -> (r: usize)
        ensures
            r == self@.len(),
    {
        self.instructions.len()
    }

    /// Appends the lookup tables of all instructions to `out`, built
    /// from their multilinear extensions `mles`, one per instruction.
    pub fn zklean_pretty_print(
        &self,
        out: &mut String,
        mles: &Vec<Option<String>>,
        indent_level: usize,
    )
        requires
            mles@.len() == self@.len(),
            J::spec_word_size() * 2 <= usize::MAX,
            (indent_level + 1) * INDENT_WIDTH <= usize::MAX,
        ensures
            final(out)@ == old(out)@ + instructions_text(
                self@,
                J::spec_word_size() as nat,
                mles@,
                indent_level as nat,
            ),
    {
        let n = self.instructions.len();
        let mut i: usize = 0;
        while i < n
            invariant
                i <= n,
                n == self.instructions@.len(),
                mles@.len() == n,
                self@ == self.instructions@.map_values(|z: ZkLeanInstruction<J>| z@),
                J::spec_word_size() * 2 <= usize::MAX,
                (indent_level + 1) * INDENT_WIDTH <= usize::MAX,
                out@ == old(out)@ + instructions_text(
                    self@.subrange(0, i as int),
                    J::spec_word_size() as nat,
                    mles@.subrange(0, i as int),
                    indent_level as nat,
                ),
            decreases n - i,
        {
            self.instructions[i].zklean_pretty_print(out, &mles[i], indent_level);
            proof {
                let s = self@.subrange(0, i + 1);
                let m = mles@.subrange(0, i + 1);
                assert(s.drop_last() =~= self@.subrange(0, i as int));
                assert(m.drop_last() =~= mles@.subrange(0, i as int));
                assert(s.last() == self.instructions@[i as int]@);
            }
            i = i + 1;
        }
        assert(self@.subrange(0, n as int) =~= self@);
        assert(mles@.subrange(0, n as int) =~= mles@);
    }

    /// The modules the generated text imports.
    pub fn zklean_imports(&self) -> (r: Vec<String>)
        ensures
            r@.len() == 2,
            r@[0]@ == "ZkLean"@,
            r@[1]@ == "Jolt.Subtables"@,
    {
        let mut r: Vec<String> = Vec::new();
        r.push(String::from_str("ZkLean"));
        r.push(String::from_str("Jolt.Subtables"));
        r
    }

    /// The `Instructions` module: the lookup tables of all
    /// instructions, built from their multilinear extensions `mles`.
    pub fn as_module(&self, mles: &Vec<Option<String>>) -> (r: Module)
        requires
            mles@.len() == self@.len(),
            J::spec_word_size() * 2 <= usize::MAX,
        ensures
            r.name@ == "Instructions"@,
            r.imports@.len() == 2,
            r.imports@[0]@ == "ZkLean"@,
            r.imports@[1]@ == "Jolt.Subtables"@,
            r.contents@ == encode_utf8(instructions_text(self@, J::spec_word_size() as nat, mles@, 0)),
    {
        let mut text = String::new();
        self.zklean_pretty_print(&mut text, mles, 0);
        assert(text@ =~= instructions_text(self@, J::spec_word_size() as nat, mles@, 0));
        let contents = slice_to_vec(text.as_str().as_bytes());
        Module { name: String::from_str("Instructions"), imports: self.zklean_imports(), contents }
    }
}

} // verus!
