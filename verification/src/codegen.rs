use vstd::prelude::*;

use crate::enum_decl::{
    strings_view, variant_ident, variants_view, EnumParser, EnumView, VariantParser, VariantView,
};

verus! {

/// A module path: each segment followed by `::`.
pub open spec fn path_text(path: Seq<Seq<char>>) -> Seq<char>
    decreases path.len(),
{
    if path.len() == 0 {
        seq![]
    } else {
        path_text(path.drop_last()) + path.last() + "::"@
    }
}

/// The type of an entry, behind its module path.
pub open spec fn type_text(v: VariantView) -> Seq<char> {
    path_text(v.path) + v.id
}

/// Const generic arguments separated by `, `.
pub open spec fn generics_text(gs: Seq<Seq<char>>) -> Seq<char>
    decreases gs.len(),
{
    if gs.len() == 0 {
        seq![]
    } else if gs.len() == 1 {
        gs[0]
    } else {
        generics_text(gs.drop_last()) + ", "@ + gs.last()
    }
}

/// Appends the type of an entry, behind its module path.
fn push_type(out: &mut String, v: &VariantParser)
    ensures
        final(out)@ == old(out)@ + type_text(v@),
{
    let n = v.path.len();
    let ghost p = strings_view(v.path@);
    let mut i: usize = 0;
    assert(p.subrange(0, 0) =~= seq![]);
    assert(old(out)@ + path_text(p.subrange(0, 0)) =~= old(out)@);
    while i < n
        invariant
            i <= n,
            n == v.path@.len(),
            p == strings_view(v.path@),
            out@ == old(out)@ + path_text(p.subrange(0, i as int)),
        decreases n - i,
    {
        out.append(v.path[i].as_str());
        out.append("::");
        proof {
            let q = p.subrange(0, i + 1);
            assert(q.drop_last() =~= p.subrange(0, i as int));
            assert(q.last() == v.path@[i as int]@);
        }
        assert(out@ =~= old(out)@ + path_text(p.subrange(0, i + 1)));
        i = i + 1;
    }
    assert(p.subrange(0, n as int) =~= p);
    out.append(v.id.as_str());
    assert(out@ =~= old(out)@ + type_text(v@));
}

/// Appends the const generic arguments of an entry, separated by `, `.
fn push_generics(out: &mut String, v: &VariantParser)
    ensures
        final(out)@ == old(out)@ + generics_text(v@.const_generics),
{
    let n = v.const_generics.len();
    let ghost g = strings_view(v.const_generics@);
    let mut i: usize = 0;
    assert(g.subrange(0, 0) =~= seq![]);
    assert(old(out)@ + generics_text(g.subrange(0, 0)) =~= old(out)@);
    while i < n
        invariant
            i <= n,
            n == v.const_generics@.len(),
            g == strings_view(v.const_generics@),
            out@ == old(out)@ + generics_text(g.subrange(0, i as int)),
        decreases n - i,
    {
        if i > 0 {
            out.append(", ");
        }
        out.append(v.const_generics[i].as_str());
        proof {
            let q = g.subrange(0, i + 1);
            assert(q.drop_last() =~= g.subrange(0, i as int));
            assert(q.last() == v.const_generics@[i as int]@);
            if i == 0 {
                assert(q =~= seq![q[0]]);
            }
        }
        assert(out@ =~= old(out)@ + generics_text(g.subrange(0, i + 1)));
        i = i + 1;
    }
    assert(g.subrange(0, n as int) =~= g);
}

/// The subtable enum variant of an entry.
pub open spec fn subtable_variant_text(v: VariantView) -> Seq<char> {
    "#[allow(non_camel_case_types)]\n"@
        + variant_ident(v)
        + "("@
        + type_text(v)
        + "<F, "@
        + generics_text(v.const_generics)
        + ">),\n"@
}

/// The subtable variant of each entry, in order.
pub open spec fn concat_subtable_variant_text(es: Seq<VariantView>) -> Seq<char>
    decreases es.len(),
{
    if es.len() == 0 {
        seq![]
    } else {
        concat_subtable_variant_text(es.drop_last()) + subtable_variant_text(es.last())
    }
}

fn push_subtable_variant_text(out: &mut String, v: &VariantParser)
    ensures
        final(out)@ == old(out)@ + subtable_variant_text(v@),
{
    let name = v.to_ident();
    let ghost mut text: Seq<char> = seq![];
    out.append("#[allow(non_camel_case_types)]\n");
    proof {
        text = text + "#[allow(non_camel_case_types)]\n"@;
    }
    assert(out@ =~= old(out)@ + text);
    out.append(name.as_str());
    proof {
        text = text + variant_ident(v@);
    }
    assert(out@ =~= old(out)@ + text);
    out.append("(");
    proof {
        text = text + "("@;
    }
    assert(out@ =~= old(out)@ + text);
    push_type(out, v);
    proof {
        text = text + type_text(v@);
    }
    assert(out@ =~= old(out)@ + text);
    out.append("<F, ");
    proof {
        text = text + "<F, "@;
    }
    assert(out@ =~= old(out)@ + text);
    push_generics(out, v);
    proof {
        text = text + generics_text(v@.const_generics);
    }
    assert(out@ =~= old(out)@ + text);
    out.append(">),\n");
    proof {
        text = text + ">),\n"@;
    }
    assert(out@ =~= old(out)@ + text);
    assert(text =~= subtable_variant_text(v@));
}

/// The `name()` arm of an entry: its variant name, as a string.
pub open spec fn name_case_text(v: VariantView) -> Seq<char> {
    "Self::"@
        + variant_ident(v)
        + "(_) => \""@
        + variant_ident(v)
        + "\",\n"@
}

/// The name case of each entry, in order.
pub open spec fn concat_name_case_text(es: Seq<VariantView>) -> Seq<char>
    decreases es.len(),
{
    if es.len() == 0 {
        seq![]
    } else {
        concat_name_case_text(es.drop_last()) + name_case_text(es.last())
    }
}

fn push_name_case_text(out: &mut String, v: &VariantParser)
    ensures
        final(out)@ == old(out)@ + name_case_text(v@),
{
    let name = v.to_ident();
    let ghost mut text: Seq<char> = seq![];
    out.append("Self::");
    proof {
        text = text + "Self::"@;
    }
    assert(out@ =~= old(out)@ + text);
    out.append(name.as_str());
    proof {
        text = text + variant_ident(v@);
    }
    assert(out@ =~= old(out)@ + text);
    out.append("(_) => \"");
    proof {
        text = text + "(_) => \""@;
    }
    assert(out@ =~= old(out)@ + text);
    out.append(name.as_str());
    proof {
        text = text + variant_ident(v@);
    }
    assert(out@ =~= old(out)@ + text);
    out.append("\",\n");
    proof {
        text = text + "\",\n"@;
    }
    assert(out@ =~= old(out)@ + text);
    assert(text =~= name_case_text(v@));
}

/// The `evaluate_mle()` arm of an entry.
pub open spec fn eval_case_text(v: VariantView) -> Seq<char> {
    "Self::"@
        + variant_ident(v)
        + "(s) => s.evaluate_mle(&vars),\n"@
}

/// The eval case of each entry, in order.
pub open spec fn concat_eval_case_text(es: Seq<VariantView>) -> Seq<char>
    decreases es.len(),
{
    if es.len() == 0 {
        seq![]
    } else {
        concat_eval_case_text(es.drop_last()) + eval_case_text(es.last())
    }
}

fn push_eval_case_text(out: &mut String, v: &VariantParser)
    ensures
        final(out)@ == old(out)@ + eval_case_text(v@),
{
    let name = v.to_ident();
    let ghost mut text: Seq<char> = seq![];
    out.append("Self::");
    proof {
        text = text + "Self::"@;
    }
    assert(out@ =~= old(out)@ + text);
    out.append(name.as_str());
    proof {
        text = text + variant_ident(v@);
    }
    assert(out@ =~= old(out)@ + text);
    out.append("(s) => s.evaluate_mle(&vars),\n");
    proof {
        text = text + "(s) => s.evaluate_mle(&vars),\n"@;
    }
    assert(out@ =~= old(out)@ + text);
    assert(text =~= eval_case_text(v@));
}

/// The `enumerate()` item of a subtable entry.
pub open spec fn subtable_new_text(v: VariantView) -> Seq<char> {
    "Self::"@
        + variant_ident(v)
        + "("@
        + type_text(v)
        + "::new()),\n"@
}

/// The subtable new of each entry, in order.
pub open spec fn concat_subtable_new_text(es: Seq<VariantView>) -> Seq<char>
    decreases es.len(),
{
    if es.len() == 0 {
        seq![]
    } else {
        concat_subtable_new_text(es.drop_last()) + subtable_new_text(es.last())
    }
}

fn push_subtable_new_text(out: &mut String, v: &VariantParser)
    ensures
        final(out)@ == old(out)@ + subtable_new_text(v@),
{
    let name = v.to_ident();
    let ghost mut text: Seq<char> = seq![];
    out.append("Self::");
    proof {
        text = text + "Self::"@;
    }
    assert(out@ =~= old(out)@ + text);
    out.append(name.as_str());
    proof {
        text = text + variant_ident(v@);
    }
    assert(out@ =~= old(out)@ + text);
    out.append("(");
    proof {
        text = text + "("@;
    }
    assert(out@ =~= old(out)@ + text);
    push_type(out, v);
    proof {
        text = text + type_text(v@);
    }
    assert(out@ =~= old(out)@ + text);
    out.append("::new()),\n");
    proof {
        text = text + "::new()),\n"@;
    }
    assert(out@ =~= old(out)@ + text);
    assert(text =~= subtable_new_text(v@));
}

/// The `from_subtable_id()` test of a subtable entry.
pub open spec fn subtable_from_id_text(v: VariantView) -> Seq<char> {
    "if t == "@
        + type_text(v)
        + "::<F, "@
        + generics_text(v.const_generics)
        + ">::new().subtable_id() {\nreturn Self::"@
        + variant_ident(v)
        + "("@
        + type_text(v)
        + "::<F, "@
        + generics_text(v.const_generics)
        + ">::new());\n}\n"@
}

/// The subtable from id of each entry, in order.
pub open spec fn concat_subtable_from_id_text(es: Seq<VariantView>) -> Seq<char>
    decreases es.len(),
{
    if es.len() == 0 {
        seq![]
    } else {
        concat_subtable_from_id_text(es.drop_last()) + subtable_from_id_text(es.last())
    }
}

fn push_subtable_from_id_text(out: &mut String, v: &VariantParser)
    ensures
        final(out)@ == old(out)@ + subtable_from_id_text(v@),
{
    let name = v.to_ident();
    let ghost mut text: Seq<char> = seq![];
    out.append("if t == ");
    proof {
        text = text + "if t == "@;
    }
    assert(out@ =~= old(out)@ + text);
    push_type(out, v);
    proof {
        text = text + type_text(v@);
    }
    assert(out@ =~= old(out)@ + text);
    out.append("::<F, ");
    proof {
        text = text + "::<F, "@;
    }
    assert(out@ =~= old(out)@ + text);
    push_generics(out, v);
    proof {
        text = text + generics_text(v@.const_generics);
    }
    assert(out@ =~= old(out)@ + text);
    out.append(">::new().subtable_id() {\nreturn Self::");
    proof {
        text = text + ">::new().subtable_id() {\nreturn Self::"@;
    }
    assert(out@ =~= old(out)@ + text);
    out.append(name.as_str());
    proof {
        text = text + variant_ident(v@);
    }
    assert(out@ =~= old(out)@ + text);
    out.append("(");
    proof {
        text = text + "("@;
    }
    assert(out@ =~= old(out)@ + text);
    push_type(out, v);
    proof {
        text = text + type_text(v@);
    }
    assert(out@ =~= old(out)@ + text);
    out.append("::<F, ");
    proof {
        text = text + "::<F, "@;
    }
    assert(out@ =~= old(out)@ + text);
    push_generics(out, v);
    proof {
        text = text + generics_text(v@.const_generics);
    }
    assert(out@ =~= old(out)@ + text);
    out.append(">::new());\n}\n");
    proof {
        text = text + ">::new());\n}\n"@;
    }
    assert(out@ =~= old(out)@ + text);
    assert(text =~= subtable_from_id_text(v@));
}

/// The property test of a subtable entry.
pub open spec fn subtable_test_text(v: VariantView) -> Seq<char> {
    "/// Test that extracting the subtable as an `crate::mle_ast::MleAst` and evaluating it\n/// results in the same value as simply evaluating it would.\n#[test]\n#[allow(non_snake_case)]\nfn "@
        + variant_ident(v)
        + "(values_u64 in proptest::collection::vec(proptest::num::u64::ANY, 8)) {\ntype RefField = jolt_core::field::binius::BiniusField<binius_field::BinaryField128b>;\ntype AstField = crate::mle_ast::MleAst<2048>;\nlet (actual, expected, mle) = crate::util::test_evaluate_fn(\n&values_u64,\n"@
        + type_text(v)
        + "::<RefField, "@
        + generics_text(v.const_generics)
        + ">::new(),\n"@
        + type_text(v)
        + "::<AstField, "@
        + generics_text(v.const_generics)
        + ">::new(),\n);\nprop_assert_eq!(actual, expected, \"\\n   mle: {}:\", mle);\n}\n"@
}

/// The subtable test of each entry, in order.
pub open spec fn concat_subtable_test_text(es: Seq<VariantView>) -> Seq<char>
    decreases es.len(),
{
    if es.len() == 0 {
        seq![]
    } else {
        concat_subtable_test_text(es.drop_last()) + subtable_test_text(es.last())
    }
}

fn push_subtable_test_text(out: &mut String, v: &VariantParser)
    ensures
        final(out)@ == old(out)@ + subtable_test_text(v@),
{
    let name = v.to_ident();
    let ghost mut text: Seq<char> = seq![];
    out.append("/// Test that extracting the subtable as an `crate::mle_ast::MleAst` and evaluating it\n/// results in the same value as simply evaluating it would.\n#[test]\n#[allow(non_snake_case)]\nfn ");
    proof {
        text = text + "/// Test that extracting the subtable as an `crate::mle_ast::MleAst` and evaluating it\n/// results in the same value as simply evaluating it would.\n#[test]\n#[allow(non_snake_case)]\nfn "@;
    }
    assert(out@ =~= old(out)@ + text);
    out.append(name.as_str());
    proof {
        text = text + variant_ident(v@);
    }
    assert(out@ =~= old(out)@ + text);
    out.append("(values_u64 in proptest::collection::vec(proptest::num::u64::ANY, 8)) {\ntype RefField = jolt_core::field::binius::BiniusField<binius_field::BinaryField128b>;\ntype AstField = crate::mle_ast::MleAst<2048>;\nlet (actual, expected, mle) = crate::util::test_evaluate_fn(\n&values_u64,\n");
    proof {
        text = text + "(values_u64 in proptest::collection::vec(proptest::num::u64::ANY, 8)) {\ntype RefField = jolt_core::field::binius::BiniusField<binius_field::BinaryField128b>;\ntype AstField = crate::mle_ast::MleAst<2048>;\nlet (actual, expected, mle) = crate::util::test_evaluate_fn(\n&values_u64,\n"@;
    }
    assert(out@ =~= old(out)@ + text);
    push_type(out, v);
    proof {
        text = text + type_text(v@);
    }
    assert(out@ =~= old(out)@ + text);
    out.append("::<RefField, ");
    proof {
        text = text + "::<RefField, "@;
    }
    assert(out@ =~= old(out)@ + text);
    push_generics(out, v);
    proof {
        text = text + generics_text(v@.const_generics);
    }
    assert(out@ =~= old(out)@ + text);
    out.append(">::new(),\n");
    proof {
        text = text + ">::new(),\n"@;
    }
    assert(out@ =~= old(out)@ + text);
    push_type(out, v);
    proof {
        text = text + type_text(v@);
    }
    assert(out@ =~= old(out)@ + text);
    out.append("::<AstField, ");
    proof {
        text = text + "::<AstField, "@;
    }
    assert(out@ =~= old(out)@ + text);
    push_generics(out, v);
    proof {
        text = text + generics_text(v@.const_generics);
    }
    assert(out@ =~= old(out)@ + text);
    out.append(">::new(),\n);\nprop_assert_eq!(actual, expected, \"\\n   mle: {}:\", mle);\n}\n");
    proof {
        text = text + ">::new(),\n);\nprop_assert_eq!(actual, expected, \"\\n   mle: {}:\", mle);\n}\n"@;
    }
    assert(out@ =~= old(out)@ + text);
    assert(text =~= subtable_test_text(v@));
}

/// The instruction enum variant of an entry.
pub open spec fn instruction_variant_text(v: VariantView) -> Seq<char> {
    "#[allow(non_camel_case_types)]\n"@
        + variant_ident(v)
        + "("@
        + type_text(v)
        + "<WORD_SIZE, "@
        + generics_text(v.const_generics)
        + ">),\n"@
}

/// The instruction variant of each entry, in order.
pub open spec fn concat_instruction_variant_text(es: Seq<VariantView>) -> Seq<char>
    decreases es.len(),
{
    if es.len() == 0 {
        seq![]
    } else {
        concat_instruction_variant_text(es.drop_last()) + instruction_variant_text(es.last())
    }
}

fn push_instruction_variant_text(out: &mut String, v: &VariantParser)
    ensures
        final(out)@ == old(out)@ + instruction_variant_text(v@),
{
    let name = v.to_ident();
    let ghost mut text: Seq<char> = seq![];
    out.append("#[allow(non_camel_case_types)]\n");
    proof {
        text = text + "#[allow(non_camel_case_types)]\n"@;
    }
    assert(out@ =~= old(out)@ + text);
    out.append(name.as_str());
    proof {
        text = text + variant_ident(v@);
    }
    assert(out@ =~= old(out)@ + text);
    out.append("(");
    proof {
        text = text + "("@;
    }
    assert(out@ =~= old(out)@ + text);
    push_type(out, v);
    proof {
        text = text + type_text(v@);
    }
    assert(out@ =~= old(out)@ + text);
    out.append("<WORD_SIZE, ");
    proof {
        text = text + "<WORD_SIZE, "@;
    }
    assert(out@ =~= old(out)@ + text);
    push_generics(out, v);
    proof {
        text = text + generics_text(v@.const_generics);
    }
    assert(out@ =~= old(out)@ + text);
    out.append(">),\n");
    proof {
        text = text + ">),\n"@;
    }
    assert(out@ =~= old(out)@ + text);
    assert(text =~= instruction_variant_text(v@));
}

/// The `combine_lookups()` arm of an entry.
pub open spec fn combine_case_text(v: VariantView) -> Seq<char> {
    "Self::"@
        + variant_ident(v)
        + "(i) => i.combine_lookups(&vars, c, m),\n"@
}

/// The combine case of each entry, in order.
pub open spec fn concat_combine_case_text(es: Seq<VariantView>) -> Seq<char>
    decreases es.len(),
{
    if es.len() == 0 {
        seq![]
    } else {
        concat_combine_case_text(es.drop_last()) + combine_case_text(es.last())
    }
}

fn push_combine_case_text(out: &mut String, v: &VariantParser)
    ensures
        final(out)@ == old(out)@ + combine_case_text(v@),
{
    let name = v.to_ident();
    let ghost mut text: Seq<char> = seq![];
    out.append("Self::");
    proof {
        text = text + "Self::"@;
    }
    assert(out@ =~= old(out)@ + text);
    out.append(name.as_str());
    proof {
        text = text + variant_ident(v@);
    }
    assert(out@ =~= old(out)@ + text);
    out.append("(i) => i.combine_lookups(&vars, c, m),\n");
    proof {
        text = text + "(i) => i.combine_lookups(&vars, c, m),\n"@;
    }
    assert(out@ =~= old(out)@ + text);
    assert(text =~= combine_case_text(v@));
}

/// The `subtables()` arm of an entry.
pub open spec fn subtables_case_text(v: VariantView) -> Seq<char> {
    "Self::"@
        + variant_ident(v)
        + "(i) => i.subtables(c, m),\n"@
}

/// The subtables case of each entry, in order.
pub open spec fn concat_subtables_case_text(es: Seq<VariantView>) -> Seq<char>
    decreases es.len(),
{
    if es.len() == 0 {
        seq![]
    } else {
        concat_subtables_case_text(es.drop_last()) + subtables_case_text(es.last())
    }
}

fn push_subtables_case_text(out: &mut String, v: &VariantParser)
    ensures
        final(out)@ == old(out)@ + subtables_case_text(v@),
{
    let name = v.to_ident();
    let ghost mut text: Seq<char> = seq![];
    out.append("Self::");
    proof {
        text = text + "Self::"@;
    }
    assert(out@ =~= old(out)@ + text);
    out.append(name.as_str());
    proof {
        text = text + variant_ident(v@);
    }
    assert(out@ =~= old(out)@ + text);
    out.append("(i) => i.subtables(c, m),\n");
    proof {
        text = text + "(i) => i.subtables(c, m),\n"@;
    }
    assert(out@ =~= old(out)@ + text);
    assert(text =~= subtables_case_text(v@));
}

/// The `enumerate()` item of an instruction entry.
pub open spec fn instruction_new_text(v: VariantView) -> Seq<char> {
    "Self::"@
        + variant_ident(v)
        + "("@
        + type_text(v)
        + "(42, 9001)),\n"@
}

/// The instruction new of each entry, in order.
pub open spec fn concat_instruction_new_text(es: Seq<VariantView>) -> Seq<char>
    decreases es.len(),
{
    if es.len() == 0 {
        seq![]
    } else {
        concat_instruction_new_text(es.drop_last()) + instruction_new_text(es.last())
    }
}

fn push_instruction_new_text(out: &mut String, v: &VariantParser)
    ensures
        final(out)@ == old(out)@ + instruction_new_text(v@),
{
    let name = v.to_ident();
    let ghost mut text: Seq<char> = seq![];
    out.append("Self::");
    proof {
        text = text + "Self::"@;
    }
    assert(out@ =~= old(out)@ + text);
    out.append(name.as_str());
    proof {
        text = text + variant_ident(v@);
    }
    assert(out@ =~= old(out)@ + text);
    out.append("(");
    proof {
        text = text + "("@;
    }
    assert(out@ =~= old(out)@ + text);
    push_type(out, v);
    proof {
        text = text + type_text(v@);
    }
    assert(out@ =~= old(out)@ + text);
    out.append("(42, 9001)),\n");
    proof {
        text = text + "(42, 9001)),\n"@;
    }
    assert(out@ =~= old(out)@ + text);
    assert(text =~= instruction_new_text(v@));
}

/// The source text that declares the enum of `e`.
pub open spec fn spec_subtables_enum_source(e: EnumView) -> Seq<char> {
    "pub enum "@
        + e.id
        + "<F: crate::util::ZkLeanReprField> {\n"@
        + concat_subtable_variant_text(e.entries)
        + "}\n\n"@
        + "impl<F: crate::util::ZkLeanReprField> "@
        + e.id
        + "<F> {\n"@
        + "/// Name of this subtable variant, incorporating the type and any const-generics.\npub fn name(&self) -> &'static str {\nmatch self {\n"@
        + concat_name_case_text(e.entries)
        + "}\n}\n\n"@
        + "/// Call the `evaluate_mle` method on the contained subtable.\npub fn evaluate_mle(&self, reg_name: char, reg_size: usize) -> F {\nuse jolt_core::jolt::subtable::LassoSubtable;\nuse crate::util::ZkLeanReprField;\nlet vars = F::register(reg_name, reg_size);\nmatch self {\n"@
        + concat_eval_case_text(e.entries)
        + "}\n}\n\n"@
        + "/// Enumerate all variants.\npub fn enumerate() -> Vec<Self> {\nvec![\n"@
        + concat_subtable_new_text(e.entries)
        + "]\n}\n\n"@
        + "/// Construct a new object of the appropriate type given a subtable's\n/// [`std::any::TypeId`].\npub fn from_subtable_id(t: std::any::TypeId) -> Self {\nuse jolt_core::jolt::subtable::LassoSubtable;\n"@
        + concat_subtable_from_id_text(e.entries)
        + "panic!(\"Unimplemented conversion from {t:?}\")\n}\n}\n\n"@
        + "#[cfg(test)]\nmod tests {\nuse super::*;\nuse proptest::prelude::*;\nproptest! {\n"@
        + concat_subtable_test_text(e.entries)
        + "}\n}\n"@
}

/// The source text that declares the enum of `decl`.
pub fn subtables_enum_source(decl: &EnumParser) -> (r: String)
    ensures
        r@ == spec_subtables_enum_source(decl@),
{
    let mut out = String::new();
    let ghost es = decl@.entries;
    let n = decl.entries.len();
    assert(es == variants_view(decl.entries@));
    let ghost mut text: Seq<char> = seq![];
    out.append("pub enum ");
    proof {
        text = text + "pub enum "@;
    }
    assert(out@ =~= text);
    out.append(decl.id.as_str());
    proof {
        text = text + decl@.id;
    }
    assert(out@ =~= text);
    out.append("<F: crate::util::ZkLeanReprField> {\n");
    proof {
        text = text + "<F: crate::util::ZkLeanReprField> {\n"@;
    }
    assert(out@ =~= text);
    let ghost before = out@;
    let mut i: usize = 0;
    assert(es.subrange(0, 0) =~= seq![]);
    assert(before + concat_subtable_variant_text(es.subrange(0, 0)) =~= before);
    while i < n
        invariant
            i <= n,
            n == decl.entries@.len(),
            es == variants_view(decl.entries@),
            out@ == before + concat_subtable_variant_text(es.subrange(0, i as int)),
        decreases n - i,
    {
        push_subtable_variant_text(&mut out, &decl.entries[i]);
        proof {
            assert(es.subrange(0, i + 1).drop_last() =~= es.subrange(0, i as int));
            assert(es[i as int] == decl.entries@[i as int]@);
        }
        i = i + 1;
    }
    assert(es.subrange(0, n as int) =~= es);
    proof {
        text = text + concat_subtable_variant_text(decl@.entries);
    }
    assert(out@ =~= text);
    out.append("}\n\n");
    proof {
        text = text + "}\n\n"@;
    }
    assert(out@ =~= text);
    out.append("impl<F: crate::util::ZkLeanReprField> ");
    proof {
        text = text + "impl<F: crate::util::ZkLeanReprField> "@;
    }
    assert(out@ =~= text);
    out.append(decl.id.as_str());
    proof {
        text = text + decl@.id;
    }
    assert(out@ =~= text);
    out.append("<F> {\n");
    proof {
        text = text + "<F> {\n"@;
    }
    assert(out@ =~= text);
    out.append("/// Name of this subtable variant, incorporating the type and any const-generics.\npub fn name(&self) -> &'static str {\nmatch self {\n");
    proof {
        text = text + "/// Name of this subtable variant, incorporating the type and any const-generics.\npub fn name(&self) -> &'static str {\nmatch self {\n"@;
    }
    assert(out@ =~= text);
    let ghost before = out@;
    let mut i: usize = 0;
    assert(es.subrange(0, 0) =~= seq![]);
    assert(before + concat_name_case_text(es.subrange(0, 0)) =~= before);
    while i < n
        invariant
            i <= n,
            n == decl.entries@.len(),
            es == variants_view(decl.entries@),
            out@ == before + concat_name_case_text(es.subrange(0, i as int)),
        decreases n - i,
    {
        push_name_case_text(&mut out, &decl.entries[i]);
        proof {
            assert(es.subrange(0, i + 1).drop_last() =~= es.subrange(0, i as int));
            assert(es[i as int] == decl.entries@[i as int]@);
        }
        i = i + 1;
    }
    assert(es.subrange(0, n as int) =~= es);
    proof {
        text = text + concat_name_case_text(decl@.entries);
    }
    assert(out@ =~= text);
    out.append("}\n}\n\n");
    proof {
        text = text + "}\n}\n\n"@;
    }
    assert(out@ =~= text);
    out.append("/// Call the `evaluate_mle` method on the contained subtable.\npub fn evaluate_mle(&self, reg_name: char, reg_size: usize) -> F {\nuse jolt_core::jolt::subtable::LassoSubtable;\nuse crate::util::ZkLeanReprField;\nlet vars = F::register(reg_name, reg_size);\nmatch self {\n");
    proof {
        text = text + "/// Call the `evaluate_mle` method on the contained subtable.\npub fn evaluate_mle(&self, reg_name: char, reg_size: usize) -> F {\nuse jolt_core::jolt::subtable::LassoSubtable;\nuse crate::util::ZkLeanReprField;\nlet vars = F::register(reg_name, reg_size);\nmatch self {\n"@;
    }
    assert(out@ =~= text);
    let ghost before = out@;
    let mut i: usize = 0;
    assert(es.subrange(0, 0) =~= seq![]);
    assert(before + concat_eval_case_text(es.subrange(0, 0)) =~= before);
    while i < n
        invariant
            i <= n,
            n == decl.entries@.len(),
            es == variants_view(decl.entries@),
            out@ == before + concat_eval_case_text(es.subrange(0, i as int)),
        decreases n - i,
    {
        push_eval_case_text(&mut out, &decl.entries[i]);
        proof {
            assert(es.subrange(0, i + 1).drop_last() =~= es.subrange(0, i as int));
            assert(es[i as int] == decl.entries@[i as int]@);
        }
        i = i + 1;
    }
    assert(es.subrange(0, n as int) =~= es);
    proof {
        text = text + concat_eval_case_text(decl@.entries);
    }
    assert(out@ =~= text);
    out.append("}\n}\n\n");
    proof {
        text = text + "}\n}\n\n"@;
    }
    assert(out@ =~= text);
    out.append("/// Enumerate all variants.\npub fn enumerate() -> Vec<Self> {\nvec![\n");
    proof {
        text = text + "/// Enumerate all variants.\npub fn enumerate() -> Vec<Self> {\nvec![\n"@;
    }
    assert(out@ =~= text);
    let ghost before = out@;
    let mut i: usize = 0;
    assert(es.subrange(0, 0) =~= seq![]);
    assert(before + concat_subtable_new_text(es.subrange(0, 0)) =~= before);
    while i < n
        invariant
            i <= n,
            n == decl.entries@.len(),
            es == variants_view(decl.entries@),
            out@ == before + concat_subtable_new_text(es.subrange(0, i as int)),
        decreases n - i,
    {
        push_subtable_new_text(&mut out, &decl.entries[i]);
        proof {
            assert(es.subrange(0, i + 1).drop_last() =~= es.subrange(0, i as int));
            assert(es[i as int] == decl.entries@[i as int]@);
        }
        i = i + 1;
    }
    assert(es.subrange(0, n as int) =~= es);
    proof {
        text = text + concat_subtable_new_text(decl@.entries);
    }
    assert(out@ =~= text);
    out.append("]\n}\n\n");
    proof {
        text = text + "]\n}\n\n"@;
    }
    assert(out@ =~= text);
    out.append("/// Construct a new object of the appropriate type given a subtable's\n/// [`std::any::TypeId`].\npub fn from_subtable_id(t: std::any::TypeId) -> Self {\nuse jolt_core::jolt::subtable::LassoSubtable;\n");
    proof {
        text = text + "/// Construct a new object of the appropriate type given a subtable's\n/// [`std::any::TypeId`].\npub fn from_subtable_id(t: std::any::TypeId) -> Self {\nuse jolt_core::jolt::subtable::LassoSubtable;\n"@;
    }
    assert(out@ =~= text);
    let ghost before = out@;
    let mut i: usize = 0;
    assert(es.subrange(0, 0) =~= seq![]);
    assert(before + concat_subtable_from_id_text(es.subrange(0, 0)) =~= before);
    while i < n
        invariant
            i <= n,
            n == decl.entries@.len(),
            es == variants_view(decl.entries@),
            out@ == before + concat_subtable_from_id_text(es.subrange(0, i as int)),
        decreases n - i,
    {
        push_subtable_from_id_text(&mut out, &decl.entries[i]);
        proof {
            assert(es.subrange(0, i + 1).drop_last() =~= es.subrange(0, i as int));
            assert(es[i as int] == decl.entries@[i as int]@);
        }
        i = i + 1;
    }
    assert(es.subrange(0, n as int) =~= es);
    proof {
        text = text + concat_subtable_from_id_text(decl@.entries);
    }
    assert(out@ =~= text);
    out.append("panic!(\"Unimplemented conversion from {t:?}\")\n}\n}\n\n");
    proof {
        text = text + "panic!(\"Unimplemented conversion from {t:?}\")\n}\n}\n\n"@;
    }
    assert(out@ =~= text);
    out.append("#[cfg(test)]\nmod tests {\nuse super::*;\nuse proptest::prelude::*;\nproptest! {\n");
    proof {
        text = text + "#[cfg(test)]\nmod tests {\nuse super::*;\nuse proptest::prelude::*;\nproptest! {\n"@;
    }
    assert(out@ =~= text);
    let ghost before = out@;
    let mut i: usize = 0;
    assert(es.subrange(0, 0) =~= seq![]);
    assert(before + concat_subtable_test_text(es.subrange(0, 0)) =~= before);
    while i < n
        invariant
            i <= n,
            n == decl.entries@.len(),
            es == variants_view(decl.entries@),
            out@ == before + concat_subtable_test_text(es.subrange(0, i as int)),
        decreases n - i,
    {
        push_subtable_test_text(&mut out, &decl.entries[i]);
        proof {
            assert(es.subrange(0, i + 1).drop_last() =~= es.subrange(0, i as int));
            assert(es[i as int] == decl.entries@[i as int]@);
        }
        i = i + 1;
    }
    assert(es.subrange(0, n as int) =~= es);
    proof {
        text = text + concat_subtable_test_text(decl@.entries);
    }
    assert(out@ =~= text);
    out.append("}\n}\n");
    proof {
        text = text + "}\n}\n"@;
    }
    assert(out@ =~= text);
    assert(text =~= spec_subtables_enum_source(decl@));
    out
}

/// The source text that declares the enum of `e`.
pub open spec fn spec_instructions_enum_source(e: EnumView) -> Seq<char> {
    "pub enum "@
        + e.id
        + "<const WORD_SIZE: usize> {\n"@
        + concat_instruction_variant_text(e.entries)
        + "}\n\n"@
        + "impl<const WORD_SIZE: usize> "@
        + e.id
        + "<WORD_SIZE> {\n"@
        + "/// Name of this instruction variant, incorporating the type and any const generics.\npub fn name(&self) -> &'static str {\nmatch self {\n"@
        + concat_name_case_text(e.entries)
        + "}\n}\n\n"@
        + "/// Call the `combine_lookups` method on the underlying instruction.\npub fn combine_lookups<F: crate::util::ZkLeanReprField>(&self, reg_name: char, c: usize, m: usize) -> F {\nuse jolt_core::jolt::instruction::JoltInstruction;\nlet reg_size = self.subtables::<F>(c, m).len();\nlet vars = F::register(reg_name, reg_size);\nmatch self {\n"@
        + concat_combine_case_text(e.entries)
        + "}\n}\n\n"@
        + "/// Call the `subtables` method on the underlying instruction.\npub fn subtables<F: crate::util::ZkLeanReprField>(&self, c: usize, m: usize) -> Vec<(String, usize)> {\nuse jolt_core::jolt::{instruction::{JoltInstruction, SubtableIndices}, subtable::LassoSubtable};\nuse crate::subtable::NamedSubtable;\nlet subtables: Vec<(Box<dyn LassoSubtable<F>>, SubtableIndices)> = match self {\n"@
        + concat_subtables_case_text(e.entries)
        + "};\nlet mut res = vec![];\nfor (subtable, indices) in subtables {\nlet subtable = NamedSubtable::<F>::from_subtable_id(subtable.subtable_id());\nlet subtable_name = subtable.name().to_string();\nfor i in indices.iter() {\nres.push((subtable_name.clone(), i));\n}\n}\nres\n}\n\n"@
        + "/// Enumerate all variants.\npub fn enumerate() -> Vec<Self> {\nvec![\n"@
        + concat_instruction_new_text(e.entries)
        + "]\n}\n}\n"@
}

/// The source text that declares the enum of `decl`.
pub fn instructions_enum_source(decl: &EnumParser) -> (r: String)
    ensures
        r@ == spec_instructions_enum_source(decl@),
{
    let mut out = String::new();
    let ghost es = decl@.entries;
    let n = decl.entries.len();
    assert(es == variants_view(decl.entries@));
    let ghost mut text: Seq<char> = seq![];
    out.append("pub enum ");
    proof {
        text = text + "pub enum "@;
    }
    assert(out@ =~= text);
    out.append(decl.id.as_str());
    proof {
        text = text + decl@.id;
    }
    assert(out@ =~= text);
    out.append("<const WORD_SIZE: usize> {\n");
    proof {
        text = text + "<const WORD_SIZE: usize> {\n"@;
    }
    assert(out@ =~= text);
    let ghost before = out@;
    let mut i: usize = 0;
    assert(es.subrange(0, 0) =~= seq![]);
    assert(before + concat_instruction_variant_text(es.subrange(0, 0)) =~= before);
    while i < n
        invariant
            i <= n,
            n == decl.entries@.len(),
            es == variants_view(decl.entries@),
            out@ == before + concat_instruction_variant_text(es.subrange(0, i as int)),
        decreases n - i,
    {
        push_instruction_variant_text(&mut out, &decl.entries[i]);
        proof {
            assert(es.subrange(0, i + 1).drop_last() =~= es.subrange(0, i as int));
            assert(es[i as int] == decl.entries@[i as int]@);
        }
        i = i + 1;
    }
    assert(es.subrange(0, n as int) =~= es);
    proof {
        text = text + concat_instruction_variant_text(decl@.entries);
    }
    assert(out@ =~= text);
    out.append("}\n\n");
    proof {
        text = text + "}\n\n"@;
    }
    assert(out@ =~= text);
    out.append("impl<const WORD_SIZE: usize> ");
    proof {
        text = text + "impl<const WORD_SIZE: usize> "@;
    }
    assert(out@ =~= text);
    out.append(decl.id.as_str());
    proof {
        text = text + decl@.id;
    }
    assert(out@ =~= text);
    out.append("<WORD_SIZE> {\n");
    proof {
        text = text + "<WORD_SIZE> {\n"@;
    }
    assert(out@ =~= text);
    out.append("/// Name of this instruction variant, incorporating the type and any const generics.\npub fn name(&self) -> &'static str {\nmatch self {\n");
    proof {
        text = text + "/// Name of this instruction variant, incorporating the type and any const generics.\npub fn name(&self) -> &'static str {\nmatch self {\n"@;
    }
    assert(out@ =~= text);
    let ghost before = out@;
    let mut i: usize = 0;
    assert(es.subrange(0, 0) =~= seq![]);
    assert(before + concat_name_case_text(es.subrange(0, 0)) =~= before);
    while i < n
        invariant
            i <= n,
            n == decl.entries@.len(),
            es == variants_view(decl.entries@),
            out@ == before + concat_name_case_text(es.subrange(0, i as int)),
        decreases n - i,
    {
        push_name_case_text(&mut out, &decl.entries[i]);
        proof {
            assert(es.subrange(0, i + 1).drop_last() =~= es.subrange(0, i as int));
            assert(es[i as int] == decl.entries@[i as int]@);
        }
        i = i + 1;
    }
    assert(es.subrange(0, n as int) =~= es);
    proof {
        text = text + concat_name_case_text(decl@.entries);
    }
    assert(out@ =~= text);
    out.append("}\n}\n\n");
    proof {
        text = text + "}\n}\n\n"@;
    }
    assert(out@ =~= text);
    out.append("/// Call the `combine_lookups` method on the underlying instruction.\npub fn combine_lookups<F: crate::util::ZkLeanReprField>(&self, reg_name: char, c: usize, m: usize) -> F {\nuse jolt_core::jolt::instruction::JoltInstruction;\nlet reg_size = self.subtables::<F>(c, m).len();\nlet vars = F::register(reg_name, reg_size);\nmatch self {\n");
    proof {
        text = text + "/// Call the `combine_lookups` method on the underlying instruction.\npub fn combine_lookups<F: crate::util::ZkLeanReprField>(&self, reg_name: char, c: usize, m: usize) -> F {\nuse jolt_core::jolt::instruction::JoltInstruction;\nlet reg_size = self.subtables::<F>(c, m).len();\nlet vars = F::register(reg_name, reg_size);\nmatch self {\n"@;
    }
    assert(out@ =~= text);
    let ghost before = out@;
    let mut i: usize = 0;
    assert(es.subrange(0, 0) =~= seq![]);
    assert(before + concat_combine_case_text(es.subrange(0, 0)) =~= before);
    while i < n
        invariant
            i <= n,
            n == decl.entries@.len(),
            es == variants_view(decl.entries@),
            out@ == before + concat_combine_case_text(es.subrange(0, i as int)),
        decreases n - i,
    {
        push_combine_case_text(&mut out, &decl.entries[i]);
        proof {
            assert(es.subrange(0, i + 1).drop_last() =~= es.subrange(0, i as int));
            assert(es[i as int] == decl.entries@[i as int]@);
        }
        i = i + 1;
    }
    assert(es.subrange(0, n as int) =~= es);
    proof {
        text = text + concat_combine_case_text(decl@.entries);
    }
    assert(out@ =~= text);
    out.append("}\n}\n\n");
    proof {
        text = text + "}\n}\n\n"@;
    }
    assert(out@ =~= text);
    out.append("/// Call the `subtables` method on the underlying instruction.\npub fn subtables<F: crate::util::ZkLeanReprField>(&self, c: usize, m: usize) -> Vec<(String, usize)> {\nuse jolt_core::jolt::{instruction::{JoltInstruction, SubtableIndices}, subtable::LassoSubtable};\nuse crate::subtable::NamedSubtable;\nlet subtables: Vec<(Box<dyn LassoSubtable<F>>, SubtableIndices)> = match self {\n");
    proof {
        text = text + "/// Call the `subtables` method on the underlying instruction.\npub fn subtables<F: crate::util::ZkLeanReprField>(&self, c: usize, m: usize) -> Vec<(String, usize)> {\nuse jolt_core::jolt::{instruction::{JoltInstruction, SubtableIndices}, subtable::LassoSubtable};\nuse crate::subtable::NamedSubtable;\nlet subtables: Vec<(Box<dyn LassoSubtable<F>>, SubtableIndices)> = match self {\n"@;
    }
    assert(out@ =~= text);
    let ghost before = out@;
    let mut i: usize = 0;
    assert(es.subrange(0, 0) =~= seq![]);
    assert(before + concat_subtables_case_text(es.subrange(0, 0)) =~= before);
    while i < n
        invariant
            i <= n,
            n == decl.entries@.len(),
            es == variants_view(decl.entries@),
            out@ == before + concat_subtables_case_text(es.subrange(0, i as int)),
        decreases n - i,
    {
        push_subtables_case_text(&mut out, &decl.entries[i]);
        proof {
            assert(es.subrange(0, i + 1).drop_last() =~= es.subrange(0, i as int));
            assert(es[i as int] == decl.entries@[i as int]@);
        }
        i = i + 1;
    }
    assert(es.subrange(0, n as int) =~= es);
    proof {
        text = text + concat_subtables_case_text(decl@.entries);
    }
    assert(out@ =~= text);
    out.append("};\nlet mut res = vec![];\nfor (subtable, indices) in subtables {\nlet subtable = NamedSubtable::<F>::from_subtable_id(subtable.subtable_id());\nlet subtable_name = subtable.name().to_string();\nfor i in indices.iter() {\nres.push((subtable_name.clone(), i));\n}\n}\nres\n}\n\n");
    proof {
        text = text + "};\nlet mut res = vec![];\nfor (subtable, indices) in subtables {\nlet subtable = NamedSubtable::<F>::from_subtable_id(subtable.subtable_id());\nlet subtable_name = subtable.name().to_string();\nfor i in indices.iter() {\nres.push((subtable_name.clone(), i));\n}\n}\nres\n}\n\n"@;
    }
    assert(out@ =~= text);
    out.append("/// Enumerate all variants.\npub fn enumerate() -> Vec<Self> {\nvec![\n");
    proof {
        text = text + "/// Enumerate all variants.\npub fn enumerate() -> Vec<Self> {\nvec![\n"@;
    }
    assert(out@ =~= text);
    let ghost before = out@;
    let mut i: usize = 0;
    assert(es.subrange(0, 0) =~= seq![]);
    assert(before + concat_instruction_new_text(es.subrange(0, 0)) =~= before);
    while i < n
        invariant
            i <= n,
            n == decl.entries@.len(),
            es == variants_view(decl.entries@),
            out@ == before + concat_instruction_new_text(es.subrange(0, i as int)),
        decreases n - i,
    {
        push_instruction_new_text(&mut out, &decl.entries[i]);
        proof {
            assert(es.subrange(0, i + 1).drop_last() =~= es.subrange(0, i as int));
            assert(es[i as int] == decl.entries@[i as int]@);
        }
        i = i + 1;
    }
    assert(es.subrange(0, n as int) =~= es);
    proof {
        text = text + concat_instruction_new_text(decl@.entries);
    }
    assert(out@ =~= text);
    out.append("]\n}\n}\n");
    proof {
        text = text + "]\n}\n}\n"@;
    }
    assert(out@ =~= text);
    assert(text =~= spec_instructions_enum_source(decl@));
    out
}

/// Each part of the subtable enum's source has one piece per entry, in the
/// order of the declaration: the variants, the `name()` arms, the
/// `evaluate_mle` arms, the `enumerate()` items, the `from_subtable_id` tests
/// and the property tests.
pub proof fn lemma_subtables_enum_entries_in_order(es: Seq<VariantView>)
    ensures
        concat_subtable_variant_text(es) == Seq::new(es.len(), |i: int| subtable_variant_text(es[i])).flatten(),
        concat_name_case_text(es) == Seq::new(es.len(), |i: int| name_case_text(es[i])).flatten(),
        concat_eval_case_text(es) == Seq::new(es.len(), |i: int| eval_case_text(es[i])).flatten(),
        concat_subtable_new_text(es) == Seq::new(es.len(), |i: int| subtable_new_text(es[i])).flatten(),
        concat_subtable_from_id_text(es) == Seq::new(es.len(), |i: int| subtable_from_id_text(es[i])).flatten(),
        concat_subtable_test_text(es) == Seq::new(es.len(), |i: int| subtable_test_text(es[i])).flatten(),
    decreases es.len(),
{
    Seq::new(es.len(), |i: int| subtable_variant_text(es[i])).lemma_flatten_and_flatten_alt_are_equivalent();
    Seq::new(es.len(), |i: int| name_case_text(es[i])).lemma_flatten_and_flatten_alt_are_equivalent();
    Seq::new(es.len(), |i: int| eval_case_text(es[i])).lemma_flatten_and_flatten_alt_are_equivalent();
    Seq::new(es.len(), |i: int| subtable_new_text(es[i])).lemma_flatten_and_flatten_alt_are_equivalent();
    Seq::new(es.len(), |i: int| subtable_from_id_text(es[i])).lemma_flatten_and_flatten_alt_are_equivalent();
    Seq::new(es.len(), |i: int| subtable_test_text(es[i])).lemma_flatten_and_flatten_alt_are_equivalent();
    if es.len() > 0 {
        let p = es.drop_last();
        lemma_subtables_enum_entries_in_order(p);
        Seq::new(p.len(), |i: int| subtable_variant_text(p[i])).lemma_flatten_and_flatten_alt_are_equivalent();
        assert(Seq::new(es.len(), |i: int| subtable_variant_text(es[i])).drop_last() =~= Seq::new(p.len(), |i: int| subtable_variant_text(p[i])));
        Seq::new(p.len(), |i: int| name_case_text(p[i])).lemma_flatten_and_flatten_alt_are_equivalent();
        assert(Seq::new(es.len(), |i: int| name_case_text(es[i])).drop_last() =~= Seq::new(p.len(), |i: int| name_case_text(p[i])));
        Seq::new(p.len(), |i: int| eval_case_text(p[i])).lemma_flatten_and_flatten_alt_are_equivalent();
        assert(Seq::new(es.len(), |i: int| eval_case_text(es[i])).drop_last() =~= Seq::new(p.len(), |i: int| eval_case_text(p[i])));
        Seq::new(p.len(), |i: int| subtable_new_text(p[i])).lemma_flatten_and_flatten_alt_are_equivalent();
        assert(Seq::new(es.len(), |i: int| subtable_new_text(es[i])).drop_last() =~= Seq::new(p.len(), |i: int| subtable_new_text(p[i])));
        Seq::new(p.len(), |i: int| subtable_from_id_text(p[i])).lemma_flatten_and_flatten_alt_are_equivalent();
        assert(Seq::new(es.len(), |i: int| subtable_from_id_text(es[i])).drop_last() =~= Seq::new(p.len(), |i: int| subtable_from_id_text(p[i])));
        Seq::new(p.len(), |i: int| subtable_test_text(p[i])).lemma_flatten_and_flatten_alt_are_equivalent();
        assert(Seq::new(es.len(), |i: int| subtable_test_text(es[i])).drop_last() =~= Seq::new(p.len(), |i: int| subtable_test_text(p[i])));
    }
}

/// Each part of the instruction enum's source has one piece per entry, in
/// the order of the declaration: the variants, the `name()` arms, the
/// `combine_lookups` arms, the `subtables` arms and the `enumerate()` items.
pub proof fn lemma_instructions_enum_entries_in_order(es: Seq<VariantView>)
    ensures
        concat_instruction_variant_text(es) == Seq::new(es.len(), |i: int| instruction_variant_text(es[i])).flatten(),
        concat_name_case_text(es) == Seq::new(es.len(), |i: int| name_case_text(es[i])).flatten(),
        concat_combine_case_text(es) == Seq::new(es.len(), |i: int| combine_case_text(es[i])).flatten(),
        concat_subtables_case_text(es) == Seq::new(es.len(), |i: int| subtables_case_text(es[i])).flatten(),
        concat_instruction_new_text(es) == Seq::new(es.len(), |i: int| instruction_new_text(es[i])).flatten(),
    decreases es.len(),
{
    Seq::new(es.len(), |i: int| instruction_variant_text(es[i])).lemma_flatten_and_flatten_alt_are_equivalent();
    Seq::new(es.len(), |i: int| name_case_text(es[i])).lemma_flatten_and_flatten_alt_are_equivalent();
    Seq::new(es.len(), |i: int| combine_case_text(es[i])).lemma_flatten_and_flatten_alt_are_equivalent();
    Seq::new(es.len(), |i: int| subtables_case_text(es[i])).lemma_flatten_and_flatten_alt_are_equivalent();
    Seq::new(es.len(), |i: int| instruction_new_text(es[i])).lemma_flatten_and_flatten_alt_are_equivalent();
    if es.len() > 0 {
        let p = es.drop_last();
        lemma_instructions_enum_entries_in_order(p);
        Seq::new(p.len(), |i: int| instruction_variant_text(p[i])).lemma_flatten_and_flatten_alt_are_equivalent();
        assert(Seq::new(es.len(), |i: int| instruction_variant_text(es[i])).drop_last() =~= Seq::new(p.len(), |i: int| instruction_variant_text(p[i])));
        Seq::new(p.len(), |i: int| name_case_text(p[i])).lemma_flatten_and_flatten_alt_are_equivalent();
        assert(Seq::new(es.len(), |i: int| name_case_text(es[i])).drop_last() =~= Seq::new(p.len(), |i: int| name_case_text(p[i])));
        Seq::new(p.len(), |i: int| combine_case_text(p[i])).lemma_flatten_and_flatten_alt_are_equivalent();
        assert(Seq::new(es.len(), |i: int| combine_case_text(es[i])).drop_last() =~= Seq::new(p.len(), |i: int| combine_case_text(p[i])));
        Seq::new(p.len(), |i: int| subtables_case_text(p[i])).lemma_flatten_and_flatten_alt_are_equivalent();
        assert(Seq::new(es.len(), |i: int| subtables_case_text(es[i])).drop_last() =~= Seq::new(p.len(), |i: int| subtables_case_text(p[i])));
        Seq::new(p.len(), |i: int| instruction_new_text(p[i])).lemma_flatten_and_flatten_alt_are_equivalent();
        assert(Seq::new(es.len(), |i: int| instruction_new_text(es[i])).drop_last() =~= Seq::new(p.len(), |i: int| instruction_new_text(p[i])));
    }
}

/// A subtable of entry `v` made with `new`, for the field type `field`.
pub open spec fn subtable_ctor_text(v: VariantView, field: Seq<char>) -> Seq<char> {
    type_text(v) + "::<"@ + field + ", "@ + generics_text(v.const_generics) + ">::new()"@
}

/// In both generated enums every entry is one variant, named
/// `variant_ident(v)` and holding the entry's type with its const generics,
/// and every arm and constructor for the entry names that same variant:
/// `name()` returns that name, `evaluate_mle`, `combine_lookups`,
/// `subtables` and `enumerate` match or build `Self::` that name,
/// `from_subtable_id` returns that variant holding a new subtable exactly
/// when the id is that subtable's, and the entry's test is named after it.
pub proof fn lemma_entry_arms_name_its_variant(v: VariantView)
    ensures
        ({
            let n = variant_ident(v);
            let declared = "#[allow(non_camel_case_types)]\n"@ + n + "("@;
            let arm = "Self::"@ + n + "("@;
            &&& subtable_variant_text(v) == declared + type_text(v) + "<F, "@ + generics_text(
                v.const_generics,
            ) + ">),\n"@
            &&& instruction_variant_text(v) == declared + type_text(v) + "<WORD_SIZE, "@
                + generics_text(v.const_generics) + ">),\n"@
            &&& name_case_text(v) == arm + "_) => \""@ + n + "\",\n"@
            &&& arm.is_prefix_of(eval_case_text(v))
            &&& arm.is_prefix_of(subtable_new_text(v))
            &&& arm.is_prefix_of(combine_case_text(v))
            &&& arm.is_prefix_of(subtables_case_text(v))
            &&& arm.is_prefix_of(instruction_new_text(v))
            &&& subtable_from_id_text(v) == "if t == "@ + subtable_ctor_text(v, "F"@)
                + ".subtable_id() {\nreturn "@ + arm + subtable_ctor_text(v, "F"@) + ");\n}\n"@
            &&& ("/// Test that extracting the subtable as an `crate::mle_ast::MleAst` and evaluating it\n/// results in the same value as simply evaluating it would.\n#[test]\n#[allow(non_snake_case)]\nfn "@
                + n + "("@).is_prefix_of(subtable_test_text(v))
        }),
{
    reveal_strlit("(");
    reveal_strlit("_) => \"");
    reveal_strlit("(_) => \"");
    reveal_strlit("(s) => s.evaluate_mle(&vars),\n");
    reveal_strlit("(i) => i.combine_lookups(&vars, c, m),\n");
    reveal_strlit("(i) => i.subtables(c, m),\n");
    reveal_strlit("(42, 9001)),\n");
    reveal_strlit("::new()),\n");
    reveal_strlit("if t == ");
    reveal_strlit("::<");
    reveal_strlit(", ");
    reveal_strlit(">::new()");
    reveal_strlit("::<F, ");
    reveal_strlit(">::new().subtable_id() {\nreturn Self::");
    reveal_strlit(">::new());\n}\n");
    reveal_strlit(".subtable_id() {\nreturn ");
    reveal_strlit(");\n}\n");
    reveal_strlit("F");
    reveal_strlit("Self::");
    reveal_strlit("(values_u64 in proptest::collection::vec(proptest::num::u64::ANY, 8)) {\ntype RefField = jolt_core::field::binius::BiniusField<binius_field::BinaryField128b>;\ntype AstField = crate::mle_ast::MleAst<2048>;\nlet (actual, expected, mle) = crate::util::test_evaluate_fn(\n&values_u64,\n");
    let n = variant_ident(v);
    let declared = "#[allow(non_camel_case_types)]\n"@ + n + "("@;
    let arm = "Self::"@ + n + "("@;
    assert(subtable_variant_text(v) =~= declared + type_text(v) + "<F, "@ + generics_text(
        v.const_generics,
    ) + ">),\n"@);
    assert(instruction_variant_text(v) =~= declared + type_text(v) + "<WORD_SIZE, "@
        + generics_text(v.const_generics) + ">),\n"@);
    assert(name_case_text(v) =~= arm + "_) => \""@ + n + "\",\n"@);
    assert(arm =~= eval_case_text(v).subrange(0, arm.len() as int));
    assert(arm =~= subtable_new_text(v).subrange(0, arm.len() as int));
    assert(arm =~= combine_case_text(v).subrange(0, arm.len() as int));
    assert(arm =~= subtables_case_text(v).subrange(0, arm.len() as int));
    assert(arm =~= instruction_new_text(v).subrange(0, arm.len() as int));
    assert(subtable_from_id_text(v) =~= "if t == "@ + subtable_ctor_text(v, "F"@)
        + ".subtable_id() {\nreturn "@ + arm + subtable_ctor_text(v, "F"@) + ");\n}\n"@);
    let head = "/// Test that extracting the subtable as an `crate::mle_ast::MleAst` and evaluating it\n/// results in the same value as simply evaluating it would.\n#[test]\n#[allow(non_snake_case)]\nfn "@
        + n + "("@;
    assert(head =~= subtable_test_text(v).subrange(0, head.len() as int));
}

} // verus!
