//! Laws of the conversion, stated and proved over the same spec
//! functions that the public contracts use.

use vstd::prelude::*;

use crate::commands::{qw_latex, spec_label};
use crate::diagram::{
    apply_group, composed_name, dagger_tags, gate_cell_of, has_wire, lemma_resolve_identity,
    lemma_row_of, row_of, spec_apply_gate, spec_impute, wf, wire_gate_step, DiagramValue,
    LatexGenError,
};
use crate::document::spec_document;
use crate::instruction::{
    add_fixed, expression_text, fixed_ids, has_duplicate, instruction_qubits, used_qubits,
    used_qubits_from, GateModifier, GateValue, InstructionValue,
};
use crate::latex::{init_diagram, spec_apply_instruction, spec_populate, spec_to_latex};
use crate::render::{render_body, render_row_core, render_rows};
use crate::settings::RenderSettings;
use crate::text::{has_substring, starts_with_c};
use crate::wire::{mark_ctrl_cell, param_of, params_of, WireValue};

verus! {

/// An empty instruction sequence renders to the bare template: the
/// fixed header and footer around a body that holds no rows, only the
/// leading newline.
pub proof fn empty_program_renders_template(instructions: Seq<InstructionValue>, settings: RenderSettings)
    requires
        instructions.len() == 0,
    ensures
        spec_to_latex(instructions, settings) == Ok::<Seq<char>, LatexGenError>(spec_document("\n"@)),
{
    let qs = used_qubits(instructions);
    assert(qs =~= Seq::<u64>::empty());
    let d0 = init_diagram(settings, qs);
    assert(d0.circuit =~= Seq::<WireValue>::empty());
    assert(spec_populate(d0, instructions) == Ok::<DiagramValue, LatexGenError>(d0));
    assert(spec_impute(d0) == d0);
    lemma_resolve_identity(d0, 0);
    assert(render_rows(d0.circuit, settings.label_qubit_lines) =~= Seq::<char>::empty());
    assert(render_body(d0) =~= "\n"@);
}

/// Prepending the control prefix neither creates nor destroys an
/// occurrence of a pattern that does not begin with `C`.
proof fn lemma_substring_prepend_c(n: Seq<char>, t: Seq<char>)
    requires
        t.len() > 0,
        t[0] != 'C',
    ensures
        has_substring(seq!['C'] + n, t) == has_substring(n, t),
{
    let cn = seq!['C'] + n;
    if has_substring(n, t) {
        let i = choose|i: int| 0 <= i && i + t.len() <= n.len()
            && #[trigger] n.subrange(i, i + t.len()) == t;
        assert(cn.subrange(i + 1, i + 1 + t.len()) =~= n.subrange(i, i + t.len()));
        assert(has_substring(cn, t));
    }
    if has_substring(cn, t) {
        let i = choose|i: int| 0 <= i && i + t.len() <= cn.len()
            && #[trigger] cn.subrange(i, i + t.len()) == t;
        if i == 0 {
            assert(cn.subrange(0, t.len() as int)[0] == 'C');
            assert(false);
        } else {
            assert(n.subrange(i - 1, i - 1 + t.len()) =~= cn.subrange(i, i + t.len()));
            assert(has_substring(n, t));
        }
    }
}

/// Declaring one more leading control modifier on a gate lays out the
/// same cells as writing the control prefix into its name directly.
pub proof fn controlled_gate_equivalence(g1: GateValue, g2: GateValue, d: DiagramValue)
    requires
        g1.modifiers.len() >= 1,
        g1.modifiers[0] == GateModifier::Controlled,
        g2.name == seq!['C'] + g1.name,
        g2.modifiers == g1.modifiers.drop_first(),
        g2.parameters == g1.parameters,
        g2.qubits == g1.qubits,
    ensures
        spec_apply_gate(d, g1) == spec_apply_gate(d, g2),
{
    assert(composed_name(g1.modifiers, g1.name) == composed_name(g2.modifiers, g2.name));
    assert(dagger_tags(g1.modifiers) == dagger_tags(g2.modifiers));
    reveal_strlit("PHASE");
    assert("PHASE"@.len() == 5 && "PHASE"@[0] == 'P');
    lemma_substring_prepend_c(g1.name, "PHASE"@);
    assert(has_substring(g2.name, "PHASE"@) == has_substring(g1.name, "PHASE"@));
    let texify = d.settings.texify_numerical_constants;
    assert(gate_cell_of(g1, texify) =~= gate_cell_of(g2, texify));
    if starts_with_c(composed_name(g1.modifiers, g1.name)) && has_duplicate(fixed_ids(g1.qubits)) {
    } else {
        assert forall|w: WireValue| #[trigger] wire_gate_step(w, g1, texify)
            == wire_gate_step(w, g2, texify) by {
            assert(wire_gate_step(w, g1, texify) =~= wire_gate_step(w, g2, texify));
        }
        assert(d.circuit.map_values(|w: WireValue| wire_gate_step(w, g1, texify))
            =~= d.circuit.map_values(|w: WireValue| wire_gate_step(w, g2, texify)));
        let r1 = spec_apply_gate(d, g1)->Ok_0;
        let r2 = spec_apply_gate(d, g2)->Ok_0;
        assert(r1 =~= r2);
    }
}

proof fn lemma_used_from_congruence(s: Seq<u64>, p1: Seq<InstructionValue>, p2: Seq<InstructionValue>)
    requires
        p1.len() == p2.len(),
        forall|k: int| 0 <= k < p1.len()
            ==> instruction_qubits(#[trigger] p1[k]) == instruction_qubits(p2[k]),
    ensures
        used_qubits_from(s, p1) == used_qubits_from(s, p2),
    decreases p1.len(),
{
    if p1.len() == 0 {
    } else {
        let t1 = p1.drop_first();
        let t2 = p2.drop_first();
        assert(forall|k: int| 0 <= k < t1.len()
            ==> instruction_qubits(#[trigger] t1[k]) == instruction_qubits(t2[k])) by {
            assert(forall|k: int| 0 <= k < t1.len() ==> t1[k] == p1[k + 1] && t2[k] == p2[k + 1]);
        }
        assert(instruction_qubits(p1[0]) == instruction_qubits(p2[0]));
        lemma_used_from_congruence(add_fixed(s, instruction_qubits(p1[0])), t1, t2);
    }
}

proof fn lemma_populate_congruence(d: DiagramValue, p1: Seq<InstructionValue>, p2: Seq<InstructionValue>, i: int)
    requires
        p1.len() == p2.len(),
        0 <= i < p1.len(),
        forall|k: int| 0 <= k < p1.len() && k != i ==> p1[k] == p2[k],
        p1[i] is Gate,
        p2[i] is Gate,
        (p1[i]->Gate_0).modifiers.len() >= 1,
        (p1[i]->Gate_0).modifiers[0] == GateModifier::Controlled,
        (p2[i]->Gate_0).name == seq!['C'] + (p1[i]->Gate_0).name,
        (p2[i]->Gate_0).modifiers == (p1[i]->Gate_0).modifiers.drop_first(),
        (p2[i]->Gate_0).parameters == (p1[i]->Gate_0).parameters,
        (p2[i]->Gate_0).qubits == (p1[i]->Gate_0).qubits,
    ensures
        spec_populate(d, p1) == spec_populate(d, p2),
    decreases p1.len(),
{
    let t1 = p1.drop_first();
    let t2 = p2.drop_first();
    if i == 0 {
        controlled_gate_equivalence(p1[0]->Gate_0, p2[0]->Gate_0, d);
        assert(spec_apply_instruction(d, p1[0]) == spec_apply_instruction(d, p2[0]));
        assert(t1 =~= t2) by {
            assert(forall|k: int| 0 <= k < t1.len() ==> t1[k] == p1[k + 1] && t2[k] == p2[k + 1]);
        }
    } else {
        assert(p1[0] == p2[0]);
        match spec_apply_instruction(d, p1[0]) {
            Ok(d2) => {
                assert(forall|k: int| 0 <= k < t1.len() && k != i - 1
                    ==> t1[k] == p1[k + 1] && t2[k] == p2[k + 1]);
                assert(t1[i - 1] == p1[i] && t2[i - 1] == p2[i]);
                lemma_populate_congruence(d2, t1, t2, i - 1);
            },
            Err(_) => {},
        }
    }
}

/// The modifier composition law at the program level: two programs
/// equal everywhere except that one instruction declares a leading
/// control modifier where the other carries the pre-composed `C` in
/// its gate name convert to the same document.
pub proof fn controlled_modifier_composition(p1: Seq<InstructionValue>, p2: Seq<InstructionValue>, i: int, settings: RenderSettings)
    requires
        p1.len() == p2.len(),
        0 <= i < p1.len(),
        forall|k: int| 0 <= k < p1.len() && k != i ==> p1[k] == p2[k],
        p1[i] is Gate,
        p2[i] is Gate,
        (p1[i]->Gate_0).modifiers.len() >= 1,
        (p1[i]->Gate_0).modifiers[0] == GateModifier::Controlled,
        (p2[i]->Gate_0).name == seq!['C'] + (p1[i]->Gate_0).name,
        (p2[i]->Gate_0).modifiers == (p1[i]->Gate_0).modifiers.drop_first(),
        (p2[i]->Gate_0).parameters == (p1[i]->Gate_0).parameters,
        (p2[i]->Gate_0).qubits == (p1[i]->Gate_0).qubits,
    ensures
        spec_to_latex(p1, settings) == spec_to_latex(p2, settings),
{
    assert(forall|k: int| 0 <= k < p1.len()
        ==> instruction_qubits(#[trigger] p1[k]) == instruction_qubits(p2[k])) by {
        assert(instruction_qubits(p1[i]) == (p1[i]->Gate_0).qubits);
        assert(instruction_qubits(p2[i]) == (p2[i]->Gate_0).qubits);
    }
    lemma_used_from_congruence(Seq::empty(), p1, p2);
    assert(used_qubits(p1) == used_qubits(p2));
    lemma_populate_congruence(init_diagram(settings, used_qubits(p1)), p1, p2, i);
}

/// The signed-distance sign law: in final row order, a control whose
/// qubit number is below the target's stores a positive distance, and
/// one whose qubit number exceeds the target's stores a negative one.
pub proof fn resolved_control_distance(d: DiagramValue, c: int, k: int)
    requires
        wf(d),
        0 <= c < d.relationships.len(),
        d.relationships[c].len() >= 2,
        0 <= k < d.relationships[c].len() - 1,
    ensures
        ({
            let group = d.relationships[c];
            let ctrl_q = group[k];
            let targ_q = group.last();
            let row = row_of(d.circuit, ctrl_q);
            let distance = row_of(d.circuit, targ_q) - row_of(d.circuit, ctrl_q);
            &&& apply_group(d, c).circuit[row].cells[c]
                == mark_ctrl_cell(d.circuit[row].cells[c], distance)
            &&& (ctrl_q < targ_q <==> distance > 0)
            &&& (ctrl_q > targ_q <==> distance < 0)
        }),
{
    let group = d.relationships[c];
    let ctrl_q = group[k];
    let targ_q = group.last();
    assert(ctrl_q != targ_q) by {
        assert(group[k] != group[group.len() - 1]);
    }
    assert(has_wire(d.circuit, ctrl_q)) by {
        assert(group[k] == ctrl_q);
    }
    assert(has_wire(d.circuit, targ_q)) by {
        assert(group[group.len() - 1] == targ_q);
    }
    lemma_row_of(d.circuit, ctrl_q);
    lemma_row_of(d.circuit, targ_q);
    let rc = row_of(d.circuit, ctrl_q);
    let rt = row_of(d.circuit, targ_q);
    if rc < rt {
        assert(d.circuit[rc].name < d.circuit[rt].name);
    } else if rt < rc {
        assert(d.circuit[rt].name < d.circuit[rc].name);
    }
    let w = d.circuit[rc];
    assert(group.drop_last().contains(ctrl_q)) by {
        assert(group.drop_last()[k] == ctrl_q);
    }
    assert(apply_group(d, c).circuit[rc]
        == crate::diagram::mark_wire_for_group(w, c, group, d.circuit));
    assert(w.cells.len() == d.column);
    assert(apply_group(d, c).circuit[rc].cells[c] == mark_ctrl_cell(w.cells[c], rt - rc));
}

/// The leading cell of every serialized row: a ket label when qubit
/// lines are labelled, a bare filler cell in its place otherwise.
pub proof fn row_label_cell(w: WireValue, label: bool)
    ensures
        label ==> render_row_core(w, label).subrange(0, spec_label(w.name).len() as int)
            == spec_label(w.name),
        !label ==> render_row_core(w, label).subrange(0, qw_latex().len() as int) == qw_latex(),
{
    if label {
        assert(render_row_core(w, label).subrange(0, spec_label(w.name).len() as int)
            =~= spec_label(w.name));
    } else {
        assert(render_row_core(w, label).subrange(0, qw_latex().len() as int) =~= qw_latex());
    }
}

/// Whether a parameter text is one of the recognized symbol names.
pub open spec fn recognized_symbol(text: Seq<char>) -> bool {
    ||| text == "alpha"@
    ||| text == "beta"@
    ||| text == "gamma"@
    ||| text == "phi"@
    ||| text == "pi"@
}

/// Texification only affects recognized symbol names: an unrecognized
/// parameter text resolves to the same literal-text symbol under
/// either setting.
pub proof fn texify_irrelevant_for_unrecognized(e: crate::instruction::ExpressionValue)
    requires
        !recognized_symbol(expression_text(e)),
    ensures
        param_of(e, true) == param_of(e, false),
{
}

/// The same, lifted to a whole parameter list.
pub proof fn params_texify_irrelevant(exprs: Seq<crate::instruction::ExpressionValue>)
    requires
        forall|k: int| 0 <= k < exprs.len() ==> !recognized_symbol(expression_text(#[trigger] exprs[k])),
    ensures
        params_of(exprs, true) == params_of(exprs, false),
    decreases exprs.len(),
{
    if exprs.len() == 0 {
    } else {
        params_texify_irrelevant(exprs.drop_last());
        texify_irrelevant_for_unrecognized(exprs.last());
    }
}

/// Imputation makes the rows contiguous: afterwards, row `i` carries
/// qubit `first + i` for the whole inclusive range between the lowest
/// and highest qubit present, an existing wire keeps its record, and
/// an inserted wire holds a filler cell in every column.
pub proof fn imputed_rows_contiguous(d: DiagramValue)
    requires
        wf(d),
        d.settings.impute_missing_qubits,
        d.circuit.len() >= 2,
    ensures
        ({
            let first = d.circuit[0].name;
            let last = d.circuit[d.circuit.len() - 1].name;
            let r = spec_impute(d);
            &&& r.circuit.len() == last - first + 1
            &&& forall|i: int| 0 <= i < r.circuit.len() ==> (#[trigger] r.circuit[i]).name == first + i
            &&& forall|i: int| 0 <= i < r.circuit.len() && !has_wire(d.circuit, (first + i) as u64)
                ==> (#[trigger] r.circuit[i]).cells == Seq::new(d.column as nat, |j: int| crate::wire::CellValue::Empty)
            &&& forall|i: int| 0 <= i < r.circuit.len() && has_wire(d.circuit, (first + i) as u64)
                ==> (#[trigger] r.circuit[i]) == d.circuit[row_of(d.circuit, (first + i) as u64)]
        }),
{
    let first = d.circuit[0].name;
    let r = spec_impute(d);
    assert(first <= d.circuit[d.circuit.len() - 1].name) by {
        assert(d.circuit[0].name < d.circuit[d.circuit.len() - 1].name);
    }
    assert forall|i: int| 0 <= i < r.circuit.len() implies (#[trigger] r.circuit[i]).name == first + i by {
        if has_wire(d.circuit, (first + i) as u64) {
            lemma_row_of(d.circuit, (first + i) as u64);
        }
    }
}

/// Whether every parameter text of every gate instruction lies outside
/// the recognized symbol vocabulary.
pub open spec fn all_parameters_unrecognized(instructions: Seq<InstructionValue>) -> bool {
    forall|i: int, k: int| 0 <= i < instructions.len() && instructions[i] is Gate
        && 0 <= k < (instructions[i]->Gate_0).parameters.len()
        ==> !recognized_symbol(expression_text(#[trigger] (instructions[i]->Gate_0).parameters[k]))
}

/// Two settings that agree except on texification.
pub open spec fn settings_agree_except_texify(s1: RenderSettings, s2: RenderSettings) -> bool {
    &&& s1.impute_missing_qubits == s2.impute_missing_qubits
    &&& s1.label_qubit_lines == s2.label_qubit_lines
}

/// The same diagram under the two settings.
spec fn with_settings(d: DiagramValue, s: RenderSettings) -> DiagramValue {
    DiagramValue { settings: s, ..d }
}

proof fn lemma_apply_gate_texify(d: DiagramValue, g: GateValue, s2: RenderSettings)
    requires
        forall|k: int| 0 <= k < g.parameters.len()
            ==> !recognized_symbol(expression_text(#[trigger] g.parameters[k])),
    ensures
        match (spec_apply_gate(d, g), spec_apply_gate(with_settings(d, s2), g)) {
            (Ok(r1), Ok(r2)) => r2 == with_settings(r1, s2),
            (Err(e1), Err(e2)) => e1 == e2,
            _ => false,
        },
{
    let d2 = with_settings(d, s2);
    match (spec_apply_gate(d, g), spec_apply_gate(d2, g)) {
        (Ok(r1), Ok(r2)) => {
            params_texify_irrelevant(g.parameters);
            assert(params_of(g.parameters, d.settings.texify_numerical_constants)
                == params_of(g.parameters, s2.texify_numerical_constants)) by {
                if d.settings.texify_numerical_constants != s2.texify_numerical_constants {
                    assert(params_of(g.parameters, true) == params_of(g.parameters, false));
                }
            }
            assert(gate_cell_of(g, d.settings.texify_numerical_constants)
                =~= gate_cell_of(g, s2.texify_numerical_constants));
            assert forall|w: WireValue| #[trigger] wire_gate_step(w, g, d.settings.texify_numerical_constants)
                == wire_gate_step(w, g, s2.texify_numerical_constants) by {
                assert(wire_gate_step(w, g, d.settings.texify_numerical_constants)
                    =~= wire_gate_step(w, g, s2.texify_numerical_constants));
            }
            assert(r1.circuit =~= r2.circuit);
            assert(r2 =~= with_settings(r1, s2));
        },
        (Err(_), Err(_)) => {},
        _ => {},
    }
}

proof fn lemma_populate_texify(d: DiagramValue, instructions: Seq<InstructionValue>, s2: RenderSettings)
    requires
        all_parameters_unrecognized(instructions),
    ensures
        match (spec_populate(d, instructions), spec_populate(with_settings(d, s2), instructions)) {
            (Ok(r1), Ok(r2)) => r2 == with_settings(r1, s2),
            (Err(e1), Err(e2)) => e1 == e2,
            _ => false,
        },
    decreases instructions.len(),
{
    if instructions.len() == 0 {
        assert(with_settings(with_settings(d, s2), s2) == with_settings(d, s2));
    } else {
        let tail = instructions.drop_first();
        assert(all_parameters_unrecognized(tail)) by {
            assert forall|i: int, k: int| 0 <= i < tail.len() && tail[i] is Gate
                && 0 <= k < (tail[i]->Gate_0).parameters.len()
                implies !recognized_symbol(expression_text(#[trigger] (tail[i]->Gate_0).parameters[k])) by {
                assert(tail[i] == instructions[i + 1]);
                assert(!recognized_symbol(expression_text((instructions[i + 1]->Gate_0).parameters[k])));
            }
        }
        match instructions[0] {
            InstructionValue::Gate(g) => {
                assert(forall|k: int| 0 <= k < g.parameters.len()
                    ==> !recognized_symbol(expression_text(#[trigger] g.parameters[k]))) by {
                    assert(instructions[0] is Gate && instructions[0]->Gate_0 == g);
                }
                lemma_apply_gate_texify(d, g, s2);
                match spec_apply_gate(d, g) {
                    Ok(r1) => {
                        lemma_populate_texify(r1, tail, s2);
                    },
                    Err(_) => {},
                }
            },
            InstructionValue::Other(_) => {
                lemma_populate_texify(d, tail, s2);
            },
        }
    }
}

/// Texification is invisible on programs whose parameter texts all lie
/// outside the recognized vocabulary: under settings that otherwise
/// agree, both values of the toggle produce the same document.
pub proof fn texify_setting_invisible_when_unrecognized(instructions: Seq<InstructionValue>, s1: RenderSettings, s2: RenderSettings)
    requires
        all_parameters_unrecognized(instructions),
        settings_agree_except_texify(s1, s2),
    ensures
        spec_to_latex(instructions, s1) == spec_to_latex(instructions, s2),
{
    let d1 = init_diagram(s1, used_qubits(instructions));
    let d2 = init_diagram(s2, used_qubits(instructions));
    assert(d2 == with_settings(d1, s2));
    lemma_populate_texify(d1, instructions, s2);
    match (spec_populate(d1, instructions), spec_populate(d2, instructions)) {
        (Ok(r1), Ok(r2)) => {
            assert(r2 == with_settings(r1, s2));
            lemma_populate_settings(d1, instructions);
            assert(r1.settings == s1);
            let m1 = spec_impute(r1);
            let m2 = spec_impute(r2);
            assert(m2 =~= with_settings(m1, s2));
            assert(m1.settings == s1);
            lemma_resolve_texify(m1, s2, 0);
            let v1 = crate::diagram::resolve_from(m1, 0);
            let v2 = crate::diagram::resolve_from(m2, 0);
            assert(v2 == with_settings(v1, s2));
            lemma_resolve_settings(m1, 0);
            assert(v1.settings == s1);
            assert(render_body(v1) == render_body(v2));
        },
        _ => {},
    }
}

proof fn lemma_populate_settings(d: DiagramValue, instructions: Seq<InstructionValue>)
    ensures
        spec_populate(d, instructions) matches Ok(r) ==> r.settings == d.settings,
    decreases instructions.len(),
{
    if instructions.len() == 0 {
    } else {
        match spec_apply_instruction(d, instructions[0]) {
            Ok(d2) => {
                assert(d2.settings == d.settings);
                lemma_populate_settings(d2, instructions.drop_first());
            },
            Err(_) => {},
        }
    }
}

proof fn lemma_resolve_settings(d: DiagramValue, c: int)
    ensures
        crate::diagram::resolve_from(d, c).settings == d.settings,
    decreases d.relationships.len() - c,
{
    if c < 0 || c >= d.relationships.len() {
    } else {
        lemma_resolve_settings(apply_group(d, c), c + 1);
    }
}

proof fn lemma_resolve_texify(d: DiagramValue, s2: RenderSettings, c: int)
    ensures
        crate::diagram::resolve_from(with_settings(d, s2), c) == with_settings(crate::diagram::resolve_from(d, c), s2),
    decreases d.relationships.len() - c,
{
    let d2 = with_settings(d, s2);
    if c < 0 || c >= d.relationships.len() {
    } else {
        assert(apply_group(d2, c) == with_settings(apply_group(d, c), s2)) by {
            if d.relationships[c].len() < 2 {
            } else {
                assert(apply_group(d2, c).circuit =~= apply_group(d, c).circuit);
                assert(apply_group(d2, c) =~= with_settings(apply_group(d, c), s2));
            }
        }
        lemma_resolve_texify(apply_group(d, c), s2, c + 1);
    }
}

/// An instruction whose composed name denotes a relationship and whose
/// fixed qubits repeat is malformed: a qubit cannot both control and
/// target itself.
pub open spec fn malformed_relationship(inst: InstructionValue) -> bool {
    match inst {
        InstructionValue::Gate(g) => starts_with_c(composed_name(g.modifiers, g.name))
            && has_duplicate(fixed_ids(g.qubits)),
        InstructionValue::Other(_) => false,
    }
}

/// Whether any instruction of the program is malformed.
pub open spec fn has_malformed_relationship(instructions: Seq<InstructionValue>) -> bool {
    exists|i: int| 0 <= i < instructions.len() && malformed_relationship(#[trigger] instructions[i])
}

proof fn lemma_populate_err(d: DiagramValue, instructions: Seq<InstructionValue>)
    ensures
        spec_populate(d, instructions) is Err <==> has_malformed_relationship(instructions),
    decreases instructions.len(),
{
    if instructions.len() == 0 {
    } else {
        let tail = instructions.drop_first();
        if malformed_relationship(instructions[0]) {
            assert(spec_apply_instruction(d, instructions[0]) is Err);
            assert(has_malformed_relationship(instructions)) by {
                assert(malformed_relationship(instructions[0]));
            }
        } else {
            assert(spec_apply_instruction(d, instructions[0]) is Ok);
            let d2 = spec_apply_instruction(d, instructions[0])->Ok_0;
            lemma_populate_err(d2, tail);
            if has_malformed_relationship(tail) {
                let i = choose|i: int| 0 <= i < tail.len() && malformed_relationship(#[trigger] tail[i]);
                assert(instructions[i + 1] == tail[i]);
                assert(has_malformed_relationship(instructions)) by {
                    assert(malformed_relationship(instructions[i + 1]));
                }
            }
            if has_malformed_relationship(instructions) {
                let i = choose|i: int| 0 <= i < instructions.len()
                    && malformed_relationship(#[trigger] instructions[i]);
                assert(i != 0);
                assert(tail[i - 1] == instructions[i]);
                assert(has_malformed_relationship(tail)) by {
                    assert(malformed_relationship(tail[i - 1]));
                }
            }
        }
    }
}

/// The conversion fails exactly on programs with a malformed
/// relationship, and then with the duplicate-membership error; every
/// other program converts to a document.
pub proof fn conversion_fails_iff_malformed(instructions: Seq<InstructionValue>, settings: RenderSettings)
    ensures
        spec_to_latex(instructions, settings) is Err <==> has_malformed_relationship(instructions),
        spec_to_latex(instructions, settings) is Err
            ==> spec_to_latex(instructions, settings)
                == Err::<Seq<char>, LatexGenError>(LatexGenError::FoundCNOTWithNoTarget),
{
    let d0 = init_diagram(settings, used_qubits(instructions));
    lemma_populate_err(d0, instructions);
    if spec_populate(d0, instructions) is Err {
        lemma_populate_err_value(d0, instructions);
    }
}

proof fn lemma_populate_err_value(d: DiagramValue, instructions: Seq<InstructionValue>)
    requires
        spec_populate(d, instructions) is Err,
    ensures
        spec_populate(d, instructions) == Err::<DiagramValue, LatexGenError>(LatexGenError::FoundCNOTWithNoTarget),
    decreases instructions.len(),
{
    if instructions.len() == 0 {
    } else {
        match spec_apply_instruction(d, instructions[0]) {
            Ok(d2) => {
                lemma_populate_err_value(d2, instructions.drop_first());
            },
            Err(e) => {},
        }
    }
}

} // verus!
