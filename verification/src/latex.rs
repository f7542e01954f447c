//! The conversion entry point: a program becomes a diagram through
//! the population pass, optionally widened by imputation, resolved,
//! serialized, and wrapped in the fixed document template.

use vstd::prelude::*;

use crate::diagram::{
    has_wire, lemma_resolve_identity, spec_apply_gate, spec_impute, spec_resolve, wf, Diagram,
    DiagramValue, LatexGenError,
};
use crate::document::{spec_document, Document};
use crate::instruction::{
    fixed_ids, instruction_qubits, lemma_used_qubits, program_uses_qubit, strictly_sorted,
    used_qubits, Instruction, InstructionValue, Program,
};
use crate::render::render_body;
use crate::settings::RenderSettings;
use crate::wire::{Wire, WireValue};

verus! {

/// The diagram before population: one empty wire per used qubit, in
/// ascending order, and the column cursor at zero.
pub open spec fn init_diagram(settings: RenderSettings, qubits: Seq<u64>) -> DiagramValue {
    DiagramValue {
        settings: settings,
        column: 0,
        relationships: Seq::empty(),
        circuit: qubits.map_values(|q: u64| WireValue { name: q, cells: Seq::empty() }),
    }
}

/// What one instruction does to the diagram: a gate instruction lays
/// out one column, every other instruction kind is a no-op.
pub open spec fn spec_apply_instruction(d: DiagramValue, inst: InstructionValue) -> Result<DiagramValue, LatexGenError> {
    match inst {
        InstructionValue::Gate(g) => spec_apply_gate(d, g),
        InstructionValue::Other(_) => Ok(d),
    }
}

/// The population pass: one left-to-right fold over the instruction
/// sequence, stopping at the first malformed relationship.
pub open spec fn spec_populate(d: DiagramValue, instructions: Seq<InstructionValue>) -> Result<DiagramValue, LatexGenError>
    decreases instructions.len(),
{
    if instructions.len() == 0 {
        Ok(d)
    } else {
        match spec_apply_instruction(d, instructions[0]) {
            Ok(d2) => spec_populate(d2, instructions.drop_first()),
            Err(e) => Err(e),
        }
    }
}

/// The whole conversion: populate the initial diagram, impute, resolve,
/// serialize, and wrap the body in the document template.
pub open spec fn spec_to_latex(instructions: Seq<InstructionValue>, settings: RenderSettings) -> Result<Seq<char>, LatexGenError> {
    let d0 = init_diagram(settings, used_qubits(instructions));
    match spec_populate(d0, instructions) {
        Ok(d1) => Ok(spec_document(render_body(spec_resolve(spec_impute(d1))))),
        Err(e) => Err(e),
    }
}

/// The machine bound on a renderable program: control distances are
/// stored as 64-bit signed integers, so the final row count — after
/// imputation, the whole inclusive range between the lowest and the
/// highest used qubit — must stay below 2^63.
pub open spec fn row_limit_ok(instructions: Seq<InstructionValue>, settings: RenderSettings) -> bool {
    let qs = used_qubits(instructions);
    &&& qs.len() < 0x8000_0000_0000_0000
    &&& (settings.impute_missing_qubits && qs.len() >= 2
        ==> qs[qs.len() - 1] - qs[0] < 0x7FFF_FFFF_FFFF_FFFF)
}

pub trait Latex {
    /// The document this value converts to, or the conversion error.
    spec fn latex_spec(&self, settings: RenderSettings) -> Result<Seq<char>, LatexGenError>;

    /// The machine bound under which the conversion is defined.
    spec fn latex_renderable(&self, settings: RenderSettings) -> bool;

    /// Converts the value to a markup document.
    fn to_latex(self, settings: RenderSettings) -> (r: Result<String, LatexGenError>) where Self: Sized
        requires
            self.latex_renderable(settings),
        ensures
            match r {
                Ok(s) => self.latex_spec(settings) == Ok::<Seq<char>, LatexGenError>(s@),
                Err(e) => self.latex_spec(settings) == Err::<Seq<char>, LatexGenError>(e),
            },
    ;
}

impl Program {
    /// Converts the program after checking the machine bound at run
    /// time: `None` when the final row count would not fit the signed
    /// distance type, otherwise the conversion's result.
    pub fn try_to_latex(self, settings: RenderSettings) -> (r: Option<Result<String, LatexGenError>>)
        ensures
            r is Some <==> row_limit_ok(self@, settings),
            match r {
                Some(out) => match out {
                    Ok(s) => spec_to_latex(self@, settings) == Ok::<Seq<char>, LatexGenError>(s@),
                    Err(e) => spec_to_latex(self@, settings) == Err::<Seq<char>, LatexGenError>(e),
                },
                None => true,
            },
    {
        let qubits = self.get_used_qubits();
        if (qubits.len() as u64) >= 0x8000_0000_0000_0000u64 {
            return None;
        }
        if settings.impute_missing_qubits && qubits.len() >= 2 {
            let first = qubits[0];
            let last = qubits[qubits.len() - 1];
            proof {
                assert(first <= last) by {
                    if qubits@.len() >= 2 {
                        assert(qubits@[0] < qubits@[qubits@.len() - 1]);
                    }
                }
            }
            if last - first >= 0x7FFF_FFFF_FFFF_FFFFu64 {
                return None;
            }
        }
        Some(Latex::to_latex(self, settings))
    }
}

impl Latex for Program {
    open spec fn latex_spec(&self, settings: RenderSettings) -> Result<Seq<char>, LatexGenError> {
        spec_to_latex(self@, settings)
    }

    open spec fn latex_renderable(&self, settings: RenderSettings) -> bool {
        row_limit_ok(self@, settings)
    }

    /// Converts the program to a rendered circuit diagram: one column
    /// per gate instruction, one row per used qubit, control and
    /// target wiring resolved in final row order.
    fn to_latex(self, settings: RenderSettings) -> (r: Result<String, LatexGenError>) {
        let ghost instrs = self@;
        let qubits = self.get_used_qubits();
        proof {
            lemma_used_qubits(instrs);
        }
        let mut circuit: Vec<Wire> = Vec::new();
        let nq = qubits.len();
        let mut i: usize = 0;
        while i < nq
            invariant
                nq == qubits@.len(),
                i <= nq,
                circuit@.len() == i,
                forall|k: int| 0 <= k < i ==> circuit.deep_view()[k]
                    == (WireValue { name: #[trigger] qubits@[k], cells: Seq::empty() }),
            decreases nq - i,
        {
            let ghost before = circuit.deep_view();
            circuit.push(Wire { name: qubits[i], cells: Vec::new() });
            proof {
                assert(circuit.deep_view()[i as int]
                    =~= (WireValue { name: qubits@[i as int], cells: Seq::empty() }));
                assert(forall|k: int| 0 <= k < i ==> circuit.deep_view()[k] == before[k]);
                assert(forall|k: int| 0 <= k < i + 1 ==> circuit.deep_view()[k]
                    == (WireValue { name: #[trigger] qubits@[k], cells: Seq::empty() }));
            }
            i = i + 1;
        }
        let mut diagram = Diagram { settings, column: 0, relationships: Vec::new(), circuit };
        proof {
            assert(diagram@.circuit =~= used_qubits(instrs).map_values(
                |q: u64| WireValue { name: q, cells: Seq::empty() },
            ));
            assert(diagram@ =~= init_diagram(settings, used_qubits(instrs)));
            assert(wf(diagram@)) by {
                assert(forall|k: int| 0 <= k < diagram@.circuit.len()
                    ==> (#[trigger] diagram@.circuit[k]).name == used_qubits(instrs)[k]
                        && diagram@.circuit[k].cells.len() == 0);
            }
        }
        let mut has_ctrl_targ = false;
        let n = self.instructions.len();
        proof {
            assert(instrs.skip(0) =~= instrs);
        }
        let mut j: usize = 0;
        while j < n
            invariant
                n == self.instructions@.len(),
                j <= n,
                instrs == self@,
                wf(diagram@),
                diagram@.settings == settings,
                diagram@.circuit.len() == used_qubits(instrs).len(),
                forall|k: int| 0 <= k < diagram@.circuit.len()
                    ==> (#[trigger] diagram@.circuit[k]).name == used_qubits(instrs)[k],
                spec_populate(diagram@, instrs.skip(j as int))
                    == spec_populate(init_diagram(settings, used_qubits(instrs)), instrs),
                !has_ctrl_targ ==> forall|c: int| 0 <= c < diagram@.relationships.len()
                    ==> (#[trigger] diagram@.relationships[c]).len() == 0,
            decreases n - j,
        {
            proof {
                assert(instrs.skip(j as int)[0] == instrs[j as int]);
                assert(instrs.skip(j as int).drop_first() =~= instrs.skip(j as int + 1));
                assert(instrs[j as int] == self.instructions@[j as int].deep_view());
            }
            match &self.instructions[j] {
                Instruction::Gate(gate) => {
                    proof {
                        lemma_used_qubits(instrs);
                        assert forall|q: u64| fixed_ids(gate@.qubits).contains(q)
                            implies has_wire(diagram@.circuit, q) by {
                            assert(instruction_qubits(instrs[j as int]) == gate@.qubits);
                            assert(program_uses_qubit(instrs, q)) by {
                                assert(fixed_ids(instruction_qubits(instrs[j as int])).contains(q));
                            }
                            assert(used_qubits(instrs).contains(q));
                            let k = choose|k: int| 0 <= k < used_qubits(instrs).len()
                                && used_qubits(instrs)[k] == q;
                            assert(diagram@.circuit[k].name == q);
                        }
                    }
                    let composed = Diagram::set_modifiers(gate);
                    let relationship = crate::text::str_starts_with_c(composed.0.as_str());
                    let ghost before = diagram@;
                    let outcome = diagram.apply_gate(gate);
                    match outcome {
                        Ok(_) => {
                            if relationship {
                                has_ctrl_targ = true;
                            }
                            proof {
                                assert(spec_apply_instruction(before, instrs[j as int])
                                    == Ok::<DiagramValue, LatexGenError>(diagram@));
                                if !has_ctrl_targ {
                                    assert forall|c: int| 0 <= c < diagram@.relationships.len()
                                        implies (#[trigger] diagram@.relationships[c]).len() == 0 by {
                                        if c < before.relationships.len() {
                                            assert(diagram@.relationships[c] == before.relationships[c]);
                                        }
                                    }
                                }
                            }
                        },
                        Err(e) => {
                            proof {
                                assert(spec_apply_instruction(before, instrs[j as int])
                                    == Err::<DiagramValue, LatexGenError>(e));
                                assert(spec_populate(before, instrs.skip(j as int))
                                    == Err::<DiagramValue, LatexGenError>(e));
                            }
                            return Err(e);
                        },
                    }
                },
                Instruction::Other(_) => {
                    proof {
                        assert(spec_apply_instruction(diagram@, instrs[j as int])
                            == Ok::<DiagramValue, LatexGenError>(diagram@));
                    }
                },
            }
            j = j + 1;
        }
        proof {
            assert(instrs.skip(n as int) =~= Seq::<InstructionValue>::empty());
            assert(spec_populate(diagram@, instrs.skip(n as int))
                == Ok::<DiagramValue, LatexGenError>(diagram@));
        }
        let ghost populated = diagram@;
        diagram.impute_missing_qubits();
        proof {
            assert(diagram@ == spec_impute(populated));
            lemma_used_qubits(instrs);
            let qs = used_qubits(instrs);
            if populated.settings.impute_missing_qubits && populated.circuit.len() >= 2 {
                assert(populated.circuit[0].name == qs[0]);
                assert(populated.circuit[populated.circuit.len() - 1].name == qs[qs.len() - 1]);
                assert(diagram@.circuit.len()
                    == qs[qs.len() - 1] - qs[0] + 1);
            } else {
                assert(diagram@.circuit.len() == populated.circuit.len());
            }
            assert(diagram@.circuit.len() < 0x8000_0000_0000_0000);
            assert(forall|c: int| 0 <= c < diagram@.relationships.len()
                ==> diagram@.relationships[c] == populated.relationships[c]);
        }
        let ghost imputed = diagram@;
        if has_ctrl_targ {
            diagram.set_ctrl_targ();
        } else {
            proof {
                assert(forall|c: int| 0 <= c < imputed.relationships.len()
                    ==> (#[trigger] imputed.relationships[c]).len() == 0);
                lemma_resolve_identity(imputed, 0);
                assert(diagram@ == spec_resolve(imputed));
            }
        }
        let body = diagram.render();
        let mut document = Document::default();
        document.body = body;
        let out = document.render();
        proof {
            assert(out@ == spec_document(render_body(spec_resolve(spec_impute(populated)))));
        }
        Ok(out)
    }
}

} // verus!
