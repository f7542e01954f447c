//! The diagram: the full set of wires keyed by qubit index, the
//! shared column cursor, and the per-column relationship groups. The
//! conversion runs in ordered passes — populate, impute, resolve,
//! serialize — and each pass is total before the next begins.

use vstd::prelude::*;

use crate::instruction::{
    fixed_ids, has_duplicate, Gate, GateModifier, GateValue, Qubit,
};
use crate::settings::RenderSettings;
use crate::text::{has_substring, starts_with_c, str_starts_with_c};
use crate::wire::{
    cell_wf, classify, classify_name, params_of, Cell, CellValue, GateCell, GateCellValue, Wire,
    WireValue,
};

verus! {

/// The error a conversion can surface: a relationship group would
/// contain the same qubit twice, so the instruction is malformed (a
/// qubit cannot both control and target itself).
#[derive(Clone, Debug, PartialEq, Eq, Structural)]
pub enum LatexGenError {
    FoundCNOTWithNoTarget,
}

impl LatexGenError {
    /// The error's display text.
    pub fn message(&self) -> (r: String)
        ensures
            r@ == "Tried to parse CNOT and found a control qubit without a target."@,
    {
        String::from_str("Tried to parse CNOT and found a control qubit without a target.")
    }
}

/// A diagram represents a collection of wires in a circuit: one row
/// per qubit, in ascending qubit order, advancing in lock-step time
/// through a shared column cursor.
pub struct Diagram {
    /// Customizes how the diagram renders the circuit.
    pub settings: RenderSettings,
    /// Total number of elements on each wire.
    pub column: usize,
    /// For each column, the qubits that form a relationship there:
    /// controls first, the target last, in instruction order.
    pub relationships: Vec<Vec<u64>>,
    /// The wires, in ascending qubit order.
    pub circuit: Vec<Wire>,
}

/// The mathematical value of a diagram.
#[verifier::ext_equal]
pub struct DiagramValue {
    pub settings: RenderSettings,
    pub column: int,
    pub relationships: Seq<Seq<u64>>,
    pub circuit: Seq<WireValue>,
}

impl View for Diagram {
    type V = DiagramValue;

    open spec fn view(&self) -> DiagramValue {
        DiagramValue {
            settings: self.settings,
            column: self.column as int,
            relationships: self.relationships.deep_view(),
            circuit: self.circuit.deep_view(),
        }
    }
}

/// Whether some wire carries the given qubit index.
pub open spec fn has_wire(circuit: Seq<WireValue>, q: u64) -> bool {
    exists|i: int| 0 <= i < circuit.len() && (#[trigger] circuit[i]).name == q
}

/// The row position of the wire carrying qubit `q`: its index in the
/// ascending row order, not the qubit number itself.
pub open spec fn row_of(circuit: Seq<WireValue>, q: u64) -> int
    decreases circuit.len(),
{
    if circuit.len() == 0 {
        0
    } else if circuit[0].name == q {
        0
    } else {
        1 + row_of(circuit.drop_first(), q)
    }
}

/// A well-formed relationship group: every member has a wire, and no
/// qubit appears twice.
pub open spec fn group_wf(group: Seq<u64>, circuit: Seq<WireValue>) -> bool {
    &&& forall|k: int| 0 <= k < group.len() ==> has_wire(circuit, #[trigger] group[k])
    &&& forall|k1: int, k2: int| 0 <= k1 < k2 < group.len() ==> group[k1] != group[k2]
}

/// A well-formed diagram: as many relationship entries as columns,
/// every wire as long as the column cursor, rows strictly ascending by
/// qubit index, well-formed groups, and well-formed cells.
pub open spec fn wf(d: DiagramValue) -> bool {
    &&& d.relationships.len() == d.column
    &&& forall|i: int| 0 <= i < d.circuit.len() ==> (#[trigger] d.circuit[i]).cells.len() == d.column
    &&& forall|i: int, j: int| 0 <= i < j < d.circuit.len()
        ==> (#[trigger] d.circuit[i]).name < (#[trigger] d.circuit[j]).name
    &&& forall|c: int| 0 <= c < d.relationships.len() ==> group_wf(#[trigger] d.relationships[c], d.circuit)
    &&& forall|i: int, c: int| 0 <= i < d.circuit.len() && 0 <= c < d.circuit[i].cells.len()
        ==> cell_wf(#[trigger] d.circuit[i].cells[c])
}

/// The display name of a gate after modifier composition: each
/// control modifier, in declaration order, prepends one `C`.
pub open spec fn composed_name(modifiers: Seq<GateModifier>, name: Seq<char>) -> Seq<char>
    decreases modifiers.len(),
{
    if modifiers.len() == 0 {
        name
    } else {
        let base = if modifiers[0] == GateModifier::Controlled {
            seq!['C'] + name
        } else {
            name
        };
        composed_name(modifiers.drop_first(), base)
    }
}

/// The superscript tags of a gate: one "dagger" per dagger modifier,
/// in declaration order.
pub open spec fn dagger_tags(modifiers: Seq<GateModifier>) -> Seq<Seq<char>>
    decreases modifiers.len(),
{
    if modifiers.len() == 0 {
        Seq::empty()
    } else {
        let rest = dagger_tags(modifiers.drop_first());
        if modifiers[0] == GateModifier::Dagger {
            seq!["dagger"@] + rest
        } else {
            rest
        }
    }
}

/// The cell one gate instruction places on each of its qubits'
/// wires: the composed name, the dagger superscripts, the resolved
/// parameters of a phase-family base name, and the rendering family.
pub open spec fn gate_cell_of(g: GateValue, texify: bool) -> GateCellValue {
    let name = composed_name(g.modifiers, g.name);
    GateCellValue {
        name: name,
        modifiers: dagger_tags(g.modifiers),
        parameters: if has_substring(g.name, "PHASE"@) {
            params_of(g.parameters, texify)
        } else {
            Seq::empty()
        },
        ctrl: None,
        targ: false,
        kind: classify(name),
        relationship: starts_with_c(name),
    }
}

/// The filler step: a wire not referenced by the instruction gets a
/// filler cell at the current column; referenced wires are untouched.
pub open spec fn qw_step(w: WireValue, ids: Seq<u64>) -> WireValue {
    if ids.contains(w.name) {
        w
    } else {
        WireValue { name: w.name, cells: w.cells.push(CellValue::Empty) }
    }
}

/// The full population step for one wire: referenced wires get the
/// instruction's gate cell, all others a filler cell.
pub open spec fn wire_gate_step(w: WireValue, g: GateValue, texify: bool) -> WireValue {
    if fixed_ids(g.qubits).contains(w.name) {
        WireValue { name: w.name, cells: w.cells.push(CellValue::Gate(gate_cell_of(g, texify))) }
    } else {
        WireValue { name: w.name, cells: w.cells.push(CellValue::Empty) }
    }
}

/// What one gate instruction does to the diagram: every wire gains one
/// cell, the column advances, and the relationship group for the new
/// column is recorded when the composed name denotes a relationship.
/// A duplicate fixed qubit in a relationship is the fatal error.
pub open spec fn spec_apply_gate(d: DiagramValue, g: GateValue) -> Result<DiagramValue, LatexGenError> {
    let name = composed_name(g.modifiers, g.name);
    let rel = starts_with_c(name);
    let ids = fixed_ids(g.qubits);
    if rel && has_duplicate(ids) {
        Err(LatexGenError::FoundCNOTWithNoTarget)
    } else {
        Ok(DiagramValue {
            settings: d.settings,
            column: d.column + 1,
            relationships: d.relationships.push(if rel { ids } else { Seq::empty() }),
            circuit: d.circuit.map_values(|w: WireValue| wire_gate_step(w, g, d.settings.texify_numerical_constants)),
        })
    }
}

impl Diagram {
    /// Composes the display name and superscript tags of one
    /// instruction: every control modifier adds a `C` prefix to the
    /// display name, every dagger modifier adds a "dagger" tag.
    pub fn set_modifiers(gate: &Gate) -> (r: (String, Vec<String>))
        ensures
            r.0@ == composed_name(gate@.modifiers, gate@.name),
            r.1.deep_view() == dagger_tags(gate@.modifiers),
    {
        let ghost mods = gate@.modifiers;
        let mut name = gate.name.clone();
        let mut tags: Vec<String> = Vec::new();
        let n = gate.modifiers.len();
        proof {
            assert(mods.skip(0) =~= mods);
            assert(tags.deep_view() + dagger_tags(mods.skip(0)) =~= dagger_tags(mods));
        }
        let mut i: usize = 0;
        while i < n
            invariant
                n == gate.modifiers@.len(),
                mods == gate@.modifiers,
                gate@.modifiers == gate.modifiers@,
                i <= n,
                composed_name(mods, gate@.name) == composed_name(mods.skip(i as int), name@),
                dagger_tags(mods) == tags.deep_view() + dagger_tags(mods.skip(i as int)),
            decreases n - i,
        {
            proof {
                assert(mods.skip(i as int).drop_first() =~= mods.skip(i as int + 1));
                assert(mods.skip(i as int)[0] == mods[i as int]);
            }
            match gate.modifiers[i] {
                GateModifier::Controlled => {
                    proof {
                        reveal_strlit("C");
                        assert("C"@ =~= seq!['C']);
                    }
                    let mut prefixed = String::from_str("C");
                    prefixed.append(name.as_str());
                    name = prefixed;
                },
                GateModifier::Dagger => {
                    let ghost tags_before = tags.deep_view();
                    tags.push(String::from_str("dagger"));
                    proof {
                        assert(tags.deep_view() =~= tags_before + seq!["dagger"@]);
                        assert(dagger_tags(mods.skip(i as int)) =~= seq!["dagger"@] + dagger_tags(mods.skip(i as int + 1)));
                        assert(tags_before + (seq!["dagger"@] + dagger_tags(mods.skip(i as int + 1)))
                            =~= (tags_before + seq!["dagger"@]) + dagger_tags(mods.skip(i as int + 1)));
                    }
                },
                GateModifier::Forked => {},
            }
            i = i + 1;
        }
        proof {
            assert(mods.skip(n as int) =~= Seq::<GateModifier>::empty());
            assert(tags.deep_view() + dagger_tags(mods.skip(n as int)) =~= tags.deep_view());
        }
        (name, tags)
    }
}

/// Collects the fixed qubit indices of an instruction's qubit list,
/// in order, duplicates kept.
fn collect_fixed_ids(qubits: &Vec<Qubit>) -> (r: Vec<u64>)
    ensures
        r@ == fixed_ids(qubits.deep_view()),
{
    let ghost qs = qubits.deep_view();
    let mut ids: Vec<u64> = Vec::new();
    let n = qubits.len();
    proof {
        assert(qs.skip(0) =~= qs);
        assert(ids@ + fixed_ids(qs.skip(0)) =~= fixed_ids(qs));
    }
    let mut i: usize = 0;
    while i < n
        invariant
            n == qubits@.len(),
            qs == qubits.deep_view(),
            i <= n,
            fixed_ids(qs) == ids@ + fixed_ids(qs.skip(i as int)),
        decreases n - i,
    {
        proof {
            assert(qs.skip(i as int).drop_first() =~= qs.skip(i as int + 1));
            assert(qs.skip(i as int)[0] == qs[i as int]);
        }
        match &qubits[i] {
            Qubit::Fixed(q) => {
                let ghost before = ids@;
                ids.push(*q);
                proof {
                    assert(fixed_ids(qs.skip(i as int)) =~= seq![*q] + fixed_ids(qs.skip(i as int + 1)));
                    assert(before + (seq![*q] + fixed_ids(qs.skip(i as int + 1)))
                        =~= ids@ + fixed_ids(qs.skip(i as int + 1)));
                }
            },
            Qubit::Variable(_) => {},
        }
        i = i + 1;
    }
    proof {
        assert(fixed_ids(qs.skip(n as int)) =~= Seq::<u64>::empty());
        assert(ids@ + fixed_ids(qs.skip(n as int)) =~= ids@);
    }
    ids
}

/// Linear membership test.
fn contains_u64(values: &Vec<u64>, x: u64) -> (r: bool)
    ensures
        r == values@.contains(x),
{
    let n = values.len();
    let mut i: usize = 0;
    while i < n
        invariant
            n == values@.len(),
            i <= n,
            forall|k: int| 0 <= k < i ==> values@[k] != x,
        decreases n - i,
    {
        if values[i] == x {
            return true;
        }
        i = i + 1;
    }
    false
}

/// Quadratic duplicate test.
fn vec_has_duplicate(values: &Vec<u64>) -> (r: bool)
    ensures
        r == has_duplicate(values@),
{
    let n = values.len();
    let mut i: usize = 0;
    while i < n
        invariant
            n == values@.len(),
            i <= n,
            forall|a: int, b: int| 0 <= a < b < n && a < i ==> values@[a] != values@[b],
        decreases n - i,
    {
        let mut j: usize = i + 1;
        while j < n
            invariant
                n == values@.len(),
                i < j,
                j <= n,
                i < n,
                forall|b: int| i < b < j ==> values@[i as int] != values@[b],
            decreases n - j,
        {
            if values[i] == values[j] {
                proof {
                    assert(0 <= (i as int) && (i as int) < (j as int) && (j as int) < values@.len()
                        && values@[i as int] == values@[j as int]);
                }
                return true;
            }
            j = j + 1;
        }
        i = i + 1;
    }
    false
}

/// Builds the cell a gate instruction places on each wire it
/// references.
fn build_cell(gate: &Gate, texify: bool) -> (r: GateCell)
    ensures
        r@ == gate_cell_of(gate@, texify),
{
    let composed = Diagram::set_modifiers(gate);
    let parameters = if crate::text::contains_str(gate.name.as_str(), "PHASE") {
        crate::wire::build_parameters(&gate.parameters, texify)
    } else {
        Vec::new()
    };
    let kind = classify_name(composed.0.as_str());
    let relationship = str_starts_with_c(composed.0.as_str());
    let cell = GateCell {
        name: composed.0,
        modifiers: composed.1,
        parameters,
        ctrl: None,
        targ: false,
        kind,
        relationship,
    };
    proof {
        assert(cell@.parameters =~= gate_cell_of(gate@, texify).parameters);
        assert(cell@ =~= gate_cell_of(gate@, texify));
    }
    cell
}

impl Diagram {
    /// Appends one cell to the wire at the given row: the wire gains
    /// the cell as its next column, and every other wire is untouched.
    pub fn push_wire(&mut self, idx: usize, cell: Cell)
        requires
            idx < old(self).circuit@.len(),
        ensures
            final(self).settings == old(self).settings,
            final(self).column == old(self).column,
            final(self).relationships == old(self).relationships,
            final(self).circuit@.len() == old(self).circuit@.len(),
            final(self)@.circuit == old(self)@.circuit.update(
                idx as int,
                WireValue {
                    name: old(self)@.circuit[idx as int].name,
                    cells: old(self)@.circuit[idx as int].cells.push(cell@),
                },
            ),
    {
        let ghost appended = cell@;
        let w = &mut self.circuit[idx];
        w.cells.push(cell);
        proof {
            assert(self.circuit.deep_view() =~~= old(self)@.circuit.update(
                idx as int,
                WireValue {
                    name: old(self)@.circuit[idx as int].name,
                    cells: old(self)@.circuit[idx as int].cells.push(appended),
                },
            ));
        }
    }

    /// Inserts a filler cell at the current column on the wire of
    /// every qubit used in the program but not referenced by this
    /// instruction, keeping unrelated rows visually aligned.
    pub fn set_qw(&mut self, ids: &Vec<u64>)
        ensures
            final(self).settings == old(self).settings,
            final(self).column == old(self).column,
            final(self)@.relationships == old(self)@.relationships,
            final(self)@.circuit == old(self)@.circuit.map_values(|w: WireValue| qw_step(w, ids@)),
    {
        let n = self.circuit.len();
        let mut idx: usize = 0;
        while idx < n
            invariant
                n == self.circuit@.len(),
                idx <= n,
                self.settings == old(self).settings,
                self.column == old(self).column,
                self.relationships@ == old(self).relationships@,
                self.circuit@.len() == old(self)@.circuit.len(),
                forall|k: int| 0 <= k < idx
                    ==> self.circuit.deep_view()[k] == qw_step(#[trigger] old(self)@.circuit[k], ids@),
                forall|k: int| idx <= k < n
                    ==> self.circuit.deep_view()[k] == #[trigger] old(self)@.circuit[k],
            decreases n - idx,
        {
            let referenced = contains_u64(ids, self.circuit[idx].name);
            proof {
                assert(self.circuit.deep_view()[idx as int] == old(self)@.circuit[idx as int]);
                assert(self.circuit@[idx as int].name == self.circuit.deep_view()[idx as int].name);
            }
            if !referenced {
                let ghost before = self.circuit.deep_view();
                self.push_wire(idx, Cell::Empty);
                proof {
                    assert(forall|k: int| 0 <= k < n && k != idx
                        ==> self.circuit.deep_view()[k] == before[k]);
                    assert(self.circuit.deep_view()[idx as int].cells
                        =~= before[idx as int].cells.push(CellValue::Empty));
                    assert(self.circuit.deep_view()[idx as int]
                        =~= qw_step(old(self)@.circuit[idx as int], ids@));
                }
            } else {
                proof {
                    assert(ids@.contains(old(self)@.circuit[idx as int].name));
                    assert(qw_step(old(self)@.circuit[idx as int], ids@)
                        == old(self)@.circuit[idx as int]);
                }
            }
            proof {
                assert(self.circuit.deep_view()[idx as int]
                    == qw_step(old(self)@.circuit[idx as int], ids@));
                assert(forall|k: int| 0 <= k < idx
                    ==> self.circuit.deep_view()[k] == qw_step(#[trigger] old(self)@.circuit[k], ids@));
            }
            idx = idx + 1;
        }
        proof {
            assert(self.circuit.deep_view()
                =~= old(self)@.circuit.map_values(|w: WireValue| qw_step(w, ids@)));
        }
    }
}

impl Diagram {
    /// Lays one gate instruction out at the current column: a filler
    /// cell on every unreferenced wire, the instruction's gate cell on
    /// every referenced wire, the relationship group for the new
    /// column, and the column advance. A duplicate fixed qubit in a
    /// relationship is the fatal error, and leaves the diagram
    /// unchanged.
    pub fn apply_gate(&mut self, gate: &Gate) -> (r: Result<(), LatexGenError>)
        requires
            wf(old(self)@),
            forall|q: u64| fixed_ids(gate@.qubits).contains(q) ==> has_wire(old(self)@.circuit, q),
        ensures
            match r {
                Ok(_) => {
                    &&& spec_apply_gate(old(self)@, gate@) == Ok::<DiagramValue, LatexGenError>(final(self)@)
                    &&& wf(final(self)@)
                    &&& final(self)@.circuit.len() == old(self)@.circuit.len()
                    &&& forall|i: int| 0 <= i < final(self)@.circuit.len()
                        ==> (#[trigger] final(self)@.circuit[i]).name == old(self)@.circuit[i].name
                    &&& final(self)@.settings == old(self)@.settings
                },
                Err(e) => {
                    &&& spec_apply_gate(old(self)@, gate@) == Err::<DiagramValue, LatexGenError>(e)
                    &&& final(self)@ == old(self)@
                },
            },
    {
        let texify = self.settings.texify_numerical_constants;
        let ids = collect_fixed_ids(&gate.qubits);
        let composed = Diagram::set_modifiers(gate);
        let relationship = str_starts_with_c(composed.0.as_str());
        if relationship {
            if vec_has_duplicate(&ids) {
                return Err(LatexGenError::FoundCNOTWithNoTarget);
            }
        }
        self.set_qw(&ids);
        let n = self.circuit.len();
        proof {
            assert(self.circuit.deep_view().len() == old(self)@.circuit.len());
            assert forall|k: int| 0 <= k < n
                implies self.circuit.deep_view()[k] == qw_step(#[trigger] old(self)@.circuit[k], ids@) by {
                assert(self.circuit.deep_view()[k]
                    == old(self)@.circuit.map_values(|w: WireValue| qw_step(w, ids@))[k]);
            }
        }
        let mut idx: usize = 0;
        while idx < n
            invariant
                n == self.circuit@.len(),
                n == old(self)@.circuit.len(),
                idx <= n,
                self.settings == old(self).settings,
                self.column == old(self).column,
                self.relationships.deep_view() == old(self)@.relationships,
                texify == old(self)@.settings.texify_numerical_constants,
                ids@ == fixed_ids(gate@.qubits),
                forall|k: int| 0 <= k < idx
                    ==> self.circuit.deep_view()[k] == wire_gate_step(#[trigger] old(self)@.circuit[k], gate@, texify),
                forall|k: int| idx <= k < n
                    ==> self.circuit.deep_view()[k] == qw_step(#[trigger] old(self)@.circuit[k], ids@),
            decreases n - idx,
        {
            let ghost w_old = old(self)@.circuit[idx as int];
            proof {
                assert(self.circuit.deep_view()[idx as int] == qw_step(w_old, ids@));
                assert(self.circuit@[idx as int].name == self.circuit.deep_view()[idx as int].name);
                assert(qw_step(w_old, ids@).name == w_old.name);
            }
            let referenced = contains_u64(&ids, self.circuit[idx].name);
            if referenced {
                let cell = build_cell(gate, texify);
                let ghost before = self.circuit.deep_view();
                self.push_wire(idx, Cell::Gate(cell));
                proof {
                    assert(forall|k: int| 0 <= k < n && k != idx
                        ==> self.circuit.deep_view()[k] == before[k]);
                    assert(qw_step(w_old, ids@) == w_old);
                    assert(self.circuit.deep_view()[idx as int].cells
                        =~= w_old.cells.push(CellValue::Gate(gate_cell_of(gate@, texify))));
                    assert(self.circuit.deep_view()[idx as int]
                        =~= wire_gate_step(w_old, gate@, texify));
                }
            } else {
                proof {
                    assert(!ids@.contains(w_old.name));
                    assert(qw_step(w_old, ids@).cells =~= w_old.cells.push(CellValue::Empty));
                    assert(wire_gate_step(w_old, gate@, texify).cells =~= w_old.cells.push(CellValue::Empty));
                    assert(self.circuit.deep_view()[idx as int]
                        =~= wire_gate_step(w_old, gate@, texify));
                }
            }
            proof {
                assert(forall|k: int| 0 <= k < idx
                    ==> self.circuit.deep_view()[k] == wire_gate_step(#[trigger] old(self)@.circuit[k], gate@, texify));
            }
            idx = idx + 1;
        }
        let ghost group: Seq<u64> = if relationship { ids@ } else { Seq::empty() };
        let ghost groups_before = old(self)@.relationships;
        if relationship {
            self.relationships.push(ids);
        } else {
            self.relationships.push(Vec::new());
        }
        proof {
            let m = groups_before.len() as int;
            assert(self.relationships@.len() == m + 1);
            assert(self.relationships@[m].deep_view() =~= self.relationships@[m]@);
            assert(self.relationships@[m]@ == group);
            assert(self.relationships.deep_view()
                =~= old(self)@.relationships.push(group));
        }
        let advanced = self.relationships.len();
        proof {
            assert(advanced as int == self.column as int + 1);
        }
        self.column = self.column + 1;
        proof {
            let target = DiagramValue {
                settings: old(self)@.settings,
                column: old(self)@.column + 1,
                relationships: old(self)@.relationships.push(group),
                circuit: old(self)@.circuit.map_values(
                    |w: WireValue| wire_gate_step(w, gate@, old(self)@.settings.texify_numerical_constants),
                ),
            };
            assert(self.circuit.deep_view() =~= target.circuit);
            assert(self@ =~= target);
            assert(spec_apply_gate(old(self)@, gate@) == Ok::<DiagramValue, LatexGenError>(self@));
            lemma_apply_gate_wf(old(self)@, gate@);
        }
        Ok(())
    }
}

/// One population step keeps the diagram well-formed: every wire gains
/// exactly one well-formed cell, names do not move, and the new
/// relationship group is duplicate-free with a wire for each member.
proof fn lemma_apply_gate_wf(d: DiagramValue, g: GateValue)
    requires
        wf(d),
        forall|q: u64| fixed_ids(g.qubits).contains(q) ==> has_wire(d.circuit, q),
        spec_apply_gate(d, g) is Ok,
    ensures
        wf(spec_apply_gate(d, g)->Ok_0),
        spec_apply_gate(d, g)->Ok_0.circuit.len() == d.circuit.len(),
        forall|i: int| 0 <= i < d.circuit.len()
            ==> (#[trigger] spec_apply_gate(d, g)->Ok_0.circuit[i]).name == d.circuit[i].name,
{
    let r = spec_apply_gate(d, g)->Ok_0;
    let name = composed_name(g.modifiers, g.name);
    let rel = starts_with_c(name);
    let ids = fixed_ids(g.qubits);
    assert(forall|i: int| 0 <= i < d.circuit.len()
        ==> (#[trigger] r.circuit[i]) == wire_gate_step(d.circuit[i], g, d.settings.texify_numerical_constants));
    assert(forall|i: int| 0 <= i < d.circuit.len() ==> (#[trigger] r.circuit[i]).name == d.circuit[i].name);
    assert(forall|i: int| 0 <= i < r.circuit.len()
        ==> (#[trigger] r.circuit[i]).cells.len() == r.column);
    assert forall|c: int| 0 <= c < r.relationships.len() implies group_wf(#[trigger] r.relationships[c], r.circuit) by {
        assert forall|q: u64| has_wire(d.circuit, q) implies has_wire(r.circuit, q) by {
            if has_wire(d.circuit, q) {
                let i = choose|i: int| 0 <= i < d.circuit.len() && (#[trigger] d.circuit[i]).name == q;
                assert(r.circuit[i].name == q);
            }
        }
        if c < d.relationships.len() {
            assert(r.relationships[c] == d.relationships[c]);
            assert(group_wf(d.relationships[c], d.circuit));
        } else {
            assert(r.relationships[c] == if rel { ids } else { Seq::<u64>::empty() });
            if rel {
                assert(!has_duplicate(ids));
                assert forall|k1: int, k2: int| 0 <= k1 < k2 < ids.len() implies ids[k1] != ids[k2] by {
                    if ids[k1] == ids[k2] {
                        assert(has_duplicate(ids));
                    }
                }
                assert(forall|k: int| 0 <= k < ids.len() ==> has_wire(r.circuit, #[trigger] ids[k])) by {
                    assert(forall|k: int| 0 <= k < ids.len() ==> ids.contains(#[trigger] ids[k]));
                }
            }
        }
    }
    assert forall|i: int, c: int| 0 <= i < r.circuit.len() && 0 <= c < r.circuit[i].cells.len()
        implies cell_wf(#[trigger] r.circuit[i].cells[c]) by {
        if c < d.circuit[i].cells.len() {
            assert(r.circuit[i].cells[c] == d.circuit[i].cells[c]);
            assert(cell_wf(d.circuit[i].cells[c]));
        } else {
            assert(c == d.circuit[i].cells.len());
            if ids.contains(d.circuit[i].name) {
                assert(r.circuit[i].cells[c] == CellValue::Gate(gate_cell_of(g, d.settings.texify_numerical_constants)));
            } else {
                assert(r.circuit[i].cells[c] == CellValue::Empty);
            }
        }
    }
}

/// A wire created by imputation: filler cells in every column so far.
pub open spec fn blank_wire(q: u64, column: int) -> WireValue {
    WireValue { name: q, cells: Seq::new(column as nat, |j: int| CellValue::Empty) }
}

/// The circuit widened to the full inclusive range between its lowest
/// and highest qubit: row `i` carries qubit `first + i`, either the
/// existing wire or an all-filler wire.
pub open spec fn imputed_circuit(circuit: Seq<WireValue>, column: int) -> Seq<WireValue> {
    let first = circuit[0].name;
    let last = circuit[circuit.len() - 1].name;
    Seq::new((last - first + 1) as nat, |i: int|
        if has_wire(circuit, (first + i) as u64) {
            circuit[row_of(circuit, (first + i) as u64)]
        } else {
            blank_wire((first + i) as u64, column)
        })
}

/// The imputation pass: enabled by configuration, it takes effect only
/// when at least two wires exist, and inserts an all-filler wire for
/// every missing qubit index between the lowest and highest present.
pub open spec fn spec_impute(d: DiagramValue) -> DiagramValue {
    if d.settings.impute_missing_qubits && d.circuit.len() >= 2 {
        DiagramValue { circuit: imputed_circuit(d.circuit, d.column), ..d }
    } else {
        d
    }
}

/// `row_of` finds the first wire with the given name.
pub proof fn lemma_row_of(circuit: Seq<WireValue>, q: u64)
    requires
        has_wire(circuit, q),
    ensures
        0 <= row_of(circuit, q) < circuit.len(),
        circuit[row_of(circuit, q)].name == q,
        forall|j: int| 0 <= j < row_of(circuit, q) ==> (#[trigger] circuit[j]).name != q,
    decreases circuit.len(),
{
    if circuit[0].name == q {
    } else {
        let tail = circuit.drop_first();
        assert(has_wire(tail, q)) by {
            let i = choose|i: int| 0 <= i < circuit.len() && (#[trigger] circuit[i]).name == q;
            assert(tail[i - 1].name == q);
        }
        lemma_row_of(tail, q);
        assert forall|j: int| 0 <= j < row_of(circuit, q) implies (#[trigger] circuit[j]).name != q by {
            if j > 0 {
                assert(tail[j - 1] == circuit[j]);
            }
        }
    }
}

/// In a strictly ascending circuit, each wire is found at its own row.
pub proof fn lemma_row_of_self(circuit: Seq<WireValue>, k: int)
    requires
        forall|i: int, j: int| 0 <= i < j < circuit.len()
            ==> (#[trigger] circuit[i]).name < (#[trigger] circuit[j]).name,
        0 <= k < circuit.len(),
    ensures
        row_of(circuit, circuit[k].name) == k,
{
    let q = circuit[k].name;
    assert(has_wire(circuit, q));
    lemma_row_of(circuit, q);
    let r = row_of(circuit, q);
    if r < k {
        assert(circuit[r].name < circuit[k].name);
    } else if r > k {
        assert(circuit[k].name != q);
    }
}

/// `row_of` depends only on wire names.
pub proof fn lemma_row_of_names(c1: Seq<WireValue>, c2: Seq<WireValue>, q: u64)
    requires
        c1.len() == c2.len(),
        forall|i: int| 0 <= i < c1.len() ==> (#[trigger] c1[i]).name == (#[trigger] c2[i]).name,
    ensures
        row_of(c1, q) == row_of(c2, q),
        has_wire(c1, q) == has_wire(c2, q),
    decreases c1.len(),
{
    if c1.len() == 0 {
    } else {
        assert(c1[0].name == c2[0].name);
        let t1 = c1.drop_first();
        let t2 = c2.drop_first();
        assert(forall|i: int| 0 <= i < t1.len() ==> (#[trigger] t1[i]).name == (#[trigger] t2[i]).name) by {
            assert(forall|i: int| 0 <= i < t1.len() ==> t1[i] == c1[i + 1] && t2[i] == c2[i + 1]);
        }
        lemma_row_of_names(t1, t2, q);
        assert forall|i: int| 0 <= i < c1.len() && (#[trigger] c1[i]).name == q
            implies has_wire(c2, q) by {
            assert(c2[i].name == q);
        }
        assert forall|i: int| 0 <= i < c2.len() && (#[trigger] c2[i]).name == q
            implies has_wire(c1, q) by {
            assert(c1[i].name == q);
        }
    }
}

/// Builds an all-filler wire spanning the given number of columns.
fn make_blank_wire(q: u64, column: usize) -> (w: Wire)
    ensures
        w@ == blank_wire(q, column as int),
{
    let mut cells: Vec<Cell> = Vec::new();
    let mut j: usize = 0;
    while j < column
        invariant
            j <= column,
            cells@.len() == j,
            forall|k: int| 0 <= k < j ==> (#[trigger] cells@[k]) matches Cell::Empty,
        decreases column - j,
    {
        cells.push(Cell::Empty);
        j = j + 1;
    }
    let w = Wire { name: q, cells };
    proof {
        assert forall|k: int| 0 <= k < w@.cells.len() implies w@.cells[k] == CellValue::Empty by {
            assert(w.cells@[k] matches Cell::Empty);
        }
        assert(w@.cells =~= blank_wire(q, column as int).cells);
        assert(w@ =~= blank_wire(q, column as int));
    }
    w
}

impl Diagram {
    /// Adds missing qubits between the first and last qubit of the
    /// diagram's circuit: each missing index gets a new all-filler
    /// wire, inserted in index order. Takes effect only when enabled
    /// in the settings and at least two wires exist.
    pub fn impute_missing_qubits(&mut self)
        requires
            wf(old(self)@),
        ensures
            final(self)@ == spec_impute(old(self)@),
            wf(final(self)@),
    {
        if !self.settings.impute_missing_qubits || self.circuit.len() < 2 {
            proof {
                assert(spec_impute(old(self)@) =~= old(self)@);
            }
            return;
        }
        let ghost orig = old(self)@.circuit;
        let ghost col = old(self)@.column;
        let ghost target = imputed_circuit(orig, col);
        let ghost first = orig[0].name;
        let ghost last_name = orig[orig.len() - 1].name;
        let column = self.column;
        let mut taken: Vec<Wire> = Vec::new();
        core::mem::swap(&mut taken, &mut self.circuit);
        let mut result: Vec<Wire> = Vec::new();
        proof {
            assert(first <= last_name) by {
                assert(orig[0].name < orig[orig.len() - 1].name);
            }
            assert(target.len() == last_name - first + 1);
            lemma_row_of_self(orig, 0);
            assert(target[0] == orig[0]);
        }
        let total = taken.len();
        let head = taken.remove(0);
        let mut prev_name = head.name;
        result.push(head);
        proof {
            assert(result.deep_view() =~= target.take(1));
        }
        let mut k: usize = 1;
        while k < total
            invariant
                total == orig.len(),
                1 <= k <= total,
                self.settings == old(self).settings,
                self.column == old(self).column,
                column == old(self).column,
                self.relationships@ == old(self).relationships@,
                taken.deep_view() =~= orig.skip(k as int),
                prev_name == orig[k - 1].name,
                col == old(self)@.column,
                target == imputed_circuit(orig, col),
                first == orig[0].name,
                last_name == orig[orig.len() - 1].name,
                orig == old(self)@.circuit,
                wf(old(self)@),
                first <= prev_name <= last_name,
                result.deep_view() =~= target.take(prev_name - first + 1),
            decreases total - k,
        {
            proof {
                assert(taken.deep_view().len() == orig.skip(k as int).len());
                assert(taken@.len() > 0);
            }
            let w = taken.remove(0);
            proof {
                assert(taken.deep_view() =~= orig.skip(k as int + 1)) by {
                    assert(taken.deep_view() =~= orig.skip(k as int).drop_first());
                    assert(orig.skip(k as int).drop_first() =~= orig.skip(k as int + 1));
                }
                assert(w@ == orig.skip(k as int)[0]);
                assert(w@ == orig[k as int]);
                assert(prev_name < w@.name) by {
                    assert(orig[k - 1].name < orig[k as int].name);
                }
                assert(w@.name <= last_name) by {
                    if k as int != orig.len() - 1 {
                        assert(orig[k as int].name < orig[orig.len() - 1].name);
                    }
                }
            }
            let wname = w.name;
            let mut q = prev_name + 1;
            while q < wname
                invariant
                    wf(old(self)@),
                    orig == old(self)@.circuit,
                    target == imputed_circuit(orig, col),
                    col == old(self)@.column,
                    column == old(self).column,
                    col == column as int,
                    first == orig[0].name,
                    last_name == orig[orig.len() - 1].name,
                    1 <= k < orig.len(),
                    w@ == orig[k as int],
                    wname == w@.name,
                    orig[k - 1].name < q <= wname,
                    wname <= last_name,
                    first <= orig[k - 1].name,
                    result.deep_view() =~= target.take(q - first),
                decreases wname - q,
            {
                proof {
                    assert(!has_wire(orig, q)) by {
                        if has_wire(orig, q) {
                            let i = choose|i: int| 0 <= i < orig.len() && (#[trigger] orig[i]).name == q;
                            if i <= k - 1 {
                                if i < k - 1 {
                                    assert(orig[i].name < orig[k - 1].name);
                                }
                                assert(orig[i].name <= orig[k - 1].name);
                            } else {
                                if i > k {
                                    assert(orig[k as int].name < orig[i].name);
                                }
                                assert(orig[k as int].name <= orig[i].name);
                            }
                        }
                    }
                    assert(target[q - first] == blank_wire(q, col));
                }
                let blank = make_blank_wire(q, column);
                let ghost before = result.deep_view();
                result.push(blank);
                proof {
                    assert(result.deep_view() =~= before.push(blank_wire(q, col)));
                    assert(result.deep_view() =~= target.take(q - first + 1));
                }
                q = q + 1;
            }
            proof {
                lemma_row_of_self(orig, k as int);
                assert(has_wire(orig, wname)) by {
                    assert(orig[k as int].name == wname);
                }
                assert(target[wname - first] == orig[k as int]);
            }
            let ghost before = result.deep_view();
            result.push(w);
            proof {
                assert(result.deep_view() =~= before.push(orig[k as int]));
                assert(result.deep_view() =~= target.take(wname - first + 1));
            }
            prev_name = wname;
            k = k + 1;
        }
        core::mem::swap(&mut result, &mut self.circuit);
        proof {
            assert(prev_name == last_name) by {
                assert(orig[total - 1].name == last_name);
            }
            assert(self.circuit.deep_view() =~= target.take(last_name - first + 1));
            assert(self.circuit.deep_view() =~= target);
            assert(self@ =~= spec_impute(old(self)@));
            lemma_impute_wf(old(self)@);
        }
    }
}

/// Imputation keeps the diagram well-formed: inserted rows are
/// all-filler and in index order, existing rows are unchanged.
pub proof fn lemma_impute_wf(d: DiagramValue)
    requires
        wf(d),
    ensures
        wf(spec_impute(d)),
{
    if d.settings.impute_missing_qubits && d.circuit.len() >= 2 {
        let r = spec_impute(d);
        let first = d.circuit[0].name;
        let target = imputed_circuit(d.circuit, d.column);
        assert forall|i: int| 0 <= i < target.len() implies (#[trigger] target[i]).cells.len() == d.column
            && target[i].name == first + i by {
            if has_wire(d.circuit, (first + i) as u64) {
                lemma_row_of(d.circuit, (first + i) as u64);
            }
        }
        assert forall|c: int| 0 <= c < r.relationships.len()
            implies group_wf(#[trigger] r.relationships[c], r.circuit) by {
            assert(group_wf(d.relationships[c], d.circuit));
            assert forall|kk: int| 0 <= kk < r.relationships[c].len()
                implies has_wire(r.circuit, #[trigger] r.relationships[c][kk]) by {
                let q = r.relationships[c][kk];
                assert(has_wire(d.circuit, q));
                let i = choose|i: int| 0 <= i < d.circuit.len() && (#[trigger] d.circuit[i]).name == q;
                assert(first <= q) by {
                    if i > 0 {
                        assert(d.circuit[0].name < d.circuit[i].name);
                    }
                }
                assert(q <= d.circuit[d.circuit.len() - 1].name) by {
                    if i < d.circuit.len() - 1 {
                        assert(d.circuit[i].name < d.circuit[d.circuit.len() - 1].name);
                    }
                }
                assert(target[q - first].name == q);
            }
        }
        assert forall|i: int, c: int| 0 <= i < r.circuit.len() && 0 <= c < r.circuit[i].cells.len()
            implies cell_wf(#[trigger] r.circuit[i].cells[c]) by {
            if has_wire(d.circuit, (first + i) as u64) {
                lemma_row_of(d.circuit, (first + i) as u64);
                let rw = row_of(d.circuit, (first + i) as u64);
                assert(r.circuit[i] == d.circuit[rw]);
                assert(cell_wf(d.circuit[rw].cells[c]));
            } else {
                assert(r.circuit[i].cells[c] == CellValue::Empty);
            }
        }
    }
}

/// The resolution step for one wire at one column: the group's last
/// qubit is the target and is marked as such; every other member is a
/// control and stores its signed row distance to the target, measured
/// in final row order (positive when the control's row lies above the
/// target's, i.e. the control's qubit number is smaller).
pub open spec fn mark_wire_for_group(w: WireValue, c: int, group: Seq<u64>, circuit: Seq<WireValue>) -> WireValue {
    let targ_q = group.last();
    if w.name == targ_q {
        WireValue { name: w.name, cells: w.cells.update(c, crate::wire::mark_targ_cell(w.cells[c])) }
    } else if group.drop_last().contains(w.name) {
        let distance = row_of(circuit, targ_q) - row_of(circuit, w.name);
        WireValue { name: w.name, cells: w.cells.update(c, crate::wire::mark_ctrl_cell(w.cells[c], distance)) }
    } else {
        w
    }
}

/// Resolution of one column: a group of fewer than two members carries
/// no relationship and changes nothing.
pub open spec fn apply_group(d: DiagramValue, c: int) -> DiagramValue {
    let group = d.relationships[c];
    if group.len() < 2 {
        d
    } else {
        DiagramValue {
            circuit: d.circuit.map_values(|w: WireValue| mark_wire_for_group(w, c, group, d.circuit)),
            ..d
        }
    }
}

/// Resolution of every column from `c` on.
pub open spec fn resolve_from(d: DiagramValue, c: int) -> DiagramValue
    decreases d.relationships.len() - c,
{
    if c < 0 || c >= d.relationships.len() {
        d
    } else {
        resolve_from(apply_group(d, c), c + 1)
    }
}

/// The relationship-resolution pass over the whole diagram.
pub open spec fn spec_resolve(d: DiagramValue) -> DiagramValue {
    resolve_from(d, 0)
}

/// Resolving one column changes neither names nor lengths, and keeps
/// the diagram well-formed.
pub proof fn lemma_apply_group_wf(d: DiagramValue, c: int)
    requires
        wf(d),
        0 <= c < d.relationships.len(),
    ensures
        wf(apply_group(d, c)),
        apply_group(d, c).settings == d.settings,
        apply_group(d, c).column == d.column,
        apply_group(d, c).relationships == d.relationships,
        apply_group(d, c).circuit.len() == d.circuit.len(),
        forall|i: int| 0 <= i < d.circuit.len()
            ==> (#[trigger] apply_group(d, c).circuit[i]).name == d.circuit[i].name,
{
    let r = apply_group(d, c);
    let group = d.relationships[c];
    if group.len() < 2 {
    } else {
        assert(forall|i: int| 0 <= i < d.circuit.len()
            ==> (#[trigger] r.circuit[i]) == mark_wire_for_group(d.circuit[i], c, group, d.circuit));
        assert forall|i: int| 0 <= i < d.circuit.len()
            implies (#[trigger] r.circuit[i]).name == d.circuit[i].name
                && r.circuit[i].cells.len() == d.circuit[i].cells.len() by {
            let w = d.circuit[i];
            if w.name == group.last() {
            } else if group.drop_last().contains(w.name) {
            }
        }
        assert forall|c2: int| 0 <= c2 < r.relationships.len()
            implies group_wf(#[trigger] r.relationships[c2], r.circuit) by {
            assert(group_wf(d.relationships[c2], d.circuit));
            assert forall|k: int| 0 <= k < r.relationships[c2].len()
                implies has_wire(r.circuit, #[trigger] r.relationships[c2][k]) by {
                let q = r.relationships[c2][k];
                assert(has_wire(d.circuit, q));
                let i = choose|i: int| 0 <= i < d.circuit.len() && (#[trigger] d.circuit[i]).name == q;
                assert(r.circuit[i].name == q);
            }
        }
        assert forall|i: int, c2: int| 0 <= i < r.circuit.len() && 0 <= c2 < r.circuit[i].cells.len()
            implies cell_wf(#[trigger] r.circuit[i].cells[c2]) by {
            let w = d.circuit[i];
            assert(cell_wf(w.cells[c2]));
            if w.name == group.last() && c2 == c {
                assert(r.circuit[i].cells[c2] == crate::wire::mark_targ_cell(w.cells[c]));
            } else if w.name != group.last() && group.drop_last().contains(w.name) && c2 == c {
                let distance = row_of(d.circuit, group.last()) - row_of(d.circuit, w.name);
                assert(r.circuit[i].cells[c2] == crate::wire::mark_ctrl_cell(w.cells[c], distance));
            } else {
                assert(r.circuit[i].cells[c2] == w.cells[c2]);
            }
        }
    }
}

/// Finds the row carrying qubit `q`.
fn find_row(circuit: &Vec<Wire>, q: u64) -> (r: usize)
    requires
        has_wire(circuit.deep_view(), q),
    ensures
        r < circuit@.len(),
        r as int == row_of(circuit.deep_view(), q),
        circuit.deep_view()[r as int].name == q,
{
    proof {
        lemma_row_of(circuit.deep_view(), q);
    }
    let n = circuit.len();
    let mut i: usize = 0;
    while i < n
        invariant
            n == circuit@.len(),
            i <= n,
            has_wire(circuit.deep_view(), q),
            forall|j: int| 0 <= j < i ==> (#[trigger] circuit.deep_view()[j]).name != q,
        decreases n - i,
    {
        if circuit[i].name == q {
            proof {
                lemma_row_of(circuit.deep_view(), q);
                let rw = row_of(circuit.deep_view(), q);
                if rw < i as int {
                    assert(circuit.deep_view()[rw].name != q);
                } else if rw > i as int {
                    assert(circuit.deep_view()[i as int].name != q);
                }
            }
            return i;
        }
        i = i + 1;
    }
    proof {
        lemma_row_of(circuit.deep_view(), q);
        assert(circuit.deep_view()[row_of(circuit.deep_view(), q)].name == q);
        assert(false);
    }
    0
}

impl Diagram {
    /// For every column whose relationship group has at least two
    /// members, marks the group's last qubit as the target and stores
    /// on every other member the signed row distance from its row to
    /// the target's row. Runs after population and imputation, because
    /// the distances depend on the final row set.
    pub fn set_ctrl_targ(&mut self)
        requires
            wf(old(self)@),
            old(self)@.circuit.len() < 0x8000_0000_0000_0000,
        ensures
            final(self)@ == spec_resolve(old(self)@),
            wf(final(self)@),
    {
        let ncols = self.relationships.len();
        let mut c: usize = 0;
        while c < ncols
            invariant
                wf(self@),
                ncols == self.relationships@.len(),
                c <= ncols,
                self@.circuit.len() == old(self)@.circuit.len(),
                self@.circuit.len() < 0x8000_0000_0000_0000,
                resolve_from(self@, c as int) == spec_resolve(old(self)@),
            decreases ncols - c,
        {
            let ghost at_start = self@;
            let group_len = self.relationships[c].len();
            if group_len >= 2 {
                let ghost group = at_start.relationships[c as int];
                let targ_q = self.relationships[c][group_len - 1];
                proof {
                    assert(group_wf(group, at_start.circuit));
                    assert(group.last() == targ_q) by {
                        assert(self.relationships@[c as int].deep_view() == group);
                        assert(group[group_len - 1] == self.relationships@[c as int]@[group_len - 1]);
                    }
                    assert(has_wire(at_start.circuit, targ_q)) by {
                        assert(group[group.len() - 1] == targ_q);
                    }
                }
                let t_idx = find_row(&self.circuit, targ_q);
                let ghost mid = self@;
                {
                    let w = &mut self.circuit[t_idx];
                    w.mark_targ(c);
                }
                proof {
                    assert(self.circuit.deep_view()[t_idx as int].cells
                        =~= mid.circuit[t_idx as int].cells.update(c as int, crate::wire::mark_targ_cell(mid.circuit[t_idx as int].cells[c as int])));
                }
                let mut k: usize = 0;
                while k < group_len - 1
                    invariant
                        wf(at_start),
                        at_start.circuit.len() < 0x8000_0000_0000_0000,
                        self.relationships@.len() == at_start.relationships.len(),
                        c < at_start.relationships.len(),
                        group == at_start.relationships[c as int],
                        group_wf(group, at_start.circuit),
                        group_len == group.len(),
                        2 <= group_len,
                        k <= group_len - 1,
                        targ_q == group.last(),
                        self.settings == at_start.settings,
                        self.column as int == at_start.column,
                        self.relationships.deep_view() == at_start.relationships,
                        self.circuit@.len() == at_start.circuit.len(),
                        forall|i: int| 0 <= i < at_start.circuit.len()
                            ==> (#[trigger] self.circuit.deep_view()[i])
                                == mark_wire_upto(at_start.circuit[i], c as int, group, at_start.circuit, k as int),
                    decreases group_len - k,
                {
                    let ctrl_q = {
                        let group_ref = &self.relationships[c];
                        group_ref[k]
                    };
                    proof {
                        assert(ctrl_q == group[k as int]) by {
                            assert(self.relationships@[c as int].deep_view() == group);
                        }
                        assert(ctrl_q != targ_q) by {
                            assert(group[k as int] != group[group.len() - 1]);
                        }
                        assert(group.drop_last()[k as int] == group[k as int]);
                        assert(group.drop_last().contains(ctrl_q));
                        assert(has_wire(at_start.circuit, ctrl_q)) by {
                            assert(group[k as int] == ctrl_q);
                        }
                        assert(has_wire(self.circuit.deep_view(), ctrl_q) && has_wire(self.circuit.deep_view(), targ_q)
                            && row_of(self.circuit.deep_view(), ctrl_q) == row_of(at_start.circuit, ctrl_q)
                            && row_of(self.circuit.deep_view(), targ_q) == row_of(at_start.circuit, targ_q)) by {
                            assert(forall|i: int| 0 <= i < at_start.circuit.len()
                                ==> (#[trigger] self.circuit.deep_view()[i]).name == at_start.circuit[i].name);
                            lemma_row_of_names(self.circuit.deep_view(), at_start.circuit, ctrl_q);
                            lemma_row_of_names(self.circuit.deep_view(), at_start.circuit, targ_q);
                        }
                    }
                    let c_idx = find_row(&self.circuit, ctrl_q);
                    let t_row = find_row(&self.circuit, targ_q);
                    let distance: i64 = (t_row as i64) - (c_idx as i64);
                    let ghost mid2 = self@;
                    {
                        let w = &mut self.circuit[c_idx];
                        w.mark_ctrl(c, distance);
                    }
                    proof {
                        lemma_row_of(at_start.circuit, ctrl_q);
                        assert(at_start.circuit[row_of(at_start.circuit, ctrl_q)].name == ctrl_q);
                        assert(mid2.circuit[c_idx as int].name == ctrl_q);
                        assert(self.circuit.deep_view()[c_idx as int].cells
                            =~= mid2.circuit[c_idx as int].cells.update(c as int, crate::wire::mark_ctrl_cell(mid2.circuit[c_idx as int].cells[c as int], distance as int)));
                        assert forall|i: int| 0 <= i < at_start.circuit.len()
                            implies (#[trigger] self.circuit.deep_view()[i])
                                == mark_wire_upto(at_start.circuit[i], c as int, group, at_start.circuit, k as int + 1) by {
                            lemma_mark_upto_step(at_start.circuit, i, c as int, group, k as int, ctrl_q, c_idx as int, mid2.circuit, self.circuit.deep_view());
                        }
                    }
                    k = k + 1;
                }
                proof {
                    assert forall|i: int| 0 <= i < at_start.circuit.len()
                        implies (#[trigger] self.circuit.deep_view()[i])
                            == mark_wire_for_group(at_start.circuit[i], c as int, group, at_start.circuit) by {
                        lemma_mark_upto_full(at_start.circuit[i], c as int, group, at_start.circuit);
                    }
                    assert(self.circuit.deep_view()
                        =~= at_start.circuit.map_values(|w: WireValue| mark_wire_for_group(w, c as int, group, at_start.circuit)));
                    assert(self@ =~= apply_group(at_start, c as int));
                    lemma_apply_group_wf(at_start, c as int);
                    assert(wf(self@));
                }
            } else {
                proof {
                    assert(apply_group(at_start, c as int) == at_start) by {
                        assert(at_start.relationships[c as int].len() < 2) by {
                            assert(self.relationships@[c as int].deep_view() == at_start.relationships[c as int]);
                        }
                    }
                }
            }
            proof {
                assert(resolve_from(at_start, c as int) == resolve_from(self@, c as int + 1));
            }
            c = c + 1;
        }
        proof {
            assert(resolve_from(self@, ncols as int) == self@);
        }
    }
}

/// The one-control marking step: after marking control `group[k]`,
/// every wire is marked as far as the first `k + 1` controls.
pub open spec fn mark_wire_upto(w: WireValue, c: int, group: Seq<u64>, circuit: Seq<WireValue>, k: int) -> WireValue {
    let targ_q = group.last();
    if w.name == targ_q {
        WireValue { name: w.name, cells: w.cells.update(c, crate::wire::mark_targ_cell(w.cells[c])) }
    } else if group.drop_last().take(k).contains(w.name) {
        let distance = row_of(circuit, targ_q) - row_of(circuit, w.name);
        WireValue { name: w.name, cells: w.cells.update(c, crate::wire::mark_ctrl_cell(w.cells[c], distance)) }
    } else {
        w
    }
}

/// Marking every control is marking the whole group.
proof fn lemma_mark_upto_full(w: WireValue, c: int, group: Seq<u64>, circuit: Seq<WireValue>)
    requires
        group.len() >= 1,
    ensures
        mark_wire_upto(w, c, group, circuit, group.len() - 1) == mark_wire_for_group(w, c, group, circuit),
{
    assert(group.drop_last().take(group.len() - 1) =~= group.drop_last());
}

/// One control marking extends the partial marking by one.
proof fn lemma_mark_upto_step(
    circuit0: Seq<WireValue>,
    i: int,
    c: int,
    group: Seq<u64>,
    k: int,
    ctrl_q: u64,
    c_idx: int,
    before: Seq<WireValue>,
    after: Seq<WireValue>,
)
    requires
        forall|i2: int, j2: int| 0 <= i2 < j2 < circuit0.len()
            ==> (#[trigger] circuit0[i2]).name < (#[trigger] circuit0[j2]).name,
        0 <= i < circuit0.len(),
        0 <= k < group.len() - 1,
        ctrl_q == group[k],
        ctrl_q != group.last(),
        forall|k1: int, k2: int| 0 <= k1 < k2 < group.len() ==> group[k1] != group[k2],
        before.len() == circuit0.len(),
        after.len() == circuit0.len(),
        forall|i2: int| 0 <= i2 < circuit0.len()
            ==> (#[trigger] before[i2]) == mark_wire_upto(circuit0[i2], c, group, circuit0, k),
        0 <= c_idx < circuit0.len(),
        before[c_idx].name == ctrl_q,
        after[c_idx].cells == before[c_idx].cells.update(c, crate::wire::mark_ctrl_cell(before[c_idx].cells[c], row_of(circuit0, group.last()) - row_of(circuit0, ctrl_q))),
        after[c_idx].name == before[c_idx].name,
        forall|i2: int| 0 <= i2 < circuit0.len() && i2 != c_idx ==> (#[trigger] after[i2]) == before[i2],
    ensures
        after[i] == mark_wire_upto(circuit0[i], c, group, circuit0, k + 1),
{
    let targ_q = group.last();
    let w = circuit0[i];
    assert(before[i] == mark_wire_upto(w, c, group, circuit0, k));
    assert(before[i].name == w.name);
    assert forall|x: u64| group.drop_last().take(k).contains(x) implies #[trigger] group.drop_last().take(k + 1).contains(x) by {
        let j = choose|j: int| 0 <= j < k && (#[trigger] group.drop_last().take(k)[j]) == x;
        assert(group.drop_last().take(k + 1)[j] == x);
    }
    if i == c_idx {
        assert(w.name == ctrl_q);
        assert(w.name != targ_q);
        assert(!group.drop_last().take(k).contains(w.name)) by {
            if group.drop_last().take(k).contains(w.name) {
                let j = choose|j: int| 0 <= j < k && (#[trigger] group.drop_last().take(k)[j]) == w.name;
                assert(group[j] == group[k]);
            }
        }
        assert(before[i] == w);
        assert(group.drop_last().take(k + 1).contains(w.name)) by {
            assert(group.drop_last().take(k + 1)[k] == group[k]);
        }
        assert(after[i] == mark_wire_upto(w, c, group, circuit0, k + 1));
    } else {
        assert(after[i] == before[i]);
        assert(w.name != ctrl_q) by {
            if w.name == ctrl_q {
                lemma_row_of_self_names(circuit0, i, c_idx);
            }
        }
        assert(group.drop_last().take(k + 1).contains(w.name) == group.drop_last().take(k).contains(w.name)) by {
            if group.drop_last().take(k + 1).contains(w.name) && !group.drop_last().take(k).contains(w.name) {
                let j = choose|j: int| 0 <= j < k + 1 && (#[trigger] group.drop_last().take(k + 1)[j]) == w.name;
                assert(j == k);
                assert(group[k] == w.name);
            }
        }
    }
}

/// With no relationship group recorded, resolution changes nothing.
pub proof fn lemma_resolve_identity(d: DiagramValue, c: int)
    requires
        forall|k: int| 0 <= k < d.relationships.len() ==> (#[trigger] d.relationships[k]).len() == 0,
        0 <= c,
    ensures
        resolve_from(d, c) == d,
    decreases d.relationships.len() - c,
{
    if c >= d.relationships.len() {
    } else {
        assert(apply_group(d, c) == d);
        lemma_resolve_identity(d, c + 1);
    }
}

/// Two distinct rows of a strictly ascending circuit carry distinct
/// names.
proof fn lemma_row_of_self_names(circuit: Seq<WireValue>, i: int, j: int)
    requires
        forall|i2: int, j2: int| 0 <= i2 < j2 < circuit.len()
            ==> (#[trigger] circuit[i2]).name < (#[trigger] circuit[j2]).name,
        0 <= i < circuit.len(),
        0 <= j < circuit.len(),
        i != j,
    ensures
        circuit[i].name != circuit[j].name,
{
    if i < j {
        assert(circuit[i].name < circuit[j].name);
    } else {
        assert(circuit[j].name < circuit[i].name);
    }
}

} // verus!
