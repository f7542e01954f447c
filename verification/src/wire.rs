//! Wires and cells: the per-qubit record of everything placed at each
//! column, and the rendering of a single cell.

use vstd::prelude::*;

use crate::commands::{
    gate_latex, phase_latex, qw_latex, spec_match_symbol, spec_parameter_latex, super_latex,
    targ_latex, ctrl_latex, Parameter, ParameterValue, Symbol, SymbolValue,
};
use crate::instruction::{expression_text, Expression, ExpressionValue};
use crate::text::{contains_str, dec_of_int, has_substring};

verus! {

/// The closed classification that decides how a gate cell is drawn:
/// phase-family gates render as phase markers, bitflip-family targets
/// as the dedicated not-target glyph, everything else as a gate box.
#[derive(Clone, Copy, PartialEq, Eq, Structural, Debug)]
pub enum GateKind {
    Phase,
    Bitflip,
    Generic,
}

/// The family of a composed gate name: phase-family when the name
/// contains `PHASE`, bitflip-family when it contains `NOT`.
pub open spec fn classify(name: Seq<char>) -> GateKind {
    if has_substring(name, "PHASE"@) {
        GateKind::Phase
    } else if has_substring(name, "NOT"@) {
        GateKind::Bitflip
    } else {
        GateKind::Generic
    }
}

/// Classifies a composed gate name.
pub fn classify_name(name: &str) -> (r: GateKind)
    ensures
        r == classify(name@),
{
    if contains_str(name, "PHASE") {
        GateKind::Phase
    } else if contains_str(name, "NOT") {
        GateKind::Bitflip
    } else {
        GateKind::Generic
    }
}

/// Everything recorded for one gate occupying one cell: the composed
/// display name, superscript tags, resolved parameters, and the
/// control or target role assigned by relationship resolution.
pub struct GateCell {
    /// The display name with control-modifier prefixes composed in.
    pub name: String,
    /// Superscript tags, in modifier declaration order.
    pub modifiers: Vec<String>,
    /// Resolved parameter symbols, present only for phase-family gates.
    pub parameters: Vec<Parameter>,
    /// The signed row distance to the target, when this cell controls one.
    pub ctrl: Option<i64>,
    /// Whether this cell is the target of its relationship group.
    pub targ: bool,
    /// The rendering family of the composed name.
    pub kind: GateKind,
    /// Whether the composed name denotes a multi-qubit relationship.
    pub relationship: bool,
}

/// The mathematical value of a gate cell.
#[verifier::ext_equal]
pub struct GateCellValue {
    pub name: Seq<char>,
    pub modifiers: Seq<Seq<char>>,
    pub parameters: Seq<ParameterValue>,
    pub ctrl: Option<int>,
    pub targ: bool,
    pub kind: GateKind,
    pub relationship: bool,
}

impl View for GateCell {
    type V = GateCellValue;

    open spec fn view(&self) -> GateCellValue {
        GateCellValue {
            name: self.name@,
            modifiers: self.modifiers.deep_view(),
            parameters: self.parameters.deep_view(),
            ctrl: match self.ctrl {
                Some(d) => Some(d as int),
                None => None,
            },
            targ: self.targ,
            kind: self.kind,
            relationship: self.relationship,
        }
    }
}

impl DeepView for GateCell {
    type V = GateCellValue;

    open spec fn deep_view(&self) -> GateCellValue {
        self.view()
    }
}

/// One cell of a wire: a gate, or a filler that just continues the
/// wire through an unused column.
pub enum Cell {
    Empty,
    Gate(GateCell),
}

/// The mathematical value of a cell.
#[verifier::ext_equal]
pub enum CellValue {
    Empty,
    Gate(GateCellValue),
}

impl View for Cell {
    type V = CellValue;

    open spec fn view(&self) -> CellValue {
        match self {
            Cell::Empty => CellValue::Empty,
            Cell::Gate(gate) => CellValue::Gate(gate@),
        }
    }
}

impl DeepView for Cell {
    type V = CellValue;

    open spec fn deep_view(&self) -> CellValue {
        self.view()
    }
}

/// A wire represents a single qubit: its index, and one cell per
/// column of the diagram.
pub struct Wire {
    /// The qubit index, shown in the row's ket label.
    pub name: u64,
    /// One cell per column, in column order.
    pub cells: Vec<Cell>,
}

/// The mathematical value of a wire.
#[verifier::ext_equal]
pub struct WireValue {
    pub name: u64,
    pub cells: Seq<CellValue>,
}

impl View for Wire {
    type V = WireValue;

    open spec fn view(&self) -> WireValue {
        WireValue { name: self.name, cells: self.cells.deep_view() }
    }
}

impl DeepView for Wire {
    type V = WireValue;

    open spec fn deep_view(&self) -> WireValue {
        self.view()
    }
}

/// A well-formed cell: a relationship gate always has a nonempty
/// composed name (it starts with the control prefix).
pub open spec fn cell_wf(cell: CellValue) -> bool {
    match cell {
        CellValue::Empty => true,
        CellValue::Gate(gate) => gate.relationship ==> gate.name.len() >= 1,
    }
}

/// Marking a cell as the target of its column's relationship group.
pub open spec fn mark_targ_cell(cell: CellValue) -> CellValue {
    match cell {
        CellValue::Empty => CellValue::Empty,
        CellValue::Gate(gate) => CellValue::Gate(GateCellValue { targ: true, ..gate }),
    }
}

/// Marking a cell as a control with its signed row distance to the
/// target.
pub open spec fn mark_ctrl_cell(cell: CellValue, distance: int) -> CellValue {
    match cell {
        CellValue::Empty => CellValue::Empty,
        CellValue::Gate(gate) => CellValue::Gate(GateCellValue { ctrl: Some(distance), ..gate }),
    }
}

impl Wire {
    /// Marks the cell at the given column as a relationship target.
    pub fn mark_targ(&mut self, column: usize)
        requires
            column < old(self).cells@.len(),
        ensures
            final(self)@.name == old(self)@.name,
            final(self)@.cells == old(self)@.cells.update(column as int, mark_targ_cell(old(self)@.cells[column as int])),
    {
        let cell = self.cells.remove(column);
        let marked = match cell {
            Cell::Empty => Cell::Empty,
            Cell::Gate(gate) => {
                let mut gate = gate;
                gate.targ = true;
                Cell::Gate(gate)
            },
        };
        self.cells.insert(column, marked);
        proof {
            assert(self@.cells =~= old(self)@.cells.update(
                column as int,
                mark_targ_cell(old(self)@.cells[column as int]),
            ));
        }
    }

    /// Marks the cell at the given column as a control with the given
    /// signed row distance to its target.
    pub fn mark_ctrl(&mut self, column: usize, distance: i64)
        requires
            column < old(self).cells@.len(),
        ensures
            final(self)@.name == old(self)@.name,
            final(self)@.cells == old(self)@.cells.update(column as int, mark_ctrl_cell(old(self)@.cells[column as int], distance as int)),
    {
        let cell = self.cells.remove(column);
        let marked = match cell {
            Cell::Empty => Cell::Empty,
            Cell::Gate(gate) => {
                let mut gate = gate;
                gate.ctrl = Some(distance);
                Cell::Gate(gate)
            },
        };
        self.cells.insert(column, marked);
        proof {
            assert(self@.cells =~= old(self)@.cells.update(
                column as int,
                mark_ctrl_cell(old(self)@.cells[column as int], distance as int),
            ));
        }
    }
}

/// The parameter a single expression resolves to: its display text,
/// matched against the symbol vocabulary when texification is on.
pub open spec fn param_of(e: ExpressionValue, texify: bool) -> ParameterValue {
    ParameterValue::Symbol(
        if texify {
            spec_match_symbol(expression_text(e))
        } else {
            SymbolValue::Text(expression_text(e))
        },
    )
}

/// The resolved parameter list of a phase-family gate, in declaration
/// order.
pub open spec fn params_of(exprs: Seq<ExpressionValue>, texify: bool) -> Seq<ParameterValue>
    decreases exprs.len(),
{
    if exprs.len() == 0 {
        Seq::empty()
    } else {
        params_of(exprs.drop_last(), texify) + seq![param_of(exprs.last(), texify)]
    }
}

/// Resolves one parameter expression and appends it to a cell's
/// parameter list.
pub fn set_param(parameters: &mut Vec<Parameter>, expression: &Expression, texify: bool)
    ensures
        final(parameters).deep_view() == old(parameters).deep_view() + seq![param_of(expression@, texify)],
{
    let text: String = match expression {
        Expression::Address(name) => name.clone(),
        Expression::Number(text) => text.clone(),
        Expression::Generic(text) => text.clone(),
    };
    let symbol = if texify {
        Symbol::match_symbol(text)
    } else {
        Symbol::Text(text)
    };
    parameters.push(Parameter::Symbol(symbol));
    proof {
        assert(parameters.deep_view() =~= old(parameters).deep_view() + seq![param_of(expression@, texify)]);
    }
}

/// Resolves every parameter expression of a phase-family gate.
pub fn build_parameters(expressions: &Vec<Expression>, texify: bool) -> (r: Vec<Parameter>)
    ensures
        r.deep_view() == params_of(expressions.deep_view(), texify),
{
    let mut parameters: Vec<Parameter> = Vec::new();
    let n = expressions.len();
    proof {
        assert(parameters.deep_view() =~= params_of(expressions.deep_view().take(0), texify));
    }
    let mut i: usize = 0;
    while i < n
        invariant
            n == expressions@.len(),
            i <= n,
            parameters.deep_view() == params_of(expressions.deep_view().take(i as int), texify),
        decreases n - i,
    {
        set_param(&mut parameters, &expressions[i], texify);
        proof {
            assert(expressions.deep_view().take(i + 1).drop_last() =~= expressions.deep_view().take(i as int));
            assert(expressions.deep_view().take(i + 1).last() == expressions.deep_view()[i as int]);
        }
        i = i + 1;
    }
    proof {
        assert(expressions.deep_view().take(n as int) =~= expressions.deep_view());
    }
    parameters
}

/// The concatenated superscripts of a gate cell, in declaration order.
pub open spec fn superscripts(modifiers: Seq<Seq<char>>) -> Seq<char>
    decreases modifiers.len(),
{
    if modifiers.len() == 0 {
        Seq::empty()
    } else {
        superscripts(modifiers.drop_last()) + super_latex(modifiers.last())
    }
}

/// Renders the concatenated superscripts of a gate cell.
pub fn render_superscripts(modifiers: &Vec<String>) -> (r: String)
    ensures
        r@ == superscripts(modifiers.deep_view()),
{
    let mut acc = String::new();
    let n = modifiers.len();
    proof {
        assert(acc@ =~= superscripts(modifiers.deep_view().take(0)));
    }
    let mut i: usize = 0;
    while i < n
        invariant
            n == modifiers@.len(),
            i <= n,
            acc@ == superscripts(modifiers.deep_view().take(i as int)),
        decreases n - i,
    {
        let piece = crate::commands::Command::get_command(
            crate::commands::Command::Super(modifiers[i].clone()),
        );
        acc.append(piece.as_str());
        proof {
            assert(modifiers.deep_view().take(i + 1).drop_last() =~= modifiers.deep_view().take(i as int));
            assert(modifiers.deep_view().take(i + 1).last() == modifiers.deep_view()[i as int]);
        }
        i = i + 1;
    }
    proof {
        assert(modifiers.deep_view().take(n as int) =~= modifiers.deep_view());
    }
    acc
}

/// The concatenated phase markers of a cell's parameter list.
pub open spec fn phase_cells(parameters: Seq<ParameterValue>) -> Seq<char>
    decreases parameters.len(),
{
    if parameters.len() == 0 {
        Seq::empty()
    } else {
        phase_cells(parameters.drop_last()) + phase_latex(spec_parameter_latex(parameters.last()))
    }
}

/// Renders the concatenated phase markers of a cell's parameter list.
pub fn render_phases(parameters: &Vec<Parameter>) -> (r: String)
    ensures
        r@ == phase_cells(parameters.deep_view()),
{
    let mut acc = String::new();
    let n = parameters.len();
    proof {
        assert(acc@ =~= phase_cells(parameters.deep_view().take(0)));
    }
    let mut i: usize = 0;
    while i < n
        invariant
            n == parameters@.len(),
            i <= n,
            acc@ == phase_cells(parameters.deep_view().take(i as int)),
        decreases n - i,
    {
        let symbol = parameters[i].render();
        let piece = crate::commands::Command::get_command(crate::commands::Command::Phase(symbol));
        acc.append(piece.as_str());
        proof {
            assert(parameters.deep_view().take(i + 1).drop_last() =~= parameters.deep_view().take(i as int));
            assert(parameters.deep_view().take(i + 1).last() == parameters.deep_view()[i as int]);
        }
        i = i + 1;
    }
    proof {
        assert(parameters.deep_view().take(n as int) =~= parameters.deep_view());
    }
    acc
}

/// The markup of a gate cell, chosen by role and family: a control
/// marker if the cell controls a target; for targets, a phase marker,
/// the not-target glyph, or a single-letter gate box, by family; for
/// plain gates, a phase marker or a gate box carrying the full
/// composed name and its superscripts.
pub open spec fn render_gate_cell(gate: GateCellValue) -> Seq<char> {
    if gate.relationship {
        match gate.ctrl {
            Some(distance) => ctrl_latex(dec_of_int(distance)),
            None => {
                if gate.targ {
                    match gate.kind {
                        GateKind::Phase => phase_cells(gate.parameters),
                        GateKind::Bitflip => targ_latex(),
                        GateKind::Generic => gate_latex(
                            seq![gate.name.last()] + superscripts(gate.modifiers),
                        ),
                    }
                } else {
                    Seq::empty()
                }
            },
        }
    } else {
        match gate.kind {
            GateKind::Phase => phase_cells(gate.parameters),
            GateKind::Bitflip | GateKind::Generic => gate_latex(
                gate.name + superscripts(gate.modifiers),
            ),
        }
    }
}

/// The markup of one cell, with its column separator: a filler cell
/// renders as a bare wire continuation.
pub open spec fn render_cell(cell: CellValue) -> Seq<char> {
    match cell {
        CellValue::Empty => " & "@ + qw_latex(),
        CellValue::Gate(gate) => " & "@ + render_gate_cell(gate),
    }
}

/// Renders one cell.
pub fn render_cell_exec(cell: &Cell) -> (r: String)
    requires
        cell_wf(cell@),
    ensures
        r@ == render_cell(cell@),
{
    let mut acc = String::from_str(" & ");
    match cell {
        Cell::Empty => {
            acc.append("\\qw");
        },
        Cell::Gate(gate) => {
            if gate.relationship {
                match &gate.ctrl {
                    Some(distance) => {
                        let text = crate::text::i64_to_dec(*distance);
                        let piece = crate::commands::Command::get_command(
                            crate::commands::Command::Ctrl(text),
                        );
                        acc.append(piece.as_str());
                    },
                    None => {
                        if gate.targ {
                            match gate.kind {
                                GateKind::Phase => {
                                    let piece = render_phases(&gate.parameters);
                                    acc.append(piece.as_str());
                                },
                                GateKind::Bitflip => {
                                    acc.append("\\targ{}");
                                },
                                GateKind::Generic => {
                                    let len = gate.name.as_str().unicode_len();
                                    let last = gate.name.as_str().substring_char(len - 1, len);
                                    let mut boxed = String::new();
                                    boxed.append(last);
                                    proof {
                                        assert(boxed@ =~= seq![gate.name@.last()]);
                                    }
                                    let supers = render_superscripts(&gate.modifiers);
                                    boxed.append(supers.as_str());
                                    let piece = crate::commands::Command::get_command(
                                        crate::commands::Command::Gate(boxed),
                                    );
                                    acc.append(piece.as_str());
                                },
                            }
                        }
                    },
                }
            } else {
                match gate.kind {
                    GateKind::Phase => {
                        let piece = render_phases(&gate.parameters);
                        acc.append(piece.as_str());
                    },
                    GateKind::Bitflip | GateKind::Generic => {
                        let mut boxed = gate.name.clone();
                        let supers = render_superscripts(&gate.modifiers);
                        boxed.append(supers.as_str());
                        let piece = crate::commands::Command::get_command(
                            crate::commands::Command::Gate(boxed),
                        );
                        acc.append(piece.as_str());
                    },
                }
            }
        },
    }
    acc
}

} // verus!
