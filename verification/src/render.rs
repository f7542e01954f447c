//! Serialization of a diagram: rows in ascending qubit order, each
//! with a leading label cell, one markup cell per column, a trailing
//! open wire, and a row-break marker between rows.

use vstd::prelude::*;

use crate::commands::{nr_latex, qw_latex, spec_label, Command};
use crate::diagram::{wf, Diagram, DiagramValue};
use crate::wire::{cell_wf, render_cell, render_cell_exec, CellValue, Wire, WireValue};

verus! {

/// The concatenated markup of a wire's cells, in column order.
pub open spec fn render_cells(cells: Seq<CellValue>) -> Seq<char>
    decreases cells.len(),
{
    if cells.len() == 0 {
        Seq::empty()
    } else {
        render_cells(cells.drop_last()) + render_cell(cells.last())
    }
}

/// One row without its terminator: the ket label (or a bare filler
/// cell when labels are off), the cells, and a trailing open wire.
pub open spec fn render_row_core(w: WireValue, label: bool) -> Seq<char> {
    (if label {
        spec_label(w.name)
    } else {
        qw_latex()
    }) + render_cells(w.cells) + " & "@ + qw_latex()
}

/// All rows: every row ends with a newline, and every row but the last
/// carries a row-break marker first.
pub open spec fn render_rows(circuit: Seq<WireValue>, label: bool) -> Seq<char>
    decreases circuit.len(),
{
    if circuit.len() == 0 {
        Seq::empty()
    } else if circuit.len() == 1 {
        render_row_core(circuit[0], label) + "\n"@
    } else {
        render_row_core(circuit[0], label) + " "@ + nr_latex() + "\n"@
            + render_rows(circuit.drop_first(), label)
    }
}

/// The full body: a leading newline, then the rows.
pub open spec fn render_body(d: DiagramValue) -> Seq<char> {
    "\n"@ + render_rows(d.circuit, d.settings.label_qubit_lines)
}

/// Renders a wire's cells.
fn render_cells_exec(cells: &Vec<crate::wire::Cell>) -> (r: String)
    requires
        forall|c: int| 0 <= c < cells@.len() ==> cell_wf(#[trigger] cells.deep_view()[c]),
    ensures
        r@ == render_cells(cells.deep_view()),
{
    let mut acc = String::new();
    let n = cells.len();
    proof {
        assert(acc@ =~= render_cells(cells.deep_view().take(0)));
    }
    let mut i: usize = 0;
    while i < n
        invariant
            n == cells@.len(),
            i <= n,
            forall|c: int| 0 <= c < cells@.len() ==> cell_wf(#[trigger] cells.deep_view()[c]),
            acc@ == render_cells(cells.deep_view().take(i as int)),
        decreases n - i,
    {
        proof {
            assert(cells.deep_view()[i as int] == cells@[i as int]@);
            assert(cell_wf(cells.deep_view()[i as int]));
        }
        let piece = render_cell_exec(&cells[i]);
        acc.append(piece.as_str());
        proof {
            assert(cells.deep_view().take(i + 1).drop_last() =~= cells.deep_view().take(i as int));
            assert(cells.deep_view().take(i + 1).last() == cells.deep_view()[i as int]);
        }
        i = i + 1;
    }
    proof {
        assert(cells.deep_view().take(n as int) =~= cells.deep_view());
    }
    acc
}

/// Renders one row without its terminator.
fn render_row_core_exec(w: &Wire, label: bool) -> (r: String)
    requires
        forall|c: int| 0 <= c < w.cells@.len() ==> cell_wf(#[trigger] w@.cells[c]),
    ensures
        r@ == render_row_core(w@, label),
{
    let mut acc = if label {
        crate::commands::label_qubit_line(w.name)
    } else {
        Command::get_command(Command::Qw)
    };
    proof {
        assert(w.cells.deep_view() == w@.cells);
    }
    let cells = render_cells_exec(&w.cells);
    acc.append(cells.as_str());
    acc.append(" & ");
    acc.append("\\qw");
    acc
}

impl Diagram {
    /// Serializes the circuit to the document body: one row per wire,
    /// in ascending qubit order.
    pub fn render(&self) -> (r: String)
        requires
            wf(self@),
        ensures
            r@ == render_body(self@),
    {
        let mut acc = String::from_str("\n");
        let ghost full = self@.circuit;
        let label = self.settings.label_qubit_lines;
        let n = self.circuit.len();
        proof {
            assert(full.skip(0) =~= full);
        }
        let mut i: usize = 0;
        while i < n
            invariant
                wf(self@),
                n == self.circuit@.len(),
                i <= n,
                full == self@.circuit,
                label == self@.settings.label_qubit_lines,
                acc@ + render_rows(full.skip(i as int), label) == "\n"@ + render_rows(full, label),
            decreases n - i,
        {
            proof {
                assert(full.skip(i as int)[0] == full[i as int]);
                assert(full.skip(i as int).drop_first() =~= full.skip(i as int + 1));
                assert(forall|c: int| 0 <= c < full[i as int].cells.len()
                    ==> cell_wf(#[trigger] full[i as int].cells[c]));
            }
            let row = render_row_core_exec(&self.circuit[i], label);
            acc.append(row.as_str());
            if i + 1 < n {
                acc.append(" ");
                acc.append("\\\\");
                acc.append("\n");
                proof {
                    assert(render_rows(full.skip(i as int), label)
                        =~= render_row_core(full[i as int], label) + " "@ + nr_latex() + "\n"@
                            + render_rows(full.skip(i as int + 1), label));
                    assert(acc@ + render_rows(full.skip(i as int + 1), label)
                        =~= "\n"@ + render_rows(full, label));
                }
            } else {
                acc.append("\n");
                proof {
                    assert(full.skip(i as int).len() == 1);
                    assert(render_rows(full.skip(i as int), label)
                        =~= render_row_core(full[i as int], label) + "\n"@);
                    assert(render_rows(full.skip(i as int + 1), label) =~= Seq::<char>::empty());
                    assert(acc@ + render_rows(full.skip(i as int + 1), label)
                        =~= "\n"@ + render_rows(full, label));
                }
            }
            i = i + 1;
        }
        proof {
            assert(render_rows(full.skip(n as int), label) =~= Seq::<char>::empty());
            assert(acc@ =~= acc@ + render_rows(full.skip(n as int), label));
            assert(acc@ =~= render_body(self@));
        }
        acc
    }
}

} // verus!
