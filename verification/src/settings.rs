//! Configuration consumed by the diagram: independent toggles that
//! control labelling, imputation and parameter texification.

use vstd::prelude::*;

verus! {

/// RenderSettings contains the metadata that allows the user to
/// customize how the circuit is rendered or use the default
/// implementation.
#[derive(Clone, Copy, Debug)]
pub struct RenderSettings {
    /// Convert numerical constants, e.g. pi, to LaTeX form.
    pub texify_numerical_constants: bool,
    /// Include all qubits implicitly referenced in the program.
    pub impute_missing_qubits: bool,
    /// Label qubit lines.
    pub label_qubit_lines: bool,
    /// Write controlled rotations in compact form.
    pub abbreviate_controlled_rotations: bool,
    /// Extend the length of open wires at the right of the diagram.
    pub qubit_line_open_wire_length: u32,
    /// Align measurement operations to appear at the end of the diagram.
    pub right_align_terminal_measurements: bool,
}

impl Default for RenderSettings {
    /// Returns the default settings: texified constants, no imputed
    /// qubits, labelled qubit lines.
    fn default() -> (r: Self)
        ensures
            r.texify_numerical_constants == true,
            r.impute_missing_qubits == false,
            r.label_qubit_lines == true,
            r.abbreviate_controlled_rotations == false,
            r.qubit_line_open_wire_length == 1u32,
            r.right_align_terminal_measurements == true,
    {
        Self {
            texify_numerical_constants: true,
            impute_missing_qubits: false,
            label_qubit_lines: true,
            abbreviate_controlled_rotations: false,
            qubit_line_open_wire_length: 1,
            right_align_terminal_measurements: true,
        }
    }
}

impl RenderSettings {
    /// Returns a label with the qubit name for the left side of the
    /// wire.
    pub fn label_qubit_lines(&self, name: u64) -> (r: String)
        ensures
            r@ == crate::commands::spec_label(name),
    {
        crate::commands::label_qubit_line(name)
    }
}

} // verus!
