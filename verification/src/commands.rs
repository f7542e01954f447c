//! The atomic layout primitives of the output markup: one rendering
//! command per Quantikz cell kind, plus the symbol vocabulary used for
//! phase-gate parameters.

use vstd::prelude::*;

use crate::text::dec_of;

verus! {

/// `\lstick{\ket{q_{name}}}`: the ket label at the left end of a row.
pub open spec fn lstick_latex(wire: Seq<char>) -> Seq<char> {
    "\\lstick{\\ket{q_{"@ + wire + "}}}"@
}

/// `\gate{name}`: a gate box.
pub open spec fn gate_latex(name: Seq<char>) -> Seq<char> {
    "\\gate{"@ + name + "}"@
}

/// `\phase{symbol}`: a phase marker carrying a rotation symbol.
pub open spec fn phase_latex(symbol: Seq<char>) -> Seq<char> {
    "\\phase{"@ + symbol + "}"@
}

/// `^{\script}`: a superscript attached to a gate name.
pub open spec fn super_latex(script: Seq<char>) -> Seq<char> {
    "^{\\"@ + script + "}"@
}

/// `\qw`: an empty cell that just continues the wire.
pub open spec fn qw_latex() -> Seq<char> {
    "\\qw"@
}

/// `\\`: a row break.
pub open spec fn nr_latex() -> Seq<char> {
    "\\\\"@
}

/// `\ctrl{distance}`: a control marker with the signed row distance to
/// its target.
pub open spec fn ctrl_latex(wire: Seq<char>) -> Seq<char> {
    "\\ctrl{"@ + wire + "}"@
}

/// `\targ{}`: the target marker of a controlled-not gate.
pub open spec fn targ_latex() -> Seq<char> {
    "\\targ{}"@
}

/// Available commands for building circuits, with the same names as in
/// the Quantikz documentation for easy reference.
pub enum Command {
    /// Make a qubit "stick out" from the left.
    Lstick(String),
    /// Make a gate on the wire.
    Gate(String),
    /// Make a phase on the wire with a rotation.
    Phase(String),
    /// Add a superscript to a gate.
    Super(String),
    /// Connect the current cell to the previous cell, i.e. "do nothing".
    Qw,
    /// Start a new row.
    Nr,
    /// Make a control qubit.
    Ctrl(String),
    /// Make a controlled-not gate target.
    Targ,
}

/// The markup text of one command.
pub open spec fn spec_command(command: Command) -> Seq<char> {
    match command {
        Command::Lstick(wire) => lstick_latex(wire@),
        Command::Gate(name) => gate_latex(name@),
        Command::Phase(symbol) => phase_latex(symbol@),
        Command::Super(script) => super_latex(script@),
        Command::Qw => qw_latex(),
        Command::Nr => nr_latex(),
        Command::Ctrl(wire) => ctrl_latex(wire@),
        Command::Targ => targ_latex(),
    }
}

impl Command {
    /// Renders one command to its markup string.
    pub fn get_command(command: Self) -> (r: String)
        ensures
            r@ == spec_command(command),
    {
        match command {
            Command::Lstick(wire) => {
                let mut s = String::from_str("\\lstick{\\ket{q_{");
                s.append(wire.as_str());
                s.append("}}}");
                s
            },
            Command::Gate(name) => {
                let mut s = String::from_str("\\gate{");
                s.append(name.as_str());
                s.append("}");
                s
            },
            Command::Phase(symbol) => {
                let mut s = String::from_str("\\phase{");
                s.append(symbol.as_str());
                s.append("}");
                s
            },
            Command::Super(script) => {
                let mut s = String::from_str("^{\\");
                s.append(script.as_str());
                s.append("}");
                s
            },
            Command::Qw => String::from_str("\\qw"),
            Command::Nr => String::from_str("\\\\"),
            Command::Ctrl(wire) => {
                let mut s = String::from_str("\\ctrl{");
                s.append(wire.as_str());
                s.append("}");
                s
            },
            Command::Targ => String::from_str("\\targ{}"),
        }
    }
}

/// Supported Greek and alphanumeric symbols; anything outside the
/// fixed vocabulary is carried through as literal text.
pub enum Symbol {
    Alpha,
    Beta,
    Gamma,
    Phi,
    Pi,
    Text(String),
}

/// The mathematical value of a symbol: the text variant is abstracted
/// to its character sequence.
pub enum SymbolValue {
    Alpha,
    Beta,
    Gamma,
    Phi,
    Pi,
    Text(Seq<char>),
}

impl View for Symbol {
    type V = SymbolValue;

    open spec fn view(&self) -> SymbolValue {
        match self {
            Symbol::Alpha => SymbolValue::Alpha,
            Symbol::Beta => SymbolValue::Beta,
            Symbol::Gamma => SymbolValue::Gamma,
            Symbol::Phi => SymbolValue::Phi,
            Symbol::Pi => SymbolValue::Pi,
            Symbol::Text(text) => SymbolValue::Text(text@),
        }
    }
}

impl DeepView for Symbol {
    type V = SymbolValue;

    open spec fn deep_view(&self) -> SymbolValue {
        self.view()
    }
}

/// The symbol that a piece of parameter text denotes: one of the
/// recognized names, or the text itself.
pub open spec fn spec_match_symbol(text: Seq<char>) -> SymbolValue {
    if text == "alpha"@ {
        SymbolValue::Alpha
    } else if text == "beta"@ {
        SymbolValue::Beta
    } else if text == "gamma"@ {
        SymbolValue::Gamma
    } else if text == "phi"@ {
        SymbolValue::Phi
    } else if text == "pi"@ {
        SymbolValue::Pi
    } else {
        SymbolValue::Text(text)
    }
}

/// The markup text of a symbol.
pub open spec fn spec_symbol_latex(symbol: SymbolValue) -> Seq<char> {
    match symbol {
        SymbolValue::Alpha => "\\alpha"@,
        SymbolValue::Beta => "\\beta"@,
        SymbolValue::Gamma => "\\gamma"@,
        SymbolValue::Phi => "\\phi"@,
        SymbolValue::Pi => "\\pi"@,
        SymbolValue::Text(text) => "\\text{"@ + text + "}"@,
    }
}

impl Symbol {
    /// Returns the supported symbol variant for the given text,
    /// otherwise stores the unsupported symbol as literal text.
    pub fn match_symbol(text: String) -> (r: Symbol)
        ensures
            r@ == spec_match_symbol(text@),
    {
        if text == String::from_str("alpha") {
            Symbol::Alpha
        } else if text == String::from_str("beta") {
            Symbol::Beta
        } else if text == String::from_str("gamma") {
            Symbol::Gamma
        } else if text == String::from_str("phi") {
            Symbol::Phi
        } else if text == String::from_str("pi") {
            Symbol::Pi
        } else {
            Symbol::Text(text)
        }
    }

    /// Renders the symbol to its markup string.
    pub fn render(&self) -> (r: String)
        ensures
            r@ == spec_symbol_latex(self@),
    {
        match self {
            Symbol::Alpha => String::from_str("\\alpha"),
            Symbol::Beta => String::from_str("\\beta"),
            Symbol::Gamma => String::from_str("\\gamma"),
            Symbol::Phi => String::from_str("\\phi"),
            Symbol::Pi => String::from_str("\\pi"),
            Symbol::Text(text) => {
                let mut s = String::from_str("\\text{");
                s.append(text.as_str());
                s.append("}");
                s
            },
        }
    }
}

/// Types of parameters passed to commands.
pub enum Parameter {
    /// Symbolic parameters.
    Symbol(Symbol),
}

/// The mathematical value of a parameter.
pub enum ParameterValue {
    Symbol(SymbolValue),
}

impl View for Parameter {
    type V = ParameterValue;

    open spec fn view(&self) -> ParameterValue {
        match self {
            Parameter::Symbol(symbol) => ParameterValue::Symbol(symbol@),
        }
    }
}

impl DeepView for Parameter {
    type V = ParameterValue;

    open spec fn deep_view(&self) -> ParameterValue {
        self.view()
    }
}

/// The markup text of a parameter.
pub open spec fn spec_parameter_latex(parameter: ParameterValue) -> Seq<char> {
    match parameter {
        ParameterValue::Symbol(symbol) => spec_symbol_latex(symbol),
    }
}

impl Parameter {
    /// Renders the parameter to its markup string.
    pub fn render(&self) -> (r: String)
        ensures
            r@ == spec_parameter_latex(self@),
    {
        match self {
            Parameter::Symbol(symbol) => symbol.render(),
        }
    }
}

/// The ket label of a qubit row, rendered from the qubit's index.
pub open spec fn spec_label(name: u64) -> Seq<char> {
    lstick_latex(dec_of(name as nat))
}

/// Returns a label with the qubit name for the left side of the wire.
pub fn label_qubit_line(name: u64) -> (r: String)
    ensures
        r@ == spec_label(name),
{
    Command::get_command(Command::Lstick(crate::text::u64_to_dec(name)))
}

} // verus!
