use quil_latex::commands::{Command, Symbol};
use quil_latex::instruction::GateModifier::{Controlled, Dagger};
use quil_latex::instruction::{Expression, Gate, GateModifier, Instruction, Program, Qubit};
use quil_latex::latex::Latex;
use quil_latex::settings::RenderSettings;
use quil_latex::tikz::{DiagramSettings, TikzOperator, ToLatex};

const HEADER: &str = "\\documentclass[convert={density=300,outext=.png}]{standalone}\n\\usepackage[margin=1in]{geometry}\n\\usepackage{tikz}\n\\usetikzlibrary{quantikz}\n\\begin{document}\n\\begin{tikzcd}";
const FOOTER: &str = "\\end{tikzcd}\n\\end{document}";

fn gate(name: &str, modifiers: Vec<GateModifier>, parameters: Vec<Expression>, qubits: Vec<u64>) -> Instruction {
    Instruction::Gate(Gate {
        name: name.to_string(),
        parameters,
        qubits: qubits.into_iter().map(Qubit::Fixed).collect(),
        modifiers,
    })
}

fn get_latex(instructions: Vec<Instruction>, settings: RenderSettings) -> String {
    Latex::to_latex(Program { instructions }, settings)
        .expect("Program conversion to LaTeX should succeed")
}

fn doc(rows: &str) -> String {
    format!("{HEADER}\n{rows}{FOOTER}")
}

// --- the document shell of the earlier layout vocabulary ---

#[test]
fn latex_test_to_latex() {
    let program = Program { instructions: vec![] };
    ToLatex::to_latex(program, DiagramSettings::default()).expect("");
}

#[test]
fn test_latex_header() {
    let latex = quil_latex::tikz::LaTeX::new();
    let header = latex.header;
    println!("{header}");
}

#[test]
fn test_latex_footer() {
    // "\\end{tikzcd}\n\\end{document}"
}

#[test]
fn latex_test_gate_x() {
    let program = Program { instructions: vec![gate("X", vec![], vec![], vec![0])] };
    let out = ToLatex::to_latex(program, DiagramSettings::default()).expect("");
    assert_eq!(out, "");
}

#[test]
fn latex_test_gate_y() {
    let program = Program { instructions: vec![gate("Y", vec![], vec![], vec![1])] };
    let out = ToLatex::to_latex(program, DiagramSettings::default()).expect("");
    assert_eq!(out, "");
}

#[test]
fn test_gate_controlled() {
    let program = Program {
        instructions: vec![gate("H", vec![GateModifier::Controlled], vec![], vec![3, 2])],
    };
    let out = ToLatex::to_latex(program, DiagramSettings::default()).expect("");
    assert_eq!(out, "");
}

// --- TikZ operators of the earlier layout vocabulary ---

#[test]
fn test_tikz_left_ket() {
    assert_eq!(
        TikzOperator::get_tikz_operator(TikzOperator::TikzLeftKet(0)),
        "\\lstick{\\ket{q_{0}}}"
    );
}

#[test]
fn test_tikz_control() {
    assert_eq!(TikzOperator::get_tikz_operator(TikzOperator::TikzControl(2)), "\\ctrl{2}");
}

#[test]
fn test_tikz_cnot_target() {
    assert_eq!(TikzOperator::get_tikz_operator(TikzOperator::TikzCnotTarget), "\\targ{}");
}

#[test]
fn test_tikz_cphase_target() {
    assert_eq!(TikzOperator::get_tikz_operator(TikzOperator::TikzCphaseTarget), "\\control{}");
}

#[test]
fn test_tikz_swap() {
    assert_eq!(TikzOperator::get_tikz_operator(TikzOperator::TikzSwap(4)), "\\swap{4}");
}

#[test]
fn test_tikz_swap_target() {
    assert_eq!(TikzOperator::get_tikz_operator(TikzOperator::TikzSwapTarget), "\\targX{}");
}

#[test]
fn test_tikz_nop() {
    assert_eq!(TikzOperator::get_tikz_operator(TikzOperator::TikzNop), "\\qw");
}

#[test]
fn test_tikz_measure() {
    assert_eq!(TikzOperator::get_tikz_operator(TikzOperator::TikzMeasure), "\\meter{}");
}

// --- the full conversion ---

#[test]
fn mod_test_to_latex() {
    get_latex(vec![gate("RX", vec![], vec![], vec![0])], RenderSettings::default());
}

#[test]
fn test_template() {
    assert_eq!(get_latex(vec![], RenderSettings::default()), doc(""));
}

#[test]
fn test_header() {
    let document = quil_latex::document::Document::default();
    assert_eq!(document.header, HEADER);
}

#[test]
fn test_body_default() {
    let document = quil_latex::document::Document::default();
    assert_eq!(document.body, "");
}

#[test]
fn test_footer() {
    let document = quil_latex::document::Document::default();
    assert_eq!(document.footer, FOOTER);
}

#[test]
fn mod_test_gate_x() {
    assert_eq!(
        get_latex(vec![gate("X", vec![], vec![], vec![0])], RenderSettings::default()),
        doc("\\lstick{\\ket{q_{0}}} & \\gate{X} & \\qw\n")
    );
}

#[test]
fn mod_test_gate_y() {
    assert_eq!(
        get_latex(vec![gate("Y", vec![], vec![], vec![1])], RenderSettings::default()),
        doc("\\lstick{\\ket{q_{1}}} & \\gate{Y} & \\qw\n")
    );
}

#[test]
fn test_gates_x_and_y_single_qubit() {
    assert_eq!(
        get_latex(
            vec![gate("X", vec![], vec![], vec![0]), gate("Y", vec![], vec![], vec![0])],
            RenderSettings::default()
        ),
        doc("\\lstick{\\ket{q_{0}}} & \\gate{X} & \\gate{Y} & \\qw\n")
    );
}

#[test]
fn test_gates_x_and_y_two_qubits() {
    assert_eq!(
        get_latex(
            vec![gate("X", vec![], vec![], vec![0]), gate("Y", vec![], vec![], vec![1])],
            RenderSettings::default()
        ),
        doc(&[
            "\\lstick{\\ket{q_{0}}} & \\gate{X} & \\qw & \\qw \\\\\n",
            "\\lstick{\\ket{q_{1}}} & \\qw & \\gate{Y} & \\qw\n"
        ].concat())
    );
}

#[test]
fn test_gates_phase_pi_rotation() {
    assert_eq!(
        get_latex(
            vec![gate("PHASE", vec![], vec![Expression::Generic("pi".to_string())], vec![0])],
            RenderSettings::default()
        ),
        doc("\\lstick{\\ket{q_{0}}} & \\phase{\\pi} & \\qw\n")
    );
}

#[test]
fn test_gates_cnot_ctrl_0_targ_1() {
    assert_eq!(
        get_latex(vec![gate("CNOT", vec![], vec![], vec![0, 1])], RenderSettings::default()),
        doc(&[
            "\\lstick{\\ket{q_{0}}} & \\ctrl{1} & \\qw \\\\\n",
            "\\lstick{\\ket{q_{1}}} & \\targ{} & \\qw\n"
        ].concat())
    );
}

#[test]
fn test_gates_cnot_ctrl_1_targ_0() {
    assert_eq!(
        get_latex(vec![gate("CNOT", vec![], vec![], vec![1, 0])], RenderSettings::default()),
        doc(&[
            "\\lstick{\\ket{q_{0}}} & \\targ{} & \\qw \\\\\n",
            "\\lstick{\\ket{q_{1}}} & \\ctrl{-1} & \\qw\n"
        ].concat())
    );
}

#[test]
#[should_panic]
fn test_gates_cnot_error_single_qubit() {
    get_latex(vec![gate("CNOT", vec![], vec![], vec![0, 0])], RenderSettings::default());
}

#[test]
fn test_gates_h_and_cnot_ctrl_0_targ_1() {
    assert_eq!(
        get_latex(
            vec![gate("H", vec![], vec![], vec![0]), gate("CNOT", vec![], vec![], vec![0, 1])],
            RenderSettings::default()
        ),
        doc(&[
            "\\lstick{\\ket{q_{0}}} & \\gate{H} & \\ctrl{1} & \\qw \\\\\n",
            "\\lstick{\\ket{q_{1}}} & \\qw & \\targ{} & \\qw\n"
        ].concat())
    );
}

#[test]
fn test_gates_h_and_cnot_ctrl_1_targ_0() {
    assert_eq!(
        get_latex(
            vec![gate("H", vec![], vec![], vec![1]), gate("CNOT", vec![], vec![], vec![1, 0])],
            RenderSettings::default()
        ),
        doc(&[
            "\\lstick{\\ket{q_{0}}} & \\qw & \\targ{} & \\qw \\\\\n",
            "\\lstick{\\ket{q_{1}}} & \\gate{H} & \\ctrl{-1} & \\qw\n"
        ].concat())
    );
}

#[test]
fn test_gate_toffoli() {
    assert_eq!(
        get_latex(vec![gate("CCNOT", vec![], vec![], vec![1, 2, 0])], RenderSettings::default()),
        doc(&[
            "\\lstick{\\ket{q_{0}}} & \\targ{} & \\qw \\\\\n",
            "\\lstick{\\ket{q_{1}}} & \\ctrl{-1} & \\qw \\\\\n",
            "\\lstick{\\ket{q_{2}}} & \\ctrl{-2} & \\qw\n"
        ].concat())
    );
}

#[test]
fn test_gate_ccnot_and_controlled_cnot_equality() {
    let ccnot = get_latex(vec![gate("CCNOT", vec![], vec![], vec![1, 2, 0])], RenderSettings::default());
    let controlled = get_latex(
        vec![gate("CNOT", vec![GateModifier::Controlled], vec![], vec![1, 2, 0])],
        RenderSettings::default(),
    );
    assert_eq!(ccnot, controlled);
}

#[test]
fn test_gate_cphase() {
    assert_eq!(
        get_latex(
            vec![gate("CPHASE", vec![], vec![Expression::Generic("pi".to_string())], vec![0, 1])],
            RenderSettings::default()
        ),
        doc(&[
            "\\lstick{\\ket{q_{0}}} & \\ctrl{1} & \\qw \\\\\n",
            "\\lstick{\\ket{q_{1}}} & \\phase{\\pi} & \\qw\n"
        ].concat())
    );
}

#[test]
fn test_gate_cz() {
    assert_eq!(
        get_latex(vec![gate("CZ", vec![], vec![], vec![0, 1])], RenderSettings::default()),
        doc(&[
            "\\lstick{\\ket{q_{0}}} & \\ctrl{1} & \\qw \\\\\n",
            "\\lstick{\\ket{q_{1}}} & \\gate{Z} & \\qw\n"
        ].concat())
    );
}

// --- modifiers ---

#[test]
fn test_modifier_toffoli_gate() {
    assert_eq!(
        get_latex(
            vec![gate("CNOT", vec![GateModifier::Controlled], vec![], vec![2, 1, 0])],
            RenderSettings::default()
        ),
        doc(&[
            "\\lstick{\\ket{q_{0}}} & \\targ{} & \\qw \\\\\n",
            "\\lstick{\\ket{q_{1}}} & \\ctrl{-1} & \\qw \\\\\n",
            "\\lstick{\\ket{q_{2}}} & \\ctrl{-2} & \\qw\n"
        ].concat())
    );
}

#[test]
fn test_modifier_controlled_cnot_and_ccnot_equality() {
    let controlled = get_latex(
        vec![gate("CNOT", vec![GateModifier::Controlled], vec![], vec![2, 1, 0])],
        RenderSettings::default(),
    );
    let ccnot = get_latex(vec![gate("CCNOT", vec![], vec![], vec![2, 1, 0])], RenderSettings::default());
    assert_eq!(controlled, ccnot);
}

#[test]
fn test_modifier_dagger() {
    assert_eq!(
        get_latex(
            vec![gate("X", vec![GateModifier::Dagger], vec![], vec![0])],
            RenderSettings::default()
        ),
        doc("\\lstick{\\ket{q_{0}}} & \\gate{X^{\\dagger}} & \\qw\n")
    );
}

#[test]
fn test_modifier_dagger_dagger() {
    assert_eq!(
        get_latex(
            vec![gate("Y", vec![GateModifier::Dagger, GateModifier::Dagger], vec![], vec![0])],
            RenderSettings::default()
        ),
        doc("\\lstick{\\ket{q_{0}}} & \\gate{Y^{\\dagger}^{\\dagger}} & \\qw\n")
    );
}

#[test]
fn test_modifier_dagger_cz() {
    assert_eq!(
        get_latex(
            vec![gate("CZ", vec![GateModifier::Dagger], vec![], vec![0, 1])],
            RenderSettings::default()
        ),
        doc(&[
            "\\lstick{\\ket{q_{0}}} & \\ctrl{1} & \\qw \\\\\n",
            "\\lstick{\\ket{q_{1}}} & \\gate{Z^{\\dagger}} & \\qw\n"
        ].concat())
    );
}

// --- commands ---

#[test]
fn test_command_left_ket() {
    assert_eq!(Command::get_command(Command::Lstick("0".to_string())), "\\lstick{\\ket{q_{0}}}");
}

#[test]
fn test_command_gate() {
    assert_eq!(Command::get_command(Command::Gate("X".to_string())), "\\gate{X}");
}

#[test]
fn test_command_phase() {
    assert_eq!(Command::get_command(Command::Phase(Symbol::Pi.render())), "\\phase{\\pi}");
}

#[test]
fn test_command_super() {
    assert_eq!(Command::get_command(Command::Super("dagger".to_string())), "^{\\dagger}");
}

#[test]
fn test_command_qw() {
    assert_eq!(Command::get_command(Command::Qw), "\\qw");
}

#[test]
fn test_command_nr() {
    assert_eq!(Command::get_command(Command::Nr), "\\\\");
}

#[test]
fn test_command_control() {
    assert_eq!(Command::get_command(Command::Ctrl("0".to_string())), "\\ctrl{0}");
}

#[test]
fn test_command_cnot_target() {
    assert_eq!(Command::get_command(Command::Targ), "\\targ{}");
}

// --- settings ---

#[test]
fn test_settings_texify_numerical_constants_true_supported_symbol() {
    let settings = RenderSettings { ..Default::default() };
    assert_eq!(
        get_latex(
            vec![gate("CPHASE", vec![], vec![Expression::Address("alpha".to_string())], vec![0, 1])],
            settings
        ),
        doc(&[
            "\\lstick{\\ket{q_{0}}} & \\ctrl{1} & \\qw \\\\\n",
            "\\lstick{\\ket{q_{1}}} & \\phase{\\alpha} & \\qw\n"
        ].concat())
    );
}

#[test]
fn test_settings_texify_numerical_constants_false_supported_symbol() {
    let settings = RenderSettings { texify_numerical_constants: false, ..Default::default() };
    assert_eq!(
        get_latex(
            vec![gate("CPHASE", vec![], vec![Expression::Address("alpha".to_string())], vec![0, 1])],
            settings
        ),
        doc(&[
            "\\lstick{\\ket{q_{0}}} & \\ctrl{1} & \\qw \\\\\n",
            "\\lstick{\\ket{q_{1}}} & \\phase{\\text{alpha}} & \\qw\n"
        ].concat())
    );
}

#[test]
fn test_settings_texify_numerical_constants_unsupported_symbol() {
    let settings_true = RenderSettings { ..Default::default() };
    let unsupported_true = get_latex(
        vec![gate("CPHASE", vec![], vec![Expression::Address("chi".to_string())], vec![0, 1])],
        settings_true,
    );
    let settings_false = RenderSettings { texify_numerical_constants: false, ..Default::default() };
    let unsupported_false = get_latex(
        vec![gate("CPHASE", vec![], vec![Expression::Address("chi".to_string())], vec![0, 1])],
        settings_false,
    );
    // unsupported symbols are treated as text regardless of setting
    assert_eq!(unsupported_true, unsupported_false);
}

#[test]
fn test_settings_label_qubit_lines_false() {
    let settings = RenderSettings { label_qubit_lines: false, ..Default::default() };
    assert_eq!(
        get_latex(
            vec![gate("H", vec![], vec![], vec![0]), gate("CNOT", vec![], vec![], vec![0, 1])],
            settings
        ),
        doc(&[
            "\\qw & \\gate{H} & \\ctrl{1} & \\qw \\\\\n",
            "\\qw & \\qw & \\targ{} & \\qw\n"
        ].concat())
    );
}

#[test]
fn test_settings_impute_missing_qubits_true_ctrl_less_than_targ() {
    let settings = RenderSettings { impute_missing_qubits: true, ..Default::default() };
    assert_eq!(
        get_latex(
            vec![gate("H", vec![], vec![], vec![0]), gate("CNOT", vec![], vec![], vec![0, 3])],
            settings
        ),
        doc(&[
            "\\lstick{\\ket{q_{0}}} & \\gate{H} & \\ctrl{3} & \\qw \\\\\n",
            "\\lstick{\\ket{q_{1}}} & \\qw & \\qw & \\qw \\\\\n",
            "\\lstick{\\ket{q_{2}}} & \\qw & \\qw & \\qw \\\\\n",
            "\\lstick{\\ket{q_{3}}} & \\qw & \\targ{} & \\qw\n"
        ].concat())
    );
}

#[test]
fn test_settings_impute_missing_qubits_true_ctrl_greater_than_targ() {
    let settings = RenderSettings { impute_missing_qubits: true, ..Default::default() };
    assert_eq!(
        get_latex(
            vec![gate("H", vec![], vec![], vec![5]), gate("CNOT", vec![], vec![], vec![5, 2])],
            settings
        ),
        doc(&[
            "\\lstick{\\ket{q_{2}}} & \\qw & \\targ{} & \\qw \\\\\n",
            "\\lstick{\\ket{q_{3}}} & \\qw & \\qw & \\qw \\\\\n",
            "\\lstick{\\ket{q_{4}}} & \\qw & \\qw & \\qw \\\\\n",
            "\\lstick{\\ket{q_{5}}} & \\gate{H} & \\ctrl{-3} & \\qw\n"
        ].concat())
    );
}

// --- programs ---

#[test]
fn test_program_h0_cnot01_x1_cnot12() {
    let settings = RenderSettings { ..Default::default() };
    assert_eq!(
        get_latex(
            vec![
                gate("H", vec![], vec![], vec![0]),
                gate("CNOT", vec![], vec![], vec![0, 1]),
                gate("X", vec![], vec![], vec![1]),
                gate("CNOT", vec![], vec![], vec![1, 2]),
            ],
            settings
        ),
        doc(&[
            "\\lstick{\\ket{q_{0}}} & \\gate{H} & \\ctrl{1} & \\qw & \\qw & \\qw \\\\\n",
            "\\lstick{\\ket{q_{1}}} & \\qw & \\targ{} & \\gate{X} & \\ctrl{1} & \\qw \\\\\n",
            "\\lstick{\\ket{q_{2}}} & \\qw & \\qw & \\qw & \\targ{} & \\qw\n"
        ].concat())
    );
}

#[test]
fn test_program_h5_cnot52_y2_cnot23() {
    let settings = RenderSettings { ..Default::default() };
    assert_eq!(
        get_latex(
            vec![
                gate("H", vec![], vec![], vec![5]),
                gate("CNOT", vec![], vec![], vec![5, 2]),
                gate("Y", vec![], vec![], vec![2]),
                gate("CNOT", vec![], vec![], vec![2, 3]),
            ],
            settings
        ),
        doc(&[
            "\\lstick{\\ket{q_{2}}} & \\qw & \\targ{} & \\gate{Y} & \\ctrl{1} & \\qw \\\\\n",
            "\\lstick{\\ket{q_{3}}} & \\qw & \\qw & \\qw & \\targ{} & \\qw \\\\\n",
            "\\lstick{\\ket{q_{5}}} & \\gate{H} & \\ctrl{-2} & \\qw & \\qw & \\qw\n"
        ].concat())
    );
}

#[test]
fn test_program_good_modifiers() {
    let latex = get_latex(
        vec![
            gate("Y", vec![], vec![], vec![0]),
            gate("Y", vec![Controlled], vec![], vec![0, 1]),
            gate("Y", vec![Controlled, Controlled], vec![], vec![0, 1, 2]),
            gate("Y", vec![Controlled, Controlled, Controlled], vec![], vec![0, 1, 2, 3]),
            gate("Y", vec![Dagger], vec![], vec![0]),
            gate("Y", vec![Dagger, Dagger], vec![], vec![0]),
            gate("Y", vec![Dagger, Dagger, Dagger], vec![], vec![0]),
            gate("Y", vec![Controlled, Dagger], vec![], vec![0, 1]),
            gate("Y", vec![Controlled, Dagger, Controlled], vec![], vec![0, 1, 2]),
            gate("Y", vec![Controlled, Dagger, Controlled, Dagger], vec![], vec![0, 1, 2]),
            Instruction::Other(vec![]),
            gate("G", vec![Controlled], vec![], vec![0, 1]),
            gate("G", vec![Dagger], vec![], vec![0]),
        ],
        RenderSettings::default(),
    );
    assert_eq!(
        latex,
        doc(&[
            "\\lstick{\\ket{q_{0}}} & \\gate{Y} & \\ctrl{1} & \\ctrl{2} & \\ctrl{3} & \\gate{Y^{\\dagger}} & \\gate{Y^{\\dagger}^{\\dagger}} & \\gate{Y^{\\dagger}^{\\dagger}^{\\dagger}} & \\ctrl{1} & \\ctrl{2} & \\ctrl{2} & \\ctrl{1} & \\gate{G^{\\dagger}} & \\qw \\\\\n",
            "\\lstick{\\ket{q_{1}}} & \\qw & \\gate{Y} & \\ctrl{1} & \\ctrl{2} & \\qw & \\qw & \\qw & \\gate{Y^{\\dagger}} & \\ctrl{1} & \\ctrl{1} & \\gate{G} & \\qw & \\qw \\\\\n",
            "\\lstick{\\ket{q_{2}}} & \\qw & \\qw & \\gate{Y} & \\ctrl{1} & \\qw & \\qw & \\qw & \\qw & \\gate{Y^{\\dagger}} & \\gate{Y^{\\dagger}^{\\dagger}} & \\qw & \\qw & \\qw \\\\\n",
            "\\lstick{\\ket{q_{3}}} & \\qw & \\qw & \\qw & \\gate{Y} & \\qw & \\qw & \\qw & \\qw & \\qw & \\qw & \\qw & \\qw & \\qw\n"
        ].concat())
    );
}

#[test]
fn test_program_good_simple_params() {
    assert_eq!(
        get_latex(
            vec![
                gate("CPHASE", vec![], vec![Expression::Number("1".to_string())], vec![0, 1]),
                gate("CPHASE", vec![], vec![Expression::Generic("1-2i".to_string())], vec![1, 0]),
            ],
            RenderSettings::default()
        ),
        doc(&[
            "\\lstick{\\ket{q_{0}}} & \\ctrl{1} & \\phase{\\text{1-2i}} & \\qw \\\\\n",
            "\\lstick{\\ket{q_{1}}} & \\phase{\\text{1}} & \\ctrl{-1} & \\qw\n"
        ].concat())
    );
}

#[test]
fn test_program_good_complex_params() {
    assert_eq!(
        get_latex(
            vec![
                gate("CPHASE", vec![], vec![Expression::Generic("pi/2".to_string())], vec![1, 0]),
                gate(
                    "CPHASE",
                    vec![],
                    vec![Expression::Generic("cos(sin(2*pi/3))*cis(-1)*exp(i*pi)".to_string())],
                    vec![3, 4]
                ),
            ],
            RenderSettings::default()
        ),
        doc(&[
            "\\lstick{\\ket{q_{0}}} & \\phase{\\text{pi/2}} & \\qw & \\qw \\\\\n",
            "\\lstick{\\ket{q_{1}}} & \\ctrl{-1} & \\qw & \\qw \\\\\n",
            "\\lstick{\\ket{q_{3}}} & \\qw & \\ctrl{1} & \\qw \\\\\n",
            "\\lstick{\\ket{q_{4}}} & \\qw & \\phase{\\text{cos(sin(2*pi/3))*cis(-1)*exp(i*pi)}} & \\qw\n"
        ].concat())
    );
}

#[test]
fn test_program_good_basic_defgate() {
    let latex = get_latex(
        vec![
            Instruction::Other(vec![]),
            Instruction::Other(vec![]),
            gate("H0", vec![], vec![], vec![0]),
            gate("H1", vec![], vec![], vec![1]),
        ],
        RenderSettings::default(),
    );
    assert_eq!(
        latex,
        doc(&[
            "\\lstick{\\ket{q_{0}}} & \\gate{H0} & \\qw & \\qw \\\\\n",
            "\\lstick{\\ket{q_{1}}} & \\qw & \\gate{H1} & \\qw\n"
        ].concat())
    );
}

#[test]
fn test_program_good_defgate_with_long_name() {
    let name = "______________________________________ugly-python-convention______________________________________";
    let latex = get_latex(
        vec![
            Instruction::Other(vec![]),
            gate(name, vec![], vec![], vec![0]),
            gate(name, vec![], vec![], vec![1]),
        ],
        RenderSettings::default(),
    );
    assert_eq!(
        latex,
        doc(&format!(
            "\\lstick{{\\ket{{q_{{0}}}}}} & \\gate{{{name}}} & \\qw & \\qw \\\\\n\\lstick{{\\ket{{q_{{1}}}}}} & \\qw & \\gate{{{name}}} & \\qw\n"
        ))
    );
}

// --- further checks of the library's own behaviour ---

#[test]
fn duplicate_relationship_returns_error() {
    let program = Program {
        instructions: vec![gate("CNOT", vec![], vec![], vec![0, 0])],
    };
    let err = Latex::to_latex(program, RenderSettings::default()).unwrap_err();
    assert_eq!(
        err.message(),
        "Tried to parse CNOT and found a control qubit without a target."
    );
}

#[test]
fn dagger_twice_differs_from_once() {
    let twice = get_latex(
        vec![gate("Y", vec![GateModifier::Dagger, GateModifier::Dagger], vec![], vec![0])],
        RenderSettings::default(),
    );
    let once = get_latex(
        vec![gate("Y", vec![GateModifier::Dagger], vec![], vec![0])],
        RenderSettings::default(),
    );
    assert_ne!(twice, once);
}

#[test]
fn texify_changes_recognized_symbol() {
    let texified = get_latex(
        vec![gate("CPHASE", vec![], vec![Expression::Generic("pi".to_string())], vec![0, 1])],
        RenderSettings { ..Default::default() },
    );
    let literal = get_latex(
        vec![gate("CPHASE", vec![], vec![Expression::Generic("pi".to_string())], vec![0, 1])],
        RenderSettings { texify_numerical_constants: false, ..Default::default() },
    );
    assert_ne!(texified, literal);
    assert!(texified.contains("\\phase{\\pi}"));
    assert!(literal.contains("\\phase{\\text{pi}}"));
}

#[test]
fn variable_qubits_are_excluded() {
    let program = Program {
        instructions: vec![
            gate("X", vec![], vec![], vec![0]),
            Instruction::Gate(Gate {
                name: "X".to_string(),
                parameters: vec![],
                qubits: vec![Qubit::Variable("a".to_string())],
                modifiers: vec![],
            }),
        ],
    };
    let latex = Latex::to_latex(program, RenderSettings::default()).expect("");
    assert_eq!(latex, doc("\\lstick{\\ket{q_{0}}} & \\gate{X} & \\qw & \\qw\n"));
}

#[test]
fn large_qubit_index_label() {
    assert_eq!(
        get_latex(
            vec![gate("X", vec![], vec![], vec![18446744073709551615])],
            RenderSettings::default()
        ),
        doc("\\lstick{\\ket{q_{18446744073709551615}}} & \\gate{X} & \\qw\n")
    );
}

#[test]
fn try_to_latex_succeeds_within_bound() {
    let program = Program { instructions: vec![gate("X", vec![], vec![], vec![0])] };
    let out = program
        .try_to_latex(RenderSettings::default())
        .expect("row count fits")
        .expect("conversion succeeds");
    assert_eq!(out, doc("\\lstick{\\ket{q_{0}}} & \\gate{X} & \\qw\n"));
}

#[test]
fn try_to_latex_rejects_oversized_spread() {
    let settings = RenderSettings { impute_missing_qubits: true, ..Default::default() };
    let program = Program {
        instructions: vec![gate("CNOT", vec![], vec![], vec![0, 18446744073709551615])],
    };
    assert!(program.try_to_latex(settings).is_none());
}

#[test]
fn other_instructions_contribute_rows() {
    // A non-gate instruction referencing a qubit creates that row,
    // which then carries only filler cells.
    let program = Program {
        instructions: vec![
            Instruction::Other(vec![Qubit::Fixed(1)]),
            gate("X", vec![], vec![], vec![0]),
        ],
    };
    let latex = Latex::to_latex(program, RenderSettings::default()).expect("");
    assert_eq!(
        latex,
        doc(&[
            "\\lstick{\\ket{q_{0}}} & \\gate{X} & \\qw \\\\\n",
            "\\lstick{\\ket{q_{1}}} & \\qw & \\qw\n"
        ].concat())
    );
}
