//! The program-representation boundary: plain-value models of the
//! instruction sequence that the diagram layer consumes. Gate
//! instructions carry a base name, qubit references, modifiers and
//! parameter expressions; every other instruction kind is opaque here
//! and contributes only the qubits it references.

use vstd::prelude::*;

verus! {

/// A qubit reference: a fixed hardware index, or a named placeholder.
/// Only fixed qubits receive a row in the diagram.
#[derive(Debug, PartialEq)]
pub enum Qubit {
    Fixed(u64),
    Variable(String),
}

/// The mathematical value of a qubit reference.
pub enum QubitValue {
    Fixed(u64),
    Variable(Seq<char>),
}

impl View for Qubit {
    type V = QubitValue;

    open spec fn view(&self) -> QubitValue {
        match self {
            Qubit::Fixed(q) => QubitValue::Fixed(*q),
            Qubit::Variable(name) => QubitValue::Variable(name@),
        }
    }
}

impl DeepView for Qubit {
    type V = QubitValue;

    open spec fn deep_view(&self) -> QubitValue {
        self.view()
    }
}

/// A gate-name transformation declared on an instruction. Control
/// composition and dagger superscripts are rendered; any other
/// modifier is ignored by the diagram layer.
#[derive(Clone, Copy, PartialEq, Eq, Structural, Debug)]
pub enum GateModifier {
    Controlled,
    Dagger,
    Forked,
}

impl DeepView for GateModifier {
    type V = GateModifier;

    open spec fn deep_view(&self) -> GateModifier {
        *self
    }
}

/// A parameter expression, reduced to what the diagram needs: a
/// referenced name, the textual real part of a numeric literal, or
/// the expression's own textual form.
#[derive(Debug, PartialEq)]
pub enum Expression {
    Address(String),
    Number(String),
    Generic(String),
}

/// The mathematical value of a parameter expression.
pub enum ExpressionValue {
    Address(Seq<char>),
    Number(Seq<char>),
    Generic(Seq<char>),
}

impl View for Expression {
    type V = ExpressionValue;

    open spec fn view(&self) -> ExpressionValue {
        match self {
            Expression::Address(name) => ExpressionValue::Address(name@),
            Expression::Number(text) => ExpressionValue::Number(text@),
            Expression::Generic(text) => ExpressionValue::Generic(text@),
        }
    }
}

impl DeepView for Expression {
    type V = ExpressionValue;

    open spec fn deep_view(&self) -> ExpressionValue {
        self.view()
    }
}

/// The display text a parameter expression reports: a referenced name
/// reports the name, a numeric literal its real part's text, anything
/// else its own textual form.
pub open spec fn expression_text(e: ExpressionValue) -> Seq<char> {
    match e {
        ExpressionValue::Address(name) => name,
        ExpressionValue::Number(text) => text,
        ExpressionValue::Generic(text) => text,
    }
}

/// A gate instruction: base name, parameter expressions, qubit
/// references and modifiers, each in declaration order.
#[derive(Debug, PartialEq)]
pub struct Gate {
    pub name: String,
    pub parameters: Vec<Expression>,
    pub qubits: Vec<Qubit>,
    pub modifiers: Vec<GateModifier>,
}

/// The mathematical value of a gate instruction.
pub struct GateValue {
    pub name: Seq<char>,
    pub parameters: Seq<ExpressionValue>,
    pub qubits: Seq<QubitValue>,
    pub modifiers: Seq<GateModifier>,
}

impl View for Gate {
    type V = GateValue;

    open spec fn view(&self) -> GateValue {
        GateValue {
            name: self.name@,
            parameters: self.parameters.deep_view(),
            qubits: self.qubits.deep_view(),
            modifiers: self.modifiers@,
        }
    }
}

impl DeepView for Gate {
    type V = GateValue;

    open spec fn deep_view(&self) -> GateValue {
        self.view()
    }
}

/// One instruction of a program: a gate, or any other instruction
/// kind, of which the diagram layer sees only the referenced qubits.
#[derive(Debug, PartialEq)]
pub enum Instruction {
    Gate(Gate),
    Other(Vec<Qubit>),
}

/// The mathematical value of an instruction.
pub enum InstructionValue {
    Gate(GateValue),
    Other(Seq<QubitValue>),
}

impl View for Instruction {
    type V = InstructionValue;

    open spec fn view(&self) -> InstructionValue {
        match self {
            Instruction::Gate(gate) => InstructionValue::Gate(gate@),
            Instruction::Other(qubits) => InstructionValue::Other(qubits.deep_view()),
        }
    }
}

impl DeepView for Instruction {
    type V = InstructionValue;

    open spec fn deep_view(&self) -> InstructionValue {
        self.view()
    }
}

/// An ordered sequence of instructions.
#[derive(Debug, PartialEq)]
pub struct Program {
    pub instructions: Vec<Instruction>,
}

impl View for Program {
    type V = Seq<InstructionValue>;

    open spec fn view(&self) -> Seq<InstructionValue> {
        self.instructions.deep_view()
    }
}

/// The qubit references an instruction carries.
pub open spec fn instruction_qubits(inst: InstructionValue) -> Seq<QubitValue> {
    match inst {
        InstructionValue::Gate(gate) => gate.qubits,
        InstructionValue::Other(qubits) => qubits,
    }
}

/// The fixed qubit indices among a sequence of qubit references, in
/// order, duplicates kept.
pub open spec fn fixed_ids(qubits: Seq<QubitValue>) -> Seq<u64>
    decreases qubits.len(),
{
    if qubits.len() == 0 {
        Seq::empty()
    } else {
        match qubits[0] {
            QubitValue::Fixed(q) => seq![q] + fixed_ids(qubits.drop_first()),
            QubitValue::Variable(_) => fixed_ids(qubits.drop_first()),
        }
    }
}

/// Whether a sequence holds the same value at two distinct positions.
pub open spec fn has_duplicate(s: Seq<u64>) -> bool {
    exists|i: int, j: int| 0 <= i < j < s.len() && s[i] == s[j]
}

/// Inserts a value into a strictly sorted sequence, keeping it
/// strictly sorted; an already-present value leaves it unchanged.
pub open spec fn insert_sorted(s: Seq<u64>, q: u64) -> Seq<u64>
    decreases s.len(),
{
    if s.len() == 0 {
        seq![q]
    } else if q < s[0] {
        seq![q] + s
    } else if q == s[0] {
        s
    } else {
        seq![s[0]] + insert_sorted(s.drop_first(), q)
    }
}

/// Adds every fixed qubit of a reference list to a sorted index set.
pub open spec fn add_fixed(s: Seq<u64>, qubits: Seq<QubitValue>) -> Seq<u64>
    decreases qubits.len(),
{
    if qubits.len() == 0 {
        s
    } else {
        let s2 = match qubits[0] {
            QubitValue::Fixed(q) => insert_sorted(s, q),
            QubitValue::Variable(_) => s,
        };
        add_fixed(s2, qubits.drop_first())
    }
}

/// The set of fixed qubits referenced anywhere in the program, as a
/// strictly ascending sequence of indices.
pub open spec fn used_qubits(instructions: Seq<InstructionValue>) -> Seq<u64>
    decreases instructions.len(),
{
    used_qubits_from(Seq::empty(), instructions)
}

/// The used-qubit fold, starting from an already-collected index set.
pub open spec fn used_qubits_from(s: Seq<u64>, instructions: Seq<InstructionValue>) -> Seq<u64>
    decreases instructions.len(),
{
    if instructions.len() == 0 {
        s
    } else {
        used_qubits_from(add_fixed(s, instruction_qubits(instructions[0])), instructions.drop_first())
    }
}

/// Strictly ascending order.
pub open spec fn strictly_sorted(s: Seq<u64>) -> bool {
    forall|i: int, j: int| 0 <= i < j < s.len() ==> s[i] < s[j]
}

proof fn lemma_insert_sorted_has_q(s: Seq<u64>, q: u64)
    ensures
        insert_sorted(s, q).contains(q),
    decreases s.len(),
{
    let r = insert_sorted(s, q);
    if s.len() == 0 || q < s[0] || q == s[0] {
        assert(r[0] == q);
    } else {
        let tail = s.drop_first();
        lemma_insert_sorted_has_q(tail, q);
        let k = choose|k: int| 0 <= k < insert_sorted(tail, q).len() && insert_sorted(tail, q)[k] == q;
        assert(r[k + 1] == q);
    }
}

proof fn lemma_insert_sorted_keeps(s: Seq<u64>, q: u64, x: u64)
    requires
        s.contains(x),
    ensures
        insert_sorted(s, q).contains(x),
    decreases s.len(),
{
    let r = insert_sorted(s, q);
    let i = choose|i: int| 0 <= i < s.len() && s[i] == x;
    if q < s[0] {
        assert(r[i + 1] == x);
    } else if q == s[0] {
    } else {
        if i == 0 {
            assert(r[0] == x);
        } else {
            let tail = s.drop_first();
            assert(tail[i - 1] == x);
            assert(tail.contains(x));
            lemma_insert_sorted_keeps(tail, q, x);
            let k = choose|k: int| 0 <= k < insert_sorted(tail, q).len() && insert_sorted(tail, q)[k] == x;
            assert(r[k + 1] == x);
        }
    }
}

proof fn lemma_insert_sorted(s: Seq<u64>, q: u64)
    requires
        strictly_sorted(s),
    ensures
        strictly_sorted(insert_sorted(s, q)),
        forall|x: u64| insert_sorted(s, q).contains(x) <==> (s.contains(x) || x == q),
    decreases s.len(),
{
    let r = insert_sorted(s, q);
    if s.len() == 0 {
        assert forall|x: u64| r.contains(x) implies (s.contains(x) || x == q) by {
            let i = choose|i: int| 0 <= i < r.len() && r[i] == x;
            assert(r[0] == q);
        }
        assert(r.contains(q)) by {
            assert(r[0] == q);
        }
    } else if q < s[0] {
        assert forall|x: u64| r.contains(x) implies (s.contains(x) || x == q) by {
            let i = choose|i: int| 0 <= i < r.len() && r[i] == x;
            if i > 0 {
                assert(s[i - 1] == x);
            }
        }
        assert(r[0] == q);
        assert forall|x: u64| s.contains(x) || x == q implies r.contains(x) by {
            if s.contains(x) {
                let i = choose|i: int| 0 <= i < s.len() && s[i] == x;
                assert(r[i + 1] == x);
            }
        }
    } else if q == s[0] {
        assert(r.contains(q)) by {
            assert(r[0] == q);
        }
    } else {
        let tail = s.drop_first();
        assert(strictly_sorted(tail)) by {
            assert(forall|i: int, j: int| 0 <= i < j < tail.len() ==> tail[i] == s[i + 1] && tail[j] == s[j + 1]);
        }
        lemma_insert_sorted(tail, q);
        let rt = insert_sorted(tail, q);
        assert(r =~= seq![s[0]] + rt);
        assert forall|i: int, j: int| 0 <= i < j < r.len() implies r[i] < r[j] by {
            if i == 0 {
                assert(r[j] == rt[j - 1]);
                assert(insert_sorted(tail, q).contains(rt[j - 1])) by {
                    assert(0 <= j - 1 < rt.len());
                    assert(insert_sorted(tail, q)[j - 1] == rt[j - 1]);
                }
                if tail.contains(rt[j - 1]) {
                    let k = choose|k: int| 0 <= k < tail.len() && tail[k] == rt[j - 1];
                    assert(s[k + 1] == rt[j - 1]);
                    assert(s[0] < s[k + 1]);
                } else {
                    assert(rt[j - 1] == q);
                }
            } else {
                assert(r[i] == rt[i - 1] && r[j] == rt[j - 1]);
            }
        }
        assert forall|x: u64| r.contains(x) implies (s.contains(x) || x == q) by {
            let i = choose|i: int| 0 <= i < r.len() && r[i] == x;
            if i == 0 {
                assert(s[0] == x);
            } else {
                assert(rt[i - 1] == x);
                assert(insert_sorted(tail, q).contains(x)) by {
                    assert(insert_sorted(tail, q)[i - 1] == x);
                }
                if tail.contains(x) {
                    let k = choose|k: int| 0 <= k < tail.len() && tail[k] == x;
                    assert(s[k + 1] == x);
                }
            }
        }
        assert forall|x: u64| s.contains(x) || x == q implies r.contains(x) by {
            if s.contains(x) {
                lemma_insert_sorted_keeps(s, q, x);
            } else {
                lemma_insert_sorted_has_q(s, q);
            }
        }
    }
}

proof fn lemma_add_fixed(s: Seq<u64>, qubits: Seq<QubitValue>)
    requires
        strictly_sorted(s),
    ensures
        strictly_sorted(add_fixed(s, qubits)),
        forall|x: u64| add_fixed(s, qubits).contains(x) <==> (s.contains(x) || fixed_ids(qubits).contains(x)),
    decreases qubits.len(),
{
    if qubits.len() == 0 {
        assert(fixed_ids(qubits) =~= Seq::<u64>::empty());
    } else {
        let rest = qubits.drop_first();
        match qubits[0] {
            QubitValue::Fixed(q) => {
                lemma_insert_sorted(s, q);
                lemma_add_fixed(insert_sorted(s, q), rest);
                assert forall|x: u64| #[trigger] fixed_ids(qubits).contains(x) implies (x == q || fixed_ids(rest).contains(x)) by {
                    let ids = fixed_ids(qubits);
                    let i = choose|i: int| 0 <= i < ids.len() && ids[i] == x;
                    assert(ids =~= seq![q] + fixed_ids(rest));
                    if i > 0 {
                        assert(fixed_ids(rest)[i - 1] == x);
                    }
                }
                assert forall|x: u64| (x == q || fixed_ids(rest).contains(x)) implies #[trigger] fixed_ids(qubits).contains(x) by {
                    let ids = fixed_ids(qubits);
                    assert(ids =~= seq![q] + fixed_ids(rest));
                    if x == q {
                        assert(ids[0] == q);
                    } else {
                        let i = choose|i: int| 0 <= i < fixed_ids(rest).len() && fixed_ids(rest)[i] == x;
                        assert(ids[i + 1] == x);
                    }
                }
            },
            QubitValue::Variable(_) => {
                lemma_add_fixed(s, rest);
                assert(fixed_ids(qubits) =~= fixed_ids(rest));
            },
        }
    }
}

/// Whether the program references the fixed qubit `q` anywhere.
pub open spec fn program_uses_qubit(instructions: Seq<InstructionValue>, q: u64) -> bool {
    exists|i: int| 0 <= i < instructions.len()
        && #[trigger] fixed_ids(instruction_qubits(instructions[i])).contains(q)
}

proof fn lemma_used_qubits_from(s: Seq<u64>, instructions: Seq<InstructionValue>)
    requires
        strictly_sorted(s),
    ensures
        strictly_sorted(used_qubits_from(s, instructions)),
        forall|x: u64| used_qubits_from(s, instructions).contains(x)
            <==> (s.contains(x) || program_uses_qubit(instructions, x)),
    decreases instructions.len(),
{
    if instructions.len() == 0 {
        assert(forall|x: u64| !program_uses_qubit(instructions, x));
    } else {
        let rest = instructions.drop_first();
        let s2 = add_fixed(s, instruction_qubits(instructions[0]));
        lemma_add_fixed(s, instruction_qubits(instructions[0]));
        lemma_used_qubits_from(s2, rest);
        assert forall|x: u64| used_qubits_from(s, instructions).contains(x)
            implies (s.contains(x) || program_uses_qubit(instructions, x)) by {
            if s2.contains(x) {
                if fixed_ids(instruction_qubits(instructions[0])).contains(x) {
                    assert(program_uses_qubit(instructions, x)) by {
                        assert(fixed_ids(instruction_qubits(instructions[0])).contains(x));
                    }
                }
            } else {
                assert(program_uses_qubit(rest, x));
                let i = choose|i: int| 0 <= i < rest.len()
                    && #[trigger] fixed_ids(instruction_qubits(rest[i])).contains(x);
                assert(instructions[i + 1] == rest[i]);
                assert(fixed_ids(instruction_qubits(instructions[i + 1])).contains(x));
            }
        }
        assert forall|x: u64| (s.contains(x) || program_uses_qubit(instructions, x))
            implies used_qubits_from(s, instructions).contains(x) by {
            if s.contains(x) {
                assert(s2.contains(x));
            } else {
                let i = choose|i: int| 0 <= i < instructions.len()
                    && #[trigger] fixed_ids(instruction_qubits(instructions[i])).contains(x);
                if i == 0 {
                    assert(s2.contains(x));
                } else {
                    assert(rest[i - 1] == instructions[i]);
                    assert(fixed_ids(instruction_qubits(rest[i - 1])).contains(x));
                    assert(program_uses_qubit(rest, x));
                }
            }
        }
    }
}

/// The used-qubit sequence is strictly ascending and holds exactly the
/// fixed qubits the program references.
pub proof fn lemma_used_qubits(instructions: Seq<InstructionValue>)
    ensures
        strictly_sorted(used_qubits(instructions)),
        forall|x: u64| used_qubits(instructions).contains(x) <==> program_uses_qubit(instructions, x),
{
    lemma_used_qubits_from(Seq::empty(), instructions);
}

fn insert_sorted_exec(s: &mut Vec<u64>, q: u64)
    ensures
        final(s)@ == insert_sorted(old(s)@, q),
{
    let ghost orig = s@;
    let mut i: usize = 0;
    while i < s.len() && s[i] < q
        invariant
            i <= s@.len(),
            s@ == orig,
            forall|k: int| 0 <= k < i ==> s@[k] < q,
        decreases s@.len() - i,
    {
        i = i + 1;
    }
    if i < s.len() {
        let here = s[i];
        if here == q {
            proof {
                lemma_insert_prefix(orig, q, i as int);
            }
            return;
        }
    }
    s.insert(i, q);
    proof {
        lemma_insert_prefix(orig, q, i as int);
        assert(s@ =~= insert_sorted(orig, q));
    }
}

/// After scanning past the elements below `q`, inserting `q` at the
/// scan position realizes the sorted-insert function.
proof fn lemma_insert_prefix(s: Seq<u64>, q: u64, i: int)
    requires
        0 <= i <= s.len(),
        forall|k: int| 0 <= k < i ==> s[k] < q,
        i < s.len() ==> s[i] >= q,
    ensures
        i < s.len() && s[i] == q ==> insert_sorted(s, q) == s,
        !(i < s.len() && s[i] == q) ==> insert_sorted(s, q) =~= s.subrange(0, i) + seq![q] + s.subrange(i, s.len() as int),
    decreases s.len(),
{
    if s.len() == 0 {
        assert(insert_sorted(s, q) =~= s.subrange(0, 0) + seq![q] + s.subrange(0, 0));
    } else if q < s[0] {
        assert(i == 0);
        assert(insert_sorted(s, q) =~= s.subrange(0, 0) + seq![q] + s.subrange(0, s.len() as int));
    } else if q == s[0] {
        assert(i == 0);
    } else {
        assert(i >= 1);
        let tail = s.drop_first();
        lemma_insert_prefix(tail, q, i - 1);
        if i - 1 < tail.len() && tail[i - 1] == q {
            assert(s[i] == q);
            assert(insert_sorted(s, q) =~= seq![s[0]] + insert_sorted(tail, q));
            assert(insert_sorted(s, q) =~= s);
        } else {
            assert(insert_sorted(s, q) =~= seq![s[0]] + (tail.subrange(0, i - 1) + seq![q] + tail.subrange(i - 1, tail.len() as int)));
            assert(insert_sorted(s, q) =~= s.subrange(0, i) + seq![q] + s.subrange(i, s.len() as int));
        }
    }
}

impl Program {
    /// Collects the full set of fixed qubits referenced anywhere in
    /// the program, in ascending order without duplicates.
    pub fn get_used_qubits(&self) -> (r: Vec<u64>)
        ensures
            r@ == used_qubits(self@),
            strictly_sorted(r@),
            forall|x: u64| r@.contains(x) <==> program_uses_qubit(self@, x),
    {
        let mut acc: Vec<u64> = Vec::new();
        let n = self.instructions.len();
        proof {
            assert(self@.skip(0) =~= self@);
        }
        let mut i: usize = 0;
        while i < n
            invariant
                n == self.instructions@.len(),
                i <= n,
                used_qubits_from(acc@, self@.skip(i as int)) == used_qubits(self@),
            decreases n - i,
        {
            proof {
                assert(self@.skip(i as int).drop_first() =~= self@.skip(i as int + 1));
                assert(self@.skip(i as int)[0] == self@[i as int]);
                assert(self@[i as int] == self.instructions@[i as int].deep_view());
            }
            match &self.instructions[i] {
                Instruction::Gate(gate) => {
                    add_fixed_exec(&mut acc, &gate.qubits);
                },
                Instruction::Other(qubits) => {
                    add_fixed_exec(&mut acc, qubits);
                },
            }
            i = i + 1;
        }
        proof {
            assert(self@.skip(n as int) =~= Seq::<InstructionValue>::empty());
            lemma_used_qubits(self@);
        }
        acc
    }
}

fn add_fixed_exec(s: &mut Vec<u64>, qubits: &Vec<Qubit>)
    ensures
        final(s)@ == add_fixed(old(s)@, qubits.deep_view()),
{
    let n = qubits.len();
    proof {
        assert(qubits.deep_view().skip(0) =~= qubits.deep_view());
    }
    let mut i: usize = 0;
    while i < n
        invariant
            n == qubits@.len(),
            i <= n,
            add_fixed(s@, qubits.deep_view().skip(i as int)) == add_fixed(old(s)@, qubits.deep_view()),
        decreases n - i,
    {
        proof {
            assert(qubits.deep_view().skip(i as int).drop_first() =~= qubits.deep_view().skip(i as int + 1));
            assert(qubits.deep_view().skip(i as int)[0] == qubits.deep_view()[i as int]);
            assert(qubits.deep_view()[i as int] == qubits@[i as int].deep_view());
        }
        match &qubits[i] {
            Qubit::Fixed(q) => {
                insert_sorted_exec(s, *q);
            },
            Qubit::Variable(_) => {},
        }
        i = i + 1;
    }
    proof {
        assert(qubits.deep_view().skip(n as int) =~= Seq::<QubitValue>::empty());
    }
}

} // verus!
