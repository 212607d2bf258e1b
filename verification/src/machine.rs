//! A mathematical model of the programs the translator emits: the variables
//! a generated program declares, how its statements change them, and what a
//! display statement prints. The laws about generated initial values,
//! zero-padded rendering and loop guards are stated and proved against this
//! model.

use vstd::prelude::*;
use crate::parser::{Condition, DataType, DataV, IdentifierType, IdentV, InfixV, InstrV, ValueV};
use crate::text::{int_text, is_digit_char, nat_text, pow10, repeat_char};

verus! {

/// The runtime value of one generated variable: a fixed-width number or a
/// fixed-width text, each carrying its declared width.
pub enum CellV {
    Num { width: nat, val: int },
    Text { width: nat, val: Seq<char> },
}

/// The variables of a running generated program, by name.
pub type StateV = Map<Seq<char>, CellV>;

/// What one run step yields: a finished state with its printed lines, a
/// runtime or translation-shape fault, or an exhausted step budget.
pub enum RunResult {
    Done { state: StateV, output: Seq<Seq<char>> },
    Fail,
    Unfinished,
}

// ---------------------------------------------------------------------------
// initial state
// ---------------------------------------------------------------------------

/// The initial cell of a declared variable: a numeric variable starts at
/// zero, an alphanumeric one as its width in fill characters.
pub open spec fn initial_cell(t: DataType) -> Option<CellV> {
    match t {
        DataType::Picture(IdentifierType::Numeric(w)) => Some(
            CellV::Num { width: w as nat, val: 0 },
        ),
        DataType::Picture(IdentifierType::Alphanumeric(w)) => Some(
            CellV::Text { width: w as nat, val: repeat_char('0', w as nat) },
        ),
        _ => None,
    }
}

/// The state a generated program starts in: one cell per declared variable,
/// a later declaration of the same name shadowing an earlier one.
pub open spec fn init_state(data: Seq<DataV>) -> StateV
    decreases data.len(),
{
    if data.len() == 0 {
        Map::empty()
    } else {
        let rest = init_state(data.drop_last());
        match initial_cell(data.last().data_type) {
            Some(c) => rest.insert(data.last().name, c),
            None => rest,
        }
    }
}

// ---------------------------------------------------------------------------
// rendering and evaluation
// ---------------------------------------------------------------------------

/// A value rendered as text and left-padded with zeros to `width` characters
/// (a longer rendering is kept whole).
pub open spec fn padded_text(val: int, width: nat) -> Seq<char> {
    let digits = int_text(val);
    if digits.len() >= width {
        digits
    } else {
        repeat_char('0', (width - digits.len()) as nat) + digits
    }
}

/// The numeric value of an operand: a literal itself, a numeric variable's
/// current value; text variables and string literals have none.
pub open spec fn eval_num(st: StateV, v: ValueV) -> Option<int> {
    match v {
        ValueV::Number(i) => Some(i),
        ValueV::Identifier(id) => if st.contains_key(id.name) {
            match st[id.name] {
                CellV::Num { width, val } => Some(val),
                CellV::Text { width, val } => None,
            }
        } else {
            None
        },
        ValueV::StringLiteral(_) => None,
    }
}

/// The declared width of an identifier operand's cell, if it is numeric.
pub open spec fn num_width(st: StateV, v: ValueV) -> Option<nat> {
    match v {
        ValueV::Identifier(id) => if st.contains_key(id.name) {
            match st[id.name] {
                CellV::Num { width, val } => Some(width),
                CellV::Text { width, val } => None,
            }
        } else {
            None
        },
        _ => None,
    }
}

/// What a display statement prints for one operand: a literal in decimal, a
/// string literal bare, a numeric variable zero-padded to its width, a text
/// variable as it stands.
pub open spec fn display_value(st: StateV, v: ValueV) -> Option<Seq<char>> {
    match v {
        ValueV::Number(i) => Some(int_text(i)),
        ValueV::StringLiteral(s) => Some(s),
        ValueV::Identifier(id) => if st.contains_key(id.name) {
            match st[id.name] {
                CellV::Num { width, val } => Some(padded_text(val, width)),
                CellV::Text { width, val } => Some(val),
            }
        } else {
            None
        },
    }
}

/// The one printed line of a display statement: each operand's text,
/// concatenated with no separator, in order.
pub open spec fn display_values(st: StateV, vs: Seq<ValueV>) -> Option<Seq<char>>
    decreases vs.len(),
{
    if vs.len() == 0 {
        Some(Seq::empty())
    } else {
        match display_value(st, vs[0]) {
            None => None,
            Some(t) => match display_values(st, vs.subrange(1, vs.len() as int)) {
                None => None,
                Some(rest) => Some(t + rest),
            },
        }
    }
}

/// Whether a `perform until` guard holds: both operands must be numeric.
pub open spec fn eval_guard(st: StateV, l: ValueV, c: Condition, r: ValueV) -> Option<bool> {
    match (eval_num(st, l), eval_num(st, r)) {
        (Some(a), Some(b)) => Some(
            match c {
                Condition::GreaterThan => a > b,
                Condition::LessThan => a < b,
                Condition::EqualTo => a == b,
            },
        ),
        _ => None,
    }
}

// ---------------------------------------------------------------------------
// statement effects
// ---------------------------------------------------------------------------

/// Whether a value fits a numeric cell of the given width: its magnitude has
/// at most that many digits.
pub open spec fn fits(val: int, width: nat) -> bool {
    if val >= 0 {
        val < pow10(width)
    } else {
        -val < pow10(width)
    }
}

/// The effect of a move. Into a numeric destination the source's numeric
/// value is stored, if it has one and fits the width. Into a text
/// destination only a numeric variable can move: what is stored is its value
/// zero-padded to the source's own width.
pub open spec fn exec_move(st: StateV, infix: InfixV) -> Option<StateV> {
    let dest = infix.right.name;
    if !st.contains_key(dest) {
        None
    } else {
        match st[dest] {
            CellV::Num { width, val } => match eval_num(st, infix.left) {
                None => None,
                Some(v) => if fits(v, width) {
                    Some(st.insert(dest, CellV::Num { width, val: v }))
                } else {
                    None
                },
            },
            CellV::Text { width, val } => match (eval_num(st, infix.left), num_width(
                st,
                infix.left,
            )) {
                (Some(v), Some(sw)) => Some(
                    st.insert(dest, CellV::Text { width, val: padded_text(v, sw) }),
                ),
                _ => None,
            },
        }
    }
}

/// The effect of an add or multiply: the combined value replaces the
/// destination's, which must be numeric and wide enough for the result. A
/// variable source must share the destination's width for an add (the
/// generated compound assignment accepts no other), while a multiply
/// converts the source to the destination's width first.
pub open spec fn exec_arith(st: StateV, infix: InfixV, is_mul: bool) -> Option<StateV> {
    let dest = infix.right.name;
    if !st.contains_key(dest) {
        None
    } else {
        match st[dest] {
            CellV::Num { width, val } => match eval_num(st, infix.left) {
                None => None,
                Some(v) => {
                    let same_width_ok = is_mul || (match num_width(st, infix.left) {
                        Some(sw) => sw == width,
                        None => true,
                    });
                    let combined = if is_mul {
                        val * v
                    } else {
                        val + v
                    };
                    if same_width_ok && fits(combined, width) {
                        Some(st.insert(dest, CellV::Num { width, val: combined }))
                    } else {
                        None
                    }
                },
            },
            CellV::Text { width, val } => None,
        }
    }
}

// ---------------------------------------------------------------------------
// running a program
// ---------------------------------------------------------------------------

/// Prepends a finished step's output to what follows it.
pub open spec fn and_then(out1: Seq<Seq<char>>, r: RunResult) -> RunResult {
    match r {
        RunResult::Done { state, output } => RunResult::Done { state, output: out1 + output },
        _ => r,
    }
}

/// Runs an instruction sequence from a state, with a step budget for loops:
/// a repeat evaluates its guard at the top of each pass, breaks before the
/// body when it holds, and otherwise runs the body and comes back around.
pub open spec fn run_block(st: StateV, insts: Seq<InstrV>, fuel: nat) -> RunResult
    decreases fuel, insts,
{
    if insts.len() == 0 {
        RunResult::Done { state: st, output: Seq::empty() }
    } else {
        let rest = insts.subrange(1, insts.len() as int);
        match insts[0] {
            InstrV::Move(x) => match exec_move(st, x) {
                None => RunResult::Fail,
                Some(st1) => run_block(st1, rest, fuel),
            },
            InstrV::Add(x) => match exec_arith(st, x, false) {
                None => RunResult::Fail,
                Some(st1) => run_block(st1, rest, fuel),
            },
            InstrV::Multiply(x) => match exec_arith(st, x, true) {
                None => RunResult::Fail,
                Some(st1) => run_block(st1, rest, fuel),
            },
            InstrV::Print(vs) => match display_values(st, vs) {
                None => RunResult::Fail,
                Some(line) => and_then(seq![line], run_block(st, rest, fuel)),
            },
            InstrV::Repeat { left, condition, right, insts: body } => match eval_guard(
                st,
                left,
                condition,
                right,
            ) {
                None => RunResult::Fail,
                Some(true) => run_block(st, rest, fuel),
                Some(false) => match run_block(st, body, fuel) {
                    RunResult::Fail => RunResult::Fail,
                    RunResult::Unfinished => RunResult::Unfinished,
                    RunResult::Done { state: st1, output: out1 } => if fuel == 0 {
                        RunResult::Unfinished
                    } else {
                        and_then(out1, run_block(st1, insts, (fuel - 1) as nat))
                    },
                },
            },
        }
    }
}

// ---------------------------------------------------------------------------
// laws
// ---------------------------------------------------------------------------

/// The initial value of a zero-started numeric variable of width `w`
/// renders as exactly `w` characters, every one of them the digit zero:
/// zero left-zero-padded to the declared width.
pub proof fn lemma_numeric_initial_text(w: nat)
    requires
        w >= 1,
    ensures
        padded_text(0, w) == repeat_char('0', w),
        padded_text(0, w).len() == w,
        forall|i: int| 0 <= i < w ==> is_digit_char(#[trigger] padded_text(0, w)[i]),
{
    assert(int_text(0) == seq![crate::text::digit_char(0)]);
    assert(padded_text(0, w) =~= repeat_char('0', w));
}

/// The initial value of an alphanumeric variable of width `w` is exactly
/// `w` fill characters `'0'`.
pub proof fn lemma_alphanumeric_initial_text(w: nat)
    ensures
        repeat_char('0', w).len() == w,
        forall|i: int| 0 <= i < w ==> #[trigger] repeat_char('0', w)[i] == '0',
{
}

/// In the initial state every declared numeric or alphanumeric variable,
/// unless a later declaration shadows it, holds its initial cell.
pub proof fn lemma_init_state_entry(data: Seq<DataV>, i: int)
    requires
        0 <= i < data.len(),
        forall|j: int| i < j < data.len() ==> data[j].name != data[i].name,
        initial_cell(data[i].data_type) is Some,
    ensures
        init_state(data).contains_key(data[i].name),
        init_state(data)[data[i].name] == initial_cell(data[i].data_type)->0,
    decreases data.len(),
{
    if i == data.len() - 1 {
        assert(data.last() == data[i]);
    } else {
        lemma_init_state_entry(data.drop_last(), i);
        assert(data.drop_last()[i] == data[i]);
        assert(data.last().name != data[i].name);
    }
}

/// A `perform until` loop whose guard already holds before the first pass
/// runs its body zero times: the run continues exactly as if the loop were
/// not there, with the state untouched and nothing printed by it.
pub proof fn lemma_satisfied_guard_skips_body(
    st: StateV,
    l: ValueV,
    c: Condition,
    r: ValueV,
    body: Seq<InstrV>,
    rest: Seq<InstrV>,
    fuel: nat,
)
    requires
        eval_guard(st, l, c, r) == Some(true),
    ensures
        run_block(
            st,
            seq![InstrV::Repeat { left: l, condition: c, right: r, insts: body }] + rest,
            fuel,
        ) == run_block(st, rest, fuel),
{
    let insts = seq![InstrV::Repeat { left: l, condition: c, right: r, insts: body }] + rest;
    assert(insts[0] == (InstrV::Repeat { left: l, condition: c, right: r, insts: body }));
    assert(insts.subrange(1, insts.len() as int) =~= rest);
}

/// Moving an integer literal `v` with `0 <= v < 10^n` into a numeric
/// destination of width `n` and then displaying that destination prints one
/// line: `v` left-zero-padded to exactly `n` characters.
pub proof fn lemma_move_display_padded(st: StateV, name: Seq<char>, w: u32, v: int, fuel: nat)
    requires
        st.contains_key(name),
        st[name] matches CellV::Num { width, val } && width == w as nat,
        0 <= v < pow10(w as nat),
        w >= 1,
    ensures
        ({
            let dest = IdentV { name, kind: IdentifierType::Numeric(w) };
            let insts = seq![
                InstrV::Move(InfixV { left: ValueV::Number(v), right: dest }),
                InstrV::Print(seq![ValueV::Identifier(dest)]),
            ];
            &&& run_block(st, insts, fuel) matches RunResult::Done { state, output }
            &&& run_block(st, insts, fuel)->Done_output == seq![padded_text(v, w as nat)]
            &&& padded_text(v, w as nat).len() == w as nat
        }),
{
    let dest = IdentV { name, kind: IdentifierType::Numeric(w) };
    let insts = seq![
        InstrV::Move(InfixV { left: ValueV::Number(v), right: dest }),
        InstrV::Print(seq![ValueV::Identifier(dest)]),
    ];
    let st1 = st.insert(name, CellV::Num { width: w as nat, val: v });
    assert(insts[0] == InstrV::Move(InfixV { left: ValueV::Number(v), right: dest }));
    assert(exec_move(st, InfixV { left: ValueV::Number(v), right: dest }) == Some(st1));
    let rest = insts.subrange(1, 2);
    assert(rest[0] == InstrV::Print(seq![ValueV::Identifier(dest)]));
    let vs = seq![ValueV::Identifier(dest)];
    assert(display_value(st1, vs[0]) == Some(padded_text(v, w as nat)));
    assert(vs.subrange(1, 1) =~= Seq::<ValueV>::empty());
    assert(display_values(st1, vs.subrange(1, 1)) == Some(Seq::<char>::empty()));
    assert(display_values(st1, vs) == Some(padded_text(v, w as nat) + Seq::<char>::empty()));
    assert(padded_text(v, w as nat) + Seq::<char>::empty() =~= padded_text(v, w as nat));
    assert(rest.subrange(1, 1) =~= Seq::<InstrV>::empty());
    assert(run_block(st1, rest.subrange(1, 1), fuel) == (RunResult::Done {
        state: st1,
        output: Seq::<Seq<char>>::empty(),
    }));
    assert(run_block(st1, rest, fuel) == and_then(
        seq![padded_text(v, w as nat)],
        RunResult::Done { state: st1, output: Seq::<Seq<char>>::empty() },
    ));
    assert(seq![padded_text(v, w as nat)] + Seq::<Seq<char>>::empty() =~= seq![
        padded_text(v, w as nat),
    ]);
    assert(run_block(st1, rest, fuel) == (RunResult::Done {
        state: st1,
        output: seq![padded_text(v, w as nat)],
    }));
    assert(run_block(st, insts, fuel) == run_block(st1, rest, fuel));
    assert(padded_text(v, w as nat).len() == w as nat) by {
        lemma_padded_len(v, w as nat);
    }
}

/// A value below `10^w` padded to width `w` is exactly `w` characters.
pub proof fn lemma_padded_len(v: int, w: nat)
    requires
        0 <= v < pow10(w),
        w >= 1,
    ensures
        padded_text(v, w).len() == w,
{
    crate::text::lemma_nat_text_len(v as nat, w);
    crate::text::lemma_nat_text_digits(v as nat);
    assert(int_text(v) == nat_text(v as nat));
}

} // verus!
