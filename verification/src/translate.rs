//! The translator: walks the instruction tree, emits target-language
//! statements, and hoists one variable binding per declared variable to the
//! top of the generated program, mutable exactly when the variable is
//! assigned anywhere in the tree.

use vstd::prelude::*;
use crate::TranslateError;
use crate::parser::{
    cond_text, datas_view, instr_view, instrs_view, values_view, Condition, Data, DataType, DataV,
    IdentifierType, Infix, InfixV, InstrV, Instruction, Value, ValueV,
};
use crate::text::{int_text, nat_text, repeat_char};

verus! {

// ---------------------------------------------------------------------------
// operand rendering
// ---------------------------------------------------------------------------

/// The plain text of an operand as it appears in assignments and guards:
/// a literal in decimal, an identifier by name, a string literal bare.
pub open spec fn value_text(v: ValueV) -> Seq<char> {
    match v {
        ValueV::Number(i) => int_text(i),
        ValueV::Identifier(id) => id.name,
        ValueV::StringLiteral(s) => s,
    }
}

/// The text of an operand in a display statement: numeric variables render
/// through their zero-padded textual form, string literals are quoted.
pub open spec fn display_arg_text(v: ValueV) -> Seq<char> {
    match v {
        ValueV::Number(i) => int_text(i),
        ValueV::StringLiteral(s) => seq!['"'] + s + seq!['"'],
        ValueV::Identifier(id) => match id.kind {
            IdentifierType::Numeric(_) => id.name + ".to_zeroed_string()"@,
            _ => id.name,
        },
    }
}

/// The text of an operand in a loop guard: an integer literal is converted
/// to the fixed-precision type so the comparison compiles.
pub open spec fn guard_text(v: ValueV) -> Seq<char> {
    match v {
        ValueV::Number(i) => "Num::from("@ + int_text(i) + ")"@,
        ValueV::Identifier(id) => id.name,
        ValueV::StringLiteral(s) => s,
    }
}

// ---------------------------------------------------------------------------
// statement rendering
// ---------------------------------------------------------------------------

/// A move: an assignment, through the fixed-width textual conversion when
/// the destination is alphanumeric and a plain value conversion otherwise.
pub open spec fn move_text(infix: InfixV) -> Seq<char> {
    if infix.right.kind is Alphanumeric {
        infix.right.name + " = "@ + value_text(infix.left) + ".to_zeroed_string();\n"@
    } else {
        infix.right.name + " = "@ + value_text(infix.left) + ".into();\n"@
    }
}

/// An add: a compound assignment; an identifier source is passed by
/// reference, a literal directly.
pub open spec fn add_text(infix: InfixV) -> Seq<char> {
    infix.right.name + " += "@ + (if infix.left is Identifier {
        seq!['&']
    } else {
        Seq::<char>::empty()
    }) + value_text(infix.left) + ";\n"@
}

/// A multiply: a compound assignment through a width conversion of the source.
pub open spec fn multiply_text(infix: InfixV) -> Seq<char> {
    infix.right.name + " *= "@ + infix.right.name + ".convert(&"@ + value_text(infix.left)
        + ");\n"@
}

/// One `{}` placeholder per printed value.
pub open spec fn braces_text(n: nat) -> Seq<char>
    decreases n,
{
    if n == 0 {
        Seq::empty()
    } else {
        braces_text((n - 1) as nat) + "{}"@
    }
}

/// The formatted argument list of a print statement, in order.
pub open spec fn print_args_text(vs: Seq<ValueV>) -> Seq<char>
    decreases vs.len(),
{
    if vs.len() == 0 {
        Seq::empty()
    } else {
        (", format!(\"{}\", "@ + display_arg_text(vs[0]) + ")"@) + print_args_text(
            vs.subrange(1, vs.len() as int),
        )
    }
}

/// A print: one output statement whose arguments are the values' textual
/// forms, concatenated with no separator, in the original order.
pub open spec fn print_text(vs: Seq<ValueV>) -> Seq<char> {
    "println!(\""@ + braces_text(vs.len()) + "\""@ + print_args_text(vs) + ");\n"@
}

/// The head of a repeat: a loop that breaks at the top when the guard holds.
pub open spec fn repeat_head_text(l: ValueV, c: Condition, r: ValueV) -> Seq<char> {
    "loop {\nif "@ + guard_text(l) + " "@ + cond_text(c) + " "@ + guard_text(r) + "{\nbreak;}"@
}

/// The generated statement text of an instruction sequence, in order; a
/// repeat wraps its recursively translated body in the loop text.
pub open spec fn insts_text(insts: Seq<InstrV>) -> Seq<char>
    decreases insts,
{
    if insts.len() == 0 {
        Seq::empty()
    } else {
        let head = match insts[0] {
            InstrV::Move(x) => move_text(x),
            InstrV::Add(x) => add_text(x),
            InstrV::Multiply(x) => multiply_text(x),
            InstrV::Print(vs) => print_text(vs),
            InstrV::Repeat { left, condition, right, insts: body } => repeat_head_text(
                left,
                condition,
                right,
            ) + insts_text(body) + "}\n"@,
        };
        head + insts_text(insts.subrange(1, insts.len() as int))
    }
}

// ---------------------------------------------------------------------------
// the used-set
// ---------------------------------------------------------------------------

/// Appends a name to the used-set unless it is already present.
pub open spec fn add_used(acc: Seq<Seq<char>>, x: Seq<char>) -> Seq<Seq<char>> {
    if acc.contains(x) {
        acc
    } else {
        acc.push(x)
    }
}

/// Merges a list of names into the used-set, left to right.
pub open spec fn merge_used(acc: Seq<Seq<char>>, xs: Seq<Seq<char>>) -> Seq<Seq<char>>
    decreases xs.len(),
{
    if xs.len() == 0 {
        acc
    } else {
        merge_used(add_used(acc, xs[0]), xs.subrange(1, xs.len() as int))
    }
}

/// The used-set of an instruction sequence threaded through an accumulator:
/// every infix destination is recorded, in order of first assignment, and a
/// nested repeat body contributes to the same set.
pub open spec fn used_core(insts: Seq<InstrV>, acc: Seq<Seq<char>>) -> Seq<Seq<char>>
    decreases insts,
{
    if insts.len() == 0 {
        acc
    } else {
        let acc1 = match insts[0] {
            InstrV::Move(x) => add_used(acc, x.right.name),
            InstrV::Add(x) => add_used(acc, x.right.name),
            InstrV::Multiply(x) => add_used(acc, x.right.name),
            InstrV::Print(_) => acc,
            InstrV::Repeat { left, condition, right, insts: body } => used_core(body, acc),
        };
        used_core(insts.subrange(1, insts.len() as int), acc1)
    }
}

/// The set of distinct destination names assigned anywhere in the sequence,
/// in order of first assignment.
pub open spec fn used_names(insts: Seq<InstrV>) -> Seq<Seq<char>> {
    used_core(insts, Seq::empty())
}

/// Whether the sequence assigns to `n` anywhere, nested bodies included.
pub open spec fn assigns(insts: Seq<InstrV>, n: Seq<char>) -> bool
    decreases insts,
{
    if insts.len() == 0 {
        false
    } else {
        (match insts[0] {
            InstrV::Move(x) => x.right.name == n,
            InstrV::Add(x) => x.right.name == n,
            InstrV::Multiply(x) => x.right.name == n,
            InstrV::Print(_) => false,
            InstrV::Repeat { left, condition, right, insts: body } => assigns(body, n),
        }) || assigns(insts.subrange(1, insts.len() as int), n)
    }
}

/// Merging never loses or invents membership.
pub proof fn lemma_merge_used_contains(acc: Seq<Seq<char>>, xs: Seq<Seq<char>>, y: Seq<char>)
    ensures
        merge_used(acc, xs).contains(y) <==> acc.contains(y) || xs.contains(y),
    decreases xs.len(),
{
    if xs.len() == 0 {
    } else {
        lemma_merge_used_contains(add_used(acc, xs[0]), xs.subrange(1, xs.len() as int), y);
        lemma_push_contains(acc, xs[0], y);
        assert(xs.contains(y) <==> (xs[0] == y || xs.subrange(1, xs.len() as int).contains(y)))
            by {
            if xs.contains(y) {
                let i = choose|i: int| 0 <= i < xs.len() && xs[i] == y;
                if i > 0 {
                    assert(xs.subrange(1, xs.len() as int)[i - 1] == y);
                }
            }
            if xs.subrange(1, xs.len() as int).contains(y) {
                let i = choose|i: int|
                    0 <= i < xs.len() - 1 && xs.subrange(1, xs.len() as int)[i] == y;
                assert(xs[i + 1] == y);
            }
        }
    }
}

/// Membership in a pushed set.
proof fn lemma_push_contains(acc: Seq<Seq<char>>, x: Seq<char>, y: Seq<char>)
    ensures
        acc.push(x).contains(y) <==> acc.contains(y) || x == y,
{
    if acc.contains(y) {
        let i = choose|i: int| 0 <= i < acc.len() && acc[i] == y;
        assert(acc.push(x)[i] == y);
    }
    if acc.push(x).contains(y) {
        let i = choose|i: int| 0 <= i < acc.push(x).len() && acc.push(x)[i] == y;
        if i < acc.len() {
            assert(acc[i] == y);
        }
    }
    if x == y {
        assert(acc.push(x)[acc.len() as int] == y);
    }
}

/// Merging one more name on the right is one `add_used` step at the end.
proof fn lemma_merge_used_snoc(acc: Seq<Seq<char>>, xs: Seq<Seq<char>>, x: Seq<char>)
    ensures
        merge_used(acc, xs.push(x)) == add_used(merge_used(acc, xs), x),
    decreases xs.len(),
{
    let p = xs.push(x);
    if xs.len() == 0 {
        assert(p[0] == x);
        assert(merge_used(acc, p) == merge_used(add_used(acc, p[0]), p.subrange(1, 1)));
        assert(p.subrange(1, 1) =~= Seq::<Seq<char>>::empty());
        assert(merge_used(add_used(acc, x), Seq::<Seq<char>>::empty()) == add_used(acc, x));
    } else {
        assert(p[0] == xs[0]);
        assert(merge_used(acc, p) == merge_used(
            add_used(acc, p[0]),
            p.subrange(1, p.len() as int),
        ));
        assert(p.subrange(1, p.len() as int) =~= xs.subrange(1, xs.len() as int).push(x));
        lemma_merge_used_snoc(add_used(acc, xs[0]), xs.subrange(1, xs.len() as int), x);
        assert(merge_used(acc, xs) == merge_used(
            add_used(acc, xs[0]),
            xs.subrange(1, xs.len() as int),
        ));
    }
}

/// `add_used` on a merged set is merging the addition on the right.
proof fn lemma_add_merge_commute(acc: Seq<Seq<char>>, pre: Seq<Seq<char>>, x: Seq<char>)
    ensures
        add_used(merge_used(acc, pre), x) == merge_used(acc, add_used(pre, x)),
{
    lemma_merge_used_contains(acc, pre, x);
    if pre.contains(x) {
    } else {
        lemma_merge_used_snoc(acc, pre, x);
    }
}

/// The used-set computed from an accumulator is the accumulator merged with
/// the used-set computed afresh: collecting a nested body against the
/// caller's set equals collecting it alone and merging.
pub proof fn lemma_used_core_merge(insts: Seq<InstrV>, acc: Seq<Seq<char>>, pre: Seq<Seq<char>>)
    ensures
        used_core(insts, merge_used(acc, pre)) == merge_used(acc, used_core(insts, pre)),
    decreases insts,
{
    if insts.len() == 0 {
    } else {
        let rest = insts.subrange(1, insts.len() as int);
        match insts[0] {
            InstrV::Move(x) => {
                lemma_add_merge_commute(acc, pre, x.right.name);
                lemma_used_core_merge(rest, acc, add_used(pre, x.right.name));
            },
            InstrV::Add(x) => {
                lemma_add_merge_commute(acc, pre, x.right.name);
                lemma_used_core_merge(rest, acc, add_used(pre, x.right.name));
            },
            InstrV::Multiply(x) => {
                lemma_add_merge_commute(acc, pre, x.right.name);
                lemma_used_core_merge(rest, acc, add_used(pre, x.right.name));
            },
            InstrV::Print(_) => {
                lemma_used_core_merge(rest, acc, pre);
            },
            InstrV::Repeat { left, condition, right, insts: body } => {
                lemma_used_core_merge(body, acc, pre);
                lemma_used_core_merge(rest, acc, used_core(body, pre));
            },
        }
    }
}

/// The empty-accumulator form of the merge law.
pub proof fn lemma_used_core_from_empty(insts: Seq<InstrV>, acc: Seq<Seq<char>>)
    ensures
        used_core(insts, acc) == merge_used(acc, used_names(insts)),
{
    assert(merge_used(acc, Seq::<Seq<char>>::empty()) == acc);
    lemma_used_core_merge(insts, acc, Seq::empty());
}

/// The used-set holds a name exactly when the sequence assigns to it
/// somewhere, however deeply nested the assignment is. Together with
/// `lemma_used_names_distinct` and the shape of `translate_spec` this is the
/// hoisting law: a variable assigned only inside a nested `perform` body is
/// declared once, at the outermost generated scope, and marked mutable.
pub proof fn lemma_used_core_contains(insts: Seq<InstrV>, acc: Seq<Seq<char>>, n: Seq<char>)
    ensures
        used_core(insts, acc).contains(n) <==> acc.contains(n) || assigns(insts, n),
    decreases insts,
{
    if insts.len() == 0 {
    } else {
        let rest = insts.subrange(1, insts.len() as int);
        match insts[0] {
            InstrV::Move(x) => {
                lemma_push_contains(acc, x.right.name, n);
                lemma_used_core_contains(rest, add_used(acc, x.right.name), n);
            },
            InstrV::Add(x) => {
                lemma_push_contains(acc, x.right.name, n);
                lemma_used_core_contains(rest, add_used(acc, x.right.name), n);
            },
            InstrV::Multiply(x) => {
                lemma_push_contains(acc, x.right.name, n);
                lemma_used_core_contains(rest, add_used(acc, x.right.name), n);
            },
            InstrV::Print(_) => {
                lemma_used_core_contains(rest, acc, n);
            },
            InstrV::Repeat { left, condition, right, insts: body } => {
                lemma_used_core_contains(body, acc, n);
                lemma_used_core_contains(rest, used_core(body, acc), n);
            },
        }
    }
}

/// No name appears twice in the used-set.
pub open spec fn distinct_names(s: Seq<Seq<char>>) -> bool {
    forall|i: int, j: int| 0 <= i < j < s.len() ==> s[i] != s[j]
}

/// Collecting the used-set never duplicates a name.
pub proof fn lemma_used_core_distinct(insts: Seq<InstrV>, acc: Seq<Seq<char>>)
    requires
        distinct_names(acc),
    ensures
        distinct_names(used_core(insts, acc)),
    decreases insts,
{
    if insts.len() == 0 {
    } else {
        let rest = insts.subrange(1, insts.len() as int);
        match insts[0] {
            InstrV::Move(x) => {
                lemma_add_used_distinct(acc, x.right.name);
                lemma_used_core_distinct(rest, add_used(acc, x.right.name));
            },
            InstrV::Add(x) => {
                lemma_add_used_distinct(acc, x.right.name);
                lemma_used_core_distinct(rest, add_used(acc, x.right.name));
            },
            InstrV::Multiply(x) => {
                lemma_add_used_distinct(acc, x.right.name);
                lemma_used_core_distinct(rest, add_used(acc, x.right.name));
            },
            InstrV::Print(_) => {
                lemma_used_core_distinct(rest, acc);
            },
            InstrV::Repeat { left, condition, right, insts: body } => {
                lemma_used_core_distinct(body, acc);
                lemma_used_core_distinct(rest, used_core(body, acc));
            },
        }
    }
}

proof fn lemma_add_used_distinct(acc: Seq<Seq<char>>, x: Seq<char>)
    requires
        distinct_names(acc),
    ensures
        distinct_names(add_used(acc, x)),
{
    if !acc.contains(x) {
        assert forall|i: int, j: int|
            0 <= i < j < acc.push(x).len() implies acc.push(x)[i] != acc.push(x)[j] by {
            if j < acc.len() {
            } else {
                assert(acc.push(x)[j] == x);
                assert(acc.push(x)[i] == acc[i]);
                assert(!acc.contains(x));
            }
        }
    }
}

/// The used-set of the whole tree holds a name exactly when some statement,
/// however nested, assigns to it; and it holds each such name once.
pub proof fn lemma_used_names_law(insts: Seq<InstrV>, n: Seq<char>)
    ensures
        used_names(insts).contains(n) <==> assigns(insts, n),
        distinct_names(used_names(insts)),
{
    lemma_used_core_contains(insts, Seq::empty(), n);
    lemma_used_core_distinct(insts, Seq::empty());
}

// ---------------------------------------------------------------------------
// declarations
// ---------------------------------------------------------------------------

/// The binding generated for one declared variable: a fixed-precision
/// integer of the declared width initialized to zero for a numeric variable,
/// a string of width fill characters for an alphanumeric one; mutable
/// exactly when the name is in the used-set. Other declared types have no
/// generated representation.
pub open spec fn decl_text(d: DataV, used: Seq<Seq<char>>) -> Result<Seq<char>, TranslateError> {
    let mut_part = if used.contains(d.name) {
        "mut "@
    } else {
        Seq::<char>::empty()
    };
    match d.data_type {
        DataType::Picture(IdentifierType::Numeric(s)) => Ok(
            "let "@ + mut_part + d.name + ": Num<"@ + nat_text(s as nat) + "> = Num::zero();\n"@,
        ),
        DataType::Picture(IdentifierType::Alphanumeric(s)) => Ok(
            "let "@ + mut_part + d.name + "= String::from(\""@ + repeat_char('0', s as nat)
                + "\");\n"@,
        ),
        _ => Err(TranslateError::UnsupportedConstruct),
    }
}

/// The declaration block: one binding per declared variable, in declaration
/// order.
pub open spec fn decls_text(data: Seq<DataV>, used: Seq<Seq<char>>) -> Result<
    Seq<char>,
    TranslateError,
>
    decreases data.len(),
{
    if data.len() == 0 {
        Ok(Seq::empty())
    } else {
        match decl_text(data[0], used) {
            Err(e) => Err(e),
            Ok(t) => match decls_text(data.subrange(1, data.len() as int), used) {
                Err(e) => Err(e),
                Ok(rest) => Ok(t + rest),
            },
        }
    }
}

/// The whole generated program: a fixed prelude, the hoisted declarations,
/// then the translated statements inside a single entry point.
pub open spec fn translate_spec(data: Seq<DataV>, insts: Seq<InstrV>) -> Result<
    Seq<char>,
    TranslateError,
> {
    let used = used_names(insts);
    match decls_text(data, used) {
        Err(e) => Err(e),
        Ok(decls) => Ok(
            "#![allow(unused)]\n\nuse conum::{Num, NumFrom};\nfn main() {\n"@ + decls + "\n"@
                + insts_text(insts) + "}"@,
        ),
    }
}

// ---------------------------------------------------------------------------
// executable translation
// ---------------------------------------------------------------------------

/// Whether the used-set already holds a name.
fn contains_str(v: &Vec<String>, s: &str) -> (r: bool)
    ensures
        r == crate::text::str_views(v@).contains(s@),
{
    let n = v.len();
    let mut i: usize = 0;
    while i < n
        invariant
            0 <= i <= n,
            n == v@.len(),
            forall|j: int| 0 <= j < i ==> v@[j]@ != s@,
        decreases n - i,
    {
        if crate::text::str_eq(v[i].as_str(), s) {
            proof {
                assert(crate::text::str_views(v@)[i as int] == s@);
            }
            return true;
        }
        i += 1;
    }
    proof {
        if crate::text::str_views(v@).contains(s@) {
            let k = choose|k: int|
                0 <= k < v@.len() && crate::text::str_views(v@)[k as int] == s@;
            assert(v@[k]@ == s@);
            assert(false);
        }
    }
    false
}

/// Appends to the used-set every name of `idents` not already present, in order.
fn merge_into(defined: &mut Vec<String>, idents: &Vec<String>)
    ensures
        crate::text::str_views(final(defined)@) == merge_used(
            crate::text::str_views(old(defined)@),
            crate::text::str_views(idents@),
        ),
{
    let ghost acc0 = crate::text::str_views(old(defined)@);
    let ghost xs = crate::text::str_views(idents@);
    let n = idents.len();
    let mut j: usize = 0;
    proof {
        assert(xs.subrange(0, 0) =~= Seq::<Seq<char>>::empty());
    }
    while j < n
        invariant
            0 <= j <= n,
            n == idents@.len(),
            xs == crate::text::str_views(idents@),
            crate::text::str_views(defined@) == merge_used(acc0, xs.subrange(0, j as int)),
        decreases n - j,
    {
        proof {
            assert(xs.subrange(0, j as int + 1) =~= xs.subrange(0, j as int).push(xs[j as int]));
            lemma_merge_used_snoc(acc0, xs.subrange(0, j as int), xs[j as int]);
            assert(xs[j as int] == idents@[j as int]@);
        }
        if !contains_str(defined, idents[j].as_str()) {
            let ghost before = defined@;
            let w = idents[j].clone();
            defined.push(w);
            proof {
                assert(crate::text::str_views(defined@) =~= crate::text::str_views(before).push(
                    idents@[j as int]@,
                ));
            }
        }
        j += 1;
    }
    proof {
        assert(xs.subrange(0, n as int) =~= xs);
    }
}

/// Renders one operand in its plain form, reporting the identifier name if
/// the operand is one.
pub fn value_to_string(left: &Value) -> (r: (String, Option<String>))
    ensures
        r.0@ == value_text(left@),
        match left {
            Value::Identifier(id) => r.1 matches Some(n) && n@ == id.name@,
            _ => r.1 is None,
        },
{
    match left {
        Value::Number(i) => (crate::text::i32_text(*i), None),
        Value::Identifier(ident) => (ident.name.clone(), Some(ident.name.clone())),
        Value::StringLiteral(s) => (s.clone(), None),
    }
}

/// Renders one operand as a display argument.
fn display_arg_string(v: &Value) -> (r: String)
    ensures
        r@ == display_arg_text(v@),
{
    match v {
        Value::Number(i) => crate::text::i32_text(*i),
        Value::StringLiteral(s) => {
            let mut t = String::from_str("\"");
            t.append(s.as_str());
            t.append("\"");
            proof {
                reveal_strlit("\"");
                assert(t@ =~= display_arg_text(v@));
            }
            t
        },
        Value::Identifier(id) => {
            match id.kind {
                IdentifierType::Numeric(_) => {
                    let mut t = id.name.clone();
                    t.append(".to_zeroed_string()");
                    proof {
                        reveal_strlit(".to_zeroed_string()");
                        assert(t@ =~= display_arg_text(v@));
                    }
                    t
                },
                _ => id.name.clone(),
            }
        },
    }
}

/// Renders one operand as a guard operand.
fn guard_string(v: &Value) -> (r: String)
    ensures
        r@ == guard_text(v@),
{
    match v {
        Value::Number(i) => {
            let mut t = String::from_str("Num::from(");
            let digits = crate::text::i32_text(*i);
            t.append(digits.as_str());
            t.append(")");
            proof {
                reveal_strlit("Num::from(");
                reveal_strlit(")");
                assert(t@ =~= guard_text(v@));
            }
            t
        },
        Value::Identifier(id) => id.name.clone(),
        Value::StringLiteral(s) => s.clone(),
    }
}

/// Emits a move as an assignment, and the destination name for the used-set.
pub fn generate_move(infix: &Infix) -> (r: (String, Vec<String>))
    ensures
        r.0@ == move_text(infix@),
        crate::text::str_views(r.1@) == seq![infix.right.name@],
{
    let mut possible_idents_to_generate: Vec<String> = Vec::new();
    possible_idents_to_generate.push(infix.right.name.clone());
    let (left, _) = value_to_string(&infix.left);
    let mut text = infix.right.name.clone();
    text.append(" = ");
    text.append(left.as_str());
    let is_alpha = match infix.right.kind {
        IdentifierType::Alphanumeric(_) => true,
        _ => false,
    };
    if is_alpha {
        text.append(".to_zeroed_string();\n");
    } else {
        text.append(".into();\n");
    }
    proof {
        reveal_strlit(" = ");
        reveal_strlit(".to_zeroed_string();\n");
        reveal_strlit(".into();\n");
        assert(text@ =~= move_text(infix@));
        assert(crate::text::str_views(possible_idents_to_generate@) =~= seq![infix.right.name@]);
    }
    (text, possible_idents_to_generate)
}

/// Emits an add as a compound assignment; an identifier source is borrowed.
pub fn generate_add(infix: &Infix) -> (r: String)
    ensures
        r@ == add_text(infix@),
{
    let needs_ref: &str = match &infix.left {
        Value::Number(_) => "",
        Value::Identifier(_) => "&",
        Value::StringLiteral(_) => "",
    };
    let (left, _) = value_to_string(&infix.left);
    let mut text = infix.right.name.clone();
    text.append(" += ");
    text.append(needs_ref);
    text.append(left.as_str());
    text.append(";\n");
    proof {
        reveal_strlit(" += ");
        reveal_strlit("&");
        reveal_strlit("");
        reveal_strlit(";\n");
        assert(text@ =~= add_text(infix@));
    }
    text
}

/// Emits a multiply as a compound assignment through a width conversion.
pub fn generate_multiply(infix: &Infix) -> (r: String)
    ensures
        r@ == multiply_text(infix@),
{
    let (left, _) = value_to_string(&infix.left);
    let mut text = infix.right.name.clone();
    text.append(" *= ");
    text.append(infix.right.name.as_str());
    text.append(".convert(&");
    text.append(left.as_str());
    text.append(");\n");
    proof {
        reveal_strlit(" *= ");
        reveal_strlit(".convert(&");
        reveal_strlit(");\n");
        assert(text@ =~= multiply_text(infix@));
    }
    text
}

/// Emits the head of a repeat: the loop and its break-on-guard line.
pub fn generate_repeat(left: &Value, condition: &Condition, right: &Value) -> (r: String)
    ensures
        r@ == repeat_head_text(left@, *condition, right@),
{
    let left_string = guard_string(left);
    let right_string = guard_string(right);
    let cond_string = condition.to_string();
    let mut text = String::from_str("loop {\nif ");
    text.append(left_string.as_str());
    text.append(" ");
    text.append(cond_string.as_str());
    text.append(" ");
    text.append(right_string.as_str());
    text.append("{\nbreak;}");
    proof {
        reveal_strlit("loop {\nif ");
        reveal_strlit(" ");
        reveal_strlit("{\nbreak;}");
        assert(text@ =~= repeat_head_text(left@, *condition, right@));
    }
    text
}

/// One recursive pass over an instruction sequence: returns the ordered set
/// of destination names assigned anywhere in it (nested bodies included) and
/// the generated statement text, in order.
pub fn translate_core(instructions: &Vec<Instruction>) -> (r: (Vec<String>, String))
    ensures
        crate::text::str_views(r.0@) == used_names(instrs_view(instructions@)),
        r.1@ == insts_text(instrs_view(instructions@)),
    decreases instructions,
{
    broadcast use vstd::std_specs::vec::group_vec_axioms;

    let ghost iv = instrs_view(instructions@);
    let mut defined_variables: Vec<String> = Vec::new();
    let mut operations = String::new();
    let n = instructions.len();
    let mut i: usize = 0;
    proof {
        assert(iv.subrange(0, n as int) =~= iv);
        assert(crate::text::str_views(defined_variables@) =~= Seq::<Seq<char>>::empty());
        assert(operations@ + insts_text(iv) =~= insts_text(iv));
    }
    while i < n
        invariant
            0 <= i <= n,
            n == instructions@.len(),
            iv == instrs_view(instructions@),
            iv.len() == n,
            used_names(iv) == used_core(
                iv.subrange(i as int, n as int),
                crate::text::str_views(defined_variables@),
            ),
            insts_text(iv) == operations@ + insts_text(iv.subrange(i as int, n as int)),
        decreases n - i,
    {
        let ghost suf = iv.subrange(i as int, n as int);
        let ghost cur_used = crate::text::str_views(defined_variables@);
        let ghost cur_ops = operations@;
        proof {
            assert(suf[0] == iv[i as int]);
            assert(iv[i as int] == instr_view(instructions@[i as int]));
            assert(suf.subrange(1, suf.len() as int) =~= iv.subrange(i as int + 1, n as int));
        }
        match &instructions[i] {
            Instruction::Move(infix) => {
                let (operation_text, possible_idents) = generate_move(infix);
                operations.append(operation_text.as_str());
                merge_into(&mut defined_variables, &possible_idents);
                proof {
                    assert(iv[i as int] == InstrV::Move(infix@));
                    assert(merge_used(cur_used, seq![infix.right.name@]) == add_used(
                        cur_used,
                        infix.right.name@,
                    )) by {
                        assert(seq![infix.right.name@] =~= Seq::<Seq<char>>::empty().push(
                            infix.right.name@,
                        ));
                        lemma_merge_used_snoc(cur_used, Seq::empty(), infix.right.name@);
                    }
                    assert(operations@ =~= cur_ops + move_text(infix@));
                    assert(cur_ops + (move_text(infix@) + insts_text(
                        iv.subrange(i as int + 1, n as int),
                    )) =~= (cur_ops + move_text(infix@)) + insts_text(
                        iv.subrange(i as int + 1, n as int),
                    ));
                }
            },
            Instruction::Add(infix) => {
                let operation_text = generate_add(infix);
                operations.append(operation_text.as_str());
                if !contains_str(&defined_variables, infix.right.name.as_str()) {
                    let ghost before = defined_variables@;
                    let w = infix.right.name.clone();
                    defined_variables.push(w);
                    proof {
                        assert(crate::text::str_views(defined_variables@)
                            =~= crate::text::str_views(before).push(infix.right.name@));
                    }
                }
                proof {
                    assert(iv[i as int] == InstrV::Add(infix@));
                    assert(operations@ =~= cur_ops + add_text(infix@));
                    assert(cur_ops + (add_text(infix@) + insts_text(
                        iv.subrange(i as int + 1, n as int),
                    )) =~= (cur_ops + add_text(infix@)) + insts_text(
                        iv.subrange(i as int + 1, n as int),
                    ));
                }
            },
            Instruction::Multiply(infix) => {
                let operation_text = generate_multiply(infix);
                operations.append(operation_text.as_str());
                if !contains_str(&defined_variables, infix.right.name.as_str()) {
                    let ghost before = defined_variables@;
                    let w = infix.right.name.clone();
                    defined_variables.push(w);
                    proof {
                        assert(crate::text::str_views(defined_variables@)
                            =~= crate::text::str_views(before).push(infix.right.name@));
                    }
                }
                proof {
                    assert(iv[i as int] == InstrV::Multiply(infix@));
                    assert(operations@ =~= cur_ops + multiply_text(infix@));
                    assert(cur_ops + (multiply_text(infix@) + insts_text(
                        iv.subrange(i as int + 1, n as int),
                    )) =~= (cur_ops + multiply_text(infix@)) + insts_text(
                        iv.subrange(i as int + 1, n as int),
                    ));
                }
            },
            Instruction::Print(values) => {
                let ghost vsv = values_view(values@);
                proof {
                    assert(iv[i as int] == InstrV::Print(vsv));
                }
                let mut print_string = String::from_str("println!(\"");
                let mut arguments_string = String::new();
                let vn = values.len();
                let mut k: usize = 0;
                proof {
                    reveal_strlit("println!(\"");
                    assert(vsv.subrange(0, vn as int) =~= vsv);
                    assert(arguments_string@ + print_args_text(vsv) =~= print_args_text(vsv));
                }
                while k < vn
                    invariant
                        0 <= k <= vn,
                        vn == values@.len(),
                        vsv == values_view(values@),
                        vsv.len() == vn,
                        print_string@ == "println!(\""@ + braces_text(k as nat),
                        print_args_text(vsv) == arguments_string@ + print_args_text(
                            vsv.subrange(k as int, vn as int),
                        ),
                    decreases vn - k,
                {
                    let ghost asuf = vsv.subrange(k as int, vn as int);
                    proof {
                        assert(asuf[0] == vsv[k as int]);
                        assert(vsv[k as int] == values@[k as int]@);
                        assert(asuf.subrange(1, asuf.len() as int) =~= vsv.subrange(
                            k as int + 1,
                            vn as int,
                        ));
                    }
                    let ghost args0 = arguments_string@;
                    print_string.append("{}");
                    arguments_string.append(", format!(\"{}\", ");
                    let arg = display_arg_string(&values[k]);
                    arguments_string.append(arg.as_str());
                    arguments_string.append(")");
                    proof {
                        reveal_strlit("{}");
                        reveal_strlit(", format!(\"{}\", ");
                        reveal_strlit(")");
                        assert(print_string@ =~= "println!(\""@ + braces_text((k + 1) as nat));
                        assert(arguments_string@ =~= args0 + (", format!(\"{}\", "@
                            + display_arg_text(vsv[k as int]) + ")"@));
                        assert(args0 + ((", format!(\"{}\", "@ + display_arg_text(vsv[k as int])
                            + ")"@) + print_args_text(vsv.subrange(k as int + 1, vn as int)))
                            =~= (args0 + (", format!(\"{}\", "@ + display_arg_text(
                            vsv[k as int],
                        ) + ")"@)) + print_args_text(vsv.subrange(k as int + 1, vn as int)));
                    }
                    k += 1;
                }
                print_string.append("\"");
                arguments_string.append(");\n");
                operations.append(print_string.as_str());
                operations.append(arguments_string.as_str());
                proof {
                    reveal_strlit("\"");
                    reveal_strlit(");\n");
                    assert(vsv.subrange(vn as int, vn as int) =~= Seq::<ValueV>::empty());
                    assert(operations@ =~= cur_ops + print_text(vsv));
                    assert(cur_ops + (print_text(vsv) + insts_text(
                        iv.subrange(i as int + 1, n as int),
                    )) =~= (cur_ops + print_text(vsv)) + insts_text(
                        iv.subrange(i as int + 1, n as int),
                    ));
                }
            },
            Instruction::Repeat { left, condition, right, insts } => {
                proof {
                    crate::parser::lemma_repeat_view(*left, *condition, *right, *insts);
                    assert(decreases_to!(instructions => instructions@));
                    assert(decreases_to!(instructions@ => instructions@[i as int]));
                    assert(decreases_to!(instructions@[i as int] => *insts));
                }
                let operation_text = generate_repeat(left, condition, right);
                let nested = translate_core(insts);
                let (defined, instruction_text) = nested;
                merge_into(&mut defined_variables, &defined);
                operations.append(operation_text.as_str());
                operations.append(instruction_text.as_str());
                operations.append("}\n");
                proof {
                    reveal_strlit("}\n");
                    let body = instrs_view(insts@);
                    assert(iv[i as int] == (InstrV::Repeat {
                        left: left@,
                        condition: *condition,
                        right: right@,
                        insts: body,
                    }));
                    lemma_used_core_from_empty(body, cur_used);
                    let head = repeat_head_text(left@, *condition, right@) + insts_text(body)
                        + "}\n"@;
                    assert(operations@ =~= cur_ops + head);
                    assert(cur_ops + (head + insts_text(iv.subrange(i as int + 1, n as int)))
                        =~= (cur_ops + head) + insts_text(iv.subrange(i as int + 1, n as int)));
                }
            },
        }
        i += 1;
    }
    proof {
        assert(iv.subrange(n as int, n as int) =~= Seq::<InstrV>::empty());
        assert(operations@ + Seq::<char>::empty() =~= operations@);
    }
    (defined_variables, operations)
}

/// Translates a parsed program: the statements of the instruction tree, then
/// one hoisted binding per declared variable, sized and typed by its picture
/// and mutable exactly when its name is assigned somewhere, wrapped in a
/// single generated entry point.
pub fn translate(data: Vec<Data>, instructions: Vec<Instruction>) -> (r: Result<
    String,
    TranslateError,
>)
    ensures
        match r {
            Ok(s) => translate_spec(datas_view(data@), instrs_view(instructions@)) == Ok::<
                _,
                TranslateError,
            >(s@),
            Err(e) => translate_spec(datas_view(data@), instrs_view(instructions@)) == Err::<
                Seq<char>,
                _,
            >(e),
        },
{
    let ghost dv = datas_view(data@);
    let ghost iv = instrs_view(instructions@);
    let core = translate_core(&instructions);
    let (used_variables, operations) = core;
    let ghost used = used_names(iv);
    let mut variable_definitions = String::new();
    let n = data.len();
    let mut i: usize = 0;
    proof {
        assert(dv.subrange(0, n as int) =~= dv);
        match decls_text(dv, used) {
            Ok(t) => {
                assert(variable_definitions@ + t =~= t);
            },
            Err(e) => {},
        }
    }
    while i < n
        invariant
            0 <= i <= n,
            n == data@.len(),
            dv == datas_view(data@),
            dv.len() == n,
            iv == instrs_view(instructions@),
            used == used_names(iv),
            crate::text::str_views(used_variables@) == used,
            decls_text(dv, used) == (match decls_text(dv.subrange(i as int, n as int), used) {
                Err(e) => Err::<Seq<char>, TranslateError>(e),
                Ok(t) => Ok(variable_definitions@ + t),
            }),
        decreases n - i,
    {
        let ghost suf = dv.subrange(i as int, n as int);
        let ghost defs0 = variable_definitions@;
        proof {
            assert(suf[0] == dv[i as int]);
            assert(dv[i as int] == data@[i as int]@);
            assert(suf.subrange(1, suf.len() as int) =~= dv.subrange(i as int + 1, n as int));
        }
        let var = &data[i];
        let is_used = contains_str(&used_variables, var.name.as_str());
        let mut line = String::from_str("let ");
        if is_used {
            line.append("mut ");
        }
        line.append(var.name.as_str());
        match var.data_type {
            DataType::Picture(IdentifierType::Numeric(s)) => {
                line.append(": Num<");
                let digits = crate::text::u32_text(s);
                line.append(digits.as_str());
                line.append("> = Num::zero();\n");
                proof {
                    reveal_strlit("let ");
                    reveal_strlit("mut ");
                    reveal_strlit(": Num<");
                    reveal_strlit("> = Num::zero();\n");
                    assert(decl_text(dv[i as int], used) matches Ok(t) && line@ =~= t);
                }
            },
            DataType::Picture(IdentifierType::Alphanumeric(s)) => {
                line.append("= String::from(\"");
                let fill = crate::text::zeros(s);
                line.append(fill.as_str());
                line.append("\");\n");
                proof {
                    reveal_strlit("let ");
                    reveal_strlit("mut ");
                    reveal_strlit("= String::from(\"");
                    reveal_strlit("\");\n");
                    assert(decl_text(dv[i as int], used) matches Ok(t) && line@ =~= t);
                }
            },
            _ => {
                proof {
                    assert(decl_text(dv[i as int], used) == Err::<Seq<char>, TranslateError>(
                        TranslateError::UnsupportedConstruct,
                    ));
                    assert(decls_text(suf, used) == Err::<Seq<char>, TranslateError>(
                        TranslateError::UnsupportedConstruct,
                    ));
                }
                return Err(TranslateError::UnsupportedConstruct);
            },
        }
        variable_definitions.append(line.as_str());
        proof {
            match decl_text(dv[i as int], used) {
                Ok(t) => {
                    match decls_text(dv.subrange(i as int + 1, n as int), used) {
                        Ok(rest) => {
                            assert(defs0 + (t + rest) =~= (defs0 + t) + rest);
                        },
                        Err(e) => {},
                    }
                },
                Err(e) => {},
            }
        }
        i += 1;
    }
    proof {
        assert(dv.subrange(n as int, n as int) =~= Seq::<DataV>::empty());
        assert(variable_definitions@ + Seq::<char>::empty() =~= variable_definitions@);
    }
    let mut out = String::from_str("#![allow(unused)]\n\nuse conum::{Num, NumFrom};\nfn main() {\n");
    out.append(variable_definitions.as_str());
    out.append("\n");
    out.append(operations.as_str());
    out.append("}");
    proof {
        reveal_strlit("#![allow(unused)]\n\nuse conum::{Num, NumFrom};\nfn main() {\n");
        reveal_strlit("\n");
        reveal_strlit("}");
        match decls_text(dv, used) {
            Ok(decls) => {
                assert(out@ =~= "#![allow(unused)]\n\nuse conum::{Num, NumFrom};\nfn main() {\n"@
                    + decls + "\n"@ + insts_text(iv) + "}"@);
            },
            Err(e) => {
                assert(false);
            },
        }
    }
    Ok(out)
}

} // verus!
