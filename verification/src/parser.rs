//! The structural parser: data types of the instruction tree, the word
//! splitter over whole lines, the declarations (working-storage) parser and
//! the statement (procedure) parser.

use vstd::prelude::*;
use crate::TranslateError;
use crate::lexer::{take_string, take_string_spec, take_until, take_until_spec};
use crate::text::{digits_val, is_digit_char, is_space_char};

verus! {

// ---------------------------------------------------------------------------
// data model
// ---------------------------------------------------------------------------

/// The picture-code type of a declared variable, with its declared width.
#[derive(Clone, Copy, Debug, PartialEq, Eq, Structural)]
pub enum IdentifierType {
    Numeric(u32),
    Alphabetic,
    Alphanumeric(u32),
    ImplicitDecimal,
    Sign,
    AssumedDecimal,
}

/// The declared type of a variable; only picture declarations are supported.
#[derive(Clone, Copy, Debug, PartialEq, Eq, Structural)]
pub enum DataType {
    Picture(IdentifierType),
    Other,
}

/// One declared variable: its level number, name and type.
#[derive(Debug)]
pub struct Data {
    pub level: i32,
    pub name: String,
    pub data_type: DataType,
}

/// The mathematical shadow of a `Data` record.
pub struct DataV {
    pub level: int,
    pub name: Seq<char>,
    pub data_type: DataType,
}

impl View for Data {
    type V = DataV;

    open spec fn view(&self) -> DataV {
        DataV { level: self.level as int, name: self.name@, data_type: self.data_type }
    }
}

pub open spec fn datas_view(s: Seq<Data>) -> Seq<DataV> {
    Seq::new(s.len(), |i: int| s[i]@)
}

/// The comparison of a `perform until` guard.
#[derive(Clone, Copy, Debug, PartialEq, Eq, Structural)]
pub enum Condition {
    GreaterThan,
    LessThan,
    EqualTo,
}

/// A declared variable resolved at an instruction site.
#[derive(Debug)]
pub struct Ident {
    pub name: String,
    pub kind: IdentifierType,
}

/// The mathematical shadow of an `Ident`.
pub struct IdentV {
    pub name: Seq<char>,
    pub kind: IdentifierType,
}

impl View for Ident {
    type V = IdentV;

    open spec fn view(&self) -> IdentV {
        IdentV { name: self.name@, kind: self.kind }
    }
}

impl Ident {
    pub fn new(name: &str, kind: IdentifierType) -> (r: Self)
        ensures
            r@.name == name@,
            r@.kind == kind,
    {
        Ident { name: String::from_str(name), kind }
    }
}

/// An operand: an integer literal, a resolved identifier, or a string literal
/// (stored without its quotes).
#[derive(Debug)]
pub enum Value {
    Number(i32),
    Identifier(Ident),
    StringLiteral(String),
}

/// The mathematical shadow of a `Value`.
pub enum ValueV {
    Number(int),
    Identifier(IdentV),
    StringLiteral(Seq<char>),
}

impl View for Value {
    type V = ValueV;

    open spec fn view(&self) -> ValueV {
        match self {
            Value::Number(v) => ValueV::Number(*v as int),
            Value::Identifier(id) => ValueV::Identifier(id@),
            Value::StringLiteral(s) => ValueV::StringLiteral(s@),
        }
    }
}

pub open spec fn values_view(s: Seq<Value>) -> Seq<ValueV> {
    Seq::new(s.len(), |i: int| s[i]@)
}

/// The operand pair of a move, add or multiply statement.
#[derive(Debug)]
pub struct Infix {
    pub left: Value,
    pub right: Ident,
}

/// The mathematical shadow of an `Infix`.
pub struct InfixV {
    pub left: ValueV,
    pub right: IdentV,
}

impl View for Infix {
    type V = InfixV;

    open spec fn view(&self) -> InfixV {
        InfixV { left: self.left@, right: self.right@ }
    }
}

/// One executable statement; `Repeat` owns its nested body exclusively.
#[derive(Debug)]
pub enum Instruction {
    Move(Infix),
    Add(Infix),
    Multiply(Infix),
    Print(Vec<Value>),
    Repeat { left: Value, condition: Condition, right: Value, insts: Vec<Instruction> },
}

/// The mathematical shadow of an `Instruction`.
pub enum InstrV {
    Move(InfixV),
    Add(InfixV),
    Multiply(InfixV),
    Print(Seq<ValueV>),
    Repeat { left: ValueV, condition: Condition, right: ValueV, insts: Seq<InstrV> },
}

pub open spec fn instr_view(i: Instruction) -> InstrV
    decreases i,
    via instr_view_dec
{
    match i {
        Instruction::Move(x) => InstrV::Move(x@),
        Instruction::Add(x) => InstrV::Add(x@),
        Instruction::Multiply(x) => InstrV::Multiply(x@),
        Instruction::Print(vs) => InstrV::Print(values_view(vs@)),
        Instruction::Repeat { left, condition, right, insts } => InstrV::Repeat {
            left: left@,
            condition,
            right: right@,
            insts: Seq::new(
                insts@.len(),
                |k: int|
                    if 0 <= k < insts@.len() {
                        instr_view(insts@[k])
                    } else {
                        InstrV::Print(Seq::empty())
                    },
            ),
        },
    }
}

#[via_fn]
proof fn instr_view_dec(i: Instruction) {
    broadcast use vstd::std_specs::vec::group_vec_axioms;
    broadcast use vstd::seq::group_seq_axioms;

    match i {
        Instruction::Repeat { left, condition, right, insts } => {
            assert forall|k: int| 0 <= k < insts@.len() implies decreases_to!(i => insts@[k]) by {
                assert(decreases_to!(i => insts));
                assert(decreases_to!(insts => insts@));
                assert(decreases_to!(insts@ => insts@[k]));
            }
        },
        _ => {},
    }
}

impl View for Instruction {
    type V = InstrV;

    open spec fn view(&self) -> InstrV {
        instr_view(*self)
    }
}

pub open spec fn instrs_view(s: Seq<Instruction>) -> Seq<InstrV> {
    Seq::new(s.len(), |i: int| instr_view(s[i]))
}

/// Unfolds the view of a `Repeat` to the views of its parts.
pub proof fn lemma_repeat_view(left: Value, condition: Condition, right: Value, insts: Vec<
    Instruction,
>)
    ensures
        instr_view(Instruction::Repeat { left, condition, right, insts }) == (InstrV::Repeat {
            left: left@,
            condition,
            right: right@,
            insts: instrs_view(insts@),
        }),
{
    let v = instr_view(Instruction::Repeat { left, condition, right, insts });
    assert(v is Repeat);
    assert(v->Repeat_insts =~= instrs_view(insts@));
}

// ---------------------------------------------------------------------------
// word splitting
// ---------------------------------------------------------------------------

/// The words of one source line, in order: leading and separating spaces are
/// skipped, a quoted literal is one word (quotes included), any other word
/// runs to the next space or to the end of the line. A quote that is never
/// closed on its line is a lexical error.
pub open spec fn split_words_spec(s: Seq<char>) -> Result<Seq<Seq<char>>, TranslateError>
    decreases s.len(),
    via split_words_spec_dec
{
    if s.len() == 0 {
        Ok(Seq::empty())
    } else if is_space_char(s[0]) {
        split_words_spec(s.subrange(1, s.len() as int))
    } else if s[0] == '"' {
        match take_string_spec(s) {
            None => Err(TranslateError::UnterminatedLiteral),
            Some(p) => match split_words_spec(p.1) {
                Err(e) => Err(e),
                Ok(ws) => Ok(seq![p.0] + ws),
            },
        }
    } else {
        match take_until_spec(s, ' ') {
            None => Ok(seq![s]),
            Some(p) => match split_words_spec(p.1) {
                Err(e) => Err(e),
                Ok(ws) => Ok(seq![p.0] + ws),
            },
        }
    }
}

#[via_fn]
proof fn split_words_spec_dec(s: Seq<char>) {
    crate::lexer::lemma_take_string_shrinks(s);
    crate::lexer::lemma_take_until_shrinks(s, ' ');
}

/// Splits a line into its words, as `split_words_spec` describes.
pub fn get_words(line: &str) -> (r: Result<Vec<String>, TranslateError>)
    ensures
        match r {
            Ok(ws) => split_words_spec(line@) == Ok::<_, TranslateError>(
                crate::text::str_views(ws@),
            ),
            Err(e) => split_words_spec(line@) == Err::<Seq<Seq<char>>, _>(e),
        },
    decreases line@.len(),
{
    let n = line.unicode_len();
    if n == 0 {
        let ws: Vec<String> = Vec::new();
        proof {
            assert(crate::text::str_views(ws@) =~= Seq::<Seq<char>>::empty());
        }
        return Ok(ws);
    }
    let c0 = line.get_char(0);
    if c0 == ' ' || c0 == '\t' || c0 == '\r' {
        return get_words(line.substring_char(1, n));
    }
    if c0 == '"' {
        match take_string(line) {
            None => Err(TranslateError::UnterminatedLiteral),
            Some(p) => {
                let (w, rest) = p;
                proof {
                    crate::lexer::lemma_take_string_shrinks(line@);
                }
                match get_words(rest.as_str()) {
                    Err(e) => Err(e),
                    Ok(mut ws) => {
                        let ghost tail_views = crate::text::str_views(ws@);
                        ws.insert(0, w);
                        proof {
                            assert(crate::text::str_views(ws@) =~= seq![w@] + tail_views);
                        }
                        Ok(ws)
                    },
                }
            },
        }
    } else {
        match take_until(line, ' ') {
            None => {
                let mut ws: Vec<String> = Vec::new();
                ws.push(String::from_str(line));
                proof {
                    assert(crate::text::str_views(ws@) =~= seq![line@]);
                }
                Ok(ws)
            },
            Some(p) => {
                let (w, rest) = p;
                proof {
                    crate::lexer::lemma_take_until_shrinks(line@, ' ');
                }
                match get_words(rest.as_str()) {
                    Err(e) => Err(e),
                    Ok(mut ws) => {
                        let ghost tail_views = crate::text::str_views(ws@);
                        ws.insert(0, w);
                        proof {
                            assert(crate::text::str_views(ws@) =~= seq![w@] + tail_views);
                        }
                        Ok(ws)
                    },
                }
            },
        }
    }
}

/// Splits a line into words; the entry point the statement parser uses.
pub fn walk_line(line: &str) -> (r: Result<Vec<String>, TranslateError>)
    ensures
        match r {
            Ok(ws) => split_words_spec(line@) == Ok::<_, TranslateError>(
                crate::text::str_views(ws@),
            ),
            Err(e) => split_words_spec(line@) == Err::<Seq<Seq<char>>, _>(e),
        },
{
    get_words(line)
}

// ---------------------------------------------------------------------------
// symbol-table lookup and operand classification
// ---------------------------------------------------------------------------

/// The declared type of the first table entry named `name`, if any.
pub open spec fn lookup_spec(table: Seq<DataV>, name: Seq<char>) -> Option<DataType>
    decreases table.len(),
{
    if table.len() == 0 {
        None
    } else if table[0].name == name {
        Some(table[0].data_type)
    } else {
        lookup_spec(table.subrange(1, table.len() as int), name)
    }
}

/// Skipping entries whose names do not match leaves the lookup unchanged.
proof fn lemma_lookup_skip(table: Seq<DataV>, name: Seq<char>, i: int)
    requires
        0 <= i <= table.len(),
        forall|j: int| 0 <= j < i ==> table[j].name != name,
    ensures
        lookup_spec(table, name) == lookup_spec(table.subrange(i, table.len() as int), name),
    decreases i,
{
    if i == 0 {
        assert(table.subrange(0, table.len() as int) =~= table);
    } else {
        lemma_lookup_skip(table, name, i - 1);
        let t1 = table.subrange(i - 1, table.len() as int);
        assert(t1[0] == table[i - 1]);
        assert(t1.subrange(1, t1.len() as int) =~= table.subrange(i, table.len() as int));
    }
}

/// Looks a name up in the symbol table, first declaration wins.
pub fn look_up_type(table: &Vec<Data>, name: &str) -> (r: Option<DataType>)
    ensures
        r == lookup_spec(datas_view(table@), name@),
{
    let ghost tv = datas_view(table@);
    let n = table.len();
    let mut i: usize = 0;
    while i < n
        invariant
            0 <= i <= n,
            n == table@.len(),
            tv == datas_view(table@),
            tv.len() == n,
            forall|j: int| 0 <= j < i ==> #[trigger] tv[j].name != name@,
        decreases n - i,
    {
        if crate::text::str_eq(table[i].name.as_str(), name) {
            proof {
                lemma_lookup_skip(tv, name@, i as int);
                assert(tv.subrange(i as int, n as int)[0] == tv[i as int]);
            }
            return Some(table[i].data_type);
        }
        i += 1;
    }
    proof {
        lemma_lookup_skip(tv, name@, n as int);
    }
    None
}

/// How one raw word is read as an operand: an integer literal if it parses as
/// one, a string literal if it is wrapped in quotes, otherwise an identifier
/// that must be declared in the symbol table.
pub open spec fn classify_spec(w: Seq<char>, table: Seq<DataV>) -> Result<ValueV, TranslateError> {
    match crate::text::parse_int(w) {
        Some(v) => Ok(ValueV::Number(v)),
        None => if w.len() >= 2 && w[0] == '"' && w[w.len() - 1] == '"' {
            Ok(ValueV::StringLiteral(w.subrange(1, w.len() - 1)))
        } else {
            match lookup_spec(table, w) {
                None => Err(TranslateError::UndeclaredIdentifier),
                Some(DataType::Picture(t)) => Ok(ValueV::Identifier(IdentV { name: w, kind: t })),
                Some(DataType::Other) => Err(TranslateError::UnsupportedConstruct),
            }
        },
    }
}

impl Value {
    /// Classifies one word into an operand, consulting the symbol table for
    /// identifiers; an identifier that is not declared is a fatal error.
    pub fn derive(val: &str, table: &Vec<Data>) -> (r: Result<Value, TranslateError>)
        ensures
            match r {
                Ok(v) => classify_spec(val@, datas_view(table@)) == Ok::<_, TranslateError>(v@),
                Err(e) => classify_spec(val@, datas_view(table@)) == Err::<ValueV, _>(e),
            },
    {
        match crate::text::parse_i32(val) {
            Some(v) => Ok(Value::Number(v)),
            None => {
                let n = val.unicode_len();
                if n >= 2 && val.get_char(0) == '"' && val.get_char(n - 1) == '"' {
                    let inner = val.substring_char(1, n - 1);
                    Ok(Value::StringLiteral(String::from_str(inner)))
                } else {
                    match look_up_type(table, val) {
                        None => Err(TranslateError::UndeclaredIdentifier),
                        Some(DataType::Picture(t)) => Ok(
                            Value::Identifier(Ident::new(val, t)),
                        ),
                        Some(DataType::Other) => Err(TranslateError::UnsupportedConstruct),
                    }
                }
            },
        }
    }
}

// ---------------------------------------------------------------------------
// conditions
// ---------------------------------------------------------------------------

/// Maps a condition word of the source language to its comparison.
pub open spec fn condition_from_word(w: Seq<char>) -> Result<Condition, TranslateError> {
    if w == "greater"@ {
        Ok(Condition::GreaterThan)
    } else if w == "less"@ {
        Ok(Condition::LessThan)
    } else if w == "equal"@ {
        Ok(Condition::EqualTo)
    } else {
        Err(TranslateError::UnknownCondition)
    }
}

/// The comparison operator emitted for a condition in generated guards.
pub open spec fn cond_text(c: Condition) -> Seq<char> {
    match c {
        Condition::GreaterThan => seq!['>'],
        Condition::LessThan => seq!['<'],
        Condition::EqualTo => seq!['=', '='],
    }
}

impl Condition {
    /// Reads a condition word; any other word is a fatal error.
    pub fn derive(val: &str) -> (r: Result<Condition, TranslateError>)
        ensures
            r == condition_from_word(val@),
    {
        if crate::text::str_eq(val, "greater") {
            Ok(Condition::GreaterThan)
        } else if crate::text::str_eq(val, "less") {
            Ok(Condition::LessThan)
        } else if crate::text::str_eq(val, "equal") {
            Ok(Condition::EqualTo)
        } else {
            Err(TranslateError::UnknownCondition)
        }
    }

    /// The target-language operator text for this comparison.
    pub fn to_string(&self) -> (r: String)
        ensures
            r@ == cond_text(*self),
    {
        match self {
            Condition::GreaterThan => {
                let s = String::from_str(">");
                proof {
                    reveal_strlit(">");
                    assert(s@ =~= cond_text(Condition::GreaterThan));
                }
                s
            },
            Condition::LessThan => {
                let s = String::from_str("<");
                proof {
                    reveal_strlit("<");
                    assert(s@ =~= cond_text(Condition::LessThan));
                }
                s
            },
            Condition::EqualTo => {
                let s = String::from_str("==");
                proof {
                    reveal_strlit("==");
                    assert(s@ =~= cond_text(Condition::EqualTo));
                }
                s
            },
        }
    }
}

// ---------------------------------------------------------------------------
// picture codes
// ---------------------------------------------------------------------------

/// The digit characters of a parenthesized width, read from index `i` up to
/// the closing parenthesis. `None` when a non-digit intervenes or the
/// parenthesis never closes.
pub open spec fn paren_digits(s: Seq<char>, i: int) -> Option<Seq<char>>
    decreases s.len() - i,
{
    if i < 0 || i >= s.len() {
        None
    } else if s[i] == ')' {
        Some(Seq::empty())
    } else if is_digit_char(s[i]) {
        match paren_digits(s, i + 1) {
            None => None,
            Some(d) => Some(seq![s[i]] + d),
        }
    } else {
        None
    }
}

/// Scanning over already-checked digits relates the scan at `a` to the scan at `b`.
proof fn lemma_paren_digits_skip(s: Seq<char>, a: int, b: int)
    requires
        0 <= a <= b <= s.len(),
        forall|j: int| a <= j < b ==> is_digit_char(#[trigger] s[j]),
    ensures
        paren_digits(s, a) == (match paren_digits(s, b) {
            None => None,
            Some(d) => Some(s.subrange(a, b) + d),
        }),
    decreases b - a,
{
    if a == b {
        match paren_digits(s, b) {
            None => {},
            Some(d) => {
                assert(s.subrange(a, b) + d =~= d);
            },
        }
    } else {
        assert(is_digit_char(s[a]));
        assert(s[a] != ')') by {
            assert('0' <= s[a] && s[a] <= '9');
        }
        lemma_paren_digits_skip(s, a + 1, b);
        match paren_digits(s, b) {
            None => {},
            Some(d) => {
                assert(seq![s[a]] + (s.subrange(a + 1, b) + d) =~= s.subrange(a, b) + d);
            },
        }
    }
}

/// The declared width of a picture code: an explicit parenthesized count
/// (which must be a positive number of digits, closed, and in range), or the
/// character count of the picture token minus its trailing terminator.
pub open spec fn picture_width(s: Seq<char>) -> Result<u32, TranslateError> {
    if s.len() >= 2 && s[1] == '(' {
        match paren_digits(s, 2) {
            None => Err(TranslateError::MalformedPicture),
            Some(ds) => if ds.len() == 0 {
                Err(TranslateError::MalformedPicture)
            } else {
                let v = digits_val(ds);
                if 1 <= v && v <= u32::MAX {
                    Ok(v as u32)
                } else {
                    Err(TranslateError::MalformedPicture)
                }
            },
        }
    } else if s.len() >= 2 {
        if s.len() - 1 <= u32::MAX {
            Ok((s.len() - 1) as u32)
        } else {
            Err(TranslateError::MalformedPicture)
        }
    } else {
        Ok(1u32)
    }
}

/// How a picture token is read: `9` declares a numeric variable, `x` an
/// alphanumeric one, anything else is unsupported; the width follows
/// `picture_width`.
pub open spec fn parse_type_spec(s: Seq<char>) -> Result<IdentifierType, TranslateError> {
    if s.len() == 0 {
        Err(TranslateError::UnsupportedConstruct)
    } else if s[0] != '9' && s[0] != 'x' {
        Err(TranslateError::UnsupportedConstruct)
    } else {
        match picture_width(s) {
            Err(e) => Err(e),
            Ok(wd) => if s[0] == '9' {
                Ok(IdentifierType::Numeric(wd))
            } else {
                Ok(IdentifierType::Alphanumeric(wd))
            },
        }
    }
}

impl IdentifierType {
    /// Reads a picture token into its type and width.
    pub fn parse_type(string: &str) -> (r: Result<IdentifierType, TranslateError>)
        ensures
            r == parse_type_spec(string@),
    {
        let n = string.unicode_len();
        if n == 0 {
            return Err(TranslateError::UnsupportedConstruct);
        }
        let c0 = string.get_char(0);
        if !(c0 == '9' || c0 == 'x') {
            return Err(TranslateError::UnsupportedConstruct);
        }
        if n >= 2 && string.get_char(1) == '(' {
            let mut i: usize = 2;
            let mut acc: u64 = 0;
            let ghost mut gval: int = 0int;
            proof {
                assert(string@.subrange(2, 2) =~= Seq::<char>::empty());
            }
            while i < n
                invariant
                    2 <= i <= n,
                    n == string@.len(),
                    string@[1] == '(',
                    string@[0] == c0,
                    c0 == '9' || c0 == 'x',
                    forall|j: int| 2 <= j < i ==> is_digit_char(#[trigger] string@[j]),
                    gval == digits_val(string@.subrange(2, i as int)),
                    gval >= 0,
                    gval <= 0xFFFF_FFFF ==> acc == gval,
                    gval > 0xFFFF_FFFF ==> acc == 0x1_0000_0000u64,
                    acc <= 0x1_0000_0000u64,
                decreases n - i,
            {
                let c = string.get_char(i);
                if c == ')' {
                    proof {
                        lemma_paren_digits_skip(string@, 2, i as int);
                        assert(string@.subrange(2, i as int) + Seq::<char>::empty() =~= string@
                            .subrange(2, i as int));
                    }
                    if i == 2 {
                        return Err(TranslateError::MalformedPicture);
                    }
                    if acc == 0 || acc > 0xFFFF_FFFFu64 {
                        return Err(TranslateError::MalformedPicture);
                    }
                    let w: u32 = acc as u32;
                    if c0 == '9' {
                        return Ok(IdentifierType::Numeric(w));
                    } else {
                        return Ok(IdentifierType::Alphanumeric(w));
                    }
                }
                if !('0' <= c && c <= '9') {
                    proof {
                        lemma_paren_digits_skip(string@, 2, i as int);
                    }
                    return Err(TranslateError::MalformedPicture);
                }
                let d: u64 = ((c as u32) - ('0' as u32)) as u64;
                proof {
                    let pre = string@.subrange(2, i as int);
                    let post = string@.subrange(2, i as int + 1);
                    assert(post.subrange(0, post.len() - 1) =~= pre);
                    assert(post[post.len() - 1] == c);
                    gval = gval * 10 + d;
                }
                if acc > 0xFFFF_FFFFu64 {
                    acc = 0x1_0000_0000u64;
                } else {
                    let t: u64 = acc * 10 + d;
                    if t > 0xFFFF_FFFFu64 {
                        acc = 0x1_0000_0000u64;
                    } else {
                        acc = t;
                    }
                }
                i += 1;
            }
            proof {
                lemma_paren_digits_skip(string@, 2, n as int);
            }
            Err(TranslateError::MalformedPicture)
        } else if n >= 2 {
            if n - 1 > 0xFFFF_FFFFusize {
                return Err(TranslateError::MalformedPicture);
            }
            let w: u32 = (n - 1) as u32;
            if c0 == '9' {
                Ok(IdentifierType::Numeric(w))
            } else {
                Ok(IdentifierType::Alphanumeric(w))
            }
        } else {
            if c0 == '9' {
                Ok(IdentifierType::Numeric(1))
            } else {
                Ok(IdentifierType::Alphanumeric(1))
            }
        }
    }
}

// ---------------------------------------------------------------------------
// declaration lines
// ---------------------------------------------------------------------------

/// How one declaration line is read: word one is the level number, word two
/// the variable name, word three must be the keyword `pic`, word four the
/// picture token; further words are ignored.
pub open spec fn parse_variable_spec(line: Seq<char>) -> Result<DataV, TranslateError> {
    match split_words_spec(line) {
        Err(e) => Err(e),
        Ok(ws) => if ws.len() < 4 {
            Err(TranslateError::UnsupportedConstruct)
        } else {
            match crate::text::parse_int(ws[0]) {
                None => Err(TranslateError::MalformedLevel),
                Some(lv) => if ws[2] != "pic"@ {
                    Err(TranslateError::UnsupportedConstruct)
                } else {
                    match parse_type_spec(ws[3]) {
                        Err(e) => Err(e),
                        Ok(t) => Ok(
                            DataV { level: lv, name: ws[1], data_type: DataType::Picture(t) },
                        ),
                    }
                },
            }
        },
    }
}

/// How the declaration block is read: blank lines are skipped, every other
/// line must be a declaration; the records keep their order.
pub open spec fn parse_storage_spec(lines: Seq<Seq<char>>) -> Result<Seq<DataV>, TranslateError>
    decreases lines.len(),
{
    if lines.len() == 0 {
        Ok(Seq::empty())
    } else if crate::text::all_spaces(lines[0]) {
        parse_storage_spec(lines.subrange(1, lines.len() as int))
    } else {
        match parse_variable_spec(lines[0]) {
            Err(e) => Err(e),
            Ok(d) => match parse_storage_spec(lines.subrange(1, lines.len() as int)) {
                Err(e) => Err(e),
                Ok(ds) => Ok(seq![d] + ds),
            },
        }
    }
}

/// How the whole data segment is read: everything after the working-storage
/// anchor, line by line.
pub open spec fn parse_data_spec(seg: Seq<char>) -> Result<Seq<DataV>, TranslateError> {
    match crate::text::split_on(seg, "working-storage section."@) {
        None => Err(TranslateError::MissingSection),
        Some(p) => parse_storage_spec(crate::text::line_split(p.1)),
    }
}

// ---------------------------------------------------------------------------
// statement lines
// ---------------------------------------------------------------------------

/// The deepest `perform` nesting the parser accepts; beyond it parsing fails
/// rather than recurse without bound on malformed input.
pub const MAX_NESTING: usize = 64;

/// Removes one statement-terminating period from the end of a line's last word.
pub open spec fn strip_period(ws: Seq<Seq<char>>) -> Seq<Seq<char>> {
    if ws.len() > 0 && ws[ws.len() - 1].len() > 0 && ws[ws.len() - 1][ws[ws.len() - 1].len() - 1]
        == '.' {
        ws.update(ws.len() - 1, ws[ws.len() - 1].subrange(0, ws[ws.len() - 1].len() - 1))
    } else {
        ws
    }
}

/// Whether a line carries the block-closing sentinel.
pub open spec fn has_end_perform(line: Seq<char>) -> bool {
    crate::text::find_sub(line, "end-perform."@) is Some
}

/// How one infix statement is read from its operand words `<src> (to|by)
/// <dest>`: the destination must be declared (its picture type resolves the
/// instruction's destination), the source is classified as an operand.
pub open spec fn parse_infix_spec(verb: Seq<char>, ops: Seq<Seq<char>>, table: Seq<DataV>) -> Result<
    InstrV,
    TranslateError,
> {
    if ops.len() != 3 {
        Err(TranslateError::UnsupportedConstruct)
    } else if ops[1] != "to"@ && ops[1] != "by"@ {
        Err(TranslateError::UnsupportedConstruct)
    } else {
        match lookup_spec(table, ops[2]) {
            None => Err(TranslateError::UndeclaredIdentifier),
            Some(DataType::Other) => Err(TranslateError::UnsupportedConstruct),
            Some(DataType::Picture(t)) => match classify_spec(ops[0], table) {
                Err(e) => Err(e),
                Ok(src) => {
                    let infix = InfixV { left: src, right: IdentV { name: ops[2], kind: t } };
                    if verb == "move"@ {
                        Ok(InstrV::Move(infix))
                    } else if verb == "add"@ {
                        Ok(InstrV::Add(infix))
                    } else {
                        Ok(InstrV::Multiply(infix))
                    }
                },
            },
        }
    }
}

/// How a display statement is read: every remaining word is classified, in order.
pub open spec fn parse_print_spec(ops: Seq<Seq<char>>, table: Seq<DataV>) -> Result<
    Seq<ValueV>,
    TranslateError,
>
    decreases ops.len(),
{
    if ops.len() == 0 {
        Ok(Seq::empty())
    } else {
        match classify_spec(ops[0], table) {
            Err(e) => Err(e),
            Ok(v) => match parse_print_spec(ops.subrange(1, ops.len() as int), table) {
                Err(e) => Err(e),
                Ok(vs) => Ok(seq![v] + vs),
            },
        }
    }
}

/// How a `perform until <left> <condition> <right>` loop is read: its guard
/// operands and condition word, then its body from the following lines up to
/// the closing sentinel, by recursive descent one level deeper.
pub open spec fn parse_repeat_spec(
    lines: Seq<Seq<char>>,
    i: int,
    lw: Seq<char>,
    cw: Seq<char>,
    rw: Seq<char>,
    table: Seq<DataV>,
    depth: int,
) -> Result<(InstrV, int), TranslateError>
    decreases lines.len() - i, 0int,
{
    if depth >= MAX_NESTING {
        Err(TranslateError::NestingTooDeep)
    } else {
        match classify_spec(lw, table) {
            Err(e) => Err(e),
            Ok(l) => match condition_from_word(cw) {
                Err(e) => Err(e),
                Ok(c) => match classify_spec(rw, table) {
                    Err(e) => Err(e),
                    Ok(rv) => if i < 0 || i >= lines.len() {
                        Err(TranslateError::UnterminatedBlock)
                    } else {
                        match parse_block_spec(lines, i + 1, table, depth + 1) {
                            Err(e) => Err(e),
                            Ok(body) => Ok(
                                (
                                    InstrV::Repeat {
                                        left: l,
                                        condition: c,
                                        right: rv,
                                        insts: body.0,
                                    },
                                    body.1,
                                ),
                            ),
                        }
                    },
                },
            },
        }
    }
}

/// How a `perform` statement is read: only the `until` form is supported.
pub open spec fn parse_perform_spec(
    lines: Seq<Seq<char>>,
    i: int,
    ops: Seq<Seq<char>>,
    table: Seq<DataV>,
    depth: int,
) -> Result<(InstrV, int), TranslateError>
    decreases lines.len() - i, 1int,
{
    if ops.len() != 4 || ops[0] != "until"@ {
        Err(TranslateError::UnsupportedConstruct)
    } else {
        parse_repeat_spec(lines, i, ops[1], ops[2], ops[3], table, depth)
    }
}

/// How the statement on line `i` is read from its (period-stripped) words,
/// dispatched on the leading verb; the result carries the next line index.
pub open spec fn parse_statement_spec(
    lines: Seq<Seq<char>>,
    i: int,
    ws: Seq<Seq<char>>,
    table: Seq<DataV>,
    depth: int,
) -> Result<(InstrV, int), TranslateError>
    decreases lines.len() - i, 2int,
{
    if ws.len() == 0 {
        Err(TranslateError::UnknownVerb)
    } else {
        let verb = ws[0];
        if verb == "move"@ || verb == "add"@ || verb == "multiply"@ {
            match parse_infix_spec(verb, ws.subrange(1, ws.len() as int), table) {
                Err(e) => Err(e),
                Ok(iv) => Ok((iv, i + 1)),
            }
        } else if verb == "display"@ {
            match parse_print_spec(ws.subrange(1, ws.len() as int), table) {
                Err(e) => Err(e),
                Ok(vs) => Ok((InstrV::Print(vs), i + 1)),
            }
        } else if verb == "perform"@ {
            parse_perform_spec(lines, i, ws.subrange(1, ws.len() as int), table, depth)
        } else {
            Err(TranslateError::UnknownVerb)
        }
    }
}

/// How a statement sequence is read from line `i` on: blank lines are
/// skipped; at nesting depth zero the sequence runs to the end of input, and
/// inside a block it runs to a line carrying the closing sentinel, whose
/// absence is fatal. The result carries the index of the first unread line.
pub open spec fn parse_block_spec(
    lines: Seq<Seq<char>>,
    i: int,
    table: Seq<DataV>,
    depth: int,
) -> Result<(Seq<InstrV>, int), TranslateError>
    decreases lines.len() - i, 3int,
{
    if i < 0 || i >= lines.len() {
        if depth == 0 {
            Ok((Seq::empty(), i))
        } else {
            Err(TranslateError::UnterminatedBlock)
        }
    } else if depth > 0 && has_end_perform(lines[i]) {
        Ok((Seq::empty(), i + 1))
    } else if crate::text::all_spaces(lines[i]) {
        parse_block_spec(lines, i + 1, table, depth)
    } else {
        match split_words_spec(lines[i]) {
            Err(e) => Err(e),
            Ok(ws0) => match parse_statement_spec(lines, i, strip_period(ws0), table, depth) {
                Err(e) => Err(e),
                Ok(si) => if i < si.1 && si.1 <= lines.len() {
                    match parse_block_spec(lines, si.1, table, depth) {
                        Err(e) => Err(e),
                        Ok(r) => Ok((seq![si.0] + r.0, r.1)),
                    }
                } else {
                    Err(TranslateError::UnterminatedBlock)
                },
            },
        }
    }
}

/// How the whole executable block is read, line by line from its first line.
pub open spec fn parse_procedure_spec(txt: Seq<char>, table: Seq<DataV>) -> Result<
    Seq<InstrV>,
    TranslateError,
> {
    match parse_block_spec(crate::text::line_split(txt), 0, table, 0) {
        Err(e) => Err(e),
        Ok(p) => Ok(p.0),
    }
}

/// How a whole source text is read: the anchor phrases are located in order,
/// the symbol table is built from the data segment, and the executable
/// segment is read against it.
pub open spec fn parse_spec(contents: Seq<char>) -> Result<
    (Seq<DataV>, Seq<InstrV>),
    TranslateError,
> {
    match crate::text::split_on(contents, "procedure division."@) {
        None => Err(TranslateError::MissingSection),
        Some(p) => match crate::text::split_on(p.0, "data division."@) {
            None => Err(TranslateError::MissingSection),
            Some(d) => match parse_data_spec(d.1) {
                Err(e) => Err(e),
                Ok(table) => match parse_procedure_spec(p.1, table) {
                    Err(e) => Err(e),
                    Ok(instrs) => Ok((table, instrs)),
                },
            },
        },
    }
}

// ---------------------------------------------------------------------------
// the parser
// ---------------------------------------------------------------------------

/// The two-section parser: it owns the source text, builds the symbol table
/// from the declarations block, then reads the executable block against it.
pub struct Parser {
    pub contents: String,
    pub look_up: Vec<Data>,
}

impl Parser {
    /// A parser over the given (already lowercased) source text.
    pub fn new(contents: &str) -> (r: Self)
        ensures
            r.contents@ == contents@,
            r.look_up@.len() == 0,
    {
        Parser { contents: String::from_str(contents), look_up: Vec::new() }
    }

    /// Reads one declaration line into a `Data` record.
    pub fn parse_variable(&self, line: &str) -> (r: Result<Data, TranslateError>)
        ensures
            match r {
                Ok(d) => parse_variable_spec(line@) == Ok::<_, TranslateError>(d@),
                Err(e) => parse_variable_spec(line@) == Err::<DataV, _>(e),
            },
    {
        let words = match get_words(line) {
            Err(e) => {
                return Err(e);
            },
            Ok(ws) => ws,
        };
        if words.len() < 4 {
            return Err(TranslateError::UnsupportedConstruct);
        }
        let ghost wsv = crate::text::str_views(words@);
        proof {
            assert(wsv[0] == words@[0]@);
            assert(wsv[1] == words@[1]@);
            assert(wsv[2] == words@[2]@);
            assert(wsv[3] == words@[3]@);
        }
        let level = match crate::text::parse_i32(words[0].as_str()) {
            None => {
                return Err(TranslateError::MalformedLevel);
            },
            Some(lv) => lv,
        };
        if !crate::text::str_eq(words[2].as_str(), "pic") {
            return Err(TranslateError::UnsupportedConstruct);
        }
        match IdentifierType::parse_type(words[3].as_str()) {
            Err(e) => Err(e),
            Ok(t) => {
                let name = words[1].clone();
                Ok(Data { level, name, data_type: DataType::Picture(t) })
            },
        }
    }

    /// Reads every non-blank line of the declaration block, in order.
    pub fn parse_working_storage(&self, working_storage_lines: &Vec<String>) -> (r: Result<
        Vec<Data>,
        TranslateError,
    >)
        ensures
            match r {
                Ok(ds) => parse_storage_spec(crate::text::str_views(working_storage_lines@))
                    == Ok::<_, TranslateError>(datas_view(ds@)),
                Err(e) => parse_storage_spec(crate::text::str_views(working_storage_lines@))
                    == Err::<Seq<DataV>, _>(e),
            },
    {
        let ghost lv = crate::text::str_views(working_storage_lines@);
        let n = working_storage_lines.len();
        let mut out: Vec<Data> = Vec::new();
        let mut i: usize = 0;
        proof {
            assert(lv.subrange(0, n as int) =~= lv);
            match parse_storage_spec(lv) {
                Ok(ds) => {
                    assert(datas_view(out@) + ds =~= ds);
                },
                Err(e) => {},
            }
        }
        while i < n
            invariant
                0 <= i <= n,
                n == working_storage_lines@.len(),
                lv == crate::text::str_views(working_storage_lines@),
                lv.len() == n,
                parse_storage_spec(lv) == (match parse_storage_spec(
                    lv.subrange(i as int, n as int),
                ) {
                    Err(e) => Err::<Seq<DataV>, TranslateError>(e),
                    Ok(ds) => Ok(datas_view(out@) + ds),
                }),
            decreases n - i,
        {
            let suffix_len: usize = n - i;
            let ghost suf = lv.subrange(i as int, n as int);
            proof {
                assert(suf[0] == working_storage_lines@[i as int]@);
                assert(suf.subrange(1, suf.len() as int) =~= lv.subrange(i as int + 1, n as int));
            }
            if crate::text::is_blank(working_storage_lines[i].as_str()) {
                i += 1;
            } else {
                match self.parse_variable(working_storage_lines[i].as_str()) {
                    Err(e) => {
                        return Err(e);
                    },
                    Ok(d) => {
                        let ghost old_out = out@;
                        out.push(d);
                        proof {
                            assert(datas_view(out@) =~= datas_view(old_out) + seq![d@]);
                            match parse_storage_spec(lv.subrange(i as int + 1, n as int)) {
                                Err(e) => {},
                                Ok(ds) => {
                                    assert((datas_view(old_out) + seq![d@]) + ds =~= datas_view(
                                        old_out,
                                    ) + (seq![d@] + ds));
                                },
                            }
                        }
                        i += 1;
                    },
                }
            }
        }
        proof {
            assert(lv.subrange(n as int, n as int) =~= Seq::<Seq<char>>::empty());
            assert(datas_view(out@) + Seq::<DataV>::empty() =~= datas_view(out@));
        }
        Ok(out)
    }

    /// Reads one infix statement from its verb and operand words.
    pub fn generate_infix_instruction(&self, inst: &str, operands: &Vec<String>) -> (r: Result<
        Instruction,
        TranslateError,
    >)
        ensures
            match r {
                Ok(instr) => parse_infix_spec(
                    inst@,
                    crate::text::str_views(operands@),
                    datas_view(self.look_up@),
                ) == Ok::<_, TranslateError>(instr_view(instr)),
                Err(e) => parse_infix_spec(
                    inst@,
                    crate::text::str_views(operands@),
                    datas_view(self.look_up@),
                ) == Err::<InstrV, _>(e),
            },
    {
        let ghost ops = crate::text::str_views(operands@);
        if operands.len() != 3 {
            return Err(TranslateError::UnsupportedConstruct);
        }
        proof {
            assert(ops[0] == operands@[0]@);
            assert(ops[1] == operands@[1]@);
            assert(ops[2] == operands@[2]@);
        }
        let mid_to = crate::text::str_eq(operands[1].as_str(), "to");
        let mid_by = crate::text::str_eq(operands[1].as_str(), "by");
        if !(mid_to || mid_by) {
            return Err(TranslateError::UnsupportedConstruct);
        }
        let dest = operands[2].as_str();
        match look_up_type(&self.look_up, dest) {
            None => Err(TranslateError::UndeclaredIdentifier),
            Some(DataType::Other) => Err(TranslateError::UnsupportedConstruct),
            Some(DataType::Picture(t)) => {
                match Value::derive(operands[0].as_str(), &self.look_up) {
                    Err(e) => Err(e),
                    Ok(src) => {
                        let infix = Infix { left: src, right: Ident::new(dest, t) };
                        if crate::text::str_eq(inst, "move") {
                            Ok(Instruction::Move(infix))
                        } else if crate::text::str_eq(inst, "add") {
                            Ok(Instruction::Add(infix))
                        } else {
                            Ok(Instruction::Multiply(infix))
                        }
                    },
                }
            },
        }
    }

    /// Reads a display statement: every operand word becomes one printed value.
    pub fn generate_print(&self, operands: &Vec<String>) -> (r: Result<Instruction, TranslateError>)
        ensures
            match r {
                Ok(instr) => parse_print_spec(
                    crate::text::str_views(operands@),
                    datas_view(self.look_up@),
                ) matches Ok(vs) && instr_view(instr) == InstrV::Print(vs),
                Err(e) => parse_print_spec(
                    crate::text::str_views(operands@),
                    datas_view(self.look_up@),
                ) == Err::<Seq<ValueV>, _>(e),
            },
    {
        let ghost ops = crate::text::str_views(operands@);
        let ghost tv = datas_view(self.look_up@);
        let n = operands.len();
        let mut values: Vec<Value> = Vec::new();
        let mut k: usize = 0;
        proof {
            assert(ops.subrange(0, n as int) =~= ops);
            match parse_print_spec(ops, tv) {
                Ok(vs) => {
                    assert(values_view(values@) + vs =~= vs);
                },
                Err(e) => {},
            }
        }
        while k < n
            invariant
                0 <= k <= n,
                n == operands@.len(),
                ops == crate::text::str_views(operands@),
                tv == datas_view(self.look_up@),
                parse_print_spec(ops, tv) == (match parse_print_spec(
                    ops.subrange(k as int, n as int),
                    tv,
                ) {
                    Err(e) => Err::<Seq<ValueV>, TranslateError>(e),
                    Ok(vs) => Ok(values_view(values@) + vs),
                }),
            decreases n - k,
        {
            let ghost suf = ops.subrange(k as int, n as int);
            proof {
                assert(suf[0] == operands@[k as int]@);
                assert(suf.subrange(1, suf.len() as int) =~= ops.subrange(k as int + 1, n as int));
            }
            match Value::derive(operands[k].as_str(), &self.look_up) {
                Err(e) => {
                    return Err(e);
                },
                Ok(v) => {
                    let ghost old_values = values@;
                    let ghost gv = v;
                    values.push(v);
                    proof {
                        assert(values_view(values@) =~= values_view(old_values) + seq![gv@]);
                        match parse_print_spec(ops.subrange(k as int + 1, n as int), tv) {
                            Err(e) => {},
                            Ok(vs) => {
                                assert((values_view(old_values) + seq![gv@]) + vs =~= values_view(
                                    old_values,
                                ) + (seq![gv@] + vs));
                            },
                        }
                    }
                    k += 1;
                },
            }
        }
        proof {
            assert(ops.subrange(n as int, n as int) =~= Seq::<Seq<char>>::empty());
            match parse_print_spec(ops, tv) {
                Ok(vs) => {
                    assert(values_view(values@) + Seq::<ValueV>::empty() =~= values_view(
                        values@,
                    ));
                },
                Err(e) => {},
            }
        }
        Ok(Instruction::Print(values))
    }

    /// Reads a `perform until` loop: its guard, then its nested body from the
    /// following lines up to the closing sentinel.
    pub fn generate_repeat(
        &self,
        lines: &Vec<String>,
        i: usize,
        left_w: &str,
        cond_w: &str,
        right_w: &str,
        depth: usize,
    ) -> (r: Result<(Instruction, usize), TranslateError>)
        requires
            i < lines@.len(),
        ensures
            match r {
                Ok(p) => parse_repeat_spec(
                    crate::text::str_views(lines@),
                    i as int,
                    left_w@,
                    cond_w@,
                    right_w@,
                    datas_view(self.look_up@),
                    depth as int,
                ) == Ok::<_, TranslateError>((instr_view(p.0), p.1 as int)) && i < p.1
                    <= lines@.len(),
                Err(e) => parse_repeat_spec(
                    crate::text::str_views(lines@),
                    i as int,
                    left_w@,
                    cond_w@,
                    right_w@,
                    datas_view(self.look_up@),
                    depth as int,
                ) == Err::<(InstrV, int), _>(e),
            },
        decreases lines@.len() - i, 0int,
    {
        if depth >= MAX_NESTING {
            return Err(TranslateError::NestingTooDeep);
        }
        let left = match Value::derive(left_w, &self.look_up) {
            Err(e) => {
                return Err(e);
            },
            Ok(v) => v,
        };
        let condition = match Condition::derive(cond_w) {
            Err(e) => {
                return Err(e);
            },
            Ok(c) => c,
        };
        let right = match Value::derive(right_w, &self.look_up) {
            Err(e) => {
                return Err(e);
            },
            Ok(v) => v,
        };
        let n = lines.len();
        match self.generate_block(lines, i + 1, depth + 1) {
            Err(e) => Err(e),
            Ok(p) => {
                let (insts, j) = p;
                let ghost gl = left;
                let ghost gc = condition;
                let ghost gr = right;
                let ghost gi = insts;
                let instr = Instruction::Repeat { left, condition, right, insts };
                proof {
                    lemma_repeat_view(gl, gc, gr, gi);
                }
                Ok((instr, j))
            },
        }
    }

    /// Reads a `perform` statement; only the `until` form is supported.
    pub fn generate_perform(
        &self,
        lines: &Vec<String>,
        i: usize,
        operands: &Vec<String>,
        depth: usize,
    ) -> (r: Result<(Instruction, usize), TranslateError>)
        requires
            i < lines@.len(),
        ensures
            match r {
                Ok(p) => parse_perform_spec(
                    crate::text::str_views(lines@),
                    i as int,
                    crate::text::str_views(operands@),
                    datas_view(self.look_up@),
                    depth as int,
                ) == Ok::<_, TranslateError>((instr_view(p.0), p.1 as int)) && i < p.1
                    <= lines@.len(),
                Err(e) => parse_perform_spec(
                    crate::text::str_views(lines@),
                    i as int,
                    crate::text::str_views(operands@),
                    datas_view(self.look_up@),
                    depth as int,
                ) == Err::<(InstrV, int), _>(e),
            },
        decreases lines@.len() - i, 1int,
    {
        let ghost ops = crate::text::str_views(operands@);
        if operands.len() != 4 {
            return Err(TranslateError::UnsupportedConstruct);
        }
        proof {
            assert(ops[0] == operands@[0]@);
            assert(ops[1] == operands@[1]@);
            assert(ops[2] == operands@[2]@);
            assert(ops[3] == operands@[3]@);
        }
        if !crate::text::str_eq(operands[0].as_str(), "until") {
            return Err(TranslateError::UnsupportedConstruct);
        }
        self.generate_repeat(
            lines,
            i,
            operands[1].as_str(),
            operands[2].as_str(),
            operands[3].as_str(),
            depth,
        )
    }

    /// Reads the statement on line `i` from its words, dispatching on the verb.
    pub fn generate_instruction(
        &self,
        lines: &Vec<String>,
        i: usize,
        words: &Vec<String>,
        depth: usize,
    ) -> (r: Result<(Instruction, usize), TranslateError>)
        requires
            i < lines@.len(),
        ensures
            match r {
                Ok(p) => parse_statement_spec(
                    crate::text::str_views(lines@),
                    i as int,
                    crate::text::str_views(words@),
                    datas_view(self.look_up@),
                    depth as int,
                ) == Ok::<_, TranslateError>((instr_view(p.0), p.1 as int)) && i < p.1
                    <= lines@.len(),
                Err(e) => parse_statement_spec(
                    crate::text::str_views(lines@),
                    i as int,
                    crate::text::str_views(words@),
                    datas_view(self.look_up@),
                    depth as int,
                ) == Err::<(InstrV, int), _>(e),
            },
        decreases lines@.len() - i, 2int,
    {
        let ghost ws = crate::text::str_views(words@);
        if words.len() == 0 {
            return Err(TranslateError::UnknownVerb);
        }
        proof {
            assert(ws[0] == words@[0]@);
        }
        let wn = words.len();
        let mut operands: Vec<String> = Vec::new();
        let mut k: usize = 1;
        while k < wn
            invariant
                1 <= k <= wn,
                wn == words@.len(),
                operands@.len() == k - 1,
                forall|j: int| 0 <= j < k - 1 ==> operands@[j]@ == words@[j + 1]@,
            decreases wn - k,
        {
            let w = words[k].clone();
            operands.push(w);
            k += 1;
        }
        proof {
            assert(crate::text::str_views(operands@) =~= ws.subrange(1, ws.len() as int));
        }
        let verb = words[0].as_str();
        let is_move = crate::text::str_eq(verb, "move");
        let is_add = crate::text::str_eq(verb, "add");
        let is_mul = crate::text::str_eq(verb, "multiply");
        let n = lines.len();
        if is_move || is_add || is_mul {
            match self.generate_infix_instruction(verb, &operands) {
                Err(e) => Err(e),
                Ok(instr) => Ok((instr, i + 1)),
            }
        } else if crate::text::str_eq(verb, "display") {
            match self.generate_print(&operands) {
                Err(e) => Err(e),
                Ok(instr) => Ok((instr, i + 1)),
            }
        } else if crate::text::str_eq(verb, "perform") {
            self.generate_perform(lines, i, &operands, depth)
        } else {
            Err(TranslateError::UnknownVerb)
        }
    }

    /// Reads a statement sequence from line `start` on, to the end of input
    /// at depth zero or to the closing sentinel inside a block.
    pub fn generate_block(&self, lines: &Vec<String>, start: usize, depth: usize) -> (r: Result<
        (Vec<Instruction>, usize),
        TranslateError,
    >)
        requires
            start <= lines@.len(),
        ensures
            match r {
                Ok(p) => parse_block_spec(
                    crate::text::str_views(lines@),
                    start as int,
                    datas_view(self.look_up@),
                    depth as int,
                ) == Ok::<_, TranslateError>((instrs_view(p.0@), p.1 as int)) && start <= p.1
                    <= lines@.len() && (depth > 0 ==> p.1 > start),
                Err(e) => parse_block_spec(
                    crate::text::str_views(lines@),
                    start as int,
                    datas_view(self.look_up@),
                    depth as int,
                ) == Err::<(Seq<InstrV>, int), _>(e),
            },
        decreases lines@.len() - start, 3int,
    {
        let ghost lv = crate::text::str_views(lines@);
        let ghost tv = datas_view(self.look_up@);
        let n = lines.len();
        let mut out: Vec<Instruction> = Vec::new();
        let mut cur: usize = start;
        proof {
            assert(instrs_view(out@) =~= Seq::<InstrV>::empty());
            match parse_block_spec(lv, start as int, tv, depth as int) {
                Ok(r2) => {
                    assert(instrs_view(out@) + r2.0 =~= r2.0);
                },
                Err(e) => {},
            }
        }
        while cur < n
            invariant
                start <= cur <= n,
                n == lines@.len(),
                lv == crate::text::str_views(lines@),
                tv == datas_view(self.look_up@),
                lv.len() == n,
                parse_block_spec(lv, start as int, tv, depth as int) == (match parse_block_spec(
                    lv,
                    cur as int,
                    tv,
                    depth as int,
                ) {
                    Err(e) => Err::<(Seq<InstrV>, int), TranslateError>(e),
                    Ok(r2) => Ok((instrs_view(out@) + r2.0, r2.1)),
                }),
            decreases n - cur,
        {
            proof {
                assert(lv[cur as int] == lines@[cur as int]@);
            }
            let mut at_end: bool = false;
            if depth > 0 {
                match crate::text::str_find_sub(lines[cur].as_str(), "end-perform.") {
                    Some(_) => {
                        at_end = true;
                    },
                    None => {},
                }
            }
            if at_end {
                proof {
                    match parse_block_spec(lv, cur as int + 1, tv, depth as int) {
                        Ok(r2) => {},
                        Err(e) => {},
                    }
                    assert(instrs_view(out@) + Seq::<InstrV>::empty() =~= instrs_view(out@));
                }
                return Ok((out, cur + 1));
            }
            if crate::text::is_blank(lines[cur].as_str()) {
                cur += 1;
            } else {
                let mut words = match walk_line(lines[cur].as_str()) {
                    Err(e) => {
                        return Err(e);
                    },
                    Ok(ws) => ws,
                };
                let ghost ws0 = crate::text::str_views(words@);
                let wn = words.len();
                if wn > 0 {
                    let ll = words[wn - 1].unicode_len();
                    if ll > 0 {
                        let lastc = words[wn - 1].as_str().get_char(ll - 1);
                        if lastc == '.' {
                            let shortened = String::from_str(
                                words[wn - 1].as_str().substring_char(0, ll - 1),
                            );
                            let idx = wn - 1;
                            words.set(idx, shortened);
                        }
                    }
                }
                proof {
                    assert(crate::text::str_views(words@) =~= strip_period(ws0));
                }
                match self.generate_instruction(lines, cur, &words, depth) {
                    Err(e) => {
                        return Err(e);
                    },
                    Ok(p) => {
                        let (instr, j) = p;
                        let ghost gi = instr;
                        let ghost old_out = out@;
                        out.push(instr);
                        proof {
                            assert(instrs_view(out@) =~= instrs_view(old_out) + seq![
                                instr_view(gi),
                            ]);
                            match parse_block_spec(lv, j as int, tv, depth as int) {
                                Ok(r2) => {
                                    assert((instrs_view(old_out) + seq![instr_view(gi)]) + r2.0
                                        =~= instrs_view(old_out) + (seq![instr_view(gi)] + r2.0));
                                },
                                Err(e) => {},
                            }
                        }
                        cur = j;
                    },
                }
            }
        }
        if depth == 0 {
            proof {
                assert(instrs_view(out@) + Seq::<InstrV>::empty() =~= instrs_view(out@));
            }
            Ok((out, cur))
        } else {
            Err(TranslateError::UnterminatedBlock)
        }
    }

    /// Reads the whole executable block, line by line.
    pub fn parse_procedure(&self, procedure: &str) -> (r: Result<Vec<Instruction>, TranslateError>)
        ensures
            match r {
                Ok(is) => parse_procedure_spec(procedure@, datas_view(self.look_up@)) == Ok::<
                    _,
                    TranslateError,
                >(instrs_view(is@)),
                Err(e) => parse_procedure_spec(procedure@, datas_view(self.look_up@)) == Err::<
                    Seq<InstrV>,
                    _,
                >(e),
            },
    {
        let lines = crate::text::split_lines(procedure);
        proof {
            assert(crate::text::str_views(lines@) =~= crate::text::line_split(procedure@));
        }
        match self.generate_block(&lines, 0, 0) {
            Err(e) => Err(e),
            Ok(p) => Ok(p.0),
        }
    }

    /// Parses the whole source: locates the anchors, builds the symbol table
    /// from the declarations block, then reads the executable block against
    /// it. Returns the table and the instruction tree.
    pub fn parse(self) -> (r: Result<(Vec<Data>, Vec<Instruction>), TranslateError>)
        ensures
            match r {
                Ok(p) => parse_spec(self.contents@) == Ok::<_, TranslateError>(
                    (datas_view(p.0@), instrs_view(p.1@)),
                ),
                Err(e) => parse_spec(self.contents@) == Err::<(Seq<DataV>, Seq<InstrV>), _>(e),
            },
    {
        let sp = match crate::text::str_split_on(self.contents.as_str(), "procedure division.") {
            None => {
                return Err(TranslateError::MissingSection);
            },
            Some(p) => p,
        };
        let (before, procedure) = sp;
        let dp = match crate::text::str_split_on(before.as_str(), "data division.") {
            None => {
                return Err(TranslateError::MissingSection);
            },
            Some(p) => p,
        };
        let variables = match self.parse_data(dp.1.as_str()) {
            Err(e) => {
                return Err(e);
            },
            Ok(v) => v,
        };
        let resolver = Parser { contents: String::new(), look_up: variables };
        let instructions = match resolver.parse_procedure(procedure.as_str()) {
            Err(e) => {
                return Err(e);
            },
            Ok(is) => is,
        };
        Ok((resolver.look_up, instructions))
    }

    /// Splits the data segment at the working-storage anchor and reads the
    /// declarations after it.
    pub fn parse_data(&self, data_segment: &str) -> (r: Result<Vec<Data>, TranslateError>)
        ensures
            match r {
                Ok(ds) => parse_data_spec(data_segment@) == Ok::<_, TranslateError>(
                    datas_view(ds@),
                ),
                Err(e) => parse_data_spec(data_segment@) == Err::<Seq<DataV>, _>(e),
            },
    {
        match crate::text::str_split_on(data_segment, "working-storage section.") {
            None => Err(TranslateError::MissingSection),
            Some(p) => {
                let lines = crate::text::split_lines(p.1.as_str());
                proof {
                    assert(crate::text::str_views(lines@) =~= crate::text::line_split(p.1@));
                }
                self.parse_working_storage(&lines)
            },
        }
    }
}

} // verus!
