use vstd::prelude::*;

pub mod lexer;
pub mod machine;
pub mod parser;
pub mod text;
pub mod translate;

verus! {

/// The faults that abort a translation. Every kind is fatal: the whole run
/// fails and no output is produced. `IoError` stands for a failed read or
/// write at the boundary; the parsing and translation passes never raise it.
#[derive(Clone, Copy, Debug, PartialEq, Eq, Structural)]
pub enum TranslateError {
    /// One of the three anchor phrases is absent from the source.
    MissingSection,
    /// The first word of a declaration line is not an integer level number.
    MalformedLevel,
    /// A data keyword, picture code or statement shape that is not supported.
    UnsupportedConstruct,
    /// A parenthesized width specifier that is empty, non-numeric, zero or unterminated.
    MalformedPicture,
    /// A statement line starting with an unrecognized verb.
    UnknownVerb,
    /// An infix destination or operand identifier that is not declared.
    UndeclaredIdentifier,
    /// A `perform until` condition word other than `greater`, `less`, `equal`.
    UnknownCondition,
    /// A `perform until` block with no `end-perform.` line before end of input.
    UnterminatedBlock,
    /// A quoted literal with no closing quote on its line.
    UnterminatedLiteral,
    /// `perform` blocks nested beyond the fixed depth cap.
    NestingTooDeep,
    /// A failed read or write at the input/output boundary.
    IoError,
}

/// What a whole translation yields: the source parsed against its symbol
/// table, then rendered as one generated program.
pub open spec fn compile_spec(source: Seq<char>) -> Result<Seq<char>, TranslateError> {
    match crate::parser::parse_spec(source) {
        Err(e) => Err(e),
        Ok(p) => crate::translate::translate_spec(p.0, p.1),
    }
}

/// Translates one (already lowercased) source text into the generated
/// program's text; fatal faults abort the whole run with their kind and no
/// partial output.
pub fn compile(source: &str) -> (r: Result<String, TranslateError>)
    ensures
        match r {
            Ok(s) => compile_spec(source@) == Ok::<_, TranslateError>(s@),
            Err(e) => compile_spec(source@) == Err::<Seq<char>, _>(e),
        },
{
    let parser = crate::parser::Parser::new(source);
    match parser.parse() {
        Err(e) => Err(e),
        Ok(p) => {
            let (data, ast) = p;
            crate::translate::translate(data, ast)
        },
    }
}

} // verus!
