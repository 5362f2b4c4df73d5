use vstd::prelude::*;
use crate::input::{ExtractError, InputMap, Real, Statement, extract};
use crate::input::Argument::{Float, Int, NotConstant, OtherConstant};
use crate::input::BoundValue::{Call, NotCall};
use crate::input::Statement::{Let, Other};
use rhai::{Engine, Expr::FnCall, Stmt::Var};

verus! {

#[verifier::external_type_specification]
#[verifier::external_body]
pub struct ExParseError(rhai::ParseError);

/// The top-level statements of a script as rhai's parser reads them, as
/// far as input extraction needs; nothing if the parser rejects the
/// script. It depends on the script text alone.
pub uninterp spec fn parsed_statements(script: Seq<char>) -> Option<Seq<Statement>>;

/// Relies on `rhai::Engine::compile` and `rhai::AST::statements`: the
/// script's top-level statements, each `rhai::Stmt::Var` with its name and
/// initial value (an `rhai::Expr::FnCall` with its name and arguments), and
/// each argument's `get_literal_value` told apart by `Dynamic`'s
/// `as_int` / `as_float`; the parser's error if it rejects the script.
#[verifier::external_body]
fn parse_statements(script: &str) -> (r: Result<Vec<Statement>, rhai::ParseError>)
    ensures
        match parsed_statements(script@) {
            Some(st) => r matches Ok(v) && v@ == st,
            None => r is Err,
        },
{
    Ok(Engine::new().compile(script)?.statements().iter().map(|s| match s {
        Var(x, ..) => Let { name: x.0.name.to_string(), value: match &x.1 {
            FnCall(c, ..) => Call { function: c.name.to_string(), args: c.args.iter().map(|a| match a
                .get_literal_value(None).map(|v| (v.as_int(), v.as_float())) {
                Some((Ok(n), _)) => Int(n),
                Some((_, Ok(f))) => Float(Real { bits: f.to_bits() }),
                None => NotConstant,
                _ => OtherConstant,
            }).collect() },
            _ => NotCall,
        } },
        _ => Other,
    }).collect())
}

/// Relies on `rhai::ParseError`'s `Display`: the parser's message.
#[verifier::external_body]
fn parse_error_message(e: &rhai::ParseError) -> (r: String) {
    e.to_string()
}

/// The top-level statements of a script, as input extraction reads them;
/// the engine's message if the script does not compile.
pub fn statements_of(script: &str) -> (r: Result<Vec<Statement>, ExtractError>)
    ensures
        match parsed_statements(script@) {
            Some(st) => r matches Ok(v) && v@ == st,
            None => r matches Err(ExtractError::Compile(_)),
        },
{
    match parse_statements(script) {
        Ok(stmts) => Ok(stmts),
        Err(e) => Err(ExtractError::Compile(parse_error_message(&e))),
    }
}

impl InputMap {
    /// The inputs a script declares with top-level `let <name> =
    /// extern(<min>, <max>)` bindings. A script the engine rejects gives
    /// the engine's message.
    pub fn try_from_script(script: &str) -> (r: Result<InputMap, ExtractError>)
        ensures
            parsed_statements(script@) is None ==> r matches Err(ExtractError::Compile(_)),
            parsed_statements(script@) matches Some(st) ==> match extract(st) {
                Ok(m) => r matches Ok(im) && im.wf() && im@ == m,
                Err(e) => r == Err::<InputMap, ExtractError>(e),
            },
    {
        match statements_of(script) {
            Ok(stmts) => InputMap::from_statements(&stmts),
            Err(e) => Err(e),
        }
    }
}

} // verus!
