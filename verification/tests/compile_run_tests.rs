use tinylang::codegen::SemanticError;
use tinylang::ir::{Program, RuntimeError};
use tinylang::parser::code_parser;

const GAS: u64 = 1_000_000;

fn compile(src: &str) -> Result<Program, SemanticError> {
    code_parser(src).unwrap().codegen()
}

fn run_main(src: &str) -> Result<i64, RuntimeError> {
    let p = compile(src).unwrap();
    let f = p.find_fn("main").unwrap();
    p.run(f, vec![], GAS)
}

#[test]
fn arity_mismatch_is_rejected() {
    let err = compile("fn f(a,b){a+b} fn main(){f(1)}").unwrap_err();
    assert_eq!(err, SemanticError::ArityMismatch);
}

#[test]
fn unresolved_identifier_is_rejected() {
    let err = compile("fn f(){x}").unwrap_err();
    assert_eq!(err, SemanticError::UnresolvedIdentifier);
}

#[test]
fn unresolved_function_is_rejected() {
    let err = compile("fn main(){nope()}").unwrap_err();
    assert_eq!(err, SemanticError::UnresolvedFunction);
}

#[test]
fn duplicate_function_is_rejected() {
    let err = compile("fn f(){1} fn f(){2} fn main(){f()}").unwrap_err();
    assert_eq!(err, SemanticError::DuplicateFunction);
}

#[test]
fn duplicate_parameter_is_rejected() {
    let err = compile("fn f(a,a){a} fn main(){f(1,2)}").unwrap_err();
    assert_eq!(err, SemanticError::DuplicateParameter);
}

#[test]
fn lowered_program_keeps_names_and_arities() {
    let p = compile("fn add(a,b){a+b} fn main(){add(1,2)}").unwrap();
    assert_eq!(p.funcs.len(), 2);
    assert_eq!(p.funcs[0].name, "add");
    assert_eq!(p.funcs[0].n_params, 2);
    assert_eq!(p.funcs[1].name, "main");
    assert_eq!(p.funcs[1].n_params, 0);
}

#[test]
fn conditional_takes_then_branch() {
    assert_eq!(run_main("fn main(){if 3>2 {10} else {20}}").unwrap(), 10);
}

#[test]
fn conditional_takes_else_branch() {
    assert_eq!(run_main("fn main(){if 1<0 {10} else {20}}").unwrap(), 20);
}

#[test]
fn forward_reference_resolves() {
    assert_eq!(run_main("fn main(){helper()} fn helper(){42}").unwrap(), 42);
}

#[test]
fn division_truncates() {
    assert_eq!(run_main("fn main(){10/3}").unwrap(), 3);
}

#[test]
fn division_by_zero_fails_at_run_time() {
    let err = run_main("fn main(){10/0}").unwrap_err();
    assert_eq!(err, RuntimeError::DivisionByZero);
}

#[test]
fn division_truncates_toward_zero_for_negatives() {
    assert_eq!(run_main("fn main(){(0-7)/2}").unwrap(), -3);
}

#[test]
fn comparison_widens_to_one_or_zero() {
    assert_eq!(run_main("fn main(){3>2}").unwrap(), 1);
    assert_eq!(run_main("fn main(){2>3}").unwrap(), 0);
}

#[test]
fn arithmetic_and_calls_evaluate() {
    assert_eq!(run_main("fn main(){1+2*3}").unwrap(), 7);
    assert_eq!(run_main("fn main(){(1+2)*3}").unwrap(), 9);
    assert_eq!(run_main("fn main(){--5}").unwrap(), 5);
    assert_eq!(
        run_main("fn sq(x){x*x} fn main(){sq(3)+sq(4)}").unwrap(),
        25
    );
}

#[test]
fn arguments_pass_in_textual_order() {
    assert_eq!(run_main("fn f(a,b){a-b} fn main(){f(10,3)}").unwrap(), 7);
}

#[test]
fn recursion_runs_out_of_gas() {
    let p = compile("fn main(){main()}").unwrap();
    let f = p.find_fn("main").unwrap();
    let err = p.run(f, vec![], 1000).unwrap_err();
    assert_eq!(err, RuntimeError::OutOfGas);
}

#[test]
fn nested_conditionals() {
    assert_eq!(
        run_main("fn main(){if 1>0 {if 0>1 {1} else {2}} else {3}}").unwrap(),
        2
    );
}
