use ccompiler::frontend::c_ast::{BlockItem, Declaration, Expression, FunDecl, Program, Statement};
use ccompiler::frontend::parser::Parser;
use ccompiler::frontend::resolve_ident::IdentifierResolver;
use ccompiler::lexer::Lexer;
use ccompiler::UniqueNameGenerator;

/// The `i`-th function declaration of a program.
fn function_at(p: &Program, i: usize) -> &FunDecl {
    p.declarations
        .iter()
        .filter_map(|d| match d {
            Declaration::Fun(f) => Some(f),
            Declaration::Variable(_) => None,
        })
        .nth(i)
        .expect("no such function")
}


/// Runs the lexer, the parser and the resolver on a piece of C source.
fn run_resolver_on_string(c_code: &str) -> Result<Program, String> {
    let tokens = Lexer::new().lex(c_code)?;
    let ast = Parser::new(tokens).parse()?;
    let mut name_gen = UniqueNameGenerator::new();
    let mut resolver = IdentifierResolver::new(&mut name_gen);
    resolver.resolve_program(&ast)
}

#[test]
fn test_simple_variable_resolution() {
    let result = run_resolver_on_string("int main() { int a = 1; return a; }");
    assert!(result.is_ok(), "Should resolve successfully, but failed: {:?}", result);

    let resolved_ast = result.unwrap();
    let main_func = function_at(&resolved_ast, 0);
    let body = main_func.body.as_ref().unwrap();

    let mangled_name = if let BlockItem::D(Declaration::Variable(var_decl)) = &body.0[0] {
        assert_ne!(var_decl.name, "a", "Variable 'a' should have been mangled.");
        var_decl.name.clone()
    } else {
        panic!("Expected a variable declaration as the first block item.");
    };

    if let BlockItem::S(Statement::Return(Expression::Var(var_name))) = &body.0[1] {
        assert_eq!(*var_name, mangled_name, "The returned variable should use the mangled name.");
    } else {
        panic!("Expected a return statement as the second block item.");
    }
}

#[test]
fn test_scope_shadowing() {
    let result = run_resolver_on_string("int main() { int a = 1; { int a = 2; } return a; }");
    assert!(result.is_ok(), "Shadowing should be allowed, but failed: {:?}", result);

    let resolved_ast = result.unwrap();
    let main_func = function_at(&resolved_ast, 0);
    let main_body = main_func.body.as_ref().unwrap();

    let outer_a_mangled_name = if let BlockItem::D(Declaration::Variable(var_decl)) = &main_body.0[0] {
        var_decl.name.clone()
    } else {
        panic!("Expected outer variable declaration.");
    };

    let returned_var_name = if let BlockItem::S(Statement::Return(Expression::Var(var_name))) = &main_body.0[2] {
        var_name.clone()
    } else {
        panic!("Expected return statement.");
    };

    assert_eq!(outer_a_mangled_name, returned_var_name, "Return statement should refer to the outer 'a'.");
}

#[test]
fn test_legal_function_redeclaration() {
    let code = "int foo(); int foo(); int main() { return foo(); }";
    let result = run_resolver_on_string(code);
    assert!(result.is_ok(), "Legal function redeclaration should not cause an error, but got: {:?}", result);
}

#[test]
fn test_error_on_duplicate_variable_in_same_scope() {
    let result = run_resolver_on_string("int main() { int a; int a; }");
    assert!(result.is_err());
    assert!(result.unwrap_err().contains("Duplicate declaration of variable 'a'"));
}

#[test]
fn test_error_on_duplicate_parameter_and_variable() {
    let result = run_resolver_on_string("int foo(int a) { int a = 5; return a; }");
    assert!(result.is_err(), "Expected an error for duplicate declarations, but got Ok.");
    assert!(
        result.unwrap_err().contains("Duplicate declaration of variable 'a' in the same scope."),
        "Error message was not as expected."
    );
}

#[test]
fn test_error_on_function_shadowing_variable() {
    let result = run_resolver_on_string("int main() { int foo; int foo(); }");
    assert!(result.is_err());
    assert!(result.unwrap_err().contains("Redeclaration of 'foo' as a different kind of symbol"));
}

#[test]
fn test_error_on_variable_shadowing_function() {
    let result = run_resolver_on_string("int main() { int foo(); int foo; }");
    assert!(result.is_err());
    assert!(result.unwrap_err().contains("Duplicate declaration of variable 'foo'"));
}

#[test]
fn test_error_on_duplicate_parameter_name() {
    let result = run_resolver_on_string("int add(int x, int x) { return 1; }");
    assert!(result.is_err());
    assert!(result.unwrap_err().contains("Duplicate parameter name 'x'"));
}

#[test]
fn test_error_on_undeclared_variable() {
    let result = run_resolver_on_string("int main() { return x; }");
    assert!(result.is_err());
    assert!(result.unwrap_err().contains("Use of undeclared identifier 'x'"));
}

#[test]
fn test_error_on_undeclared_function_call() {
    let result = run_resolver_on_string("int main() { return foo(); }");
    assert!(result.is_err());
    assert!(result.unwrap_err().contains("Call to undeclared function 'foo'"));
}

#[test]
fn test_error_on_nested_function_definition() {
    let result = run_resolver_on_string("int main() { int bar() { return 1; } }");
    assert!(result.is_err());
    assert!(result.unwrap_err().contains("Nested function definitions are not allowed"));
}

#[test]
fn test_error_on_calling_a_variable() {
    let result = run_resolver_on_string("int main() { int x = 10; return x(); }");
    assert!(result.is_err(), "Expected an error for calling a variable, but got Ok.");
    assert!(
        result.unwrap_err().contains("Called object 'x' is not a function."),
        "Error message was not as expected."
    );
}

#[test]
fn for_variable_scope_ends_with_the_loop() {
    let result = run_resolver_on_string("int main(void) { for (int i = 0; i < 3; i = i + 1) ; return i; }");
    assert_eq!(result.unwrap_err(), "Semantic Error: Use of undeclared identifier 'i'.");
}

#[test]
fn outer_name_visible_again_after_a_for_loop() {
    let result = run_resolver_on_string(
        "int main(void) { int i = 5; for (int i = 0; i < 3; i = i + 1) ; return i; }",
    )
    .unwrap();
    let body = &function_at(&result, 0).body.as_ref().unwrap().0;
    let outer = match &body[0] {
        BlockItem::D(Declaration::Variable(v)) => v.name.clone(),
        other => panic!("expected a declaration, got {:?}", other),
    };
    match &body[2] {
        BlockItem::S(Statement::Return(Expression::Var(n))) => assert_eq!(*n, outer),
        other => panic!("expected a return, got {:?}", other),
    }
}
