use ccompiler::frontend::c_ast::{Declaration, Expression, FunDecl, StorageClass, VarDecl};
use ccompiler::frontend::type_checking::{CType, IdentifierAttrs, InitValue, SymbolInfo, TypeChecker};

fn var(name: &str, init: Option<i64>, storage_class: Option<StorageClass>) -> Declaration {
    Declaration::Variable(VarDecl {
        name: name.to_string(),
        init: init.map(Expression::Constant),
        storage_class,
    })
}

#[test]
fn tentative_definition_merges_with_initialized_one() {
    let decls = vec![var("x", None, None), var("x", Some(3), None)];
    let table = TypeChecker::new().typecheck_declarations(&decls).unwrap();
    assert_eq!(
        table.get(&"x".to_string()),
        Some(SymbolInfo {
            tpye: CType::Int,
            identifier_attrs: IdentifierAttrs::StaticAttr { init_value: InitValue::Initial(3), global: true },
        })
    );
    assert!(table.insertions().iter().all(|(n, _)| n == "x"));
}

#[test]
fn two_initialized_definitions_conflict() {
    let decls = vec![var("x", Some(1), None), var("x", Some(2), None)];
    let err = TypeChecker::new().typecheck_declarations(&decls).unwrap_err();
    assert_eq!(err, "文件作用域变量定义冲突");
}

#[test]
fn static_then_plain_definition_conflicts_in_linkage() {
    let decls = vec![var("y", None, Some(StorageClass::Static)), var("y", None, None)];
    let err = TypeChecker::new().typecheck_declarations(&decls).unwrap_err();
    assert_eq!(err, "变量链接冲突");
}

#[test]
fn extern_declaration_alone_has_no_initializer() {
    let decls = vec![var("z", None, Some(StorageClass::Extern))];
    let table = TypeChecker::new().typecheck_declarations(&decls).unwrap();
    assert_eq!(
        table.get(&"z".to_string()),
        Some(SymbolInfo {
            tpye: CType::Int,
            identifier_attrs: IdentifierAttrs::StaticAttr { init_value: InitValue::NoInitalizer, global: true },
        })
    );
}

#[test]
fn function_redeclared_as_variable() {
    let f = Declaration::Fun(FunDecl {
        name: "f".to_string(),
        parameters: vec![],
        body: None,
        storage_class: None,
    });
    let decls = vec![f, var("f", None, None)];
    let err = TypeChecker::new().typecheck_declarations(&decls).unwrap_err();
    assert_eq!(err, "函数 'f' 被重新声明为变量");
}
