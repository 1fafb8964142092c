//! The plain-data leaves: JSON field access, error chains, request
//! variables and the texts the database side reports with.

use sqlpage::database::{
    clone_anyhow_err, migration_err, set_variable, vars_and_name, varvalue_from_json, DbItem,
    RequestInfo, SingleOrVec, StmtParam, VarTarget,
};
use sqlpage::error::ErrorChain;
use sqlpage::json::{get_object_str, json_get_ref, json_take, JsonVal};

fn obj(fields: Vec<(&str, JsonVal)>) -> JsonVal {
    JsonVal::Obj(
        fields
            .into_iter()
            .map(|(k, v)| (k.to_string(), v))
            .collect(),
    )
}

#[test]
fn object_string_fields_are_read_and_taken() {
    let row = obj(vec![
        ("component", JsonVal::Str("list".to_string())),
        ("n", JsonVal::I64(3)),
    ]);
    assert_eq!(get_object_str(&row, "component"), Some("list".to_string()));
    assert_eq!(get_object_str(&row, "n"), None);
    assert_eq!(get_object_str(&row, "missing"), None);
    assert_eq!(get_object_str(&JsonVal::Null, "component"), None);
    assert!(matches!(json_get_ref(&row, "n"), Some(JsonVal::I64(3))));
    assert_eq!(json_take(row, "n"), Some(JsonVal::I64(3)));
}

#[test]
fn error_chain_keeps_messages_outermost_first() {
    let e = ErrorChain::new("inner".to_string()).with_context("outer".to_string());
    assert_eq!(e.message().as_str(), "outer");
    assert_eq!(e.causes(), vec!["inner".to_string()]);
    assert_eq!(e.len(), 2);
}

#[test]
fn clone_anyhow_err_appends_the_preparation_note() {
    let e = ErrorChain::new("inner".to_string()).with_context("outer".to_string());
    let cloned = clone_anyhow_err(&e);
    assert_eq!(cloned.message().as_str(), "outer");
    assert_eq!(
        cloned.causes(),
        vec![
            "inner".to_string(),
            "An error occurred during the preparation phase of the SQL".to_string(),
        ],
    );
}

#[test]
fn migration_err_explains_the_layout() {
    assert_eq!(
        migration_err("running the migration"),
        "An error occurred while running the migration.\n        The path 'sqlpage/migrations' \
         has to point to a directory, which contains valid SQL files\n        with names using \
         the format '<VERSION>_<DESCRIPTION>.sql',\n        where <VERSION> is a positive \
         number, and <DESCRIPTION> is a string.\n        The current state of migrations will \
         be stored in a table called _sqlx_migrations.",
    );
}

#[test]
fn vars_and_name_targets_get_and_post() {
    assert_eq!(
        vars_and_name(&StmtParam::Get("a".to_string())).unwrap(),
        (VarTarget::GetVariables, "a".to_string()),
    );
    assert_eq!(
        vars_and_name(&StmtParam::GetOrPost("b".to_string())).unwrap(),
        (VarTarget::GetVariables, "b".to_string()),
    );
    assert_eq!(
        vars_and_name(&StmtParam::Post("c".to_string())).unwrap(),
        (VarTarget::PostVariables, "c".to_string()),
    );
    assert!(vars_and_name(&StmtParam::Cookie("d".to_string())).is_err());
    assert!(vars_and_name(&StmtParam::HttpHeader("e".to_string())).is_err());
}

#[test]
fn set_variable_inserts_replaces_and_removes() {
    let mut request = RequestInfo::new();
    set_variable(
        &mut request,
        &StmtParam::Get("q".to_string()),
        Some(SingleOrVec::Single("1".to_string())),
    )
    .unwrap();
    assert_eq!(
        request.get_variables.get("q"),
        Some(&SingleOrVec::Single("1".to_string())),
    );
    set_variable(
        &mut request,
        &StmtParam::Get("q".to_string()),
        Some(SingleOrVec::Single("2".to_string())),
    )
    .unwrap();
    assert_eq!(
        request.get_variables.get("q"),
        Some(&SingleOrVec::Single("2".to_string())),
    );
    set_variable(
        &mut request,
        &StmtParam::Post("p".to_string()),
        Some(SingleOrVec::Vec(vec!["a".to_string(), "b".to_string()])),
    )
    .unwrap();
    assert_eq!(
        request.post_variables.get("p"),
        Some(&SingleOrVec::Vec(vec!["a".to_string(), "b".to_string()])),
    );
    assert_eq!(request.post_variables.get("q"), None);
    set_variable(&mut request, &StmtParam::Get("q".to_string()), None).unwrap();
    assert_eq!(request.get_variables.get("q"), None);
    assert!(set_variable(&mut request, &StmtParam::Cookie("c".to_string()), None).is_err());
}

#[test]
fn varvalue_keeps_strings_and_serialises_the_rest() {
    assert_eq!(
        varvalue_from_json(JsonVal::Str("s".to_string())),
        SingleOrVec::Single("s".to_string()),
    );
    assert_eq!(varvalue_from_json(JsonVal::I64(42)), SingleOrVec::Single("42".to_string()));
    assert_eq!(
        varvalue_from_json(JsonVal::Bool(true)),
        SingleOrVec::Single("true".to_string()),
    );
    assert_eq!(
        varvalue_from_json(JsonVal::Arr(vec![
            JsonVal::Str("a".to_string()),
            JsonVal::I64(1),
        ])),
        SingleOrVec::Vec(vec!["a".to_string(), "1".to_string()]),
    );
    assert_eq!(
        varvalue_from_json(obj(vec![("k", JsonVal::Str("v".to_string()))])),
        SingleOrVec::Single("{\"k\":\"v\"}".to_string()),
    );
}

#[test]
fn db_items_carry_rows_and_errors() {
    let row = DbItem::Row(obj(vec![("x", JsonVal::I64(1))]));
    assert!(matches!(row, DbItem::Row(_)));
    assert!(matches!(DbItem::FinishedQuery, DbItem::FinishedQuery));
    let err = DbItem::Error(ErrorChain::new("e".to_string()));
    assert!(matches!(err, DbItem::Error(_)));
}

#[test]
fn bound_parameter_joins_with_commas() {
    assert_eq!(
        SingleOrVec::Single("one".to_string()).bound_parameter(),
        "one".to_string(),
    );
    assert_eq!(
        SingleOrVec::Vec(vec![]).bound_parameter(),
        String::new(),
    );
    assert_eq!(
        SingleOrVec::Vec(vec!["a".to_string()]).bound_parameter(),
        "a".to_string(),
    );
    assert_eq!(
        SingleOrVec::Vec(vec!["a".to_string(), "b".to_string(), "c".to_string()])
            .bound_parameter(),
        "a,b,c".to_string(),
    );
}
