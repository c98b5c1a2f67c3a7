use cosmox::generator::{
    generate_multi_line_doc_comment, generate_rust_member_list, generate_rust_source,
    generate_using, mod_name, strip_bare_comment_markers, ColumnSpec, ColumnType, Field, TableSpec,
};

#[test]
fn test_fileld() {
    let field = Field {
        ident: "username".into(),
        is_option: false,
        is_primary_key: true,
        field_type: "Sting".into(),
        attr: Some(vec![
            r#"#[serde(with = "chrono::naive::serde::ts_seconds_option")]"#.into(),
        ]),
        comment: None,
    };

    println!("{}", field.to_string())
}

#[test]
fn field_text() {
    let mut field = Field {
        ident: "name".into(),
        is_option: true,
        is_primary_key: false,
        field_type: "String".into(),
        attr: None,
        comment: None,
    };
    assert_eq!(field.to_string(), "\n      \n      pub name: Option<String>,\n      ");
    field.is_option = false;
    assert_eq!(field.to_string(), "\n      \n      pub name:<String>,\n        ");
}

fn column(name: &str, data_type: ColumnType, not_null: bool) -> ColumnSpec {
    ColumnSpec { name: name.to_string(), quote_style: None, data_type, not_null }
}

#[test]
fn members_for_columns() {
    let table = TableSpec {
        name: "users".to_string(),
        comment: Some("Users\nof the system".to_string()),
        columns: vec![
            column("uid", ColumnType::BigIntUnsigned(Some(64)), true),
            column("type", ColumnType::BigInt(Some(64)), false),
            column("name", ColumnType::Varchar(true), true),
            column("created", ColumnType::Datetime, false),
            column("blob", ColumnType::Other, true),
            column("small", ColumnType::BigInt(Some(32)), true),
        ],
        primary_keys: vec![("uid".to_string(), None)],
    };
    let members = generate_rust_member_list(&table);
    assert_eq!(
        members,
        "#[sea_orm(primary_key)]\npub uid:u64, \npub r#type:Option<i64>, \npub name:String, \n#[serde(with = \"chrono::naive::serde::ts_seconds_option\")]pub created:Option<NaiveDateTime>, \n// unimpl// unimpl"
    );
    let file = generate_rust_source(&table);
    assert_eq!(file.filename, "users.rs");
    assert!(file.source.starts_with("\nuse chrono::NaiveDateTime;\nuse serde::{Deserialize, Serialize};"));
    assert!(file.source.contains("/// Users\n/// of the system\n#[derive("));
    assert!(file.source.contains("#[sea_orm(table_name = \"users\")]\npub struct Model {\n#[sea_orm(primary_key)]"));
}

#[test]
fn imports_depend_on_datetime() {
    assert!(generate_using("pub a:NaiveDateTime, ").starts_with("use chrono::NaiveDateTime;\n"));
    assert_eq!(
        generate_using("pub a:u64, "),
        "\nuse serde::{Deserialize, Serialize};\nuse sqlx::FromRow;\nuse utoipa::ToSchema;\nuse sea_orm::entity::prelude::*;\n    "
    );
}

#[test]
fn doc_comments() {
    assert_eq!(generate_multi_line_doc_comment(&None), "");
    assert_eq!(generate_multi_line_doc_comment(&Some("one".to_string())), "/// one");
    assert_eq!(generate_multi_line_doc_comment(&Some("a\nb".to_string())), "/// a\n/// b");
}

#[test]
fn module_names_and_sql_cleanup() {
    assert_eq!(mod_name("users.rs"), "users");
    assert_eq!(mod_name("notes"), "notes");
    assert_eq!(mod_name(".rs"), "");
    assert_eq!(strip_bare_comment_markers("--\nCREATE TABLE t (a INT);\n--\n"), "CREATE TABLE t (a INT);\n");
    assert_eq!(strip_bare_comment_markers("-- note\n"), "-- note\n");
}
