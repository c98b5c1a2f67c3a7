use cosmox::generator::{generate_rust_member_list, ColumnType};
use cosmox::sql_tables::{
    column_spec, generate_sources, parse_create_tables, primary_key_columns, table_spec,
    tables_from_statements, SqlColumn, SqlConstraint, SqlStatement, SqlTable,
};

fn sql_column(name: &str, data_type: ColumnType, options_not_null: Vec<bool>) -> SqlColumn {
    SqlColumn { name: name.to_string(), quote_style: None, data_type, options_not_null }
}

fn users_table(name_parts: Vec<Option<String>>) -> SqlTable {
    SqlTable {
        name_parts,
        comment: Some("Users".to_string()),
        columns: vec![
            SqlColumn {
                name: "uid".to_string(),
                quote_style: Some('`'),
                data_type: ColumnType::BigIntUnsigned(Some(64)),
                options_not_null: vec![false, true],
            },
            sql_column("nick", ColumnType::Varchar(true), vec![]),
        ],
        constraints: vec![
            SqlConstraint::Other,
            SqlConstraint::PrimaryKey(vec![Some(("uid".to_string(), Some('`'))), None]),
        ],
    }
}

#[test]
fn columns_are_not_null_when_an_option_says_so() {
    let c = column_spec(&sql_column("a", ColumnType::Datetime, vec![false, true]));
    assert!(c.not_null);
    assert_eq!(c.name, "a");
    let c = column_spec(&sql_column("b", ColumnType::Other, vec![false]));
    assert!(!c.not_null);
}

#[test]
fn primary_keys_keep_identifier_columns_in_order() {
    let keys = primary_key_columns(&vec![
        SqlConstraint::PrimaryKey(vec![Some(("a".to_string(), None)), None]),
        SqlConstraint::Other,
        SqlConstraint::PrimaryKey(vec![Some(("b".to_string(), Some('"')))]),
    ]);
    assert_eq!(keys, vec![("a".to_string(), None), ("b".to_string(), Some('"'))]);
}

#[test]
fn table_name_is_the_last_part() {
    let t = table_spec(&users_table(vec![Some("db".to_string()), Some("users".to_string())])).unwrap();
    assert_eq!(t.name, "users");
    assert_eq!(t.comment, Some("Users".to_string()));
    assert_eq!(t.primary_keys, vec![("uid".to_string(), Some('`'))]);
    assert_eq!(
        generate_rust_member_list(&t),
        "#[sea_orm(primary_key)]\npub uid:u64, \npub nick:Option<String>, \n"
    );
    assert!(table_spec(&users_table(vec![])).is_none());
    assert!(table_spec(&users_table(vec![Some("db".to_string()), None])).is_none());
}

#[test]
fn only_create_table_statements_give_tables() {
    let sts = vec![
        SqlStatement::Other,
        SqlStatement::CreateTable(users_table(vec![Some("users".to_string())])),
        SqlStatement::Other,
    ];
    let tables = tables_from_statements(&sts).unwrap();
    assert_eq!(tables.len(), 1);
    assert_eq!(tables[0].name, "users");
    let unnamed = vec![SqlStatement::CreateTable(users_table(vec![]))];
    assert!(tables_from_statements(&unnamed).is_none());
}

#[test]
fn sql_scripts_give_one_source_per_table() {
    let sql = "--\nCREATE TABLE `users` (\n  `uid` BIGINT(64) UNSIGNED NOT NULL,\n  `nick` VARCHAR(32),\n  PRIMARY KEY (`uid`)\n) COMMENT='Users';\n--\nCREATE TABLE notes (id BIGINT NOT NULL);\nINSERT INTO notes VALUES (1);\n";
    let tables = parse_create_tables(&sql.replace("--\n", "")).unwrap();
    assert_eq!(tables.len(), 2);
    assert_eq!(tables[0].name, "users");
    assert_eq!(tables[0].columns.len(), 2);
    assert!(tables[0].columns[0].not_null);
    assert!(!tables[0].columns[1].not_null);
    assert_eq!(tables[0].primary_keys, vec![("uid".to_string(), Some('`'))]);
    assert_eq!(tables[1].name, "notes");

    let files = generate_sources(sql).unwrap();
    assert_eq!(files.len(), 2);
    assert_eq!(files[0].filename, "users.rs");
    assert_eq!(files[1].filename, "notes.rs");
    assert!(files[0].source.contains("#[sea_orm(table_name = \"users\")]"));
    assert!(files[0].source.contains("#[sea_orm(primary_key)]\npub uid:u64, "));
    assert!(files[1].source.contains("#[sea_orm(table_name = \"notes\")]"));
}

#[test]
fn unreadable_sql_gives_nothing() {
    assert!(generate_sources("CREATE TABLE (").is_none());
    assert!(parse_create_tables("NOT SQL AT ALL").is_none());
    assert_eq!(generate_sources("").map(|f| f.len()), Some(0));
}
