//! Model sources from an SQL script: the script is read with sqlparser's
//! MySQL dialect, and each `CREATE TABLE` statement becomes a model file.

use vstd::prelude::*;

use crate::generator::{
    doc_comment_text, generate_rust_source, in_primary_key, member_list_text, member_text,
    model_source_text, strip_bare_comment_markers, strip_bare_comments, ColumnSpec, ColumnType,
    SourceFile, TableSpec,
};

verus! {

/// A statement of an SQL script, as far as model generation reads it.
#[derive(Debug)]
pub enum SqlStatement {
    CreateTable(SqlTable),
    Other,
}

/// A `CREATE TABLE` statement as the parser gives it.
#[derive(Debug)]
pub struct SqlTable {
    /// The parts of the table's name; `None` for a part that is not an
    /// identifier.
    pub name_parts: Vec<Option<String>>,
    /// The table comment's text.
    pub comment: Option<String>,
    pub columns: Vec<SqlColumn>,
    pub constraints: Vec<SqlConstraint>,
}

/// A column definition as the parser gives it.
#[derive(Debug)]
pub struct SqlColumn {
    pub name: String,
    pub quote_style: Option<char>,
    pub data_type: ColumnType,
    /// For each option of the column, whether it is `NOT NULL`.
    pub options_not_null: Vec<bool>,
}

/// A table constraint as the parser gives it.
#[derive(Debug)]
pub enum SqlConstraint {
    /// A primary key: for each of its columns, the identifier and its quote
    /// where the column is a plain identifier.
    PrimaryKey(Vec<Option<(String, Option<char>)>>),
    Other,
}

#[verifier::external_type_specification]
#[verifier::external_body]
pub struct ExSqlStatement(sqlparser::ast::Statement);

#[verifier::external_type_specification]
#[verifier::external_body]
pub struct ExCreateTable(sqlparser::ast::CreateTable);

#[verifier::external_type_specification]
#[verifier::external_body]
pub struct ExColumnDef(sqlparser::ast::ColumnDef);

#[verifier::external_type_specification]
#[verifier::external_body]
pub struct ExTableConstraint(sqlparser::ast::TableConstraint);

#[verifier::external_type_specification]
#[verifier::external_body]
pub struct ExDataType(sqlparser::ast::DataType);

/// What sqlparser's MySQL dialect reads from `sql`: its statements, in the
/// form above, or `None` where the text does not parse.
pub uninterp spec fn mysql_statements(sql: Seq<char>) -> Option<Seq<SqlStatement>>;

/// `sqlparser::parser::Parser::parse_sql` with the MySQL dialect. What it
/// returns depends on `sql` alone and is named by `mysql_statements`; its
/// error is not kept.
#[verifier::external_body]
fn parse_mysql(sql: &str) -> (r: Option<Vec<SqlStatement>>)
    ensures
        match r {
            Some(v) => mysql_statements(sql@) == Some(v@),
            None => mysql_statements(sql@) is None,
        },
{
    let dialect = sqlparser::dialect::MySqlDialect {};
    match sqlparser::parser::Parser::parse_sql(&dialect, sql) {
        Ok(statements) => Some(statements.iter().map(sql_statement).collect()),
        Err(_) => None,
    }
}

/// A parsed statement in the form above (conversion only).
#[verifier::external_body]
fn sql_statement(s: &sqlparser::ast::Statement) -> SqlStatement {
    match s {
        sqlparser::ast::Statement::CreateTable(t) => SqlStatement::CreateTable(sql_table(t)),
        _ => SqlStatement::Other,
    }
}

/// A parsed `CREATE TABLE` in the form above (conversion only; the comment
/// is its `Display` text, which is the comment's string).
#[verifier::external_body]
fn sql_table(t: &sqlparser::ast::CreateTable) -> SqlTable {
    SqlTable {
        name_parts: t.name.0.iter().map(|p| p.as_ident().map(|i| i.value.clone())).collect(),
        comment: t.comment.as_ref().map(|c| c.to_string()),
        columns: t.columns.iter().map(sql_column).collect(),
        constraints: t.constraints.iter().map(sql_constraint).collect(),
    }
}

/// A parsed column definition in the form above (conversion only).
#[verifier::external_body]
fn sql_column(c: &sqlparser::ast::ColumnDef) -> SqlColumn {
    SqlColumn {
        name: c.name.value.clone(),
        quote_style: c.name.quote_style,
        data_type: column_type(&c.data_type),
        options_not_null: c.options.iter().map(
            |o| matches!(o.option, sqlparser::ast::ColumnOption::NotNull),
        ).collect(),
    }
}

/// A parsed table constraint in the form above (conversion only).
#[verifier::external_body]
fn sql_constraint(c: &sqlparser::ast::TableConstraint) -> SqlConstraint {
    match c {
        sqlparser::ast::TableConstraint::PrimaryKey(pk) => SqlConstraint::PrimaryKey(
            pk.columns.iter().map(|k| match &k.column.expr {
                sqlparser::ast::Expr::Identifier(i) => Some((i.value.clone(), i.quote_style)),
                _ => None,
            }).collect(),
        ),
        _ => SqlConstraint::Other,
    }
}

/// A parsed column type in the form above (conversion only).
#[verifier::external_body]
fn column_type(d: &sqlparser::ast::DataType) -> ColumnType {
    match d {
        sqlparser::ast::DataType::BigIntUnsigned(w) => ColumnType::BigIntUnsigned(*w),
        sqlparser::ast::DataType::BigInt(w) => ColumnType::BigInt(*w),
        sqlparser::ast::DataType::Varchar(len) => ColumnType::Varchar(len.is_some()),
        sqlparser::ast::DataType::Datetime(_) => ColumnType::Datetime,
        _ => ColumnType::Other,
    }
}

/// The `CREATE TABLE` statements among `sts`, in order.
pub open spec fn created_tables(sts: Seq<SqlStatement>) -> Seq<SqlTable>
    decreases sts.len(),
{
    if sts.len() == 0 {
        Seq::empty()
    } else {
        let before = created_tables(sts.drop_last());
        match sts.last() {
            SqlStatement::CreateTable(t) => before.push(t),
            SqlStatement::Other => before,
        }
    }
}

/// The table's name: the last part of its name, if that is an identifier.
pub open spec fn table_name(t: SqlTable) -> Option<Seq<char>> {
    if t.name_parts@.len() > 0 {
        match t.name_parts@.last() {
            Some(s) => Some(s@),
            None => None,
        }
    } else {
        None
    }
}

/// Whether every table has a name.
pub open spec fn all_named(ts: Seq<SqlTable>) -> bool {
    forall|i: int| 0 <= i < ts.len() ==> (#[trigger] table_name(ts[i])) is Some
}

/// The identifier columns of a primary key's column list, in order.
pub open spec fn key_idents(parts: Seq<Option<(String, Option<char>)>>) -> Seq<(Seq<char>, Option<char>)>
    decreases parts.len(),
{
    if parts.len() == 0 {
        Seq::empty()
    } else {
        let before = key_idents(parts.drop_last());
        match parts.last() {
            Some(k) => before.push((k.0@, k.1)),
            None => before,
        }
    }
}

/// The identifier columns of all primary key constraints, in order.
pub open spec fn primary_key_idents(cs: Seq<SqlConstraint>) -> Seq<(Seq<char>, Option<char>)>
    decreases cs.len(),
{
    if cs.len() == 0 {
        Seq::empty()
    } else {
        let before = primary_key_idents(cs.drop_last());
        match cs.last() {
            SqlConstraint::PrimaryKey(parts) => before + key_idents(parts@),
            SqlConstraint::Other => before,
        }
    }
}

/// The keys as names and quotes.
pub open spec fn key_views(ks: Seq<(String, Option<char>)>) -> Seq<(Seq<char>, Option<char>)> {
    ks.map_values(|k: (String, Option<char>)| (k.0@, k.1))
}

/// `c` describes column `s`: same name, quote and type, and `NOT NULL`
/// exactly when one of its options says so.
pub open spec fn column_describes(c: ColumnSpec, s: SqlColumn) -> bool {
    &&& c.name@ == s.name@
    &&& c.quote_style == s.quote_style
    &&& c.data_type == s.data_type
    &&& c.not_null == exists|k: int| 0 <= k < s.options_not_null@.len() && s.options_not_null@[k]
}

/// `t` describes table `s`: its name, comment, columns in order, and the
/// identifier columns of its primary keys.
pub open spec fn table_describes(t: TableSpec, s: SqlTable) -> bool {
    &&& table_name(s) == Some(t.name@)
    &&& match (t.comment, s.comment) {
        (Some(a), Some(b)) => a@ == b@,
        (None, None) => true,
        _ => false,
    }
    &&& t.columns@.len() == s.columns@.len()
    &&& forall|i: int| 0 <= i < t.columns@.len() ==> column_describes(#[trigger] t.columns@[i], s.columns@[i])
    &&& key_views(t.primary_keys@) == primary_key_idents(s.constraints@)
}

/// `ts` describes the tables `ss`, one by one.
pub open spec fn tables_describe(ts: Seq<TableSpec>, ss: Seq<SqlTable>) -> bool {
    &&& ts.len() == ss.len()
    &&& forall|i: int| 0 <= i < ts.len() ==> table_describes(#[trigger] ts[i], ss[i])
}

/// `files` are the model sources of the tables `ss`, one by one: each is
/// the model source of a description of its table, named after it.
pub open spec fn sources_of(files: Seq<SourceFile>, ss: Seq<SqlTable>) -> bool {
    &&& files.len() == ss.len()
    &&& forall|i: int| 0 <= i < files.len() ==> #[trigger] source_of(files[i], ss[i])
}

/// `f` is the model source of a description of table `s`, named after it.
pub open spec fn source_of(f: SourceFile, s: SqlTable) -> bool {
    exists|t: TableSpec| #[trigger] table_describes(t, s) && f.source@ == model_source_text(t)
        && f.filename@ == t.name@ + ".rs"@
}

proof fn lemma_in_key_same(
    k1: Seq<(String, Option<char>)>,
    k2: Seq<(String, Option<char>)>,
    a: ColumnSpec,
    b: ColumnSpec,
)
    requires
        key_views(k1) == key_views(k2),
        a.name@ == b.name@,
        a.quote_style == b.quote_style,
    ensures
        in_primary_key(k1, a) == in_primary_key(k2, b),
{
    assert(k1.len() == key_views(k1).len());
    assert(k2.len() == key_views(k2).len());
    if in_primary_key(k1, a) {
        let i = choose|i: int| 0 <= i < k1.len() && k1[i].0@ == a.name@ && k1[i].1 == a.quote_style;
        assert(key_views(k1)[i] == key_views(k2)[i]);
    }
    if in_primary_key(k2, b) {
        let i = choose|i: int| 0 <= i < k2.len() && k2[i].0@ == b.name@ && k2[i].1 == b.quote_style;
        assert(key_views(k1)[i] == key_views(k2)[i]);
    }
}

proof fn lemma_member_list_same(
    k1: Seq<(String, Option<char>)>,
    k2: Seq<(String, Option<char>)>,
    c1: Seq<ColumnSpec>,
    c2: Seq<ColumnSpec>,
)
    requires
        key_views(k1) == key_views(k2),
        c1.len() == c2.len(),
        forall|i: int|
            0 <= i < c1.len() ==> (#[trigger] c1[i]).name@ == c2[i].name@ && c1[i].quote_style
                == c2[i].quote_style && c1[i].data_type == c2[i].data_type && c1[i].not_null
                == c2[i].not_null,
    ensures
        member_list_text(k1, c1) == member_list_text(k2, c2),
    decreases c1.len(),
{
    if c1.len() > 0 {
        let n = c1.len() - 1;
        assert(c1[n].name@ == c2[n].name@);
        lemma_in_key_same(k1, k2, c1.last(), c2.last());
        assert forall|i: int| 0 <= i < c1.drop_last().len() implies (#[trigger] c1.drop_last()[i]).name@
            == c2.drop_last()[i].name@ && c1.drop_last()[i].quote_style == c2.drop_last()[i].quote_style
            && c1.drop_last()[i].data_type == c2.drop_last()[i].data_type && c1.drop_last()[i].not_null
            == c2.drop_last()[i].not_null by {
            assert(c1[i].name@ == c2[i].name@);
        }
        lemma_member_list_same(k1, k2, c1.drop_last(), c2.drop_last());
        assert(member_text(k1, c1.last()) == member_text(k2, c2.last()));
    }
}

/// Any two descriptions of a table give the same model source: the text
/// depends only on what a description fixes.
pub proof fn lemma_description_fixes_source(t1: TableSpec, t2: TableSpec, s: SqlTable)
    requires
        table_describes(t1, s),
        table_describes(t2, s),
    ensures
        model_source_text(t1) == model_source_text(t2),
        t1.name@ == t2.name@,
{
    assert forall|i: int| 0 <= i < t1.columns@.len() implies (#[trigger] t1.columns@[i]).name@
        == t2.columns@[i].name@ && t1.columns@[i].quote_style == t2.columns@[i].quote_style
        && t1.columns@[i].data_type == t2.columns@[i].data_type && t1.columns@[i].not_null
        == t2.columns@[i].not_null by {
        assert(column_describes(t1.columns@[i], s.columns@[i]));
        assert(column_describes(t2.columns@[i], s.columns@[i]));
    }
    lemma_member_list_same(t1.primary_keys@, t2.primary_keys@, t1.columns@, t2.columns@);
    assert(doc_comment_text(t1.comment) == doc_comment_text(t2.comment));
}

fn copy_column_type(t: &ColumnType) -> (r: ColumnType)
    ensures
        r == *t,
{
    match t {
        ColumnType::BigIntUnsigned(w) => ColumnType::BigIntUnsigned(*w),
        ColumnType::BigInt(w) => ColumnType::BigInt(*w),
        ColumnType::Varchar(b) => ColumnType::Varchar(*b),
        ColumnType::Datetime => ColumnType::Datetime,
        ColumnType::Other => ColumnType::Other,
    }
}

/// The column description of a column definition.
pub fn column_spec(c: &SqlColumn) -> (r: ColumnSpec)
    ensures
        column_describes(r, *c),
{
    let mut not_null = false;
    let mut k: usize = 0;
    while k < c.options_not_null.len()
        invariant
            0 <= k <= c.options_not_null@.len(),
            not_null == exists|m: int| 0 <= m < k && c.options_not_null@[m],
        decreases c.options_not_null.len() - k,
    {
        if c.options_not_null[k] {
            not_null = true;
        }
        k = k + 1;
    }
    ColumnSpec {
        name: c.name.clone(),
        quote_style: c.quote_style,
        data_type: copy_column_type(&c.data_type),
        not_null,
    }
}

proof fn lemma_key_views_push(ks: Seq<(String, Option<char>)>, k: (String, Option<char>))
    ensures
        key_views(ks.push(k)) == key_views(ks).push((k.0@, k.1)),
{
    assert(key_views(ks.push(k)) =~= key_views(ks).push((k.0@, k.1)));
}

/// The identifier columns of all primary key constraints, in order.
pub fn primary_key_columns(cs: &Vec<SqlConstraint>) -> (r: Vec<(String, Option<char>)>)
    ensures
        key_views(r@) == primary_key_idents(cs@),
{
    let mut r: Vec<(String, Option<char>)> = Vec::new();
    let mut i: usize = 0;
    assert(cs@.take(0) =~= Seq::<SqlConstraint>::empty());
    assert(key_views(r@) =~= Seq::<(Seq<char>, Option<char>)>::empty());
    while i < cs.len()
        invariant
            0 <= i <= cs@.len(),
            key_views(r@) == primary_key_idents(cs@.take(i as int)),
        decreases cs.len() - i,
    {
        assert(cs@.take(i as int + 1).drop_last() =~= cs@.take(i as int));
        match &cs[i] {
            SqlConstraint::PrimaryKey(parts) => {
                let ghost base = key_views(r@);
                let mut j: usize = 0;
                assert(parts@.take(0) =~= Seq::<Option<(String, Option<char>)>>::empty());
                assert(base + key_idents(parts@.take(0)) =~= base);
                while j < parts.len()
                    invariant
                        0 <= j <= parts@.len(),
                        key_views(r@) == base + key_idents(parts@.take(j as int)),
                    decreases parts.len() - j,
                {
                    assert(parts@.take(j as int + 1).drop_last() =~= parts@.take(j as int));
                    match &parts[j] {
                        Some(k) => {
                            let ghost before = r@;
                            r.push((k.0.clone(), k.1));
                            proof {
                                lemma_key_views_push(before, (k.0, k.1));
                            }
                            assert(key_views(r@) =~= base + key_idents(parts@.take(j as int + 1)));
                        },
                        None => {},
                    }
                    j = j + 1;
                }
                assert(parts@.take(parts@.len() as int) =~= parts@);
            },
            SqlConstraint::Other => {},
        }
        i = i + 1;
    }
    assert(cs@.take(cs@.len() as int) =~= cs@);
    r
}

/// The description of a `CREATE TABLE` statement; `None` when its name
/// does not end in an identifier.
pub fn table_spec(t: &SqlTable) -> (r: Option<TableSpec>)
    ensures
        r is Some <==> table_name(*t) is Some,
        r matches Some(spec) ==> table_describes(spec, *t),
{
    let n = t.name_parts.len();
    if n == 0 {
        return None;
    }
    let name = match &t.name_parts[n - 1] {
        Some(s) => s.clone(),
        None => {
            return None;
        },
    };
    let comment = match &t.comment {
        Some(c) => Some(c.clone()),
        None => None,
    };
    let mut columns: Vec<ColumnSpec> = Vec::new();
    let mut i: usize = 0;
    while i < t.columns.len()
        invariant
            0 <= i <= t.columns@.len(),
            columns@.len() == i,
            forall|k: int| 0 <= k < i ==> column_describes(#[trigger] columns@[k], t.columns@[k]),
        decreases t.columns.len() - i,
    {
        columns.push(column_spec(&t.columns[i]));
        i = i + 1;
    }
    let primary_keys = primary_key_columns(&t.constraints);
    Some(TableSpec { name, comment, columns, primary_keys })
}

proof fn lemma_created_prefix(s: Seq<SqlStatement>, j: int, n: int)
    requires
        0 <= j <= n <= s.len(),
    ensures
        created_tables(s.take(j)).len() <= created_tables(s.take(n)).len(),
        forall|k: int|
            0 <= k < created_tables(s.take(j)).len() ==> created_tables(s.take(n))[k]
                == #[trigger] created_tables(s.take(j))[k],
    decreases n - j,
{
    if j < n {
        lemma_created_prefix(s, j, n - 1);
        assert(s.take(n).drop_last() =~= s.take(n - 1));
    }
}

/// The descriptions of the `CREATE TABLE` statements among `sts`, in
/// order; `None` when one of those tables has no name.
pub fn tables_from_statements(sts: &Vec<SqlStatement>) -> (r: Option<Vec<TableSpec>>)
    ensures
        r is Some <==> all_named(created_tables(sts@)),
        r matches Some(v) ==> tables_describe(v@, created_tables(sts@)),
{
    let mut out: Vec<TableSpec> = Vec::new();
    let mut i: usize = 0;
    assert(sts@.take(0) =~= Seq::<SqlStatement>::empty());
    while i < sts.len()
        invariant
            0 <= i <= sts@.len(),
            all_named(created_tables(sts@.take(i as int))),
            tables_describe(out@, created_tables(sts@.take(i as int))),
        decreases sts.len() - i,
    {
        let ghost prefix = sts@.take(i as int);
        assert(sts@.take(i as int + 1).drop_last() =~= prefix);
        let ghost done = created_tables(prefix);
        match &sts[i] {
            SqlStatement::CreateTable(t) => {
                match table_spec(t) {
                    Some(spec) => {
                        let ghost before = out@;
                        out.push(spec);
                        assert(created_tables(sts@.take(i as int + 1)) == done.push(*t));
                        assert forall|k: int| 0 <= k < out@.len() implies table_describes(
                            #[trigger] out@[k],
                            done.push(*t)[k],
                        ) by {
                            if k < done.len() {
                                assert(out@[k] == before[k]);
                            }
                        }
                    },
                    None => {
                        proof {
                            let whole = sts@.take(sts@.len() as int);
                            assert(whole =~= sts@);
                            lemma_created_prefix(sts@, i as int + 1, sts@.len() as int);
                            assert(created_tables(sts@.take(i as int + 1)) == done.push(*t));
                            assert(created_tables(sts@.take(i as int + 1))[done.len() as int] == *t);
                            assert(created_tables(whole)[done.len() as int] == *t);
                            assert(table_name(created_tables(sts@)[done.len() as int]) is None);
                        }
                        return None;
                    },
                }
            },
            SqlStatement::Other => {},
        }
        i = i + 1;
    }
    assert(sts@.take(sts@.len() as int) =~= sts@);
    Some(out)
}

/// The descriptions of the `CREATE TABLE` statements that sqlparser's MySQL
/// dialect reads from `sql`; `None` when the text does not parse or one of
/// those tables has no name.
pub fn parse_create_tables(sql: &str) -> (r: Option<Vec<TableSpec>>)
    ensures
        r is Some <==> (mysql_statements(sql@) matches Some(sts) && all_named(created_tables(sts))),
        r matches Some(v) ==> tables_describe(v@, created_tables(mysql_statements(sql@)->Some_0)),
{
    match parse_mysql(sql) {
        Some(sts) => tables_from_statements(&sts),
        None => None,
    }
}

/// The model sources of an SQL script: bare `--` comment lines are
/// removed, the text is read with sqlparser's MySQL dialect, and each
/// `CREATE TABLE` statement gives its model source, named after the table.
/// `None` when the text does not parse or one of those tables has no name.
pub fn generate_sources(sql: &str) -> (r: Option<Vec<SourceFile>>)
    ensures
        ({
            let parsed = mysql_statements(strip_bare_comments(sql@));
            &&& r is Some <==> (parsed matches Some(sts) && all_named(created_tables(sts)))
            &&& r matches Some(files) ==> sources_of(files@, created_tables(parsed->Some_0))
        }),
{
    let text = strip_bare_comment_markers(sql);
    let tables = match parse_create_tables(text.as_str()) {
        Some(v) => v,
        None => {
            return None;
        },
    };
    let ghost ss = created_tables(mysql_statements(text@)->Some_0);
    let mut files: Vec<SourceFile> = Vec::new();
    let mut i: usize = 0;
    while i < tables.len()
        invariant
            tables_describe(tables@, ss),
            0 <= i <= tables@.len(),
            files@.len() == i,
            forall|k: int| 0 <= k < i ==> #[trigger] source_of(files@[k], ss[k]),
        decreases tables.len() - i,
    {
        let f = generate_rust_source(&tables[i]);
        assert(table_describes(tables@[i as int], ss[i as int]));
        files.push(f);
        assert(source_of(files@[i as int], ss[i as int]));
        i = i + 1;
    }
    Some(files)
}

} // verus!
