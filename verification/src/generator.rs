//! Rust model source for SQL tables: one struct field per column, with the
//! imports the fields need and the table's comment as doc comment.

use vstd::prelude::*;
use vstd::string::*;

use crate::text::{str_chars, string_from_chars};

verus! {

/// A generated source file.
#[derive(Debug)]
pub struct SourceFile {
    pub source: String,
    pub filename: String,
}

/// A struct field to generate.
#[derive(Debug)]
pub struct Field {
    pub ident: String,
    pub is_option: bool,
    pub is_primary_key: bool,
    pub field_type: String,
    pub attr: Option<Vec<String>>,
    pub comment: Option<Vec<String>>,
}

/// The generated model (its fields are generated as text).
#[derive(Debug)]
pub struct Model {}

/// How a field is displayed: its declaration, `Option`al or not, between
/// blank lines (attributes are not written).
pub open spec fn field_text(f: Field) -> Seq<char> {
    if f.is_option {
        "\n      \n      pub "@ + f.ident@ + ": Option<"@ + f.field_type@ + ">,\n      "@
    } else {
        "\n      \n      pub "@ + f.ident@ + ":<"@ + f.field_type@ + ">,\n        "@
    }
}

impl Field {
    /// The field as text (what `Display` shows).
    pub fn to_string(&self) -> (r: String)
        ensures
            r@ == field_text(*self),
    {
        let mut s = "\n      \n      pub ".to_owned();
        s.append(self.ident.as_str());
        if self.is_option {
            s.append(": Option<");
            s.append(self.field_type.as_str());
            s.append(">,\n      ");
        } else {
            s.append(":<");
            s.append(self.field_type.as_str());
            s.append(">,\n        ");
        }
        s
    }
}

/// The SQL column types that get a field type.
#[derive(Debug)]
pub enum ColumnType {
    /// `BIGINT UNSIGNED`, with its display width.
    BigIntUnsigned(Option<u64>),
    /// `BIGINT`, with its display width.
    BigInt(Option<u64>),
    /// `VARCHAR`, and whether a length was given.
    Varchar(bool),
    /// `DATETIME`.
    Datetime,
    /// Any other type.
    Other,
}

/// A column of a `CREATE TABLE` statement.
#[derive(Debug)]
pub struct ColumnSpec {
    pub name: String,
    /// The quote the name was written with, if any.
    pub quote_style: Option<char>,
    pub data_type: ColumnType,
    /// Whether the column is declared `NOT NULL`.
    pub not_null: bool,
}

/// A `CREATE TABLE` statement.
#[derive(Debug)]
pub struct TableSpec {
    pub name: String,
    pub comment: Option<String>,
    pub columns: Vec<ColumnSpec>,
    /// The columns of the primary key constraints, with their quotes.
    pub primary_keys: Vec<(String, Option<char>)>,
}

/// Rust keywords that a field name must be escaped from.
pub open spec fn is_keyword(name: Seq<char>) -> bool {
    ||| name == "type"@
    ||| name == "else"@
    ||| name == "if"@
    ||| name == "let"@
    ||| name == "fn"@
    ||| name == "pub"@
    ||| name == "match"@
    ||| name == "struct"@
    ||| name == "use"@
    ||| name == "mod"@
    ||| name == "extern"@
    ||| name == "crate"@
}

/// The field name for a column name.
pub open spec fn field_name(name: Seq<char>) -> Seq<char> {
    if is_keyword(name) {
        "r#"@ + name
    } else {
        name
    }
}

/// The field type and the attribute for a column type, if it has one.
pub open spec fn member_type(t: ColumnType, not_null: bool) -> Option<(Seq<char>, Seq<char>)> {
    match t {
        ColumnType::BigIntUnsigned(Some(w)) => if w == 64 {
            Some(("u64"@, Seq::empty()))
        } else {
            None
        },
        ColumnType::BigInt(Some(w)) => if w == 64 {
            Some(("i64"@, Seq::empty()))
        } else {
            None
        },
        ColumnType::Varchar(true) => Some(("String"@, Seq::empty())),
        ColumnType::Datetime => Some(
            (
                "NaiveDateTime"@,
                if not_null {
                    "#[serde(with = \"chrono::naive::serde::ts_seconds\")]"@
                } else {
                    "#[serde(with = \"chrono::naive::serde::ts_seconds_option\")]"@
                },
            ),
        ),
        _ => None,
    }
}

/// Whether `keys` holds the column's name with its quote.
pub open spec fn in_primary_key(keys: Seq<(String, Option<char>)>, c: ColumnSpec) -> bool {
    exists|i: int| 0 <= i < keys.len() && keys[i].0@ == c.name@ && keys[i].1 == c.quote_style
}

/// The struct member for a column.
pub open spec fn member_text(keys: Seq<(String, Option<char>)>, c: ColumnSpec) -> Seq<char> {
    match member_type(c.data_type, c.not_null) {
        Some((t, attr)) => (if in_primary_key(keys, c) {
            "#[sea_orm(primary_key)]\n"@
        } else {
            Seq::empty()
        }) + attr + (if c.not_null {
            "pub "@ + field_name(c.name@) + ":"@ + t + ", \n"@
        } else {
            "pub "@ + field_name(c.name@) + ":Option<"@ + t + ">, \n"@
        }),
        None => "// unimpl"@,
    }
}

/// The members for the columns, in order.
pub open spec fn member_list_text(keys: Seq<(String, Option<char>)>, cs: Seq<ColumnSpec>) -> Seq<char>
    decreases cs.len(),
{
    if cs.len() == 0 {
        Seq::empty()
    } else {
        member_list_text(keys, cs.drop_last()) + member_text(keys, cs.last())
    }
}

fn is_keyword_exec(name: &String) -> (r: bool)
    ensures
        r == is_keyword(name@),
{
    *name == "type".to_owned() || *name == "else".to_owned() || *name == "if".to_owned() || *name
        == "let".to_owned() || *name == "fn".to_owned() || *name == "pub".to_owned() || *name
        == "match".to_owned() || *name == "struct".to_owned() || *name == "use".to_owned() || *name
        == "mod".to_owned() || *name == "extern".to_owned() || *name == "crate".to_owned()
}


/// Whether the column's name (with its quote) is in `keys`.
fn in_primary_key_exec(keys: &Vec<(String, Option<char>)>, c: &ColumnSpec) -> (r: bool)
    ensures
        r == in_primary_key(keys@, *c),
{
    let mut i: usize = 0;
    while i < keys.len()
        invariant
            0 <= i <= keys@.len(),
            forall|j: int| 0 <= j < i ==> !(keys@[j].0@ == c.name@ && keys@[j].1 == c.quote_style),
        decreases keys.len() - i,
    {
        if keys[i].0 == c.name && keys[i].1 == c.quote_style {
            return true;
        }
        i = i + 1;
    }
    false
}

/// Which column types get a field: 64-bit `BIGINT UNSIGNED` is `u64`,
/// 64-bit `BIGINT` is `i64` (signed and unsigned never swap), `VARCHAR`
/// with a length is `String`, none of them with an attribute; other
/// widths, a `VARCHAR` without length and other types get no field.
pub proof fn lemma_member_types(not_null: bool, w: Option<u64>)
    ensures
        member_type(ColumnType::BigIntUnsigned(w), not_null) == if w == Some(64u64) {
            Some((seq!['u', '6', '4'], Seq::<char>::empty()))
        } else {
            None
        },
        member_type(ColumnType::BigInt(w), not_null) == if w == Some(64u64) {
            Some((seq!['i', '6', '4'], Seq::<char>::empty()))
        } else {
            None
        },
        member_type(ColumnType::Varchar(true), not_null) == Some(
            (seq!['S', 't', 'r', 'i', 'n', 'g'], Seq::<char>::empty()),
        ),
        member_type(ColumnType::Varchar(false), not_null) is None,
        member_type(ColumnType::Other, not_null) is None,
{
    reveal_strlit("u64");
    reveal_strlit("i64");
    reveal_strlit("String");
    assert("u64"@ =~= seq!['u', '6', '4']);
    assert("i64"@ =~= seq!['i', '6', '4']);
    assert("String"@ =~= seq!['S', 't', 'r', 'i', 'n', 'g']);
}

/// `s` ends with `t`.
pub open spec fn ends_with(s: Seq<char>, t: Seq<char>) -> bool {
    s.len() >= t.len() && s.skip(s.len() - t.len()) == t
}

/// A `DATETIME` column becomes a `NaiveDateTime` field whose serde
/// attribute is chrono's seconds serializer; the attribute is the
/// `Option` one (it ends in `_option")]`) exactly when the column may be
/// null, that is exactly when the field's type is wrapped in `Option`.
pub proof fn lemma_datetime_serde_attribute(not_null: bool)
    ensures
        member_type(ColumnType::Datetime, not_null) is Some,
        member_type(ColumnType::Datetime, not_null)->Some_0.0 == "NaiveDateTime"@,
        ends_with(member_type(ColumnType::Datetime, not_null)->Some_0.1, "_option\")]"@) <==> !not_null,
        ends_with(
            member_type(ColumnType::Datetime, not_null)->Some_0.1,
            "#[serde(with = \"chrono::naive::serde::ts_seconds_option\")]"@,
        ) <==> !not_null,
        ends_with(
            member_type(ColumnType::Datetime, not_null)->Some_0.1,
            "#[serde(with = \"chrono::naive::serde::ts_seconds\")]"@,
        ) <==> not_null,
{
    reveal_strlit("_option\")]");
    reveal_strlit("#[serde(with = \"chrono::naive::serde::ts_seconds\")]");
    reveal_strlit("#[serde(with = \"chrono::naive::serde::ts_seconds_option\")]");
    let plain = "#[serde(with = \"chrono::naive::serde::ts_seconds\")]"@;
    let opt = "#[serde(with = \"chrono::naive::serde::ts_seconds_option\")]"@;
    let suffix = "_option\")]"@;
    assert(plain.len() == 51);
    assert(opt.len() == 58);
    assert(opt.skip(48) =~= suffix);
    assert(plain.skip(41)[0] == 's');
    assert(suffix[0] == '_');
    assert(plain.skip(41) != suffix);
    assert(opt.skip(0) =~= opt);
    assert(plain.skip(0) =~= plain);
    assert(plain.skip(0) != opt);
}

/// The field type and attribute for column `c`, if its type has one.
fn member_type_exec(c: &ColumnSpec) -> (r: Option<(&'static str, &'static str)>)
    ensures
        match member_type(c.data_type, c.not_null) {
            Some((t, a)) => r matches Some((x, y)) && x@ == t && y@ == a,
            None => r is None,
        },
{
    proof {
        reveal_strlit("");
    }
    match &c.data_type {
        ColumnType::BigIntUnsigned(Some(w)) => if *w == 64 {
            Some(("u64", ""))
        } else {
            None
        },
        ColumnType::BigInt(Some(w)) => if *w == 64 {
            Some(("i64", ""))
        } else {
            None
        },
        ColumnType::Varchar(true) => Some(("String", "")),
        ColumnType::Datetime => if c.not_null {
            Some(("NaiveDateTime", "#[serde(with = \"chrono::naive::serde::ts_seconds\")]"))
        } else {
            Some(("NaiveDateTime", "#[serde(with = \"chrono::naive::serde::ts_seconds_option\")]"))
        },
        _ => None,
    }
}

/// The struct member for column `c`.
fn member(keys: &Vec<(String, Option<char>)>, c: &ColumnSpec) -> (r: String)
    ensures
        r@ == member_text(keys@, *c),
{
    let (t, attr) = match member_type_exec(c) {
        Some(p) => p,
        None => {
            return "// unimpl".to_owned();
        },
    };
    let mut s = if in_primary_key_exec(keys, c) {
        "#[sea_orm(primary_key)]\n".to_owned()
    } else {
        String::new()
    };
    s.append(attr);
    s.append("pub ");
    if is_keyword_exec(&c.name) {
        s.append("r#");
    }
    s.append(c.name.as_str());
    if c.not_null {
        s.append(":");
        s.append(t);
        s.append(", \n");
    } else {
        s.append(":Option<");
        s.append(t);
        s.append(">, \n");
    }
    s
}

/// The struct members for the columns of `table`, in order.
pub fn generate_rust_member_list(table: &TableSpec) -> (r: String)
    ensures
        r@ == member_list_text(table.primary_keys@, table.columns@),
{
    let mut out = String::new();
    let mut i: usize = 0;
    let ghost cs = table.columns@;
    assert(cs.take(0) =~= Seq::<ColumnSpec>::empty());
    while i < table.columns.len()
        invariant
            cs == table.columns@,
            0 <= i <= cs.len(),
            out@ == member_list_text(table.primary_keys@, cs.take(i as int)),
        decreases table.columns.len() - i,
    {
        assert(cs.take(i + 1).drop_last() =~= cs.take(i as int));
        let m = member(&table.primary_keys, &table.columns[i]);
        out.append(m.as_str());
        i = i + 1;
    }
    assert(cs.take(cs.len() as int) =~= cs);
    out
}

/// `s` with `/// ` after every line break.
pub open spec fn continue_doc_lines(s: Seq<char>) -> Seq<char>
    decreases s.len(),
{
    if s.len() == 0 {
        s
    } else if s.last() == '\n' {
        continue_doc_lines(s.drop_last()) + "\n/// "@
    } else {
        continue_doc_lines(s.drop_last()).push(s.last())
    }
}

/// The doc comment for a table comment: each of its lines after `/// `.
pub open spec fn doc_comment_text(comment: Option<String>) -> Seq<char> {
    match comment {
        Some(c) => "/// "@ + continue_doc_lines(c@),
        None => Seq::empty(),
    }
}

/// The doc comment for a table comment.
pub fn generate_multi_line_doc_comment(comment: &Option<String>) -> (r: String)
    ensures
        r@ == doc_comment_text(*comment),
{
    match comment {
        Some(c) => {
            let v = str_chars(c.as_str());
            let mut out = "/// ".to_owned();
            let ghost head = out@;
            let mut i: usize = 0;
            assert(v@.take(0) =~= Seq::<char>::empty());
            while i < v.len()
                invariant
                    v@ == c@,
                    0 <= i <= v@.len(),
                    out@ == head + continue_doc_lines(v@.take(i as int)),
                decreases v.len() - i,
            {
                assert(v@.take(i + 1).drop_last() =~= v@.take(i as int));
                assert(v@.take(i + 1).last() == v@[i as int]);
                if v[i] == '\n' {
                    out.append("\n/// ");
                } else {
                    let mut one: Vec<char> = Vec::new();
                    one.push(v[i]);
                    let t = string_from_chars(&one);
                    out.append(t.as_str());
                    assert(t@ =~= seq![v@[i as int]]);
                }
                i = i + 1;
            }
            assert(v@.take(v@.len() as int) =~= v@);
            out
        },
        None => String::new(),
    }
}

/// `t` occurs in `s`.
pub open spec fn contains_text(s: Seq<char>, t: Seq<char>) -> bool {
    exists|i: int| 0 <= i && i + t.len() <= s.len() && #[trigger] s.subrange(i, i + t.len()) == t
}

fn contains_chars(s: &Vec<char>, t: &Vec<char>) -> (r: bool)
    ensures
        r == contains_text(s@, t@),
{
    if t.len() > s.len() {
        return false;
    }
    let last = s.len() - t.len();
    let mut i: usize = 0;
    while i <= last
        invariant
            last == s@.len() - t@.len(),
            t@.len() <= s@.len(),
            0 <= i <= s@.len() - t@.len() + 1,
            forall|k: int| 0 <= k < i ==> #[trigger] s@.subrange(k, k + t@.len()) != t@,
        decreases s.len() - i,
    {
        let slen = s.len();
        assert(i + t@.len() <= slen);
        let mut j: usize = 0;
        let mut same = true;
        while j < t.len()
            invariant
                slen == s@.len(),
                i + t@.len() <= slen,
                0 <= j <= t@.len(),
                same == (forall|m: int| 0 <= m < j ==> s@[i + m] == t@[m]),
            decreases t.len() - j,
        {
            if s[i + j] != t[j] {
                same = false;
            }
            j = j + 1;
        }
        if same {
            assert(s@.subrange(i as int, i + t@.len()) =~= t@);
            return true;
        }
        assert(s@.subrange(i as int, i + t@.len()) != t@) by {
            let m = choose|m: int| 0 <= m < t@.len() && s@[i + m] != t@[m];
            assert(s@.subrange(i as int, i + t@.len())[m] == s@[i + m]);
        }
        i = i + 1;
    }
    false
}

/// The imports a model file needs: `chrono`'s `NaiveDateTime` when the
/// members use it, then the derives' crates.
pub open spec fn using_text(code: Seq<char>) -> Seq<char> {
    (if contains_text(code, "NaiveDateTime"@) {
        "use chrono::NaiveDateTime;"@
    } else {
        Seq::empty()
    })
        + "\nuse serde::{Deserialize, Serialize};\nuse sqlx::FromRow;\nuse utoipa::ToSchema;\nuse sea_orm::entity::prelude::*;\n    "@
}

/// The imports for a model file whose members are `code`.
pub fn generate_using(code: &str) -> (r: String)
    ensures
        r@ == using_text(code@),
{
    let s = str_chars(code);
    let t = str_chars("NaiveDateTime");
    let mut out = if contains_chars(&s, &t) {
        "use chrono::NaiveDateTime;".to_owned()
    } else {
        String::new()
    };
    out.append(
        "\nuse serde::{Deserialize, Serialize};\nuse sqlx::FromRow;\nuse utoipa::ToSchema;\nuse sea_orm::entity::prelude::*;\n    ",
    );
    out
}

/// The model source for a table.
pub open spec fn model_source_text(table: TableSpec) -> Seq<char> {
    let members = member_list_text(table.primary_keys@, table.columns@);
    "\n"@ + using_text(members) + "\n"@ + doc_comment_text(table.comment)
        + "\n#[derive(Debug, Clone, PartialEq, Eq, Hash, FromRow, Serialize, Deserialize, ToSchema, DeriveEntityModel)]\n#[sea_orm(table_name = \""@
        + table.name@ + "\")]\npub struct Model {\n"@ + members
        + "\n}\n\n#[derive(Copy, Clone, Debug, EnumIter)]\npub enum Relation {}\n\nimpl RelationTrait for Relation {\n    fn def(&self) -> RelationDef {\n        panic!(\"No Relation\");\n    }\n}\n\nimpl ActiveModelBehavior for ActiveModel {}\n    "@
}

/// The model source file for a table, named after it.
pub fn generate_rust_source(table: &TableSpec) -> (r: SourceFile)
    ensures
        r.source@ == model_source_text(*table),
        r.filename@ == table.name@ + ".rs"@,
{
    let members = generate_rust_member_list(table);
    let doc = generate_multi_line_doc_comment(&table.comment);
    let using = generate_using(members.as_str());
    let mut source = "\n".to_owned();
    source.append(using.as_str());
    source.append("\n");
    source.append(doc.as_str());
    source.append(
        "\n#[derive(Debug, Clone, PartialEq, Eq, Hash, FromRow, Serialize, Deserialize, ToSchema, DeriveEntityModel)]\n#[sea_orm(table_name = \"",
    );
    source.append(table.name.as_str());
    source.append("\")]\npub struct Model {\n");
    source.append(members.as_str());
    source.append(
        "\n}\n\n#[derive(Copy, Clone, Debug, EnumIter)]\npub enum Relation {}\n\nimpl RelationTrait for Relation {\n    fn def(&self) -> RelationDef {\n        panic!(\"No Relation\");\n    }\n}\n\nimpl ActiveModelBehavior for ActiveModel {}\n    ",
    );
    let mut filename = table.name.clone();
    filename.append(".rs");
    SourceFile { source, filename }
}

/// The module name for a source file name: without its `.rs`.
pub fn mod_name(filename: &str) -> (r: String)
    ensures
        filename@.len() >= 3 && filename@.skip(filename@.len() - 3) == ".rs"@ ==> r@
            == filename@.take(filename@.len() - 3),
        !(filename@.len() >= 3 && filename@.skip(filename@.len() - 3) == ".rs"@) ==> r@ == filename@,
{
    let v = str_chars(filename);
    proof {
        reveal_strlit(".rs");
    }
    let n = v.len();
    assert(".rs"@ =~= seq!['.', 'r', 's']);
    if n >= 3 && v[n - 3] == '.' && v[n - 2] == 'r' && v[n - 1] == 's' {
        assert(v@.skip(n - 3) =~= seq!['.', 'r', 's']);
        crate::text::substring(filename, 0, n - 3)
    } else {
        proof {
            assert(".rs"@ =~= seq!['.', 'r', 's']);
            if n >= 3 && v@.skip(n - 3) == ".rs"@ {
                assert(v@.skip(n - 3)[0] == v@[n - 3]);
                assert(v@.skip(n - 3)[1] == v@[n - 2]);
                assert(v@.skip(n - 3)[2] == v@[n - 1]);
            }
        }
        filename.to_owned()
    }
}


/// `s` with every `--` that ends a line removed together with its line
/// break (scanning from the left, as `str::replace` does).
pub open spec fn strip_bare_comments(s: Seq<char>) -> Seq<char>
    decreases s.len(),
{
    if s.len() >= 3 && s[0] == '-' && s[1] == '-' && s[2] == '\n' {
        strip_bare_comments(s.skip(3))
    } else if s.len() == 0 {
        s
    } else {
        seq![s[0]] + strip_bare_comments(s.skip(1))
    }
}

/// Removes the bare `--` comment lines that the SQL parser cannot read.
pub fn strip_bare_comment_markers(sql: &str) -> (r: String)
    ensures
        r@ == strip_bare_comments(sql@),
{
    let v = str_chars(sql);
    let ghost s = v@;
    let mut out: Vec<char> = Vec::new();
    let mut i: usize = 0;
    assert(s.skip(0) =~= s);
    while i < v.len()
        invariant
            s == v@,
            0 <= i <= s.len(),
            strip_bare_comments(s) == out@ + strip_bare_comments(s.skip(i as int)),
        decreases v.len() - i,
    {
        let ghost rest = s.skip(i as int);
        if v.len() - i > 2 && v[i] == '-' && v[i + 1] == '-' && v[i + 2] == '\n' {
            assert(rest[0] == '-' && rest[1] == '-' && rest[2] == '\n');
            assert(rest.skip(3) =~= s.skip(i + 3));
            i = i + 3;
        } else {
            assert(!(rest.len() >= 3 && rest[0] == '-' && rest[1] == '-' && rest[2] == '\n')) by {
                if rest.len() >= 3 {
                    assert(rest[0] == s[i as int] && rest[1] == s[i + 1] && rest[2] == s[i + 2]);
                }
            }
            assert(rest.skip(1) =~= s.skip(i + 1));
            assert(rest[0] == v@[i as int]);
            let ghost before = out@;
            out.push(v[i]);
            assert(out@ + strip_bare_comments(s.skip(i + 1)) =~= before + (seq![rest[0]]
                + strip_bare_comments(rest.skip(1))));
            i = i + 1;
        }
    }
    assert(s.skip(i as int) =~= Seq::<char>::empty());
    assert(out@ + Seq::<char>::empty() =~= out@);
    string_from_chars(&out)
}

} // verus!
