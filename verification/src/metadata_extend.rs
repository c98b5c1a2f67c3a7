//! What the `MetadataExtend` derive decides for a struct: the key its
//! pairs are stored under, and for each field how it is written to and
//! read back from a `key:field` string pair.

use vstd::prelude::*;

verus! {

/// The shape of a type argument, as far as the derive looks at it.
#[derive(Debug)]
pub struct InnerType {
    /// Whether the type is a path (such as `String` or `a::B<C>`).
    pub is_path: bool,
    /// The last segment's identifier, when it is a path with segments.
    pub last: Option<String>,
}

/// The generic arguments of a path's last segment.
#[derive(Debug)]
pub enum TypeArgs {
    /// No angle-bracketed arguments.
    NotAngle,
    /// Angle brackets whose first argument is no type (or that are empty).
    AngleFirstNotType,
    /// Angle brackets whose first argument is a type.
    AngleFirstType(InnerType),
}

/// The shape of a field's type, as far as the derive looks at it.
#[derive(Debug)]
pub enum TypeShape {
    /// Not a path (a reference, a tuple, ...).
    NotPath,
    /// A path: its last segment's identifier (none when it has no
    /// segments) and that segment's generic arguments.
    Path { last: Option<String>, args: TypeArgs },
}

/// How a field is stored.
#[derive(Debug, Clone, Copy, PartialEq, Eq, Structural)]
pub enum FieldKind {
    /// `String`: stored as it is; missing reads as empty.
    String,
    /// `Option<String>`: stored when present.
    OptString,
    /// Any other type: stored as text and parsed back; missing reads as
    /// the default.
    Value,
    /// `Option<T>` of another `T`: stored as text when present.
    OptValue,
}

/// Which type the stored text is parsed back into.
#[derive(Debug, Clone, Copy, PartialEq, Eq, Structural)]
pub enum ParseTarget {
    /// The text is used as it is.
    NoParse,
    /// The field's own type.
    Whole,
    /// The type inside the field's `Option`.
    Inner,
}

pub open spec fn is_named(o: Option<String>, name: Seq<char>) -> bool {
    o matches Some(s) && s@ == name
}

/// How a field of type `t` is stored, and what its text is parsed into.
pub open spec fn classify_spec(t: TypeShape) -> (FieldKind, ParseTarget) {
    match t {
        TypeShape::NotPath => (FieldKind::Value, ParseTarget::Whole),
        TypeShape::Path { last, args } => if last is None {
            (FieldKind::Value, ParseTarget::Whole)
        } else if is_named(last, "String"@) {
            (FieldKind::String, ParseTarget::NoParse)
        } else if is_named(last, "Option"@) {
            match args {
                TypeArgs::AngleFirstType(inner) => if inner.is_path && is_named(
                    inner.last,
                    "String"@,
                ) {
                    (FieldKind::OptString, ParseTarget::NoParse)
                } else {
                    (FieldKind::OptValue, ParseTarget::Inner)
                },
                _ => (FieldKind::OptValue, ParseTarget::Whole),
            }
        } else {
            (FieldKind::Value, ParseTarget::Whole)
        },
    }
}

fn named(o: &Option<String>, name: &str) -> (b: bool)
    ensures
        b == is_named(*o, name@),
{
    match o {
        Some(s) => *s == name.to_owned(),
        None => false,
    }
}

/// Classifies a field by its type: `String`, `Option<String>`, another
/// `Option<T>` (parsed into `T`), or anything else (parsed into itself).
pub fn classify(t: &TypeShape) -> (r: (FieldKind, ParseTarget))
    ensures
        r == classify_spec(*t),
{
    match t {
        TypeShape::NotPath => (FieldKind::Value, ParseTarget::Whole),
        TypeShape::Path { last, args } => {
            if last.is_none() {
                (FieldKind::Value, ParseTarget::Whole)
            } else if named(last, "String") {
                (FieldKind::String, ParseTarget::NoParse)
            } else if named(last, "Option") {
                match args {
                    TypeArgs::AngleFirstType(inner) => {
                        if inner.is_path && named(&inner.last, "String") {
                            (FieldKind::OptString, ParseTarget::NoParse)
                        } else {
                            (FieldKind::OptValue, ParseTarget::Inner)
                        }
                    },
                    _ => (FieldKind::OptValue, ParseTarget::Whole),
                }
            } else {
                (FieldKind::Value, ParseTarget::Whole)
            }
        },
    }
}

/// A field as the derive stores it.
#[derive(Debug)]
pub struct ExtendField {
    pub name: String,
    pub kind: FieldKind,
    pub parse: ParseTarget,
    /// The key of the field's pair: the struct's key, `:` and the field's
    /// name.
    pub pair_key: String,
}

/// What the derive generates for a struct.
#[derive(Debug)]
pub struct ExtendPlan {
    /// The key from `#[extend(key = "...")]`.
    pub key: String,
    /// The fields, in declaration order.
    pub fields: Vec<ExtendField>,
}

/// Why the derive refuses a type.
#[derive(Debug, Clone, Copy, PartialEq, Eq, Structural)]
pub enum ExtendError {
    /// No `#[extend(key = "...")]` attribute.
    MissingKey,
    /// Not a struct with named fields.
    NotNamedStruct,
}

pub open spec fn extend_error_text(e: ExtendError) -> Seq<char> {
    match e {
        ExtendError::MissingKey => "missing #[extend(key = \"...\")] attribute"@,
        ExtendError::NotNamedStruct => "MetadataExtend only supports structs with named fields"@,
    }
}

impl ExtendError {
    /// The message the derive reports.
    pub fn to_string(&self) -> (r: String)
        ensures
            r@ == extend_error_text(*self),
    {
        match self {
            ExtendError::MissingKey => "missing #[extend(key = \"...\")] attribute".to_owned(),
            ExtendError::NotNamedStruct => "MetadataExtend only supports structs with named fields".to_owned(),
        }
    }
}

/// `f` is how the derive stores a field `name` of type `t` under `key`.
pub open spec fn field_describes(f: ExtendField, key: Seq<char>, name: Seq<char>, t: TypeShape) -> bool {
    &&& f.name@ == name
    &&& (f.kind, f.parse) == classify_spec(t)
    &&& f.pair_key@ == key + ":"@ + name
}

/// Decides what the derive generates, given the keys of the type's
/// `#[extend(key = "...")]` attributes in order (the last one counts) and
/// its named fields with their types (none when it is not a struct with
/// named fields).
pub fn expand(extend_keys: &Vec<String>, fields: &Option<Vec<(String, TypeShape)>>) -> (r: Result<
    ExtendPlan,
    ExtendError,
>)
    ensures
        match r {
            Err(e) => if extend_keys@.len() == 0 {
                e == ExtendError::MissingKey
            } else {
                fields is None && e == ExtendError::NotNamedStruct
            },
            Ok(plan) => {
                &&& extend_keys@.len() > 0
                &&& plan.key@ == extend_keys@.last()@
                &&& fields matches Some(fs) && plan.fields@.len() == fs@.len() && forall|i: int|
                    0 <= i < fs@.len() ==> field_describes(
                        #[trigger] plan.fields@[i],
                        plan.key@,
                        fs@[i].0@,
                        fs@[i].1,
                    )
            },
        },
{
    if extend_keys.len() == 0 {
        return Err(ExtendError::MissingKey);
    }
    let key = extend_keys[extend_keys.len() - 1].clone();
    let fs = match fields {
        Some(fs) => fs,
        None => {
            return Err(ExtendError::NotNamedStruct);
        },
    };
    let mut out: Vec<ExtendField> = Vec::new();
    let mut i: usize = 0;
    while i < fs.len()
        invariant
            i <= fs@.len(),
            out@.len() == i,
            forall|j: int|
                0 <= j < i ==> field_describes(#[trigger] out@[j], key@, fs@[j].0@, fs@[j].1),
        decreases fs@.len() - i,
    {
        let (kind, parse) = classify(&fs[i].1);
        let mut pair_key = key.clone();
        pair_key.append(":");
        pair_key.append(fs[i].0.as_str());
        out.push(ExtendField { name: fs[i].0.clone(), kind, parse, pair_key });
        i = i + 1;
    }
    Ok(ExtendPlan { key, fields: out })
}

} // verus!
