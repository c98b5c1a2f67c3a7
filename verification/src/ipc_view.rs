//! The field rules of the rkyv IPC view macro: which fields of an entity the
//! view keeps, which of their attributes it keeps, and how each kept field
//! is converted from the entity's.

use vstd::prelude::*;

verus! {

/// A field of the macro's input: its name, whether it is written
/// `skip name,`, and for each of its attributes the attribute's path when
/// that path is a single identifier.
#[derive(Debug)]
pub struct ViewFieldInput {
    pub name: String,
    pub skip: bool,
    pub attr_paths: Vec<Option<String>>,
}

/// How a kept field's value is made from the entity's.
#[derive(Debug, Clone, Copy, PartialEq, Eq, Structural)]
pub enum Conversion {
    /// `#[as_i64]`: the date-time as its UTC timestamp.
    Timestamp,
    /// Anything else: through `Into`.
    Into,
}

/// What the view does with a field.
#[derive(Debug)]
pub enum ViewFieldPlan {
    /// Left out of the view, ignored in the conversion.
    Skipped,
    /// Kept, with the attributes at these positions, converted this way.
    Kept { kept_attrs: Vec<usize>, conversion: Conversion },
}

/// The attribute path is `as_i64`.
pub open spec fn is_as_i64(p: Option<String>) -> bool {
    p matches Some(s) && s@ == "as_i64"@
}

/// The positions of the attributes that are not `#[as_i64]`, in order.
pub open spec fn kept_positions(paths: Seq<Option<String>>) -> Seq<usize>
    decreases paths.len(),
{
    if paths.len() == 0 {
        Seq::empty()
    } else {
        let before = kept_positions(paths.drop_last());
        if is_as_i64(paths.last()) {
            before
        } else {
            before.push((paths.len() - 1) as usize)
        }
    }
}

/// What the view does with field `f`.
pub open spec fn field_plan_ok(f: ViewFieldInput, p: ViewFieldPlan) -> bool {
    if f.skip {
        p is Skipped
    } else {
        p matches ViewFieldPlan::Kept { kept_attrs, conversion } && kept_attrs@ == kept_positions(
            f.attr_paths@,
        ) && (conversion == Conversion::Timestamp <==> exists|k: int|
            0 <= k < f.attr_paths@.len() && #[trigger] is_as_i64(f.attr_paths@[k]))
    }
}

fn is_as_i64_exec(p: &Option<String>) -> (r: bool)
    ensures
        r == is_as_i64(*p),
{
    match p {
        Some(s) => {
            let t = "as_i64".to_owned();
            *s == t
        },
        None => false,
    }
}

/// What the view does with one field.
pub fn plan_view_field(f: &ViewFieldInput) -> (r: ViewFieldPlan)
    ensures
        field_plan_ok(*f, r),
{
    if f.skip {
        return ViewFieldPlan::Skipped;
    }
    let paths = &f.attr_paths;
    let mut kept: Vec<usize> = Vec::new();
    let mut timestamp = false;
    let mut i: usize = 0;
    assert(paths@.take(0) =~= Seq::<Option<String>>::empty());
    while i < paths.len()
        invariant
            paths@ == f.attr_paths@,
            i <= paths@.len(),
            kept@ == kept_positions(paths@.take(i as int)),
            timestamp == exists|k: int| 0 <= k < i && #[trigger] is_as_i64(paths@[k]),
        decreases paths.len() - i,
    {
        assert(paths@.take(i + 1).drop_last() =~= paths@.take(i as int));
        assert(paths@.take(i + 1).last() == paths@[i as int]);
        if is_as_i64_exec(&paths[i]) {
            timestamp = true;
        } else {
            kept.push(i);
        }
        i = i + 1;
    }
    assert(paths@.take(paths@.len() as int) =~= paths@);
    let conversion = if timestamp {
        Conversion::Timestamp
    } else {
        Conversion::Into
    };
    ViewFieldPlan::Kept { kept_attrs: kept, conversion }
}

/// What the view does with each field, in order.
pub fn plan_view_fields(fields: &Vec<ViewFieldInput>) -> (r: Vec<ViewFieldPlan>)
    ensures
        r@.len() == fields@.len(),
        forall|k: int| 0 <= k < r@.len() ==> field_plan_ok(fields@[k], #[trigger] r@[k]),
{
    let mut r: Vec<ViewFieldPlan> = Vec::new();
    let mut i: usize = 0;
    while i < fields.len()
        invariant
            i <= fields@.len(),
            r@.len() == i,
            forall|k: int| 0 <= k < i ==> field_plan_ok(fields@[k], #[trigger] r@[k]),
        decreases fields.len() - i,
    {
        r.push(plan_view_field(&fields[i]));
        i = i + 1;
    }
    r
}

} // verus!
