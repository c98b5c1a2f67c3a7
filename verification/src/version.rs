//! Dotted plugin versions (`1.2.3`) and the `^` / `~` requirement rules.

use vstd::prelude::*;
use vstd::string::*;

use crate::text::{
    lemma_split_char_len, split_char, split_ranges, str_chars, substring, trim, trim_range,
    parse_bounded, parse_unsigned, parse_u64_value, value_or_zero, digits_value, digit_value, all_digits,
};

verus! {

/// A version: its dot-separated components, kept as written.
#[derive(Debug)]
pub struct Version(pub Vec<String>);

impl View for Version {
    type V = Seq<Seq<char>>;

    open spec fn view(&self) -> Seq<Seq<char>> {
        self.0@.map_values(|s: String| s@)
    }
}

/// The components of the version written as `s`: the trimmed text split at
/// each `.`, every piece trimmed again.
pub open spec fn version_parts(s: Seq<char>) -> Seq<Seq<char>> {
    split_char(trim(s), '.').map_values(|p: Seq<char>| trim(p))
}

/// The components as numbers (a component that is not a `u64` counts as 0).
pub open spec fn pvals(v: Seq<Seq<char>>) -> Seq<nat> {
    v.map_values(|s: Seq<char>| value_or_zero(s))
}

/// Number `i` of `x`, padded with zeros past its end.
pub open spec fn nat_at(x: Seq<nat>, i: int) -> nat {
    if 0 <= i < x.len() {
        x[i]
    } else {
        0
    }
}

pub open spec fn max_len(x: Seq<nat>, y: Seq<nat>) -> int {
    if x.len() > y.len() {
        x.len() as int
    } else {
        y.len() as int
    }
}

/// How `x` compares with `y` from index `i` on, both padded with zeros and
/// read from the left: -1, 0 or 1.
pub open spec fn num_order_from(x: Seq<nat>, y: Seq<nat>, i: int) -> int
    decreases max_len(x, y) - i,
{
    if i < 0 || i >= max_len(x, y) {
        0
    } else if nat_at(x, i) < nat_at(y, i) {
        -1
    } else if nat_at(x, i) > nat_at(y, i) {
        1
    } else {
        num_order_from(x, y, i + 1)
    }
}

/// Index of the first number of `r` that is not 0, or `r.len()`.
pub open spec fn find_non_zero(r: Seq<nat>) -> nat
    decreases r.len(),
{
    if r.len() == 0 {
        0
    } else if r[0] != 0 {
        0
    } else {
        1 + find_non_zero(r.drop_first())
    }
}

/// The last number that a `^` requirement locks: its left-most non-zero
/// one (the first if all are 0).
pub open spec fn caret_lock_end(r: Seq<nat>) -> int {
    if find_non_zero(r) < r.len() {
        find_non_zero(r) as int
    } else {
        0
    }
}

/// The components as numbers for finding the left-most non-zero one: a
/// component that is not a `u64` counts as non-zero (it is not `0`).
pub open spec fn lock_vals(v: Seq<Seq<char>>) -> Seq<nat> {
    v.map_values(|s: Seq<char>| match parse_u64_value(s) {
        Some(n) => n,
        None => 1nat,
    })
}

/// The last number that a `~` requirement of `n` numbers locks: all but
/// the last, or the only one.
pub open spec fn tilde_lock_end(n: int) -> int {
    if n <= 1 {
        0
    } else {
        n - 2
    }
}

/// Component `a` agrees with component `b` of a requirement: as numbers
/// where both are `u64`s, as texts otherwise.
pub open spec fn part_agrees(a: Seq<char>, b: Seq<char>) -> bool {
    match (parse_u64_value(a), parse_u64_value(b)) {
        (Some(x), Some(y)) => x == y,
        _ => a == b,
    }
}

/// Component `i` of `v` agrees with component `i` of `r`; a component
/// past the end of `v` agrees only with a component that is the number 0.
pub open spec fn locked_part_ok(v: Seq<Seq<char>>, r: Seq<Seq<char>>, i: int) -> bool {
    if i < v.len() {
        part_agrees(v[i], r[i])
    } else {
        parse_u64_value(r[i]) == Some(0nat)
    }
}

/// `x` equals `r` on the numbers up to index `e`, and is at least `r` on
/// the numbers after it (both padded with zeros).
pub open spec fn within(x: Seq<nat>, r: Seq<nat>, e: int) -> bool {
    &&& forall|i: int| 0 <= i <= e && i < r.len() ==> nat_at(x, i) == r[i]
    &&& num_order_from(x, r, e + 1) >= 0
}

/// `v` lies in the range that locks `r` up to component `e`: it agrees
/// with `r` on the components up to `e`, and after them it is at least `r`
/// as numbers padded with zeros (a component that is not a `u64` counts as
/// 0 there).
pub open spec fn within_parts_spec(v: Seq<Seq<char>>, r: Seq<Seq<char>>, e: int) -> bool {
    &&& forall|i: int| 0 <= i <= e && i < r.len() ==> #[trigger] locked_part_ok(v, r, i)
    &&& num_order_from(pvals(v), pvals(r), e + 1) >= 0
}

/// `v` satisfies the `^r` requirement: it agrees with `r` up to `r`'s
/// left-most component that is not the number 0, and is at least `r`
/// after it; for numeric versions, `r <= v` and `v` is below `r` with that
/// component raised by one (see `lemma_caret_range`).
pub open spec fn caret_matches(v: Seq<Seq<char>>, r: Seq<Seq<char>>) -> bool {
    within_parts_spec(v, r, caret_lock_end(lock_vals(r)))
}

/// `v` satisfies the `~r` requirement: it agrees with `r` on all but `r`'s
/// last component (on the only one, when `r` has one) and is at least `r`
/// after that; for numeric versions, see `lemma_tilde_range`.
pub open spec fn tilde_matches(v: Seq<Seq<char>>, r: Seq<Seq<char>>) -> bool {
    within_parts_spec(v, r, tilde_lock_end(r.len() as int))
}

/// For numeric versions, agreeing component by component is being equal
/// as numbers padded with zeros.
proof fn lemma_within_numeric(v: Seq<Seq<char>>, r: Seq<Seq<char>>, e: int)
    requires
        well_formed(v),
        well_formed(r),
    ensures
        within_parts_spec(v, r, e) <==> within(pvals(v), pvals(r), e),
        lock_vals(r) == pvals(r),
{
    assert forall|i: int| 0 <= i < r.len() implies #[trigger] locked_part_ok(v, r, i)
        == (nat_at(pvals(v), i) == pvals(r)[i]) by {
        assert(parse_u64_value(r[i]) is Some);
        assert(pvals(r)[i] == value_or_zero(r[i]));
        if i < v.len() {
            assert(parse_u64_value(v[i]) is Some);
            assert(pvals(v)[i] == value_or_zero(v[i]));
        }
    }
    if within_parts_spec(v, r, e) {
        assert forall|i: int| 0 <= i <= e && i < pvals(r).len() implies nat_at(pvals(v), i) == pvals(r)[i] by {
            assert(locked_part_ok(v, r, i));
        }
    }
    if within(pvals(v), pvals(r), e) {
        assert forall|i: int| 0 <= i <= e && i < r.len() implies #[trigger] locked_part_ok(v, r, i) by {
            assert(nat_at(pvals(v), i) == pvals(r)[i]);
        }
    }
    assert forall|i: int| 0 <= i < r.len() implies lock_vals(r)[i] == pvals(r)[i] by {
        assert(parse_u64_value(r[i]) is Some);
    }
    assert(lock_vals(r) =~= pvals(r));
}

/// `r` with number `e` raised by one and the numbers after it dropped: the
/// first version past the range that locks `r` up to `e`.
pub open spec fn bump(r: Seq<nat>, e: int) -> Seq<nat> {
    r.take(e).push(r[e] + 1)
}

proof fn lemma_find_non_zero(r: Seq<nat>)
    ensures
        find_non_zero(r) <= r.len(),
        forall|j: int| 0 <= j < find_non_zero(r) ==> r[j] == 0,
        find_non_zero(r) < r.len() ==> r[find_non_zero(r) as int] != 0,
    decreases r.len(),
{
    if r.len() > 0 && r[0] == 0 {
        lemma_find_non_zero(r.drop_first());
        assert forall|j: int| 0 <= j < find_non_zero(r) implies r[j] == 0 by {
            if j > 0 {
                assert(r[j] == r.drop_first()[j - 1]);
            }
        }
    }
}

proof fn lemma_order_skip(x: Seq<nat>, y: Seq<nat>, j: int)
    requires
        0 <= j,
        forall|i: int| 0 <= i < j ==> nat_at(x, i) == nat_at(y, i),
    ensures
        num_order_from(x, y, 0) == num_order_from(x, y, j),
    decreases j,
{
    if j > 0 {
        lemma_order_skip(x, y, j - 1);
        if j - 1 >= max_len(x, y) {
            lemma_order_past(x, y, j - 1);
            lemma_order_past(x, y, j);
        }
    }
}

proof fn lemma_order_past(x: Seq<nat>, y: Seq<nat>, i: int)
    requires
        i >= max_len(x, y),
    ensures
        num_order_from(x, y, i) == 0,
{
}

/// Past the end of `y`, `x` is never below it.
proof fn lemma_order_beyond(x: Seq<nat>, y: Seq<nat>, k: int)
    requires
        0 <= k,
        k >= y.len(),
    ensures
        num_order_from(x, y, k) >= 0,
    decreases max_len(x, y) - k,
{
    if k < max_len(x, y) {
        if nat_at(x, k) == nat_at(y, k) {
            lemma_order_beyond(x, y, k + 1);
        }
    }
}

proof fn lemma_order_self(x: Seq<nat>, i: int)
    ensures
        num_order_from(x, x, i) == 0,
    decreases max_len(x, x) - i,
{
    if 0 <= i < max_len(x, x) {
        lemma_order_self(x, i + 1);
    }
}

proof fn lemma_range_back(x: Seq<nat>, r: Seq<nat>, e: int, j: int)
    requires
        0 <= e < r.len(),
        0 <= j <= e + 1,
        forall|i: int| 0 <= i < j ==> nat_at(x, i) == r[i],
        num_order_from(x, r, 0) >= 0,
        num_order_from(x, bump(r, e), 0) < 0,
    ensures
        within(x, r, e),
    decreases e + 1 - j,
{
    let u = bump(r, e);
    assert forall|i: int| 0 <= i < e implies nat_at(u, i) == r[i] by {}
    assert(nat_at(u, e) == r[e] + 1);
    if j == e + 1 {
        assert forall|i: int| 0 <= i < e + 1 implies nat_at(x, i) == nat_at(r, i) by {}
        lemma_order_skip(x, r, e + 1);
    } else if nat_at(x, j) == r[j] {
        lemma_range_back(x, r, e, j + 1);
    } else {
        assert forall|i: int| 0 <= i < j implies nat_at(x, i) == nat_at(r, i) by {}
        lemma_order_skip(x, r, j);
        assert(nat_at(x, j) > r[j]);
        assert forall|i: int| 0 <= i < j implies nat_at(x, i) == nat_at(u, i) by {}
        lemma_order_skip(x, u, j);
        if j == e && nat_at(x, e) == nat_at(u, e) {
            lemma_order_beyond(x, u, e + 1);
        }
    }
}

/// Locking `r` up to number `e` gives the range from `r` up to, and not
/// including, `bump(r, e)`.
pub proof fn lemma_within_range(x: Seq<nat>, r: Seq<nat>, e: int)
    requires
        0 <= e < r.len(),
    ensures
        within(x, r, e) <==> (num_order_from(x, r, 0) >= 0 && num_order_from(x, bump(r, e), 0) < 0),
{
    let u = bump(r, e);
    if within(x, r, e) {
        assert forall|i: int| 0 <= i < e + 1 implies nat_at(x, i) == nat_at(r, i) by {}
        lemma_order_skip(x, r, e + 1);
        assert forall|i: int| 0 <= i < e implies nat_at(x, i) == nat_at(u, i) by {}
        lemma_order_skip(x, u, e);
    }
    if num_order_from(x, r, 0) >= 0 && num_order_from(x, u, 0) < 0 {
        lemma_range_back(x, r, e, 0);
    }
}

/// `s.parse::<u64>().unwrap_or(0)`.
pub fn value_or_zero_of(s: &String) -> (r: u64)
    ensures
        r as nat == value_or_zero(s@),
{
    let chars = str_chars(s.as_str());
    let n = chars.len();
    assert(chars@.subrange(0, n as int) =~= s@);
    match parse_bounded(&chars, 0, n, u64::MAX) {
        Some(v) => v,
        None => 0,
    }
}

/// `s.parse::<u64>()`.
pub fn parse_component(s: &String) -> (r: Option<u64>)
    ensures
        match parse_unsigned(s@, u64::MAX as nat) {
            Some(n) => r == Some(n as u64),
            None => r is None,
        },
{
    let chars = str_chars(s.as_str());
    let n = chars.len();
    assert(chars@.subrange(0, n as int) =~= s@);
    parse_bounded(&chars, 0, n, u64::MAX)
}

/// The version written in `v[lo..hi]`, whose text is also `s`.
pub fn version_from_chars(s: &str, v: &Vec<char>, lo: usize, hi: usize) -> (r: Version)
    requires
        v@ == s@,
        lo <= hi <= v@.len(),
    ensures
        r@ == version_parts(v@.subrange(lo as int, hi as int)),
{
    let ghost whole = v@.subrange(lo as int, hi as int);
    let (a, b) = trim_range(v, lo, hi);
    let ranges = split_ranges(v, a, b, '.');
    let ghost pieces = split_char(v@.subrange(a as int, b as int), '.');
    let mut parts: Vec<String> = Vec::new();
    let mut k: usize = 0;
    while k < ranges.len()
        invariant
            k <= ranges@.len(),
            v@ == s@,
            a <= b <= v@.len(),
            pieces == split_char(v@.subrange(a as int, b as int), '.'),
            ranges@.len() == pieces.len(),
            forall|j: int|
                0 <= j < ranges@.len() ==> a <= (#[trigger] ranges@[j]).0 <= ranges@[j].1 <= b
                    && v@.subrange(ranges@[j].0 as int, ranges@[j].1 as int) == pieces[j],
            parts@.len() == k,
            forall|j: int| 0 <= j < k ==> (#[trigger] parts@[j])@ == trim(pieces[j]),
        decreases ranges@.len() - k,
    {
        let (p, q) = ranges[k];
        let (p2, q2) = trim_range(v, p, q);
        let part = substring(s, p2, q2);
        parts.push(part);
        k = k + 1;
    }
    let r = Version(parts);
    assert(r@ =~= version_parts(whole));
    r
}

/// The version written in `s` (what `Version::from` builds).
pub fn version_from_str(s: &str) -> (r: Version)
    ensures
        r@ == version_parts(s@),
{
    let v = str_chars(s);
    let n = v.len();
    assert(v@.subrange(0, n as int) =~= s@);
    version_from_chars(s, &v, 0, n)
}

/// Every version text has at least one dot-separated part.
pub proof fn lemma_version_parts_nonempty(s: Seq<char>)
    ensures
        version_parts(s).len() >= 1,
{
    lemma_split_char_len(trim(s), '.');
}

/// Number `k` of the components `parts` (0 past the end).
fn part_at(parts: &Vec<String>, k: usize) -> (r: u64)
    ensures
        r as nat == nat_at(pvals(parts@.map_values(|s: String| s@)), k as int),
{
    if k < parts.len() {
        value_or_zero_of(&parts[k])
    } else {
        0
    }
}

/// Whether component `a` agrees with requirement component `b`.
fn part_agrees_exec(a: &String, b: &String) -> (r: bool)
    ensures
        r == part_agrees(a@, b@),
{
    match (parse_component(a), parse_component(b)) {
        (Some(x), Some(y)) => x == y,
        _ => *a == *b,
    }
}

/// Whether a component is the number 0.
fn is_zero_part(s: &String) -> (r: bool)
    ensures
        r == (parse_u64_value(s@) == Some(0nat)),
{
    match parse_component(s) {
        Some(x) => x == 0,
        None => false,
    }
}

/// Whether the components `v` lie in the range that locks the components
/// `r` up to number `e`.
fn within_parts(v: &Vec<String>, r: &Vec<String>, e: usize) -> (b: bool)
    requires
        e < r@.len() || e == 0,
    ensures
        b == within_parts_spec(v@.map_values(|s: String| s@), r@.map_values(|s: String| s@), e as int),
{
    let ghost vv = v@.map_values(|s: String| s@);
    let ghost rv = r@.map_values(|s: String| s@);
    let ghost x = pvals(vv);
    let ghost y = pvals(rv);
    let mut i: usize = 0;
    while i < r.len() && i <= e
        invariant
            vv == v@.map_values(|s: String| s@),
            rv == r@.map_values(|s: String| s@),
            i <= r@.len(),
            i <= e + 1,
            forall|j: int| 0 <= j < i ==> #[trigger] locked_part_ok(vv, rv, j),
        decreases r@.len() - i,
    {
        let ok = if i < v.len() {
            part_agrees_exec(&v[i], &r[i])
        } else {
            is_zero_part(&r[i])
        };
        assert(ok == locked_part_ok(vv, rv, i as int));
        if !ok {
            return false;
        }
        i = i + 1;
    }
    let mut k: usize = e + 1;
    while k < r.len()
        invariant
            x == pvals(v@.map_values(|s: String| s@)),
            y == pvals(r@.map_values(|s: String| s@)),
            vv == v@.map_values(|s: String| s@),
            rv == r@.map_values(|s: String| s@),
            forall|j: int| 0 <= j <= e && j < rv.len() ==> #[trigger] locked_part_ok(vv, rv, j),
            e + 1 <= k,
            num_order_from(x, y, e + 1) == num_order_from(x, y, k as int),
        decreases r@.len() - k,
    {
        let a = part_at(v, k);
        let c = part_at(r, k);
        assert(nat_at(y, k as int) == c);
        if a > c {
            return true;
        } else if a < c {
            return false;
        }
        k = k + 1;
    }
    proof {
        lemma_order_beyond(x, y, k as int);
    }
    true
}

impl Version {
    pub fn new(version: Vec<String>) -> (r: Self)
        ensures
            r@ == version@.map_values(|s: String| s@),
    {
        Version(version)
    }

    /// The components, as written.
    pub fn into_inner(&self) -> (r: &[String])
        ensures
            r@.map_values(|s: String| s@) == self@,
    {
        self.0.as_slice()
    }

    /// Whether this version satisfies the `^required` requirement: it is at
    /// least `required` and below the version that raises the left-most
    /// non-zero part of `required` by one (`^1.2.3` is `[1.2.3, 2.0.0)`,
    /// `^0.2.3` is `[0.2.3, 0.3.0)`). Locked parts agree as numbers where
    /// both are numbers and as texts otherwise; later parts compare as
    /// numbers (a part that is not one counts as 0); missing parts count as
    /// zero.
    pub fn matches_caret(&self, required: &Version) -> (r: bool)
        ensures
            r == caret_matches(self@, required@),
    {
        let req_parts = &required.0;
        let ghost y = lock_vals(required@);
        proof {
            lemma_find_non_zero(y);
        }
        let mut f: usize = 0;
        while f < req_parts.len() && is_zero_part(&req_parts[f])
            invariant
                f <= req_parts@.len(),
                req_parts@.map_values(|s: String| s@) == required@,
                y == lock_vals(required@),
                forall|j: int| 0 <= j < f ==> y[j] == 0,
            decreases req_parts@.len() - f,
        {
            assert(required@[f as int] == req_parts@[f as int]@);
            f = f + 1;
        }
        proof {
            if f < req_parts.len() {
                assert(required@[f as int] == req_parts@[f as int]@);
            }
            assert(find_non_zero(y) == f) by {
                lemma_find_non_zero(y);
                if find_non_zero(y) < f {
                    let z = find_non_zero(y) as int;
                    assert(y[z] == 0);
                }
                if find_non_zero(y) > f {
                    assert(y[f as int] == 0);
                }
            }
        }
        let e = if f < req_parts.len() {
            f
        } else {
            0
        };
        within_parts(&self.0, req_parts, e)
    }

    /// Whether this version satisfies the `~required` requirement: it is at
    /// least `required` and keeps every part of `required` but its last (its
    /// only part, when it has one): `~1.2.3` is
    /// `[1.2.3, 1.3.0)`, `~1` is `[1.0.0, 2.0.0)`, and `~1.2` admits `1.5`.
    /// Locked parts agree as numbers where both are numbers and as texts
    /// otherwise; the last part compares as a number (a part that is not
    /// one counts as 0); missing parts count as zero.
    pub fn matches_tilde(&self, required: &Version) -> (r: bool)
        requires
            required@.len() > 0,
        ensures
            r == tilde_matches(self@, required@),
    {
        let n = required.0.len();
        let e = if n <= 1 {
            0
        } else {
            n - 2
        };
        within_parts(&self.0, &required.0, e)
    }

    /// The components joined with `.` (what `Display` shows).
    pub fn to_string(&self) -> (r: String)
        ensures
            r@ == join_dots(self@),
    {
        let mut out: String = String::new();
        let mut i: usize = 0;
        while i < self.0.len()
            invariant
                i <= self.0@.len(),
                self.0@.map_values(|s: String| s@) == self@,
                out@ == join_dots(self@.take(i as int)),
            decreases self.0@.len() - i,
        {
            if i > 0 {
                out.append(".");
                proof {
                    reveal_strlit(".");
                }
            }
            out.append(self.0[i].as_str());
            proof {
                assert(self@.take(i + 1).drop_last() =~= self@.take(i as int));
            }
            i = i + 1;
        }
        assert(self@.take(self@.len() as int) =~= self@);
        out
    }
}

/// The components joined with `.`.
pub open spec fn join_dots(parts: Seq<Seq<char>>) -> Seq<char>
    decreases parts.len(),
{
    if parts.len() == 0 {
        seq![]
    } else if parts.len() == 1 {
        parts[0]
    } else {
        join_dots(parts.drop_last()) + seq!['.'] + parts.last()
    }
}

/// `a` without its first component (`a` itself when it has none).
pub open spec fn rest(a: Seq<Seq<char>>) -> Seq<Seq<char>> {
    if a.len() > 0 {
        a.drop_first()
    } else {
        a
    }
}

/// The components of `a` from index `i` on (none when `i` is past the end).
pub open spec fn tail_from(a: Seq<Seq<char>>, i: int) -> Seq<Seq<char>> {
    if 0 <= i < a.len() {
        a.skip(i)
    } else {
        Seq::empty()
    }
}

/// Numeric comparison of two component lists, the shorter one padded with
/// zeros, from the left: `Some(-1)`, `Some(0)` or `Some(1)`; `None` where a
/// component that the comparison has to read is not a `u64`.
pub open spec fn compare_components(a: Seq<Seq<char>>, b: Seq<Seq<char>>) -> Option<int>
    decreases a.len() + b.len(),
{
    if a.len() == 0 && b.len() == 0 {
        Some(0)
    } else {
        let x = if a.len() > 0 {
            parse_u64_value(a[0])
        } else {
            Some(0nat)
        };
        let y = if b.len() > 0 {
            parse_u64_value(b[0])
        } else {
            Some(0nat)
        };
        match (x, y) {
            (Some(x), Some(y)) => if x < y {
                Some(-1)
            } else if x > y {
                Some(1)
            } else {
                compare_components(rest(a), rest(b))
            },
            _ => None,
        }
    }
}

/// How two versions compare: identical component lists are equal; otherwise
/// the components are compared as numbers (see `compare_components`).
pub open spec fn version_compare(a: Seq<Seq<char>>, b: Seq<Seq<char>>) -> Option<int> {
    if a == b {
        Some(0)
    } else {
        compare_components(a, b)
    }
}

/// Comparing components gives -1, 0 or 1 when it gives anything.
pub proof fn lemma_compare_components_sign(a: Seq<Seq<char>>, b: Seq<Seq<char>>)
    ensures
        compare_components(a, b) matches Some(c) ==> c == -1 || c == 0 || c == 1,
    decreases a.len() + b.len(),
{
    if !(a.len() == 0 && b.len() == 0) {
        let x = if a.len() > 0 { parse_u64_value(a[0]) } else { Some(0nat) };
        let y = if b.len() > 0 { parse_u64_value(b[0]) } else { Some(0nat) };
        if let (Some(x), Some(y)) = (x, y) {
            if x == y {
                lemma_compare_components_sign(rest(a), rest(b));
            }
        }
    }
}

/// Comparing versions gives -1 (below), 0 (equal) or 1 (above) when it
/// gives anything; equal component lists compare equal.
pub proof fn lemma_version_compare_sign(a: Seq<Seq<char>>, b: Seq<Seq<char>>)
    ensures
        version_compare(a, b) matches Some(c) ==> c == -1 || c == 0 || c == 1,
        a == b ==> version_compare(a, b) == Some(0int),
{
    lemma_compare_components_sign(a, b);
}

/// Every component is a `u64` in decimal.
pub open spec fn well_formed(a: Seq<Seq<char>>) -> bool {
    forall|i: int| 0 <= i < a.len() ==> (#[trigger] parse_u64_value(a[i])) is Some
}

/// Whether two lists of strings hold the same texts.
fn same_texts(a: &Vec<String>, b: &Vec<String>) -> (r: bool)
    ensures
        r == (a@.map_values(|s: String| s@) == b@.map_values(|s: String| s@)),
{
    if a.len() != b.len() {
        assert(a@.map_values(|s: String| s@).len() != b@.map_values(|s: String| s@).len());
        return false;
    }
    let mut i: usize = 0;
    while i < a.len()
        invariant
            a@.len() == b@.len(),
            i <= a@.len(),
            forall|j: int| 0 <= j < i ==> a@[j]@ == b@[j]@,
        decreases a@.len() - i,
    {
        if a[i] != b[i] {
            assert(a@.map_values(|s: String| s@)[i as int] != b@.map_values(|s: String| s@)[i as int]);
            return false;
        }
        i = i + 1;
    }
    assert(a@.map_values(|s: String| s@) =~= b@.map_values(|s: String| s@));
    true
}

impl Version {
    /// Compares two versions: `Some(-1)`, `Some(0)` or `Some(1)`, and `None`
    /// where a component that must be read is not a number.
    pub fn compare(&self, other: &Version) -> (r: Option<i8>)
        ensures
            match version_compare(self@, other@) {
                Some(c) => r is Some && r.unwrap() as int == c,
                None => r is None,
            },
    {
        if same_texts(&self.0, &other.0) {
            return Some(0);
        }
        let a = &self.0;
        let b = &other.0;
        let mut i: usize = 0;
        assert(tail_from(self@, 0) =~= self@);
        assert(tail_from(other@, 0) =~= other@);
        while i < a.len() || i < b.len()
            invariant
                a@.map_values(|s: String| s@) == self@,
                b@.map_values(|s: String| s@) == other@,
                self@ != other@,
                compare_components(self@, other@) == compare_components(
                    tail_from(self@, i as int),
                    tail_from(other@, i as int),
                ),
            decreases a@.len() + b@.len() - i,
        {
            let x = if i < a.len() {
                parse_component(&a[i])
            } else {
                Some(0)
            };
            let y = if i < b.len() {
                parse_component(&b[i])
            } else {
                Some(0)
            };
            let ghost ta = tail_from(self@, i as int);
            let ghost tb = tail_from(other@, i as int);
            assert(ta.len() > 0 ==> ta[0] == self@[i as int]);
            assert(tb.len() > 0 ==> tb[0] == other@[i as int]);
            assert(rest(ta) =~= tail_from(self@, i + 1));
            assert(rest(tb) =~= tail_from(other@, i + 1));
            match (x, y) {
                (Some(x), Some(y)) => {
                    if x < y {
                        return Some(-1);
                    } else if x > y {
                        return Some(1);
                    }
                },
                _ => {
                    return None;
                },
            }
            i = i + 1;
        }
        assert(tail_from(self@, i as int) =~= Seq::<Seq<char>>::empty());
        assert(tail_from(other@, i as int) =~= Seq::<Seq<char>>::empty());
        Some(0)
    }
}

impl Clone for Version {
    fn clone(&self) -> (r: Self)
        ensures
            r@ == self@,
    {
        let c = self.0.clone();
        assert(c@ =~= self.0@);
        Version(c)
    }
}

impl<'a> vstd::std_specs::convert::FromSpecImpl<&'a str> for Version {
    open spec fn obeys_from_spec() -> bool {
        false
    }

    open spec fn from_spec(v: &'a str) -> Self {
        arbitrary()
    }
}

impl vstd::std_specs::convert::FromSpecImpl<String> for Version {
    open spec fn obeys_from_spec() -> bool {
        false
    }

    open spec fn from_spec(v: String) -> Self {
        arbitrary()
    }
}

impl<'a> From<&'a str> for Version {
    fn from(value: &'a str) -> (r: Self)
        ensures
            r@ == version_parts(value@),
    {
        version_from_str(value)
    }
}

impl From<String> for Version {
    fn from(value: String) -> (r: Self)
        ensures
            r@ == version_parts(value@),
    {
        version_from_str(value.as_str())
    }
}


proof fn lemma_rest_well_formed(a: Seq<Seq<char>>)
    requires
        well_formed(a),
    ensures
        well_formed(rest(a)),
{
    if a.len() > 0 {
        assert forall|i: int| 0 <= i < rest(a).len() implies (#[trigger] parse_u64_value(
            rest(a)[i],
        )) is Some by {
            assert(rest(a)[i] == a[i + 1]);
            assert(parse_u64_value(a[i + 1]) is Some);
        }
    }
}

/// Swapping the two lists negates the comparison (and keeps it undefined
/// where it was).
pub proof fn lemma_compare_components_converse(a: Seq<Seq<char>>, b: Seq<Seq<char>>)
    ensures
        match compare_components(a, b) {
            Some(c) => compare_components(b, a) == Some(-c),
            None => compare_components(b, a) is None,
        },
    decreases a.len() + b.len(),
{
    if !(a.len() == 0 && b.len() == 0) {
        lemma_compare_components_converse(rest(a), rest(b));
    }
}

/// Lists of well-formed components always compare.
pub proof fn lemma_compare_components_total(a: Seq<Seq<char>>, b: Seq<Seq<char>>)
    requires
        well_formed(a),
        well_formed(b),
    ensures
        compare_components(a, b) is Some,
        compare_components(a, b) matches Some(c) ==> -1 <= c <= 1,
    decreases a.len() + b.len(),
{
    if !(a.len() == 0 && b.len() == 0) {
        if a.len() > 0 {
            assert(parse_u64_value(a[0]) is Some);
        }
        if b.len() > 0 {
            assert(parse_u64_value(b[0]) is Some);
        }
        lemma_rest_well_formed(a);
        lemma_rest_well_formed(b);
        lemma_compare_components_total(rest(a), rest(b));
    }
}

proof fn lemma_compare_components_self(a: Seq<Seq<char>>)
    requires
        well_formed(a),
    ensures
        compare_components(a, a) == Some(0int),
    decreases a.len(),
{
    if a.len() > 0 {
        assert(parse_u64_value(a[0]) is Some);
        lemma_rest_well_formed(a);
        lemma_compare_components_self(rest(a));
    }
}

/// On well-formed versions the textual shortcut agrees with the numeric
/// comparison.
pub proof fn lemma_version_compare_numeric(a: Seq<Seq<char>>, b: Seq<Seq<char>>)
    requires
        well_formed(a),
        well_formed(b),
    ensures
        version_compare(a, b) == compare_components(a, b),
{
    if a == b {
        lemma_compare_components_self(a);
    }
}

proof fn lemma_compare_components_trans(a: Seq<Seq<char>>, b: Seq<Seq<char>>, c: Seq<Seq<char>>)
    requires
        well_formed(a),
        well_formed(b),
        well_formed(c),
        compare_components(a, b) matches Some(x) && x <= 0,
        compare_components(b, c) matches Some(y) && y <= 0,
    ensures
        compare_components(a, c) matches Some(z) && z <= 0 && ((compare_components(a, b)->0 < 0
            || compare_components(b, c)->0 < 0) ==> z < 0),
    decreases a.len() + b.len() + c.len(),
{
    lemma_compare_components_total(a, b);
    lemma_compare_components_total(b, c);
    lemma_compare_components_total(a, c);
    if a.len() > 0 {
        assert(parse_u64_value(a[0]) is Some);
    }
    if b.len() > 0 {
        assert(parse_u64_value(b[0]) is Some);
    }
    if c.len() > 0 {
        assert(parse_u64_value(c[0]) is Some);
    }
    lemma_rest_well_formed(a);
    lemma_rest_well_formed(b);
    lemma_rest_well_formed(c);
    if !(a.len() == 0 && b.len() == 0 && c.len() == 0) {
        let xa = if a.len() > 0 { parse_u64_value(a[0])->0 } else { 0 };
        let xb = if b.len() > 0 { parse_u64_value(b[0])->0 } else { 0 };
        let xc = if c.len() > 0 { parse_u64_value(c[0])->0 } else { 0 };
        if xa == xb && xb == xc {
            lemma_compare_components_trans(rest(a), rest(b), rest(c));
        }
    }
}

/// Version comparison is a total preorder on well-formed versions: it is
/// defined, reflexive, antisymmetric in sign, and transitive (strictly so
/// when either step is strict).
pub proof fn lemma_version_order(a: Seq<Seq<char>>, b: Seq<Seq<char>>, c: Seq<Seq<char>>)
    requires
        well_formed(a),
        well_formed(b),
        well_formed(c),
    ensures
        version_compare(a, a) == Some(0int),
        version_compare(a, b) is Some,
        version_compare(a, b) matches Some(x) ==> -1 <= x <= 1 && version_compare(b, a) == Some(
            -x,
        ),
        version_compare(a, b)->0 <= 0 && version_compare(b, c)->0 <= 0 ==> version_compare(a, c)->0
            <= 0 && ((version_compare(a, b)->0 < 0 || version_compare(b, c)->0 < 0) ==> version_compare(
            a,
            c,
        )->0 < 0),
{
    lemma_version_compare_numeric(a, b);
    lemma_version_compare_numeric(b, a);
    lemma_version_compare_numeric(b, c);
    lemma_version_compare_numeric(a, c);
    lemma_compare_components_total(a, b);
    lemma_compare_components_converse(a, b);
    lemma_compare_components_total(b, c);
    if version_compare(a, b)->0 <= 0 && version_compare(b, c)->0 <= 0 {
        lemma_compare_components_trans(a, b, c);
    }
}

/// Appending a `0` component does not change a version.
pub proof fn lemma_trailing_zero(a: Seq<Seq<char>>)
    requires
        well_formed(a),
    ensures
        version_compare(a, a.push(seq!['0'])) == Some(0int),
        version_compare(a.push(seq!['0']), a) == Some(0int),
    decreases a.len(),
{
    let z = seq!['0'];
    assert(z.drop_last() =~= Seq::<char>::empty());
    assert(digits_value(z.drop_last()) == 0);
    assert(z.last() == '0');
    assert(digit_value('0') == 0);
    assert(digits_value(z) == 0);
    assert(all_digits(z));
    assert(parse_u64_value(z) == Some(0nat));
    assert(a.push(z).len() != a.len());
    lemma_trailing_zero_components(a);
    lemma_compare_components_converse(a, a.push(z));
}

proof fn lemma_trailing_zero_components(a: Seq<Seq<char>>)
    requires
        well_formed(a),
        parse_u64_value(seq!['0']) == Some(0nat),
    ensures
        compare_components(a, a.push(seq!['0'])) == Some(0int),
    decreases a.len(),
{
    let z = seq!['0'];
    if a.len() == 0 {
        let b = a.push(z);
        assert(b.len() == 1);
        assert(b[0] == z);
        assert(rest(b) =~= Seq::<Seq<char>>::empty());
        assert(rest(a) == a);
        assert(compare_components(rest(a), rest(b)) == Some(0int));
    } else {
        assert(parse_u64_value(a[0]) is Some);
        assert(a.push(z)[0] == a[0]);
        assert(rest(a.push(z)) =~= rest(a).push(z));
        lemma_rest_well_formed(a);
        lemma_trailing_zero_components(rest(a));
    }
}

/// On well-formed versions the comparison is that of the numbers, padded
/// with zeros, from index `i` on.
proof fn lemma_compare_numbers_from(a: Seq<Seq<char>>, b: Seq<Seq<char>>, i: int)
    requires
        well_formed(a),
        well_formed(b),
        0 <= i,
    ensures
        compare_components(tail_from(a, i), tail_from(b, i)) == Some(num_order_from(pvals(a), pvals(b), i)),
    decreases max_len(pvals(a), pvals(b)) - i,
{
    let ta = tail_from(a, i);
    let tb = tail_from(b, i);
    assert(rest(ta) =~= tail_from(a, i + 1));
    assert(rest(tb) =~= tail_from(b, i + 1));
    if i < a.len() {
        assert(ta[0] == a[i]);
        assert(parse_u64_value(a[i]) is Some);
    }
    if i < b.len() {
        assert(tb[0] == b[i]);
        assert(parse_u64_value(b[i]) is Some);
    }
    if i < max_len(pvals(a), pvals(b)) {
        lemma_compare_numbers_from(a, b, i + 1);
    } else {
        assert(ta =~= Seq::<Seq<char>>::empty());
        assert(tb =~= Seq::<Seq<char>>::empty());
    }
}

/// On well-formed versions, comparing two versions is comparing their
/// numbers, padded with zeros, from the left.
pub proof fn lemma_version_compare_numbers(a: Seq<Seq<char>>, b: Seq<Seq<char>>)
    requires
        well_formed(a),
        well_formed(b),
    ensures
        version_compare(a, b) == Some(num_order_from(pvals(a), pvals(b), 0)),
{
    lemma_version_compare_numeric(a, b);
    lemma_compare_numbers_from(a, b, 0);
    assert(tail_from(a, 0) =~= a);
    assert(tail_from(b, 0) =~= b);
}

/// `^r` is the range from `r` up to, and not including, `r` with its
/// left-most non-zero number raised by one and the numbers after it
/// dropped (`^1.2.3` is `[1.2.3, 2)`, `^0.2.3` is `[0.2.3, 0.3)`,
/// `^0.0.3` is `[0.0.3, 0.0.4)`), all compared as numbers padded with zeros,
/// for versions whose components are all numbers.
pub proof fn lemma_caret_range(v: Seq<Seq<char>>, r: Seq<Seq<char>>)
    requires
        r.len() > 0,
        well_formed(v),
        well_formed(r),
    ensures
        caret_matches(v, r) <==> (num_order_from(pvals(v), pvals(r), 0) >= 0 && num_order_from(
            pvals(v),
            bump(pvals(r), caret_lock_end(pvals(r))),
            0,
        ) < 0),
{
    lemma_within_numeric(v, r, caret_lock_end(pvals(r)));
    lemma_find_non_zero(pvals(r));
    lemma_within_range(pvals(v), pvals(r), caret_lock_end(pvals(r)));
}

/// `~r` is the range from `r` up to, and not including, `r` with its
/// second-to-last number raised by one (its only number, when it has one)
/// and the numbers after it dropped (`~1.2.3` is `[1.2.3, 1.3)`, `~1` is
/// `[1, 2)`), all compared as numbers padded with zeros, for versions whose
/// components are all numbers.
pub proof fn lemma_tilde_range(v: Seq<Seq<char>>, r: Seq<Seq<char>>)
    requires
        r.len() > 0,
        well_formed(v),
        well_formed(r),
    ensures
        tilde_matches(v, r) <==> (num_order_from(pvals(v), pvals(r), 0) >= 0 && num_order_from(
            pvals(v),
            bump(pvals(r), tilde_lock_end(r.len() as int)),
            0,
        ) < 0),
{
    lemma_within_numeric(v, r, tilde_lock_end(r.len() as int));
    lemma_within_range(pvals(v), pvals(r), tilde_lock_end(r.len() as int));
}

proof fn lemma_within_at_least(x: Seq<nat>, r: Seq<nat>, e: int)
    requires
        0 <= e,
        within(x, r, e),
    ensures
        num_order_from(x, r, 0) >= 0,
{
    if e < r.len() {
        assert forall|i: int| 0 <= i < e + 1 implies nat_at(x, i) == nat_at(r, i) by {}
        lemma_order_skip(x, r, e + 1);
    } else {
        assert forall|i: int| 0 <= i < r.len() implies nat_at(x, i) == nat_at(r, i) by {}
        lemma_order_skip(x, r, r.len() as int);
        lemma_order_beyond(x, r, r.len() as int);
    }
}

/// A well-formed version that satisfies `^r` is at least `r`.
pub proof fn lemma_caret_at_least(v: Seq<Seq<char>>, r: Seq<Seq<char>>)
    requires
        well_formed(v),
        well_formed(r),
        caret_matches(v, r),
    ensures
        version_compare(v, r) matches Some(c) && c >= 0,
{
    lemma_version_compare_numbers(v, r);
    lemma_within_numeric(v, r, caret_lock_end(pvals(r)));
    lemma_find_non_zero(pvals(r));
    lemma_within_at_least(pvals(v), pvals(r), caret_lock_end(pvals(r)));
}

/// A well-formed version that satisfies `~r` is at least `r`.
pub proof fn lemma_tilde_at_least(v: Seq<Seq<char>>, r: Seq<Seq<char>>)
    requires
        well_formed(v),
        well_formed(r),
        r.len() > 0,
        tilde_matches(v, r),
    ensures
        version_compare(v, r) matches Some(c) && c >= 0,
{
    lemma_version_compare_numbers(v, r);
    lemma_within_numeric(v, r, tilde_lock_end(r.len() as int));
    lemma_within_at_least(pvals(v), pvals(r), tilde_lock_end(r.len() as int));
}

/// Every version satisfies the `^` and (when it has a component) the `~`
/// requirement on itself.
pub proof fn lemma_requirement_self(v: Seq<Seq<char>>)
    ensures
        caret_matches(v, v),
        v.len() > 0 ==> tilde_matches(v, v),
{
    lemma_order_self(pvals(v), caret_lock_end(lock_vals(v)) + 1);
    lemma_order_self(pvals(v), tilde_lock_end(v.len() as int) + 1);
    assert forall|i: int| 0 <= i < v.len() implies #[trigger] locked_part_ok(v, v, i) by {}
}

} // verus!
