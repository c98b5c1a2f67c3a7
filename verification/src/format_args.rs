//! Counting the arguments that a format string takes.

use vstd::prelude::*;
use vstd::string::*;

use crate::text::{find_char, lemma_find_char, parse_bounded, parse_unsigned, str_chars, string_from_chars};

verus! {

/// The index part of a placeholder's text: what comes before its first `:`.
pub open spec fn index_part(cur: Seq<char>) -> Seq<char> {
    cur.take(find_char(cur, ':') as int)
}

/// The larger of `m` and `idx`.
pub open spec fn max_index(m: Option<nat>, idx: nat) -> Option<nat> {
    match m {
        Some(x) => if idx > x {
            Some(idx)
        } else {
            Some(x)
        },
        None => Some(idx),
    }
}

/// The number of arguments: the implicit `{}` placeholders count one each,
/// and an explicit index `n` needs `n + 1` arguments.
pub open spec fn arg_total(implicit: nat, explicit: Option<nat>) -> nat {
    match explicit {
        Some(m) => if m + 1 > implicit {
            m + 1
        } else {
            implicit
        },
        None => implicit,
    }
}

pub open spec fn mismatched_close() -> Seq<char> {
    "Mismatched closing brace `}`"@
}

pub open spec fn unmatched_open() -> Seq<char> {
    "Unmatched opening brace `{`"@
}

/// Scans the rest `s` of a format string. `inside` tells whether a
/// placeholder is open and `cur` is its text so far; `implicit` counts the
/// `{}` placeholders seen and `explicit` is the largest explicit index seen.
/// `{{` and `}}` are escapes, wherever they stand.
pub open spec fn scan_format(
    s: Seq<char>,
    inside: bool,
    cur: Seq<char>,
    implicit: nat,
    explicit: Option<nat>,
) -> Result<nat, Seq<char>>
    decreases s.len(),
{
    if s.len() == 0 {
        if inside {
            Err(unmatched_open())
        } else {
            Ok(arg_total(implicit, explicit))
        }
    } else if s[0] == '{' {
        if s.len() > 1 && s[1] == '{' {
            scan_format(s.skip(2), inside, cur, implicit, explicit)
        } else {
            scan_format(s.skip(1), true, Seq::empty(), implicit, explicit)
        }
    } else if s[0] == '}' {
        if s.len() > 1 && s[1] == '}' {
            scan_format(s.skip(2), inside, cur, implicit, explicit)
        } else if !inside {
            Err(mismatched_close())
        } else if cur.len() == 0 {
            scan_format(s.skip(1), false, cur, implicit + 1, explicit)
        } else {
            match parse_unsigned(index_part(cur), usize::MAX as nat) {
                Some(idx) => scan_format(s.skip(1), false, cur, implicit, max_index(explicit, idx)),
                None => Err("Unsupported or invalid placeholder: {"@ + cur + "}"@),
            }
        }
    } else if inside {
        scan_format(s.skip(1), true, cur.push(s[0]), implicit, explicit)
    } else {
        scan_format(s.skip(1), inside, cur, implicit, explicit)
    }
}

/// What counting the arguments of `s` gives.
pub open spec fn format_arg_count(s: Seq<char>) -> Result<nat, Seq<char>> {
    scan_format(s, false, Seq::empty(), 0, None)
}

fn position_of_colon(cur: &Vec<char>) -> (r: usize)
    ensures
        r == find_char(cur@, ':'),
{
    proof {
        lemma_find_char(cur@, ':');
    }
    let mut i: usize = 0;
    while i < cur.len()
        invariant
            0 <= i <= cur.len(),
            forall|j: int| 0 <= j < i ==> cur@[j] != ':',
        decreases cur.len() - i,
    {
        if cur[i] == ':' {
            proof {
                crate::text::lemma_find_char_is(cur@, ':', i as int);
            }
            return i;
        }
        i = i + 1;
    }
    proof {
        crate::text::lemma_find_char_is(cur@, ':', i as int);
    }
    i
}

/// Counts the arguments that format string `format_string` takes: the
/// number of `{}` placeholders, or one more than the largest explicit index
/// if that is more. Fails on an unmatched brace and on a placeholder whose
/// index is not a number.
pub fn count_format_args_in_string(format_string: &str) -> (r: Result<usize, String>)
    requires
        format_arg_count(format_string@) matches Ok(n) ==> n <= usize::MAX,
    ensures
        r is Ok <==> format_arg_count(format_string@) is Ok,
        r matches Ok(n) ==> format_arg_count(format_string@) == Ok::<nat, Seq<char>>(n as nat),
        r matches Err(m) ==> format_arg_count(format_string@) == Err::<nat, Seq<char>>(m@),
{
    let v = str_chars(format_string);
    let ghost s = v@;
    let mut i: usize = 0;
    let mut inside = false;
    let mut cur: Vec<char> = Vec::new();
    let mut implicit: usize = 0;
    let mut explicit: Option<usize> = None;
    assert(s.skip(0) =~= s);
    while i < v.len()
        invariant
            s == v@,
            s == format_string@,
            0 <= i <= s.len(),
            implicit <= i,
            format_arg_count(s) == scan_format(
                s.skip(i as int),
                inside,
                cur@,
                implicit as nat,
                match explicit {
                    Some(x) => Some(x as nat),
                    None => None,
                },
            ),
        decreases s.len() - i,
    {
        let ghost rest = s.skip(i as int);
        assert(rest[0] == s[i as int]);
        let c = v[i];
        if c == '{' {
            if i + 1 < v.len() && v[i + 1] == '{' {
                assert(rest[1] == s[i + 1]);
                assert(rest.skip(2) =~= s.skip(i + 2));
                i = i + 2;
            } else {
                assert(rest.len() > 1 ==> rest[1] == s[i + 1]);
                assert(rest.skip(1) =~= s.skip(i + 1));
                inside = true;
                cur = Vec::new();
                assert(cur@ =~= Seq::<char>::empty());
                i = i + 1;
            }
        } else if c == '}' {
            if i + 1 < v.len() && v[i + 1] == '}' {
                assert(rest[1] == s[i + 1]);
                assert(rest.skip(2) =~= s.skip(i + 2));
                i = i + 2;
            } else {
                assert(rest.len() > 1 ==> rest[1] == s[i + 1]);
                assert(rest.skip(1) =~= s.skip(i + 1));
                if !inside {
                    let m = "Mismatched closing brace `}`".to_owned();
                    return Err(m);
                }
                if cur.len() == 0 {
                    implicit = implicit + 1;
                } else {
                    let p = position_of_colon(&cur);
                    proof {
                        lemma_find_char(cur@, ':');
                        assert(cur@.subrange(0, p as int) =~= index_part(cur@));
                    }
                    match parse_bounded(&cur, 0, p, usize::MAX as u64) {
                        Some(idx) => {
                            let idx = idx as usize;
                            explicit = match explicit {
                                Some(x) => if idx > x {
                                    Some(idx)
                                } else {
                                    Some(x)
                                },
                                None => Some(idx),
                            };
                        },
                        None => {
                            let mut t: Vec<char> = str_chars("Unsupported or invalid placeholder: {");
                            let mut k: usize = 0;
                            let ghost head = t@;
                            while k < cur.len()
                                invariant
                                    0 <= k <= cur.len(),
                                    t@ == head + cur@.take(k as int),
                                decreases cur.len() - k,
                            {
                                t.push(cur[k]);
                                assert(cur@.take(k + 1) =~= cur@.take(k as int).push(cur@[k as int]));
                                k = k + 1;
                            }
                            assert(cur@.take(cur.len() as int) =~= cur@);
                            let mut m = string_from_chars(&t);
                            m.append("}");
                            return Err(m);
                        },
                    }
                }
                inside = false;
                i = i + 1;
            }
        } else if inside {
            assert(rest.skip(1) =~= s.skip(i + 1));
            cur.push(c);
            i = i + 1;
        } else {
            assert(rest.skip(1) =~= s.skip(i + 1));
            i = i + 1;
        }
    }
    assert(s.skip(i as int) =~= Seq::<char>::empty());
    if inside {
        let m = "Unmatched opening brace `{`".to_owned();
        return Err(m);
    }
    let mut total: usize = implicit;
    match explicit {
        Some(x) => {
            if x >= total {
                total = x + 1;
            }
        },
        None => {},
    }
    Ok(total)
}

/// A piece of a format string: a character that is not a brace, an
/// escaped `{{` or `}}`, or a placeholder with its text between the braces.
pub ghost enum FormatPiece {
    Text(char),
    OpenEscape,
    CloseEscape,
    Placeholder(Seq<char>),
}

/// The text of a piece.
pub open spec fn piece_text(p: FormatPiece) -> Seq<char> {
    match p {
        FormatPiece::Text(c) => seq![c],
        FormatPiece::OpenEscape => seq!['{', '{'],
        FormatPiece::CloseEscape => seq!['}', '}'],
        FormatPiece::Placeholder(t) => seq!['{'] + t + seq!['}'],
    }
}

/// The format string made of `ps`.
pub open spec fn render_pieces(ps: Seq<FormatPiece>) -> Seq<char>
    decreases ps.len(),
{
    if ps.len() == 0 {
        Seq::empty()
    } else {
        piece_text(ps[0]) + render_pieces(ps.drop_first())
    }
}

pub open spec fn brace_free(t: Seq<char>) -> bool {
    forall|i: int| 0 <= i < t.len() ==> t[i] != '{' && t[i] != '}'
}

/// A piece as the law takes it: text that is no brace, and placeholders
/// whose text has no brace and is empty or starts with an index that fits
/// in `usize`, up to the first `:`.
pub open spec fn piece_ok(p: FormatPiece) -> bool {
    match p {
        FormatPiece::Text(c) => c != '{' && c != '}',
        FormatPiece::Placeholder(t) => brace_free(t) && (t.len() == 0 || parse_unsigned(
            index_part(t),
            usize::MAX as nat,
        ) is Some),
        _ => true,
    }
}

/// The number of empty placeholders among `ps`.
pub open spec fn empty_placeholders(ps: Seq<FormatPiece>) -> nat
    decreases ps.len(),
{
    if ps.len() == 0 {
        0
    } else {
        (if ps[0] matches FormatPiece::Placeholder(t) && t.len() == 0 {
            1nat
        } else {
            0nat
        }) + empty_placeholders(ps.drop_first())
    }
}

/// The larger of two optional numbers.
pub open spec fn opt_max(a: Option<nat>, b: Option<nat>) -> Option<nat> {
    match (a, b) {
        (Some(x), Some(y)) => Some(if x >= y { x } else { y }),
        (Some(x), None) => Some(x),
        (None, y) => y,
    }
}

/// The largest explicit index among the placeholders of `ps`.
pub open spec fn largest_index(ps: Seq<FormatPiece>) -> Option<nat>
    decreases ps.len(),
{
    if ps.len() == 0 {
        None
    } else {
        let here = match ps[0] {
            FormatPiece::Placeholder(t) => if t.len() > 0 {
                parse_unsigned(index_part(t), usize::MAX as nat)
            } else {
                None
            },
            _ => None,
        };
        opt_max(here, largest_index(ps.drop_first()))
    }
}

/// The number of `}}` escapes that `ps` starts with.
pub open spec fn leading_close_escapes(ps: Seq<FormatPiece>) -> nat
    decreases ps.len(),
{
    if ps.len() > 0 && ps[0] is CloseEscape {
        1 + leading_close_escapes(ps.drop_first())
    } else {
        0
    }
}

/// `n` closing braces.
pub open spec fn closing_braces(n: nat) -> Seq<char> {
    Seq::new(n, |i: int| '}')
}

proof fn lemma_inside_text(t: Seq<char>, rest: Seq<char>, cur: Seq<char>, imp: nat, exp: Option<nat>)
    requires
        brace_free(t),
    ensures
        scan_format(t + rest, true, cur, imp, exp) == scan_format(rest, true, cur + t, imp, exp),
    decreases t.len(),
{
    if t.len() == 0 {
        assert(t + rest =~= rest);
        assert(cur + t =~= cur);
    } else {
        let s = t + rest;
        assert(s[0] == t[0]);
        assert(s.skip(1) =~= t.drop_first() + rest);
        lemma_inside_text(t.drop_first(), rest, cur.push(t[0]), imp, exp);
        assert(cur.push(t[0]) + t.drop_first() =~= cur + t);
    }
}

proof fn lemma_closing_run(j: nat, rest: Seq<char>, cur: Seq<char>, imp: nat, exp: Option<nat>)
    requires
        rest.len() == 0 || rest[0] != '}',
        cur.len() == 0 || parse_unsigned(index_part(cur), usize::MAX as nat) is Some,
    ensures
        scan_format(closing_braces(2 * j + 1) + rest, true, cur, imp, exp) == if cur.len() == 0 {
            scan_format(rest, false, cur, imp + 1, exp)
        } else {
            scan_format(
                rest,
                false,
                cur,
                imp,
                max_index(exp, parse_unsigned(index_part(cur), usize::MAX as nat)->Some_0),
            )
        },
    decreases j,
{
    let s = closing_braces(2 * j + 1) + rest;
    assert(s[0] == '}');
    if j == 0 {
        assert(s.skip(1) =~= rest);
        assert(s.len() > 1 ==> s[1] == rest[0]);
    } else {
        assert(s[1] == '}');
        assert(s.skip(2) =~= closing_braces(2 * ((j - 1) as nat) + 1) + rest);
        lemma_closing_run((j - 1) as nat, rest, cur, imp, exp);
    }
}

proof fn lemma_skip_close_escapes(ps: Seq<FormatPiece>, j: nat)
    requires
        j <= leading_close_escapes(ps),
    ensures
        j <= ps.len(),
        render_pieces(ps) == closing_braces(2 * j) + render_pieces(ps.skip(j as int)),
        empty_placeholders(ps) == empty_placeholders(ps.skip(j as int)),
        largest_index(ps) == largest_index(ps.skip(j as int)),
        leading_close_escapes(ps) == j + leading_close_escapes(ps.skip(j as int)),
    decreases j,
{
    if j == 0 {
        assert(ps.skip(0) =~= ps);
        assert(closing_braces(0) + render_pieces(ps) =~= render_pieces(ps));
    } else {
        lemma_skip_close_escapes(ps.drop_first(), (j - 1) as nat);
        assert(ps.drop_first().skip(j - 1) =~= ps.skip(j as int));
        assert(closing_braces(2 * j) =~= seq!['}', '}'] + closing_braces(2 * ((j - 1) as nat)));
        assert(render_pieces(ps) =~= closing_braces(2 * j) + render_pieces(ps.skip(j as int)));
    }
}

proof fn lemma_pieces_scan(ps: Seq<FormatPiece>, cur: Seq<char>, imp: nat, exp: Option<nat>)
    requires
        forall|i: int| 0 <= i < ps.len() ==> piece_ok(#[trigger] ps[i]),
    ensures
        scan_format(render_pieces(ps), false, cur, imp, exp) == Ok::<nat, Seq<char>>(
            arg_total(imp + empty_placeholders(ps), opt_max(exp, largest_index(ps))),
        ),
    decreases ps.len(),
{
    if ps.len() == 0 {
        assert(opt_max(exp, None) == exp);
    } else {
        let rest = ps.drop_first();
        assert forall|i: int| 0 <= i < rest.len() implies piece_ok(#[trigger] rest[i]) by {
            assert(rest[i] == ps[i + 1]);
        }
        let s = render_pieces(ps);
        assert(piece_ok(ps[0]));
        match ps[0] {
            FormatPiece::Text(c) => {
                assert(s[0] == c);
                assert(s.skip(1) =~= render_pieces(rest));
                lemma_pieces_scan(rest, cur, imp, exp);
            },
            FormatPiece::OpenEscape => {
                assert(s[0] == '{' && s[1] == '{');
                assert(s.skip(2) =~= render_pieces(rest));
                lemma_pieces_scan(rest, cur, imp, exp);
            },
            FormatPiece::CloseEscape => {
                assert(s[0] == '}' && s[1] == '}');
                assert(s.skip(2) =~= render_pieces(rest));
                lemma_pieces_scan(rest, cur, imp, exp);
            },
            FormatPiece::Placeholder(t) => {
                let j = leading_close_escapes(rest);
                lemma_skip_close_escapes(rest, j);
                let after = rest.skip(j as int);
                assert forall|i: int| 0 <= i < after.len() implies piece_ok(#[trigger] after[i]) by {
                    assert(after[i] == rest[i + j]);
                }
                let tail = render_pieces(after);
                assert(leading_close_escapes(after) == 0);
                if tail.len() > 0 {
                    assert(after.len() > 0);
                    assert(piece_ok(after[0]));
                    assert(tail[0] == piece_text(after[0])[0]);
                }
                assert(s =~= seq!['{'] + (t + (closing_braces(2 * j + 1) + tail)));
                assert(s[0] == '{');
                assert(s.len() > 1 && s[1] != '{') by {
                    if t.len() > 0 {
                        assert(s[1] == t[0]);
                    } else {
                        assert(s[1] == '}');
                    }
                }
                assert(s.skip(1) =~= t + (closing_braces(2 * j + 1) + tail));
                lemma_inside_text(t, closing_braces(2 * j + 1) + tail, Seq::empty(), imp, exp);
                assert(Seq::<char>::empty() + t =~= t);
                lemma_closing_run(j, tail, t, imp, exp);
                if t.len() == 0 {
                    lemma_pieces_scan(after, t, imp + 1, exp);
                } else {
                    let idx = parse_unsigned(index_part(t), usize::MAX as nat)->Some_0;
                    lemma_pieces_scan(after, t, imp, max_index(exp, idx));
                }
            },
        }
    }
}

/// A format string made of plain characters, the escapes `{{` and `}}`,
/// and placeholders whose text has no brace and is empty or starts with an
/// index that fits in `usize` (up to its first `:`) takes as many arguments
/// as the larger of its number of empty placeholders and one more than its
/// largest index; none when it has no placeholder.
pub proof fn lemma_format_arg_count_of_pieces(ps: Seq<FormatPiece>)
    requires
        forall|i: int| 0 <= i < ps.len() ==> piece_ok(#[trigger] ps[i]),
    ensures
        format_arg_count(render_pieces(ps)) == Ok::<nat, Seq<char>>(
            arg_total(empty_placeholders(ps), largest_index(ps)),
        ),
        format_arg_count(render_pieces(ps)) == Ok::<nat, Seq<char>>(
            match largest_index(ps) {
                Some(m) => if m + 1 > empty_placeholders(ps) {
                    m + 1
                } else {
                    empty_placeholders(ps)
                },
                None => empty_placeholders(ps),
            },
        ),
        (forall|i: int| 0 <= i < ps.len() ==> !(#[trigger] ps[i] is Placeholder))
            ==> format_arg_count(render_pieces(ps)) == Ok::<nat, Seq<char>>(0),
{
    lemma_pieces_scan(ps, Seq::empty(), 0, None);
    if forall|i: int| 0 <= i < ps.len() ==> !(#[trigger] ps[i] is Placeholder) {
        lemma_no_placeholders(ps);
    }
}

proof fn lemma_no_placeholders(ps: Seq<FormatPiece>)
    requires
        forall|i: int| 0 <= i < ps.len() ==> !(#[trigger] ps[i] is Placeholder),
    ensures
        empty_placeholders(ps) == 0,
        largest_index(ps) is None,
    decreases ps.len(),
{
    if ps.len() > 0 {
        assert forall|i: int| 0 <= i < ps.drop_first().len() implies !(#[trigger] ps.drop_first()[i] is Placeholder) by {
            assert(ps.drop_first()[i] == ps[i + 1]);
        }
        lemma_no_placeholders(ps.drop_first());
        assert(!(ps[0] is Placeholder));
    }
}

} // verus!
