//! The tag that the web-API documentation attribute gives a handler: the
//! name of its source file, without a `_controller` suffix or `.rs`.

use vstd::prelude::*;

use crate::text::{find_char, lemma_find_char, lemma_find_char_is, split_char, str_chars, string_from_chars};

verus! {

/// `s` with every occurrence of `pat` taken out, scanning from the left
/// (what `str::replace(pat, "")` gives).
pub open spec fn remove_all(s: Seq<char>, pat: Seq<char>) -> Seq<char>
    decreases s.len(),
{
    if pat.len() == 0 || s.len() < pat.len() {
        s
    } else if s.take(pat.len() as int) == pat {
        remove_all(s.skip(pat.len() as int), pat)
    } else {
        seq![s[0]] + remove_all(s.drop_first(), pat)
    }
}

/// What follows the last `c` of `s` (all of `s` when it holds none).
pub open spec fn after_last(s: Seq<char>, c: char) -> Seq<char>
    decreases s.len(),
{
    let i = find_char(s, c);
    if i >= s.len() {
        s
    } else {
        after_last(s.skip(i as int + 1), c)
    }
}

/// The tag for a handler defined in the file at path `file`.
pub open spec fn webapi_doc_tag_text(file: Seq<char>) -> Seq<char> {
    remove_all(remove_all(split_char(file, '/').last(), "_controller"@), ".rs"@)
}

proof fn lemma_split_last(s: Seq<char>, c: char)
    ensures
        split_char(s, c).len() >= 1,
        split_char(s, c).last() == after_last(s, c),
    decreases s.len(),
{
    lemma_find_char(s, c);
    let i = find_char(s, c);
    if i < s.len() {
        lemma_split_last(s.skip(i as int + 1), c);
    }
}

/// `v` with every occurrence of `pat` taken out, scanning from the left.
fn remove_all_chars(v: &Vec<char>, pat: &Vec<char>) -> (r: Vec<char>)
    ensures
        r@ == remove_all(v@, pat@),
{
    let n = v.len();
    let m = pat.len();
    let mut out: Vec<char> = Vec::new();
    if m == 0 {
        let mut k: usize = 0;
        while k < n
            invariant
                k <= n == v@.len(),
                out@ == v@.take(k as int),
            decreases n - k,
        {
            out.push(v[k]);
            assert(out@ =~= v@.take(k + 1));
            k = k + 1;
        }
        assert(v@.take(n as int) =~= v@);
        return out;
    }
    let mut i: usize = 0;
    assert(v@.skip(0) =~= v@);
    assert(out@ + remove_all(v@.skip(0), pat@) =~= remove_all(v@, pat@));
    while i < n
        invariant
            n == v@.len(),
            m == pat@.len(),
            m > 0,
            i <= n,
            remove_all(v@, pat@) == out@ + remove_all(v@.skip(i as int), pat@),
        decreases n - i,
    {
        let ghost s = v@.skip(i as int);
        let mut matched = n - i >= m;
        let mut k: usize = 0;
        while matched && k < m
            invariant
                n == v@.len(),
                m == pat@.len(),
                i <= n,
                matched ==> n - i >= m,
                k <= m,
                matched ==> forall|j: int| 0 <= j < k ==> v@[i + j] == pat@[j],
                !matched ==> (n - i < m || exists|j: int| 0 <= j < m && v@[i + j] != pat@[j]),
            decreases m - k + (if matched { 1int } else { 0int }),
        {
            if v[i + k] != pat[k] {
                matched = false;
            } else {
                k = k + 1;
            }
        }
        if matched {
            assert(s.take(m as int) =~= pat@);
            assert(s.skip(m as int) =~= v@.skip(i + m));
            i = i + m;
        } else {
            proof {
                if s.len() >= pat@.len() {
                    let j = choose|j: int| 0 <= j < m && v@[i + j] != pat@[j];
                    assert(s.take(m as int)[j] != pat@[j]);
                }
                assert(s.drop_first() =~= v@.skip(i + 1));
                if s.len() < pat@.len() {
                    // the rest is kept as it is, one character at a time
                    lemma_remove_all_short(s, pat@);
                    lemma_remove_all_short(s.drop_first(), pat@);
                    assert(s =~= seq![s[0]] + s.drop_first());
                }
            }
            let c = v[i];
            let ghost before = out@;
            out.push(c);
            assert(out@ + remove_all(v@.skip(i + 1), pat@) =~= before + (seq![c] + remove_all(
                v@.skip(i + 1),
                pat@,
            )));
            i = i + 1;
        }
    }
    assert(v@.skip(n as int) =~= Seq::<char>::empty());
    assert(out@ + Seq::<char>::empty() =~= out@);
    out
}

proof fn lemma_remove_all_short(s: Seq<char>, pat: Seq<char>)
    requires
        s.len() < pat.len(),
    ensures
        remove_all(s, pat) == s,
{
}

/// What follows the last `/` of `v`.
fn after_last_slash(v: &Vec<char>) -> (r: Vec<char>)
    ensures
        r@ == after_last(v@, '/'),
{
    let n = v.len();
    let mut start: usize = 0;
    let mut i: usize = 0;
    assert(v@.skip(0) =~= v@);
    while i < n
        invariant
            n == v@.len(),
            start <= i <= n,
            after_last(v@, '/') == after_last(v@.skip(start as int), '/'),
            forall|j: int| start <= j < i ==> v@[j] != '/',
        decreases n - i,
    {
        if v[i] == '/' {
            proof {
                let s = v@.skip(start as int);
                let k = i - start;
                lemma_find_char_is(s, '/', k);
                assert(s.skip(k + 1) =~= v@.skip(i + 1));
            }
            start = i + 1;
        }
        i = i + 1;
    }
    proof {
        let s = v@.skip(start as int);
        lemma_find_char_is(s, '/', s.len() as int);
    }
    let mut out: Vec<char> = Vec::new();
    let mut k = start;
    while k < n
        invariant
            n == v@.len(),
            start <= k <= n,
            out@ == v@.subrange(start as int, k as int),
        decreases n - k,
    {
        out.push(v[k]);
        assert(out@ =~= v@.subrange(start as int, k + 1));
        k = k + 1;
    }
    assert(v@.subrange(start as int, n as int) =~= v@.skip(start as int));
    out
}

/// The tag for a handler defined in the file at path `file`: the last
/// `/`-separated part of the path, with every `_controller` and then
/// every `.rs` taken out.
pub fn webapi_doc_tag(file: &str) -> (r: String)
    ensures
        r@ == webapi_doc_tag_text(file@),
{
    let v = str_chars(file);
    let last = after_last_slash(&v);
    proof {
        lemma_split_last(file@, '/');
    }
    let controller = str_chars("_controller");
    let rs = str_chars(".rs");
    let a = remove_all_chars(&last, &controller);
    let b = remove_all_chars(&a, &rs);
    string_from_chars(&b)
}

} // verus!
