use vstd::prelude::*;
use vstd::string::StrSliceExecFns;

verus! {

/// A copy of an optional text.
pub fn copy_text(a: &Option<String>) -> (r: Option<String>)
    ensures
        r.deep_view() == a.deep_view(),
{
    match a {
        Some(s) => Some(s.clone()),
        None => None,
    }
}

/// The first present of two optional texts, copied.
pub fn first_text(a: &Option<String>, b: &Option<String>) -> (r: Option<String>)
    ensures
        r.deep_view() == crate::register_properties_group::first_some(a.deep_view(), b.deep_view()),
{
    match a {
        Some(s) => Some(s.clone()),
        None => copy_text(b),
    }
}

/// A copy of a list of texts.
pub fn copy_texts(v: &Vec<String>) -> (r: Vec<String>)
    ensures
        r.deep_view() == v.deep_view(),
{
    let mut out: Vec<String> = Vec::new();
    let mut i: usize = 0;
    while i < v.len()
        invariant
            i <= v.len(),
            out.len() == i,
            forall|k: int| 0 <= k < i ==> #[trigger] out@[k]@ == v@[k]@,
        decreases v.len() - i,
    {
        let c = v[i].clone();
        assert(c@ == v@[i as int]@);
        out.push(c);
        i = i + 1;
    }
    assert(out.deep_view() =~= v.deep_view());
    out
}

} // verus!

verus! {

/// A value that can be copied with its model kept.
pub trait Duplicate: DeepView + Sized {
    fn duplicate(&self) -> (r: Self)
        ensures
            r.deep_view() == self.deep_view(),
    ;
}

/// A copy of a list whose items keep their models.
pub fn copy_vec<T: Duplicate>(v: &Vec<T>) -> (r: Vec<T>)
    ensures
        r.deep_view() == v.deep_view(),
{
    let mut out: Vec<T> = Vec::new();
    let mut i: usize = 0;
    while i < v.len()
        invariant
            i <= v.len(),
            out.len() == i,
            forall|k: int| 0 <= k < i ==> #[trigger] out@[k].deep_view() == v@[k].deep_view(),
        decreases v.len() - i,
    {
        let c = v[i].duplicate();
        out.push(c);
        i = i + 1;
    }
    assert(out.deep_view() =~= v.deep_view());
    out
}

/// A copy of an optional list whose items keep their models.
pub fn copy_opt_vec<T: Duplicate>(v: &Option<Vec<T>>) -> (r: Option<Vec<T>>)
    ensures
        r.deep_view() == v.deep_view(),
{
    match v {
        Some(items) => Some(copy_vec(items)),
        None => None,
    }
}

} // verus!

verus! {

/// Whether a character is a decimal digit.
pub open spec fn is_digit(c: char) -> bool {
    '0' <= c && c <= '9'
}

/// Value of a decimal digit.
pub open spec fn digit_value(c: char) -> nat {
    (c as u32 - '0' as u32) as nat
}

/// Position where the trailing run of decimal digits of `s` starts.
pub open spec fn digit_run_start(s: Seq<char>) -> int
    decreases s.len(),
{
    if s.len() == 0 {
        0
    } else if is_digit(s.last()) {
        digit_run_start(s.drop_last())
    } else {
        s.len() as int
    }
}

/// Value of a string of decimal digits.
pub open spec fn decimal_value(s: Seq<char>) -> nat
    decreases s.len(),
{
    if s.len() == 0 {
        0
    } else {
        decimal_value(s.drop_last()) * 10 + digit_value(s.last())
    }
}

/// The part of a name before its trailing run of decimal digits.
pub open spec fn name_prefix(s: Seq<char>) -> Seq<char> {
    s.subrange(0, digit_run_start(s))
}

/// The number that the trailing digits of a name spell, where there are
/// some and it fits in a `usize`.
pub open spec fn name_suffix(s: Seq<char>) -> Option<usize> {
    let k = digit_run_start(s);
    let v = decimal_value(s.subrange(k, s.len() as int));
    if k < s.len() && v <= usize::MAX {
        Some(v as usize)
    } else {
        None
    }
}

proof fn lemma_digit_run(s: Seq<char>)
    ensures
        0 <= digit_run_start(s) <= s.len(),
        forall|i: int| digit_run_start(s) <= i < s.len() ==> is_digit(#[trigger] s[i]),
        digit_run_start(s) > 0 ==> !is_digit(s[digit_run_start(s) - 1]),
    decreases s.len(),
{
    if s.len() > 0 && is_digit(s.last()) {
        let t = s.drop_last();
        lemma_digit_run(t);
        assert forall|i: int| digit_run_start(s) <= i < s.len() implies is_digit(#[trigger] s[i]) by {
            if i < s.len() - 1 {
                assert(t[i] == s[i]);
            }
        }
        if digit_run_start(s) > 0 {
            assert(t[digit_run_start(s) - 1] == s[digit_run_start(s) - 1]);
        }
    }
}

proof fn lemma_decimal_grows(s: Seq<char>, j: int)
    requires
        0 <= j <= s.len(),
    ensures
        decimal_value(s.subrange(0, j)) <= decimal_value(s),
    decreases s.len() - j,
{
    if j < s.len() {
        lemma_decimal_grows(s, j + 1);
        assert(s.subrange(0, j + 1).drop_last() =~= s.subrange(0, j));
    } else {
        assert(s.subrange(0, j) =~= s);
    }
}

/// Splits a name into the part before its trailing decimal digits, and the
/// number those digits spell (none where there are no digits or the number
/// does not fit in a `usize`).
pub fn extract_prefix(name: &str) -> (r: (&str, Option<usize>))
    ensures
        r.0@ == name_prefix(name@),
        r.1 == name_suffix(name@),
{
    let ghost s = name@;
    let n = name.unicode_len();
    let mut k: usize = n;
    proof {
        lemma_digit_run(s);
        assert(s.subrange(0, n as int) =~= s);
    }
    while k > 0
        invariant
            k <= n,
            n == s.len(),
            s == name@,
            digit_run_start(s) == digit_run_start(s.subrange(0, k as int)),
        ensures
            k == digit_run_start(s),
        decreases k,
    {
        let c = name.get_char(k - 1);
        assert(s.subrange(0, k as int).drop_last() =~= s.subrange(0, k - 1));
        if !('0' <= c && c <= '9') {
            assert(digit_run_start(s.subrange(0, k as int)) == k);
            break;
        }
        k = k - 1;
    }
    let prefix = name.substring_char(0, k);
    if k == n {
        return (prefix, None);
    }
    let ghost t = s.subrange(k as int, n as int);
    let mut v: usize = 0;
    let mut j: usize = k;
    while j < n
        invariant
            k <= j <= n,
            n == s.len(),
            s == name@,
            t == s.subrange(k as int, n as int),
            k == digit_run_start(s),
            prefix@ == s.subrange(0, k as int),
            forall|i: int| digit_run_start(s) <= i < s.len() ==> is_digit(#[trigger] s[i]),
            v == decimal_value(t.subrange(0, j - k)),
        decreases n - j,
    {
        let c = name.get_char(j);
        assert(t.subrange(0, j + 1 - k).drop_last() =~= t.subrange(0, j - k));
        assert(t[j - k] == s[j as int]);
        let d = (c as u32 - '0' as u32) as usize;
        if v > (usize::MAX - d) / 10 {
            proof {
                lemma_decimal_grows(t, j + 1 - k);
            }
            return (prefix, None);
        }
        v = v * 10 + d;
        j = j + 1;
    }
    assert(t.subrange(0, n - k) =~= t);
    (prefix, Some(v))
}

} // verus!
