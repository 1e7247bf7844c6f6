//! Decimal and hexadecimal texts of numbers.
use vstd::prelude::*;
use vstd::string::StringExecFns;

verus! {

/// The character of a digit below 16 (lower-case letters above 9).
pub open spec fn digit_char(d: nat) -> char {
    if d == 0 {
        '0'
    } else if d == 1 {
        '1'
    } else if d == 2 {
        '2'
    } else if d == 3 {
        '3'
    } else if d == 4 {
        '4'
    } else if d == 5 {
        '5'
    } else if d == 6 {
        '6'
    } else if d == 7 {
        '7'
    } else if d == 8 {
        '8'
    } else if d == 9 {
        '9'
    } else if d == 10 {
        'a'
    } else if d == 11 {
        'b'
    } else if d == 12 {
        'c'
    } else if d == 13 {
        'd'
    } else if d == 14 {
        'e'
    } else {
        'f'
    }
}

/// Digits of `v` in base `b`, most significant first, without leading zeros.
pub open spec fn digits_text(v: nat, b: nat) -> Seq<char>
    recommends
        2 <= b <= 16,
    decreases v,
    via lemma_digits_decreases
{
    if v < b || b < 2 {
        seq![digit_char(v)]
    } else {
        digits_text(v / b, b).push(digit_char(v % b))
    }
}

#[via_fn]
proof fn lemma_digits_decreases(v: nat, b: nat) {
    if !(v < b || b < 2) {
        assert(v / b < v) by (nonlinear_arith)
            requires
                v >= b,
                b >= 2,
        ;
    }
}

/// Decimal text of `v`.
pub open spec fn decimal_text(v: nat) -> Seq<char> {
    digits_text(v, 10)
}

/// Lower-case hexadecimal text of `v`, without prefix.
pub open spec fn hex_text(v: nat) -> Seq<char> {
    digits_text(v, 16)
}

/// The text of one digit below 16.
fn digit_str(d: u64) -> (r: &'static str)
    requires
        d < 16,
    ensures
        r@ == seq![digit_char(d as nat)],
{
    proof {
        reveal_strlit("0");
        reveal_strlit("1");
        reveal_strlit("2");
        reveal_strlit("3");
        reveal_strlit("4");
        reveal_strlit("5");
        reveal_strlit("6");
        reveal_strlit("7");
        reveal_strlit("8");
        reveal_strlit("9");
        reveal_strlit("a");
        reveal_strlit("b");
        reveal_strlit("c");
        reveal_strlit("d");
        reveal_strlit("e");
        reveal_strlit("f");
    }
    let r = if d == 0 {
        "0"
    } else if d == 1 {
        "1"
    } else if d == 2 {
        "2"
    } else if d == 3 {
        "3"
    } else if d == 4 {
        "4"
    } else if d == 5 {
        "5"
    } else if d == 6 {
        "6"
    } else if d == 7 {
        "7"
    } else if d == 8 {
        "8"
    } else if d == 9 {
        "9"
    } else if d == 10 {
        "a"
    } else if d == 11 {
        "b"
    } else if d == 12 {
        "c"
    } else if d == 13 {
        "d"
    } else if d == 14 {
        "e"
    } else {
        "f"
    };
    assert(r@ =~= seq![digit_char(d as nat)]);
    r
}

/// Appends the digits of `v` in base `b` to `out`.
pub fn push_digits(out: &mut String, v: u64, b: u64)
    requires
        2 <= b <= 16,
    ensures
        final(out)@ == old(out)@ + digits_text(v as nat, b as nat),
    decreases v,
{
    if v < b {
        out.append(digit_str(v));
    } else {
        assert(v / b < v) by (nonlinear_arith)
            requires
                v >= b,
                b >= 2,
        ;
        push_digits(out, v / b, b);
        out.append(digit_str(v % b));
    }
}

/// Decimal text of `v`.
pub fn decimal_string(v: u64) -> (r: String)
    ensures
        r@ == decimal_text(v as nat),
{
    let mut s = String::new();
    push_digits(&mut s, v, 10);
    assert(s@ =~= decimal_text(v as nat));
    s
}

proof fn lemma_digit_char_injective(a: nat, b: nat)
    requires
        a < 16,
        b < 16,
        digit_char(a) == digit_char(b),
    ensures
        a == b,
{
}

proof fn lemma_digits_len(v: nat, b: nat)
    requires
        2 <= b,
    ensures
        v < b <==> digits_text(v, b).len() == 1,
        digits_text(v, b).len() >= 1,
    decreases v,
{
    if v >= b {
        assert(v / b < v) by (nonlinear_arith)
            requires
                v >= b,
                b >= 2,
        ;
        lemma_digits_len(v / b, b);
    }
}

/// Distinct numbers have distinct texts.
pub proof fn lemma_digits_injective(v: nat, w: nat, b: nat)
    requires
        2 <= b <= 16,
        digits_text(v, b) == digits_text(w, b),
    ensures
        v == w,
    decreases v,
{
    lemma_digits_len(v, b);
    lemma_digits_len(w, b);
    if v < b {
        assert(digits_text(v, b)[0] == digit_char(v));
        lemma_digit_char_injective(v, w);
    } else {
        let tv = digits_text(v, b);
        let tw = digits_text(w, b);
        assert(tv.last() == digit_char(v % b));
        assert(tw.last() == digit_char(w % b));
        assert(v % b < 16 && w % b < 16) by (nonlinear_arith)
            requires
                b <= 16,
                b >= 2,
        ;
        lemma_digit_char_injective(v % b, w % b);
        assert(tv.drop_last() =~= digits_text(v / b, b));
        assert(tw.drop_last() =~= digits_text(w / b, b));
        assert(v / b < v) by (nonlinear_arith)
            requires
                v >= b,
                b >= 2,
        ;
        lemma_digits_injective(v / b, w / b, b);
        assert(v == (v / b) * b + v % b) by (nonlinear_arith)
            requires
                b >= 2,
        ;
        assert(w == (w / b) * b + w % b) by (nonlinear_arith)
            requires
                b >= 2,
        ;
    }
}

} // verus!
