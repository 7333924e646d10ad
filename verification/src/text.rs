use vstd::prelude::*;
use vstd::string::*;

verus! {

/// Is `c` a decimal digit?
pub open spec fn is_digit(c: char) -> bool {
    48 <= c as u32 && c as u32 <= 57
}

/// The numeric value of a digit character.
pub open spec fn digit_val(c: char) -> nat {
    (c as u32 - 48) as nat
}

/// The character that writes a single digit.
pub open spec fn digit_char(d: nat) -> char {
    if d == 0 {
        '0'
    } else if d == 1 {
        '1'
    } else if d == 2 {
        '2'
    } else if d == 3 {
        '3'
    } else if d == 4 {
        '4'
    } else if d == 5 {
        '5'
    } else if d == 6 {
        '6'
    } else if d == 7 {
        '7'
    } else if d == 8 {
        '8'
    } else {
        '9'
    }
}

/// Decimal notation of a number, most significant digit first.
pub open spec fn dec_digits(n: nat) -> Seq<char>
    decreases n,
{
    if n < 10 {
        seq![digit_char(n)]
    } else {
        dec_digits(n / 10) + seq![digit_char(n % 10)]
    }
}

/// The number a digit sequence denotes.
pub open spec fn dec_value(s: Seq<char>) -> nat
    decreases s.len(),
{
    if s.len() == 0 {
        0
    } else {
        dec_value(s.drop_last()) * 10 + digit_val(s.last())
    }
}

pub proof fn lemma_dec_digits_shape(n: nat)
    ensures
        dec_digits(n).len() >= 1,
        forall|i: int| 0 <= i < dec_digits(n).len() ==> is_digit(#[trigger] dec_digits(n)[i]),
        n > 0 ==> dec_digits(n)[0] != '0',
    decreases n,
{
    if n >= 10 {
        lemma_dec_digits_shape(n / 10);
    }
}

/// A digit character reads back as its digit.
pub proof fn lemma_digit_char_val(d: nat)
    requires
        d < 10,
    ensures
        digit_val(digit_char(d)) == d,
        is_digit(digit_char(d)),
{
}

/// Reading back the decimal notation of a number yields the number.
pub proof fn lemma_dec_value_of_digits(n: nat)
    ensures
        dec_value(dec_digits(n)) == n,
    decreases n,
{
    if n < 10 {
        lemma_digit_char_val(n);
        assert(dec_value(Seq::<char>::empty()) == 0);
        assert(dec_digits(n).drop_last() =~= Seq::<char>::empty());
        assert(dec_value(dec_digits(n)) == dec_value(dec_digits(n).drop_last()) * 10 + digit_val(
            dec_digits(n).last(),
        ));
    } else {
        lemma_dec_value_of_digits(n / 10);
        lemma_digit_char_val(n % 10);
        assert(dec_digits(n).drop_last() =~= dec_digits(n / 10));
        assert(dec_digits(n).last() == digit_char(n % 10));
        vstd::arithmetic::div_mod::lemma_fundamental_div_mod(n as int, 10);
    }
}

/// Exec mirror of `digit_char`.
pub fn digit_char_of(d: u64) -> (c: char)
    requires
        d < 10,
    ensures
        c == digit_char(d as nat),
{
    if d == 0 {
        '0'
    } else if d == 1 {
        '1'
    } else if d == 2 {
        '2'
    } else if d == 3 {
        '3'
    } else if d == 4 {
        '4'
    } else if d == 5 {
        '5'
    } else if d == 6 {
        '6'
    } else if d == 7 {
        '7'
    } else if d == 8 {
        '8'
    } else {
        '9'
    }
}

/// Append the decimal notation of `n` to `out`.
pub fn push_dec(out: &mut Vec<char>, n: u64)
    ensures
        final(out)@ == old(out)@ + dec_digits(n as nat),
    decreases n,
{
    if n < 10 {
        out.push(digit_char_of(n));
        assert(out@ =~= old(out)@ + dec_digits(n as nat));
    } else {
        push_dec(out, n / 10);
        out.push(digit_char_of(n % 10));
        assert(out@ =~= old(out)@ + dec_digits(n as nat));
    }
}

pub fn is_digit_char(c: char) -> (r: bool)
    ensures
        r == is_digit(c),
{
    let v = c as u32;
    48 <= v && v <= 57
}

/// First position at or after `i` that does not hold a digit.
pub open spec fn digit_run_end(s: Seq<char>, i: int) -> int
    decreases s.len() - i,
{
    if i < 0 || i >= s.len() || !is_digit(s[i]) {
        i
    } else {
        digit_run_end(s, i + 1)
    }
}

pub proof fn lemma_digit_run_end(s: Seq<char>, i: int)
    requires
        0 <= i <= s.len(),
    ensures
        i <= digit_run_end(s, i) <= s.len(),
        forall|k: int| i <= k < digit_run_end(s, i) ==> is_digit(s[k]),
        digit_run_end(s, i) < s.len() ==> !is_digit(s[digit_run_end(s, i)]),
    decreases s.len() - i,
{
    if !(i >= s.len() || !is_digit(s[i])) {
        lemma_digit_run_end(s, i + 1);
    }
}

/// A run of digits followed by a non-digit ends exactly where the digits end.
pub proof fn lemma_digit_run_end_concat(s: Seq<char>, i: int, d: Seq<char>)
    requires
        0 <= i,
        i + d.len() <= s.len(),
        s.subrange(i, i + d.len() as int) == d,
        forall|k: int| 0 <= k < d.len() ==> is_digit(#[trigger] d[k]),
        i + d.len() < s.len() ==> !is_digit(s[i + d.len()]),
    ensures
        digit_run_end(s, i) == i + d.len(),
    decreases d.len(),
{
    if d.len() == 0 {
    } else {
        assert(s[i] == d[0]);
        assert(s.subrange(i + 1, i + d.len() as int) =~= d.subrange(1, d.len() as int));
        lemma_digit_run_end_concat(s, i + 1, d.subrange(1, d.len() as int));
    }
}

pub fn digit_run_end_at(s: &Vec<char>, i: usize) -> (r: usize)
    requires
        i <= s.len(),
    ensures
        r as int == digit_run_end(s@, i as int),
        i <= r <= s.len(),
    decreases s.len() - i,
{
    if i >= s.len() || !is_digit_char(s[i]) {
        i
    } else {
        digit_run_end_at(s, i + 1)
    }
}

/// Widening a digit run can only raise its value.
pub proof fn lemma_dec_value_extend(s: Seq<char>, t: Seq<char>)
    requires
        s.len() <= t.len(),
        t.subrange(0, s.len() as int) == s,
    ensures
        dec_value(t) >= dec_value(s),
    decreases t.len() - s.len(),
{
    if t.len() > s.len() {
        assert(t.drop_last().subrange(0, s.len() as int) =~= t.subrange(0, s.len() as int));
        lemma_dec_value_extend(s, t.drop_last());
        assert(dec_value(t) == dec_value(t.drop_last()) * 10 + digit_val(t.last()));
    } else {
        assert(t =~= s);
    }
}

/// The value of the digits in `s@[from..to]`, or `None` where it exceeds `u64::MAX`.
pub fn parse_dec(s: &Vec<char>, from: usize, to: usize) -> (r: Option<u64>)
    requires
        from <= to <= s.len(),
        forall|k: int| from <= k < to ==> is_digit(s@[k]),
    ensures
        match r {
            Some(v) => v as nat == dec_value(s@.subrange(from as int, to as int)),
            None => dec_value(s@.subrange(from as int, to as int)) > u64::MAX,
        },
{
    let mut acc: u128 = 0;
    let mut i: usize = from;
    while i < to
        invariant
            from <= i <= to <= s.len(),
            forall|k: int| from <= k < to ==> is_digit(s@[k]),
            acc <= u64::MAX,
            acc as nat == dec_value(s@.subrange(from as int, i as int)),
        decreases to - i,
    {
        proof {
            assert(is_digit(s@[i as int]));
            assert(s@.subrange(from as int, i + 1).drop_last() =~= s@.subrange(
                from as int,
                i as int,
            ));
        }
        let d = (s[i] as u32 - 48) as u128;
        acc = acc * 10 + d;
        i = i + 1;
        if acc > u64::MAX as u128 {
            proof {
                assert(s@.subrange(from as int, to as int).subrange(0, i - from) =~= s@.subrange(
                    from as int,
                    i as int,
                ));
                lemma_dec_value_extend(
                    s@.subrange(from as int, i as int),
                    s@.subrange(from as int, to as int),
                );
            }
            return None;
        }
    }
    proof {
        assert(s@.subrange(from as int, to as int) =~= s@.subrange(from as int, i as int));
    }
    Some(acc as u64)
}

/// Is `c` an ASCII lower-case letter?
pub open spec fn is_lower_alpha(c: char) -> bool {
    97 <= c as u32 && c as u32 <= 122
}

pub fn is_lower_alpha_char(c: char) -> (r: bool)
    ensures
        r == is_lower_alpha(c),
{
    let v = c as u32;
    97 <= v && v <= 122
}

/// Is `c` an ASCII upper-case letter?
pub open spec fn is_upper_alpha(c: char) -> bool {
    65 <= c as u32 && c as u32 <= 90
}

pub fn is_upper_alpha_char(c: char) -> (r: bool)
    ensures
        r == is_upper_alpha(c),
{
    let v = c as u32;
    65 <= v && v <= 90
}

/// First position at or after `i` that does not hold the character `c`.
pub open spec fn char_run_end(s: Seq<char>, i: int, c: char) -> int
    decreases s.len() - i,
{
    if i < 0 || i >= s.len() || s[i] != c {
        i
    } else {
        char_run_end(s, i + 1, c)
    }
}

pub proof fn lemma_char_run_end(s: Seq<char>, i: int, c: char)
    requires
        0 <= i <= s.len(),
    ensures
        i <= char_run_end(s, i, c) <= s.len(),
        forall|k: int| i <= k < char_run_end(s, i, c) ==> s[k] == c,
        char_run_end(s, i, c) < s.len() ==> s[char_run_end(s, i, c)] != c,
    decreases s.len() - i,
{
    if !(i >= s.len() || s[i] != c) {
        lemma_char_run_end(s, i + 1, c);
    }
}

pub fn char_run_end_at(s: &Vec<char>, i: usize, c: char) -> (r: usize)
    requires
        i <= s.len(),
    ensures
        r as int == char_run_end(s@, i as int, c),
        i <= r <= s.len(),
    decreases s.len() - i,
{
    if i >= s.len() || s[i] != c {
        i
    } else {
        char_run_end_at(s, i + 1, c)
    }
}

/// Relies on `String::push`: appends one character to the string.
#[verifier::external_body]
pub fn push_char(s: &mut String, c: char)
    ensures
        final(s)@ == old(s)@.push(c),
{
    s.push(c);
}

/// The characters of a string, in order.
pub fn chars_of(s: &str) -> (r: Vec<char>)
    ensures
        r@ == s@,
{
    let n = s.unicode_len();
    let mut out: Vec<char> = Vec::new();
    let mut i: usize = 0;
    while i < n
        invariant
            i <= n,
            n == s@.len(),
            out@ == s@.subrange(0, i as int),
        decreases n - i,
    {
        out.push(s.get_char(i));
        i = i + 1;
        proof {
            assert(out@ =~= s@.subrange(0, i as int));
        }
    }
    proof {
        assert(out@ =~= s@);
    }
    out
}

/// Append a string's characters to a character vector.
pub fn push_str_chars(out: &mut Vec<char>, s: &str)
    ensures
        final(out)@ == old(out)@ + s@,
{
    let n = s.unicode_len();
    let mut i: usize = 0;
    while i < n
        invariant
            i <= n,
            n == s@.len(),
            out@ == old(out)@ + s@.subrange(0, i as int),
        decreases n - i,
    {
        out.push(s.get_char(i));
        i = i + 1;
        proof {
            assert(out@ =~= old(out)@ + s@.subrange(0, i as int));
        }
    }
    proof {
        assert(out@ =~= old(out)@ + s@);
    }
}

/// A string holding exactly the given characters.
pub fn string_of_chars(v: &Vec<char>) -> (r: String)
    ensures
        r@ == v@,
{
    let mut out = String::new();
    let mut i: usize = 0;
    while i < v.len()
        invariant
            i <= v.len(),
            out@ == v@.subrange(0, i as int),
        decreases v.len() - i,
    {
        push_char(&mut out, v[i]);
        i = i + 1;
        proof {
            assert(out@ =~= v@.subrange(0, i as int));
        }
    }
    proof {
        assert(out@ =~= v@);
    }
    out
}

} // verus!
