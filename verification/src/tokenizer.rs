use vstd::prelude::*;

use crate::definitions::atom::{spec_organic_one, spec_organic_two, organic_one, organic_two};
use crate::definitions::bond::spec_bond_type_of;
use crate::text::{
    chars_of, digit_run_end, digit_run_end_at, is_digit, is_digit_char, is_lower_alpha,
    is_lower_alpha_char, is_upper_alpha, is_upper_alpha_char, string_of_chars,
};

verus! {

/// A character that writes a bond between atoms; the structure dot is none.
pub open spec fn is_bond_char(c: char) -> bool {
    spec_bond_type_of(c) is Some && c != '.'
}

pub fn bond_char(c: char) -> (r: bool)
    ensures
        r == is_bond_char(c),
{
    c == '-' || c == '/' || c == '\\' || c == '=' || c == '#' || c == '$' || c == ':'
}

/// End of the element shape at `i` inside a bracket token: the lower-case
/// organic symbols, or any capital letter with an optional small letter.
pub open spec fn spec_shape_elem_end(s: Seq<char>, i: int) -> Option<int> {
    if !(0 <= i < s.len()) {
        None
    } else if is_lower_alpha(s[i]) {
        if i + 1 < s.len() && spec_organic_two(s[i], s[i + 1]) is Some {
            Some(i + 2)
        } else if spec_organic_one(s[i]) is Some {
            Some(i + 1)
        } else {
            None
        }
    } else if is_upper_alpha(s[i]) {
        if i + 1 < s.len() && is_lower_alpha(s[i + 1]) {
            Some(i + 2)
        } else {
            Some(i + 1)
        }
    } else {
        None
    }
}

fn shape_elem_end(v: &Vec<char>, i: usize) -> (r: Option<usize>)
    ensures
        match r {
            Some(j) => spec_shape_elem_end(v@, i as int) == Some(j as int) && i < j <= v.len(),
            None => spec_shape_elem_end(v@, i as int) is None,
        },
{
    if i >= v.len() {
        return None;
    }
    let c = v[i];
    if is_lower_alpha_char(c) {
        if i + 1 < v.len() && organic_two(c, v[i + 1]).is_some() {
            Some(i + 2)
        } else if organic_one(c).is_some() {
            Some(i + 1)
        } else {
            None
        }
    } else if is_upper_alpha_char(c) {
        if i + 1 < v.len() && is_lower_alpha_char(v[i + 1]) {
            Some(i + 2)
        } else {
            Some(i + 1)
        }
    } else {
        None
    }
}

/// Number of chirality marks at `i`: up to two `@` signs.
pub open spec fn spec_ats(s: Seq<char>, i: int) -> int {
    if 0 <= i < s.len() && s[i] == '@' {
        if i + 1 < s.len() && s[i + 1] == '@' {
            2
        } else {
            1
        }
    } else {
        0
    }
}

fn ats_at(v: &Vec<char>, i: usize) -> (r: usize)
    requires
        i <= v.len(),
    ensures
        r as int == spec_ats(v@, i as int),
        i + r <= v.len(),
{
    if i < v.len() && v[i] == '@' {
        if i + 1 < v.len() && v[i + 1] == '@' {
            2
        } else {
            1
        }
    } else {
        0
    }
}

/// Position of the `}` that ends a selector: the first one that a `]` follows.
/// A line break before it ends the search.
pub open spec fn spec_sel_close(s: Seq<char>, k: int) -> Option<int>
    decreases s.len() - k,
{
    if k < 0 || k >= s.len() {
        None
    } else if s[k] == '}' && k + 1 < s.len() && s[k + 1] == ']' {
        Some(k)
    } else if s[k] == '\n' {
        None
    } else {
        spec_sel_close(s, k + 1)
    }
}

fn sel_close_at(v: &Vec<char>, k: usize) -> (r: Option<usize>)
    requires
        k <= v.len(),
    ensures
        match r {
            Some(j) => spec_sel_close(v@, k as int) == Some(j as int) && k <= j && j + 1 < v.len(),
            None => spec_sel_close(v@, k as int) is None,
        },
    decreases v.len() - k,
{
    if k >= v.len() {
        None
    } else if v[k] == '}' && k + 1 < v.len() && v[k + 1] == ']' {
        Some(k)
    } else if v[k] == '\n' {
        None
    } else {
        sel_close_at(v, k + 1)
    }
}

/// End of a bracket-atom token starting at `i`, by shape alone: the element
/// need not name a known element, and numbers are not bounded.
pub open spec fn spec_bracket_end(s: Seq<char>, i: int) -> Option<int> {
    if !(0 <= i < s.len() && s[i] == '[') {
        None
    } else {
        let j1 = if i + 1 < s.len() && is_digit(s[i + 1]) && s[i + 1] != '0' {
            digit_run_end(s, i + 1)
        } else {
            i + 1
        };
        match spec_shape_elem_end(s, j1) {
            None => None,
            Some(j2) => {
                let j3 = j2 + spec_ats(s, j2);
                let j4 = if j3 < s.len() && s[j3] == 'H' {
                    let dend = digit_run_end(s, j3 + 1);
                    if dend > j3 + 1 && s[j3 + 1] != '0' {
                        dend
                    } else {
                        j3 + 1
                    }
                } else {
                    j3
                };
                let j5 = if j4 < s.len() && (s[j4] == '+' || s[j4] == '-') {
                    let dend = digit_run_end(s, j4 + 1);
                    if dend > j4 + 1 && s[j4 + 1] != '0' {
                        dend
                    } else {
                        crate::text::char_run_end(s, j4, s[j4])
                    }
                } else {
                    j4
                };
                if j5 < s.len() && s[j5] == ':' {
                    let dend = digit_run_end(s, j5 + 1);
                    if dend > j5 + 1 {
                        spec_bracket_close(s, i, dend)
                    } else {
                        None
                    }
                } else {
                    spec_bracket_close(s, i, j5)
                }
            },
        }
    }
}

/// The optional selector and the closing bracket, from position `j6`.
pub open spec fn spec_bracket_close(s: Seq<char>, i: int, j6: int) -> Option<int> {
    if j6 < s.len() && s[j6] == '{' {
        if j6 + 1 < s.len() && s[j6 + 1] != '\n' {
            match spec_sel_close(s, j6 + 2) {
                Some(k) => Some(k + 2),
                None => None,
            }
        } else {
            None
        }
    } else {
        if j6 < s.len() && s[j6] == ']' {
            Some(j6 + 1)
        } else {
            None
        }
    }
}

fn bracket_close_at(v: &Vec<char>, i: usize, j6: usize) -> (r: Option<usize>)
    requires
        j6 <= v.len(),
    ensures
        match r {
            Some(e) => spec_bracket_close(v@, i as int, j6 as int) == Some(e as int) && j6 < e
                <= v.len(),
            None => spec_bracket_close(v@, i as int, j6 as int) is None,
        },
{
    if j6 < v.len() && v[j6] == '{' {
        if j6 + 1 < v.len() && v[j6 + 1] != '\n' {
            match sel_close_at(v, j6 + 2) {
                Some(k) => Some(k + 2),
                None => None,
            }
        } else {
            None
        }
    } else {
        if j6 < v.len() && v[j6] == ']' {
            Some(j6 + 1)
        } else {
            None
        }
    }
}

fn bracket_end_at(v: &Vec<char>, i: usize) -> (r: Option<usize>)
    requires
        i <= v.len(),
    ensures
        match r {
            Some(e) => spec_bracket_end(v@, i as int) == Some(e as int) && i < e <= v.len(),
            None => spec_bracket_end(v@, i as int) is None,
        },
{
    if !(i < v.len() && v[i] == '[') {
        return None;
    }
    let j1 = if i + 1 < v.len() && is_digit_char(v[i + 1]) && v[i + 1] != '0' {
        digit_run_end_at(v, i + 1)
    } else {
        i + 1
    };
    let j2 = match shape_elem_end(v, j1) {
        Some(j) => j,
        None => {
            return None;
        },
    };
    let j3 = j2 + ats_at(v, j2);
    let j4 = if j3 < v.len() && v[j3] == 'H' {
        let dend = digit_run_end_at(v, j3 + 1);
        if dend > j3 + 1 && v[j3 + 1] != '0' {
            dend
        } else {
            j3 + 1
        }
    } else {
        j3
    };
    let j5 = if j4 < v.len() && (v[j4] == '+' || v[j4] == '-') {
        let dend = digit_run_end_at(v, j4 + 1);
        if dend > j4 + 1 && v[j4 + 1] != '0' {
            dend
        } else {
            crate::text::char_run_end_at(v, j4, v[j4])
        }
    } else {
        j4
    };
    if j5 < v.len() && v[j5] == ':' {
        let dend = digit_run_end_at(v, j5 + 1);
        if dend > j5 + 1 {
            bracket_close_at(v, i, dend)
        } else {
            None
        }
    } else {
        bracket_close_at(v, i, j5)
    }
}

/// Length of a bracket-free atom token at `i`: the organic-subset element,
/// two letters before one, and up to two `@` signs.
pub open spec fn spec_organic_len(s: Seq<char>, i: int) -> int {
    if 0 <= i && i + 1 < s.len() && spec_organic_two(s[i], s[i + 1]) is Some {
        2 + spec_ats(s, i + 2)
    } else if 0 <= i < s.len() && spec_organic_one(s[i]) is Some {
        1 + spec_ats(s, i + 1)
    } else {
        0
    }
}

fn organic_len_at(v: &Vec<char>, i: usize) -> (r: usize)
    requires
        i <= v.len(),
    ensures
        r as int == spec_organic_len(v@, i as int),
        i + r <= v.len(),
{
    if i < v.len() && i + 1 < v.len() && organic_two(v[i], v[i + 1]).is_some() {
        2 + ats_at(v, i + 2)
    } else if i < v.len() && organic_one(v[i]).is_some() {
        1 + ats_at(v, i + 1)
    } else {
        0
    }
}

/// Length of a ring-bond reference at `i`: an optional bond character, then a
/// single digit `1`-`9`, or `%` and two or more digits starting `1`-`9`.
pub open spec fn spec_ring_len(s: Seq<char>, i: int) -> int {
    if !(0 <= i < s.len()) {
        0
    } else {
        let j = if is_bond_char(s[i]) {
            i + 1
        } else {
            i
        };
        if j < s.len() && is_digit(s[j]) && s[j] != '0' {
            j + 1 - i
        } else if j + 2 < s.len() && s[j] == '%' && is_digit(s[j + 1]) && s[j + 1] != '0'
            && is_digit(s[j + 2]) {
            digit_run_end(s, j + 1) - i
        } else {
            0
        }
    }
}

fn ring_len_at(v: &Vec<char>, i: usize) -> (r: usize)
    requires
        i <= v.len(),
    ensures
        r as int == spec_ring_len(v@, i as int),
        i + r <= v.len(),
{
    if i >= v.len() {
        return 0;
    }
    let j = if bond_char(v[i]) {
        i + 1
    } else {
        i
    };
    if j < v.len() && is_digit_char(v[j]) && v[j] != '0' {
        j + 1 - i
    } else if j < v.len() && v.len() - j > 2 && v[j] == '%' && is_digit_char(v[j + 1]) && v[j + 1]
        != '0' && is_digit_char(v[j + 2]) {
        let dend = digit_run_end_at(v, j + 1);
        proof {
            crate::text::lemma_digit_run_end(v@, j + 1);
        }
        dend - i
    } else {
        0
    }
}

/// Length of the token at `i`, the classes tried in grammar order;
/// zero where no token starts here.
pub open spec fn spec_token_len(s: Seq<char>, i: int) -> int {
    if spec_bracket_end(s, i) is Some {
        spec_bracket_end(s, i)->Some_0 - i
    } else if spec_organic_len(s, i) > 0 {
        spec_organic_len(s, i)
    } else if 0 <= i < s.len() && (s[i] == '(' || s[i] == ')' || s[i] == '.') {
        1
    } else if spec_ring_len(s, i) > 0 {
        spec_ring_len(s, i)
    } else if 0 <= i < s.len() && is_bond_char(s[i]) {
        1
    } else {
        0
    }
}

fn token_len_at(v: &Vec<char>, i: usize) -> (r: usize)
    requires
        i < v.len(),
    ensures
        r as int == spec_token_len(v@, i as int),
        i + r <= v.len(),
{
    match bracket_end_at(v, i) {
        Some(e) => e - i,
        None => {
            let ol = organic_len_at(v, i);
            if ol > 0 {
                ol
            } else if v[i] == '(' || v[i] == ')' || v[i] == '.' {
                1
            } else {
                let rl = ring_len_at(v, i);
                if rl > 0 {
                    rl
                } else if bond_char(v[i]) {
                    1
                } else {
                    0
                }
            }
        },
    }
}

/// The tokens of `s` from position `i` on, in order; an unrecognized
/// character is skipped.
pub open spec fn spec_tokenize_from(s: Seq<char>, i: int) -> Seq<Seq<char>>
    decreases s.len() - i,
{
    if i < 0 || i >= s.len() {
        Seq::<Seq<char>>::empty()
    } else {
        let l = spec_token_len(s, i);
        if 1 <= l && i + l <= s.len() {
            seq![s.subrange(i, i + l)] + spec_tokenize_from(s, i + l)
        } else {
            spec_tokenize_from(s, i + 1)
        }
    }
}

/// The token sequence of a SMILES string.
pub open spec fn spec_tokenize(s: Seq<char>) -> Seq<Seq<char>> {
    spec_tokenize_from(s, 0)
}

/// The tokens of a character sequence, left to right, longest match first;
/// unrecognized characters are skipped.
#[verifier::loop_isolation(false)]
pub fn tokenize_chars(v: &Vec<char>) -> (r: Vec<Vec<char>>)
    ensures
        r@.map_values(|t: Vec<char>| t@) == spec_tokenize(v@),
{
    let mut out: Vec<Vec<char>> = Vec::new();
    let mut i: usize = 0;
    while i < v.len()
        invariant
            i <= v.len(),
            spec_tokenize(v@) == out@.map_values(|t: Vec<char>| t@) + spec_tokenize_from(
                v@,
                i as int,
            ),
        decreases v.len() - i,
    {
        let l = token_len_at(v, i);
        if l == 0 {
            i = i + 1;
        } else {
            let mut tok: Vec<char> = Vec::new();
            let mut k: usize = i;
            while k < i + l
                invariant
                    i <= k <= i + l,
                    i + l <= v.len(),
                    tok@ == v@.subrange(i as int, k as int),
                decreases i + l - k,
            {
                tok.push(v[k]);
                k = k + 1;
                proof {
                    assert(tok@ =~= v@.subrange(i as int, k as int));
                }
            }
            out.push(tok);
            proof {
                assert(out@.map_values(|t: Vec<char>| t@) =~= out@.drop_last().map_values(
                    |t: Vec<char>| t@,
                ).push(v@.subrange(i as int, i + l)));
            }
            i = i + l;
        }
    }
    out
}

/// Split a SMILES string into its tokens, left to right, longest match first;
/// unrecognized characters are skipped.
#[verifier::loop_isolation(false)]
pub fn smiles_tokenize(smiles: &str) -> (r: Vec<String>)
    ensures
        r@.map_values(|t: String| t@) == spec_tokenize(smiles@),
{
    let v = chars_of(smiles);
    let toks = tokenize_chars(&v);
    let mut out: Vec<String> = Vec::new();
    let mut i: usize = 0;
    while i < toks.len()
        invariant
            i <= toks@.len(),
            out@.map_values(|t: String| t@) == toks@.subrange(0, i as int).map_values(
                |t: Vec<char>| t@,
            ),
        decreases toks@.len() - i,
    {
        let tok_str = string_of_chars(&toks[i]);
        let ghost prev = out@;
        out.push(tok_str);
        i = i + 1;
        proof {
            assert(out@ =~= prev.push(tok_str));
            assert(out@.map_values(|t: String| t@) =~= prev.map_values(|t: String| t@).push(
                tok_str@,
            ));
            assert(out@.map_values(|t: String| t@) =~= toks@.subrange(0, i as int).map_values(
                |t: Vec<char>| t@,
            ));
        }
    }
    proof {
        assert(toks@.subrange(0, toks@.len() as int) =~= toks@);
        assert(out@.map_values(|t: String| t@) =~= spec_tokenize(smiles@));
    }
    out
}

} // verus!
