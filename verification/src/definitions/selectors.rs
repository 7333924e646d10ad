use vstd::prelude::*;

use crate::text::{
    chars_of, dec_value, digit_run_end, digit_run_end_at, parse_dec, string_of_chars,
};

verus! {

/// The position of the first `c` at or after `i`.
pub open spec fn spec_find_char(s: Seq<char>, c: char, i: int) -> Option<int>
    decreases s.len() - i,
{
    if i < 0 || i >= s.len() {
        None
    } else if s[i] == c {
        Some(i)
    } else {
        spec_find_char(s, c, i + 1)
    }
}

fn find_char_at(v: &Vec<char>, c: char, i: usize) -> (r: Option<usize>)
    requires
        i <= v.len(),
    ensures
        match r {
            Some(p) => spec_find_char(v@, c, i as int) == Some(p as int) && i <= p < v.len(),
            None => spec_find_char(v@, c, i as int) is None,
        },
    decreases v.len() - i,
{
    if i >= v.len() {
        None
    } else if v[i] == c {
        Some(i)
    } else {
        find_char_at(v, c, i + 1)
    }
}

/// A selector payload split at `;`, separators dropped, empty parts kept.
pub open spec fn spec_split(s: Seq<char>) -> Seq<Seq<char>>
    decreases s.len(),
{
    match spec_find_char(s, ';', 0) {
        None => seq![s],
        Some(p) => {
            if 0 <= p < s.len() {
                seq![s.subrange(0, p)] + spec_split(s.subrange(p + 1, s.len() as int))
            } else {
                seq![s]
            }
        },
    }
}

/// The parts joined back with `;` between them.
pub open spec fn spec_join(parts: Seq<Seq<char>>) -> Seq<char>
    decreases parts.len(),
{
    if parts.len() == 0 {
        Seq::<char>::empty()
    } else if parts.len() == 1 {
        parts[0]
    } else {
        parts[0] + seq![';'] + spec_join(parts.drop_first())
    }
}

/// Does the `;`-separated selector list name `target` as one of its parts?
pub open spec fn spec_selector_contains(sel: Seq<char>, target: Seq<char>) -> bool {
    spec_split(sel).contains(target)
}

/// Are two character vectors the same text?
fn eq_chars(a: &Vec<char>, b: &Vec<char>) -> (r: bool)
    ensures
        r == (a@ == b@),
{
    if a.len() != b.len() {
        proof {
            assert(a@ != b@);
        }
        return false;
    }
    let mut i: usize = 0;
    while i < a.len()
        invariant
            i <= a@.len(),
            a@.len() == b@.len(),
            forall|k: int| 0 <= k < i ==> a@[k] == b@[k],
        decreases a@.len() - i,
    {
        if a[i] != b[i] {
            proof {
                assert(a@ != b@);
            }
            return false;
        }
        i = i + 1;
    }
    proof {
        assert(a@ =~= b@);
    }
    true
}

/// The parts of the selector list, in order.
fn split_chars(v: &Vec<char>) -> (r: Vec<Vec<char>>)
    ensures
        r@.map_values(|p: Vec<char>| p@) == spec_split(v@),
{
    let mut out: Vec<Vec<char>> = Vec::new();
    let mut start: usize = 0;
    proof {
        assert(v@.subrange(0, v@.len() as int) =~= v@);
        assert(out@.map_values(|p: Vec<char>| p@) + spec_split(v@) =~= spec_split(v@));
    }
    loop
        invariant
            start <= v.len(),
            spec_split(v@) == out@.map_values(|p: Vec<char>| p@) + spec_split(
                v@.subrange(start as int, v@.len() as int),
            ),
        decreases v.len() - start,
    {
        let ghost tail = v@.subrange(start as int, v@.len() as int);
        match find_char_at(v, ';', start) {
            Some(p) => {
                proof {
                    lemma_find_char_shift(v@, start as int, p as int);
                }
                let mut part: Vec<char> = Vec::new();
                let mut k: usize = start;
                while k < p
                    invariant
                        start <= k <= p <= v.len(),
                        part@ == v@.subrange(start as int, k as int),
                    decreases p - k,
                {
                    part.push(v[k]);
                    k = k + 1;
                    proof {
                        assert(part@ =~= v@.subrange(start as int, k as int));
                    }
                }
                out.push(part);
                proof {
                    assert(tail.subrange(0, p - start) =~= v@.subrange(start as int, p as int));
                    assert(tail.subrange(p - start + 1, tail.len() as int) =~= v@.subrange(
                        p + 1,
                        v@.len() as int,
                    ));
                    assert(out@.map_values(|pp: Vec<char>| pp@) =~= out@.drop_last().map_values(
                        |pp: Vec<char>| pp@,
                    ).push(v@.subrange(start as int, p as int)));
                }
                start = p + 1;
            },
            None => {
                proof {
                    lemma_find_char_shift(v@, start as int, -1);
                }
                let mut part: Vec<char> = Vec::new();
                let mut k: usize = start;
                while k < v.len()
                    invariant
                        start <= k <= v.len(),
                        part@ == v@.subrange(start as int, k as int),
                    decreases v.len() - k,
                {
                    part.push(v[k]);
                    k = k + 1;
                    proof {
                        assert(part@ =~= v@.subrange(start as int, k as int));
                    }
                }
                out.push(part);
                proof {
                    assert(v@.subrange(start as int, v@.len() as int) =~= part@);
                    assert(out@.map_values(|pp: Vec<char>| pp@) =~= out@.drop_last().map_values(
                        |pp: Vec<char>| pp@,
                    ).push(part@));
                    assert(spec_split(tail) =~= seq![part@]);
                }
                return out;
            },
        }
    }
}

/// Finding `;` inside the tail mirrors finding it in the whole text.
proof fn lemma_find_char_shift(s: Seq<char>, start: int, p: int)
    requires
        0 <= start <= s.len(),
    ensures
        p >= start && spec_find_char(s, ';', start) == Some(p) ==> spec_find_char(
            s.subrange(start, s.len() as int),
            ';',
            0,
        ) == Some(p - start),
        p == -1 && spec_find_char(s, ';', start) is None ==> spec_find_char(
            s.subrange(start, s.len() as int),
            ';',
            0,
        ) is None,
    decreases s.len() - start,
{
    lemma_find_char_shift_aux(s, start, start);
}

proof fn lemma_find_char_shift_aux(s: Seq<char>, base: int, i: int)
    requires
        0 <= base <= i <= s.len(),
    ensures
        spec_find_char(s, ';', i) == (match spec_find_char(
            s.subrange(base, s.len() as int),
            ';',
            i - base,
        ) {
            Some(q) => Some(q + base),
            None => None,
        }),
    decreases s.len() - i,
{
    if i < s.len() {
        assert(s.subrange(base, s.len() as int)[i - base] == s[i]);
        if s[i] != ';' {
            lemma_find_char_shift_aux(s, base, i + 1);
        }
    }
}

/// Does the atom's selector list name `target`? Parts are separated by `;`.
pub fn selector_matches(sel: &str, target: &str) -> (r: bool)
    ensures
        r == spec_selector_contains(sel@, target@),
{
    let sv = chars_of(sel);
    let tv = chars_of(target);
    let parts = split_chars(&sv);
    let mut i: usize = 0;
    while i < parts.len()
        invariant
            i <= parts@.len(),
            tv@ == target@,
            parts@.map_values(|p: Vec<char>| p@) == spec_split(sel@),
            forall|k: int| 0 <= k < i ==> (#[trigger] parts@[k])@ != target@,
        decreases parts@.len() - i,
    {
        if eq_chars(&parts[i], &tv) {
            proof {
                assert(spec_split(sel@)[i as int] == target@);
            }
            return true;
        }
        i = i + 1;
    }
    proof {
        assert forall|k: int|
            0 <= k < spec_split(sel@).len() implies spec_split(sel@)[k] != target@ by {
            assert(parts@[k]@ != target@);
            assert(spec_split(sel@)[k] == parts@[k]@);
        }
    }
    false
}

/// What removing the first part equal to `target` leaves: nothing to do where
/// no part matches; the parts before and after rejoined around one `;`, or no
/// selector at all where only the bare separator would remain.
pub open spec fn spec_remove_selector(sel: Seq<char>, target: Seq<char>) -> Option<
    Option<Seq<char>>,
> {
    let parts = spec_split(sel);
    match first_eq(parts, target, 0) {
        None => None,
        Some(idx) => {
            let joined = spec_join(parts.subrange(0, idx)) + seq![';'] + spec_join(
                parts.subrange(idx + 1, parts.len() as int),
            );
            if joined == seq![';'] {
                Some(None)
            } else {
                Some(Some(joined))
            }
        },
    }
}

/// The position of the first part equal to `target`, from `k`.
pub open spec fn first_eq(parts: Seq<Seq<char>>, target: Seq<char>, k: int) -> Option<int>
    decreases parts.len() - k,
{
    if k < 0 || k >= parts.len() {
        None
    } else if parts[k] == target {
        Some(k)
    } else {
        first_eq(parts, target, k + 1)
    }
}

/// Remove the first occurrence of `target` from the selector list. `None`
/// says the list does not name it; `Some(None)` says the list is spent.
#[verifier::loop_isolation(false)]
pub fn remove_selector_occurrence(sel: &str, target: &str) -> (r: Option<Option<String>>)
    ensures
        match r {
            None => spec_remove_selector(sel@, target@) is None,
            Some(opt) => spec_remove_selector(sel@, target@) matches Some(spec_opt) && (match (
                opt,
                spec_opt,
            ) {
                (Some(ns), Some(gs)) => ns@ == gs,
                (None, None) => true,
                _ => false,
            }),
        },
{
    let sv = chars_of(sel);
    let tv = chars_of(target);
    let parts = split_chars(&sv);
    let ghost gparts = spec_split(sel@);
    let mut idx: usize = 0;
    let found: usize;
    loop
        invariant
            idx <= parts@.len(),
            first_eq(gparts, target@, 0) == first_eq(gparts, target@, idx as int),
        decreases parts@.len() - idx,
    {
        if idx >= parts.len() {
            return None;
        }
        if eq_chars(&parts[idx], &tv) {
            proof {
                assert(gparts[idx as int] == target@);
            }
            found = idx;
            break ;
        }
        proof {
            assert(gparts[idx as int] == parts@[idx as int]@);
        }
        idx = idx + 1;
    }
    // join the parts before and after the removed one around a single `;`
    let mut out: Vec<char> = Vec::new();
    let mut k: usize = 0;
    while k < found
        invariant
            k <= found < parts@.len(),
            out@ == spec_join(gparts.subrange(0, k as int)) + (if k > 0 {
                seq![';']
            } else {
                Seq::<char>::empty()
            }),
        decreases found - k,
    {
        proof {
            lemma_join_snoc(gparts.subrange(0, k as int), gparts[k as int]);
            assert(gparts.subrange(0, k + 1).drop_last() =~= gparts.subrange(0, k as int));
        }
        push_all(&mut out, &parts[k]);
        out.push(';');
        k = k + 1;
        proof {
            assert(gparts.subrange(0, k as int).last() == gparts[k - 1]);
            assert(gparts.subrange(0, k as int) =~= gparts.subrange(0, k - 1).push(
                gparts[k - 1],
            ));
            assert(out@ =~= spec_join(gparts.subrange(0, k as int)) + seq![';']);
        }
    }
    if found == 0 {
        out.push(';');
        proof {
            assert(spec_join(gparts.subrange(0, 0)) =~= Seq::<char>::empty());
            assert(out@ =~= spec_join(gparts.subrange(0, 0)) + seq![';']);
        }
    }
    let ghost head = out@;
    let mut k: usize = found + 1;
    while k < parts.len()
        invariant
            found + 1 <= k <= parts@.len(),
            gparts.len() == parts@.len(),
            found < parts@.len(),
            head == spec_join(gparts.subrange(0, found as int)) + seq![';'],
            out@ == head + spec_join(gparts.subrange(found + 1, k as int)) + (if found + 1 < k
                && k < parts@.len() {
                seq![';']
            } else {
                Seq::<char>::empty()
            }),
        decreases parts@.len() - k,
    {
        proof {
            lemma_join_snoc(gparts.subrange(found + 1, k as int), gparts[k as int]);
            assert(gparts[k as int] == parts@[k as int]@);
        }
        push_all(&mut out, &parts[k]);
        if k + 1 < parts.len() {
            out.push(';');
        }
        k = k + 1;
        proof {
            assert(gparts.subrange(found + 1, k as int) =~= gparts.subrange(
                found + 1,
                k - 1,
            ).push(gparts[k - 1]));
            if k < gparts.len() {
                assert(out@ =~= head + spec_join(gparts.subrange(found + 1, k as int)) + seq![';']);
            } else {
                assert(out@ =~= head + spec_join(gparts.subrange(found + 1, k as int)));
            }
        }
    }
    proof {
        assert(gparts.subrange(found + 1, gparts.len() as int) =~= gparts.subrange(
            found + 1,
            parts@.len() as int,
        ));
        assert(out@ =~= spec_join(gparts.subrange(0, found as int)) + seq![';'] + spec_join(
            gparts.subrange(found + 1, gparts.len() as int),
        ));
    }
    let is_bare = out.len() == 1 && out[0] == ';';
    proof {
        if is_bare {
            assert(out@ =~= seq![';']);
        } else {
            assert(out@ != seq![';']);
        }
    }
    if is_bare {
        Some(None)
    } else {
        Some(Some(string_of_chars(&out)))
    }
}

/// Joining one more part appends a separator and the part.
proof fn lemma_join_snoc(parts: Seq<Seq<char>>, last: Seq<char>)
    ensures
        parts.len() == 0 ==> spec_join(parts.push(last)) == last,
        parts.len() > 0 ==> spec_join(parts.push(last)) == spec_join(parts) + seq![';'] + last,
    decreases parts.len(),
{
    if parts.len() == 0 {
        assert(spec_join(parts.push(last)) =~= last);
    } else {
        assert(parts.push(last).drop_first() =~= parts.drop_first().push(last));
        lemma_join_snoc(parts.drop_first(), last);
        assert(parts.push(last)[0] == parts[0]);
        if parts.len() == 1 {
            assert(parts.drop_first().len() == 0);
            assert(spec_join(parts.push(last)) =~= parts[0] + seq![';'] + last);
            assert(spec_join(parts) == parts[0]);
        } else {
            assert(spec_join(parts.push(last)) =~= spec_join(parts) + seq![';'] + last);
        }
    }
}

fn push_all(out: &mut Vec<char>, part: &Vec<char>)
    ensures
        final(out)@ == old(out)@ + part@,
{
    let mut k: usize = 0;
    while k < part.len()
        invariant
            k <= part@.len(),
            out@ == old(out)@ + part@.subrange(0, k as int),
        decreases part@.len() - k,
    {
        out.push(part[k]);
        k = k + 1;
        proof {
            assert(out@ =~= old(out)@ + part@.subrange(0, k as int));
        }
    }
    proof {
        assert(out@ =~= old(out)@ + part@);
    }
}

// ---------------------------------------------------------------------------
// Replacer selectors: `Replacer(<bond>)` or `Replacer(<bond>, <amount>)`
// ---------------------------------------------------------------------------
/// A whitespace character as the replacer grammar skips it.
pub open spec fn is_space(c: char) -> bool {
    c == ' ' || c == '\t' || c == '\n' || c == '\r' || c as u32 == 11 || c as u32 == 12
}

fn is_space_char(c: char) -> (r: bool)
    ensures
        r == is_space(c),
{
    let v = c as u32;
    c == ' ' || c == '\t' || c == '\n' || c == '\r' || v == 11 || v == 12
}

/// First position at or after `i` that holds no whitespace.
pub open spec fn space_run_end(s: Seq<char>, i: int) -> int
    decreases s.len() - i,
{
    if i < 0 || i >= s.len() || !is_space(s[i]) {
        i
    } else {
        space_run_end(s, i + 1)
    }
}

fn space_run_end_at(v: &Vec<char>, i: usize) -> (r: usize)
    requires
        i <= v.len(),
    ensures
        r as int == space_run_end(v@, i as int),
        i <= r <= v.len(),
    decreases v.len() - i,
{
    if i >= v.len() || !is_space_char(v[i]) {
        i
    } else {
        space_run_end_at(v, i + 1)
    }
}

/// The bond characters a replacer may carry.
pub open spec fn is_replacer_key(c: char) -> bool {
    c == '-' || c == '=' || c == '#' || c == '$'
}

/// A replacer selector starting at `i`: the word `Replacer`, an opening
/// parenthesis, a bond character, and an optional count after a comma.
/// Counts beyond `u64` are not recognized.
pub open spec fn spec_replacer_at(s: Seq<char>, i: int) -> Option<(char, Option<nat>)> {
    if 0 <= i && i + 10 <= s.len() && s[i] == 'R' && s[i + 1] == 'e' && s[i + 2] == 'p' && s[i + 3]
        == 'l' && s[i + 4] == 'a' && s[i + 5] == 'c' && s[i + 6] == 'e' && s[i + 7] == 'r' && s[i
        + 8] == '(' && is_replacer_key(s[i + 9]) {
        let kt = s[i + 9];
        let j = i + 10;
        let w1 = space_run_end(s, j);
        let amount_ok = w1 < s.len() && s[w1] == ',' && {
            let w2 = space_run_end(s, w1 + 1);
            let dend = digit_run_end(s, w2);
            dend > w2 && w2 < s.len() && s[w2] != '0' && dend < s.len() && s[dend] == ')'
                && dec_value(s.subrange(w2, dend)) <= u64::MAX
        };
        if amount_ok {
            let w2 = space_run_end(s, w1 + 1);
            let dend = digit_run_end(s, w2);
            Some((kt, Some(dec_value(s.subrange(w2, dend)))))
        } else if j < s.len() && s[j] == ')' {
            Some((kt, None))
        } else {
            None
        }
    } else {
        None
    }
}

/// The leftmost replacer selector at or after `i`.
pub open spec fn spec_find_replacer(s: Seq<char>, i: int) -> Option<(char, Option<nat>)>
    decreases s.len() - i,
{
    if i < 0 || i > s.len() {
        None
    } else {
        match spec_replacer_at(s, i) {
            Some(m) => Some(m),
            None => {
                if i < s.len() {
                    spec_find_replacer(s, i + 1)
                } else {
                    None
                }
            },
        }
    }
}

fn replacer_at(v: &Vec<char>, i: usize) -> (r: Option<(char, Option<u64>)>)
    requires
        i <= v.len(),
    ensures
        match r {
            Some((c, amt)) => spec_replacer_at(v@, i as int) == Some(
                (
                    c,
                    match amt {
                        Some(x) => Some(x as nat),
                        None => None,
                    },
                ),
            ),
            None => spec_replacer_at(v@, i as int) is None,
        },
{
    if !(v.len() - i >= 10) {
        return None;
    }
    if !(v[i] == 'R' && v[i + 1] == 'e' && v[i + 2] == 'p' && v[i + 3] == 'l' && v[i + 4] == 'a'
        && v[i + 5] == 'c' && v[i + 6] == 'e' && v[i + 7] == 'r' && v[i + 8] == '(') {
        return None;
    }
    let kt = v[i + 9];
    if !(kt == '-' || kt == '=' || kt == '#' || kt == '$') {
        return None;
    }
    let j = i + 10;
    let w1 = space_run_end_at(v, j);
    if w1 < v.len() && v[w1] == ',' {
        let w2 = space_run_end_at(v, w1 + 1);
        let dend = digit_run_end_at(v, w2);
        proof {
            crate::text::lemma_digit_run_end(v@, w2 as int);
        }
        if dend > w2 && v[w2] != '0' && dend < v.len() && v[dend] == ')' {
            match parse_dec(v, w2, dend) {
                Some(val) => {
                    return Some((kt, Some(val)));
                },
                None => {},
            }
        }
    }
    if j < v.len() && v[j] == ')' {
        Some((kt, None))
    } else {
        None
    }
}

/// Find the first replacer selector in the text: its bond character and its
/// optional count.
pub fn match_replace_selector(s: &str) -> (r: Option<(char, Option<u64>)>)
    ensures
        match r {
            Some((c, amt)) => spec_find_replacer(s@, 0) == Some(
                (
                    c,
                    match amt {
                        Some(x) => Some(x as nat),
                        None => None,
                    },
                ),
            ),
            None => spec_find_replacer(s@, 0) is None,
        },
{
    let v = chars_of(s);
    let mut i: usize = 0;
    while i < v.len()
        invariant
            i <= v@.len(),
            v@ == s@,
            spec_find_replacer(s@, 0) == spec_find_replacer(s@, i as int),
        decreases v@.len() - i,
    {
        match replacer_at(&v, i) {
            Some(m) => {
                return Some(m);
            },
            None => {},
        }
        i = i + 1;
    }
    match replacer_at(&v, i) {
        Some(m) => Some(m),
        None => None,
    }
}


} // verus!
