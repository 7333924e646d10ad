use vstd::prelude::*;

use crate::definitions::chirality::{spec_chirality_of, ChiralityType};
use crate::definitions::element::{
    element_of, spec_element_of, Element,
};
use crate::text::{
    char_run_end, char_run_end_at, chars_of, dec_digits, dec_value, digit_run_end,
    digit_run_end_at, is_digit, is_digit_char, is_lower_alpha, is_lower_alpha_char,
    is_upper_alpha, is_upper_alpha_char, parse_dec, push_dec, string_of_chars,
};

verus! {

/// An atom of the molecular graph, as parsed from a single SMILES atom token.
#[derive(Debug, Clone, PartialEq)]
pub struct Atom {
    pub element: Element,
    pub isotope: Option<u16>,
    pub charge: isize,
    pub chirality_type: Option<ChiralityType>,
    pub explicit_hydrogen: usize,
    pub selector: Option<String>,
    pub aromatic: bool,
    pub react_id: Option<usize>,
}

/// The mathematical content of an atom: every semantic field, over plain values.
pub ghost struct AtomV {
    pub element: Element,
    pub isotope: Option<nat>,
    pub charge: int,
    pub chirality_type: Option<ChiralityType>,
    pub explicit_hydrogen: nat,
    pub selector: Option<Seq<char>>,
    pub aromatic: bool,
    pub react_id: Option<nat>,
}

impl View for Atom {
    type V = AtomV;

    open spec fn view(&self) -> AtomV {
        AtomV {
            element: self.element,
            isotope: match self.isotope {
                None => None,
                Some(n) => Some(n as nat),
            },
            charge: self.charge as int,
            chirality_type: self.chirality_type,
            explicit_hydrogen: self.explicit_hydrogen as nat,
            selector: match self.selector {
                None => None,
                Some(s) => Some(s@),
            },
            aromatic: self.aromatic,
            react_id: match self.react_id {
                None => None,
                Some(n) => Some(n as nat),
            },
        }
    }
}

// ---------------------------------------------------------------------------
// Writing an atom as a token
// ---------------------------------------------------------------------------
impl AtomV {
    /// The short, bracket-free form is used exactly for plain organic-subset atoms.
    pub open spec fn short_form(self) -> bool {
        &&& self.element.spec_is_organic_subset()
        &&& self.isotope is None
        &&& self.charge == 0
        &&& self.explicit_hydrogen == 0
        &&& self.selector is None
        &&& self.react_id is None
    }

    /// Element symbol (lower case iff aromatic organic-subset) plus chirality marks.
    pub open spec fn core_token(self) -> Seq<char> {
        self.element.written_symbol(self.aromatic) + match self.chirality_type {
            None => Seq::<char>::empty(),
            Some(c) => c.spec_token(),
        }
    }

    pub open spec fn isotope_part(self) -> Seq<char> {
        match self.isotope {
            None => Seq::<char>::empty(),
            Some(n) => dec_digits(n),
        }
    }

    pub open spec fn hydrogen_part(self) -> Seq<char> {
        if self.explicit_hydrogen == 0 {
            Seq::<char>::empty()
        } else if self.explicit_hydrogen == 1 {
            seq!['H']
        } else {
            seq!['H'] + dec_digits(self.explicit_hydrogen)
        }
    }

    pub open spec fn charge_part(self) -> Seq<char> {
        if self.charge == 0 {
            Seq::<char>::empty()
        } else if self.charge == 1 {
            seq!['+']
        } else if self.charge == -1 {
            seq!['-']
        } else if self.charge > 1 {
            seq!['+'] + dec_digits(self.charge as nat)
        } else {
            seq!['-'] + dec_digits((-self.charge) as nat)
        }
    }

    pub open spec fn react_part(self) -> Seq<char> {
        match self.react_id {
            None => Seq::<char>::empty(),
            Some(n) => seq![':'] + dec_digits(n),
        }
    }

    pub open spec fn selector_part(self) -> Seq<char> {
        match self.selector {
            None => Seq::<char>::empty(),
            Some(s) => seq!['{'] + s + seq!['}'],
        }
    }

    /// The SMILES token that writes this atom.
    pub open spec fn spec_token(self) -> Seq<char> {
        if self.short_form() {
            self.core_token()
        } else {
            seq!['['] + self.isotope_part() + self.core_token() + self.hydrogen_part()
                + self.charge_part() + self.react_part() + self.selector_part() + seq![']']
        }
    }
}

// ---------------------------------------------------------------------------
// Element sub-parsers
// ---------------------------------------------------------------------------
/// Two-letter organic-subset symbols, lower case meaning aromatic.
pub open spec fn spec_organic_two(c1: char, c2: char) -> Option<(Element, bool)> {
    if c1 == 'b' && c2 == 'r' {
        Some((Element::Br, true))
    } else if c1 == 'c' && c2 == 'l' {
        Some((Element::Cl, true))
    } else if c1 == 'B' && c2 == 'r' {
        Some((Element::Br, false))
    } else if c1 == 'C' && c2 == 'l' {
        Some((Element::Cl, false))
    } else {
        None
    }
}

pub fn organic_two(c1: char, c2: char) -> (r: Option<(Element, bool)>)
    ensures
        r == spec_organic_two(c1, c2),
{
    if c1 == 'b' && c2 == 'r' {
        Some((Element::Br, true))
    } else if c1 == 'c' && c2 == 'l' {
        Some((Element::Cl, true))
    } else if c1 == 'B' && c2 == 'r' {
        Some((Element::Br, false))
    } else if c1 == 'C' && c2 == 'l' {
        Some((Element::Cl, false))
    } else {
        None
    }
}

/// One-letter organic-subset symbols, lower case meaning aromatic.
pub open spec fn spec_organic_one(c: char) -> Option<(Element, bool)> {
    match c {
        'b' => Some((Element::B, true)),
        'c' => Some((Element::C, true)),
        'n' => Some((Element::N, true)),
        'o' => Some((Element::O, true)),
        'p' => Some((Element::P, true)),
        's' => Some((Element::S, true)),
        'f' => Some((Element::F, true)),
        'i' => Some((Element::I, true)),
        'B' => Some((Element::B, false)),
        'C' => Some((Element::C, false)),
        'N' => Some((Element::N, false)),
        'O' => Some((Element::O, false)),
        'P' => Some((Element::P, false)),
        'S' => Some((Element::S, false)),
        'F' => Some((Element::F, false)),
        'I' => Some((Element::I, false)),
        _ => None,
    }
}

pub fn organic_one(c: char) -> (r: Option<(Element, bool)>)
    ensures
        r == spec_organic_one(c),
{
    match c {
        'b' => Some((Element::B, true)),
        'c' => Some((Element::C, true)),
        'n' => Some((Element::N, true)),
        'o' => Some((Element::O, true)),
        'p' => Some((Element::P, true)),
        's' => Some((Element::S, true)),
        'f' => Some((Element::F, true)),
        'i' => Some((Element::I, true)),
        'B' => Some((Element::B, false)),
        'C' => Some((Element::C, false)),
        'N' => Some((Element::N, false)),
        'O' => Some((Element::O, false)),
        'P' => Some((Element::P, false)),
        'S' => Some((Element::S, false)),
        'F' => Some((Element::F, false)),
        'I' => Some((Element::I, false)),
        _ => None,
    }
}

/// The element written at the start of a bracket-free token: two letters first.
pub open spec fn spec_organic_elem(s: Seq<char>) -> Option<(Element, bool, int)> {
    if s.len() >= 2 && spec_organic_two(s[0], s[1]) is Some {
        let (e, a) = spec_organic_two(s[0], s[1])->Some_0;
        Some((e, a, 2))
    } else if s.len() >= 1 && spec_organic_one(s[0]) is Some {
        let (e, a) = spec_organic_one(s[0])->Some_0;
        Some((e, a, 1))
    } else {
        None
    }
}

/// The element written at position `i` inside a bracket token: the lower-case
/// organic set, or any capital letter with an optional small letter.
pub open spec fn spec_bracket_elem(s: Seq<char>, i: int) -> Option<(Element, bool, int)> {
    if !(0 <= i < s.len()) {
        None
    } else if is_lower_alpha(s[i]) {
        if i + 1 < s.len() && spec_organic_two(s[i], s[i + 1]) is Some {
            let (e, a) = spec_organic_two(s[i], s[i + 1])->Some_0;
            Some((e, true, i + 2))
        } else if spec_organic_one(s[i]) is Some {
            let (e, a) = spec_organic_one(s[i])->Some_0;
            Some((e, true, i + 1))
        } else {
            None
        }
    } else if is_upper_alpha(s[i]) {
        if i + 1 < s.len() && is_lower_alpha(s[i + 1]) {
            match spec_element_of(s[i], Some(s[i + 1])) {
                Some(e) => Some((e, false, i + 2)),
                None => None,
            }
        } else {
            match spec_element_of(s[i], None) {
                Some(e) => Some((e, false, i + 1)),
                None => None,
            }
        }
    } else {
        None
    }
}

pub fn bracket_elem(v: &Vec<char>, i: usize) -> (r: Option<(Element, bool, usize)>)
    ensures
        match r {
            Some((e, a, j)) => spec_bracket_elem(v@, i as int) == Some((e, a, j as int)) && i < j
                <= v.len(),
            None => spec_bracket_elem(v@, i as int) is None,
        },
{
    if i >= v.len() {
        return None;
    }
    let c = v[i];
    if is_lower_alpha_char(c) {
        if i + 1 < v.len() {
            if let Some((e, _a)) = organic_two(c, v[i + 1]) {
                return Some((e, true, i + 2));
            }
        }
        match organic_one(c) {
            Some((e, _a)) => Some((e, true, i + 1)),
            None => None,
        }
    } else if is_upper_alpha_char(c) {
        if i + 1 < v.len() && is_lower_alpha_char(v[i + 1]) {
            match element_of(c, Some(v[i + 1])) {
                Some(e) => Some((e, false, i + 2)),
                None => None,
            }
        } else {
            match element_of(c, None) {
                Some(e) => Some((e, false, i + 1)),
                None => None,
            }
        }
    } else {
        None
    }
}

// ---------------------------------------------------------------------------
// Token sub-parsers: each yields its field and the next position
// ---------------------------------------------------------------------------
/// Number of chirality marks at position `i`: up to two `@` signs.
pub open spec fn spec_at_count(s: Seq<char>, i: int) -> int {
    if 0 <= i < s.len() && s[i] == '@' {
        if i + 1 < s.len() && s[i + 1] == '@' {
            2
        } else {
            1
        }
    } else {
        0
    }
}

/// The isotope digits right after `[`, which may not start with `0`.
pub open spec fn spec_iso_step(s: Seq<char>) -> (Option<nat>, int) {
    if 1 < s.len() && is_digit(s[1]) && s[1] != '0' {
        let dend = digit_run_end(s, 1);
        let v = dec_value(s.subrange(1, dend));
        (
            if v > u16::MAX as nat {
                None
            } else {
                Some(v)
            },
            dend,
        )
    } else {
        (None, 1)
    }
}

/// `H` with an optional count whose digits may not start with `0`; bare `H` is one.
pub open spec fn spec_h_step(s: Seq<char>, i: int) -> (nat, int) {
    if 0 <= i < s.len() && s[i] == 'H' {
        let dend = digit_run_end(s, i + 1);
        if dend > i + 1 && s[i + 1] != '0' {
            let v = dec_value(s.subrange(i + 1, dend));
            (
                if v > usize::MAX as nat {
                    1
                } else {
                    v
                },
                dend,
            )
        } else {
            (1, i + 1)
        }
    } else {
        (0, i)
    }
}

/// A signed count (`+n`, `-n`) or a run of equal signs; `None` where the
/// magnitude does not fit a machine integer.
pub open spec fn spec_charge_step(s: Seq<char>, i: int) -> Option<(int, int)> {
    if 0 <= i < s.len() && (s[i] == '+' || s[i] == '-') {
        let positive = s[i] == '+';
        let dend = digit_run_end(s, i + 1);
        if dend > i + 1 && s[i + 1] != '0' {
            let v = dec_value(s.subrange(i + 1, dend));
            if v > isize::MAX as nat {
                None
            } else {
                Some((if positive { v as int } else { -(v as int) }, dend))
            }
        } else {
            let rend = char_run_end(s, i, s[i]);
            if rend - i > isize::MAX as nat {
                None
            } else {
                Some((if positive { rend - i } else { -(rend - i) }, rend))
            }
        }
    } else {
        Some((0, i))
    }
}

/// `:` followed by at least one digit; `None` where the shape or range fails.
pub open spec fn spec_react_step(s: Seq<char>, i: int) -> Option<(Option<nat>, int)> {
    if 0 <= i < s.len() && s[i] == ':' {
        let dend = digit_run_end(s, i + 1);
        if dend > i + 1 {
            let v = dec_value(s.subrange(i + 1, dend));
            if v > usize::MAX as nat {
                None
            } else {
                Some((Some(v), dend))
            }
        } else {
            None
        }
    } else {
        Some((None, i))
    }
}

// ---------------------------------------------------------------------------
// Whole-token parsers
// ---------------------------------------------------------------------------
/// A bracket-free token: an organic-subset element and chirality, nothing else.
pub open spec fn spec_parse_organic(s: Seq<char>) -> Option<AtomV> {
    match spec_organic_elem(s) {
        None => None,
        Some((e, arom, i)) => {
            let n_at = spec_at_count(s, i);
            if i + n_at == s.len() {
                Some(
                    AtomV {
                        element: e,
                        isotope: None,
                        charge: 0,
                        chirality_type: spec_chirality_of(n_at as nat),
                        explicit_hydrogen: 0,
                        selector: None,
                        aromatic: arom,
                        react_id: None,
                    },
                )
            } else {
                None
            }
        },
    }
}

/// Everything of a bracket token before the selector and the closing bracket:
/// `[` isotope? element chirality? `H`count? charge reactid?
pub open spec fn spec_bracket_prefix(s: Seq<char>) -> Option<(AtomV, int)> {
    if s.len() < 2 || s[0] != '[' {
        None
    } else {
        let (isotope, i1) = spec_iso_step(s);
        match spec_bracket_elem(s, i1) {
            None => None,
            Some((element, aromatic, i2)) => {
                let n_at = spec_at_count(s, i2);
                let i3 = i2 + n_at;
                let (explicit_hydrogen, i4) = spec_h_step(s, i3);
                match spec_charge_step(s, i4) {
                    None => None,
                    Some((charge, i5)) => match spec_react_step(s, i5) {
                        None => None,
                        Some((react_id, i6)) => Some(
                            (
                                AtomV {
                                    element,
                                    isotope,
                                    charge,
                                    chirality_type: spec_chirality_of(n_at as nat),
                                    explicit_hydrogen,
                                    selector: None,
                                    aromatic,
                                    react_id,
                                },
                                i6,
                            ),
                        ),
                    },
                }
            },
        }
    }
}

/// A bracket token: the prefix above, an optional selector, and the closing
/// bracket. The selector runs from `{` to a `}` that the closing `]` follows.
pub open spec fn spec_parse_bracket(s: Seq<char>) -> Option<AtomV> {
    match spec_bracket_prefix(s) {
        None => None,
        Some((a, i6)) => {
            if i6 < s.len() && s[i6] == '{' {
                if s.len() >= i6 + 4 && s[s.len() - 1] == ']' && s[s.len() - 2] == '}' && (
                forall|k: int| i6 + 1 <= k < s.len() - 2 ==> s[k] != '\n') {
                    Some(AtomV { selector: Some(s.subrange(i6 + 1, s.len() - 2)), ..a })
                } else {
                    None
                }
            } else {
                if i6 + 1 == s.len() && s[i6] == ']' {
                    Some(a)
                } else {
                    None
                }
            }
        },
    }
}

/// What parsing a single atom token yields: the bracket-free shape first.
pub open spec fn spec_parse_atom(s: Seq<char>) -> Option<AtomV> {
    match spec_parse_organic(s) {
        Some(a) => Some(a),
        None => spec_parse_bracket(s),
    }
}

impl Atom {
    /// Construct an atom from a single SMILES atom token, if the token has
    /// either the bracket-free or the bracket shape.
    pub fn new(token: &str) -> (r: Option<Self>)
        ensures
            match r {
                Some(a) => spec_parse_atom(token@) == Some(a@),
                None => spec_parse_atom(token@) is None,
            },
    {
        let v = chars_of(token);
        Self::parse_chars(&v)
    }

    /// As `new`, over a character vector.
    pub fn parse_chars(v: &Vec<char>) -> (r: Option<Self>)
        ensures
            match r {
                Some(a) => spec_parse_atom(v@) == Some(a@),
                None => spec_parse_atom(v@) is None,
            },
    {
        match Self::parse_organic(v) {
            Some(a) => Some(a),
            None => Self::parse_bracket(v),
        }
    }

    fn parse_organic(v: &Vec<char>) -> (r: Option<Self>)
        ensures
            match r {
                Some(a) => spec_parse_organic(v@) == Some(a@),
                None => spec_parse_organic(v@) is None,
            },
    {
        let elem: (Element, bool, usize);
        if v.len() >= 2 {
            if let Some((e, a)) = organic_two(v[0], v[1]) {
                elem = (e, a, 2);
            } else if let Some((e, a)) = organic_one(v[0]) {
                elem = (e, a, 1);
            } else {
                return None;
            }
        } else if v.len() >= 1 {
            if let Some((e, a)) = organic_one(v[0]) {
                elem = (e, a, 1);
            } else {
                return None;
            }
        } else {
            return None;
        }
        let (e, arom, i) = elem;
        let n_at: usize = if i < v.len() && v[i] == '@' {
            if i + 1 < v.len() && v[i + 1] == '@' {
                2
            } else {
                1
            }
        } else {
            0
        };
        if i + n_at != v.len() {
            return None;
        }
        let chirality_type = if n_at == 1 {
            Some(ChiralityType::Counter)
        } else if n_at == 2 {
            Some(ChiralityType::Clockwise)
        } else {
            None
        };
        Some(
            Atom {
                element: e,
                isotope: None,
                charge: 0,
                chirality_type,
                explicit_hydrogen: 0,
                selector: None,
                aromatic: arom,
                react_id: None,
            },
        )
    }

    /// The isotope digits and the position after them.
    fn iso_at(v: &Vec<char>) -> (r: (Option<u16>, usize))
        requires
            v.len() >= 2,
        ensures
            spec_iso_step(v@) == (match r.0 {
                None => None,
                Some(x) => Some(x as nat),
            }, r.1 as int),
            1 <= r.1 <= v.len(),
    {
        if is_digit_char(v[1]) && v[1] != '0' {
            let dend = digit_run_end_at(v, 1);
            proof {
                crate::text::lemma_digit_run_end(v@, 1);
            }
            let isotope = match parse_dec(v, 1, dend) {
                Some(val) => if val <= u16::MAX as u64 {
                    Some(val as u16)
                } else {
                    None
                },
                None => None,
            };
            (isotope, dend)
        } else {
            (None, 1)
        }
    }

    /// The explicit-hydrogen count and the position after it.
    fn h_at(v: &Vec<char>, i: usize) -> (r: (usize, usize))
        requires
            i <= v.len(),
        ensures
            spec_h_step(v@, i as int) == (r.0 as nat, r.1 as int),
            i <= r.1 <= v.len(),
    {
        if i < v.len() && v[i] == 'H' {
            let dend = digit_run_end_at(v, i + 1);
            proof {
                crate::text::lemma_digit_run_end(v@, i + 1);
            }
            if dend > i + 1 && v[i + 1] != '0' {
                let expl = match parse_dec(v, i + 1, dend) {
                    Some(val) => if val <= usize::MAX as u64 {
                        val as usize
                    } else {
                        1
                    },
                    None => 1,
                };
                (expl, dend)
            } else {
                (1, i + 1)
            }
        } else {
            (0, i)
        }
    }

    /// The charge and the position after it, or `None` where it cannot be held.
    fn charge_at(v: &Vec<char>, i: usize) -> (r: Option<(isize, usize)>)
        requires
            i <= v.len(),
        ensures
            match r {
                Some((c, j)) => spec_charge_step(v@, i as int) == Some((c as int, j as int)) && i
                    <= j <= v.len(),
                None => spec_charge_step(v@, i as int) is None,
            },
    {
        if i < v.len() && (v[i] == '+' || v[i] == '-') {
            let neg = v[i] == '-';
            let dend = digit_run_end_at(v, i + 1);
            proof {
                crate::text::lemma_digit_run_end(v@, i + 1);
            }
            if dend > i + 1 && v[i + 1] != '0' {
                match parse_dec(v, i + 1, dend) {
                    Some(val) => {
                        if val <= isize::MAX as u64 {
                            let c = if neg {
                                -(val as isize)
                            } else {
                                val as isize
                            };
                            Some((c, dend))
                        } else {
                            None
                        }
                    },
                    None => None,
                }
            } else {
                let rend = char_run_end_at(v, i, v[i]);
                proof {
                    crate::text::lemma_char_run_end(v@, i as int, v@[i as int]);
                }
                let count = rend - i;
                if count <= isize::MAX as usize {
                    let c = if neg {
                        -(count as isize)
                    } else {
                        count as isize
                    };
                    Some((c, rend))
                } else {
                    None
                }
            }
        } else {
            Some((0, i))
        }
    }

    /// The reaction atom-map id and the position after it, or `None` where the
    /// shape or the range fails.
    fn react_at(v: &Vec<char>, i: usize) -> (r: Option<(Option<usize>, usize)>)
        requires
            i <= v.len(),
        ensures
            match r {
                Some((id, j)) => spec_react_step(v@, i as int) == Some(
                    (
                        match id {
                            None => None,
                            Some(x) => Some(x as nat),
                        },
                        j as int,
                    ),
                ) && i <= j <= v.len(),
                None => spec_react_step(v@, i as int) is None,
            },
    {
        if i < v.len() && v[i] == ':' {
            let dend = digit_run_end_at(v, i + 1);
            proof {
                crate::text::lemma_digit_run_end(v@, i + 1);
            }
            if dend > i + 1 {
                match parse_dec(v, i + 1, dend) {
                    Some(val) => {
                        if val <= usize::MAX as u64 {
                            Some((Some(val as usize), dend))
                        } else {
                            None
                        }
                    },
                    None => None,
                }
            } else {
                None
            }
        } else {
            Some((None, i))
        }
    }

    /// The fields before the selector, and the position after them.
    fn parse_bracket_prefix(v: &Vec<char>) -> (r: Option<(Self, usize)>)
        ensures
            match r {
                Some((a, i6)) => spec_bracket_prefix(v@) == Some((a@, i6 as int)) && 1 <= i6
                    <= v.len() && a.selector is None,
                None => spec_bracket_prefix(v@) is None,
            },
    {
        let n = v.len();
        if n < 2 || v[0] != '[' {
            return None;
        }
        let (isotope, i1) = Self::iso_at(v);
        let (element, aromatic, i2) = match bracket_elem(v, i1) {
            Some(t) => t,
            None => {
                return None;
            },
        };
        let n_at: usize = if i2 < n && v[i2] == '@' {
            if i2 + 1 < n && v[i2 + 1] == '@' {
                2
            } else {
                1
            }
        } else {
            0
        };
        let chirality_type = if n_at == 1 {
            Some(ChiralityType::Counter)
        } else if n_at == 2 {
            Some(ChiralityType::Clockwise)
        } else {
            None
        };
        proof {
            assert(spec_at_count(v@, i2 as int) == n_at as int);
            assert(spec_chirality_of(n_at as nat) == chirality_type);
        }
        let i3 = i2 + n_at;
        let (explicit_hydrogen, i4) = Self::h_at(v, i3);
        let (charge, i5) = match Self::charge_at(v, i4) {
            Some(t) => t,
            None => {
                return None;
            },
        };
        let (react_id, i6) = match Self::react_at(v, i5) {
            Some(t) => t,
            None => {
                return None;
            },
        };
        Some(
            (
                Atom {
                    element,
                    isotope,
                    charge,
                    chirality_type,
                    explicit_hydrogen,
                    selector: None,
                    aromatic,
                    react_id,
                },
                i6,
            ),
        )
    }

    #[verifier::rlimit(60)]
    #[verifier::loop_isolation(false)]
    fn parse_bracket(v: &Vec<char>) -> (r: Option<Self>)
        ensures
            match r {
                Some(a) => spec_parse_bracket(v@) == Some(a@),
                None => spec_parse_bracket(v@) is None,
            },
    {
        let (prefix, i6) = match Self::parse_bracket_prefix(v) {
            Some(t) => t,
            None => {
                return None;
            },
        };
        let n = v.len();
        if i6 < n && v[i6] == '{' {
            if n - i6 >= 4 && v[n - 1] == ']' && v[n - 2] == '}' {
                let mut content: Vec<char> = Vec::new();
                let mut k: usize = i6 + 1;
                while k < n - 2
                    invariant
                        i6 + 1 <= k <= n - 2,
                        n == v.len(),
                        n - i6 >= 4,
                        content@ == v@.subrange(i6 + 1, k as int),
                        forall|j: int| i6 + 1 <= j < k ==> v@[j] != '\n',
                    decreases n - 2 - k,
                {
                    if v[k] == '\n' {
                        proof {
                            assert(i6 + 1 <= k as int && (k as int) < v@.len() - 2 && v@[k as int] == '\n');
                            assert(!(forall|j: int|
                                i6 + 1 <= j < v@.len() - 2 ==> v@[j] != '\n'));
                            assert(spec_bracket_prefix(v@) == Some((prefix@, i6 as int)));
                            assert(spec_parse_bracket(v@) is None);
                        }
                        return None;
                    }
                    content.push(v[k]);
                    k = k + 1;
                    proof {
                        assert(content@ =~= v@.subrange(i6 + 1, k as int));
                    }
                }
                let selector = Some(string_of_chars(&content));
                let a = Atom { selector, ..prefix };
                proof {
                    assert(a@ == (AtomV { selector: Some(v@.subrange(i6 + 1, n - 2)), ..prefix@ }));
                }
                Some(a)
            } else {
                None
            }
        } else {
            if i6 == n - 1 && v[i6] == ']' {
                Some(prefix)
            } else {
                None
            }
        }
    }

    /// The token that writes this atom back out; the bracket-free short form is
    /// used exactly where no bracket-only field is present.
    fn push_core(&self, out: &mut Vec<char>)
        ensures
            final(out)@ == old(out)@ + self@.core_token(),
    {
        if self.aromatic && self.element.is_organic_subset() {
            out.push(self.element.lower_first_char());
        } else {
            out.push(self.element.symbol_chars().0);
        }
        if let Some(c2) = self.element.symbol_chars().1 {
            out.push(c2);
        }
        match self.chirality_type {
            None => {},
            Some(ChiralityType::Counter) => {
                out.push('@');
            },
            Some(ChiralityType::Clockwise) => {
                out.push('@');
                out.push('@');
            },
        }
        proof {
            assert(out@ =~= old(out)@ + self@.core_token());
        }
    }

    fn push_hydrogen(&self, out: &mut Vec<char>)
        ensures
            final(out)@ == old(out)@ + self@.hydrogen_part(),
    {
        if self.explicit_hydrogen > 0 {
            out.push('H');
            if self.explicit_hydrogen > 1 {
                push_dec(out, self.explicit_hydrogen as u64);
            }
        }
        proof {
            assert(out@ =~= old(out)@ + self@.hydrogen_part());
        }
    }

    fn push_charge(&self, out: &mut Vec<char>)
        ensures
            final(out)@ == old(out)@ + self@.charge_part(),
    {
        if self.charge > 0 {
            out.push('+');
            if self.charge > 1 {
                push_dec(out, self.charge as u64);
            }
        } else if self.charge < 0 {
            out.push('-');
            if self.charge < -1 {
                let mag = (-(self.charge as i128)) as u64;
                push_dec(out, mag);
            }
        }
        proof {
            assert(out@ =~= old(out)@ + self@.charge_part());
        }
    }

    fn push_react(&self, out: &mut Vec<char>)
        ensures
            final(out)@ == old(out)@ + self@.react_part(),
    {
        if let Some(id) = self.react_id {
            out.push(':');
            push_dec(out, id as u64);
        }
        proof {
            assert(out@ =~= old(out)@ + self@.react_part());
        }
    }

    #[verifier::loop_isolation(false)]
    fn push_selector(&self, out: &mut Vec<char>)
        ensures
            final(out)@ == old(out)@ + self@.selector_part(),
    {
        if let Some(sel) = &self.selector {
            out.push('{');
            let sel_chars = chars_of(sel.as_str());
            let mut k: usize = 0;
            let ghost mid = out@;
            while k < sel_chars.len()
                invariant
                    k <= sel_chars.len(),
                    out@ == mid + sel_chars@.subrange(0, k as int),
                decreases sel_chars.len() - k,
            {
                out.push(sel_chars[k]);
                k = k + 1;
                proof {
                    assert(out@ =~= mid + sel_chars@.subrange(0, k as int));
                }
            }
            proof {
                assert(sel_chars@.subrange(0, sel_chars@.len() as int) =~= sel_chars@);
            }
            out.push('}');
        }
        proof {
            assert(out@ =~= old(out)@ + self@.selector_part());
        }
    }

    /// The token that writes this atom back out; the bracket-free short form is
    /// used exactly where no bracket-only field is present.
    #[verifier::rlimit(60)]
    pub fn to_token(&self) -> (r: String)
        ensures
            r@ == self@.spec_token(),
    {
        let mut out: Vec<char> = Vec::new();
        let short = self.element.is_organic_subset() && self.isotope.is_none() && self.charge == 0
            && self.explicit_hydrogen == 0 && self.selector.is_none() && self.react_id.is_none();
        if short {
            self.push_core(&mut out);
            proof {
                assert(out@ =~= self@.spec_token());
            }
        } else {
            out.push('[');
            if let Some(iso) = self.isotope {
                push_dec(&mut out, iso as u64);
            }
            proof {
                assert(out@ =~= seq!['['] + self@.isotope_part());
            }
            self.push_core(&mut out);
            self.push_hydrogen(&mut out);
            self.push_charge(&mut out);
            self.push_react(&mut out);
            self.push_selector(&mut out);
            out.push(']');
            proof {
                assert(out@ =~= self@.spec_token());
            }
        }
        string_of_chars(&out)
    }
}

// ---------------------------------------------------------------------------
// The atom round trip: parsing an atom's own token yields the atom back
// ---------------------------------------------------------------------------
/// Every element symbol starts with a capital letter, and a second letter is small.
pub proof fn lemma_symbol_char_classes(e: Element)
    ensures
        is_upper_alpha(e.symbol_first()),
        e.symbol_second() matches Some(c) ==> is_lower_alpha(c),
        e.spec_is_organic_subset() ==> is_lower_alpha(e.lower_first()),
{
}

/// The atoms whose token reads back: aromatic spelling needs an organic-subset
/// element, a written isotope is positive, the numbers fit their fields, and a
/// selector payload is a non-empty run without a line break.
pub open spec fn round_trippable(a: AtomV) -> bool {
    &&& a.aromatic ==> a.element.spec_is_organic_subset()
    &&& match a.isotope {
        Some(n) => 1 <= n <= u16::MAX,
        None => true,
    }
    &&& a.explicit_hydrogen <= usize::MAX
    &&& (isize::MIN as int) < a.charge <= (isize::MAX as int)
    &&& match a.react_id {
        Some(n) => n <= usize::MAX,
        None => true,
    }
    &&& match a.selector {
        Some(s) => s.len() >= 1 && (forall|k: int| 0 <= k < s.len() ==> s[k] != '\n'),
        None => true,
    }
}

/// Reading the short, bracket-free token of a plain organic-subset atom back.
#[verifier::rlimit(100)]
#[verifier::spinoff_prover]
proof fn lemma_round_trip_organic(a: AtomV)
    requires
        round_trippable(a),
        a.short_form(),
    ensures
        spec_parse_atom(a.spec_token()) == Some(a),
{
    let t = a.spec_token();
    let sym = a.element.written_symbol(a.aromatic);
    let chir: Seq<char> = match a.chirality_type {
        None => Seq::<char>::empty(),
        Some(c) => c.spec_token(),
    };
    assert(t =~= sym + chir);
    lemma_symbol_char_classes(a.element);
    crate::definitions::element::lemma_element_symbol_inverse(a.element);
    if sym.len() == 2 {
        assert(spec_organic_elem(t) == Some((a.element, a.aromatic, 2int)));
    } else {
        if t.len() >= 2 {
            assert(t[1] == '@');
            assert(spec_organic_two(t[0], t[1]) is None);
        }
        assert(spec_organic_elem(t) == Some((a.element, a.aromatic, 1int)));
    }
    let i = sym.len() as int;
    match a.chirality_type {
        None => {
            assert(spec_at_count(t, i) == 0);
        },
        Some(ChiralityType::Counter) => {
            assert(t[i] == '@');
            assert(spec_at_count(t, i) == 1);
        },
        Some(ChiralityType::Clockwise) => {
            assert(t[i] == '@' && t[i + 1] == '@');
            assert(spec_at_count(t, i) == 2);
        },
    }
    assert(spec_parse_organic(t) == Some(a));
}

/// A digit-run field of the token reads back as its value.
proof fn lemma_field_digits(s: Seq<char>, i: int, n: nat)
    requires
        0 <= i,
        i + dec_digits(n).len() <= s.len(),
        s.subrange(i, i + dec_digits(n).len() as int) == dec_digits(n),
        i + dec_digits(n).len() < s.len() ==> !is_digit(s[i + dec_digits(n).len()]),
    ensures
        digit_run_end(s, i) == i + dec_digits(n).len(),
        dec_value(s.subrange(i, digit_run_end(s, i))) == n,
        n > 0 ==> s[i] != '0',
        is_digit(s[i]),
        digit_run_end(s, i) > i,
    decreases n,
{
    crate::text::lemma_dec_digits_shape(n);
    crate::text::lemma_digit_run_end_concat(s, i, dec_digits(n));
    crate::text::lemma_dec_value_of_digits(n);
    assert(s[i] == dec_digits(n)[0]);
}

/// Reading isotope, element and chirality back from a bracket token.
#[verifier::rlimit(100)]
#[verifier::spinoff_prover]
proof fn lemma_bracket_head_round_trip(a: AtomV)
    requires
        round_trippable(a),
        !a.short_form(),
    ensures
        ({
            let t = a.spec_token();
            let p1 = 1 + a.isotope_part().len() as int;
            let p2 = p1 + a.element.written_symbol(a.aromatic).len();
            &&& spec_iso_step(t) == (a.isotope, p1)
            &&& spec_bracket_elem(t, p1) == Some((a.element, a.aromatic, p2))
            &&& spec_at_count(t, p2) == (match a.chirality_type {
                None => 0int,
                Some(c) => c.at_count() as int,
            })
        }),
{
    let t = a.spec_token();
    let iso = a.isotope_part();
    let sym = a.element.written_symbol(a.aromatic);
    let chir: Seq<char> = match a.chirality_type {
        None => Seq::<char>::empty(),
        Some(c) => c.spec_token(),
    };
    let h = a.hydrogen_part();
    let charge = a.charge_part();
    let react = a.react_part();
    let sel = a.selector_part();
    assert(t =~= seq!['['] + iso + sym + chir + h + charge + react + sel + seq![']']);
    lemma_symbol_char_classes(a.element);
    crate::definitions::element::lemma_element_symbol_inverse(a.element);
    if a.aromatic {
        crate::definitions::element::lemma_element_lower_inverse(a.element);
    }
    let p1 = 1 + iso.len() as int;
    let p2 = p1 + sym.len();
    let p3 = p2 + chir.len();
    let c3 = t[p3];
    assert(c3 == (if a.explicit_hydrogen > 0 {
        'H'
    } else if a.charge > 0 {
        '+'
    } else if a.charge < 0 {
        '-'
    } else if a.react_id is Some {
        ':'
    } else if a.selector is Some {
        '{'
    } else {
        ']'
    }));
    assert(!is_digit(c3) && !is_lower_alpha(c3) && c3 != '@' && c3 != 'r' && c3 != 'l');

    // isotope
    match a.isotope {
        None => {
            assert(t[1] == sym[0]);
            assert(is_upper_alpha(sym[0]) || is_lower_alpha(sym[0]));
            assert(!is_digit(t[1]));
            assert(spec_iso_step(t) == (Option::<nat>::None, 1int));
        },
        Some(n) => {
            assert(t.subrange(1, p1) =~= dec_digits(n));
            assert(t[p1] == sym[0]);
            assert(is_upper_alpha(sym[0]) || is_lower_alpha(sym[0]));
            lemma_field_digits(t, 1, n);
            assert(spec_iso_step(t) == (Option::<nat>::Some(n), p1));
        },
    }

    // element
    let after_sym = if chir.len() > 0 {
        '@'
    } else {
        c3
    };
    assert(t[p2] == after_sym);
    assert(!is_lower_alpha(after_sym) && after_sym != 'r' && after_sym != 'l');
    if a.aromatic && a.element.spec_is_organic_subset() {
        assert(sym[0] == a.element.lower_first());
        assert(is_lower_alpha(t[p1]));
        if sym.len() == 2 {
            assert(t[p1 + 1] == sym[1]);
            assert(spec_organic_two(t[p1], t[p1 + 1]) == Some((a.element, true)));
            assert(spec_bracket_elem(t, p1) == Some((a.element, true, p2)));
        } else {
            if p1 + 1 < t.len() {
                assert(t[p1 + 1] == after_sym);
                assert(spec_organic_two(t[p1], t[p1 + 1]) is None);
            }
            assert(spec_bracket_elem(t, p1) == Some((a.element, true, p2)));
        }
    } else {
        assert(sym == a.element.symbol());
        assert(is_upper_alpha(t[p1]));
        match a.element.symbol_second() {
            Some(c2) => {
                assert(t[p1 + 1] == c2 && is_lower_alpha(c2));
                assert(spec_bracket_elem(t, p1) == Some((a.element, false, p2)));
            },
            None => {
                if p1 + 1 < t.len() {
                    assert(t[p1 + 1] == after_sym);
                    assert(!is_lower_alpha(t[p1 + 1]));
                }
                assert(spec_bracket_elem(t, p1) == Some((a.element, false, p2)));
            },
        }
    }

    // chirality
    match a.chirality_type {
        None => {
            assert(spec_at_count(t, p2) == 0);
        },
        Some(ChiralityType::Counter) => {
            assert(t[p2] == '@' && t[p2 + 1] == c3 && c3 != '@');
            assert(spec_at_count(t, p2) == 1);
        },
        Some(ChiralityType::Clockwise) => {
            assert(t[p2] == '@' && t[p2 + 1] == '@' && t[p3] == c3 && c3 != '@');
            assert(spec_at_count(t, p2) == 2);
        },
    }
}

/// Reading hydrogen count, charge and reaction id back from a bracket token.
#[verifier::rlimit(100)]
#[verifier::spinoff_prover]
proof fn lemma_bracket_fields_round_trip(a: AtomV)
    requires
        round_trippable(a),
        !a.short_form(),
    ensures
        ({
            let t = a.spec_token();
            let p3 = 1 + a.isotope_part().len() + a.core_token().len() as int;
            let p4 = p3 + a.hydrogen_part().len() as int;
            let p5 = p4 + a.charge_part().len() as int;
            let p6 = p5 + a.react_part().len() as int;
            &&& spec_h_step(t, p3) == (a.explicit_hydrogen, p4)
            &&& spec_charge_step(t, p4) == Some((a.charge, p5))
            &&& spec_react_step(t, p5) == Some((a.react_id, p6))
        }),
{
    let t = a.spec_token();
    let iso = a.isotope_part();
    let core = a.core_token();
    let h = a.hydrogen_part();
    let charge = a.charge_part();
    let react = a.react_part();
    let sel = a.selector_part();
    assert(t =~= seq!['['] + iso + core + h + charge + react + sel + seq![']']);
    let p3 = 1 + iso.len() + core.len() as int;
    let p4 = p3 + h.len();
    let p5 = p4 + charge.len();
    let p6 = p5 + react.len();
    let c4 = t[p4];
    let c5 = t[p5];
    let c6 = t[p6];
    assert(c6 == (match a.selector {
        None => ']',
        Some(_) => '{',
    }));
    assert(c5 == (match a.react_id {
        None => c6,
        Some(_) => ':',
    }));
    assert(c4 == (if a.charge > 0 {
        '+'
    } else if a.charge < 0 {
        '-'
    } else {
        c5
    }));
    assert(c6 == ']' || c6 == '{');
    assert(c5 == ':' || c5 == ']' || c5 == '{');
    assert(c4 == '+' || c4 == '-' || c4 == ':' || c4 == ']' || c4 == '{');
    assert(!is_digit(c4) && !is_digit(c5) && !is_digit(c6));

    // explicit hydrogen
    if a.explicit_hydrogen == 0 {
        assert(t[p3] != 'H');
        assert(spec_h_step(t, p3) == (0nat, p3));
    } else if a.explicit_hydrogen == 1 {
        assert(t[p3] == 'H' && t[p3 + 1] == c4 && !is_digit(c4));
        assert(digit_run_end(t, p3 + 1) == p3 + 1);
        assert(spec_h_step(t, p3) == (1nat, p3 + 1));
    } else {
        assert(t[p3] == 'H');
        assert(t.subrange(p3 + 1, p4) =~= dec_digits(a.explicit_hydrogen));
        lemma_field_digits(t, p3 + 1, a.explicit_hydrogen);
        assert(spec_h_step(t, p3) == (a.explicit_hydrogen, p4));
    }

    // charge
    if a.charge == 0 {
        assert(t[p4] != '+' && t[p4] != '-');
        assert(spec_charge_step(t, p4) == Some((0int, p4)));
    } else if a.charge == 1 {
        assert(t[p4] == '+' && t[p4 + 1] == c5 && !is_digit(c5) && c5 != '+');
        assert(digit_run_end(t, p4 + 1) == p4 + 1);
        assert(char_run_end(t, p4 + 1, '+') == p4 + 1);
        assert(char_run_end(t, p4, '+') == p4 + 1);
        assert(spec_charge_step(t, p4) == Some((1int, p4 + 1)));
    } else if a.charge == -1 {
        assert(t[p4] == '-' && t[p4 + 1] == c5 && !is_digit(c5) && c5 != '-');
        assert(digit_run_end(t, p4 + 1) == p4 + 1);
        assert(char_run_end(t, p4 + 1, '-') == p4 + 1);
        assert(char_run_end(t, p4, '-') == p4 + 1);
        assert(spec_charge_step(t, p4) == Some((-1int, p4 + 1)));
    } else if a.charge > 1 {
        assert(t[p4] == '+');
        assert(t.subrange(p4 + 1, p5) =~= dec_digits(a.charge as nat));
        lemma_field_digits(t, p4 + 1, a.charge as nat);
        assert(spec_charge_step(t, p4) == Some((a.charge, p5)));
    } else {
        assert(t[p4] == '-');
        assert(t.subrange(p4 + 1, p5) =~= dec_digits((-a.charge) as nat));
        lemma_field_digits(t, p4 + 1, (-a.charge) as nat);
        assert(spec_charge_step(t, p4) == Some((a.charge, p5)));
    }

    // react id
    match a.react_id {
        None => {
            assert(t[p5] != ':');
            assert(spec_react_step(t, p5) == Some((Option::<nat>::None, p5)));
        },
        Some(n) => {
            assert(t[p5] == ':');
            assert(t.subrange(p5 + 1, p6) =~= dec_digits(n));
            lemma_field_digits(t, p5 + 1, n);
            assert(spec_react_step(t, p5) == Some((Option::<nat>::Some(n), p6)));
        },
    }
}

/// Reading the fields before the selector back from a bracket token.
#[verifier::rlimit(100)]
#[verifier::spinoff_prover]
proof fn lemma_bracket_prefix_round_trip(a: AtomV)
    requires
        round_trippable(a),
        !a.short_form(),
    ensures
        spec_bracket_prefix(a.spec_token()) == Some(
            (
                AtomV { selector: None, ..a },
                a.spec_token().len() - a.selector_part().len() - 1,
            ),
        ),
{
    let t = a.spec_token();
    let iso = a.isotope_part();
    let core = a.core_token();
    let sym = a.element.written_symbol(a.aromatic);
    let chir: Seq<char> = match a.chirality_type {
        None => Seq::<char>::empty(),
        Some(c) => c.spec_token(),
    };
    let h = a.hydrogen_part();
    let charge = a.charge_part();
    let react = a.react_part();
    let sel = a.selector_part();
    assert(core =~= sym + chir);
    assert(t =~= seq!['['] + iso + core + h + charge + react + sel + seq![']']);
    assert(t[0] == '[');
    lemma_bracket_head_round_trip(a);
    lemma_bracket_fields_round_trip(a);
    let p1 = 1 + iso.len() as int;
    let p2 = p1 + sym.len();
    let p3 = p2 + chir.len();
    let p6 = p3 + h.len() + charge.len() + react.len();
    assert(spec_chirality_of(spec_at_count(t, p2) as nat) == a.chirality_type);
    assert(t.len() == p6 + sel.len() + 1);
    assert(spec_bracket_prefix(t) == Some((AtomV { selector: None, ..a }, p6)));
}

/// Reading the bracket token of an atom back.
#[verifier::rlimit(100)]
#[verifier::spinoff_prover]
proof fn lemma_round_trip_bracket(a: AtomV)
    requires
        round_trippable(a),
        !a.short_form(),
    ensures
        spec_parse_atom(a.spec_token()) == Some(a),
{
    let t = a.spec_token();
    let iso = a.isotope_part();
    let core = a.core_token();
    let h = a.hydrogen_part();
    let charge = a.charge_part();
    let react = a.react_part();
    let sel = a.selector_part();
    assert(t =~= seq!['['] + iso + core + h + charge + react + sel + seq![']']);

    // the token is no bracket-free atom
    assert(t[0] == '[');
    assert(spec_organic_elem(t) is None);
    assert(spec_parse_organic(t) is None);

    lemma_bracket_prefix_round_trip(a);
    let p6 = t.len() - sel.len() - 1;

    // selector and the closing bracket
    match a.selector {
        None => {
            assert(t[p6] == ']' && p6 + 1 == t.len());
            assert(spec_parse_bracket(t) == Some(a));
        },
        Some(sl) => {
            assert(t[p6] == '{');
            assert(t.len() == p6 + sl.len() + 3);
            assert(t[t.len() - 1] == ']' && t[t.len() - 2] == '}');
            assert(t.len() >= p6 + 4);
            assert(forall|k: int| p6 + 1 <= k < t.len() - 2 ==> t[k] == sl[k - p6 - 1]);
            assert(forall|k: int| p6 + 1 <= k < t.len() - 2 ==> t[k] != '\n');
            assert(t.subrange(p6 + 1, t.len() - 2) =~= sl);
            assert(spec_parse_bracket(t) == Some(a));
        },
    }
}

/// Writing an atom as a token and parsing the token back yields the same atom
/// on every semantic field.
pub proof fn lemma_atom_round_trip(a: AtomV)
    requires
        round_trippable(a),
    ensures
        spec_parse_atom(a.spec_token()) == Some(a),
{
    if a.short_form() {
        lemma_round_trip_organic(a);
    } else {
        lemma_round_trip_bracket(a);
    }
}


} // verus!
