use vstd::prelude::*;

verus! {

/// The closed set of chemical element symbols an atom may carry.
#[derive(Debug, PartialEq, Eq, Structural, Clone, Copy)]
pub enum Element {
    H,
    He,
    Li,
    Be,
    B,
    C,
    N,
    O,
    F,
    Ne,
    Na,
    Mg,
    Al,
    Si,
    P,
    S,
    Cl,
    Ar,
    K,
    Ca,
    Sc,
    Ti,
    V,
    Cr,
    Mn,
    Fe,
    Co,
    Ni,
    Cu,
    Zn,
    Ga,
    Ge,
    As,
    Se,
    Br,
    Kr,
    Rb,
    Sr,
    Y,
    Zr,
    Nb,
    Mo,
    Tc,
    Ru,
    Rh,
    Rd,
    Ag,
    Cd,
    In,
    Sn,
    Sb,
    Te,
    I,
    Xe,
    Cs,
    Ba,
    La,
    Ce,
    Pr,
    Nd,
    Pm,
    Sm,
    Eu,
    Gd,
    Tb,
    Dy,
    Ho,
    Er,
    Tm,
    Yb,
    Lu,
    Hf,
    Ta,
    W,
    Re,
    Os,
    Ir,
    Pt,
    Au,
    Hg,
    Tl,
    Pb,
    Bi,
    Po,
    At,
    Rn,
}

impl Element {
    /// First letter of the element symbol.
    pub open spec fn symbol_first(self) -> char {
        match self {
            Element::H => 'H',
            Element::He => 'H',
            Element::Li => 'L',
            Element::Be => 'B',
            Element::B => 'B',
            Element::C => 'C',
            Element::N => 'N',
            Element::O => 'O',
            Element::F => 'F',
            Element::Ne => 'N',
            Element::Na => 'N',
            Element::Mg => 'M',
            Element::Al => 'A',
            Element::Si => 'S',
            Element::P => 'P',
            Element::S => 'S',
            Element::Cl => 'C',
            Element::Ar => 'A',
            Element::K => 'K',
            Element::Ca => 'C',
            Element::Sc => 'S',
            Element::Ti => 'T',
            Element::V => 'V',
            Element::Cr => 'C',
            Element::Mn => 'M',
            Element::Fe => 'F',
            Element::Co => 'C',
            Element::Ni => 'N',
            Element::Cu => 'C',
            Element::Zn => 'Z',
            Element::Ga => 'G',
            Element::Ge => 'G',
            Element::As => 'A',
            Element::Se => 'S',
            Element::Br => 'B',
            Element::Kr => 'K',
            Element::Rb => 'R',
            Element::Sr => 'S',
            Element::Y => 'Y',
            Element::Zr => 'Z',
            Element::Nb => 'N',
            Element::Mo => 'M',
            Element::Tc => 'T',
            Element::Ru => 'R',
            Element::Rh => 'R',
            Element::Rd => 'R',
            Element::Ag => 'A',
            Element::Cd => 'C',
            Element::In => 'I',
            Element::Sn => 'S',
            Element::Sb => 'S',
            Element::Te => 'T',
            Element::I => 'I',
            Element::Xe => 'X',
            Element::Cs => 'C',
            Element::Ba => 'B',
            Element::La => 'L',
            Element::Ce => 'C',
            Element::Pr => 'P',
            Element::Nd => 'N',
            Element::Pm => 'P',
            Element::Sm => 'S',
            Element::Eu => 'E',
            Element::Gd => 'G',
            Element::Tb => 'T',
            Element::Dy => 'D',
            Element::Ho => 'H',
            Element::Er => 'E',
            Element::Tm => 'T',
            Element::Yb => 'Y',
            Element::Lu => 'L',
            Element::Hf => 'H',
            Element::Ta => 'T',
            Element::W => 'W',
            Element::Re => 'R',
            Element::Os => 'O',
            Element::Ir => 'I',
            Element::Pt => 'P',
            Element::Au => 'A',
            Element::Hg => 'H',
            Element::Tl => 'T',
            Element::Pb => 'P',
            Element::Bi => 'B',
            Element::Po => 'P',
            Element::At => 'A',
            Element::Rn => 'R',
        }
    }

    /// Second letter of the element symbol, for two-letter symbols.
    pub open spec fn symbol_second(self) -> Option<char> {
        match self {
            Element::H | Element::B | Element::C | Element::N | Element::O | Element::F | Element::P | Element::S | Element::K | Element::V | Element::Y | Element::I | Element::W => None,
            Element::He => Some('e'),
            Element::Li => Some('i'),
            Element::Be => Some('e'),
            Element::Ne => Some('e'),
            Element::Na => Some('a'),
            Element::Mg => Some('g'),
            Element::Al => Some('l'),
            Element::Si => Some('i'),
            Element::Cl => Some('l'),
            Element::Ar => Some('r'),
            Element::Ca => Some('a'),
            Element::Sc => Some('c'),
            Element::Ti => Some('i'),
            Element::Cr => Some('r'),
            Element::Mn => Some('n'),
            Element::Fe => Some('e'),
            Element::Co => Some('o'),
            Element::Ni => Some('i'),
            Element::Cu => Some('u'),
            Element::Zn => Some('n'),
            Element::Ga => Some('a'),
            Element::Ge => Some('e'),
            Element::As => Some('s'),
            Element::Se => Some('e'),
            Element::Br => Some('r'),
            Element::Kr => Some('r'),
            Element::Rb => Some('b'),
            Element::Sr => Some('r'),
            Element::Zr => Some('r'),
            Element::Nb => Some('b'),
            Element::Mo => Some('o'),
            Element::Tc => Some('c'),
            Element::Ru => Some('u'),
            Element::Rh => Some('h'),
            Element::Rd => Some('d'),
            Element::Ag => Some('g'),
            Element::Cd => Some('d'),
            Element::In => Some('n'),
            Element::Sn => Some('n'),
            Element::Sb => Some('b'),
            Element::Te => Some('e'),
            Element::Xe => Some('e'),
            Element::Cs => Some('s'),
            Element::Ba => Some('a'),
            Element::La => Some('a'),
            Element::Ce => Some('e'),
            Element::Pr => Some('r'),
            Element::Nd => Some('d'),
            Element::Pm => Some('m'),
            Element::Sm => Some('m'),
            Element::Eu => Some('u'),
            Element::Gd => Some('d'),
            Element::Tb => Some('b'),
            Element::Dy => Some('y'),
            Element::Ho => Some('o'),
            Element::Er => Some('r'),
            Element::Tm => Some('m'),
            Element::Yb => Some('b'),
            Element::Lu => Some('u'),
            Element::Hf => Some('f'),
            Element::Ta => Some('a'),
            Element::Re => Some('e'),
            Element::Os => Some('s'),
            Element::Ir => Some('r'),
            Element::Pt => Some('t'),
            Element::Au => Some('u'),
            Element::Hg => Some('g'),
            Element::Tl => Some('l'),
            Element::Pb => Some('b'),
            Element::Bi => Some('i'),
            Element::Po => Some('o'),
            Element::At => Some('t'),
            Element::Rn => Some('n'),
        }
    }

    /// The element symbol as written in a SMILES token.
    pub open spec fn symbol(self) -> Seq<char> {
        match self.symbol_second() {
            None => seq![self.symbol_first()],
            Some(c) => seq![self.symbol_first(), c],
        }
    }

    /// The symbol letters, first and optional second.
    pub fn symbol_chars(&self) -> (r: (char, Option<char>))
        ensures
            r.0 == self.symbol_first(),
            r.1 == self.symbol_second(),
    {
        match self {
            Element::H => ('H', None),
            Element::He => ('H', Some('e')),
            Element::Li => ('L', Some('i')),
            Element::Be => ('B', Some('e')),
            Element::B => ('B', None),
            Element::C => ('C', None),
            Element::N => ('N', None),
            Element::O => ('O', None),
            Element::F => ('F', None),
            Element::Ne => ('N', Some('e')),
            Element::Na => ('N', Some('a')),
            Element::Mg => ('M', Some('g')),
            Element::Al => ('A', Some('l')),
            Element::Si => ('S', Some('i')),
            Element::P => ('P', None),
            Element::S => ('S', None),
            Element::Cl => ('C', Some('l')),
            Element::Ar => ('A', Some('r')),
            Element::K => ('K', None),
            Element::Ca => ('C', Some('a')),
            Element::Sc => ('S', Some('c')),
            Element::Ti => ('T', Some('i')),
            Element::V => ('V', None),
            Element::Cr => ('C', Some('r')),
            Element::Mn => ('M', Some('n')),
            Element::Fe => ('F', Some('e')),
            Element::Co => ('C', Some('o')),
            Element::Ni => ('N', Some('i')),
            Element::Cu => ('C', Some('u')),
            Element::Zn => ('Z', Some('n')),
            Element::Ga => ('G', Some('a')),
            Element::Ge => ('G', Some('e')),
            Element::As => ('A', Some('s')),
            Element::Se => ('S', Some('e')),
            Element::Br => ('B', Some('r')),
            Element::Kr => ('K', Some('r')),
            Element::Rb => ('R', Some('b')),
            Element::Sr => ('S', Some('r')),
            Element::Y => ('Y', None),
            Element::Zr => ('Z', Some('r')),
            Element::Nb => ('N', Some('b')),
            Element::Mo => ('M', Some('o')),
            Element::Tc => ('T', Some('c')),
            Element::Ru => ('R', Some('u')),
            Element::Rh => ('R', Some('h')),
            Element::Rd => ('R', Some('d')),
            Element::Ag => ('A', Some('g')),
            Element::Cd => ('C', Some('d')),
            Element::In => ('I', Some('n')),
            Element::Sn => ('S', Some('n')),
            Element::Sb => ('S', Some('b')),
            Element::Te => ('T', Some('e')),
            Element::I => ('I', None),
            Element::Xe => ('X', Some('e')),
            Element::Cs => ('C', Some('s')),
            Element::Ba => ('B', Some('a')),
            Element::La => ('L', Some('a')),
            Element::Ce => ('C', Some('e')),
            Element::Pr => ('P', Some('r')),
            Element::Nd => ('N', Some('d')),
            Element::Pm => ('P', Some('m')),
            Element::Sm => ('S', Some('m')),
            Element::Eu => ('E', Some('u')),
            Element::Gd => ('G', Some('d')),
            Element::Tb => ('T', Some('b')),
            Element::Dy => ('D', Some('y')),
            Element::Ho => ('H', Some('o')),
            Element::Er => ('E', Some('r')),
            Element::Tm => ('T', Some('m')),
            Element::Yb => ('Y', Some('b')),
            Element::Lu => ('L', Some('u')),
            Element::Hf => ('H', Some('f')),
            Element::Ta => ('T', Some('a')),
            Element::W => ('W', None),
            Element::Re => ('R', Some('e')),
            Element::Os => ('O', Some('s')),
            Element::Ir => ('I', Some('r')),
            Element::Pt => ('P', Some('t')),
            Element::Au => ('A', Some('u')),
            Element::Hg => ('H', Some('g')),
            Element::Tl => ('T', Some('l')),
            Element::Pb => ('P', Some('b')),
            Element::Bi => ('B', Some('i')),
            Element::Po => ('P', Some('o')),
            Element::At => ('A', Some('t')),
            Element::Rn => ('R', Some('n')),
        }
    }

    /// Hydrogen count the element carries by default when none is written.
    pub open spec fn spec_default_hydrogen(self) -> nat {
        match self {
            Element::F | Element::Cl | Element::Br | Element::I => 1,
            Element::O | Element::S => 2,
            Element::B | Element::N | Element::P => 3,
            Element::C | Element::Si => 4,
            _ => 0,
        }
    }

    pub fn default_hydrogen(&self) -> (r: usize)
        ensures
            r as nat == self.spec_default_hydrogen(),
            r <= 4,
    {
        match self {
            Element::F | Element::Cl | Element::Br | Element::I => 1,
            Element::O | Element::S => 2,
            Element::B | Element::N | Element::P => 3,
            Element::C | Element::Si => 4,
            _ => 0,
        }
    }

    /// Elements that may be written without brackets.
    pub open spec fn spec_is_organic_subset(self) -> bool {
        match self {
            Element::B | Element::C | Element::N | Element::O | Element::F | Element::P | Element::S | Element::Cl | Element::Br | Element::I => true,
            _ => false,
        }
    }

    pub fn is_organic_subset(&self) -> (r: bool)
        ensures
            r == self.spec_is_organic_subset(),
    {
        match self {
            Element::B | Element::C | Element::N | Element::O | Element::F | Element::P | Element::S | Element::Cl | Element::Br | Element::I => true,
            _ => false,
        }
    }

    /// Lower-case first letter used when an organic-subset element is written aromatic.
    pub open spec fn lower_first(self) -> char {
        match self {
            Element::B => 'b',
            Element::C => 'c',
            Element::N => 'n',
            Element::O => 'o',
            Element::F => 'f',
            Element::P => 'p',
            Element::S => 's',
            Element::Cl => 'c',
            Element::Br => 'b',
            Element::I => 'i',
            _ => self.symbol_first(),
        }
    }

    pub fn lower_first_char(&self) -> (r: char)
        ensures
            r == self.lower_first(),
    {
        match self {
            Element::B => 'b',
            Element::C => 'c',
            Element::N => 'n',
            Element::O => 'o',
            Element::F => 'f',
            Element::P => 'p',
            Element::S => 's',
            Element::Cl => 'c',
            Element::Br => 'b',
            Element::I => 'i',
            _ => self.symbol_chars().0,
        }
    }

    /// The symbol as written for this atom: lower case iff aromatic and organic-subset.
    pub open spec fn written_symbol(self, aromatic: bool) -> Seq<char> {
        if aromatic && self.spec_is_organic_subset() {
            match self.symbol_second() {
                None => seq![self.lower_first()],
                Some(c) => seq![self.lower_first(), c],
            }
        } else {
            self.symbol()
        }
    }
}

/// The element written with a given capitalized symbol, if any.
pub open spec fn spec_element_of(c1: char, c2: Option<char>) -> Option<Element> {
    match (c1, c2) {
        ('H', None) => Some(Element::H),
        ('H', Some('e')) => Some(Element::He),
        ('L', Some('i')) => Some(Element::Li),
        ('B', Some('e')) => Some(Element::Be),
        ('B', None) => Some(Element::B),
        ('C', None) => Some(Element::C),
        ('N', None) => Some(Element::N),
        ('O', None) => Some(Element::O),
        ('F', None) => Some(Element::F),
        ('N', Some('e')) => Some(Element::Ne),
        ('N', Some('a')) => Some(Element::Na),
        ('M', Some('g')) => Some(Element::Mg),
        ('A', Some('l')) => Some(Element::Al),
        ('S', Some('i')) => Some(Element::Si),
        ('P', None) => Some(Element::P),
        ('S', None) => Some(Element::S),
        ('C', Some('l')) => Some(Element::Cl),
        ('A', Some('r')) => Some(Element::Ar),
        ('K', None) => Some(Element::K),
        ('C', Some('a')) => Some(Element::Ca),
        ('S', Some('c')) => Some(Element::Sc),
        ('T', Some('i')) => Some(Element::Ti),
        ('V', None) => Some(Element::V),
        ('C', Some('r')) => Some(Element::Cr),
        ('M', Some('n')) => Some(Element::Mn),
        ('F', Some('e')) => Some(Element::Fe),
        ('C', Some('o')) => Some(Element::Co),
        ('N', Some('i')) => Some(Element::Ni),
        ('C', Some('u')) => Some(Element::Cu),
        ('Z', Some('n')) => Some(Element::Zn),
        ('G', Some('a')) => Some(Element::Ga),
        ('G', Some('e')) => Some(Element::Ge),
        ('A', Some('s')) => Some(Element::As),
        ('S', Some('e')) => Some(Element::Se),
        ('B', Some('r')) => Some(Element::Br),
        ('K', Some('r')) => Some(Element::Kr),
        ('R', Some('b')) => Some(Element::Rb),
        ('S', Some('r')) => Some(Element::Sr),
        ('Y', None) => Some(Element::Y),
        ('Z', Some('r')) => Some(Element::Zr),
        ('N', Some('b')) => Some(Element::Nb),
        ('M', Some('o')) => Some(Element::Mo),
        ('T', Some('c')) => Some(Element::Tc),
        ('R', Some('u')) => Some(Element::Ru),
        ('R', Some('h')) => Some(Element::Rh),
        ('R', Some('d')) => Some(Element::Rd),
        ('A', Some('g')) => Some(Element::Ag),
        ('C', Some('d')) => Some(Element::Cd),
        ('I', Some('n')) => Some(Element::In),
        ('S', Some('n')) => Some(Element::Sn),
        ('S', Some('b')) => Some(Element::Sb),
        ('T', Some('e')) => Some(Element::Te),
        ('I', None) => Some(Element::I),
        ('X', Some('e')) => Some(Element::Xe),
        ('C', Some('s')) => Some(Element::Cs),
        ('B', Some('a')) => Some(Element::Ba),
        ('L', Some('a')) => Some(Element::La),
        ('C', Some('e')) => Some(Element::Ce),
        ('P', Some('r')) => Some(Element::Pr),
        ('N', Some('d')) => Some(Element::Nd),
        ('P', Some('m')) => Some(Element::Pm),
        ('S', Some('m')) => Some(Element::Sm),
        ('E', Some('u')) => Some(Element::Eu),
        ('G', Some('d')) => Some(Element::Gd),
        ('T', Some('b')) => Some(Element::Tb),
        ('D', Some('y')) => Some(Element::Dy),
        ('H', Some('o')) => Some(Element::Ho),
        ('E', Some('r')) => Some(Element::Er),
        ('T', Some('m')) => Some(Element::Tm),
        ('Y', Some('b')) => Some(Element::Yb),
        ('L', Some('u')) => Some(Element::Lu),
        ('H', Some('f')) => Some(Element::Hf),
        ('T', Some('a')) => Some(Element::Ta),
        ('W', None) => Some(Element::W),
        ('R', Some('e')) => Some(Element::Re),
        ('O', Some('s')) => Some(Element::Os),
        ('I', Some('r')) => Some(Element::Ir),
        ('P', Some('t')) => Some(Element::Pt),
        ('A', Some('u')) => Some(Element::Au),
        ('H', Some('g')) => Some(Element::Hg),
        ('T', Some('l')) => Some(Element::Tl),
        ('P', Some('b')) => Some(Element::Pb),
        ('B', Some('i')) => Some(Element::Bi),
        ('P', Some('o')) => Some(Element::Po),
        ('A', Some('t')) => Some(Element::At),
        ('R', Some('n')) => Some(Element::Rn),
        _ => None,
    }
}

pub fn element_of(c1: char, c2: Option<char>) -> (r: Option<Element>)
    ensures
        r == spec_element_of(c1, c2),
{
    match (c1, c2) {
        ('H', None) => Some(Element::H),
        ('H', Some('e')) => Some(Element::He),
        ('L', Some('i')) => Some(Element::Li),
        ('B', Some('e')) => Some(Element::Be),
        ('B', None) => Some(Element::B),
        ('C', None) => Some(Element::C),
        ('N', None) => Some(Element::N),
        ('O', None) => Some(Element::O),
        ('F', None) => Some(Element::F),
        ('N', Some('e')) => Some(Element::Ne),
        ('N', Some('a')) => Some(Element::Na),
        ('M', Some('g')) => Some(Element::Mg),
        ('A', Some('l')) => Some(Element::Al),
        ('S', Some('i')) => Some(Element::Si),
        ('P', None) => Some(Element::P),
        ('S', None) => Some(Element::S),
        ('C', Some('l')) => Some(Element::Cl),
        ('A', Some('r')) => Some(Element::Ar),
        ('K', None) => Some(Element::K),
        ('C', Some('a')) => Some(Element::Ca),
        ('S', Some('c')) => Some(Element::Sc),
        ('T', Some('i')) => Some(Element::Ti),
        ('V', None) => Some(Element::V),
        ('C', Some('r')) => Some(Element::Cr),
        ('M', Some('n')) => Some(Element::Mn),
        ('F', Some('e')) => Some(Element::Fe),
        ('C', Some('o')) => Some(Element::Co),
        ('N', Some('i')) => Some(Element::Ni),
        ('C', Some('u')) => Some(Element::Cu),
        ('Z', Some('n')) => Some(Element::Zn),
        ('G', Some('a')) => Some(Element::Ga),
        ('G', Some('e')) => Some(Element::Ge),
        ('A', Some('s')) => Some(Element::As),
        ('S', Some('e')) => Some(Element::Se),
        ('B', Some('r')) => Some(Element::Br),
        ('K', Some('r')) => Some(Element::Kr),
        ('R', Some('b')) => Some(Element::Rb),
        ('S', Some('r')) => Some(Element::Sr),
        ('Y', None) => Some(Element::Y),
        ('Z', Some('r')) => Some(Element::Zr),
        ('N', Some('b')) => Some(Element::Nb),
        ('M', Some('o')) => Some(Element::Mo),
        ('T', Some('c')) => Some(Element::Tc),
        ('R', Some('u')) => Some(Element::Ru),
        ('R', Some('h')) => Some(Element::Rh),
        ('R', Some('d')) => Some(Element::Rd),
        ('A', Some('g')) => Some(Element::Ag),
        ('C', Some('d')) => Some(Element::Cd),
        ('I', Some('n')) => Some(Element::In),
        ('S', Some('n')) => Some(Element::Sn),
        ('S', Some('b')) => Some(Element::Sb),
        ('T', Some('e')) => Some(Element::Te),
        ('I', None) => Some(Element::I),
        ('X', Some('e')) => Some(Element::Xe),
        ('C', Some('s')) => Some(Element::Cs),
        ('B', Some('a')) => Some(Element::Ba),
        ('L', Some('a')) => Some(Element::La),
        ('C', Some('e')) => Some(Element::Ce),
        ('P', Some('r')) => Some(Element::Pr),
        ('N', Some('d')) => Some(Element::Nd),
        ('P', Some('m')) => Some(Element::Pm),
        ('S', Some('m')) => Some(Element::Sm),
        ('E', Some('u')) => Some(Element::Eu),
        ('G', Some('d')) => Some(Element::Gd),
        ('T', Some('b')) => Some(Element::Tb),
        ('D', Some('y')) => Some(Element::Dy),
        ('H', Some('o')) => Some(Element::Ho),
        ('E', Some('r')) => Some(Element::Er),
        ('T', Some('m')) => Some(Element::Tm),
        ('Y', Some('b')) => Some(Element::Yb),
        ('L', Some('u')) => Some(Element::Lu),
        ('H', Some('f')) => Some(Element::Hf),
        ('T', Some('a')) => Some(Element::Ta),
        ('W', None) => Some(Element::W),
        ('R', Some('e')) => Some(Element::Re),
        ('O', Some('s')) => Some(Element::Os),
        ('I', Some('r')) => Some(Element::Ir),
        ('P', Some('t')) => Some(Element::Pt),
        ('A', Some('u')) => Some(Element::Au),
        ('H', Some('g')) => Some(Element::Hg),
        ('T', Some('l')) => Some(Element::Tl),
        ('P', Some('b')) => Some(Element::Pb),
        ('B', Some('i')) => Some(Element::Bi),
        ('P', Some('o')) => Some(Element::Po),
        ('A', Some('t')) => Some(Element::At),
        ('R', Some('n')) => Some(Element::Rn),
        _ => None,
    }
}

/// The organic-subset element written with a given lower-case (aromatic) symbol, if any.
pub open spec fn spec_element_of_lower(c1: char, c2: Option<char>) -> Option<Element> {
    match (c1, c2) {
        ('b', None) => Some(Element::B),
        ('c', None) => Some(Element::C),
        ('n', None) => Some(Element::N),
        ('o', None) => Some(Element::O),
        ('f', None) => Some(Element::F),
        ('p', None) => Some(Element::P),
        ('s', None) => Some(Element::S),
        ('c', Some('l')) => Some(Element::Cl),
        ('b', Some('r')) => Some(Element::Br),
        ('i', None) => Some(Element::I),
        _ => None,
    }
}

pub fn element_of_lower(c1: char, c2: Option<char>) -> (r: Option<Element>)
    ensures
        r == spec_element_of_lower(c1, c2),
{
    match (c1, c2) {
        ('b', None) => Some(Element::B),
        ('c', None) => Some(Element::C),
        ('n', None) => Some(Element::N),
        ('o', None) => Some(Element::O),
        ('f', None) => Some(Element::F),
        ('p', None) => Some(Element::P),
        ('s', None) => Some(Element::S),
        ('c', Some('l')) => Some(Element::Cl),
        ('b', Some('r')) => Some(Element::Br),
        ('i', None) => Some(Element::I),
        _ => None,
    }
}

/// Looking an element's own symbol up yields that element back.
pub proof fn lemma_element_symbol_inverse(e: Element)
    ensures
        spec_element_of(e.symbol_first(), e.symbol_second()) == Some(e),
{
}

/// Looking an organic-subset element's lower-case symbol up yields it back.
pub proof fn lemma_element_lower_inverse(e: Element)
    requires
        e.spec_is_organic_subset(),
    ensures
        spec_element_of_lower(e.lower_first(), e.symbol_second()) == Some(e),
{
}

} // verus!
