use vstd::prelude::*;

verus! {

/// The kind of a chemical bond, as written in SMILES.
#[derive(Debug, PartialEq, Eq, Structural, Clone, Copy)]
pub enum BondType {
    Single,
    UpSingle,
    DownSingle,
    Double,
    Triple,
    Quad,
    Aromatic,
    NoBond,
}

/// The character that writes each bond kind.
pub open spec fn spec_bond_char(bt: BondType) -> char {
    match bt {
        BondType::Single => '-',
        BondType::UpSingle => '/',
        BondType::DownSingle => '\\',
        BondType::Double => '=',
        BondType::Triple => '#',
        BondType::Quad => '$',
        BondType::Aromatic => ':',
        BondType::NoBond => '.',
    }
}

/// The bond kind a single character writes, if any.
pub open spec fn spec_bond_type_of(c: char) -> Option<BondType> {
    if c == '-' {
        Some(BondType::Single)
    } else if c == '/' {
        Some(BondType::UpSingle)
    } else if c == '\\' {
        Some(BondType::DownSingle)
    } else if c == '=' {
        Some(BondType::Double)
    } else if c == '#' {
        Some(BondType::Triple)
    } else if c == '$' {
        Some(BondType::Quad)
    } else if c == ':' {
        Some(BondType::Aromatic)
    } else if c == '.' {
        Some(BondType::NoBond)
    } else {
        None
    }
}

pub fn bond_type_of(c: char) -> (r: Option<BondType>)
    ensures
        r == spec_bond_type_of(c),
{
    if c == '-' {
        Some(BondType::Single)
    } else if c == '/' {
        Some(BondType::UpSingle)
    } else if c == '\\' {
        Some(BondType::DownSingle)
    } else if c == '=' {
        Some(BondType::Double)
    } else if c == '#' {
        Some(BondType::Triple)
    } else if c == '$' {
        Some(BondType::Quad)
    } else if c == ':' {
        Some(BondType::Aromatic)
    } else if c == '.' {
        Some(BondType::NoBond)
    } else {
        None
    }
}

/// A bond character read back gives the kind it was written for.
pub proof fn lemma_bond_char_inverse(bt: BondType)
    ensures
        spec_bond_type_of(spec_bond_char(bt)) == Some(bt),
{
}

impl BondType {
    /// What `new` yields on a given character sequence: a single bond character.
    pub open spec fn spec_new(s: Seq<char>) -> Option<BondType> {
        if s.len() == 1 {
            spec_bond_type_of(s[0])
        } else {
            None
        }
    }

    /// Parse a one-character bond token; `.` gives `NoBond`.
    pub fn new(bond_str: &str) -> (r: Option<Self>)
        ensures
            r == Self::spec_new(bond_str@),
    {
        let v = crate::text::chars_of(bond_str);
        if v.len() == 1 {
            bond_type_of(v[0])
        } else {
            None
        }
    }
}

/// A bond of the graph: its kind, and whether it was introduced by a ring closure.
#[derive(Debug, PartialEq, Eq, Structural, Clone, Copy)]
pub struct Bond {
    pub bond_type: BondType,
    pub ring: bool,
}

impl Bond {
    /// The same bond with `UpSingle` and `DownSingle` swapped, all else unchanged.
    pub open spec fn spec_reverse(self) -> Bond {
        match self.bond_type {
            BondType::UpSingle => Bond { bond_type: BondType::DownSingle, ring: self.ring },
            BondType::DownSingle => Bond { bond_type: BondType::UpSingle, ring: self.ring },
            _ => self,
        }
    }

    pub fn new(bond_type: BondType, ring: bool) -> (r: Self)
        ensures
            r == (Bond { bond_type, ring }),
    {
        Bond { bond_type, ring }
    }

    pub fn is_no_bond(&self) -> (r: bool)
        ensures
            r == (self.bond_type is NoBond),
    {
        if let BondType::NoBond = self.bond_type {
            true
        } else {
            false
        }
    }

    pub fn is_ring_bond(&self) -> (r: bool)
        ensures
            r == self.ring,
    {
        self.ring
    }

    pub fn is_normal_single(&self) -> (r: bool)
        ensures
            r == (self.bond_type is Single),
    {
        matches!(self.bond_type, BondType::Single)
    }

    /// Reverse the direction the bond is written for: `/` and `\` swap.
    pub fn reverse(self) -> (r: Self)
        ensures
            r == self.spec_reverse(),
    {
        match self.bond_type {
            BondType::UpSingle => Bond::new(BondType::DownSingle, self.ring),
            BondType::DownSingle => Bond::new(BondType::UpSingle, self.ring),
            _ => self,
        }
    }

    pub fn is_aromatic(&self) -> (r: bool)
        ensures
            r == (self.bond_type is Aromatic),
    {
        matches!(self.bond_type, BondType::Aromatic)
    }

    /// The character sequence that writes this bond.
    pub open spec fn spec_token(self) -> Seq<char> {
        seq![spec_bond_char(self.bond_type)]
    }

    pub fn as_str(&self) -> (r: &'static str)
        ensures
            r@ == self.spec_token(),
    {
        match self.bond_type {
            BondType::Double => {
                let s = "=";
                proof {
                    reveal_strlit("=");
                    assert(s@ =~= self.spec_token());
                }
                s
            },
            BondType::Triple => {
                let s = "#";
                proof {
                    reveal_strlit("#");
                    assert(s@ =~= self.spec_token());
                }
                s
            },
            BondType::Quad => {
                let s = "$";
                proof {
                    reveal_strlit("$");
                    assert(s@ =~= self.spec_token());
                }
                s
            },
            BondType::Aromatic => {
                let s = ":";
                proof {
                    reveal_strlit(":");
                    assert(s@ =~= self.spec_token());
                }
                s
            },
            BondType::Single => {
                let s = "-";
                proof {
                    reveal_strlit("-");
                    assert(s@ =~= self.spec_token());
                }
                s
            },
            BondType::DownSingle => {
                let s = "\\";
                proof {
                    reveal_strlit("\\");
                    assert(s@ =~= self.spec_token());
                }
                s
            },
            BondType::UpSingle => {
                let s = "/";
                proof {
                    reveal_strlit("/");
                    assert(s@ =~= self.spec_token());
                }
                s
            },
            BondType::NoBond => {
                let s = ".";
                proof {
                    reveal_strlit(".");
                    assert(s@ =~= self.spec_token());
                }
                s
            },
        }
    }
}

/// Reversing a bond twice restores the direction and kind it had.
pub proof fn lemma_reverse_involution(b: Bond)
    ensures
        b.spec_reverse().spec_reverse() == b,
{
}

} // verus!
