use vstd::prelude::*;

verus! {

/// Chirality annotation of an atom: `@` is counter-clockwise, `@@` clockwise.
#[derive(Debug, PartialEq, Eq, Structural, Clone, Copy)]
pub enum ChiralityType {
    Clockwise,
    Counter,
}

/// The chirality written with a given number of `@` signs: one or two.
pub open spec fn spec_chirality_of(at_count: nat) -> Option<ChiralityType> {
    if at_count == 1 {
        Some(ChiralityType::Counter)
    } else if at_count == 2 {
        Some(ChiralityType::Clockwise)
    } else {
        None
    }
}

impl ChiralityType {
    /// How many `@` signs write this chirality.
    pub open spec fn at_count(self) -> nat {
        match self {
            ChiralityType::Counter => 1,
            ChiralityType::Clockwise => 2,
        }
    }

    /// The characters that write this chirality.
    pub open spec fn spec_token(self) -> Seq<char> {
        match self {
            ChiralityType::Counter => seq!['@'],
            ChiralityType::Clockwise => seq!['@', '@'],
        }
    }

    /// Parse `@` or `@@`; anything else is no chirality mark.
    pub fn new(s: &str) -> (r: Option<Self>)
        ensures
            r == Self::spec_new(s@),
    {
        let v = crate::text::chars_of(s);
        if v.len() == 1 && v[0] == '@' {
            Some(ChiralityType::Counter)
        } else if v.len() == 2 && v[0] == '@' && v[1] == '@' {
            Some(ChiralityType::Clockwise)
        } else {
            None
        }
    }

    /// What `new` yields on a given character sequence.
    pub open spec fn spec_new(s: Seq<char>) -> Option<ChiralityType> {
        if s =~= seq!['@'] {
            Some(ChiralityType::Counter)
        } else if s =~= seq!['@', '@'] {
            Some(ChiralityType::Clockwise)
        } else {
            None
        }
    }

    pub fn as_str(&self) -> (r: &'static str)
        ensures
            r@ == self.spec_token(),
    {
        match self {
            ChiralityType::Clockwise => {
                let s = "@@";
                proof {
                    reveal_strlit("@@");
                    assert(s@ =~= self.spec_token());
                }
                s
            },
            ChiralityType::Counter => {
                let s = "@";
                proof {
                    reveal_strlit("@");
                    assert(s@ =~= self.spec_token());
                }
                s
            },
        }
    }
}

} // verus!
