use vstd::prelude::*;
use vstd::string::StringSliceAdditionalSpecFns;

verus! {

/// One of the variants of the R distribution functions: `p`, `q`, `d`.
#[derive(Clone, Copy, PartialEq, Eq, Debug, Structural)]
pub enum VariantR {
    P,
    Q,
    D,
}

/// An arithmetic operator: `+ - * / ^`.
#[derive(Clone, Copy, PartialEq, Eq, Debug, Structural)]
pub enum Operacio {
    Add,
    Sub,
    Mul,
    Div,
    Pow,
}

/// A parenthesis: `(` or `)`.
#[derive(Clone, Copy, PartialEq, Eq, Debug, Structural)]
pub enum Paren {
    Open,
    Close,
}

/// A probability distribution (norm, binom, ...).
#[derive(Clone, Copy, PartialEq, Eq, Debug, Structural)]
pub enum Dist {
    Bernoulli,
    Binom,
    Poisson,
    NBinom,
    Uniforme,
    Normal,
}

/// One key press of the calculator, as it is stored in the token buffer.
#[derive(Clone, Copy, PartialEq, Eq, Debug, Structural)]
pub enum Token {
    /// A decimal digit, `0..9`
    Digit(u8),
    /// `.` (as in `3.2`)
    DecimalPoint,
    /// `,` (as in `pnorm(3, 2)`)
    Comma,
    /// `+ - * / ^`
    Op(Operacio),
    /// `(`, `)`
    Paren(Paren),
    /// norm, binom, ...
    Dist(Dist),
    /// p, q, d
    VariantR(VariantR),
}

impl VariantR {
    /// The ASCII letter that shows this variant.
    pub open spec fn glyph(self) -> u8 {
        match self {
            VariantR::P => 112u8,
            VariantR::Q => 113u8,
            VariantR::D => 100u8,
        }
    }

    pub fn as_ascii(&self) -> (r: u8)
        ensures
            r == self.glyph(),
    {
        match self {
            VariantR::P => 'p' as u8,
            VariantR::Q => 'q' as u8,
            VariantR::D => 'd' as u8,
        }
    }
}

impl Operacio {
    /// The ASCII symbol that shows this operator.
    pub open spec fn glyph(self) -> u8 {
        match self {
            Operacio::Add => 43u8,
            Operacio::Sub => 45u8,
            Operacio::Mul => 42u8,
            Operacio::Div => 47u8,
            Operacio::Pow => 94u8,
        }
    }

    pub fn as_ascii(&self) -> (r: u8)
        ensures
            r == self.glyph(),
    {
        match self {
            Operacio::Add => '+' as u8,
            Operacio::Sub => '-' as u8,
            Operacio::Mul => '*' as u8,
            Operacio::Div => '/' as u8,
            Operacio::Pow => '^' as u8,
        }
    }
}

impl Paren {
    /// The ASCII character that shows this parenthesis.
    pub open spec fn glyph(self) -> u8 {
        match self {
            Paren::Open => 40u8,
            Paren::Close => 41u8,
        }
    }

    pub fn as_ascii(&self) -> (r: u8)
        ensures
            r == self.glyph(),
    {
        match self {
            Paren::Open => '(' as u8,
            Paren::Close => ')' as u8,
        }
    }
}

impl Dist {
    /// The name under which the distribution is shown, as ASCII bytes.
    pub open spec fn name(self) -> Seq<u8> {
        match self {
            Dist::Bernoulli => seq![98u8, 101u8, 114u8, 110u8],
            Dist::Binom => seq![98u8, 105u8, 110u8, 111u8, 109u8],
            Dist::Poisson => seq![112u8, 111u8, 105u8, 115u8],
            Dist::NBinom => seq![110u8, 98u8, 105u8, 110u8, 111u8, 109u8],
            Dist::Uniforme => seq![117u8, 110u8, 105u8, 102u8],
            Dist::Normal => seq![110u8, 111u8, 114u8, 109u8],
        }
    }

    /// Returns the name of the distribution; it is always valid ASCII.
    pub fn as_ascii(&self) -> (r: &'static str)
        ensures
            r.spec_bytes() == self.name(),
            r@ == Seq::new(self.name().len(), |i: int| self.name()[i] as char),
            vstd::string::is_ascii(r),
    {
        broadcast use vstd::string::is_ascii_spec_bytes;
        let r = match self {
            Dist::Bernoulli => {
                let s = "bern";
                proof { reveal_strlit("bern"); }
                s
            },
            Dist::Binom => {
                let s = "binom";
                proof { reveal_strlit("binom"); }
                s
            },
            Dist::Poisson => {
                let s = "pois";
                proof { reveal_strlit("pois"); }
                s
            },
            Dist::NBinom => {
                let s = "nbinom";
                proof { reveal_strlit("nbinom"); }
                s
            },
            Dist::Uniforme => {
                let s = "unif";
                proof { reveal_strlit("unif"); }
                s
            },
            Dist::Normal => {
                let s = "norm";
                proof { reveal_strlit("norm"); }
                s
            },
        };
        assert(vstd::string::is_ascii(r));
        assert(r.spec_bytes() =~= self.name());
        assert(r@ =~= Seq::new(self.name().len(), |i: int| self.name()[i] as char));
        r
    }
}

} // verus!
