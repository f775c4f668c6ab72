use vstd::prelude::*;

use core::cmp::Ordering;

use crate::computacio::PseudoOp;
use crate::tokens::Operacio;

verus! {

impl Operacio {
    /// Precedence level: `+ -` bind loosest, then `* /`, then `^`.
    pub open spec fn precedence(self) -> nat {
        match self {
            Operacio::Add | Operacio::Sub => 0,
            Operacio::Mul | Operacio::Div => 1,
            Operacio::Pow => 2,
        }
    }
}

/// Operators are ordered by how tightly they bind.
impl PartialOrd for Operacio {
    fn partial_cmp(&self, other: &Self) -> (r: Option<Ordering>) {
        Some(
            match (self, other) {
                (Operacio::Add, Operacio::Add)
                | (Operacio::Sub, Operacio::Sub)
                | (Operacio::Mul, Operacio::Mul)
                | (Operacio::Div, Operacio::Div)
                | (Operacio::Pow, Operacio::Pow)
                | (Operacio::Add, Operacio::Sub)
                | (Operacio::Sub, Operacio::Add)
                | (Operacio::Mul, Operacio::Div)
                | (Operacio::Div, Operacio::Mul) => Ordering::Equal,
                (Operacio::Add, _) => Ordering::Less,
                (Operacio::Sub, _) => Ordering::Less,
                (_, Operacio::Add) => Ordering::Greater,
                (_, Operacio::Sub) => Ordering::Greater,
                (Operacio::Mul, Operacio::Pow) => Ordering::Less,
                (Operacio::Div, Operacio::Pow) => Ordering::Less,
                (Operacio::Pow, _) => Ordering::Greater,
            },
        )
    }
}

impl vstd::std_specs::cmp::PartialOrdSpecImpl for Operacio {
    open spec fn obeys_partial_cmp_spec() -> bool {
        true
    }

    open spec fn partial_cmp_spec(&self, other: &Self) -> Option<Ordering> {
        if self.precedence() < other.precedence() {
            Some(Ordering::Less)
        } else if self.precedence() == other.precedence() {
            Some(Ordering::Equal)
        } else {
            Some(Ordering::Greater)
        }
    }
}

/// Only two operators are comparable, by precedence; parentheses and
/// distribution functions compare with nothing.
impl PartialOrd for PseudoOp {
    fn partial_cmp(&self, other: &Self) -> (r: Option<Ordering>) {
        match (self, other) {
            (PseudoOp::Op(o), PseudoOp::Op(u)) => o.partial_cmp(u),
            _ => None,
        }
    }
}

impl vstd::std_specs::cmp::PartialOrdSpecImpl for PseudoOp {
    open spec fn obeys_partial_cmp_spec() -> bool {
        true
    }

    open spec fn partial_cmp_spec(&self, other: &Self) -> Option<Ordering> {
        match (*self, *other) {
            (PseudoOp::Op(o), PseudoOp::Op(u)) => vstd::std_specs::cmp::PartialOrdSpec::partial_cmp_spec(&o, &u),
            _ => None,
        }
    }
}

} // verus!
