//! The group of points of a twisted Edwards curve over the field.
use vstd::prelude::*;
use crate::field::FieldElement;
use crate::field::residue;

verus! {

/// The coefficient `d` of the curve `-x^2 + y^2 = 1 + d * x^2 * y^2`.
pub const EDWARDS_D: u64 = 7;

/// A point of the curve, held by its two affine coordinates.
#[derive(Clone, Copy, PartialEq, Eq, Debug, Structural)]
pub struct GroupElement {
    pub x: FieldElement,
    pub y: FieldElement,
}

impl GroupElement {
    /// The neutral point `(0, 1)`.
    pub open spec fn neutral() -> GroupElement {
        GroupElement { x: FieldElement { value: 0 }, y: FieldElement { value: 1 } }
    }

    /// The sum of two points by the addition law of the curve.
    pub open spec fn sum(self, other: GroupElement) -> GroupElement {
        let one = FieldElement { value: 1 };
        let d = FieldElement { value: EDWARDS_D };
        let cross = d.product(self.x.product(other.x)).product(self.y.product(other.y));
        GroupElement {
            x: self.x.product(other.y).sum(self.y.product(other.x)).quotient(one.sum(cross)),
            y: self.y.product(other.y).sum(self.x.product(other.x)).quotient(
                one.difference(cross),
            ),
        }
    }

    /// The opposite point: the first coordinate changes sign.
    pub open spec fn opposite(self) -> GroupElement {
        GroupElement { x: FieldElement { value: 0 }.difference(self.x), y: self.y }
    }

    /// The sum with the opposite of `other`.
    pub open spec fn difference(self, other: GroupElement) -> GroupElement {
        self.sum(other.opposite())
    }

    /// Whether two points have the same coordinates in the field.
    pub open spec fn same(self, other: GroupElement) -> bool {
        residue(self.x.value as int) == residue(other.x.value as int) && residue(
            self.y.value as int,
        ) == residue(other.y.value as int)
    }

    /// The point as it is written: `(x, y)`.
    pub open spec fn text(self) -> Seq<char> {
        seq!['('] + self.x.text() + seq![',', ' '] + self.y.text() + seq![')']
    }

    /// The neutral point `(0, 1)`.
    pub fn zero() -> (r: GroupElement)
        ensures
            r == GroupElement::neutral(),
    {
        GroupElement { x: FieldElement { value: 0 }, y: FieldElement { value: 1 } }
    }

    /// Adds two points.
    pub fn plus(self, other: GroupElement) -> (r: GroupElement)
        ensures
            r == self.sum(other),
    {
        let one = FieldElement { value: 1 };
        let d = FieldElement { value: EDWARDS_D };
        let cross = d.times(self.x.times(other.x)).times(self.y.times(other.y));
        let x = self.x.times(other.y).plus(self.y.times(other.x)).times(
            one.plus(cross).inverted(),
        );
        let y = self.y.times(other.y).plus(self.x.times(other.x)).times(
            one.minus(cross).inverted(),
        );
        GroupElement { x, y }
    }

    /// The opposite point.
    pub fn negated(self) -> (r: GroupElement)
        ensures
            r == self.opposite(),
    {
        GroupElement { x: FieldElement { value: 0 }.minus(self.x), y: self.y }
    }

    /// Subtracts `other` from the point.
    pub fn minus(self, other: GroupElement) -> (r: GroupElement)
        ensures
            r == self.difference(other),
    {
        self.plus(other.negated())
    }

    /// Whether two points have the same coordinates in the field.
    pub fn equals(self, other: GroupElement) -> (r: bool)
        ensures
            r == self.same(other),
    {
        FieldElement::new(self.x.value) == FieldElement::new(other.x.value) && FieldElement::new(
            self.y.value,
        ) == FieldElement::new(other.y.value)
    }

    /// Writes the point: `(x, y)`.
    pub fn to_text(&self) -> (r: String)
        ensures
            r@ == self.text(),
    {
        proof {
            reveal_strlit("(");
            reveal_strlit(", ");
            reveal_strlit(")");
        }
        let mut r = String::from_str("(");
        let x = self.x.to_text();
        r.append(x.as_str());
        r.append(", ");
        let y = self.y.to_text();
        r.append(y.as_str());
        r.append(")");
        r
    }
}

} // verus!
