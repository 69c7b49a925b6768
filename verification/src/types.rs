//! The typed expressions that are evaluated, and the types and records they name.
use vstd::prelude::*;
use crate::integer::IntegerType;
use crate::text::decimal;
use crate::text::decimal_text;

verus! {

/// A name in the program.
#[derive(Debug, PartialEq, Eq)]
pub struct Identifier {
    pub name: String,
}

impl View for Identifier {
    type V = Seq<char>;

    open spec fn view(&self) -> Seq<char> {
        self.name@
    }
}

/// The name under which a record refers to itself.
pub open spec fn self_name() -> Seq<char> {
    seq!['s', 'e', 'l', 'f']
}

impl Identifier {
    /// The identifier with the given name.
    pub fn new(name: &str) -> (r: Identifier)
        ensures
            r@ == name@,
    {
        Identifier { name: String::from_str(name) }
    }

    /// A copy of the identifier.
    pub fn duplicate(&self) -> (r: Identifier)
        ensures
            r@ == self@,
    {
        Identifier { name: self.name.clone() }
    }

    /// Whether two identifiers are one name.
    pub fn equals(&self, other: &Identifier) -> (r: bool)
        ensures
            r == (self@ == other@),
    {
        self.name == other.name
    }

    /// Whether this is the name under which a record refers to itself.
    pub fn is_self(&self) -> (r: bool)
        ensures
            r == (self@ == self_name()),
    {
        proof {
            reveal_strlit("self");
            assert("self"@ =~= self_name());
        }
        let name = String::from_str("self");
        self.name == name
    }
}

/// A type of the language.
#[derive(Debug, PartialEq, Eq)]
pub enum Type {
    IntegerType(IntegerType),
    FieldElement,
    GroupElement,
    Boolean,
    Circuit(Identifier),
    SelfType,
    /// The element type, and the dimensions from the outermost to the innermost.
    Array(Box<Type>, Vec<usize>),
}

/// What a [`Type`] stands for.
pub enum TypeModel {
    IntegerType(IntegerType),
    FieldElement,
    GroupElement,
    Boolean,
    Circuit(Seq<char>),
    SelfType,
    Array(Box<TypeModel>, Seq<usize>),
}

/// The dimensions of an array type as they are written: each in square brackets.
pub open spec fn dimensions_text(dimensions: Seq<usize>) -> Seq<char>
    decreases dimensions.len(),
{
    if dimensions.len() == 0 {
        Seq::<char>::empty()
    } else {
        dimensions_text(dimensions.drop_last()) + seq!['['] + decimal_text(
            dimensions.last() as nat,
        ) + seq![']']
    }
}

impl TypeModel {
    /// The type as it is written.
    pub open spec fn text(self) -> Seq<char>
        decreases self,
    {
        match self {
            TypeModel::IntegerType(integer_type) => integer_type.name(),
            TypeModel::FieldElement => seq!['f', 'i', 'e', 'l', 'd'],
            TypeModel::GroupElement => seq!['g', 'r', 'o', 'u', 'p'],
            TypeModel::Boolean => seq!['b', 'o', 'o', 'l'],
            TypeModel::Circuit(name) => seq!['c', 'i', 'r', 'c', 'u', 'i', 't', ' '] + name,
            TypeModel::SelfType => seq!['S', 'e', 'l', 'f'],
            TypeModel::Array(element, dimensions) => element.text() + dimensions_text(dimensions),
        }
    }

    /// The type expected of each element of an array of this type: the outermost
    /// dimension is taken off, and the element type is left when it was the only one.
    /// A type that is no array is left as it is.
    pub open spec fn inner_dimension(self) -> TypeModel {
        match self {
            TypeModel::Array(element, dimensions) => if dimensions.len() > 1 {
                TypeModel::Array(element, dimensions.drop_first())
            } else {
                *element
            },
            _ => self,
        }
    }
}

impl Type {
    /// What the type stands for.
    pub open spec fn model(self) -> TypeModel
        decreases self,
    {
        match self {
            Type::IntegerType(integer_type) => TypeModel::IntegerType(integer_type),
            Type::FieldElement => TypeModel::FieldElement,
            Type::GroupElement => TypeModel::GroupElement,
            Type::Boolean => TypeModel::Boolean,
            Type::Circuit(identifier) => TypeModel::Circuit(identifier@),
            Type::SelfType => TypeModel::SelfType,
            Type::Array(element, dimensions) => TypeModel::Array(
                Box::new(element.model()),
                dimensions@,
            ),
        }
    }

    /// A copy of the type.
    pub fn duplicate(&self) -> (r: Type)
        ensures
            r@ == self@,
        decreases self,
    {
        match self {
            Type::IntegerType(integer_type) => Type::IntegerType(*integer_type),
            Type::FieldElement => Type::FieldElement,
            Type::GroupElement => Type::GroupElement,
            Type::Boolean => Type::Boolean,
            Type::Circuit(identifier) => Type::Circuit(identifier.duplicate()),
            Type::SelfType => Type::SelfType,
            Type::Array(element, dimensions) => {
                let copy = dimensions.clone();
                Type::Array(Box::new(element.duplicate()), copy)
            },
        }
    }

    /// The type expected of each element of an array of this type.
    pub fn inner_dimension(&self) -> (r: Type)
        ensures
            r@ == self@.inner_dimension(),
    {
        match self {
            Type::Array(element, dimensions) => {
                if dimensions.len() > 1 {
                    let mut rest: Vec<usize> = Vec::new();
                    let mut i: usize = 1;
                    while i < dimensions.len()
                        invariant
                            1 <= i <= dimensions.len(),
                            rest@ == dimensions@.subrange(1, i as int),
                        decreases dimensions.len() - i,
                    {
                        rest.push(dimensions[i]);
                        i = i + 1;
                    }
                    Type::Array(Box::new(element.duplicate()), rest)
                } else {
                    element.duplicate()
                }
            },
            _ => self.duplicate(),
        }
    }

    /// Writes the type.
    pub fn to_text(&self) -> (r: String)
        ensures
            r@ == self@.text(),
        decreases self,
    {
        proof {
            reveal_strlit("field");
            reveal_strlit("group");
            reveal_strlit("bool");
            reveal_strlit("circuit ");
            reveal_strlit("Self");
            reveal_strlit("[");
            reveal_strlit("]");
        }
        match self {
            Type::IntegerType(integer_type) => String::from_str(integer_type.to_text()),
            Type::FieldElement => {
                let r = String::from_str("field");
                r
            },
            Type::GroupElement => {
                let r = String::from_str("group");
                r
            },
            Type::Boolean => {
                let r = String::from_str("bool");
                r
            },
            Type::Circuit(identifier) => {
                let mut r = String::from_str("circuit ");
                r.append(identifier.name.as_str());
                r
            },
            Type::SelfType => {
                let r = String::from_str("Self");
                r
            },
            Type::Array(element, dimensions) => {
                let mut r = element.to_text();
                let mut i: usize = 0;
                while i < dimensions.len()
                    invariant
                        i <= dimensions.len(),
                        r@ == element@.text() + dimensions_text(dimensions@.take(i as int)),
                    decreases dimensions.len() - i,
                {
                    let number = decimal(dimensions[i] as u128);
                    r.append("[");
                    r.append(number.as_str());
                    r.append("]");
                    proof {
                        reveal_strlit("[");
                        reveal_strlit("]");
                        let next = dimensions@.take(i + 1);
                        assert(next.drop_last() =~= dimensions@.take(i as int));
                    }
                    i = i + 1;
                }
                assert(dimensions@.take(dimensions.len() as int) =~= dimensions@);
                r
            },
        }
    }
}

impl View for Type {
    type V = TypeModel;

    open spec fn view(&self) -> TypeModel {
        self.model()
    }
}

/// The expected types as a caller hands them down.
pub open spec fn types_model(types: Seq<Type>) -> Seq<TypeModel> {
    Seq::new(types.len(), |i: int| types[i]@)
}

/// A function of the program. Its statements are kept by whoever runs function
/// bodies; `body` is their key there.
#[derive(Debug, PartialEq, Eq)]
pub struct Function {
    pub function_name: Identifier,
    pub body: usize,
}

/// What a [`Function`] stands for.
pub struct FunctionModel {
    pub name: Seq<char>,
    pub body: usize,
}

impl View for Function {
    type V = FunctionModel;

    open spec fn view(&self) -> FunctionModel {
        FunctionModel { name: self.function_name@, body: self.body }
    }
}

impl Function {
    /// A copy of the function.
    pub fn duplicate(&self) -> (r: Function)
        ensures
            r@ == self@,
    {
        Function { function_name: self.function_name.duplicate(), body: self.body }
    }
}

/// A member of a record type: a field with its type, or a function, static or not.
#[derive(Debug, PartialEq, Eq)]
pub enum CircuitMember {
    CircuitField(Identifier, Type),
    CircuitFunction(bool, Function),
}

/// What a [`CircuitMember`] stands for.
pub enum CircuitMemberModel {
    CircuitField(Seq<char>, TypeModel),
    CircuitFunction(bool, FunctionModel),
}

impl View for CircuitMember {
    type V = CircuitMemberModel;

    open spec fn view(&self) -> CircuitMemberModel {
        match self {
            CircuitMember::CircuitField(identifier, declared) => CircuitMemberModel::CircuitField(
                identifier@,
                declared@,
            ),
            CircuitMember::CircuitFunction(is_static, function) => CircuitMemberModel::CircuitFunction(
                *is_static,
                function@,
            ),
        }
    }
}

impl CircuitMember {
    /// A copy of the member.
    pub fn duplicate(&self) -> (r: CircuitMember)
        ensures
            r@ == self@,
    {
        match self {
            CircuitMember::CircuitField(identifier, declared) => CircuitMember::CircuitField(
                identifier.duplicate(),
                declared.duplicate(),
            ),
            CircuitMember::CircuitFunction(is_static, function) => CircuitMember::CircuitFunction(
                *is_static,
                function.duplicate(),
            ),
        }
    }
}

/// A record type: its name and its members in the order of their declaration.
#[derive(Debug, PartialEq, Eq)]
pub struct Circuit {
    pub identifier: Identifier,
    pub members: Vec<CircuitMember>,
}

/// What a [`Circuit`] stands for.
pub struct CircuitModel {
    pub name: Seq<char>,
    pub members: Seq<CircuitMemberModel>,
}

impl View for Circuit {
    type V = CircuitModel;

    open spec fn view(&self) -> CircuitModel {
        CircuitModel {
            name: self.identifier@,
            members: Seq::new(self.members.len() as nat, |i: int| self.members[i]@),
        }
    }
}

impl Circuit {
    /// A copy of the record type.
    pub fn duplicate(&self) -> (r: Circuit)
        ensures
            r@ == self@,
    {
        let mut members: Vec<CircuitMember> = Vec::new();
        let mut i: usize = 0;
        while i < self.members.len()
            invariant
                i <= self.members.len(),
                members.len() == i,
                forall|j: int| 0 <= j < i ==> members[j]@ == self.members[j]@,
            decreases self.members.len() - i,
        {
            members.push(self.members[i].duplicate());
            i = i + 1;
        }
        let r = Circuit { identifier: self.identifier.duplicate(), members };
        assert(r@.members =~= self@.members);
        r
    }
}

} // verus!
