//! The values that expressions evaluate to.
use vstd::prelude::*;
use crate::field::FieldElement;
use crate::field::MODULUS;
use crate::group::GroupElement;
use crate::integer::Integer;
use crate::text::number_text_value;
use crate::text::parse_number;
use crate::types::Circuit;
use crate::types::CircuitModel;
use crate::types::Function;
use crate::types::FunctionModel;
use crate::types::Identifier;
use crate::types::Type;
use crate::types::TypeModel;

verus! {

/// The value of an expression.
#[derive(Debug, PartialEq, Eq)]
pub enum ConstrainedValue {
    Integer(Integer),
    FieldElement(FieldElement),
    GroupElement(GroupElement),
    Boolean(bool),
    Array(Vec<ConstrainedValue>),
    /// A record type. It is a template, never the value of a variable at run time.
    CircuitDefinition(Circuit),
    /// A record: the name of its type and its members in the order of their declaration.
    CircuitExpression(Identifier, Vec<ConstrainedCircuitMember>),
    /// A function, with the name of the record that owns it if one does.
    Function(Option<Identifier>, Function),
    /// What the body of a function hands back.
    Return(Vec<ConstrainedValue>),
    /// A value that may be assigned to.
    Mutable(Box<ConstrainedValue>),
    /// A function that belongs to a record type and not to a record.
    Static(Box<ConstrainedValue>),
    /// A number that is not yet bound to a type.
    Unresolved(String),
}

/// A member of a record: its name and its value.
#[derive(Debug, PartialEq, Eq)]
pub struct ConstrainedCircuitMember(pub Identifier, pub ConstrainedValue);

/// What a [`ConstrainedValue`] stands for.
pub enum ValueModel {
    Integer(Integer),
    FieldElement(FieldElement),
    GroupElement(GroupElement),
    Boolean(bool),
    Array(Seq<ValueModel>),
    CircuitDefinition(CircuitModel),
    CircuitExpression(Seq<char>, Seq<MemberModel>),
    Function(Option<Seq<char>>, FunctionModel),
    Return(Seq<ValueModel>),
    Mutable(Box<ValueModel>),
    Static(Box<ValueModel>),
    Unresolved(Seq<char>),
}

/// What a [`ConstrainedCircuitMember`] stands for.
pub struct MemberModel {
    pub name: Seq<char>,
    pub value: ValueModel,
}

/// Several values as they are written: one after the other, with `, ` between them.
pub open spec fn values_text(values: Seq<ValueModel>) -> Seq<char>
    decreases values,
{
    if values.len() == 0 {
        Seq::<char>::empty()
    } else if values.len() == 1 {
        values[0].text()
    } else {
        values_text(values.drop_last()) + seq![',', ' '] + values.last().text()
    }
}

/// The members of a record as they are written: `name: value`, with `, ` between them.
pub open spec fn members_text(members: Seq<MemberModel>) -> Seq<char>
    decreases members,
{
    if members.len() == 0 {
        Seq::<char>::empty()
    } else if members.len() == 1 {
        members[0].name + seq![':', ' '] + members[0].value.text()
    } else {
        members_text(members.drop_last()) + seq![',', ' '] + members.last().name + seq![':', ' ']
            + members.last().value.text()
    }
}

/// The text `true` or `false`.
pub open spec fn boolean_text(boolean: bool) -> Seq<char> {
    if boolean {
        seq!['t', 'r', 'u', 'e']
    } else {
        seq!['f', 'a', 'l', 's', 'e']
    }
}

impl ValueModel {
    /// The value as it is written in a message.
    pub open spec fn text(self) -> Seq<char>
        decreases self,
    {
        match self {
            ValueModel::Integer(integer) => integer.text(),
            ValueModel::FieldElement(element) => element.text(),
            ValueModel::GroupElement(element) => element.text(),
            ValueModel::Boolean(boolean) => boolean_text(boolean),
            ValueModel::Array(values) => seq!['['] + values_text(values) + seq![']'],
            ValueModel::CircuitDefinition(circuit) => seq!['c', 'i', 'r', 'c', 'u', 'i', 't', ' ']
                + circuit.name,
            ValueModel::CircuitExpression(name, members) => name + seq![' ', '{'] + members_text(
                members,
            ) + seq!['}'],
            ValueModel::Function(_, function) => seq!['f', 'u', 'n', 'c', 't', 'i', 'o', 'n', ' ']
                + function.name,
            ValueModel::Return(values) => seq!['r', 'e', 't', 'u', 'r', 'n', ' ', '[']
                + values_text(values) + seq![']'],
            ValueModel::Mutable(inner) => seq!['m', 'u', 't', ' '] + inner.text(),
            ValueModel::Static(inner) => seq!['s', 't', 'a', 't', 'i', 'c', ' '] + inner.text(),
            ValueModel::Unresolved(text) => seq!['u', 'n', 'r', 'e', 's', 'o', 'l', 'v', 'e', 'd', ' ']
                + text,
        }
    }

    /// The value without the wrappers that mark it as assignable.
    pub open spec fn unwrapped(self) -> ValueModel
        decreases self,
    {
        match self {
            ValueModel::Mutable(inner) => inner.unwrapped(),
            _ => self,
        }
    }

    /// The type of a value of one of the four primitive classes.
    pub open spec fn primitive_type(self) -> Option<TypeModel> {
        match self {
            ValueModel::Integer(integer) => Some(TypeModel::IntegerType(integer.integer_type)),
            ValueModel::FieldElement(_) => Some(TypeModel::FieldElement),
            ValueModel::GroupElement(_) => Some(TypeModel::GroupElement),
            ValueModel::Boolean(_) => Some(TypeModel::Boolean),
            _ => None,
        }
    }
}

/// What the text of a number reads as under a type.
///
/// Under an integer type it is the number, if it fits the width. Under the field type
/// it is the element that the number is the least representative of. Under the boolean
/// type only `true` and `false` read as a value. Under an array type the text is read
/// under the element type. Under no other type does a text read as a value.
pub open spec fn literal_value(text: Seq<char>, expected: TypeModel) -> Option<ValueModel>
    decreases expected,
{
    match expected {
        TypeModel::IntegerType(integer_type) => match number_text_value(
            text,
            integer_type.max_value(),
        ) {
            Some(value) => Some(
                ValueModel::Integer(Integer { integer_type, value: value as u128 }),
            ),
            None => None,
        },
        TypeModel::FieldElement => match number_text_value(text, (MODULUS - 1) as nat) {
            Some(value) => Some(ValueModel::FieldElement(FieldElement { value: value as u64 })),
            None => None,
        },
        TypeModel::Boolean => if text == boolean_text(true) {
            Some(ValueModel::Boolean(true))
        } else if text == boolean_text(false) {
            Some(ValueModel::Boolean(false))
        } else {
            None
        },
        TypeModel::Array(element, _) => literal_value(text, *element),
        _ => None,
    }
}

/// What the text of a number reads as beside a peer: under the peer's type, if the
/// peer is of a primitive class.
pub open spec fn literal_beside(text: Seq<char>, peer: ValueModel) -> Option<ValueModel> {
    match peer.primitive_type() {
        Some(expected) => literal_value(text, expected),
        None => None,
    }
}

/// What the values of a vector stand for.
pub open spec fn values_model(values: Vec<ConstrainedValue>) -> Seq<ValueModel>
    decreases values,
{
    Seq::new(
        values.len() as nat,
        |i: int|
            if 0 <= i < values.len() {
                values[i].model()
            } else {
                ValueModel::Boolean(false)
            },
    )
}

/// What the members of a vector stand for.
pub open spec fn members_model(members: Vec<ConstrainedCircuitMember>) -> Seq<MemberModel>
    decreases members,
{
    Seq::new(
        members.len() as nat,
        |i: int|
            if 0 <= i < members.len() {
                members[i].model()
            } else {
                MemberModel { name: Seq::empty(), value: ValueModel::Boolean(false) }
            },
    )
}

impl ConstrainedCircuitMember {
    /// What the member stands for.
    pub open spec fn model(self) -> MemberModel
        decreases self,
    {
        MemberModel { name: self.0@, value: self.1.model() }
    }
}

impl View for ConstrainedCircuitMember {
    type V = MemberModel;

    open spec fn view(&self) -> MemberModel {
        self.model()
    }
}

impl View for ConstrainedValue {
    type V = ValueModel;

    open spec fn view(&self) -> ValueModel {
        self.model()
    }
}

/// The name of the record that owns a function, if one does.
pub open spec fn owner_model(owner: Option<Identifier>) -> Option<Seq<char>> {
    match owner {
        Some(identifier) => Some(identifier@),
        None => None,
    }
}

impl ConstrainedValue {
    /// What the value stands for.
    pub open spec fn model(self) -> ValueModel
        decreases self,
    {
        match self {
            ConstrainedValue::Integer(integer) => ValueModel::Integer(integer),
            ConstrainedValue::FieldElement(element) => ValueModel::FieldElement(element),
            ConstrainedValue::GroupElement(element) => ValueModel::GroupElement(element),
            ConstrainedValue::Boolean(boolean) => ValueModel::Boolean(boolean),
            ConstrainedValue::Array(values) => ValueModel::Array(values_model(values)),
            ConstrainedValue::CircuitDefinition(circuit) => ValueModel::CircuitDefinition(circuit@),
            ConstrainedValue::CircuitExpression(identifier, members) => ValueModel::CircuitExpression(
                identifier@,
                members_model(members),
            ),
            ConstrainedValue::Function(owner, function) => ValueModel::Function(
                owner_model(owner),
                function@,
            ),
            ConstrainedValue::Return(values) => ValueModel::Return(values_model(values)),
            ConstrainedValue::Mutable(inner) => ValueModel::Mutable(Box::new(inner.model())),
            ConstrainedValue::Static(inner) => ValueModel::Static(Box::new(inner.model())),
            ConstrainedValue::Unresolved(text) => ValueModel::Unresolved(text@),
        }
    }

    /// A copy of the value.
    pub fn duplicate(&self) -> (r: ConstrainedValue)
        ensures
            r@ == self@,
        decreases self,
    {
        match self {
            ConstrainedValue::Integer(integer) => ConstrainedValue::Integer(*integer),
            ConstrainedValue::FieldElement(element) => ConstrainedValue::FieldElement(*element),
            ConstrainedValue::GroupElement(element) => ConstrainedValue::GroupElement(*element),
            ConstrainedValue::Boolean(boolean) => ConstrainedValue::Boolean(*boolean),
            ConstrainedValue::Array(values) => ConstrainedValue::Array(duplicate_values(values)),
            ConstrainedValue::CircuitDefinition(circuit) => ConstrainedValue::CircuitDefinition(
                circuit.duplicate(),
            ),
            ConstrainedValue::CircuitExpression(identifier, members) => {
                let mut copy: Vec<ConstrainedCircuitMember> = Vec::new();
                let mut i: usize = 0;
                while i < members.len()
                    invariant
                        self is CircuitExpression,
                        self->CircuitExpression_1 == *members,
                        i <= members.len(),
                        copy.len() == i,
                        forall|j: int| 0 <= j < i ==> copy[j]@ == members[j]@,
                    decreases members.len() - i,
                {
                    let member = &members[i];
                    copy.push(ConstrainedCircuitMember(member.0.duplicate(), member.1.duplicate()));
                    i = i + 1;
                }
                assert(members_model(copy) =~= members_model(*members));
                ConstrainedValue::CircuitExpression(identifier.duplicate(), copy)
            },
            ConstrainedValue::Function(owner, function) => {
                let owner = match owner {
                    Some(identifier) => Some(identifier.duplicate()),
                    None => None,
                };
                ConstrainedValue::Function(owner, function.duplicate())
            },
            ConstrainedValue::Return(values) => ConstrainedValue::Return(duplicate_values(values)),
            ConstrainedValue::Mutable(inner) => ConstrainedValue::Mutable(
                Box::new(inner.duplicate()),
            ),
            ConstrainedValue::Static(inner) => ConstrainedValue::Static(Box::new(inner.duplicate())),
            ConstrainedValue::Unresolved(text) => ConstrainedValue::Unresolved(text.clone()),
        }
    }

    /// Writes the value as it stands in a message.
    pub fn to_text(&self) -> (r: String)
        ensures
            r@ == self@.text(),
        decreases self,
    {
        proof {
            reveal_strlit("true");
            reveal_strlit("false");
            reveal_strlit("[");
            reveal_strlit("]");
            reveal_strlit("circuit ");
            reveal_strlit(" {");
            reveal_strlit("}");
            reveal_strlit("function ");
            reveal_strlit("return [");
            reveal_strlit("mut ");
            reveal_strlit("static ");
            reveal_strlit("unresolved ");
        }
        match self {
            ConstrainedValue::Integer(integer) => integer.to_text(),
            ConstrainedValue::FieldElement(element) => element.to_text(),
            ConstrainedValue::GroupElement(element) => element.to_text(),
            ConstrainedValue::Boolean(boolean) => {
                let r = if *boolean {
                    String::from_str("true")
                } else {
                    String::from_str("false")
                };
                assert(r@ =~= self@.text());
                r
            },
            ConstrainedValue::Array(values) => {
                let mut r = String::from_str("[");
                let inner = values_to_text(values);
                r.append(inner.as_str());
                r.append("]");
                assert(r@ =~= self@.text());
                r
            },
            ConstrainedValue::CircuitDefinition(circuit) => {
                let mut r = String::from_str("circuit ");
                r.append(circuit.identifier.name.as_str());
                assert(r@ =~= self@.text());
                r
            },
            ConstrainedValue::CircuitExpression(identifier, members) => {
                let mut r = identifier.name.clone();
                r.append(" {");
                let inner = members_to_text(members);
                r.append(inner.as_str());
                r.append("}");
                assert(r@ =~= self@.text());
                r
            },
            ConstrainedValue::Function(_, function) => {
                let mut r = String::from_str("function ");
                r.append(function.function_name.name.as_str());
                assert(r@ =~= self@.text());
                r
            },
            ConstrainedValue::Return(values) => {
                let mut r = String::from_str("return [");
                let inner = values_to_text(values);
                r.append(inner.as_str());
                r.append("]");
                assert(r@ =~= self@.text());
                r
            },
            ConstrainedValue::Mutable(inner) => {
                let mut r = String::from_str("mut ");
                let text = inner.to_text();
                r.append(text.as_str());
                assert(r@ =~= self@.text());
                r
            },
            ConstrainedValue::Static(inner) => {
                let mut r = String::from_str("static ");
                let text = inner.to_text();
                r.append(text.as_str());
                assert(r@ =~= self@.text());
                r
            },
            ConstrainedValue::Unresolved(text) => {
                let mut r = String::from_str("unresolved ");
                r.append(text.as_str());
                assert(r@ =~= self@.text());
                r
            },
        }
    }

    /// Takes off the wrappers that mark the value as assignable.
    pub fn unwrap_mutable(self) -> (r: ConstrainedValue)
        ensures
            r@ == self@.unwrapped(),
        decreases self,
    {
        match self {
            ConstrainedValue::Mutable(inner) => (*inner).unwrap_mutable(),
            value => value,
        }
    }

    /// The type of a value of one of the four primitive classes.
    pub fn to_type(&self) -> (r: Option<Type>)
        ensures
            match self@.primitive_type() {
                Some(expected) => r matches Some(found) && found@ == expected,
                None => r is None,
            },
    {
        match self {
            ConstrainedValue::Integer(integer) => Some(Type::IntegerType(integer.integer_type)),
            ConstrainedValue::FieldElement(_) => Some(Type::FieldElement),
            ConstrainedValue::GroupElement(_) => Some(Type::GroupElement),
            ConstrainedValue::Boolean(_) => Some(Type::Boolean),
            _ => None,
        }
    }

    /// Reads the text of a number under a type.
    pub fn from_type(text: &str, expected: &Type) -> (r: Option<ConstrainedValue>)
        ensures
            match literal_value(text@, expected@) {
                Some(value) => r matches Some(found) && found@ == value,
                None => r is None,
            },
        decreases expected,
    {
        match expected {
            Type::IntegerType(integer_type) => {
                match parse_number(text, integer_type.max()) {
                    Some(value) => Some(
                        ConstrainedValue::Integer(Integer { integer_type: *integer_type, value }),
                    ),
                    None => None,
                }
            },
            Type::FieldElement => {
                match parse_number(text, (MODULUS - 1) as u128) {
                    Some(value) => Some(
                        ConstrainedValue::FieldElement(FieldElement { value: value as u64 }),
                    ),
                    None => None,
                }
            },
            Type::Boolean => {
                proof {
                    reveal_strlit("true");
                    reveal_strlit("false");
                    assert("true"@ =~= boolean_text(true));
                    assert("false"@ =~= boolean_text(false));
                }
                let text = String::from_str(text);
                if text == String::from_str("true") {
                    Some(ConstrainedValue::Boolean(true))
                } else if text == String::from_str("false") {
                    Some(ConstrainedValue::Boolean(false))
                } else {
                    None
                }
            },
            Type::Array(element, _) => ConstrainedValue::from_type(text, element),
            _ => None,
        }
    }

    /// Reads the text of a number under the type of a peer.
    pub fn from_other(text: &str, peer: &ConstrainedValue) -> (r: Option<ConstrainedValue>)
        ensures
            match literal_beside(text@, peer@) {
                Some(value) => r matches Some(found) && found@ == value,
                None => r is None,
            },
    {
        match peer.to_type() {
            Some(expected) => ConstrainedValue::from_type(text, &expected),
            None => None,
        }
    }
}

/// Writes several values: one after the other, with `, ` between them.
pub fn values_to_text(values: &Vec<ConstrainedValue>) -> (r: String)
    ensures
        r@ == values_text(values_model(*values)),
    decreases values,
{
    let ghost model = values_model(*values);
    let mut r = String::new();
    let mut i: usize = 0;
    assert(model.take(0) =~= Seq::<ValueModel>::empty());
    while i < values.len()
        invariant
            model == values_model(*values),
            i <= values.len(),
            r@ == values_text(model.take(i as int)),
        decreases values.len() - i,
    {
        if i > 0 {
            r.append(", ");
        }
        let text = values[i].to_text();
        r.append(text.as_str());
        proof {
            reveal_strlit(", ");
            let next = model.take(i + 1);
            assert(next.drop_last() =~= model.take(i as int));
            assert(next.last() == values[i as int]@);
            if i == 0 {
                assert(r@ =~= values_text(next));
            } else {
                assert(values_text(next) == values_text(next.drop_last()) + seq![',', ' ']
                    + next.last().text());
                assert(r@ =~= values_text(next));
            }
        }
        i = i + 1;
    }
    assert(model.take(values.len() as int) =~= model);
    r
}

/// Writes the members of a record: `name: value`, with `, ` between them.
pub fn members_to_text(members: &Vec<ConstrainedCircuitMember>) -> (r: String)
    ensures
        r@ == members_text(members_model(*members)),
    decreases members,
{
    let ghost model = members_model(*members);
    let mut r = String::new();
    let mut i: usize = 0;
    assert(model.take(0) =~= Seq::<MemberModel>::empty());
    while i < members.len()
        invariant
            model == members_model(*members),
            i <= members.len(),
            r@ == members_text(model.take(i as int)),
        decreases members.len() - i,
    {
        if i > 0 {
            r.append(", ");
        }
        let member = &members[i];
        r.append(member.0.name.as_str());
        r.append(": ");
        let text = member.1.to_text();
        r.append(text.as_str());
        proof {
            reveal_strlit(", ");
            reveal_strlit(": ");
            let next = model.take(i + 1);
            assert(next.drop_last() =~= model.take(i as int));
            assert(next.last() == members[i as int]@);
            if i == 0 {
                assert(r@ =~= members_text(next));
            } else {
                assert(members_text(next) == members_text(next.drop_last()) + seq![',', ' ']
                    + next.last().name + seq![':', ' '] + next.last().value.text());
                assert(r@ =~= members_text(next));
            }
        }
        i = i + 1;
    }
    assert(model.take(members.len() as int) =~= model);
    r
}

/// A copy of each value.
pub fn duplicate_values(values: &Vec<ConstrainedValue>) -> (r: Vec<ConstrainedValue>)
    ensures
        values_model(r) == values_model(*values),
    decreases values,
{
    let mut copy: Vec<ConstrainedValue> = Vec::new();
    let mut i: usize = 0;
    while i < values.len()
        invariant
            i <= values.len(),
            copy.len() == i,
            forall|j: int| 0 <= j < i ==> copy[j]@ == values[j]@,
        decreases values.len() - i,
    {
        copy.push(values[i].duplicate());
        i = i + 1;
    }
    assert(values_model(copy) =~= values_model(*values));
    copy
}

} // verus!
