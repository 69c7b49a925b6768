//! Records: their types, their members and the access to them.
use vstd::prelude::*;
use crate::ast::BindingModel;
use crate::ast::CircuitFieldDefinition;
use crate::ast::bindings_model;
use crate::errors::ExpressionError;
use crate::operators::result_model;
use crate::program::ConstrainedProgram;
use crate::semantics::circuit_path;
use crate::semantics::fields_bound;
use crate::semantics::first_binding;
use crate::semantics::first_function;
use crate::semantics::first_member;
use crate::semantics::function_member;
use crate::semantics::member_accessed;
use crate::semantics::record_parts;
use crate::semantics::scopes;
use crate::semantics::static_accessed;
use crate::text::new_scope;
use crate::types::Circuit;
use crate::types::CircuitMember;
use crate::types::CircuitMemberModel;
use crate::types::Function;
use crate::types::Identifier;
use crate::value::ConstrainedCircuitMember;
use crate::value::ConstrainedValue;
use crate::value::MemberModel;
use crate::value::ValueModel;
use crate::value::members_model;

verus! {

/// Where no binding before `index` has the name, the first binding of the name is
/// the one at `index` if that has it, and there is none if `index` is the end.
proof fn lemma_first_binding(bindings: Seq<BindingModel>, name: Seq<char>, index: int)
    requires
        0 <= index <= bindings.len(),
        forall|j: int| 0 <= j < index ==> (#[trigger] bindings[j]).name != name,
    ensures
        index < bindings.len() && bindings[index].name == name ==> first_binding(bindings, name)
            == Some(index),
        index == bindings.len() ==> first_binding(bindings, name) is None,
    decreases index,
{
    if index > 0 {
        let rest = bindings.drop_first();
        assert forall|j: int| 0 <= j < index - 1 implies (#[trigger] rest[j]).name != name by {
            assert(rest[j] == bindings[j + 1]);
        }
        lemma_first_binding(rest, name, index - 1);
        if index < bindings.len() {
            assert(rest[index - 1] == bindings[index]);
        }
    }
}

/// The same for the members of a record.
proof fn lemma_first_member(members: Seq<MemberModel>, name: Seq<char>, index: int)
    requires
        0 <= index <= members.len(),
        forall|j: int| 0 <= j < index ==> (#[trigger] members[j]).name != name,
    ensures
        index < members.len() && members[index].name == name ==> first_member(members, name)
            == Some(index),
        index == members.len() ==> first_member(members, name) is None,
    decreases index,
{
    if index > 0 {
        let rest = members.drop_first();
        assert forall|j: int| 0 <= j < index - 1 implies (#[trigger] rest[j]).name != name by {
            assert(rest[j] == members[j + 1]);
        }
        lemma_first_member(rest, name, index - 1);
        if index < members.len() {
            assert(rest[index - 1] == members[index]);
        }
    }
}

/// Whether a member of a record type is a function of the given name.
pub open spec fn is_function_named(member: CircuitMemberModel, name: Seq<char>) -> bool {
    member matches CircuitMemberModel::CircuitFunction(_, function) && function.name == name
}

/// The same for the functions of a record type.
proof fn lemma_first_function(members: Seq<CircuitMemberModel>, name: Seq<char>, index: int)
    requires
        0 <= index <= members.len(),
        forall|j: int| 0 <= j < index ==> !is_function_named(#[trigger] members[j], name),
    ensures
        index < members.len() && is_function_named(members[index], name) ==> first_function(
            members,
            name,
        ) == Some(index),
        index == members.len() ==> first_function(members, name) is None,
    decreases index,
{
    if index > 0 {
        let rest = members.drop_first();
        assert forall|j: int| 0 <= j < index - 1 implies !is_function_named(
            #[trigger] rest[j],
            name,
        ) by {
            assert(rest[j] == members[j + 1]);
        }
        lemma_first_function(rest, name, index - 1);
        if index < members.len() {
            assert(rest[index - 1] == members[index]);
        }
    }
}

/// The position of the first binding of a field.
pub fn find_binding(bindings: &Vec<CircuitFieldDefinition>, name: &Identifier) -> (r: Option<usize>)
    ensures
        match first_binding(bindings_model(*bindings), name@) {
            Some(index) => r == Some(index as usize) && 0 <= index < bindings.len(),
            None => r is None,
        },
{
    let ghost model = bindings_model(*bindings);
    let mut i: usize = 0;
    while i < bindings.len()
        invariant
            i <= bindings.len(),
            model == bindings_model(*bindings),
            forall|j: int| 0 <= j < i ==> (#[trigger] model[j]).name != name@,
        decreases bindings.len() - i,
    {
        assert(model[i as int] == bindings[i as int]@);
        if bindings[i].identifier.equals(name) {
            proof {
                lemma_first_binding(model, name@, i as int);
            }
            return Some(i);
        }
        i = i + 1;
    }
    proof {
        lemma_first_binding(model, name@, i as int);
    }
    None
}

/// The position of the first member of a record with the given name.
pub fn find_member(members: &Vec<ConstrainedCircuitMember>, name: &Identifier) -> (r: Option<usize>)
    ensures
        match first_member(members_model(*members), name@) {
            Some(index) => r == Some(index as usize) && 0 <= index < members.len(),
            None => r is None,
        },
{
    let ghost model = members_model(*members);
    let mut i: usize = 0;
    while i < members.len()
        invariant
            i <= members.len(),
            model == members_model(*members),
            forall|j: int| 0 <= j < i ==> (#[trigger] model[j]).name != name@,
        decreases members.len() - i,
    {
        assert(model[i as int] == members[i as int]@);
        if members[i].0.equals(name) {
            proof {
                lemma_first_member(model, name@, i as int);
            }
            return Some(i);
        }
        i = i + 1;
    }
    proof {
        lemma_first_member(model, name@, i as int);
    }
    None
}

/// The position of the first function of a record type with the given name.
pub fn find_function(circuit: &Circuit, name: &Identifier) -> (r: Option<usize>)
    ensures
        match first_function(circuit@.members, name@) {
            Some(index) => r == Some(index as usize) && 0 <= index < circuit.members.len()
                && is_function_named(circuit@.members[index], name@),
            None => r is None,
        },
{
    let ghost model = circuit@.members;
    let mut i: usize = 0;
    while i < circuit.members.len()
        invariant
            i <= circuit.members.len(),
            model == circuit@.members,
            forall|j: int| 0 <= j < i ==> !is_function_named(#[trigger] model[j], name@),
        decreases circuit.members.len() - i,
    {
        assert(model[i as int] == circuit.members[i as int]@);
        let found = match &circuit.members[i] {
            CircuitMember::CircuitFunction(_, function) => function.function_name.equals(name),
            _ => false,
        };
        if found {
            proof {
                lemma_first_function(model, name@, i as int);
            }
            return Some(i);
        }
        i = i + 1;
    }
    proof {
        lemma_first_function(model, name@, i as int);
    }
    None
}

/// The member that a function of a record type becomes in a record.
pub fn member_of_function(circuit: &Identifier, is_static: bool, function: &Function) -> (r:
    ConstrainedCircuitMember)
    ensures
        r@ == function_member(circuit@, is_static, function@),
{
    let value = ConstrainedValue::Function(Some(circuit.duplicate()), function.duplicate());
    let value = if is_static {
        ConstrainedValue::Static(Box::new(value))
    } else {
        value
    };
    ConstrainedCircuitMember(function.function_name.duplicate(), value)
}

/// The name and the members of a record value, assignable or not.
pub fn record_of(value: ConstrainedValue) -> (r: Result<
    (Identifier, Vec<ConstrainedCircuitMember>),
    ExpressionError,
>)
    ensures
        match record_parts(value@) {
            Ok(parts) => r matches Ok(found) && found.0@ == parts.0 && members_model(found.1)
                == parts.1,
            Err(error) => r matches Err(found) && found@ == error,
        },
{
    match value {
        ConstrainedValue::CircuitExpression(name, members) => {
            assert(value@ == ValueModel::CircuitExpression(name@, members_model(members)));
            Ok((name, members))
        },
        ConstrainedValue::Mutable(inner) => {
            assert(value@ == ValueModel::Mutable(Box::new(inner@)));
            match *inner {
                ConstrainedValue::CircuitExpression(name, members) => {
                    assert(inner@ == ValueModel::CircuitExpression(name@, members_model(members)));
                    Ok((name, members))
                },
                other => {
                    assert(other@ == inner@);
                    Err(ExpressionError::InvalidCircuitAccess(other.to_text()))
                },
            }
        },
        other => {
            assert(other@ == value@);
            Err(ExpressionError::InvalidCircuitAccess(other.to_text()))
        },
    }
}

/// The static function of a record type that has the given name.
pub fn access_static(value: ConstrainedValue, member: &Identifier) -> (r: Result<
    ConstrainedValue,
    ExpressionError,
>)
    ensures
        result_model(r) == static_accessed(value@, member@),
{
    match value {
        ConstrainedValue::CircuitDefinition(circuit) => {
            assert(value@ == ValueModel::CircuitDefinition(circuit@));
            match find_function(&circuit, member) {
                Some(index) => {
                    assert(circuit@.members[index as int] == circuit.members[index as int]@);
                    match &circuit.members[index] {
                        CircuitMember::CircuitFunction(is_static, function) => {
                            if *is_static {
                                Ok(
                                    ConstrainedValue::Function(
                                        Some(circuit.identifier.duplicate()),
                                        function.duplicate(),
                                    ),
                                )
                            } else {
                                Err(
                                    ExpressionError::InvalidStaticFunction(
                                        function.function_name.name.clone(),
                                    ),
                                )
                            }
                        },
                        _ => Err(
                            ExpressionError::UndefinedStaticFunction(
                                circuit.identifier.name.clone(),
                                member.name.clone(),
                            ),
                        ),
                    }
                },
                None => Err(
                    ExpressionError::UndefinedStaticFunction(
                        circuit.identifier.name.clone(),
                        member.name.clone(),
                    ),
                ),
            }
        },
        other => {
            assert(other@ == value@);
            Err(ExpressionError::InvalidCircuitAccess(other.to_text()))
        },
    }
}

impl ConstrainedProgram {
    /// A copy of the record type that a record expression names, if it names one.
    pub fn circuit_named(&self, file_scope: &str, function_scope: &str, identifier: &Identifier) -> (r:
        Option<Circuit>)
        ensures
            ({
                let path = circuit_path(scopes(file_scope@, function_scope@), identifier@);
                if self@.contains_key(path) && self@[path] is CircuitDefinition {
                    r matches Some(circuit) && circuit@ == self@[path]->CircuitDefinition_0
                } else {
                    r is None
                }
            }),
    {
        let path = if identifier.is_self() {
            String::from_str(file_scope)
        } else {
            new_scope(file_scope, identifier.name.as_str())
        };
        match self.get(path.as_str()) {
            Some(value) => match value {
                ConstrainedValue::CircuitDefinition(circuit) => Some(circuit.duplicate()),
                _ => None,
            },
            None => None,
        }
    }

    /// Binds the fields of a record below `scope`, in the order of the members.
    pub fn bind_fields(&mut self, scope: &str, members: &Vec<ConstrainedCircuitMember>)
        ensures
            final(self)@ == fields_bound(
                old(self)@,
                scope@,
                members_model(*members),
                members.len() as nat,
            ),
            old(self).wf() ==> final(self).wf(),
    {
        let ghost model = members_model(*members);
        let ghost before = self@;
        let mut i: usize = 0;
        while i < members.len()
            invariant
                i <= members.len(),
                model == members_model(*members),
                self@ == fields_bound(before, scope@, model, i as nat),
                old(self).wf() ==> self.wf(),
            decreases members.len() - i,
        {
            assert(model[i as int] == members[i as int]@);
            let member = &members[i];
            match &member.1 {
                ConstrainedValue::Function(_, _) => {},
                ConstrainedValue::Static(_) => {},
                value => {
                    let path = new_scope(scope, member.0.name.as_str());
                    self.store(path, value.duplicate());
                },
            }
            i = i + 1;
        }
    }

    /// The access to a member of a record.
    pub fn access_member(
        &mut self,
        file_scope: &str,
        function_scope: &str,
        value: ConstrainedValue,
        member: &Identifier,
    ) -> (result: Result<ConstrainedValue, ExpressionError>)
        ensures
            (final(self)@, result_model(result)) == member_accessed(
                old(self)@,
                scopes(file_scope@, function_scope@),
                value@,
                member@,
            ),
            old(self).wf() ==> final(self).wf(),
    {
        let (circuit, members) = record_of(value)?;
        match find_member(&members, member) {
            None => Err(ExpressionError::UndefinedCircuitObject(member.name.clone())),
            Some(index) => {
                assert(members_model(members)[index as int] == members[index as int]@);
                let found = &members[index];
                match &found.1 {
                    ConstrainedValue::Function(_, _) => {
                        let circuit_scope = new_scope(file_scope, circuit.name.as_str());
                        let scope = new_scope(circuit_scope.as_str(), found.0.name.as_str());
                        self.bind_fields(scope.as_str(), &members);
                    },
                    _ => {},
                }
                Ok(found.1.duplicate())
            },
        }
    }
}

} // verus!
