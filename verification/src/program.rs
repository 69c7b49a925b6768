//! The scope store of a program under evaluation, and the hook that runs function bodies.
use vstd::prelude::*;
use crate::ast::Expression;
use crate::constraint_system::ConstraintSystem;
use crate::errors::FunctionError;
use crate::semantics::Invocation;
use crate::types::Function;
use crate::value::ConstrainedValue;
use crate::value::ValueModel;

verus! {

/// A value bound under a scope path.
#[derive(Debug, PartialEq, Eq)]
pub struct Binding {
    pub name: String,
    pub value: ConstrainedValue,
}

/// The scope store: what is bound under each scope path.
///
/// File scope, function scope and the scope of a record's method differ only by the
/// paths under which they bind. A path is bound to at most one value at a time:
/// storing under a bound path replaces what was there.
#[derive(Debug, PartialEq, Eq)]
pub struct ConstrainedProgram {
    bindings: Vec<Binding>,
}

/// The map that a list of bindings stands for. Of two bindings of one path the
/// earlier one counts.
pub open spec fn bindings_map(bindings: Seq<(Seq<char>, ValueModel)>) -> Map<Seq<char>, ValueModel>
    decreases bindings.len(),
{
    if bindings.len() == 0 {
        Map::empty()
    } else {
        bindings_map(bindings.drop_first()).insert(bindings[0].0, bindings[0].1)
    }
}

spec fn bindings_model(bindings: Seq<Binding>) -> Seq<(Seq<char>, ValueModel)> {
    Seq::new(bindings.len(), |i: int| (bindings[i].name@, bindings[i].value@))
}

impl View for ConstrainedProgram {
    type V = Map<Seq<char>, ValueModel>;

    closed spec fn view(&self) -> Map<Seq<char>, ValueModel> {
        bindings_map(bindings_model(self.bindings@))
    }
}

/// A path that no binding before `index` has is looked up in the bindings from `index` on.
proof fn lemma_lookup_skips(bindings: Seq<(Seq<char>, ValueModel)>, index: int, path: Seq<char>)
    requires
        0 <= index <= bindings.len(),
        forall|j: int| 0 <= j < index ==> (#[trigger] bindings[j]).0 != path,
    ensures
        bindings_map(bindings).contains_key(path) == bindings_map(bindings.skip(index)).contains_key(
            path,
        ),
        bindings_map(bindings).contains_key(path) ==> bindings_map(bindings)[path] == bindings_map(
            bindings.skip(index),
        )[path],
    decreases index,
{
    if index == 0 {
        assert(bindings.skip(0) =~= bindings);
    } else {
        lemma_lookup_skips(bindings.drop_first(), index - 1, path);
        assert(bindings.drop_first().skip(index - 1) =~= bindings.skip(index));
    }
}

/// Replacing the value of the first binding of a path is an insertion into the map.
proof fn lemma_replace_first(
    bindings: Seq<(Seq<char>, ValueModel)>,
    index: int,
    path: Seq<char>,
    value: ValueModel,
)
    requires
        0 <= index < bindings.len(),
        bindings[index].0 == path,
        forall|j: int| 0 <= j < index ==> (#[trigger] bindings[j]).0 != path,
    ensures
        bindings_map(bindings.update(index, (path, value))) == bindings_map(bindings).insert(
            path,
            value,
        ),
    decreases index,
{
    let updated = bindings.update(index, (path, value));
    if index == 0 {
        assert(updated.drop_first() =~= bindings.drop_first());
    } else {
        lemma_replace_first(bindings.drop_first(), index - 1, path, value);
        assert(updated.drop_first() =~= bindings.drop_first().update(index - 1, (path, value)));
    }
}

/// Appending a binding of a path that is not bound yet is an insertion into the map.
proof fn lemma_append_new(bindings: Seq<(Seq<char>, ValueModel)>, path: Seq<char>, value: ValueModel)
    requires
        forall|j: int| 0 <= j < bindings.len() ==> (#[trigger] bindings[j]).0 != path,
    ensures
        bindings_map(bindings.push((path, value))) == bindings_map(bindings).insert(path, value),
    decreases bindings.len(),
{
    let appended = bindings.push((path, value));
    if bindings.len() == 0 {
        assert(appended.drop_first() =~= bindings);
    } else {
        lemma_append_new(bindings.drop_first(), path, value);
        assert(appended.drop_first() =~= bindings.drop_first().push((path, value)));
    }
}

impl ConstrainedProgram {
    /// Whether no path is bound twice.
    pub closed spec fn wf(&self) -> bool {
        forall|i: int, j: int|
            0 <= i < j < self.bindings.len() ==> (#[trigger] self.bindings[i]).name@
                != (#[trigger] self.bindings[j]).name@
    }

    /// A program in which nothing is bound.
    pub fn new() -> (r: ConstrainedProgram)
        ensures
            r@ == Map::<Seq<char>, ValueModel>::empty(),
            r.wf(),
    {
        let r = ConstrainedProgram { bindings: Vec::new() };
        r
    }

    /// The position of the first binding of `path`.
    fn position(&self, path: &str) -> (r: Option<usize>)
        ensures
            match r {
                Some(index) => index < self.bindings.len() && self.bindings[index as int].name@
                    == path@ && forall|j: int|
                    0 <= j < index ==> (#[trigger] self.bindings[j]).name@ != path@,
                None => forall|j: int|
                    0 <= j < self.bindings.len() ==> (#[trigger] self.bindings[j]).name@ != path@,
            },
    {
        let wanted = String::from_str(path);
        let mut i: usize = 0;
        while i < self.bindings.len()
            invariant
                i <= self.bindings.len(),
                wanted@ == path@,
                forall|j: int| 0 <= j < i ==> (#[trigger] self.bindings[j]).name@ != path@,
            decreases self.bindings.len() - i,
        {
            if self.bindings[i].name == wanted {
                return Some(i);
            }
            i = i + 1;
        }
        None
    }

    /// The value bound under `path`, if one is.
    pub fn get(&self, path: &str) -> (r: Option<&ConstrainedValue>)
        ensures
            match r {
                Some(value) => self@.contains_key(path@) && self@[path@] == value@,
                None => !self@.contains_key(path@),
            },
    {
        let ghost model = bindings_model(self.bindings@);
        match self.position(path) {
            Some(index) => {
                proof {
                    lemma_lookup_skips(model, index as int, path@);
                }
                Some(&self.bindings[index].value)
            },
            None => {
                proof {
                    lemma_lookup_skips(model, model.len() as int, path@);
                }
                None
            },
        }
    }

    /// Binds `value` under `path`, in place of what was bound there.
    pub fn store(&mut self, path: String, value: ConstrainedValue)
        ensures
            final(self)@ == old(self)@.insert(path@, value@),
            old(self).wf() ==> final(self).wf(),
    {
        let ghost model = bindings_model(self.bindings@);
        match self.position(path.as_str()) {
            Some(index) => {
                proof {
                    lemma_replace_first(model, index as int, path@, value@);
                }
                self.bindings.set(index, Binding { name: path, value });
                assert(bindings_model(self.bindings@) =~= model.update(
                    index as int,
                    (path@, value@),
                ));
            },
            None => {
                proof {
                    lemma_append_new(model, path@, value@);
                }
                self.bindings.push(Binding { name: path, value });
                assert(bindings_model(self.bindings@) =~= model.push((path@, value@)));
            },
        }
    }
}

/// The calls of functions that evaluations made, in their order.
///
/// It serves the contracts only: what an evaluation is worth is stated for the calls
/// that it made. At run time it holds nothing.
pub struct Invocations {
    calls: Ghost<Seq<Invocation>>,
}

impl View for Invocations {
    type V = Seq<Invocation>;

    closed spec fn view(&self) -> Seq<Invocation> {
        self.calls@
    }
}

impl Invocations {
    /// No call was made yet.
    pub fn new() -> (r: Invocations)
        ensures
            r@ == Seq::<Invocation>::empty(),
    {
        Invocations { calls: Ghost(Seq::empty()) }
    }

    /// Notes the call that was just made.
    pub(crate) fn record(&mut self, call: Ghost<Invocation>)
        ensures
            final(self)@ == old(self)@.push(call@),
    {
        proof {
            self.calls@ = self.calls@.push(call@);
        }
    }
}

/// Whoever runs the body of a function.
///
/// The body may evaluate expressions, bind variables and enforce constraints as it
/// goes. It succeeds with a [`ConstrainedValue::Return`].
pub trait FunctionInvoker {
    /// Runs `function` on `arguments`. The function is looked up and its variables
    /// are bound below `outer_scope`; the arguments are evaluated in `function_scope`,
    /// the scope of the caller.
    fn invoke_function(
        &mut self,
        program: &mut ConstrainedProgram,
        cs: &mut ConstraintSystem,
        outer_scope: &str,
        function_scope: &str,
        function: &Function,
        arguments: &Vec<Expression>,
    ) -> Result<ConstrainedValue, FunctionError>;
}

} // verus!
