//! The expression tree.
use vstd::prelude::*;
use crate::field::FieldElement;
use crate::group::GroupElement;
use crate::integer::Integer;
use crate::types::Identifier;
use crate::value::boolean_text;

verus! {

/// An expression of the language, as the parser and the resolver leave it.
#[derive(Debug, PartialEq, Eq)]
pub enum Expression {
    Identifier(Identifier),
    Integer(Integer),
    FieldElement(FieldElement),
    GroupElement(GroupElement),
    Boolean(bool),
    /// A number whose type is not written down.
    Implicit(String),
    Add(Box<Expression>, Box<Expression>),
    Sub(Box<Expression>, Box<Expression>),
    Mul(Box<Expression>, Box<Expression>),
    Div(Box<Expression>, Box<Expression>),
    Pow(Box<Expression>, Box<Expression>),
    Not(Box<Expression>),
    Or(Box<Expression>, Box<Expression>),
    And(Box<Expression>, Box<Expression>),
    Eq(Box<Expression>, Box<Expression>),
    Geq(Box<Expression>, Box<Expression>),
    Gt(Box<Expression>, Box<Expression>),
    Leq(Box<Expression>, Box<Expression>),
    Lt(Box<Expression>, Box<Expression>),
    IfElse(Box<Expression>, Box<Expression>, Box<Expression>),
    Array(Vec<SpreadOrExpression>),
    ArrayAccess(Box<Expression>, Box<RangeOrExpression>),
    Circuit(Identifier, Vec<CircuitFieldDefinition>),
    CircuitMemberAccess(Box<Expression>, Identifier),
    CircuitStaticFunctionAccess(Box<Expression>, Identifier),
    FunctionCall(Box<Expression>, Vec<Expression>),
}

/// An element of an array expression: the elements of a named array, or one expression.
#[derive(Debug, PartialEq, Eq)]
pub enum SpreadOrExpression {
    Spread(Identifier),
    Expression(Expression),
}

/// What stands between the brackets of an array access: a range or one index.
#[derive(Debug, PartialEq, Eq)]
pub enum RangeOrExpression {
    Range(Option<Integer>, Option<Integer>),
    Expression(Expression),
}

/// A field of a record expression: the field's name and the expression bound to it.
#[derive(Debug, PartialEq, Eq)]
pub struct CircuitFieldDefinition {
    pub identifier: Identifier,
    pub expression: Expression,
}

/// The operators that take two operands.
#[derive(Clone, Copy, PartialEq, Eq, Debug, Structural)]
pub enum BinaryOperator {
    Add,
    Sub,
    Mul,
    Div,
    Pow,
    Or,
    And,
    Eq,
    Geq,
    Gt,
    Leq,
    Lt,
}

/// What an [`Expression`] stands for.
pub enum ExpressionModel {
    Identifier(Seq<char>),
    Integer(Integer),
    FieldElement(FieldElement),
    GroupElement(GroupElement),
    Boolean(bool),
    Implicit(Seq<char>),
    Binary(BinaryOperator, Box<ExpressionModel>, Box<ExpressionModel>),
    Not(Box<ExpressionModel>),
    IfElse(Box<ExpressionModel>, Box<ExpressionModel>, Box<ExpressionModel>),
    Array(Seq<ElementModel>),
    ArrayAccess(Box<ExpressionModel>, Box<IndexModel>),
    Circuit(Seq<char>, Seq<BindingModel>),
    CircuitMemberAccess(Box<ExpressionModel>, Seq<char>),
    CircuitStaticFunctionAccess(Box<ExpressionModel>, Seq<char>),
    FunctionCall(Box<ExpressionModel>, Seq<ExpressionModel>),
}

/// What a [`SpreadOrExpression`] stands for.
pub enum ElementModel {
    Spread(Seq<char>),
    Expression(ExpressionModel),
}

/// What a [`RangeOrExpression`] stands for.
pub enum IndexModel {
    Range(Option<Integer>, Option<Integer>),
    Expression(ExpressionModel),
}

/// What a [`CircuitFieldDefinition`] stands for.
pub struct BindingModel {
    pub name: Seq<char>,
    pub expression: ExpressionModel,
}

impl Expression {
    /// What the expression stands for.
    pub open spec fn model(self) -> ExpressionModel
        decreases self,
    {
        match self {
            Expression::Identifier(identifier) => ExpressionModel::Identifier(identifier@),
            Expression::Integer(integer) => ExpressionModel::Integer(integer),
            Expression::FieldElement(element) => ExpressionModel::FieldElement(element),
            Expression::GroupElement(element) => ExpressionModel::GroupElement(element),
            Expression::Boolean(boolean) => ExpressionModel::Boolean(boolean),
            Expression::Implicit(text) => ExpressionModel::Implicit(text@),
            Expression::Add(left, right) => ExpressionModel::Binary(
                BinaryOperator::Add,
                Box::new(left.model()),
                Box::new(right.model()),
            ),
            Expression::Sub(left, right) => ExpressionModel::Binary(
                BinaryOperator::Sub,
                Box::new(left.model()),
                Box::new(right.model()),
            ),
            Expression::Mul(left, right) => ExpressionModel::Binary(
                BinaryOperator::Mul,
                Box::new(left.model()),
                Box::new(right.model()),
            ),
            Expression::Div(left, right) => ExpressionModel::Binary(
                BinaryOperator::Div,
                Box::new(left.model()),
                Box::new(right.model()),
            ),
            Expression::Pow(left, right) => ExpressionModel::Binary(
                BinaryOperator::Pow,
                Box::new(left.model()),
                Box::new(right.model()),
            ),
            Expression::Not(inner) => ExpressionModel::Not(Box::new(inner.model())),
            Expression::Or(left, right) => ExpressionModel::Binary(
                BinaryOperator::Or,
                Box::new(left.model()),
                Box::new(right.model()),
            ),
            Expression::And(left, right) => ExpressionModel::Binary(
                BinaryOperator::And,
                Box::new(left.model()),
                Box::new(right.model()),
            ),
            Expression::Eq(left, right) => ExpressionModel::Binary(
                BinaryOperator::Eq,
                Box::new(left.model()),
                Box::new(right.model()),
            ),
            Expression::Geq(left, right) => ExpressionModel::Binary(
                BinaryOperator::Geq,
                Box::new(left.model()),
                Box::new(right.model()),
            ),
            Expression::Gt(left, right) => ExpressionModel::Binary(
                BinaryOperator::Gt,
                Box::new(left.model()),
                Box::new(right.model()),
            ),
            Expression::Leq(left, right) => ExpressionModel::Binary(
                BinaryOperator::Leq,
                Box::new(left.model()),
                Box::new(right.model()),
            ),
            Expression::Lt(left, right) => ExpressionModel::Binary(
                BinaryOperator::Lt,
                Box::new(left.model()),
                Box::new(right.model()),
            ),
            Expression::IfElse(first, second, third) => ExpressionModel::IfElse(
                Box::new(first.model()),
                Box::new(second.model()),
                Box::new(third.model()),
            ),
            Expression::Array(elements) => ExpressionModel::Array(elements_model(elements)),
            Expression::ArrayAccess(array, index) => ExpressionModel::ArrayAccess(
                Box::new(array.model()),
                Box::new(index.model()),
            ),
            Expression::Circuit(identifier, bindings) => ExpressionModel::Circuit(
                identifier@,
                bindings_model(bindings),
            ),
            Expression::CircuitMemberAccess(circuit, member) => ExpressionModel::CircuitMemberAccess(
                Box::new(circuit.model()),
                member@,
            ),
            Expression::CircuitStaticFunctionAccess(circuit, member) => ExpressionModel::CircuitStaticFunctionAccess(
                Box::new(circuit.model()),
                member@,
            ),
            Expression::FunctionCall(function, arguments) => ExpressionModel::FunctionCall(
                Box::new(function.model()),
                arguments_model(arguments),
            ),
        }
    }

    /// The number of nodes that an evaluation of the expression may visit.
    pub open spec fn size(self) -> nat
        decreases self, 0nat,
    {
        match self {
            Expression::Add(left, right) => 1 + left.size() + right.size(),
            Expression::Sub(left, right) => 1 + left.size() + right.size(),
            Expression::Mul(left, right) => 1 + left.size() + right.size(),
            Expression::Div(left, right) => 1 + left.size() + right.size(),
            Expression::Pow(left, right) => 1 + left.size() + right.size(),
            Expression::Not(inner) => 1 + inner.size(),
            Expression::Or(left, right) => 1 + left.size() + right.size(),
            Expression::And(left, right) => 1 + left.size() + right.size(),
            Expression::Eq(left, right) => 1 + left.size() + right.size(),
            Expression::Geq(left, right) => 1 + left.size() + right.size(),
            Expression::Gt(left, right) => 1 + left.size() + right.size(),
            Expression::Leq(left, right) => 1 + left.size() + right.size(),
            Expression::Lt(left, right) => 1 + left.size() + right.size(),
            Expression::IfElse(first, second, third) => 1 + first.size() + second.size()
                + third.size(),
            Expression::Array(elements) => 1 + elements_size(elements, elements.len() as nat),
            Expression::ArrayAccess(array, index) => 1 + array.size() + index.size(),
            Expression::Circuit(_, bindings) => 1 + bindings_size(bindings, bindings.len() as nat),
            Expression::CircuitMemberAccess(circuit, _) => 1 + circuit.size(),
            Expression::CircuitStaticFunctionAccess(circuit, _) => 1 + circuit.size(),
            Expression::FunctionCall(function, _) => 1 + function.size(),
            _ => 1,
        }
    }
}

impl SpreadOrExpression {
    /// What the element stands for.
    pub open spec fn model(self) -> ElementModel
        decreases self,
    {
        match self {
            SpreadOrExpression::Spread(identifier) => ElementModel::Spread(identifier@),
            SpreadOrExpression::Expression(expression) => ElementModel::Expression(
                expression.model(),
            ),
        }
    }

    /// The number of nodes that an evaluation of the element may visit.
    pub open spec fn size(self) -> nat
        decreases self, 0nat,
    {
        match self {
            SpreadOrExpression::Spread(_) => 1,
            SpreadOrExpression::Expression(expression) => 1 + expression.size(),
        }
    }
}

impl RangeOrExpression {
    /// What the index stands for.
    pub open spec fn model(self) -> IndexModel
        decreases self,
    {
        match self {
            RangeOrExpression::Range(from, to) => IndexModel::Range(from, to),
            RangeOrExpression::Expression(expression) => IndexModel::Expression(
                expression.model(),
            ),
        }
    }

    /// The number of nodes that an evaluation of the index may visit.
    pub open spec fn size(self) -> nat
        decreases self, 0nat,
    {
        match self {
            RangeOrExpression::Range(_, _) => 1,
            RangeOrExpression::Expression(expression) => 1 + expression.size(),
        }
    }
}

impl CircuitFieldDefinition {
    /// What the binding stands for.
    pub open spec fn model(self) -> BindingModel
        decreases self,
    {
        BindingModel { name: self.identifier@, expression: self.expression.model() }
    }
}

/// What the elements of an array expression stand for.
pub open spec fn elements_model(elements: Vec<SpreadOrExpression>) -> Seq<ElementModel>
    decreases elements,
{
    Seq::new(
        elements.len() as nat,
        |i: int|
            if 0 <= i < elements.len() {
                elements[i].model()
            } else {
                ElementModel::Spread(Seq::empty())
            },
    )
}

/// What the bindings of a record expression stand for.
pub open spec fn bindings_model(bindings: Vec<CircuitFieldDefinition>) -> Seq<BindingModel>
    decreases bindings,
{
    Seq::new(
        bindings.len() as nat,
        |i: int|
            if 0 <= i < bindings.len() {
                bindings[i].model()
            } else {
                BindingModel { name: Seq::empty(), expression: ExpressionModel::Boolean(false) }
            },
    )
}

/// What the arguments of a call stand for.
pub open spec fn arguments_model(arguments: Vec<Expression>) -> Seq<ExpressionModel>
    decreases arguments,
{
    Seq::new(
        arguments.len() as nat,
        |i: int|
            if 0 <= i < arguments.len() {
                arguments[i].model()
            } else {
                ExpressionModel::Boolean(false)
            },
    )
}

/// The sizes of the first `count` elements together.
pub open spec fn elements_size(elements: Vec<SpreadOrExpression>, count: nat) -> nat
    decreases elements, count,
{
    if count == 0 || count > elements.len() {
        0
    } else {
        elements_size(elements, (count - 1) as nat) + elements[count - 1].size()
    }
}

/// The sizes of the first `count` bound expressions together.
pub open spec fn bindings_size(bindings: Vec<CircuitFieldDefinition>, count: nat) -> nat
    decreases bindings, count,
{
    if count == 0 || count > bindings.len() {
        0
    } else {
        bindings_size(bindings, (count - 1) as nat) + 1 + bindings[count - 1].expression.size()
    }
}

/// Each element is no larger than all of them together.
pub proof fn lemma_element_size(elements: Vec<SpreadOrExpression>, index: int, count: nat)
    requires
        0 <= index < count <= elements.len(),
    ensures
        elements[index].size() <= elements_size(elements, count),
    decreases count,
{
    if index < count - 1 {
        lemma_element_size(elements, index, (count - 1) as nat);
    }
}

/// Each bound expression is smaller than all of them together.
pub proof fn lemma_binding_size(bindings: Vec<CircuitFieldDefinition>, index: int, count: nat)
    requires
        0 <= index < count <= bindings.len(),
    ensures
        bindings[index].expression.size() < bindings_size(bindings, count),
    decreases count,
{
    if index < count - 1 {
        lemma_binding_size(bindings, index, (count - 1) as nat);
    }
}

impl View for Expression {
    type V = ExpressionModel;

    open spec fn view(&self) -> ExpressionModel {
        self.model()
    }
}

impl View for SpreadOrExpression {
    type V = ElementModel;

    open spec fn view(&self) -> ElementModel {
        self.model()
    }
}

impl View for RangeOrExpression {
    type V = IndexModel;

    open spec fn view(&self) -> IndexModel {
        self.model()
    }
}

impl View for CircuitFieldDefinition {
    type V = BindingModel;

    open spec fn view(&self) -> BindingModel {
        self.model()
    }
}

/// How an operator is written between its operands.
pub open spec fn operator_text(operator: BinaryOperator) -> Seq<char> {
    match operator {
        BinaryOperator::Add => " + "@,
        BinaryOperator::Sub => " - "@,
        BinaryOperator::Mul => " * "@,
        BinaryOperator::Div => " / "@,
        BinaryOperator::Pow => " ** "@,
        BinaryOperator::Or => " || "@,
        BinaryOperator::And => " && "@,
        BinaryOperator::Eq => " == "@,
        BinaryOperator::Geq => " >= "@,
        BinaryOperator::Gt => " > "@,
        BinaryOperator::Leq => " <= "@,
        BinaryOperator::Lt => " < "@,
    }
}

/// A bound of a range as it is written: the integer, or nothing.
pub open spec fn bound_text(bound: Option<Integer>) -> Seq<char> {
    match bound {
        Some(integer) => integer.text(),
        None => Seq::empty(),
    }
}

/// The elements of an array expression as they are written, with `, ` between them.
pub open spec fn elements_text(elements: Seq<ElementModel>) -> Seq<char>
    decreases elements,
{
    if elements.len() == 0 {
        Seq::<char>::empty()
    } else if elements.len() == 1 {
        elements[0].text()
    } else {
        elements_text(elements.drop_last()) + ", "@ + elements.last().text()
    }
}

/// The bindings of a record expression as they are written, with `, ` between them.
pub open spec fn bindings_text(bindings: Seq<BindingModel>) -> Seq<char>
    decreases bindings,
{
    if bindings.len() == 0 {
        Seq::<char>::empty()
    } else if bindings.len() == 1 {
        bindings[0].name + ": "@ + bindings[0].expression.text()
    } else {
        bindings_text(bindings.drop_last()) + ", "@ + bindings.last().name + ": "@
            + bindings.last().expression.text()
    }
}

/// The arguments of a call as they are written, with `, ` between them.
pub open spec fn arguments_text(arguments: Seq<ExpressionModel>) -> Seq<char>
    decreases arguments,
{
    if arguments.len() == 0 {
        Seq::<char>::empty()
    } else if arguments.len() == 1 {
        arguments[0].text()
    } else {
        arguments_text(arguments.drop_last()) + ", "@ + arguments.last().text()
    }
}

impl ElementModel {
    /// The element as it is written: a spread with three dots before the name.
    pub open spec fn text(self) -> Seq<char>
        decreases self,
    {
        match self {
            ElementModel::Spread(name) => "..."@ + name,
            ElementModel::Expression(expression) => expression.text(),
        }
    }
}

impl IndexModel {
    /// The index as it is written: a range with two dots between its bounds.
    pub open spec fn text(self) -> Seq<char>
        decreases self,
    {
        match self {
            IndexModel::Range(from, to) => bound_text(from) + ".."@ + bound_text(to),
            IndexModel::Expression(expression) => expression.text(),
        }
    }
}

impl ExpressionModel {
    /// The expression as it is written in a message.
    pub open spec fn text(self) -> Seq<char>
        decreases self,
    {
        match self {
            ExpressionModel::Identifier(name) => name,
            ExpressionModel::Integer(integer) => integer.text(),
            ExpressionModel::FieldElement(element) => element.text(),
            ExpressionModel::GroupElement(element) => element.text(),
            ExpressionModel::Boolean(boolean) => boolean_text(boolean),
            ExpressionModel::Implicit(text) => text,
            ExpressionModel::Binary(operator, left, right) => left.text() + operator_text(operator)
                + right.text(),
            ExpressionModel::Not(inner) => "!"@ + inner.text(),
            ExpressionModel::IfElse(first, second, third) => first.text() + " ? "@ + second.text()
                + " : "@ + third.text(),
            ExpressionModel::Array(elements) => "["@ + elements_text(elements) + "]"@,
            ExpressionModel::ArrayAccess(array, index) => array.text() + "["@ + index.text() + "]"@,
            ExpressionModel::Circuit(name, bindings) => name + " {"@ + bindings_text(bindings)
                + "}"@,
            ExpressionModel::CircuitMemberAccess(circuit, member) => circuit.text() + "."@ + member,
            ExpressionModel::CircuitStaticFunctionAccess(circuit, member) => circuit.text() + "::"@
                + member,
            ExpressionModel::FunctionCall(function, arguments) => function.text() + "("@
                + arguments_text(arguments) + ")"@,
        }
    }
}

/// The operator as it is written between its operands.
pub fn operator_symbol(operator: BinaryOperator) -> (r: &'static str)
    ensures
        r@ == operator_text(operator),
{
    match operator {
        BinaryOperator::Add => " + ",
        BinaryOperator::Sub => " - ",
        BinaryOperator::Mul => " * ",
        BinaryOperator::Div => " / ",
        BinaryOperator::Pow => " ** ",
        BinaryOperator::Or => " || ",
        BinaryOperator::And => " && ",
        BinaryOperator::Eq => " == ",
        BinaryOperator::Geq => " >= ",
        BinaryOperator::Gt => " > ",
        BinaryOperator::Leq => " <= ",
        BinaryOperator::Lt => " < ",
    }
}

fn binary_to_text(left: String, operator: BinaryOperator, right: String) -> (r: String)
    ensures
        r@ == left@ + operator_text(operator) + right@,
{
    let mut r = left;
    r.append(operator_symbol(operator));
    r.append(right.as_str());
    r
}

fn bound_to_text(bound: &Option<Integer>) -> (r: String)
    ensures
        r@ == bound_text(*bound),
{
    match bound {
        Some(integer) => integer.to_text(),
        None => String::new(),
    }
}

/// Writes the elements of an array expression, with `, ` between them.
pub fn elements_to_text(elements: &Vec<SpreadOrExpression>) -> (r: String)
    ensures
        r@ == elements_text(elements_model(*elements)),
    decreases elements,
{
    let ghost model = elements_model(*elements);
    let mut r = String::new();
    let mut i: usize = 0;
    assert(model.take(0) =~= Seq::<ElementModel>::empty());
    while i < elements.len()
        invariant
            model == elements_model(*elements),
            i <= elements.len(),
            r@ == elements_text(model.take(i as int)),
        decreases elements.len() - i,
    {
        if i > 0 {
            r.append(", ");
        }
        let text = elements[i].to_text();
        r.append(text.as_str());
        proof {
            let next = model.take(i + 1);
            assert(next.drop_last() =~= model.take(i as int));
            assert(next.last() == elements[i as int]@);
            if i == 0 {
                assert(r@ =~= elements_text(next));
            } else {
                assert(elements_text(next) == elements_text(next.drop_last()) + ", "@
                    + next.last().text());
                assert(r@ =~= elements_text(next));
            }
        }
        i = i + 1;
    }
    assert(model.take(elements.len() as int) =~= model);
    r
}

/// Writes the bindings of a record expression, with `, ` between them.
pub fn bindings_to_text(bindings: &Vec<CircuitFieldDefinition>) -> (r: String)
    ensures
        r@ == bindings_text(bindings_model(*bindings)),
    decreases bindings,
{
    let ghost model = bindings_model(*bindings);
    let mut r = String::new();
    let mut i: usize = 0;
    assert(model.take(0) =~= Seq::<BindingModel>::empty());
    while i < bindings.len()
        invariant
            model == bindings_model(*bindings),
            i <= bindings.len(),
            r@ == bindings_text(model.take(i as int)),
        decreases bindings.len() - i,
    {
        if i > 0 {
            r.append(", ");
        }
        r.append(bindings[i].identifier.name.as_str());
        r.append(": ");
        let text = bindings[i].expression.to_text();
        r.append(text.as_str());
        proof {
            let next = model.take(i + 1);
            assert(next.drop_last() =~= model.take(i as int));
            assert(next.last() == bindings[i as int]@);
            if i == 0 {
                assert(r@ =~= bindings_text(next));
            } else {
                assert(bindings_text(next) == bindings_text(next.drop_last()) + ", "@
                    + next.last().name + ": "@ + next.last().expression.text());
                assert(r@ =~= bindings_text(next));
            }
        }
        i = i + 1;
    }
    assert(model.take(bindings.len() as int) =~= model);
    r
}

/// Writes the arguments of a call, with `, ` between them.
pub fn arguments_to_text(arguments: &Vec<Expression>) -> (r: String)
    ensures
        r@ == arguments_text(arguments_model(*arguments)),
    decreases arguments,
{
    let ghost model = arguments_model(*arguments);
    let mut r = String::new();
    let mut i: usize = 0;
    assert(model.take(0) =~= Seq::<ExpressionModel>::empty());
    while i < arguments.len()
        invariant
            model == arguments_model(*arguments),
            i <= arguments.len(),
            r@ == arguments_text(model.take(i as int)),
        decreases arguments.len() - i,
    {
        if i > 0 {
            r.append(", ");
        }
        let text = arguments[i].to_text();
        r.append(text.as_str());
        proof {
            let next = model.take(i + 1);
            assert(next.drop_last() =~= model.take(i as int));
            assert(next.last() == arguments[i as int]@);
            if i == 0 {
                assert(r@ =~= arguments_text(next));
            } else {
                assert(arguments_text(next) == arguments_text(next.drop_last()) + ", "@
                    + next.last().text());
                assert(r@ =~= arguments_text(next));
            }
        }
        i = i + 1;
    }
    assert(model.take(arguments.len() as int) =~= model);
    r
}

impl SpreadOrExpression {
    /// Writes the element.
    pub fn to_text(&self) -> (r: String)
        ensures
            r@ == self@.text(),
        decreases self,
    {
        match self {
            SpreadOrExpression::Spread(identifier) => {
                let mut r = String::from_str("...");
                r.append(identifier.name.as_str());
                r
            },
            SpreadOrExpression::Expression(expression) => expression.to_text(),
        }
    }
}

impl RangeOrExpression {
    /// Writes the index.
    pub fn to_text(&self) -> (r: String)
        ensures
            r@ == self@.text(),
        decreases self,
    {
        match self {
            RangeOrExpression::Range(from, to) => {
                let mut r = bound_to_text(from);
                r.append("..");
                let to_text = bound_to_text(to);
                r.append(to_text.as_str());
                r
            },
            RangeOrExpression::Expression(expression) => expression.to_text(),
        }
    }
}

impl Expression {
    /// Writes the expression as it stands in a message.
    pub fn to_text(&self) -> (r: String)
        ensures
            r@ == self@.text(),
        decreases self,
    {
        match self {
            Expression::Identifier(identifier) => identifier.name.clone(),
            Expression::Integer(integer) => integer.to_text(),
            Expression::FieldElement(element) => element.to_text(),
            Expression::GroupElement(element) => element.to_text(),
            Expression::Boolean(boolean) => {
                proof {
                    reveal_strlit("true");
                    reveal_strlit("false");
                }
                let r = if *boolean {
                    String::from_str("true")
                } else {
                    String::from_str("false")
                };
                assert(r@ =~= boolean_text(*boolean));
                r
            },
            Expression::Implicit(text) => text.clone(),
            Expression::Add(left, right) => binary_to_text(
                left.to_text(),
                BinaryOperator::Add,
                right.to_text(),
            ),
            Expression::Sub(left, right) => binary_to_text(
                left.to_text(),
                BinaryOperator::Sub,
                right.to_text(),
            ),
            Expression::Mul(left, right) => binary_to_text(
                left.to_text(),
                BinaryOperator::Mul,
                right.to_text(),
            ),
            Expression::Div(left, right) => binary_to_text(
                left.to_text(),
                BinaryOperator::Div,
                right.to_text(),
            ),
            Expression::Pow(left, right) => binary_to_text(
                left.to_text(),
                BinaryOperator::Pow,
                right.to_text(),
            ),
            Expression::Not(inner) => {
                let mut r = String::from_str("!");
                let text = inner.to_text();
                r.append(text.as_str());
                r
            },
            Expression::Or(left, right) => binary_to_text(
                left.to_text(),
                BinaryOperator::Or,
                right.to_text(),
            ),
            Expression::And(left, right) => binary_to_text(
                left.to_text(),
                BinaryOperator::And,
                right.to_text(),
            ),
            Expression::Eq(left, right) => binary_to_text(
                left.to_text(),
                BinaryOperator::Eq,
                right.to_text(),
            ),
            Expression::Geq(left, right) => binary_to_text(
                left.to_text(),
                BinaryOperator::Geq,
                right.to_text(),
            ),
            Expression::Gt(left, right) => binary_to_text(
                left.to_text(),
                BinaryOperator::Gt,
                right.to_text(),
            ),
            Expression::Leq(left, right) => binary_to_text(
                left.to_text(),
                BinaryOperator::Leq,
                right.to_text(),
            ),
            Expression::Lt(left, right) => binary_to_text(
                left.to_text(),
                BinaryOperator::Lt,
                right.to_text(),
            ),
            Expression::IfElse(first, second, third) => {
                let mut r = first.to_text();
                r.append(" ? ");
                let second_text = second.to_text();
                r.append(second_text.as_str());
                r.append(" : ");
                let third_text = third.to_text();
                r.append(third_text.as_str());
                r
            },
            Expression::Array(elements) => {
                let mut r = String::from_str("[");
                let inner = elements_to_text(elements);
                r.append(inner.as_str());
                r.append("]");
                r
            },
            Expression::ArrayAccess(array, index) => {
                let mut r = array.to_text();
                r.append("[");
                let index_text = index.to_text();
                r.append(index_text.as_str());
                r.append("]");
                r
            },
            Expression::Circuit(identifier, bindings) => {
                let mut r = identifier.name.clone();
                r.append(" {");
                let inner = bindings_to_text(bindings);
                r.append(inner.as_str());
                r.append("}");
                r
            },
            Expression::CircuitMemberAccess(circuit, member) => {
                let mut r = circuit.to_text();
                r.append(".");
                r.append(member.name.as_str());
                r
            },
            Expression::CircuitStaticFunctionAccess(circuit, member) => {
                let mut r = circuit.to_text();
                r.append("::");
                r.append(member.name.as_str());
                r
            },
            Expression::FunctionCall(function, arguments) => {
                let mut r = function.to_text();
                r.append("(");
                let inner = arguments_to_text(arguments);
                r.append(inner.as_str());
                r.append(")");
                r
            },
        }
    }
}

} // verus!
