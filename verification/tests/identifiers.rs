use leo_compiler::ast::Expression;
use leo_compiler::constraint_system::ConstraintSystem;
use leo_compiler::errors::ExpressionError;
use leo_compiler::errors::FunctionError;
use leo_compiler::field::FieldElement;
use leo_compiler::group::GroupElement;
use leo_compiler::integer::Integer;
use leo_compiler::integer::IntegerType;
use leo_compiler::program::ConstrainedProgram;
use leo_compiler::program::FunctionInvoker;
use leo_compiler::program::Invocations;
use leo_compiler::types::Circuit;
use leo_compiler::types::Function;
use leo_compiler::types::Identifier;
use leo_compiler::types::Type;
use leo_compiler::value::duplicate_values;
use leo_compiler::value::members_to_text;
use leo_compiler::value::values_to_text;
use leo_compiler::value::ConstrainedCircuitMember;
use leo_compiler::value::ConstrainedValue;

struct NoFunctions;

impl FunctionInvoker for NoFunctions {
    fn invoke_function(
        &mut self,
        _program: &mut ConstrainedProgram,
        _cs: &mut ConstraintSystem,
        _outer_scope: &str,
        _function_scope: &str,
        _function: &Function,
        _arguments: &Vec<Expression>,
    ) -> Result<ConstrainedValue, FunctionError> {
        Err(FunctionError { message: String::from("no function can be run here") })
    }
}

fn u32_type() -> Type {
    Type::IntegerType(IntegerType::U32)
}

fn number(value: u128) -> ConstrainedValue {
    ConstrainedValue::Integer(Integer { integer_type: IntegerType::U32, value })
}

fn unresolved(text: &str) -> ConstrainedValue {
    ConstrainedValue::Unresolved(String::from(text))
}

#[test]
fn store_binds_and_replaces() {
    let mut program = ConstrainedProgram::new();
    assert_eq!(program.get("a"), None);
    program.store(String::from("a"), number(1));
    program.store(String::from("b"), number(2));
    assert_eq!(program.get("a"), Some(&number(1)));
    assert_eq!(program.get("b"), Some(&number(2)));
    program.store(String::from("a"), number(3));
    assert_eq!(program.get("a"), Some(&number(3)));
    assert_eq!(program.get("b"), Some(&number(2)));
    assert_eq!(program.get("c"), None);
    assert_eq!(program.get(""), None);
    let mut other = ConstrainedProgram::new();
    other.store(String::from("a"), number(3));
    other.store(String::from("b"), number(2));
    assert_eq!(program, other);
}

#[test]
fn name_is_looked_up_in_the_function_scope_first() {
    let mut program = ConstrainedProgram::new();
    program.store(String::from("main.x"), number(1));
    program.store(String::from("main.f.x"), number(2));
    program.store(String::from("main.y"), number(3));
    program.store(String::from("other.z"), number(4));
    let lookup = |program: &mut ConstrainedProgram, name: &str| {
        program.evaluate_identifier("main", "main.f", &vec![], &Identifier::new(name))
    };
    assert_eq!(lookup(&mut program, "x"), Ok(number(2)));
    assert_eq!(lookup(&mut program, "y"), Ok(number(3)));
    assert_eq!(
        lookup(&mut program, "z"),
        Err(ExpressionError::UndefinedIdentifier(String::from("z")))
    );
}

#[test]
fn bound_number_without_a_type_is_read_where_it_is_used() {
    let mut program = ConstrainedProgram::new();
    program.store(String::from("main.f.n"), unresolved("7"));
    program.store(
        String::from("main.f.m"),
        ConstrainedValue::Mutable(Box::new(unresolved("7"))),
    );
    let name = Identifier::new("n");
    assert_eq!(
        program.evaluate_identifier("main", "main.f", &vec![u32_type()], &name),
        Ok(number(7))
    );
    assert_eq!(
        program.evaluate_identifier("main", "main.f", &vec![Type::FieldElement], &name),
        Ok(ConstrainedValue::FieldElement(FieldElement { value: 7 }))
    );
    assert_eq!(program.evaluate_identifier("main", "main.f", &vec![], &name), Ok(unresolved("7")));
    assert_eq!(
        program.evaluate_identifier("main", "main.f", &vec![Type::Boolean], &name),
        Err(ExpressionError::InvalidNumber(String::from("7"), String::from("bool")))
    );
    assert_eq!(
        program.evaluate_identifier("main", "main.f", &vec![u32_type()], &Identifier::new("m")),
        Ok(ConstrainedValue::Mutable(Box::new(unresolved("7"))))
    );
    assert_eq!(program.get("main.f.n"), Some(&unresolved("7")));
}

#[test]
fn number_is_read_under_exactly_one_expected_type() {
    let read = |expected: Vec<Type>, text: &str| {
        ConstrainedProgram::enforce_number_implicit(&expected, String::from(text))
    };
    assert_eq!(read(vec![u32_type()], "12"), Ok(number(12)));
    assert_eq!(read(vec![], "12"), Ok(unresolved("12")));
    assert_eq!(read(vec![u32_type(), u32_type()], "12"), Ok(unresolved("12")));
    assert_eq!(
        read(vec![Type::IntegerType(IntegerType::U8)], "256"),
        Err(ExpressionError::InvalidNumber(String::from("256"), String::from("u8")))
    );
    assert_eq!(
        read(vec![Type::GroupElement], "1"),
        Err(ExpressionError::InvalidNumber(String::from("1"), String::from("group")))
    );
    assert_eq!(
        read(vec![Type::Circuit(Identifier::new("P"))], "1"),
        Err(ExpressionError::InvalidNumber(String::from("1"), String::from("circuit P")))
    );
    assert_eq!(
        read(vec![Type::Array(Box::new(u32_type()), vec![2])], "x"),
        Err(ExpressionError::InvalidNumber(String::from("x"), String::from("u32[2]")))
    );
    assert_eq!(read(vec![Type::Array(Box::new(u32_type()), vec![2])], "5"), Ok(number(5)));
}

#[test]
fn literals_are_worth_themselves() {
    let mut program = ConstrainedProgram::new();
    let mut cs = ConstraintSystem::new();
    let mut evaluate = |expression: Expression| {
        program.enforce_expression(
            &mut NoFunctions,
            &mut cs, &mut Invocations::new(),
            "main",
            "main.f",
            &vec![Type::Boolean],
            &expression,
        )
    };
    let integer = Integer { integer_type: IntegerType::U64, value: 9 };
    let element = FieldElement { value: 9 };
    let point = GroupElement { x: FieldElement { value: 3 }, y: FieldElement { value: 4 } };
    assert_eq!(evaluate(Expression::Integer(integer)), Ok(ConstrainedValue::Integer(integer)));
    assert_eq!(
        evaluate(Expression::FieldElement(element)),
        Ok(ConstrainedValue::FieldElement(element))
    );
    assert_eq!(evaluate(Expression::GroupElement(point)), Ok(ConstrainedValue::GroupElement(point)));
    assert_eq!(evaluate(Expression::Boolean(true)), Ok(ConstrainedValue::Boolean(true)));
    assert_eq!(
        evaluate(Expression::Implicit(String::from("true"))),
        Ok(ConstrainedValue::Boolean(true))
    );
    assert_eq!(cs.num_constraints(), 0);
}

#[test]
fn condition_of_a_choice_must_be_a_boolean() {
    let mut program = ConstrainedProgram::new();
    let mut cs = ConstraintSystem::new();
    program.store(String::from("main.f.c"), ConstrainedValue::Mutable(Box::new(ConstrainedValue::Boolean(true))));
    let choice = |condition: Expression| {
        Expression::IfElse(
            Box::new(condition),
            Box::new(Expression::Implicit(String::from("7"))),
            Box::new(Expression::Identifier(Identifier::new("never_evaluated"))),
        )
    };
    let mut evaluate = |expression: Expression| {
        program.enforce_expression(
            &mut NoFunctions,
            &mut cs, &mut Invocations::new(),
            "main",
            "main.f",
            &vec![u32_type()],
            &expression,
        )
    };
    assert_eq!(
        evaluate(choice(Expression::Integer(Integer { integer_type: IntegerType::U8, value: 1 }))),
        Err(ExpressionError::IfElseConditional(String::from("1u8")))
    );
    assert_eq!(
        evaluate(choice(Expression::Implicit(String::from("1")))),
        Err(ExpressionError::InvalidNumber(String::from("1"), String::from("bool")))
    );
    assert_eq!(
        evaluate(choice(Expression::Identifier(Identifier::new("c")))),
        Err(ExpressionError::IfElseConditional(String::from("mut true")))
    );
    assert_eq!(
        evaluate(choice(Expression::Boolean(true))),
        Err(ExpressionError::UndefinedIdentifier(String::from("never_evaluated")))
    );
}

#[test]
fn operators_of_the_tree_reach_their_gadgets() {
    let mut program = ConstrainedProgram::new();
    let mut cs = ConstraintSystem::new();
    let implicit = |text: &str| Box::new(Expression::Implicit(String::from(text)));
    let truth = |value: bool| Box::new(Expression::Boolean(value));
    let mut evaluate = |expected: Vec<Type>, expression: Expression| {
        program.enforce_expression(&mut NoFunctions, &mut cs, &mut Invocations::new(), "main", "main.f", &expected, &expression)
    };
    let u32s = || vec![u32_type()];
    assert_eq!(evaluate(u32s(), Expression::Add(implicit("7"), implicit("2"))), Ok(number(9)));
    assert_eq!(evaluate(u32s(), Expression::Sub(implicit("7"), implicit("2"))), Ok(number(5)));
    assert_eq!(evaluate(u32s(), Expression::Mul(implicit("7"), implicit("2"))), Ok(number(14)));
    assert_eq!(evaluate(u32s(), Expression::Div(implicit("7"), implicit("2"))), Ok(number(3)));
    assert_eq!(evaluate(u32s(), Expression::Pow(implicit("7"), implicit("2"))), Ok(number(49)));
    assert_eq!(
        evaluate(u32s(), Expression::Eq(implicit("7"), implicit("2"))),
        Ok(ConstrainedValue::Boolean(false))
    );
    assert_eq!(
        evaluate(vec![], Expression::Not(truth(false))),
        Ok(ConstrainedValue::Boolean(true))
    );
    assert_eq!(
        evaluate(vec![], Expression::Or(truth(false), truth(true))),
        Ok(ConstrainedValue::Boolean(true))
    );
    assert_eq!(
        evaluate(vec![], Expression::And(truth(false), truth(true))),
        Ok(ConstrainedValue::Boolean(false))
    );
    let refused = |text: &str| Err(ExpressionError::IncompatibleTypes(String::from(text)));
    assert_eq!(
        evaluate(u32s(), Expression::Geq(implicit("7"), implicit("2"))),
        refused("7u32 >= 2u32, values must be fields")
    );
    assert_eq!(
        evaluate(u32s(), Expression::Gt(implicit("7"), implicit("2"))),
        refused("7u32 > 2u32, values must be fields")
    );
    assert_eq!(
        evaluate(u32s(), Expression::Leq(implicit("7"), implicit("2"))),
        refused("7u32 <= 2u32, values must be fields")
    );
    assert_eq!(
        evaluate(u32s(), Expression::Lt(implicit("7"), implicit("2"))),
        refused("7u32 < 2u32, values must be fields")
    );
    assert_eq!(
        evaluate(vec![], Expression::Add(implicit("7"), implicit("2"))),
        refused("unresolved 7 + unresolved 2")
    );
}

#[test]
fn left_operand_fails_before_the_right_one_is_evaluated() {
    let mut program = ConstrainedProgram::new();
    let mut cs = ConstraintSystem::new();
    let expression = Expression::Add(
        Box::new(Expression::Identifier(Identifier::new("a"))),
        Box::new(Expression::Identifier(Identifier::new("b"))),
    );
    assert_eq!(
        program.enforce_expression(&mut NoFunctions, &mut cs, &mut Invocations::new(), "main", "main.f", &vec![], &expression),
        Err(ExpressionError::UndefinedIdentifier(String::from("a")))
    );
}

#[test]
fn values_are_written_as_they_stand_in_messages() {
    let function = Function { function_name: Identifier::new("g"), body: 0 };
    let point = ConstrainedValue::CircuitExpression(
        Identifier::new("Point"),
        vec![
            ConstrainedCircuitMember(Identifier::new("x"), number(3)),
            ConstrainedCircuitMember(Identifier::new("y"), ConstrainedValue::Boolean(false)),
        ],
    );
    assert_eq!(number(3).to_text(), "3u32");
    assert_eq!(ConstrainedValue::Boolean(true).to_text(), "true");
    assert_eq!(ConstrainedValue::Boolean(false).to_text(), "false");
    assert_eq!(ConstrainedValue::FieldElement(FieldElement { value: 5 }).to_text(), "5");
    assert_eq!(
        ConstrainedValue::GroupElement(GroupElement {
            x: FieldElement { value: 3 },
            y: FieldElement { value: 4 }
        })
        .to_text(),
        "(3, 4)"
    );
    assert_eq!(ConstrainedValue::Array(vec![]).to_text(), "[]");
    assert_eq!(ConstrainedValue::Array(vec![number(1)]).to_text(), "[1u32]");
    assert_eq!(
        ConstrainedValue::Array(vec![number(1), ConstrainedValue::Array(vec![number(2), number(3)])])
            .to_text(),
        "[1u32, [2u32, 3u32]]"
    );
    assert_eq!(
        ConstrainedValue::CircuitDefinition(Circuit {
            identifier: Identifier::new("Point"),
            members: vec![]
        })
        .to_text(),
        "circuit Point"
    );
    assert_eq!(point.to_text(), "Point {x: 3u32, y: false}");
    assert_eq!(
        ConstrainedValue::CircuitExpression(Identifier::new("Unit"), vec![]).to_text(),
        "Unit {}"
    );
    assert_eq!(
        ConstrainedValue::Function(None, function.duplicate()).to_text(),
        "function g"
    );
    assert_eq!(
        ConstrainedValue::Function(Some(Identifier::new("Point")), function.duplicate()).to_text(),
        "function g"
    );
    assert_eq!(ConstrainedValue::Return(vec![number(1), number(2)]).to_text(), "return [1u32, 2u32]");
    assert_eq!(ConstrainedValue::Mutable(Box::new(number(1))).to_text(), "mut 1u32");
    assert_eq!(
        ConstrainedValue::Static(Box::new(ConstrainedValue::Function(None, function))).to_text(),
        "static function g"
    );
    assert_eq!(unresolved("12").to_text(), "unresolved 12");
    assert_eq!(values_to_text(&vec![number(1), number(2), number(3)]), "1u32, 2u32, 3u32");
    assert_eq!(values_to_text(&vec![]), "");
    assert_eq!(
        members_to_text(&vec![ConstrainedCircuitMember(Identifier::new("x"), number(3))]),
        "x: 3u32"
    );
}

#[test]
fn copy_of_a_value_is_equal_to_the_value() {
    let function = Function { function_name: Identifier::new("g"), body: 0 };
    let values = vec![
        number(3),
        unresolved("12"),
        ConstrainedValue::Mutable(Box::new(ConstrainedValue::Array(vec![number(1), number(2)]))),
        ConstrainedValue::Static(Box::new(ConstrainedValue::Function(
            Some(Identifier::new("Point")),
            function.duplicate(),
        ))),
        ConstrainedValue::Function(None, function),
        ConstrainedValue::Return(vec![ConstrainedValue::Boolean(true)]),
        ConstrainedValue::CircuitExpression(
            Identifier::new("Point"),
            vec![ConstrainedCircuitMember(Identifier::new("x"), number(3))],
        ),
        ConstrainedValue::CircuitDefinition(Circuit {
            identifier: Identifier::new("Point"),
            members: vec![leo_compiler::types::CircuitMember::CircuitField(
                Identifier::new("x"),
                u32_type(),
            )],
        }),
    ];
    for value in &values {
        assert_eq!(&value.duplicate(), value);
    }
    assert_eq!(duplicate_values(&values), values);
}
