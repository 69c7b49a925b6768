use leo_compiler::ast::CircuitFieldDefinition;
use leo_compiler::ast::Expression;
use leo_compiler::circuits::access_static;
use leo_compiler::circuits::find_binding;
use leo_compiler::circuits::find_function;
use leo_compiler::circuits::find_member;
use leo_compiler::circuits::member_of_function;
use leo_compiler::circuits::record_of;
use leo_compiler::constraint_system::ConstraintSystem;
use leo_compiler::errors::ExpressionError;
use leo_compiler::errors::FunctionError;
use leo_compiler::integer::Integer;
use leo_compiler::integer::IntegerType;
use leo_compiler::program::ConstrainedProgram;
use leo_compiler::program::FunctionInvoker;
use leo_compiler::program::Invocations;
use leo_compiler::types::Circuit;
use leo_compiler::types::CircuitMember;
use leo_compiler::types::Function;
use leo_compiler::types::Identifier;
use leo_compiler::types::Type;
use leo_compiler::value::ConstrainedCircuitMember;
use leo_compiler::value::ConstrainedValue;

struct NoFunctions;

impl FunctionInvoker for NoFunctions {
    fn invoke_function(
        &mut self,
        _program: &mut ConstrainedProgram,
        _cs: &mut ConstraintSystem,
        _outer_scope: &str,
        _function_scope: &str,
        _function: &Function,
        _arguments: &Vec<Expression>,
    ) -> Result<ConstrainedValue, FunctionError> {
        Err(FunctionError { message: String::from("no function can be run here") })
    }
}

fn u32_type() -> Type {
    Type::IntegerType(IntegerType::U32)
}

fn number(value: u128) -> ConstrainedValue {
    ConstrainedValue::Integer(Integer { integer_type: IntegerType::U32, value })
}

fn implicit(text: &str) -> Expression {
    Expression::Implicit(String::from(text))
}

fn variable(name: &str) -> Expression {
    Expression::Identifier(Identifier::new(name))
}

fn function(name: &str, body: usize) -> Function {
    Function { function_name: Identifier::new(name), body }
}

fn bind(name: &str, expression: Expression) -> CircuitFieldDefinition {
    CircuitFieldDefinition { identifier: Identifier::new(name), expression }
}

fn member(name: &str, value: ConstrainedValue) -> ConstrainedCircuitMember {
    ConstrainedCircuitMember(Identifier::new(name), value)
}

/// circuit Point { x: u32, norm(), static origin(), y: u32 }
fn point_type() -> Circuit {
    Circuit {
        identifier: Identifier::new("Point"),
        members: vec![
            CircuitMember::CircuitField(Identifier::new("x"), u32_type()),
            CircuitMember::CircuitFunction(false, function("norm", 1)),
            CircuitMember::CircuitFunction(true, function("origin", 2)),
            CircuitMember::CircuitField(Identifier::new("y"), u32_type()),
        ],
    }
}

fn norm_of_point() -> ConstrainedValue {
    ConstrainedValue::Function(Some(Identifier::new("Point")), function("norm", 1))
}

fn origin_of_point() -> ConstrainedValue {
    ConstrainedValue::Function(Some(Identifier::new("Point")), function("origin", 2))
}

fn point(x: u128, y: u128) -> ConstrainedValue {
    ConstrainedValue::CircuitExpression(
        Identifier::new("Point"),
        vec![
            member("x", number(x)),
            member("norm", norm_of_point()),
            member("origin", ConstrainedValue::Static(Box::new(origin_of_point()))),
            member("y", number(y)),
        ],
    )
}

fn program_with_point() -> ConstrainedProgram {
    let mut program = ConstrainedProgram::new();
    program.store(String::from("main.Point"), ConstrainedValue::CircuitDefinition(point_type()));
    program
}

fn evaluate(
    program: &mut ConstrainedProgram,
    cs: &mut ConstraintSystem,
    expression: &Expression,
) -> Result<ConstrainedValue, ExpressionError> {
    program.enforce_expression(&mut NoFunctions, cs, &mut Invocations::new(), "main", "main.f", &vec![], expression)
}

#[test]
fn record_expression_follows_the_declaration() {
    let mut program = program_with_point();
    let mut cs = ConstraintSystem::new();
    let expression = Expression::Circuit(
        Identifier::new("Point"),
        vec![bind("y", implicit("4")), bind("x", implicit("3"))],
    );
    assert_eq!(evaluate(&mut program, &mut cs, &expression), Ok(point(3, 4)));
}

#[test]
fn order_of_the_bindings_does_not_matter() {
    let first = Expression::Circuit(
        Identifier::new("Point"),
        vec![
            bind("x", Expression::Add(Box::new(implicit("1")), Box::new(implicit("2")))),
            bind("y", Expression::Mul(Box::new(implicit("2")), Box::new(implicit("2")))),
        ],
    );
    let second = Expression::Circuit(
        Identifier::new("Point"),
        vec![
            bind("y", Expression::Mul(Box::new(implicit("2")), Box::new(implicit("2")))),
            bind("x", Expression::Add(Box::new(implicit("1")), Box::new(implicit("2")))),
        ],
    );
    let mut first_program = program_with_point();
    let mut first_cs = ConstraintSystem::new();
    let mut second_program = program_with_point();
    let mut second_cs = ConstraintSystem::new();
    let first_result = evaluate(&mut first_program, &mut first_cs, &first);
    let second_result = evaluate(&mut second_program, &mut second_cs, &second);
    assert_eq!(first_result, Ok(point(3, 4)));
    assert_eq!(first_result, second_result);
    assert_eq!(first_cs.num_constraints(), 2);
    assert_eq!(first_cs, second_cs);
    assert_eq!(first_program, second_program);
}

#[test]
fn first_binding_of_a_field_counts() {
    let mut program = program_with_point();
    let mut cs = ConstraintSystem::new();
    let expression = Expression::Circuit(
        Identifier::new("Point"),
        vec![
            bind("x", implicit("1")),
            bind("y", implicit("2")),
            bind("x", implicit("3")),
            bind("z", variable("never_evaluated")),
        ],
    );
    assert_eq!(evaluate(&mut program, &mut cs, &expression), Ok(point(1, 2)));
}

#[test]
fn field_is_read_under_its_declared_type() {
    let mut program = program_with_point();
    let mut cs = ConstraintSystem::new();
    let expression = Expression::Circuit(
        Identifier::new("Point"),
        vec![bind("x", implicit("4294967296")), bind("y", implicit("2"))],
    );
    assert_eq!(
        evaluate(&mut program, &mut cs, &expression),
        Err(ExpressionError::InvalidNumber(String::from("4294967296"), String::from("u32")))
    );
}

#[test]
fn record_expression_needs_every_field() {
    let mut program = program_with_point();
    let mut cs = ConstraintSystem::new();
    let expression = Expression::Circuit(Identifier::new("Point"), vec![bind("x", implicit("3"))]);
    assert_eq!(
        evaluate(&mut program, &mut cs, &expression),
        Err(ExpressionError::ExpectedCircuitValue(String::from("y")))
    );
    let expression = Expression::Circuit(Identifier::new("Point"), vec![]);
    assert_eq!(
        evaluate(&mut program, &mut cs, &expression),
        Err(ExpressionError::ExpectedCircuitValue(String::from("x")))
    );
}

#[test]
fn record_expression_needs_a_record_type() {
    let mut program = program_with_point();
    let mut cs = ConstraintSystem::new();
    program.store(String::from("main.x"), number(1));
    let expression = Expression::Circuit(Identifier::new("Line"), vec![]);
    assert_eq!(
        evaluate(&mut program, &mut cs, &expression),
        Err(ExpressionError::UndefinedCircuit(String::from("Line")))
    );
    let expression = Expression::Circuit(Identifier::new("x"), vec![]);
    assert_eq!(
        evaluate(&mut program, &mut cs, &expression),
        Err(ExpressionError::UndefinedCircuit(String::from("x")))
    );
    let expression = Expression::Circuit(Identifier::new("self"), vec![]);
    assert_eq!(
        evaluate(&mut program, &mut cs, &expression),
        Err(ExpressionError::UndefinedCircuit(String::from("self")))
    );
}

#[test]
fn record_names_itself_by_the_file_scope() {
    let mut program = program_with_point();
    let mut cs = ConstraintSystem::new();
    let expression = Expression::Circuit(
        Identifier::new("self"),
        vec![bind("x", implicit("3")), bind("y", implicit("4"))],
    );
    assert_eq!(
        program.enforce_expression(
            &mut NoFunctions,
            &mut cs, &mut Invocations::new(),
            "main.Point",
            "main.Point.norm",
            &vec![],
            &expression
        ),
        Ok(point(3, 4))
    );
    assert_eq!(
        program.circuit_named("main.Point", "main.Point.norm", &Identifier::new("self")),
        Some(point_type())
    );
    assert_eq!(program.circuit_named("main", "main.f", &Identifier::new("Point")), Some(point_type()));
    assert_eq!(program.circuit_named("main", "main.f", &Identifier::new("self")), None);
}

#[test]
fn function_of_a_record_type_becomes_a_member() {
    let circuit = Identifier::new("Point");
    assert_eq!(
        member_of_function(&circuit, false, &function("norm", 1)),
        member("norm", norm_of_point())
    );
    assert_eq!(
        member_of_function(&circuit, true, &function("origin", 2)),
        member("origin", ConstrainedValue::Static(Box::new(origin_of_point())))
    );
}

fn member_access(record: Expression, name: &str) -> Expression {
    Expression::CircuitMemberAccess(Box::new(record), Identifier::new(name))
}

#[test]
fn field_of_a_record_is_handed_out_as_it_is() {
    let mut program = program_with_point();
    let mut cs = ConstraintSystem::new();
    program.store(String::from("main.f.p"), point(3, 4));
    let before = program_with_point_and("main.f.p", point(3, 4));
    assert_eq!(evaluate(&mut program, &mut cs, &member_access(variable("p"), "y")), Ok(number(4)));
    assert_eq!(program, before);
}

fn program_with_point_and(path: &str, value: ConstrainedValue) -> ConstrainedProgram {
    let mut program = program_with_point();
    program.store(String::from(path), value);
    program
}

#[test]
fn method_of_a_record_finds_the_fields_in_its_scope() {
    let mut program = program_with_point_and("main.f.p", point(3, 4));
    let mut cs = ConstraintSystem::new();
    assert_eq!(
        evaluate(&mut program, &mut cs, &member_access(variable("p"), "norm")),
        Ok(norm_of_point())
    );
    assert_eq!(program.get("main.Point.norm.x"), Some(&number(3)));
    assert_eq!(program.get("main.Point.norm.y"), Some(&number(4)));
    assert_eq!(program.get("main.Point.norm.norm"), None);
    assert_eq!(program.get("main.Point.norm.origin"), None);
    assert_eq!(program.get("main.f.p"), Some(&point(3, 4)));
}

#[test]
fn static_member_of_a_record_binds_nothing() {
    let mut program = program_with_point_and("main.f.p", point(3, 4));
    let mut cs = ConstraintSystem::new();
    assert_eq!(
        evaluate(&mut program, &mut cs, &member_access(variable("p"), "origin")),
        Ok(ConstrainedValue::Static(Box::new(origin_of_point())))
    );
    assert_eq!(program, program_with_point_and("main.f.p", point(3, 4)));
}

#[test]
fn member_of_an_assignable_record_is_found() {
    let mut program =
        program_with_point_and("main.f.p", ConstrainedValue::Mutable(Box::new(point(3, 4))));
    let mut cs = ConstraintSystem::new();
    assert_eq!(evaluate(&mut program, &mut cs, &member_access(variable("p"), "x")), Ok(number(3)));
}

#[test]
fn member_that_a_record_does_not_have_is_undefined() {
    let mut program = program_with_point_and("main.f.p", point(3, 4));
    let mut cs = ConstraintSystem::new();
    assert_eq!(
        evaluate(&mut program, &mut cs, &member_access(variable("p"), "z")),
        Err(ExpressionError::UndefinedCircuitObject(String::from("z")))
    );
}

#[test]
fn member_of_what_is_no_record_is_refused() {
    let mut program = program_with_point_and("main.f.n", number(1));
    program.store(String::from("main.f.m"), ConstrainedValue::Mutable(Box::new(number(2))));
    let mut cs = ConstraintSystem::new();
    assert_eq!(
        evaluate(&mut program, &mut cs, &member_access(variable("n"), "x")),
        Err(ExpressionError::InvalidCircuitAccess(String::from("1u32")))
    );
    assert_eq!(
        evaluate(&mut program, &mut cs, &member_access(variable("m"), "x")),
        Err(ExpressionError::InvalidCircuitAccess(String::from("2u32")))
    );
    assert_eq!(
        evaluate(&mut program, &mut cs, &member_access(variable("Point"), "x")),
        Err(ExpressionError::InvalidCircuitAccess(String::from("circuit Point")))
    );
    assert_eq!(
        record_of(number(1)),
        Err(ExpressionError::InvalidCircuitAccess(String::from("1u32")))
    );
}

fn static_access(record: Expression, name: &str) -> Expression {
    Expression::CircuitStaticFunctionAccess(Box::new(record), Identifier::new(name))
}

#[test]
fn static_function_is_reached_through_the_record_type() {
    let mut program = program_with_point();
    let mut cs = ConstraintSystem::new();
    assert_eq!(
        evaluate(&mut program, &mut cs, &static_access(variable("Point"), "origin")),
        Ok(origin_of_point())
    );
    assert_eq!(program, program_with_point());
}

#[test]
fn function_that_is_not_static_is_not_reached_through_the_record_type() {
    let mut program = program_with_point();
    let mut cs = ConstraintSystem::new();
    assert_eq!(
        evaluate(&mut program, &mut cs, &static_access(variable("Point"), "norm")),
        Err(ExpressionError::InvalidStaticFunction(String::from("norm")))
    );
}

#[test]
fn function_that_the_record_type_does_not_have_is_undefined() {
    let mut program = program_with_point();
    let mut cs = ConstraintSystem::new();
    assert_eq!(
        evaluate(&mut program, &mut cs, &static_access(variable("Point"), "area")),
        Err(ExpressionError::UndefinedStaticFunction(String::from("Point"), String::from("area")))
    );
    assert_eq!(
        evaluate(&mut program, &mut cs, &static_access(variable("Point"), "x")),
        Err(ExpressionError::UndefinedStaticFunction(String::from("Point"), String::from("x")))
    );
}

#[test]
fn static_access_needs_a_record_type() {
    let mut program = program_with_point_and("main.f.p", point(3, 4));
    let mut cs = ConstraintSystem::new();
    assert_eq!(
        evaluate(&mut program, &mut cs, &static_access(variable("p"), "origin")),
        Err(ExpressionError::InvalidCircuitAccess(String::from(
            "Point {x: 3u32, norm: function norm, origin: static function origin, y: 4u32}"
        )))
    );
    assert_eq!(
        access_static(number(1), &Identifier::new("origin")),
        Err(ExpressionError::InvalidCircuitAccess(String::from("1u32")))
    );
}

#[test]
fn lookups_take_the_first_match() {
    let bindings = vec![bind("x", implicit("1")), bind("y", implicit("2")), bind("x", implicit("3"))];
    assert_eq!(find_binding(&bindings, &Identifier::new("x")), Some(0));
    assert_eq!(find_binding(&bindings, &Identifier::new("y")), Some(1));
    assert_eq!(find_binding(&bindings, &Identifier::new("z")), None);
    assert_eq!(find_binding(&vec![], &Identifier::new("x")), None);
    let members = vec![member("a", number(1)), member("b", number(2)), member("b", number(3))];
    assert_eq!(find_member(&members, &Identifier::new("b")), Some(1));
    assert_eq!(find_member(&members, &Identifier::new("c")), None);
    assert_eq!(find_function(&point_type(), &Identifier::new("origin")), Some(2));
    assert_eq!(find_function(&point_type(), &Identifier::new("norm")), Some(1));
    assert_eq!(find_function(&point_type(), &Identifier::new("x")), None);
}

#[test]
fn bind_fields_stores_fields_only() {
    let mut program = ConstrainedProgram::new();
    let members = vec![
        member("x", number(1)),
        member("norm", norm_of_point()),
        member("origin", ConstrainedValue::Static(Box::new(origin_of_point()))),
        member("x", number(2)),
        member("m", ConstrainedValue::Mutable(Box::new(number(3)))),
    ];
    program.bind_fields("s", &members);
    assert_eq!(program.get("s.x"), Some(&number(2)));
    assert_eq!(program.get("s.m"), Some(&ConstrainedValue::Mutable(Box::new(number(3)))));
    assert_eq!(program.get("s.norm"), None);
    assert_eq!(program.get("s.origin"), None);
}
