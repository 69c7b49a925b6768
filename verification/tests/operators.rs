use leo_compiler::constraint_system::BooleanOperation;
use leo_compiler::constraint_system::Constraint;
use leo_compiler::constraint_system::ConstraintSystem;
use leo_compiler::errors::ExpressionError;
use leo_compiler::field::FieldElement;
use leo_compiler::field::FieldOperation;
use leo_compiler::field::MODULUS;
use leo_compiler::group::GroupElement;
use leo_compiler::integer::GadgetError;
use leo_compiler::integer::Integer;
use leo_compiler::integer::IntegerOperation;
use leo_compiler::integer::IntegerType;
use leo_compiler::operators::select_branches;
use leo_compiler::program::ConstrainedProgram;
use leo_compiler::types::Identifier;
use leo_compiler::types::Type;
use leo_compiler::value::ConstrainedValue;

fn u32_of(value: u128) -> Integer {
    Integer { integer_type: IntegerType::U32, value }
}

fn number(value: u128) -> ConstrainedValue {
    ConstrainedValue::Integer(u32_of(value))
}

fn field(value: u64) -> ConstrainedValue {
    ConstrainedValue::FieldElement(FieldElement { value })
}

fn point(x: u64, y: u64) -> ConstrainedValue {
    ConstrainedValue::GroupElement(GroupElement {
        x: FieldElement { value: x },
        y: FieldElement { value: y },
    })
}

fn boolean(value: bool) -> ConstrainedValue {
    ConstrainedValue::Boolean(value)
}

fn mutable(value: ConstrainedValue) -> ConstrainedValue {
    ConstrainedValue::Mutable(Box::new(value))
}

fn unresolved(text: &str) -> ConstrainedValue {
    ConstrainedValue::Unresolved(String::from(text))
}

fn incompatible(text: &str) -> Result<ConstrainedValue, ExpressionError> {
    Err(ExpressionError::IncompatibleTypes(String::from(text)))
}

#[test]
fn add_takes_integers_fields_and_groups() {
    let mut program = ConstrainedProgram::new();
    let mut cs = ConstraintSystem::new();
    assert_eq!(program.enforce_add_expression(&mut cs, number(1), number(2)), Ok(number(3)));
    assert_eq!(program.enforce_add_expression(&mut cs, field(MODULUS - 1), field(2)), Ok(field(1)));
    assert_eq!(program.enforce_add_expression(&mut cs, point(3, 4), point(0, 1)), Ok(point(3, 4)));
    assert_eq!(cs.num_constraints(), 2);
    assert_eq!(
        cs.constraint(1),
        Some(Constraint::Field {
            operation: FieldOperation::Add,
            left: FieldElement { value: MODULUS - 1 },
            right: FieldElement { value: 2 },
            output: FieldElement { value: 1 },
        })
    );
    assert_eq!(program, ConstrainedProgram::new());
}

#[test]
fn add_refuses_two_classes() {
    let mut program = ConstrainedProgram::new();
    let mut cs = ConstraintSystem::new();
    assert_eq!(
        program.enforce_add_expression(&mut cs, boolean(true), number(1)),
        incompatible("true + 1u32")
    );
    assert_eq!(
        program.enforce_add_expression(&mut cs, number(1), field(2)),
        incompatible("1u32 + 2")
    );
    assert_eq!(
        program.enforce_add_expression(&mut cs, boolean(true), boolean(false)),
        incompatible("true + false")
    );
    assert_eq!(
        program.enforce_add_expression(
            &mut cs,
            ConstrainedValue::Array(vec![number(1), number(2)]),
            point(3, 4)
        ),
        incompatible("[1u32, 2u32] + (3, 4)")
    );
    assert_eq!(cs.num_constraints(), 0);
}

#[test]
fn add_surfaces_the_failure_of_the_gadget() {
    let mut program = ConstrainedProgram::new();
    let mut cs = ConstraintSystem::new();
    assert_eq!(
        program.enforce_add_expression(&mut cs, number(u32::MAX as u128), number(1)),
        Err(ExpressionError::GadgetError(GadgetError::Overflow))
    );
    assert_eq!(
        program.enforce_add_expression(
            &mut cs,
            number(1),
            ConstrainedValue::Integer(Integer { integer_type: IntegerType::U8, value: 1 })
        ),
        Err(ExpressionError::GadgetError(GadgetError::MismatchedWidths))
    );
    assert_eq!(cs.num_constraints(), 0);
}

#[test]
fn sub_takes_integers_fields_and_groups() {
    let mut program = ConstrainedProgram::new();
    let mut cs = ConstraintSystem::new();
    assert_eq!(program.enforce_sub_expression(&mut cs, number(9), number(4)), Ok(number(5)));
    assert_eq!(program.enforce_sub_expression(&mut cs, field(3), field(4)), Ok(field(MODULUS - 1)));
    assert_eq!(program.enforce_sub_expression(&mut cs, point(3, 4), point(0, 1)), Ok(point(3, 4)));
    assert_eq!(
        program.enforce_sub_expression(&mut cs, number(4), number(9)),
        Err(ExpressionError::GadgetError(GadgetError::Overflow))
    );
    assert_eq!(
        program.enforce_sub_expression(&mut cs, number(4), boolean(true)),
        incompatible("4u32 - true")
    );
    assert_eq!(cs.num_constraints(), 2);
}

#[test]
fn mul_takes_integers_and_fields_only() {
    let mut program = ConstrainedProgram::new();
    let mut cs = ConstraintSystem::new();
    assert_eq!(program.enforce_mul_expression(&mut cs, number(6), number(7)), Ok(number(42)));
    assert_eq!(program.enforce_mul_expression(&mut cs, field(6), field(7)), Ok(field(42)));
    assert_eq!(
        program.enforce_mul_expression(&mut cs, point(3, 4), point(0, 1)),
        incompatible("(3, 4) * (0, 1)")
    );
    assert_eq!(
        program.enforce_mul_expression(&mut cs, point(3, 4), field(2)),
        incompatible("(3, 4) * 2")
    );
    assert_eq!(cs.num_constraints(), 2);
}

#[test]
fn div_takes_integers_and_fields_only() {
    let mut program = ConstrainedProgram::new();
    let mut cs = ConstraintSystem::new();
    assert_eq!(program.enforce_div_expression(&mut cs, number(17), number(5)), Ok(number(3)));
    assert_eq!(program.enforce_div_expression(&mut cs, field(6), field(3)), Ok(field(2)));
    assert_eq!(
        program.enforce_div_expression(&mut cs, number(17), number(0)),
        Err(ExpressionError::GadgetError(GadgetError::DivisionByZero))
    );
    assert_eq!(
        program.enforce_div_expression(&mut cs, field(17), field(0)),
        Err(ExpressionError::GadgetError(GadgetError::DivisionByZero))
    );
    assert_eq!(
        program.enforce_div_expression(&mut cs, point(3, 4), point(0, 1)),
        incompatible("(3, 4) / (0, 1)")
    );
    assert_eq!(cs.num_constraints(), 2);
}

#[test]
fn pow_takes_an_integer_exponent() {
    let mut program = ConstrainedProgram::new();
    let mut cs = ConstraintSystem::new();
    assert_eq!(program.enforce_pow_expression(&mut cs, number(2), number(10)), Ok(number(1024)));
    assert_eq!(program.enforce_pow_expression(&mut cs, field(2), number(64)), Ok(field((1 << 32) - 1)));
    assert_eq!(
        cs.constraint(1),
        Some(Constraint::FieldPower {
            base: FieldElement { value: 2 },
            exponent: u32_of(64),
            output: FieldElement { value: (1 << 32) - 1 },
        })
    );
    assert_eq!(
        program.enforce_pow_expression(&mut cs, number(2), field(5)),
        Err(ExpressionError::InvalidExponent(String::from("5")))
    );
    assert_eq!(
        program.enforce_pow_expression(&mut cs, field(2), field(5)),
        Err(ExpressionError::InvalidExponent(String::from("5")))
    );
    assert_eq!(
        program.enforce_pow_expression(&mut cs, boolean(true), field(5)),
        Err(ExpressionError::InvalidExponent(String::from("5")))
    );
    assert_eq!(
        program.enforce_pow_expression(&mut cs, number(2), boolean(true)),
        incompatible("2u32 ** true")
    );
    assert_eq!(
        program.enforce_pow_expression(&mut cs, point(3, 4), number(2)),
        incompatible("(3, 4) ** 2u32")
    );
    assert_eq!(cs.num_constraints(), 2);
}

#[test]
fn or_and_and_take_booleans() {
    let mut program = ConstrainedProgram::new();
    let mut cs = ConstraintSystem::new();
    assert_eq!(program.enforce_or(&mut cs, boolean(false), boolean(true)), Ok(boolean(true)));
    assert_eq!(program.enforce_or(&mut cs, boolean(false), boolean(false)), Ok(boolean(false)));
    assert_eq!(program.enforce_and(&mut cs, boolean(true), boolean(true)), Ok(boolean(true)));
    assert_eq!(program.enforce_and(&mut cs, boolean(true), boolean(false)), Ok(boolean(false)));
    assert_eq!(
        cs.constraint(3),
        Some(Constraint::Boolean {
            operation: BooleanOperation::And,
            left: true,
            right: false,
            output: false,
        })
    );
    assert_eq!(program.enforce_or(&mut cs, boolean(false), number(1)), incompatible("false || 1u32"));
    assert_eq!(program.enforce_and(&mut cs, number(1), number(1)), incompatible("1u32 && 1u32"));
    assert_eq!(
        program.enforce_and(&mut cs, mutable(boolean(true)), boolean(true)),
        Ok(boolean(true))
    );
    assert_eq!(cs.num_constraints(), 5);
}

#[test]
fn not_takes_a_boolean() {
    assert_eq!(ConstrainedProgram::evaluate_not(boolean(true)), Ok(boolean(false)));
    assert_eq!(ConstrainedProgram::evaluate_not(boolean(false)), Ok(boolean(true)));
    assert_eq!(ConstrainedProgram::evaluate_not(mutable(boolean(false))), Ok(boolean(true)));
    assert_eq!(ConstrainedProgram::evaluate_not(number(1)), incompatible("!1u32"));
    assert_eq!(ConstrainedProgram::evaluate_not(unresolved("1")), incompatible("!unresolved 1"));
}

#[test]
fn eq_takes_booleans_integers_and_groups() {
    let mut program = ConstrainedProgram::new();
    assert_eq!(program.evaluate_eq_expression(boolean(true), boolean(true)), Ok(boolean(true)));
    assert_eq!(program.evaluate_eq_expression(boolean(true), boolean(false)), Ok(boolean(false)));
    assert_eq!(program.evaluate_eq_expression(number(3), number(3)), Ok(boolean(true)));
    assert_eq!(program.evaluate_eq_expression(number(3), number(4)), Ok(boolean(false)));
    assert_eq!(program.evaluate_eq_expression(point(3, 4), point(3, 4)), Ok(boolean(true)));
    assert_eq!(program.evaluate_eq_expression(point(3, 4), point(4, 3)), Ok(boolean(false)));
    assert_eq!(
        program.evaluate_eq_expression(
            number(3),
            ConstrainedValue::Integer(Integer { integer_type: IntegerType::U64, value: 3 })
        ),
        Err(ExpressionError::GadgetError(GadgetError::MismatchedWidths))
    );
    assert_eq!(program.evaluate_eq_expression(field(3), field(3)), incompatible("3 == 3"));
    assert_eq!(program.evaluate_eq_expression(number(3), boolean(true)), incompatible("3u32 == true"));
}

#[test]
fn order_is_not_defined_on_any_class() {
    let mut program = ConstrainedProgram::new();
    assert_eq!(
        program.evaluate_geq_expression(field(1), field(2)),
        incompatible("1 >= 2, values must be fields")
    );
    assert_eq!(
        program.evaluate_gt_expression(number(1), number(2)),
        incompatible("1u32 > 2u32, values must be fields")
    );
    assert_eq!(
        program.evaluate_leq_expression(boolean(true), mutable(number(2))),
        incompatible("true <= 2u32, values must be fields")
    );
    assert_eq!(
        program.evaluate_lt_expression(unresolved("1"), field(2)),
        incompatible("1 < 2, values must be fields")
    );
    assert_eq!(
        program.evaluate_lt_expression(unresolved("x"), field(2)),
        incompatible("unresolved x < 2, values must be fields")
    );
}

#[test]
fn mutable_wrapper_is_transparent_on_both_sides() {
    let mut program = ConstrainedProgram::new();
    let mut cs = ConstraintSystem::new();
    let plain = program.enforce_sub_expression(&mut cs, number(9), number(4));
    let left = program.enforce_sub_expression(&mut cs, mutable(number(9)), number(4));
    let right = program.enforce_sub_expression(&mut cs, number(9), mutable(number(4)));
    let both = program.enforce_sub_expression(&mut cs, mutable(mutable(number(9))), mutable(number(4)));
    assert_eq!(plain, Ok(number(5)));
    assert_eq!(left, plain);
    assert_eq!(right, plain);
    assert_eq!(both, plain);
    assert_eq!(cs.num_constraints(), 4);
    assert_eq!(cs.constraint(0), cs.constraint(1));
    assert_eq!(cs.constraint(0), cs.constraint(2));
    assert_eq!(cs.constraint(0), cs.constraint(3));
    assert_eq!(
        program.enforce_add_expression(&mut cs, mutable(boolean(true)), number(1)),
        incompatible("true + 1u32")
    );
}

#[test]
fn unwrap_mutable_takes_every_wrapper_off() {
    assert_eq!(mutable(mutable(number(1))).unwrap_mutable(), number(1));
    assert_eq!(number(1).unwrap_mutable(), number(1));
    assert_eq!(
        ConstrainedValue::Static(Box::new(mutable(number(1)))).unwrap_mutable(),
        ConstrainedValue::Static(Box::new(mutable(number(1))))
    );
}

#[test]
fn number_without_a_type_takes_the_type_of_its_peer() {
    let mut program = ConstrainedProgram::new();
    let mut cs = ConstraintSystem::new();
    assert_eq!(program.enforce_add_expression(&mut cs, unresolved("1"), number(2)), Ok(number(3)));
    assert_eq!(program.enforce_add_expression(&mut cs, number(2), unresolved("1")), Ok(number(3)));
    assert_eq!(program.enforce_mul_expression(&mut cs, unresolved("3"), field(4)), Ok(field(12)));
    assert_eq!(
        program.enforce_sub_expression(&mut cs, mutable(number(9)), unresolved("4")),
        Ok(number(5))
    );
    assert_eq!(
        program.enforce_pow_expression(&mut cs, field(2), unresolved("3")),
        Err(ExpressionError::InvalidExponent(String::from("3")))
    );
    assert_eq!(cs.num_constraints(), 4);
    assert_eq!(
        cs.constraint(0),
        Some(Constraint::Integer {
            operation: IntegerOperation::Add,
            left: u32_of(1),
            right: u32_of(2),
            output: u32_of(3),
        })
    );
}

#[test]
fn number_that_does_not_read_under_the_type_of_its_peer_is_incompatible() {
    let mut program = ConstrainedProgram::new();
    let mut cs = ConstraintSystem::new();
    let small = ConstrainedValue::Integer(Integer { integer_type: IntegerType::U8, value: 1 });
    assert_eq!(
        program.enforce_add_expression(&mut cs, unresolved("300"), small),
        incompatible("unresolved 300 + 1u8")
    );
    assert_eq!(
        program.enforce_add_expression(&mut cs, unresolved("1"), unresolved("2")),
        incompatible("unresolved 1 + unresolved 2")
    );
    assert_eq!(
        program.enforce_add_expression(&mut cs, unresolved("1"), point(3, 4)),
        incompatible("unresolved 1 + (3, 4)")
    );
    assert_eq!(
        program.enforce_and(&mut cs, boolean(true), unresolved("1")),
        incompatible("true && unresolved 1")
    );
    assert_eq!(
        program.enforce_add_expression(&mut cs, ConstrainedValue::Array(vec![]), unresolved("1")),
        incompatible("[] + unresolved 1")
    );
    assert_eq!(cs.num_constraints(), 0);
}

#[test]
fn choice_takes_two_booleans_or_two_integers() {
    let mut cs = ConstraintSystem::new();
    assert_eq!(select_branches(&mut cs, true, boolean(false), boolean(true)), Ok(boolean(false)));
    assert_eq!(select_branches(&mut cs, false, number(7), number(9)), Ok(number(9)));
    assert_eq!(
        select_branches(&mut cs, true, field(7), field(9)),
        incompatible("true ? 7 : 9")
    );
    assert_eq!(
        select_branches(&mut cs, false, mutable(number(7)), number(9)),
        incompatible("false ? mut 7u32 : 9u32")
    );
    assert_eq!(
        select_branches(
            &mut cs,
            true,
            number(7),
            ConstrainedValue::Integer(Integer { integer_type: IntegerType::U8, value: 9 })
        ),
        Err(ExpressionError::GadgetError(GadgetError::MismatchedWidths))
    );
    assert_eq!(cs.num_constraints(), 2);
}

#[test]
fn values_read_from_text_under_a_type() {
    let u8_type = Type::IntegerType(IntegerType::U8);
    assert_eq!(
        ConstrainedValue::from_type("255", &u8_type),
        Some(ConstrainedValue::Integer(Integer { integer_type: IntegerType::U8, value: 255 }))
    );
    assert_eq!(ConstrainedValue::from_type("256", &u8_type), None);
    assert_eq!(ConstrainedValue::from_type("", &u8_type), None);
    assert_eq!(ConstrainedValue::from_type("5", &Type::FieldElement), Some(field(5)));
    assert_eq!(
        ConstrainedValue::from_type("18446744069414584320", &Type::FieldElement),
        Some(field(MODULUS - 1))
    );
    assert_eq!(ConstrainedValue::from_type("18446744069414584321", &Type::FieldElement), None);
    assert_eq!(ConstrainedValue::from_type("true", &Type::Boolean), Some(boolean(true)));
    assert_eq!(ConstrainedValue::from_type("false", &Type::Boolean), Some(boolean(false)));
    assert_eq!(ConstrainedValue::from_type("1", &Type::Boolean), None);
    assert_eq!(ConstrainedValue::from_type("1", &Type::GroupElement), None);
    assert_eq!(ConstrainedValue::from_type("1", &Type::SelfType), None);
    assert_eq!(ConstrainedValue::from_type("1", &Type::Circuit(Identifier::new("P"))), None);
    assert_eq!(
        ConstrainedValue::from_type(
            "7",
            &Type::Array(Box::new(Type::Array(Box::new(Type::FieldElement), vec![2])), vec![3])
        ),
        Some(field(7))
    );
}

#[test]
fn values_read_from_text_beside_a_peer() {
    assert_eq!(ConstrainedValue::from_other("7", &number(1)), Some(number(7)));
    assert_eq!(ConstrainedValue::from_other("7", &field(1)), Some(field(7)));
    assert_eq!(ConstrainedValue::from_other("true", &boolean(false)), Some(boolean(true)));
    assert_eq!(ConstrainedValue::from_other("7", &point(3, 4)), None);
    assert_eq!(ConstrainedValue::from_other("7", &unresolved("1")), None);
    assert_eq!(ConstrainedValue::from_other("7", &mutable(number(1))), None);
    assert_eq!(ConstrainedValue::from_other("7", &ConstrainedValue::Array(vec![number(1)])), None);
}

#[test]
fn values_of_the_primitive_classes_have_a_type() {
    assert_eq!(number(1).to_type(), Some(Type::IntegerType(IntegerType::U32)));
    assert_eq!(field(1).to_type(), Some(Type::FieldElement));
    assert_eq!(point(3, 4).to_type(), Some(Type::GroupElement));
    assert_eq!(boolean(true).to_type(), Some(Type::Boolean));
    assert_eq!(unresolved("1").to_type(), None);
    assert_eq!(mutable(number(1)).to_type(), None);
    assert_eq!(ConstrainedValue::Array(vec![]).to_type(), None);
}
