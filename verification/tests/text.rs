use leo_compiler::ast::CircuitFieldDefinition;
use leo_compiler::ast::Expression;
use leo_compiler::ast::RangeOrExpression;
use leo_compiler::ast::SpreadOrExpression;
use leo_compiler::field::FieldElement;
use leo_compiler::group::GroupElement;
use leo_compiler::integer::Integer;
use leo_compiler::text::decimal;
use leo_compiler::text::new_scope;
use leo_compiler::text::parse_number;
use leo_compiler::types::Identifier;
use leo_compiler::types::Type;
use leo_compiler::integer::IntegerType;

#[test]
fn decimal_writes_without_leading_zeros() {
    assert_eq!(decimal(0), "0");
    assert_eq!(decimal(7), "7");
    assert_eq!(decimal(10), "10");
    assert_eq!(decimal(1_000_000), "1000000");
    assert_eq!(decimal(u128::MAX), "340282366920938463463374607431768211455");
}

#[test]
fn parse_number_reads_digits_only() {
    assert_eq!(parse_number("0", 255), Some(0));
    assert_eq!(parse_number("255", 255), Some(255));
    assert_eq!(parse_number("256", 255), None);
    assert_eq!(parse_number("007", 255), Some(7));
    assert_eq!(parse_number("", 255), None);
    assert_eq!(parse_number("+1", 255), None);
    assert_eq!(parse_number("-1", 255), None);
    assert_eq!(parse_number(" 1", 255), None);
    assert_eq!(parse_number("1 ", 255), None);
    assert_eq!(parse_number("1a", 255), None);
    assert_eq!(parse_number("१", 255), None);
    assert_eq!(parse_number("9", 5), None);
    assert_eq!(
        parse_number("340282366920938463463374607431768211455", u128::MAX),
        Some(u128::MAX)
    );
    assert_eq!(parse_number("340282366920938463463374607431768211456", u128::MAX), None);
    assert_eq!(parse_number("3402823669209384634633746074317682114550", u128::MAX), None);
}

#[test]
fn parse_number_undoes_decimal() {
    for n in [0u128, 1, 9, 10, 99, 100, 12345, u64::MAX as u128, u128::MAX] {
        assert_eq!(parse_number(decimal(n).as_str(), u128::MAX), Some(n));
    }
}

#[test]
fn new_scope_joins_with_a_dot() {
    assert_eq!(new_scope("main", "x"), "main.x");
    assert_eq!(new_scope("main.Point", "norm"), "main.Point.norm");
    assert_eq!(new_scope("", ""), ".");
}

#[test]
fn identifier_knows_the_name_of_the_record_itself() {
    assert!(Identifier::new("self").is_self());
    assert!(!Identifier::new("Self").is_self());
    assert!(!Identifier::new("selfish").is_self());
    assert!(Identifier::new("x").equals(&Identifier::new("x")));
    assert!(!Identifier::new("x").equals(&Identifier::new("y")));
    assert_eq!(Identifier::new("x").duplicate(), Identifier::new("x"));
}

#[test]
fn types_are_written_as_in_the_language() {
    assert_eq!(Type::IntegerType(IntegerType::U8).to_text(), "u8");
    assert_eq!(Type::IntegerType(IntegerType::U128).to_text(), "u128");
    assert_eq!(Type::FieldElement.to_text(), "field");
    assert_eq!(Type::GroupElement.to_text(), "group");
    assert_eq!(Type::Boolean.to_text(), "bool");
    assert_eq!(Type::Circuit(Identifier::new("Point")).to_text(), "circuit Point");
    assert_eq!(Type::SelfType.to_text(), "Self");
    assert_eq!(
        Type::Array(Box::new(Type::IntegerType(IntegerType::U32)), vec![2, 3]).to_text(),
        "u32[2][3]"
    );
    assert_eq!(Type::Array(Box::new(Type::Boolean), vec![]).to_text(), "bool");
}

#[test]
fn inner_dimension_takes_the_outermost_dimension_off() {
    let element = Type::IntegerType(IntegerType::U32);
    assert_eq!(
        Type::Array(Box::new(element.duplicate()), vec![2, 3, 4]).inner_dimension(),
        Type::Array(Box::new(element.duplicate()), vec![3, 4])
    );
    assert_eq!(Type::Array(Box::new(element.duplicate()), vec![2]).inner_dimension(), element);
    assert_eq!(Type::Array(Box::new(element.duplicate()), vec![]).inner_dimension(), element);
    assert_eq!(Type::Boolean.inner_dimension(), Type::Boolean);
}

#[test]
fn type_copy_is_equal_to_the_type() {
    let nested = Type::Array(
        Box::new(Type::Array(Box::new(Type::Circuit(Identifier::new("P"))), vec![1])),
        vec![2, 3],
    );
    assert_eq!(nested.duplicate(), nested);
}

#[test]
fn expressions_are_written_as_in_the_language() {
    let name = |text: &str| Box::new(Expression::Identifier(Identifier::new(text)));
    let number = |text: &str| Box::new(Expression::Implicit(String::from(text)));
    let u8_of = |value: u128| Integer { integer_type: IntegerType::U8, value };
    assert_eq!(name("x").to_text(), "x");
    assert_eq!(number("12").to_text(), "12");
    assert_eq!(Expression::Integer(u8_of(3)).to_text(), "3u8");
    assert_eq!(Expression::FieldElement(FieldElement { value: 5 }).to_text(), "5");
    assert_eq!(
        Expression::GroupElement(GroupElement {
            x: FieldElement { value: 0 },
            y: FieldElement { value: 1 }
        })
        .to_text(),
        "(0, 1)"
    );
    assert_eq!(Expression::Boolean(true).to_text(), "true");
    assert_eq!(Expression::Boolean(false).to_text(), "false");
    assert_eq!(Expression::Add(name("a"), number("1")).to_text(), "a + 1");
    assert_eq!(Expression::Sub(name("a"), number("1")).to_text(), "a - 1");
    assert_eq!(Expression::Mul(name("a"), number("1")).to_text(), "a * 1");
    assert_eq!(Expression::Div(name("a"), number("1")).to_text(), "a / 1");
    assert_eq!(Expression::Pow(name("a"), number("1")).to_text(), "a ** 1");
    assert_eq!(Expression::Or(name("a"), name("b")).to_text(), "a || b");
    assert_eq!(Expression::And(name("a"), name("b")).to_text(), "a && b");
    assert_eq!(Expression::Eq(name("a"), name("b")).to_text(), "a == b");
    assert_eq!(Expression::Geq(name("a"), name("b")).to_text(), "a >= b");
    assert_eq!(Expression::Gt(name("a"), name("b")).to_text(), "a > b");
    assert_eq!(Expression::Leq(name("a"), name("b")).to_text(), "a <= b");
    assert_eq!(Expression::Lt(name("a"), name("b")).to_text(), "a < b");
    assert_eq!(Expression::Not(name("a")).to_text(), "!a");
    assert_eq!(Expression::IfElse(name("c"), number("7"), number("9")).to_text(), "c ? 7 : 9");
    assert_eq!(Expression::Array(vec![]).to_text(), "[]");
    assert_eq!(
        Expression::Array(vec![
            SpreadOrExpression::Spread(Identifier::new("xs")),
            SpreadOrExpression::Expression(*number("3")),
            SpreadOrExpression::Expression(Expression::Array(vec![])),
        ])
        .to_text(),
        "[...xs, 3, []]"
    );
    let access = |index: RangeOrExpression| Expression::ArrayAccess(name("xs"), Box::new(index));
    assert_eq!(access(RangeOrExpression::Expression(*number("1"))).to_text(), "xs[1]");
    assert_eq!(access(RangeOrExpression::Range(None, None)).to_text(), "xs[..]");
    assert_eq!(access(RangeOrExpression::Range(Some(u8_of(1)), None)).to_text(), "xs[1u8..]");
    assert_eq!(
        access(RangeOrExpression::Range(Some(u8_of(1)), Some(u8_of(2)))).to_text(),
        "xs[1u8..2u8]"
    );
    assert_eq!(Expression::Circuit(Identifier::new("Unit"), vec![]).to_text(), "Unit {}");
    assert_eq!(
        Expression::Circuit(
            Identifier::new("Point"),
            vec![
                CircuitFieldDefinition { identifier: Identifier::new("y"), expression: *number("4") },
                CircuitFieldDefinition { identifier: Identifier::new("x"), expression: *name("a") },
            ]
        )
        .to_text(),
        "Point {y: 4, x: a}"
    );
    assert_eq!(
        Expression::CircuitMemberAccess(name("p"), Identifier::new("x")).to_text(),
        "p.x"
    );
    assert_eq!(
        Expression::CircuitStaticFunctionAccess(name("Point"), Identifier::new("origin")).to_text(),
        "Point::origin"
    );
    assert_eq!(Expression::FunctionCall(name("f"), vec![]).to_text(), "f()");
    assert_eq!(
        Expression::FunctionCall(
            Box::new(Expression::CircuitMemberAccess(name("p"), Identifier::new("norm"))),
            vec![*number("1"), Expression::Add(name("a"), name("b"))]
        )
        .to_text(),
        "p.norm(1, a + b)"
    );
}
