use metrics_provider::pkg::selection::{InvalidOperator, Operator};

fn all_operators() -> Vec<Operator> {
    vec![
        Operator::DoesNotExist,
        Operator::Equals,
        Operator::DoubleEquals,
        Operator::In,
        Operator::NotEquals,
        Operator::NotIn,
        Operator::Exists,
        Operator::GreaterThan,
        Operator::LessThan,
    ]
}

#[test]
fn operator_tokens_are_canonical() {
    assert_eq!(Operator::DoesNotExist.as_str(), "!");
    assert_eq!(Operator::Equals.as_str(), "=");
    assert_eq!(Operator::DoubleEquals.as_str(), "==");
    assert_eq!(Operator::In.as_str(), "in");
    assert_eq!(Operator::NotEquals.as_str(), "!=");
    assert_eq!(Operator::NotIn.as_str(), "notin");
    assert_eq!(Operator::Exists.as_str(), "exists");
    assert_eq!(Operator::GreaterThan.as_str(), "gt");
    assert_eq!(Operator::LessThan.as_str(), "lt");
}

#[test]
fn operator_to_string_is_the_token() {
    for operator in all_operators() {
        assert_eq!(operator.to_string(), operator.as_str());
    }
    assert_eq!(Operator::NotIn.to_string(), "notin");
}

#[test]
fn operator_round_trips_through_its_token() {
    for operator in all_operators() {
        assert_eq!(Operator::parse(operator.as_str()), Ok(operator));
        assert_eq!(operator.as_str().parse::<Operator>(), Ok(operator));
    }
}

#[test]
fn operator_parse_reads_each_token() {
    assert_eq!(Operator::parse("!"), Ok(Operator::DoesNotExist));
    assert_eq!(Operator::parse("="), Ok(Operator::Equals));
    assert_eq!(Operator::parse("=="), Ok(Operator::DoubleEquals));
    assert_eq!(Operator::parse("in"), Ok(Operator::In));
    assert_eq!(Operator::parse("!="), Ok(Operator::NotEquals));
    assert_eq!(Operator::parse("notin"), Ok(Operator::NotIn));
    assert_eq!(Operator::parse("exists"), Ok(Operator::Exists));
    assert_eq!(Operator::parse("gt"), Ok(Operator::GreaterThan));
    assert_eq!(Operator::parse("lt"), Ok(Operator::LessThan));
}

#[test]
fn operator_parse_refuses_other_texts() {
    let extended = format!("{}{}", "==", "x");
    assert_eq!(Operator::parse("In"), Err(InvalidOperator));
    assert_eq!(Operator::parse(""), Err(InvalidOperator));
    assert_eq!(Operator::parse(&extended), Err(InvalidOperator));
    assert_eq!(Operator::parse(" in"), Err(InvalidOperator));
    assert_eq!(Operator::parse("in "), Err(InvalidOperator));
    assert_eq!(Operator::parse("NOTIN"), Err(InvalidOperator));
    assert_eq!(Operator::parse("not in"), Err(InvalidOperator));
    assert_eq!(Operator::parse("==="), Err(InvalidOperator));
    assert_eq!(Operator::parse(">"), Err(InvalidOperator));
    assert_eq!(Operator::parse("<"), Err(InvalidOperator));
    assert_eq!(Operator::parse("exist"), Err(InvalidOperator));
    assert_eq!(Operator::parse("existss"), Err(InvalidOperator));
    assert_eq!(Operator::parse("g\u{0442}"), Err(InvalidOperator));
}

#[test]
fn operator_from_str_refuses_other_texts() {
    assert_eq!("In".parse::<Operator>(), Err(InvalidOperator));
    assert_eq!("".parse::<Operator>(), Err(InvalidOperator));
    assert_eq!("==x".parse::<Operator>(), Err(InvalidOperator));
}
