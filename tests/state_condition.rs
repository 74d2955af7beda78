use bevy_hsm::state_condition::{HsmOnEnterCondition, HsmOnExitCondition};
use bevy_hsm::state_condition::{
    CallbackError, CombinationCondition, CombinationConditionId, EvalStep, StateConditions,
};

fn id(name: &str) -> CombinationCondition {
    CombinationCondition::new(name)
}

#[test]
fn test_combination_condition() {
    let conditions = CombinationCondition::new("a").add_and(CombinationCondition::new("b"));
    assert_eq!(
        conditions,
        CombinationCondition::And(vec![
            CombinationCondition::new("a"),
            CombinationCondition::new("b"),
        ])
    );

    let conditions = CombinationCondition::new("a").add_or(CombinationCondition::new("c"));
    assert_eq!(
        conditions,
        CombinationCondition::Or(vec![
            CombinationCondition::new("a"),
            CombinationCondition::new("c"),
        ])
    );

    let conditions = CombinationCondition::new("a")
        .add_and(CombinationCondition::new("b"))
        .add_or(CombinationCondition::new("c"));
    assert_eq!(
        conditions,
        CombinationCondition::Or(vec![
            CombinationCondition::And(vec![
                CombinationCondition::new("a"),
                CombinationCondition::new("b"),
            ]),
            CombinationCondition::new("c"),
        ])
    );

    let a_conditions = CombinationCondition::new("a").add_and(CombinationCondition::new("b"));
    let b_conditions = CombinationCondition::new("c").add_and(CombinationCondition::new("d"));
    let conditions = a_conditions.add_and(b_conditions);
    assert_eq!(conditions.to_string(), "And(a, b, c, d)");

    let a_conditions = CombinationCondition::new("a").add_or(CombinationCondition::new("b"));
    let b_conditions = CombinationCondition::new("c").add_or(CombinationCondition::new("d"));
    let conditions = a_conditions.add_or(b_conditions);
    assert_eq!(conditions.to_string(), "Or(a, b, c, d)");
}

#[test]
fn test_debug_combination_condition() {
    let conditions = CombinationCondition::new("a")
        .add_and(CombinationCondition::new("b"))
        .add_or(CombinationCondition::new("c"));
    assert_eq!(conditions.to_string(), "Or(And(a, b), c)");
}

#[test]
fn test_hsm_combination_condition() {
    let and_condition = CombinationCondition::And(vec![id("a"), id("b")]);
    assert_eq!(and_condition.to_string(), "And(a, b)");

    let or_condition = CombinationCondition::Or(vec![id("a"), id("b")]);
    assert_eq!(or_condition.to_string(), "Or(a, b)");

    let not_condition = CombinationCondition::Not(Box::new(id("a")));
    assert_eq!(not_condition.to_string(), "Not(a)");

    let id_condition = id("a");
    assert_eq!(id_condition.to_string(), "a");

    let combination_condition = CombinationCondition::And(vec![
        CombinationCondition::Or(vec![id("a"), id("b")]),
        id("c"),
    ]);
    assert_eq!(combination_condition.to_string(), "And(Or(a, b), c)");

    let combination_condition =
        CombinationCondition::And(vec![and_condition, not_condition, or_condition]);
    assert_eq!(
        combination_condition.to_string(),
        "And(And(a, b), Not(a), Or(a, b))"
    );
}

#[test]
fn test_parse_combination_condition() {
    let condition = CombinationCondition::parse("And(a, b)").unwrap();
    assert_eq!(condition.to_string(), "And(a, b)");

    let condition = CombinationCondition::parse("Or(a, b)").unwrap();
    assert_eq!(condition.to_string(), "Or(a, b)");

    let condition = CombinationCondition::parse("Not(a)").unwrap();
    assert_eq!(condition.to_string(), "Not(a)");

    let condition = CombinationCondition::parse("a").unwrap();
    assert_eq!(condition.to_string(), "a");

    let condition = CombinationCondition::parse("And(a, Not(b), Or(c, b))").unwrap();
    assert_eq!(condition.to_string(), "And(a, Not(b), Or(c, b))");
}

#[test]
fn test_combination_condition_creation() {
    let and_condition = CombinationCondition::and(vec![
        CombinationCondition::new("a"),
        CombinationCondition::new("b"),
    ]);
    assert_eq!(and_condition.to_string(), "And(a, b)");

    let or_condition = CombinationCondition::or(vec![
        CombinationCondition::new("a"),
        CombinationCondition::new("b"),
    ]);
    assert_eq!(or_condition.to_string(), "Or(a, b)");

    let not_condition = CombinationCondition::not(CombinationCondition::new("a"));
    assert_eq!(not_condition.to_string(), "Not(a)");
}

#[test]
fn test_parse_error_handling() {
    assert!(CombinationCondition::parse("And(a)").is_err());
    assert!(CombinationCondition::parse("Or(b)").is_err());
    assert!(CombinationCondition::parse("").is_err());
    assert!(CombinationCondition::parse("InvalidOp(a, b)").is_err());
    assert!(CombinationCondition::parse("And(Op(a, b), c)").is_err());
}

#[test]
fn parse_arity_examples() {
    assert!(CombinationCondition::parse("And(a)").is_err());
    assert_eq!(
        CombinationCondition::parse("And(a,b)").unwrap(),
        CombinationCondition::And(vec![id("a"), id("b")])
    );
    assert!(CombinationCondition::parse("Or()").is_err());
    assert!(CombinationCondition::parse("And(a, b").is_err());
    assert!(CombinationCondition::parse("Not(a, b)").is_err());
    assert!(CombinationCondition::parse("Not a").is_err());
}

#[test]
fn parse_does_not_flatten_explicit_groups() {
    let c = CombinationCondition::parse("And(And(a, b), c)").unwrap();
    assert_eq!(
        c,
        CombinationCondition::And(vec![
            CombinationCondition::And(vec![id("a"), id("b")]),
            id("c"),
        ])
    );
}

#[test]
fn builders_flatten_and_cancel() {
    let c = id("a").add_and(id("b")).add_and(id("c").add_and(id("d")));
    assert_eq!(c.to_string(), "And(a, b, c, d)");
    let c = id("a").add_and(id("b")).add_and(id("c"));
    assert_eq!(c.to_string(), "And(a, b, c)");
    let c = id("a").add_or(id("b").add_or(id("c")));
    assert_eq!(c.to_string(), "Or(a, b, c)");
    let c = id("a").add_and(id("b")).add_or(id("c"));
    assert_eq!(c.to_string(), "Or(And(a, b), c)");
    assert_eq!(id("a").add_not().add_not(), id("a"));
    assert_eq!(CombinationCondition::default().to_string(), "");
}

#[test]
fn parse_format_round_trip_examples() {
    let samples = [
        "x",
        "Not(Not(x))",
        "And(a_1, Or(b, Not(c)), d)",
        "Or(And(a, b), And(c, d), e9)",
    ];
    for s in samples {
        let c = CombinationCondition::parse(s).unwrap();
        assert_eq!(c.to_string(), s);
        assert_eq!(CombinationCondition::parse(&c.to_string()).unwrap(), c);
    }
}

#[test]
fn parse_character_classes() {
    // Unicode letters start and continue identifiers.
    assert_eq!(CombinationCondition::parse("état").unwrap(), id("état"));
    assert_eq!(CombinationCondition::parse("a1_b").unwrap(), id("a1_b"));
    // A digit cannot start an identifier.
    assert!(CombinationCondition::parse("1a").is_err());
    // Any Unicode white space separates tokens.
    assert_eq!(
        CombinationCondition::parse("\tAnd(a,\n b)\u{3000}").unwrap(),
        CombinationCondition::And(vec![id("a"), id("b")])
    );
    // Text after the condition, or a stray character, is an error.
    assert!(CombinationCondition::parse("a b").is_err());
    assert!(CombinationCondition::parse("And(a, b) c").is_err());
    assert!(CombinationCondition::parse("a #").is_err());
    assert!(CombinationCondition::parse("#a").is_err());
    assert!(CombinationCondition::parse("And(a, b) ").is_ok());
}

fn and2(a: u64, b: u64) -> CombinationConditionId {
    CombinationConditionId::And(vec![CombinationConditionId::new(a), CombinationConditionId::new(b)])
}

#[test]
fn and_short_circuits_on_false() {
    let c = and2(1, 2);
    assert_eq!(c.run(&vec![]), EvalStep::Needs(1));
    assert_eq!(c.run(&vec![Ok(false)]), EvalStep::Done(Ok(false), 1));
    let failed = Err(CallbackError { condition: 2 });
    assert_eq!(c.run(&vec![Ok(false), failed]), EvalStep::Done(Ok(false), 1));
    assert_eq!(c.run(&vec![Ok(true)]), EvalStep::Needs(2));
    assert_eq!(c.run(&vec![Ok(true), failed]), EvalStep::Done(failed, 2));
    assert_eq!(c.run(&vec![Ok(true), Ok(true)]), EvalStep::Done(Ok(true), 2));
}

#[test]
fn or_short_circuits_on_true_and_not_negates() {
    let c = CombinationConditionId::Or(vec![
        CombinationConditionId::new(1),
        CombinationConditionId::Not(Box::new(CombinationConditionId::new(2))),
    ]);
    assert_eq!(c.run(&vec![Ok(true)]), EvalStep::Done(Ok(true), 1));
    assert_eq!(c.run(&vec![Ok(false), Ok(false)]), EvalStep::Done(Ok(true), 2));
    assert_eq!(c.run(&vec![Ok(false), Ok(true)]), EvalStep::Done(Ok(false), 2));
    let failed = Err(CallbackError { condition: 1 });
    assert_eq!(c.run(&vec![failed]), EvalStep::Done(failed, 1));
}

#[test]
fn resolve_names_through_registry() {
    let mut table = StateConditions::new();
    assert!(table.is_empty());
    assert_eq!(table.insert("a", 10), None);
    assert_eq!(table.insert("b", 20), None);
    assert_eq!(table.insert("a", 11), Some(10));
    assert_eq!(table.get("a"), Some(11));
    assert_eq!(table.get("c"), None);

    let c = CombinationCondition::parse("And(a, Not(b))").unwrap();
    let bound = table.to_combinator_condition_id(&c).unwrap();
    assert_eq!(
        bound,
        CombinationConditionId::And(vec![
            CombinationConditionId::Id(11),
            CombinationConditionId::Not(Box::new(CombinationConditionId::Id(20))),
        ])
    );
    let missing = CombinationCondition::parse("Or(a, c)").unwrap();
    assert_eq!(table.to_combinator_condition_id(&missing), None);

    assert_eq!(table.remove("a"), Some(11));
    assert_eq!(table.remove("a"), None);
    assert_eq!(table.get("a"), None);
    assert_eq!(table.get("b"), Some(20));
}

#[test]
fn exit_guard_parses_text() {
    let g = HsmOnExitCondition::parse("Or(a, b)").unwrap();
    assert_eq!(g.0.to_string(), "Or(a, b)");
    assert!(HsmOnExitCondition::parse("Or(a)").is_err());
    assert_eq!(HsmOnEnterCondition::new("a").0, id("a"));
    assert_eq!(HsmOnExitCondition::new("b").0, id("b"));
}

#[test]
fn bound_condition_builders() {
    let c = CombinationConditionId::new(1)
        .add_and(CombinationConditionId::new(2))
        .add_and(CombinationConditionId::new(3));
    assert_eq!(
        c,
        CombinationConditionId::And(vec![
            CombinationConditionId::Id(1),
            CombinationConditionId::Id(2),
            CombinationConditionId::Id(3),
        ])
    );
    let o = CombinationConditionId::new(1).add_or(CombinationConditionId::new(2));
    assert_eq!(o.run(&vec![Ok(false), Ok(true)]), EvalStep::Done(Ok(true), 2));
    let n = CombinationConditionId::new(4).add_not();
    assert_eq!(n.run(&vec![Ok(true)]), EvalStep::Done(Ok(false), 1));
    assert_eq!(n.add_not(), CombinationConditionId::new(4));
}
