use lox_runtime::rule::ParseFn;
use lox_runtime::rule::Precedence;
use lox_runtime::rule::Rule;

#[test]
pub fn test_rules() {
    let rule = Rule { prefix: None, infix: None, precedence: Precedence::Lowest };
    println!("{:?}", rule);
}

#[test]
fn fmt_shows_routines_opaquely() {
    let empty = Rule { prefix: None, infix: None, precedence: Precedence::Lowest };
    assert_eq!(empty.fmt(), "Rule { prefix: None, infix: None, precedence: Lowest }");
    let minus = Rule {
        prefix: Some(ParseFn::Unary),
        infix: Some(ParseFn::Binary),
        precedence: Precedence::Term,
    };
    assert_eq!(minus.fmt(), "Rule { prefix: Some(<fn>), infix: Some(<fn>), precedence: Term }");
}

#[test]
fn precedence_ranks_are_totally_ordered() {
    let order = [
        Precedence::Lowest,
        Precedence::Assignment,
        Precedence::Or,
        Precedence::And,
        Precedence::Equality,
        Precedence::Comparison,
        Precedence::Term,
        Precedence::Factor,
        Precedence::Unary,
        Precedence::Call,
        Precedence::Primary,
    ];
    for pair in order.windows(2) {
        assert!(pair[0].rank() < pair[1].rank());
    }
    assert_eq!(Precedence::Lowest.rank(), 0);
    assert_eq!(Precedence::Primary.rank(), 10);
    assert_eq!(Precedence::Comparison.name(), "Comparison");
}
