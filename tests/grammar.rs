use lsystem::grammar::{Grammar, GrammarError, ProductionRule};
use lsystem::word::Word;

fn rule(lhs: &str, rhs: &str) -> ProductionRule<char> {
    ProductionRule::new(Word::from_text(lhs), Word::from_text(rhs))
}

#[test]
fn valid_rules_are_kept() {
    let grammar = Grammar::new(vec!['+', '-'], vec!['F', 'X']);
    let grammar = grammar.with_production_rules(vec![rule("F", "F+F"), rule("X", "F-X")]).unwrap();
    assert_eq!(grammar.production_rules().len(), 2);
    assert_eq!(grammar.production_rules()[1].rhs().to_text(), "F-X");
    assert_eq!(grammar.production_rules()[0].lhs().to_text(), "F");
    assert_eq!(grammar.terminal_symbols(), &vec!['+', '-']);
    assert_eq!(grammar.non_terminal_symbols(), &vec!['F', 'X']);
}

#[test]
fn unknown_symbols_are_reported_for_the_first_bad_rule() {
    let grammar = Grammar::new(vec!['+', '-'], vec!['F']);
    assert_eq!(
        grammar.validate_production_rules(&[rule("F", "F+F"), rule("F", "F*F"), rule("G", "F")]),
        Err(GrammarError::ProductionRulesContainUnknownTerminal { rule: 1 })
    );
    assert_eq!(
        grammar.validate_production_rules(&[rule("F", "F"), rule("+", "F"), rule("?F", "F*")]),
        Err(GrammarError::ProductionRulesContainUnknownNonTerminal { rule: 2 })
    );
    assert_eq!(grammar.validate_production_rules(&[rule("+F", "-"), rule("-", "+")]), Ok(()));
    let letters = Grammar::new(vec!['a'], vec!['S']);
    assert_eq!(letters.validate_production_rules(&[rule("a", "a"), rule("S", "aS")]), Ok(()));
    assert_eq!(grammar.validate_production_rules(&[]), Ok(()));
    assert_eq!(
        grammar.with_production_rules(vec![rule("F", "?")]).err(),
        Some(GrammarError::ProductionRulesContainUnknownTerminal { rule: 0 })
    );
}

#[test]
fn error_descriptions() {
    assert_eq!(
        GrammarError::ProductionRulesContainUnknownTerminal { rule: 0 }.description(),
        "production rules contain unknown terminals"
    );
    assert_eq!(
        GrammarError::ProductionRulesContainUnknownNonTerminal { rule: 3 }.description(),
        "production rules contain unknown non terminals"
    );
}
