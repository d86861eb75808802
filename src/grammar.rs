use vstd::prelude::*;

use crate::letter::Letter;
use crate::word::Word;

verus! {

/// A production rule `lhs -> rhs`.
pub struct ProductionRule<T> {
    lhs: Word<T>,
    rhs: Word<T>,
}

impl<T> View for ProductionRule<T> {
    type V = (Seq<T>, Seq<T>);

    closed spec fn view(&self) -> (Seq<T>, Seq<T>) {
        (self.lhs@, self.rhs@)
    }
}

impl<T> ProductionRule<T> {
    pub fn new(lhs: Word<T>, rhs: Word<T>) -> (r: Self)
        ensures
            r@ == (lhs@, rhs@),
    {
        ProductionRule { lhs, rhs }
    }

    pub fn lhs(&self) -> (w: &Word<T>)
        ensures
            w@ == self@.0,
    {
        &self.lhs
    }

    pub fn rhs(&self) -> (w: &Word<T>)
        ensures
            w@ == self@.1,
    {
        &self.rhs
    }
}

/// Why a set of production rules does not fit a grammar's symbols; `rule` is
/// the position of the first offending rule.
#[derive(Debug, Clone, Copy, PartialEq, Eq, Structural)]
pub enum GrammarError {
    /// The right-hand side holds a symbol that is neither a terminal nor a
    /// non-terminal.
    ProductionRulesContainUnknownTerminal { rule: usize },
    /// The left-hand side holds a symbol that is neither a terminal nor a
    /// non-terminal.
    ProductionRulesContainUnknownNonTerminal { rule: usize },
}

impl GrammarError {
    /// A sentence that says what went wrong.
    pub fn description(&self) -> (s: &'static str)
        ensures
            s@ == match *self {
                GrammarError::ProductionRulesContainUnknownTerminal { .. } => {
                    "production rules contain unknown terminals"@
                },
                GrammarError::ProductionRulesContainUnknownNonTerminal { .. } => {
                    "production rules contain unknown non terminals"@
                },
            },
    {
        match self {
            GrammarError::ProductionRulesContainUnknownTerminal { .. } => {
                "production rules contain unknown terminals"
            },
            GrammarError::ProductionRulesContainUnknownNonTerminal { .. } => {
                "production rules contain unknown non terminals"
            },
        }
    }
}

/// Every letter of `w` is in `symbols`.
pub open spec fn all_in<T>(w: Seq<T>, symbols: Seq<T>) -> bool {
    forall|i: int| 0 <= i < w.len() ==> symbols.contains(#[trigger] w[i])
}

/// The error for rule `index`, if it has one: every symbol of either side
/// must be a terminal or a non-terminal. An unknown symbol on the left-hand
/// side is reported as an unknown non-terminal, one on the right-hand side as
/// an unknown terminal.
pub open spec fn rule_error<T>(
    rule: (Seq<T>, Seq<T>),
    terminals: Seq<T>,
    non_terminals: Seq<T>,
    index: int,
) -> Option<GrammarError> {
    if !all_in(rule.0, terminals + non_terminals) {
        Some(GrammarError::ProductionRulesContainUnknownNonTerminal { rule: index as usize })
    } else if !all_in(rule.1, terminals + non_terminals) {
        Some(GrammarError::ProductionRulesContainUnknownTerminal { rule: index as usize })
    } else {
        None
    }
}

/// The outcome of checking `rules[from..]` in order, stopping at the first
/// rule that has an error.
pub open spec fn validation_from<T>(
    rules: Seq<(Seq<T>, Seq<T>)>,
    terminals: Seq<T>,
    non_terminals: Seq<T>,
    from: int,
) -> Result<(), GrammarError>
    decreases rules.len() - from,
{
    if from < 0 || from >= rules.len() {
        Ok(())
    } else {
        match rule_error(rules[from], terminals, non_terminals, from) {
            Some(e) => Err(e),
            None => validation_from(rules, terminals, non_terminals, from + 1),
        }
    }
}

/// Validation succeeds exactly when every symbol of every checked rule is a
/// terminal or a non-terminal.
pub proof fn lemma_validation_ok<T>(
    rules: Seq<(Seq<T>, Seq<T>)>,
    terminals: Seq<T>,
    non_terminals: Seq<T>,
    from: int,
)
    requires
        0 <= from,
    ensures
        validation_from(rules, terminals, non_terminals, from) is Ok <==> forall|i: int|
            from <= i < rules.len() ==> all_in((#[trigger] rules[i]).0, terminals + non_terminals)
                && all_in(rules[i].1, terminals + non_terminals),
    decreases rules.len() - from,
{
    if from < rules.len() {
        lemma_validation_ok(rules, terminals, non_terminals, from + 1);
    }
}

/// The rules, as pairs of words.
pub open spec fn rule_views<T>(rules: Seq<ProductionRule<T>>) -> Seq<(Seq<T>, Seq<T>)> {
    rules.map_values(|r: ProductionRule<T>| r@)
}

/// Terminal and non-terminal symbols, and production rules over them.
pub struct Grammar<T> {
    terminals: Vec<T>,
    non_terminals: Vec<T>,
    production_rules: Vec<ProductionRule<T>>,
}

impl<T: Letter> Grammar<T> {
    /// A grammar over these symbols, without rules.
    pub fn new(terminals: Vec<T>, non_terminals: Vec<T>) -> (g: Self)
        ensures
            g.terminals() == terminals@,
            g.non_terminals() == non_terminals@,
            g.rules() == Seq::<(Seq<T>, Seq<T>)>::empty(),
    {
        let g = Grammar { terminals, non_terminals, production_rules: Vec::new() };
        assert(rule_views(g.production_rules@) =~= Seq::<(Seq<T>, Seq<T>)>::empty());
        g
    }

    pub closed spec fn terminals(&self) -> Seq<T> {
        self.terminals@
    }

    pub closed spec fn non_terminals(&self) -> Seq<T> {
        self.non_terminals@
    }

    pub closed spec fn rules(&self) -> Seq<(Seq<T>, Seq<T>)> {
        rule_views(self.production_rules@)
    }

    fn is_among(letter: &T, symbols: &Vec<T>) -> (r: bool)
        ensures
            r == symbols@.contains(*letter),
    {
        let mut i: usize = 0;
        while i < symbols.len()
            invariant
                0 <= i <= symbols@.len(),
                forall|j: int| 0 <= j < i ==> symbols@[j] != *letter,
            decreases symbols@.len() - i,
        {
            if symbols[i].same_as(letter) {
                assert(symbols@[i as int] == *letter);
                return true;
            }
            i = i + 1;
        }
        false
    }

    /// Whether every letter of `w` is in `first` or in `second`.
    fn all_among(w: &Word<T>, first: &Vec<T>, second: &Vec<T>) -> (r: bool)
        ensures
            r == all_in(w@, first@ + second@),
    {
        let letters = w.as_slice();
        let mut i: usize = 0;
        while i < letters.len()
            invariant
                letters@ == w@,
                0 <= i <= letters@.len(),
                forall|j: int| 0 <= j < i ==> (first@ + second@).contains(#[trigger] w@[j]),
            decreases letters@.len() - i,
        {
            let l = &letters[i];
            if !Self::is_among(l, first) && !Self::is_among(l, second) {
                proof {
                    if (first@ + second@).contains(w@[i as int]) {
                        let k = choose|k: int| 0 <= k < (first@ + second@).len() && (first@ + second@)[k] == w@[i as int];
                        if k < first@.len() {
                            assert(first@[k] == w@[i as int]);
                        } else {
                            assert(second@[k - first@.len()] == w@[i as int]);
                        }
                    }
                }
                return false;
            }
            proof {
                if first@.contains(w@[i as int]) {
                    let k = choose|k: int| 0 <= k < first@.len() && first@[k] == w@[i as int];
                    assert((first@ + second@)[k] == w@[i as int]);
                } else {
                    let k = choose|k: int| 0 <= k < second@.len() && second@[k] == w@[i as int];
                    assert((first@ + second@)[first@.len() + k] == w@[i as int]);
                }
            }
            i = i + 1;
        }
        true
    }

    /// Checks the rules in order: every symbol of either side must be a
    /// terminal or a non-terminal. Stops at the first rule that breaks this.
    pub fn validate_production_rules(&self, production_rules: &[ProductionRule<T>]) -> (r: Result<
        (),
        GrammarError,
    >)
        ensures
            r == validation_from(
                rule_views(production_rules@),
                self.terminals(),
                self.non_terminals(),
                0,
            ),
    {
        let ghost rules = rule_views(production_rules@);
        let mut i: usize = 0;
        while i < production_rules.len()
            invariant
                rules == rule_views(production_rules@),
                0 <= i <= production_rules@.len(),
                validation_from(rules, self.terminals@, self.non_terminals@, 0) == validation_from(
                    rules,
                    self.terminals@,
                    self.non_terminals@,
                    i as int,
                ),
            decreases production_rules@.len() - i,
        {
            let rule = &production_rules[i];
            assert(rules[i as int] == rule@);
            if !Self::all_among(rule.lhs(), &self.terminals, &self.non_terminals) {
                return Err(GrammarError::ProductionRulesContainUnknownNonTerminal { rule: i });
            }
            if !Self::all_among(rule.rhs(), &self.terminals, &self.non_terminals) {
                return Err(GrammarError::ProductionRulesContainUnknownTerminal { rule: i });
            }
            i = i + 1;
        }
        Ok(())
    }

    /// This grammar with `production_rules`, if they pass validation.
    pub fn with_production_rules(self, production_rules: Vec<ProductionRule<T>>) -> (r: Result<
        Self,
        GrammarError,
    >)
        ensures
            match validation_from(
                rule_views(production_rules@),
                self.terminals(),
                self.non_terminals(),
                0,
            ) {
                Ok(_) => r is Ok && r->Ok_0.terminals() == self.terminals()
                    && r->Ok_0.non_terminals() == self.non_terminals() && r->Ok_0.rules()
                    == rule_views(production_rules@),
                Err(e) => r == Err::<Self, GrammarError>(e),
            },
    {
        match self.validate_production_rules(production_rules.as_slice()) {
            Ok(()) => Ok(
                Grammar {
                    terminals: self.terminals,
                    non_terminals: self.non_terminals,
                    production_rules,
                },
            ),
            Err(e) => Err(e),
        }
    }

    pub fn terminal_symbols(&self) -> (r: &Vec<T>)
        ensures
            r@ == self.terminals(),
    {
        &self.terminals
    }

    pub fn non_terminal_symbols(&self) -> (r: &Vec<T>)
        ensures
            r@ == self.non_terminals(),
    {
        &self.non_terminals
    }

    pub fn production_rules(&self) -> (r: &Vec<ProductionRule<T>>)
        ensures
            rule_views(r@) == self.rules(),
    {
        &self.production_rules
    }
}

} // verus!
