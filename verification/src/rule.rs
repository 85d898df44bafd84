//! Entries of the compiler's Pratt parse table: which routine handles a
//! token as a prefix, which as an infix, and at what precedence.

use vstd::prelude::*;

verus! {

/// Binding strength, lowest first; expression parsing consumes infixes
/// of precedence at least the caller's.
#[derive(Clone, Copy, Debug, PartialEq, Eq, Structural)]
pub enum Precedence {
    Lowest,
    Assignment,
    Or,
    And,
    Equality,
    Comparison,
    Term,
    Factor,
    Unary,
    Call,
    Primary,
}

/// The parser routine a table entry dispatches to.
#[derive(Clone, Copy, Debug, PartialEq, Eq, Structural)]
pub enum ParseFn {
    Grouping,
    Call,
    Dot,
    Unary,
    Binary,
    Variable,
    StringLiteral,
    NumberLiteral,
    Literal,
    And,
    Or,
    Super,
    This,
}

/// Position of a precedence in the total order, lowest first.
pub open spec fn precedence_rank(p: Precedence) -> int {
    match p {
        Precedence::Lowest => 0,
        Precedence::Assignment => 1,
        Precedence::Or => 2,
        Precedence::And => 3,
        Precedence::Equality => 4,
        Precedence::Comparison => 5,
        Precedence::Term => 6,
        Precedence::Factor => 7,
        Precedence::Unary => 8,
        Precedence::Call => 9,
        Precedence::Primary => 10,
    }
}

/// The precedence's display name.
pub open spec fn precedence_name(p: Precedence) -> Seq<char> {
    match p {
        Precedence::Lowest => "Lowest"@,
        Precedence::Assignment => "Assignment"@,
        Precedence::Or => "Or"@,
        Precedence::And => "And"@,
        Precedence::Equality => "Equality"@,
        Precedence::Comparison => "Comparison"@,
        Precedence::Term => "Term"@,
        Precedence::Factor => "Factor"@,
        Precedence::Unary => "Unary"@,
        Precedence::Call => "Call"@,
        Precedence::Primary => "Primary"@,
    }
}

impl Precedence {
    /// Position in the total order, lowest first.
    pub fn rank(&self) -> (r: u8)
        ensures
            r as int == precedence_rank(*self),
    {
        match self {
            Precedence::Lowest => 0,
            Precedence::Assignment => 1,
            Precedence::Or => 2,
            Precedence::And => 3,
            Precedence::Equality => 4,
            Precedence::Comparison => 5,
            Precedence::Term => 6,
            Precedence::Factor => 7,
            Precedence::Unary => 8,
            Precedence::Call => 9,
            Precedence::Primary => 10,
        }
    }

    /// The precedence's display name.
    pub fn name(&self) -> (r: &'static str)
        ensures
            r@ == precedence_name(*self),
    {
        match self {
            Precedence::Lowest => "Lowest",
            Precedence::Assignment => "Assignment",
            Precedence::Or => "Or",
            Precedence::And => "And",
            Precedence::Equality => "Equality",
            Precedence::Comparison => "Comparison",
            Precedence::Term => "Term",
            Precedence::Factor => "Factor",
            Precedence::Unary => "Unary",
            Precedence::Call => "Call",
            Precedence::Primary => "Primary",
        }
    }
}

/// The display form of an optional parse routine: the routine itself is
/// shown opaquely, as a function would be.
pub open spec fn parse_fn_text(o: Option<ParseFn>) -> Seq<char> {
    match o {
        Some(_) => "Some(<fn>)"@,
        None => "None"@,
    }
}

/// The display form of a rule.
pub open spec fn rule_text(r: Rule) -> Seq<char> {
    "Rule { prefix: "@ + parse_fn_text(r.prefix) + ", infix: "@ + parse_fn_text(r.infix)
        + ", precedence: "@ + precedence_name(r.precedence) + " }"@
}

/// The `Rule` type: one parse-table entry.
#[derive(Clone, Copy, Debug)]
pub struct Rule {
    /// Prefix routine, for when this token appears as a prefix.
    pub prefix: Option<ParseFn>,
    /// Infix routine, for when this token appears as an infix.
    pub infix: Option<ParseFn>,
    /// Precedence.
    pub precedence: Precedence,
}

impl Rule {
    /// The rule's display form, routines shown opaquely.
    pub fn fmt(&self) -> (r: String)
        ensures
            r@ == rule_text(*self),
    {
        let prefix = match self.prefix {
            Some(_) => "Some(<fn>)",
            None => "None",
        };
        let infix = match self.infix {
            Some(_) => "Some(<fn>)",
            None => "None",
        };
        let mut out = String::from_str("Rule { prefix: ");
        out.append(prefix);
        out.append(", infix: ");
        out.append(infix);
        out.append(", precedence: ");
        out.append(self.precedence.name());
        out.append(" }");
        out
    }
}

} // verus!
