use vstd::prelude::*;

verus! {

/// One of the three canonical move tokens.
#[derive(Clone, Copy, Debug, PartialEq, Eq, Structural)]
pub enum Choice {
    Rock,
    Paper,
    Scissors,
}

/// The cyclic rule: rock beats scissors, scissors beats paper, paper beats rock.
pub open spec fn beats(a: Choice, b: Choice) -> bool {
    match (a, b) {
        (Choice::Rock, Choice::Scissors) => true,
        (Choice::Scissors, Choice::Paper) => true,
        (Choice::Paper, Choice::Rock) => true,
        _ => false,
    }
}

/// The canonical (lower-case) text of a token.
pub open spec fn token_of(c: Choice) -> Seq<char> {
    match c {
        Choice::Rock => "rock"@,
        Choice::Paper => "paper"@,
        Choice::Scissors => "scissors"@,
    }
}

/// The token that an already lower-cased text names, if any.
pub open spec fn choice_named(t: Seq<char>) -> Option<Choice> {
    if t == "rock"@ {
        Some(Choice::Rock)
    } else if t == "paper"@ {
        Some(Choice::Paper)
    } else if t == "scissors"@ {
        Some(Choice::Scissors)
    } else {
        None
    }
}

/// What `str::to_lowercase` returns for a text.
pub uninterp spec fn lower_of(s: Seq<char>) -> Seq<char>;

/// Relies on `str::to_lowercase`: its result depends on the characters alone.
#[verifier::external_body]
pub(crate) fn lowercase(s: &str) -> (r: String)
    ensures
        r@ == lower_of(s@),
{
    s.to_lowercase()
}

impl Choice {
    /// The canonical text of this token.
    pub fn token(&self) -> (r: String)
        ensures
            r@ == token_of(*self),
    {
        match self {
            Choice::Rock => String::from_str("rock"),
            Choice::Paper => String::from_str("paper"),
            Choice::Scissors => String::from_str("scissors"),
        }
    }
}

/// Reads a text that is already lower case as a token.
pub fn choice_from_lowered(t: &str) -> (r: Option<Choice>)
    ensures
        r == choice_named(t@),
{
    let s = String::from_str(t);
    if s == String::from_str("rock") {
        Some(Choice::Rock)
    } else if s == String::from_str("paper") {
        Some(Choice::Paper)
    } else if s == String::from_str("scissors") {
        Some(Choice::Scissors)
    } else {
        None
    }
}

/// Reads a move token, ignoring case.
pub fn parse_choice(s: &str) -> (r: Option<Choice>)
    ensures
        r == choice_named(lower_of(s@)),
{
    let lowered = lowercase(s);
    choice_from_lowered(lowered.as_str())
}

} // verus!
