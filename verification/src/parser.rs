//! The pass over the tokens: which of them are commands, which are flags,
//! and which options they set to which values.

use crate::text::{assignment_key, assignment_value};
use crate::token::{classify_token, kind_of, Classified, TokenKind, Vocabulary};
use vstd::prelude::*;

verus! {

/// Why a sequence of tokens could not be sorted.
#[derive(Debug, Clone, Copy, PartialEq, Eq, Structural)]
pub enum ParseError {
    /// There were no tokens.
    EmptyInput,
    /// The last token is an option that takes its value from the token
    /// after it.
    DanglingOptionValue,
}

impl ParseError {
    /// The text that goes with each error.
    pub open spec fn message_text(self) -> Seq<char> {
        match self {
            ParseError::EmptyInput => "no arguments were provided."@,
            ParseError::DanglingOptionValue => "the last option is missing its value."@,
        }
    }

    /// A sentence for the user.
    pub fn message(&self) -> (text: &'static str)
        ensures
            text@ == self.message_text(),
    {
        match self {
            ParseError::EmptyInput => "no arguments were provided.",
            ParseError::DanglingOptionValue => "the last option is missing its value.",
        }
    }
}

/// The tokens that were recognised, by category.
#[derive(Debug, PartialEq, Eq)]
pub struct Pargs {
    /// The commands, in the order in which they were given.
    pub command_args: Vec<String>,
    /// The flags, in the order in which they were given.
    pub flag_args: Vec<String>,
    /// Each option with its value, in the order in which they were given.
    /// An option that was given twice is here twice.
    pub option_args: Vec<(String, String)>,
}

/// What a `Pargs` holds, as sequences of characters.
pub struct PargsView {
    pub command_args: Seq<Seq<char>>,
    pub flag_args: Seq<Seq<char>>,
    pub option_args: Seq<(Seq<char>, Seq<char>)>,
}

impl View for Pargs {
    type V = PargsView;

    open spec fn view(&self) -> PargsView {
        PargsView {
            command_args: self.command_args.deep_view(),
            flag_args: self.flag_args.deep_view(),
            option_args: self.option_args.deep_view(),
        }
    }
}

/// The tokens that are commands, in their order.
pub open spec fn command_matches(tokens: Seq<Seq<char>>, v: Vocabulary) -> Seq<Seq<char>> {
    tokens.filter(|t: Seq<char>| kind_of(t, v) is Command)
}

/// The tokens that are flags, in their order.
pub open spec fn flag_matches(tokens: Seq<Seq<char>>, v: Vocabulary) -> Seq<Seq<char>> {
    tokens.filter(|t: Seq<char>| kind_of(t, v) is Flag)
}

/// The key and value that the token at `i` sets, if it is an option. A
/// spaced option takes the next token as its value, and sets nothing when
/// there is none.
pub open spec fn option_at(tokens: Seq<Seq<char>>, v: Vocabulary, i: int) -> Option<
    (Seq<char>, Seq<char>),
>
    recommends
        0 <= i < tokens.len(),
{
    match kind_of(tokens[i], v) {
        TokenKind::AssignedOption => Some((assignment_key(tokens[i]), assignment_value(tokens[i]))),
        TokenKind::SpacedOption => if i + 1 < tokens.len() {
            Some((tokens[i], tokens[i + 1]))
        } else {
            None
        },
        _ => None,
    }
}

/// What the first `n` tokens set, in their order.
pub open spec fn option_matches(tokens: Seq<Seq<char>>, v: Vocabulary, n: nat) -> Seq<
    (Seq<char>, Seq<char>),
>
    recommends
        n <= tokens.len(),
    decreases n,
{
    if n == 0 {
        Seq::empty()
    } else {
        let earlier = option_matches(tokens, v, (n - 1) as nat);
        match option_at(tokens, v, n - 1) {
            Some(pair) => earlier.push(pair),
            None => earlier,
        }
    }
}

/// Whether the last token is a spaced option, which has no token after it
/// to take as its value.
pub open spec fn last_option_dangles(tokens: Seq<Seq<char>>, v: Vocabulary) -> bool {
    tokens.len() > 0 && kind_of(tokens.last(), v) is SpacedOption
}

/// The outcome of sorting `tokens` under `v`.
pub open spec fn classify(tokens: Seq<Seq<char>>, v: Vocabulary) -> Result<PargsView, ParseError> {
    if tokens.len() == 0 {
        Err(ParseError::EmptyInput)
    } else if last_option_dangles(tokens, v) {
        Err(ParseError::DanglingOptionValue)
    } else {
        Ok(
            PargsView {
                command_args: command_matches(tokens, v),
                flag_args: flag_matches(tokens, v),
                option_args: option_matches(tokens, v, tokens.len()),
            },
        )
    }
}

/// The outcome of a call, with the result taken by its view.
pub open spec fn outcome_view(r: Result<Pargs, ParseError>) -> Result<PargsView, ParseError> {
    match r {
        Ok(p) => Ok(p@),
        Err(e) => Err(e),
    }
}

/// The outcome depends on what the arguments hold and on nothing else: two
/// calls on the same tokens and vocabularies end alike, with equal results
/// or with the same error.
pub proof fn lemma_outcome_determined(
    first: Result<Pargs, ParseError>,
    second: Result<Pargs, ParseError>,
    tokens: Seq<Seq<char>>,
    v: Vocabulary,
)
    requires
        outcome_view(first) == classify(tokens, v),
        outcome_view(second) == classify(tokens, v),
    ensures
        first matches Ok(a) ==> second matches Ok(b) && a@ == b@,
        first matches Err(e) ==> second == Err::<Pargs, ParseError>(e),
{
}

/// `filter` takes the tokens one by one.
pub proof fn lemma_filter_next(tokens: Seq<Seq<char>>, keep: spec_fn(Seq<char>) -> bool, i: int)
    requires
        0 <= i < tokens.len(),
    ensures
        tokens.take(i + 1).filter(keep) == if keep(tokens[i]) {
            tokens.take(i).filter(keep).push(tokens[i])
        } else {
            tokens.take(i).filter(keep)
        },
{
    reveal(Seq::filter);
    assert(tokens.take(i + 1).drop_last() =~= tokens.take(i));
}

impl Pargs {
    /// A result with nothing in it.
    pub fn new() -> (p: Pargs)
        ensures
            p@.command_args == Seq::<Seq<char>>::empty(),
            p@.flag_args == Seq::<Seq<char>>::empty(),
            p@.option_args == Seq::<(Seq<char>, Seq<char>)>::empty(),
    {
        let p = Pargs {
            command_args: Vec::new(),
            flag_args: Vec::new(),
            option_args: Vec::new(),
        };
        assert(p@.command_args =~= Seq::empty());
        assert(p@.flag_args =~= Seq::empty());
        assert(p@.option_args =~= Seq::empty());
        p
    }

    /// Sorts `actual_args` into commands, flags and options, as listed in
    /// `command_args`, `flag_args` and `option_args`.
    ///
    /// Each token is judged by itself and lands in at most one category; a
    /// token that is in none of the three lists is left out. An option is
    /// given either as `key=value` in one token, or as the key in one token
    /// and the value in the next. That next token is still judged in its
    /// own turn.
    ///
    /// Fails when there are no tokens, and when the last token is an option
    /// that wants its value from a token after it.
    pub fn parse(
        actual_args: Vec<String>,
        command_args: Vec<String>,
        flag_args: Vec<String>,
        option_args: Vec<String>,
    ) -> (r: Result<Pargs, ParseError>)
        ensures
            outcome_view(r) == classify(
                actual_args.deep_view(),
                Vocabulary {
                    commands: command_args.deep_view(),
                    flags: flag_args.deep_view(),
                    options: option_args.deep_view(),
                },
            ),
    {
        let ghost tokens = actual_args.deep_view();
        let ghost v = Vocabulary {
            commands: command_args.deep_view(),
            flags: flag_args.deep_view(),
            options: option_args.deep_view(),
        };
        let ghost is_command = |t: Seq<char>| kind_of(t, v) is Command;
        let ghost is_flag = |t: Seq<char>| kind_of(t, v) is Flag;
        let mut matches = Pargs::new();
        let n: usize = actual_args.len();
        if n == 0 {
            return Err(ParseError::EmptyInput);
        }
        let mut i: usize = 0;
        proof {
            reveal(Seq::filter);
            assert(tokens.take(0).filter(is_command) =~= Seq::empty());
            assert(tokens.take(0).filter(is_flag) =~= Seq::empty());
        }
        while i < n
            invariant
                0 < n == actual_args.len(),
                i <= n,
                tokens == actual_args.deep_view(),
                v == (Vocabulary {
                    commands: command_args.deep_view(),
                    flags: flag_args.deep_view(),
                    options: option_args.deep_view(),
                }),
                is_command == |t: Seq<char>| kind_of(t, v) is Command,
                is_flag == |t: Seq<char>| kind_of(t, v) is Flag,
                forall|j: int| 0 <= j < i && kind_of(tokens[j], v) is SpacedOption ==> j + 1 < n,
                matches@.command_args == tokens.take(i as int).filter(is_command),
                matches@.flag_args == tokens.take(i as int).filter(is_flag),
                matches@.option_args == option_matches(tokens, v, i as nat),
            decreases n - i,
        {
            let token = &actual_args[i];
            let ghost before = matches@;
            proof {
                lemma_filter_next(tokens, is_command, i as int);
                lemma_filter_next(tokens, is_flag, i as int);
            }
            match classify_token(token, &command_args, &flag_args, &option_args) {
                Classified::Command => {
                    matches.command_args.push(token.clone());
                    assert(matches@.command_args =~= before.command_args.push(tokens[i as int]));
                },
                Classified::Flag => {
                    matches.flag_args.push(token.clone());
                    assert(matches@.flag_args =~= before.flag_args.push(tokens[i as int]));
                },
                Classified::AssignedOption { key, value } => {
                    matches.option_args.push((key, value));
                    assert(matches@.option_args =~= before.option_args.push(
                        option_at(tokens, v, i as int).unwrap(),
                    ));
                },
                Classified::SpacedOption => {
                    if i + 1 < n {
                        matches.option_args.push((token.clone(), actual_args[i + 1].clone()));
                        assert(matches@.option_args =~= before.option_args.push(
                            option_at(tokens, v, i as int).unwrap(),
                        ));
                    } else {
                        return Err(ParseError::DanglingOptionValue);
                    }
                },
                Classified::Unrecognized => {},
            }
            i = i + 1;
        }
        assert(tokens.take(n as int) =~= tokens);
        Ok(matches)
    }
}

} // verus!
