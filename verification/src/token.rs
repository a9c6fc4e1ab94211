//! What a single token is, judged against the caller's three vocabularies.

use crate::text::{assignment_key, assignment_value, has_separator, split_assignment};
use vstd::prelude::*;

verus! {

/// The identifiers that one call recognises, by category.
pub struct Vocabulary {
    pub commands: Seq<Seq<char>>,
    pub flags: Seq<Seq<char>>,
    pub options: Seq<Seq<char>>,
}

/// The category of a token. A token has exactly one.
#[derive(Debug, Clone, Copy, PartialEq, Eq, Structural)]
pub enum TokenKind {
    /// The whole token is a known command.
    Command,
    /// The whole token is a known flag.
    Flag,
    /// The token reads `key=value` and the key is a known option.
    AssignedOption,
    /// The whole token is a known option; its value is the token after it.
    SpacedOption,
    /// None of these.
    Unrecognized,
}

/// Whether the token reads `key=value` with a key that is not empty and
/// is a known option.
pub open spec fn assigns_known_option(token: Seq<char>, options: Seq<Seq<char>>) -> bool {
    has_separator(token) && assignment_key(token).len() > 0 && options.contains(
        assignment_key(token),
    )
}

/// The category of `token`: the first that applies, in the order command,
/// flag, assigned option, spaced option.
pub open spec fn kind_of(token: Seq<char>, v: Vocabulary) -> TokenKind {
    if v.commands.contains(token) {
        TokenKind::Command
    } else if v.flags.contains(token) {
        TokenKind::Flag
    } else if assigns_known_option(token, v.options) {
        TokenKind::AssignedOption
    } else if v.options.contains(token) {
        TokenKind::SpacedOption
    } else {
        TokenKind::Unrecognized
    }
}

/// A token's category, together with the key and value where the token
/// itself holds both.
#[derive(Debug, PartialEq, Eq)]
pub enum Classified {
    Command,
    Flag,
    AssignedOption { key: String, value: String },
    SpacedOption,
    Unrecognized,
}

impl Classified {
    /// The category alone.
    pub open spec fn kind(self) -> TokenKind {
        match self {
            Classified::Command => TokenKind::Command,
            Classified::Flag => TokenKind::Flag,
            Classified::AssignedOption { .. } => TokenKind::AssignedOption,
            Classified::SpacedOption => TokenKind::SpacedOption,
            Classified::Unrecognized => TokenKind::Unrecognized,
        }
    }

    /// Whether this is what `token` is under `v`: the same category, and for
    /// an assigned option the token's own key and value.
    pub open spec fn describes(self, token: Seq<char>, v: Vocabulary) -> bool {
        &&& self.kind() == kind_of(token, v)
        &&& self matches Classified::AssignedOption { key, value } ==> key@ == assignment_key(token)
            && value@ == assignment_value(token)
    }
}

/// Whether `token` is one of the identifiers in `vocabulary`.
pub fn is_member(vocabulary: &Vec<String>, token: &String) -> (found: bool)
    ensures
        found == vocabulary.deep_view().contains(token@),
{
    let mut i: usize = 0;
    while i < vocabulary.len()
        invariant
            i <= vocabulary.len(),
            forall|j: int| 0 <= j < i ==> vocabulary.deep_view()[j] != token@,
        decreases vocabulary.len() - i,
    {
        if vocabulary[i] == *token {
            assert(vocabulary.deep_view()[i as int] == token@);
            return true;
        }
        i = i + 1;
    }
    false
}

/// Sorts one token into its category.
pub fn classify_token(
    token: &String,
    commands: &Vec<String>,
    flags: &Vec<String>,
    options: &Vec<String>,
) -> (c: Classified)
    ensures
        c.describes(
            token@,
            Vocabulary {
                commands: commands.deep_view(),
                flags: flags.deep_view(),
                options: options.deep_view(),
            },
        ),
{
    if is_member(commands, token) {
        return Classified::Command;
    }
    if is_member(flags, token) {
        return Classified::Flag;
    }
    if let Some((key, value)) = split_assignment(token.as_str()) {
        if !key.as_str().is_empty() && is_member(options, &key) {
            return Classified::AssignedOption { key, value };
        }
    }
    if is_member(options, token) {
        Classified::SpacedOption
    } else {
        Classified::Unrecognized
    }
}

} // verus!
