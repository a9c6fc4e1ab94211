//! Where in the tokens each entry of a result comes from.
//!
//! Every category of a result is read off an ascending list of token
//! indices. The lemmas here prove that, and what follows from it: entries
//! keep the tokens' order, no token is recorded twice, and a token that
//! nothing recognises is recorded nowhere.

use crate::parser::{
    classify, command_matches, flag_matches, lemma_filter_next, option_at, option_matches,
};
use crate::text::{lemma_assignment_parts, SEPARATOR};
use crate::token::{kind_of, Vocabulary};
use vstd::prelude::*;

verus! {

/// The indices below `n` that `keep` holds of, ascending.
pub open spec fn positions_where(n: nat, keep: spec_fn(int) -> bool) -> Seq<int>
    decreases n,
{
    if n == 0 {
        Seq::empty()
    } else if keep(n - 1) {
        positions_where((n - 1) as nat, keep).push(n - 1)
    } else {
        positions_where((n - 1) as nat, keep)
    }
}

/// The indices of the tokens that are commands.
pub open spec fn command_positions(tokens: Seq<Seq<char>>, v: Vocabulary) -> Seq<int> {
    positions_where(tokens.len(), |i: int| kind_of(tokens[i], v) is Command)
}

/// The indices of the tokens that are flags.
pub open spec fn flag_positions(tokens: Seq<Seq<char>>, v: Vocabulary) -> Seq<int> {
    positions_where(tokens.len(), |i: int| kind_of(tokens[i], v) is Flag)
}

/// The indices of the tokens that set an option.
pub open spec fn option_positions(tokens: Seq<Seq<char>>, v: Vocabulary) -> Seq<int> {
    positions_where(tokens.len(), |i: int| option_at(tokens, v, i) is Some)
}

/// `positions_where` lists exactly the indices below `n` that `keep` holds
/// of, each once, in ascending order.
pub proof fn lemma_positions_where(n: nat, keep: spec_fn(int) -> bool)
    ensures
        forall|k: int|
            0 <= k < positions_where(n, keep).len() ==> 0 <= #[trigger] positions_where(n, keep)[k]
                < n && keep(positions_where(n, keep)[k]),
        forall|a: int, b: int|
            0 <= a < b < positions_where(n, keep).len() ==> positions_where(n, keep)[a]
                < positions_where(n, keep)[b],
        forall|i: int| 0 <= i < n && keep(i) <==> #[trigger] positions_where(n, keep).contains(i),
    decreases n,
{
    if n > 0 {
        let earlier = positions_where((n - 1) as nat, keep);
        let all = positions_where(n, keep);
        lemma_positions_where((n - 1) as nat, keep);
        assert forall|i: int| 0 <= i < n && keep(i) implies all.contains(i) by {
            if i == n - 1 {
                assert(all[all.len() - 1] == i);
            } else {
                assert(earlier.contains(i));
                let k = choose|k: int| 0 <= k < earlier.len() && earlier[k] == i;
                assert(all[k] == i);
            }
        }
    }
}

/// Filtering the first `n` tokens by `keep` gives the tokens at the kept
/// indices, in order.
proof fn lemma_filter_reads_positions(
    tokens: Seq<Seq<char>>,
    keep: spec_fn(Seq<char>) -> bool,
    keep_at: spec_fn(int) -> bool,
    n: nat,
)
    requires
        n <= tokens.len(),
        forall|i: int| 0 <= i < tokens.len() ==> keep_at(i) == keep(tokens[i]),
    ensures
        tokens.take(n as int).filter(keep).len() == positions_where(n, keep_at).len(),
        forall|k: int|
            0 <= k < positions_where(n, keep_at).len() ==> #[trigger] tokens.take(n as int).filter(
                keep,
            )[k] == tokens[positions_where(n, keep_at)[k]],
    decreases n,
{
    if n == 0 {
        reveal(Seq::filter);
        assert(tokens.take(0).filter(keep) =~= Seq::empty());
    } else {
        lemma_filter_reads_positions(tokens, keep, keep_at, (n - 1) as nat);
        lemma_filter_next(tokens, keep, n - 1);
    }
}

/// What the first `n` tokens set is what the tokens at the option indices
/// below `n` set, in order.
proof fn lemma_options_read_positions(
    tokens: Seq<Seq<char>>,
    v: Vocabulary,
    keep_at: spec_fn(int) -> bool,
    n: nat,
)
    requires
        n <= tokens.len(),
        forall|i: int| 0 <= i < tokens.len() ==> keep_at(i) == (option_at(tokens, v, i) is Some),
    ensures
        option_matches(tokens, v, n).len() == positions_where(n, keep_at).len(),
        forall|k: int|
            0 <= k < positions_where(n, keep_at).len() ==> Some(
                #[trigger] option_matches(tokens, v, n)[k],
            ) == option_at(tokens, v, positions_where(n, keep_at)[k]),
    decreases n,
{
    if n > 0 {
        lemma_options_read_positions(tokens, v, keep_at, (n - 1) as nat);
    }
}

/// Order of the commands: the commands of a result are the tokens at the
/// command indices, which ascend and are exactly the indices of the tokens
/// that are commands. So two commands stand in the result as they stand
/// among the tokens.
pub proof fn lemma_commands_keep_order(tokens: Seq<Seq<char>>, v: Vocabulary)
    ensures
        ({
            let at = command_positions(tokens, v);
            let out = command_matches(tokens, v);
            &&& out.len() == at.len()
            &&& forall|k: int|
                0 <= k < at.len() ==> 0 <= #[trigger] at[k] < tokens.len() && out[k]
                    == tokens[at[k]]
            &&& forall|a: int, b: int| 0 <= a < b < at.len() ==> at[a] < at[b]
            &&& forall|i: int|
                0 <= i < tokens.len() && kind_of(tokens[i], v) is Command <==> #[trigger] at.contains(i)
        }),
{
    let keep = |t: Seq<char>| kind_of(t, v) is Command;
    let keep_at = |i: int| kind_of(tokens[i], v) is Command;
    lemma_positions_where(tokens.len(), keep_at);
    lemma_filter_reads_positions(tokens, keep, keep_at, tokens.len());
    assert(tokens.take(tokens.len() as int) =~= tokens);
}

/// Order of the flags: as for the commands.
pub proof fn lemma_flags_keep_order(tokens: Seq<Seq<char>>, v: Vocabulary)
    ensures
        ({
            let at = flag_positions(tokens, v);
            let out = flag_matches(tokens, v);
            &&& out.len() == at.len()
            &&& forall|k: int|
                0 <= k < at.len() ==> 0 <= #[trigger] at[k] < tokens.len() && out[k]
                    == tokens[at[k]]
            &&& forall|a: int, b: int| 0 <= a < b < at.len() ==> at[a] < at[b]
            &&& forall|i: int|
                0 <= i < tokens.len() && kind_of(tokens[i], v) is Flag <==> #[trigger] at.contains(i)
        }),
{
    let keep = |t: Seq<char>| kind_of(t, v) is Flag;
    let keep_at = |i: int| kind_of(tokens[i], v) is Flag;
    lemma_positions_where(tokens.len(), keep_at);
    lemma_filter_reads_positions(tokens, keep, keep_at, tokens.len());
    assert(tokens.take(tokens.len() as int) =~= tokens);
}

/// Order of the options: the pairs of a result are what the tokens at the
/// option indices set, and these indices ascend and are exactly those of
/// the tokens that set an option.
pub proof fn lemma_options_keep_order(tokens: Seq<Seq<char>>, v: Vocabulary)
    ensures
        ({
            let at = option_positions(tokens, v);
            let out = option_matches(tokens, v, tokens.len());
            &&& out.len() == at.len()
            &&& forall|k: int|
                0 <= k < at.len() ==> 0 <= #[trigger] at[k] < tokens.len() && Some(out[k])
                    == option_at(tokens, v, at[k])
            &&& forall|a: int, b: int| 0 <= a < b < at.len() ==> at[a] < at[b]
            &&& forall|i: int|
                0 <= i < tokens.len() && option_at(tokens, v, i) is Some <==> #[trigger] at.contains(i)
        }),
{
    let keep_at = |i: int| option_at(tokens, v, i) is Some;
    lemma_positions_where(tokens.len(), keep_at);
    lemma_options_read_positions(tokens, v, keep_at, tokens.len());
}

/// In a result every option is recorded: where sorting succeeds, the option
/// indices are exactly the indices of the tokens that are options, in
/// either form.
pub proof fn lemma_every_option_recorded(tokens: Seq<Seq<char>>, v: Vocabulary)
    requires
        classify(tokens, v) is Ok,
    ensures
        forall|i: int|
            0 <= i < tokens.len() && (kind_of(tokens[i], v) is AssignedOption || kind_of(
                tokens[i],
                v,
            ) is SpacedOption) <==> #[trigger] option_positions(tokens, v).contains(i),
{
    lemma_options_keep_order(tokens, v);
}

/// One category per token. A token is among the commands of a result only
/// if it is a command, and among the flags only if it is a flag; a token
/// that sets an option is neither. A token has one kind, so what is
/// recorded in one category is recorded in no other.
pub proof fn lemma_categories_exclusive(tokens: Seq<Seq<char>>, v: Vocabulary, t: Seq<char>)
    ensures
        command_matches(tokens, v).contains(t) <==> tokens.contains(t) && kind_of(t, v) is Command,
        flag_matches(tokens, v).contains(t) <==> tokens.contains(t) && kind_of(t, v) is Flag,
        forall|i: int|
            #[trigger] option_positions(tokens, v).contains(i) && tokens[i] == t ==> kind_of(t, v)
                is AssignedOption || kind_of(t, v) is SpacedOption,
        v.commands.contains(t) ==> !flag_matches(tokens, v).contains(t) && forall|i: int|
            #[trigger] option_positions(tokens, v).contains(i) ==> tokens[i] != t,
        !v.commands.contains(t) && v.flags.contains(t) ==> !command_matches(tokens, v).contains(t)
            && forall|i: int| #[trigger] option_positions(tokens, v).contains(i) ==> tokens[i] != t,
        !(command_matches(tokens, v).contains(t) && flag_matches(tokens, v).contains(t)),
{
    let is_command = |t: Seq<char>| kind_of(t, v) is Command;
    let is_flag = |t: Seq<char>| kind_of(t, v) is Flag;
    if command_matches(tokens, v).contains(t) {
        let k = choose|k: int|
            0 <= k < command_matches(tokens, v).len() && command_matches(tokens, v)[k] == t;
        tokens.lemma_filter_pred(is_command, k);
        tokens.lemma_filter_contains_rev(is_command, t);
    }
    if flag_matches(tokens, v).contains(t) {
        let k = choose|k: int|
            0 <= k < flag_matches(tokens, v).len() && flag_matches(tokens, v)[k] == t;
        tokens.lemma_filter_pred(is_flag, k);
        tokens.lemma_filter_contains_rev(is_flag, t);
    }
    if tokens.contains(t) {
        let i = choose|i: int| 0 <= i < tokens.len() && tokens[i] == t;
        if kind_of(t, v) is Command {
            tokens.lemma_filter_contains(is_command, i);
        }
        if kind_of(t, v) is Flag {
            tokens.lemma_filter_contains(is_flag, i);
        }
    }
    lemma_options_keep_order(tokens, v);
}

/// A token that nothing recognises is recorded nowhere: it is not among
/// the commands, not among the flags, it sets no option, and it is no
/// option's key. (It may still be the value of the option before it.)
pub proof fn lemma_unrecognized_left_out(tokens: Seq<Seq<char>>, v: Vocabulary, t: Seq<char>)
    requires
        kind_of(t, v) is Unrecognized,
    ensures
        !command_matches(tokens, v).contains(t),
        !flag_matches(tokens, v).contains(t),
        forall|i: int| #[trigger] option_positions(tokens, v).contains(i) ==> tokens[i] != t,
        forall|k: int|
            0 <= k < option_matches(tokens, v, tokens.len()).len() ==> (#[trigger] option_matches(
                tokens,
                v,
                tokens.len(),
            )[k]).0 != t,
{
    lemma_categories_exclusive(tokens, v, t);
    assert forall|k: int| 0 <= k < option_matches(tokens, v, tokens.len()).len() implies (
    #[trigger] option_matches(tokens, v, tokens.len())[k]).0 != t by {
        lemma_option_source(tokens, v, k);
    }
}

/// Where a pair comes from. The `k`-th pair of a result is set by the token
/// at the `k`-th option index. Its key is a known option, and is empty only
/// if the empty string is one. Either that token is the key, a separator
/// and the value, with a key that is not empty; or that token is the key
/// and the next token is the value.
pub proof fn lemma_option_source(tokens: Seq<Seq<char>>, v: Vocabulary, k: int)
    requires
        0 <= k < option_matches(tokens, v, tokens.len()).len(),
    ensures
        ({
            let (key, value) = option_matches(tokens, v, tokens.len())[k];
            let i = option_positions(tokens, v)[k];
            &&& 0 <= i < tokens.len()
            &&& v.options.contains(key)
            &&& !v.options.contains(Seq::empty()) ==> key.len() > 0
            &&& !v.commands.contains(tokens[i])
            &&& !v.flags.contains(tokens[i])
            &&& kind_of(tokens[i], v) is AssignedOption || kind_of(tokens[i], v) is SpacedOption
            &&& kind_of(tokens[i], v) is AssignedOption ==> key.len() > 0 && !key.contains(
                SEPARATOR,
            ) && tokens[i] == key + seq![SEPARATOR] + value
            &&& kind_of(tokens[i], v) is SpacedOption ==> i + 1 < tokens.len() && key == tokens[i]
                && value == tokens[i + 1]
        }),
{
    lemma_options_keep_order(tokens, v);
    let i = option_positions(tokens, v)[k];
    assert(0 <= i < tokens.len());
    if kind_of(tokens[i], v) is AssignedOption {
        lemma_assignment_parts(tokens[i]);
    }
    let key = option_matches(tokens, v, tokens.len())[k].0;
    if key.len() == 0 {
        assert(key =~= Seq::empty());
    }
}

} // verus!
