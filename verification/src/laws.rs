//! Properties of the echo pipeline that hold for every input: the
//! flag-free output shape, the effect of `-n` wherever it stands, the
//! last-occurrence rule for `-e`/`-E`, and the behaviour of the escape
//! decoder on backslash-free text.

use vstd::prelude::*;

use crate::model::ArgsModel;
use crate::model::apply_token;
use crate::model::decode_escapes;
use crate::model::initial_model;
use crate::model::is_flag;
use crate::model::join_with_spaces;
use crate::model::parse_model;
use crate::model::spec_echo;

verus! {

/// Classifying a token sequence that contains no flag leaves both flag
/// states at their defaults and keeps every token, in order, as text.
pub proof fn lemma_parse_no_flags(tokens: Seq<Seq<char>>)
    requires
        forall|i: int| 0 <= i < tokens.len() ==> !is_flag(#[trigger] tokens[i]),
    ensures
        parse_model(tokens) == (ArgsModel {
            suppress_newline: false,
            interpret_escapes: false,
            texts: tokens,
        }),
    decreases tokens.len(),
{
    if tokens.len() == 0 {
        assert(initial_model().texts =~= tokens);
        assert(parse_model(tokens) =~= (ArgsModel {
            suppress_newline: false,
            interpret_escapes: false,
            texts: tokens,
        }));
    } else {
        let head = tokens.drop_last();
        assert(forall|i: int| 0 <= i < head.len() ==> !is_flag(#[trigger] head[i])) by {
            assert(forall|i: int| 0 <= i < head.len() ==> #[trigger] head[i] == tokens[i]);
        }
        lemma_parse_no_flags(head);
        assert(!is_flag(tokens.last()));
        assert(parse_model(tokens) == apply_token(parse_model(head), tokens.last()));
        assert(parse_model(tokens).texts =~= tokens);
        assert(parse_model(tokens) =~= (ArgsModel {
            suppress_newline: false,
            interpret_escapes: false,
            texts: tokens,
        }));
    }
}

/// With no flags among the tokens, the output is exactly the tokens
/// joined by single spaces followed by one newline.
pub proof fn lemma_no_flags_output(tokens: Seq<Seq<char>>)
    requires
        forall|i: int| 0 <= i < tokens.len() ==> !is_flag(#[trigger] tokens[i]),
    ensures
        spec_echo(parse_model(tokens)) == join_with_spaces(tokens) + seq!['\n'],
{
    lemma_parse_no_flags(tokens);
}

/// A `-n` token anywhere in the input suppresses the trailing newline:
/// the configuration records the suppression, and the output is the
/// joined text with no newline appended, whatever the other tokens are.
pub proof fn lemma_newline_flag_suppresses(tokens: Seq<Seq<char>>, i: int)
    requires
        0 <= i < tokens.len(),
        tokens[i] == "-n"@,
    ensures
        parse_model(tokens).suppress_newline,
        spec_echo(parse_model(tokens)) == (if parse_model(tokens).interpret_escapes {
            decode_escapes(join_with_spaces(parse_model(tokens).texts))
        } else {
            join_with_spaces(parse_model(tokens).texts)
        }),
    decreases tokens.len(),
{
    if i == tokens.len() - 1 {
        assert(parse_model(tokens) == apply_token(parse_model(tokens.drop_last()), tokens.last()));
    } else {
        let head = tokens.drop_last();
        assert(head[i] == tokens[i]);
        lemma_newline_flag_suppresses(head, i);
        assert(parse_model(tokens) == apply_token(parse_model(head), tokens.last()));
    }
}

/// The last of the `-e`/`-E` flags wins: a `-E` with no later `-e`
/// leaves escapes uninterpreted.
pub proof fn lemma_last_escape_flag_off(tokens: Seq<Seq<char>>, j: int)
    requires
        0 <= j < tokens.len(),
        tokens[j] == "-E"@,
        forall|k: int| j < k < tokens.len() ==> #[trigger] tokens[k] != "-e"@,
    ensures
        !parse_model(tokens).interpret_escapes,
    decreases tokens.len(),
{
    reveal_strlit("-n");
    reveal_strlit("-e");
    reveal_strlit("-E");
    if j == tokens.len() - 1 {
        assert(tokens.last() == "-E"@);
        assert("-E"@ != "-n"@) by {
            assert("-E"@[1] == 'E');
            assert("-n"@[1] == 'n');
        }
        assert("-E"@ != "-e"@) by {
            assert("-E"@[1] == 'E');
            assert("-e"@[1] == 'e');
        }
        assert(parse_model(tokens) == apply_token(parse_model(tokens.drop_last()), tokens.last()));
    } else {
        let head = tokens.drop_last();
        assert(head[j] == tokens[j]);
        assert(forall|k: int| j < k < head.len() ==> #[trigger] head[k] != "-e"@) by {
            assert(forall|k: int| 0 <= k < head.len() ==> #[trigger] head[k] == tokens[k]);
        }
        lemma_last_escape_flag_off(head, j);
        assert(tokens.last() != "-e"@);
        assert(parse_model(tokens) == apply_token(parse_model(head), tokens.last()));
    }
}

/// The last of the `-e`/`-E` flags wins: a `-e` with no later `-E`
/// turns escape interpretation on.
pub proof fn lemma_last_escape_flag_on(tokens: Seq<Seq<char>>, j: int)
    requires
        0 <= j < tokens.len(),
        tokens[j] == "-e"@,
        forall|k: int| j < k < tokens.len() ==> #[trigger] tokens[k] != "-E"@,
    ensures
        parse_model(tokens).interpret_escapes,
    decreases tokens.len(),
{
    reveal_strlit("-n");
    reveal_strlit("-e");
    reveal_strlit("-E");
    if j == tokens.len() - 1 {
        assert(tokens.last() == "-e"@);
        assert("-e"@ != "-n"@) by {
            assert("-e"@[1] == 'e');
            assert("-n"@[1] == 'n');
        }
        assert(parse_model(tokens) == apply_token(parse_model(tokens.drop_last()), tokens.last()));
    } else {
        let head = tokens.drop_last();
        assert(head[j] == tokens[j]);
        assert(forall|k: int| j < k < head.len() ==> #[trigger] head[k] != "-E"@) by {
            assert(forall|k: int| 0 <= k < head.len() ==> #[trigger] head[k] == tokens[k]);
        }
        lemma_last_escape_flag_on(head, j);
        assert(tokens.last() != "-E"@);
        assert(parse_model(tokens) == apply_token(parse_model(head), tokens.last()));
    }
}

/// On text without a backslash, the escape decoder is the identity, and
/// is therefore idempotent.
pub proof fn lemma_decode_no_backslash(s: Seq<char>)
    requires
        forall|i: int| 0 <= i < s.len() ==> #[trigger] s[i] != '\\',
    ensures
        decode_escapes(s) == s,
        decode_escapes(decode_escapes(s)) == decode_escapes(s),
    decreases s.len(),
{
    if s.len() == 0 {
        assert(decode_escapes(s) =~= s);
    } else {
        let tail = s.skip(1);
        assert(forall|i: int| 0 <= i < tail.len() ==> #[trigger] tail[i] != '\\') by {
            assert(forall|i: int| 0 <= i < tail.len() ==> #[trigger] tail[i] == s[i + 1]);
        }
        lemma_decode_no_backslash(tail);
        assert(s[0] != '\\');
        assert(decode_escapes(s) == seq![s[0]] + tail);
        assert(seq![s[0]] + tail =~= s);
    }
}

} // verus!
