//! The mathematical model of the echo pipeline: classification of raw
//! tokens into a configuration, joining of text tokens, and decoding of
//! backslash escape sequences, all as functions over sequences of
//! characters.

use vstd::prelude::*;

verus! {

/// The configuration produced by classifying the raw tokens: whether the
/// trailing newline is suppressed, whether escape sequences are decoded,
/// and the literal text tokens in their original order.
#[verifier::ext_equal]
pub struct ArgsModel {
    pub suppress_newline: bool,
    pub interpret_escapes: bool,
    pub texts: Seq<Seq<char>>,
}

/// The configuration before any token has been read: newline appended,
/// escapes left alone, no text.
pub open spec fn initial_model() -> ArgsModel {
    ArgsModel { suppress_newline: false, interpret_escapes: false, texts: Seq::empty() }
}

/// A token is a flag exactly when it is one of the three recognized
/// switches, as a whole token.
pub open spec fn is_flag(tok: Seq<char>) -> bool {
    tok == "-n"@ || tok == "-e"@ || tok == "-E"@
}

/// One step of classification: a flag token updates the configuration and
/// is discarded; every other token is appended to the text verbatim.
pub open spec fn apply_token(m: ArgsModel, tok: Seq<char>) -> ArgsModel {
    if tok == "-n"@ {
        ArgsModel { suppress_newline: true, ..m }
    } else if tok == "-e"@ {
        ArgsModel { interpret_escapes: true, ..m }
    } else if tok == "-E"@ {
        ArgsModel { interpret_escapes: false, ..m }
    } else {
        ArgsModel { texts: m.texts.push(tok), ..m }
    }
}

/// Classification of a whole token sequence: a left fold of `apply_token`
/// over the tokens, starting from the initial configuration. A later
/// `-e`/`-E` overrides an earlier one, and flags act wherever they stand.
pub open spec fn parse_model(tokens: Seq<Seq<char>>) -> ArgsModel
    decreases tokens.len(),
{
    if tokens.len() == 0 {
        initial_model()
    } else {
        apply_token(parse_model(tokens.drop_last()), tokens.last())
    }
}

/// The raw argument list with its leading program name removed; an empty
/// list stays empty.
pub open spec fn drop_program_name(raw: Seq<Seq<char>>) -> Seq<Seq<char>> {
    if raw.len() == 0 {
        raw
    } else {
        raw.drop_first()
    }
}

/// The text tokens joined by a single space between consecutive tokens:
/// no leading or trailing space, and no separator for zero or one token.
pub open spec fn join_with_spaces(tokens: Seq<Seq<char>>) -> Seq<char>
    decreases tokens.len(),
{
    if tokens.len() == 0 {
        Seq::empty()
    } else if tokens.len() == 1 {
        tokens[0]
    } else {
        join_with_spaces(tokens.drop_last()) + seq![' '] + tokens.last()
    }
}

/// What an escaped character decodes to: `n` and `t` map to newline and
/// tab, a backslash maps to itself, and any other character keeps the
/// backslash and is emitted unchanged after it.
pub open spec fn escape_replacement(c: char) -> Seq<char> {
    if c == 'n' {
        seq!['\n']
    } else if c == 't' {
        seq!['\t']
    } else if c == '\\' {
        seq!['\\']
    } else {
        seq!['\\', c]
    }
}

/// A single left-to-right scan that decodes escape sequences: a backslash
/// consumes the following character through `escape_replacement`, and a
/// backslash that ends the input is dropped.
pub open spec fn decode_escapes(s: Seq<char>) -> Seq<char>
    decreases s.len(),
{
    if s.len() == 0 {
        Seq::empty()
    } else if s[0] == '\\' {
        if s.len() == 1 {
            Seq::empty()
        } else {
            escape_replacement(s[1]) + decode_escapes(s.skip(2))
        }
    } else {
        seq![s[0]] + decode_escapes(s.skip(1))
    }
}

/// The decoding of the rest of the input once a backslash has just been
/// read: the next character is decoded as an escape, and a backslash that
/// was the last character is dropped.
pub open spec fn decode_pending(s: Seq<char>) -> Seq<char> {
    if s.len() == 0 {
        Seq::empty()
    } else {
        escape_replacement(s[0]) + decode_escapes(s.skip(1))
    }
}

/// The final output for a configuration: the text tokens joined with
/// spaces, a newline appended unless suppressed, and the whole string
/// (newline included) decoded when escapes are interpreted.
pub open spec fn spec_echo(m: ArgsModel) -> Seq<char> {
    let joined = join_with_spaces(m.texts);
    let terminated = if m.suppress_newline {
        joined
    } else {
        joined + seq!['\n']
    };
    if m.interpret_escapes {
        decode_escapes(terminated)
    } else {
        terminated
    }
}

} // verus!
