//! The executable echo pipeline: the `Args` configuration parsed from the
//! raw argument tokens, and the formatter that produces the final output
//! string.

use vstd::prelude::*;

use crate::model::ArgsModel;
use crate::model::apply_token;
use crate::model::decode_escapes;
use crate::model::decode_pending;
use crate::model::drop_program_name;
use crate::model::escape_replacement;
use crate::model::join_with_spaces;
use crate::model::parse_model;
use crate::model::spec_echo;

verus! {

/// The parsed command line: the two flag states and the literal text
/// tokens in their original order.
pub struct Args {
    pub end_without_newline_character: bool,
    pub interpret_escape: bool,
    pub inner: Vec<String>,
}

impl View for Args {
    type V = ArgsModel;

    open spec fn view(&self) -> ArgsModel {
        ArgsModel {
            suppress_newline: self.end_without_newline_character,
            interpret_escapes: self.interpret_escape,
            texts: self.inner.deep_view(),
        }
    }
}

/// Relies on String::push: appends the given character to the end of the
/// string.
#[verifier::external_body]
fn push_char(s: &mut String, c: char)
    ensures
        final(s)@ == old(s)@.push(c),
{
    s.push(c)
}

impl Args {
    /// Decodes backslash escape sequences in a single left-to-right scan:
    /// `\n`, `\t` and `\\` become newline, tab and backslash; any other
    /// escaped character keeps its backslash; a trailing unmatched
    /// backslash is dropped.
    pub fn apply_escape_characters(input: String) -> (output: String)
        ensures
            output@ == decode_escapes(input@),
    {
        let s = input.as_str();
        let n: usize = s.unicode_len();
        let mut output = String::new();
        let mut escape_flag = false;
        let mut i: usize = 0;
        proof {
            assert(input@.skip(0) =~= input@);
            assert(output@ + decode_escapes(input@) =~= decode_escapes(input@));
        }
        while i < n
            invariant
                n as nat == input@.len(),
                i <= n,
                s@ == input@,
                !escape_flag ==> decode_escapes(input@) == output@ + decode_escapes(
                    input@.skip(i as int),
                ),
                escape_flag ==> decode_escapes(input@) == output@ + decode_pending(
                    input@.skip(i as int),
                ),
            decreases n - i,
        {
            let c = s.get_char(i);
            let ghost rest: Seq<char> = input@.skip(i as int);
            let ghost out0: Seq<char> = output@;
            proof {
                assert(rest[0] == input@[i as int]);
                assert(rest.skip(1) =~= input@.skip(i + 1));
            }
            if escape_flag {
                escape_flag = false;
                if c == 'n' {
                    push_char(&mut output, '\n');
                } else if c == 't' {
                    push_char(&mut output, '\t');
                } else {
                    push_char(&mut output, '\\');
                    if c != '\\' {
                        push_char(&mut output, c);
                    }
                }
                proof {
                    assert(output@ =~= out0 + escape_replacement(c));
                    assert(decode_pending(rest) == escape_replacement(c) + decode_escapes(
                        input@.skip(i + 1),
                    ));
                    assert(out0 + decode_pending(rest) =~= output@ + decode_escapes(
                        input@.skip(i + 1),
                    ));
                }
            } else if c == '\\' {
                escape_flag = true;
                proof {
                    if rest.len() == 1 {
                        assert(decode_escapes(rest) == Seq::<char>::empty());
                        assert(input@.skip(i + 1) =~= Seq::<char>::empty());
                        assert(decode_pending(input@.skip(i + 1)) == Seq::<char>::empty());
                    } else {
                        assert(rest.skip(2) =~= input@.skip(i + 1).skip(1));
                        assert(rest[1] == input@.skip(i + 1)[0]);
                        assert(decode_escapes(rest) == decode_pending(input@.skip(i + 1)));
                    }
                }
            } else {
                push_char(&mut output, c);
                proof {
                    assert(output@ =~= out0 + seq![c]);
                    assert(decode_escapes(rest) == seq![c] + decode_escapes(input@.skip(i + 1)));
                    assert(out0 + decode_escapes(rest) =~= output@ + decode_escapes(
                        input@.skip(i + 1),
                    ));
                }
            }
            i += 1;
        }
        proof {
            assert(input@.skip(n as int) =~= Seq::<char>::empty());
            assert(decode_escapes(Seq::<char>::empty()) == Seq::<char>::empty());
            assert(decode_pending(Seq::<char>::empty()) == Seq::<char>::empty());
            assert(output@ + Seq::<char>::empty() =~= output@);
        }
        output
    }

    /// Classifies the raw argument tokens, skipping the leading program
    /// name: `-n`, `-e` and `-E` update the flag states (the last
    /// occurrence of `-e`/`-E` wins), and every other token is kept as
    /// literal text in order.
    pub fn parse_args(args: Vec<String>) -> (r: Args)
        ensures
            r@ == parse_model(drop_program_name(args.deep_view())),
    {
        let ghost toks: Seq<Seq<char>> = drop_program_name(args.deep_view());
        let mut inner: Vec<String> = Vec::new();
        let mut end_without_newline_character = false;
        let mut interpret_escape = false;
        let n_flag: String = "-n".to_owned();
        let e_flag: String = "-e".to_owned();
        let big_e_flag: String = "-E".to_owned();
        let n: usize = args.len();
        let m: usize = if n == 0 {
            0
        } else {
            n - 1
        };
        let mut i: usize = 0;
        proof {
            assert(toks.len() == m as nat);
            assert(toks.take(0) =~= Seq::<Seq<char>>::empty());
        }
        while i < m
            invariant
                m as nat == toks.len(),
                n as nat == args.deep_view().len(),
                n == 0 ==> m == 0,
                n != 0 ==> m as nat == n - 1,
                i <= m,
                toks == drop_program_name(args.deep_view()),
                n_flag@ == "-n"@,
                e_flag@ == "-e"@,
                big_e_flag@ == "-E"@,
                parse_model(toks.take(i as int)) == (ArgsModel {
                    suppress_newline: end_without_newline_character,
                    interpret_escapes: interpret_escape,
                    texts: inner.deep_view(),
                }),
            decreases m - i,
        {
            let arg = &args[i + 1];
            let ghost prev: ArgsModel = parse_model(toks.take(i as int));
            proof {
                assert(toks[i as int] == args.deep_view()[i + 1]);
                assert(arg@ == args.deep_view()[i + 1]);
                assert(toks.take(i + 1).drop_last() =~= toks.take(i as int));
                assert(toks.take(i + 1).last() == toks[i as int]);
            }
            if arg.eq(&n_flag) {
                end_without_newline_character = true;
            } else if arg.eq(&e_flag) {
                interpret_escape = true;
            } else if arg.eq(&big_e_flag) {
                interpret_escape = false;
            } else {
                let ghost inner0: Seq<Seq<char>> = inner.deep_view();
                inner.push(arg.clone());
                proof {
                    assert(inner.deep_view() =~= inner0.push(arg@));
                }
            }
            proof {
                assert(parse_model(toks.take(i + 1)) == apply_token(prev, toks[i as int]));
                assert(parse_model(toks.take(i + 1)) =~= (ArgsModel {
                    suppress_newline: end_without_newline_character,
                    interpret_escapes: interpret_escape,
                    texts: inner.deep_view(),
                }));
            }
            i += 1;
        }
        proof {
            assert(toks.take(m as int) =~= toks);
        }
        let r = Args { end_without_newline_character, interpret_escape, inner };
        proof {
            assert(r@ =~= parse_model(toks));
        }
        r
    }

    /// Produces the final output: the text tokens joined by single
    /// spaces, a newline appended unless suppressed, and the whole
    /// result passed through the escape decoder when escapes are
    /// interpreted.
    pub fn echo(self) -> (output: String)
        ensures
            output@ == spec_echo(self@),
    {
        let ghost texts: Seq<Seq<char>> = self.inner.deep_view();
        let mut output = String::new();
        let n: usize = self.inner.len();
        let mut i: usize = 0;
        proof {
            assert(texts.take(0) =~= Seq::<Seq<char>>::empty());
        }
        while i < n
            invariant
                n as nat == texts.len(),
                i <= n,
                texts == self.inner.deep_view(),
                output@ == join_with_spaces(texts.take(i as int)),
            decreases n - i,
        {
            let ghost out0: Seq<char> = output@;
            if i > 0 {
                output.append(" ");
            }
            output.append(self.inner[i].as_str());
            proof {
                reveal_strlit(" ");
                assert(" "@ =~= seq![' ']);
                assert(texts.take(i + 1).drop_last() =~= texts.take(i as int));
                assert(texts.take(i + 1).last() == texts[i as int]);
                assert(texts[i as int] == self.inner[i as int]@);
                if i == 0 {
                    assert(output@ =~= texts[0]);
                    assert(join_with_spaces(texts.take(1)) == texts.take(1)[0]);
                    assert(texts.take(1)[0] == texts[0]);
                } else {
                    assert(output@ =~= out0 + seq![' '] + texts[i as int]);
                }
            }
            i += 1;
        }
        proof {
            assert(texts.take(n as int) =~= texts);
        }
        if !self.end_without_newline_character {
            let ghost out1: Seq<char> = output@;
            output.append("\n");
            proof {
                reveal_strlit("\n");
                assert("\n"@ =~= seq!['\n']);
                assert(output@ =~= out1 + seq!['\n']);
            }
        }
        if self.interpret_escape {
            output = Self::apply_escape_characters(output);
        }
        output
    }
}

} // verus!

