use vstd::prelude::*;
use crate::roster::names_of;
use lexopt::ValueExt;

verus! {

#[verifier::external_type_specification]
#[verifier::external_body]
pub struct ExParser(lexopt::Parser);

#[verifier::external_type_specification]
#[verifier::external_body]
pub struct ExLexoptError(lexopt::Error);

/// One item of a command line, as the argument parser hands it out.
#[derive(Clone, Debug, PartialEq, Eq)]
pub enum Arg {
    /// `--name`, without the dashes.
    Long(String),
    /// `-c`.
    Short(char),
    /// A positional argument.
    Value(String),
}

/// The words of a command line as `shell_words::split` cuts them, or `None`
/// where it refuses the line.
pub uninterp spec fn shell_split_of(s: Seq<char>) -> Option<Seq<Seq<char>>>;

/// The arguments that a parser has not reached yet.
pub uninterp spec fn parser_words(p: lexopt::Parser) -> Seq<Seq<char>>;

/// The value joined to the last long option by `=`, not taken yet.
pub uninterp spec fn parser_joined(p: lexopt::Parser) -> Option<Seq<char>>;

/// The letters of a short-option group such as `-abc` that are not read yet.
pub uninterp spec fn parser_group(p: lexopt::Parser) -> Seq<char>;

/// Whether the parser has passed a `--`, after which every argument is positional.
pub uninterp spec fn parser_finished(p: lexopt::Parser) -> bool;

/// The state of an argument parser, as plain values.
pub struct LexState {
    pub words: Seq<Seq<char>>,
    pub joined: Option<Seq<char>>,
    pub group: Seq<char>,
    pub finished: bool,
}

/// The state of parser `p`.
pub open spec fn lex_state(p: lexopt::Parser) -> LexState {
    LexState {
        words: parser_words(p),
        joined: parser_joined(p),
        group: parser_group(p),
        finished: parser_finished(p),
    }
}

/// A parser that has read nothing of `words`.
pub open spec fn fresh_state(words: Seq<Seq<char>>) -> LexState {
    LexState { words, joined: None, group: Seq::empty(), finished: false }
}

/// What reading one item gives.
pub enum Lexed {
    /// The command line is read.
    End,
    /// A long option's name.
    Long(Seq<char>),
    /// A short option's letter.
    Short(char),
    /// A positional argument.
    Value(Seq<char>),
    /// An error.
    Refused,
}

/// The item that an argument stands for.
pub open spec fn lexed_of(a: Option<Arg>) -> Lexed {
    match a {
        None => Lexed::End,
        Some(Arg::Long(n)) => Lexed::Long(n@),
        Some(Arg::Short(c)) => Lexed::Short(c),
        Some(Arg::Value(v)) => Lexed::Value(v@),
    }
}

/// The position of the first `=` in `w` at or after `i`.
pub open spec fn first_equals(w: Seq<char>, i: int) -> Option<int>
    decreases w.len() - i,
{
    if i < 0 || i >= w.len() {
        None
    } else if w[i] == '=' {
        Some(i)
    } else {
        first_equals(w, i + 1)
    }
}

/// Whether `w` begins with `--`.
pub open spec fn is_long(w: Seq<char>) -> bool {
    w.len() >= 2 && w[0] == '-' && w[1] == '-'
}

/// The item read from `s` with nothing pending, and the state after it.
pub open spec fn next_from_word(s: LexState) -> (Lexed, LexState) {
    if s.words.len() == 0 {
        (Lexed::End, LexState { group: Seq::empty(), ..s })
    } else {
        let w = s.words[0];
        let rest = s.words.drop_first();
        if w == seq!['-', '-'] {
            if rest.len() == 0 {
                (Lexed::End, LexState { words: rest, joined: None, group: Seq::empty(), finished: true })
            } else {
                (
                    Lexed::Value(rest[0]),
                    LexState { words: rest.drop_first(), joined: None, group: Seq::empty(), finished: true },
                )
            }
        } else if is_long(w) {
            match first_equals(w, 0) {
                Some(k) => (
                    Lexed::Long(w.subrange(2, k)),
                    LexState { words: rest, joined: Some(w.subrange(k + 1, w.len() as int)), group: Seq::empty(), finished: false },
                ),
                None => (Lexed::Long(w.subrange(2, w.len() as int)), LexState { words: rest, joined: None, group: Seq::empty(), finished: false }),
            }
        } else if w.len() > 1 && w[0] == '-' {
            (Lexed::Short(w[1]), LexState { words: rest, joined: None, group: w.subrange(2, w.len() as int), finished: false })
        } else {
            (Lexed::Value(w), LexState { words: rest, joined: None, group: Seq::empty(), finished: false })
        }
    }
}

/// The item that `Parser::next` reads from state `s`, and the state after it.
pub open spec fn next_item(s: LexState) -> (Lexed, LexState) {
    if s.joined is Some {
        (Lexed::Refused, s)
    } else if s.finished {
        if s.words.len() == 0 {
            (Lexed::End, s)
        } else {
            (Lexed::Value(s.words[0]), LexState { words: s.words.drop_first(), ..s })
        }
    } else if s.group.len() > 0 {
        if s.group[0] == '=' {
            (Lexed::Refused, s)
        } else {
            (Lexed::Short(s.group[0]), LexState { group: s.group.drop_first(), ..s })
        }
    } else {
        next_from_word(s)
    }
}

/// The value that `Parser::value` takes from state `s` (`None` where it fails),
/// and the state after it.
pub open spec fn next_value_of(s: LexState) -> (Option<Seq<char>>, LexState) {
    match s.joined {
        Some(v) => (Some(v), LexState { joined: None, ..s }),
        None => if s.group.len() > 0 {
            let v = if s.group[0] == '=' {
                s.group.drop_first()
            } else {
                s.group
            };
            (Some(v), LexState { group: Seq::empty(), ..s })
        } else if s.words.len() == 0 {
            (None, s)
        } else {
            (Some(s.words[0]), LexState { words: s.words.drop_first(), ..s })
        },
    }
}

/// State `s` once any value joined to the last option, or rest of a group, is dropped.
pub open spec fn without_joined(s: LexState) -> LexState {
    LexState { joined: None, group: Seq::empty(), ..s }
}

/// Relies on `shell_words::split`: the words of `s` split as a POSIX shell
/// splits an argument line, honouring quotes and escapes; an error where it
/// cannot (an unclosed quote).
#[verifier::external_body]
pub(crate) fn split_words(s: &str) -> (r: Option<Vec<String>>)
    ensures
        match shell_split_of(s@) {
            Some(w) => r matches Some(v) && names_of(v@) == w,
            None => r is None,
        },
{
    shell_words::split(s).ok()
}

/// Relies on `lexopt::Parser::from_args`: a parser over `words`, none of them
/// taken as the program's name, that has read nothing yet.
#[verifier::external_body]
pub(crate) fn parser_over(words: Vec<String>) -> (r: lexopt::Parser)
    ensures
        parser_words(r) == names_of(words@),
        parser_joined(r) is None,
        parser_group(r) == Seq::<char>::empty(),
        !parser_finished(r),
{
    lexopt::Parser::from_args(words)
}

/// Relies on `lexopt::Parser::next`: the next option or positional argument,
/// `None` once the command line is read: `--name` or `--name=value` gives a long
/// option, `-abc` the short options `a`, `b`, `c` in turn, `--` makes every later
/// argument positional, and anything else is positional. It fails where a value
/// joined by `=` was not taken.
#[verifier::external_body]
pub(crate) fn next_arg(parser: &mut lexopt::Parser) -> (r: Result<Option<Arg>, lexopt::Error>)
    ensures
        match next_item(lex_state(*old(parser))) {
            (Lexed::Refused, _) => r is Err,
            (item, after) => r matches Ok(a) && lexed_of(a) == item && lex_state(*final(parser)) == after,
        },
{
    match parser.next() {
        Ok(Some(lexopt::Arg::Long(name))) => Ok(Some(Arg::Long(name.to_string()))),
        Ok(Some(lexopt::Arg::Short(c))) => Ok(Some(Arg::Short(c))),
        Ok(Some(lexopt::Arg::Value(v))) => Ok(Some(Arg::Value(v.to_string_lossy().into_owned()))),
        Ok(None) => Ok(None),
        Err(e) => Err(e),
    }
}

/// Relies on `lexopt::Parser::value`, the value that follows the last option:
/// the one joined by `=`, the rest of a short-option group (past one `=`), or else
/// the next argument (`MissingValue` at the end of the command line); and on
/// `lexopt::ValueExt::string`, which reads it as text.
#[verifier::external_body]
pub(crate) fn next_value(parser: &mut lexopt::Parser) -> (r: Result<String, lexopt::Error>)
    ensures
        match next_value_of(lex_state(*old(parser))) {
            (None, _) => r is Err,
            (Some(v), after) => r matches Ok(t) && t@ == v && lex_state(*final(parser)) == after,
        },
{
    match parser.value() {
        Ok(v) => v.string(),
        Err(e) => Err(e),
    }
}

/// Relies on `lexopt::Parser::optional_value`: drops the value joined to the last
/// option by `=`, or the rest of a short-option group, if there is one.
#[verifier::external_body]
pub(crate) fn drop_joined(parser: &mut lexopt::Parser)
    ensures
        lex_state(*final(parser)) == without_joined(lex_state(*old(parser))),
{
    let _ = parser.optional_value();
}

} // verus!
