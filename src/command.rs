use vstd::prelude::*;
use vstd::string::StringExecFns;
use crate::args::{
    drop_joined, lex_state, lexed_of, next_arg, next_item, next_value, next_value_of, parser_over,
    parser_words, shell_split_of, split_words, without_joined, fresh_state, Arg, LexState, Lexed,
};
use crate::roster::names_of;

verus! {

/// An option that takes a value.
#[derive(Clone, Copy, Debug, PartialEq, Eq, Structural)]
pub enum Flag {
    /// `--target`: the session, by name or by position.
    Target,
    /// `--cwd` or `-c`: the working directory.
    Cwd,
    /// `--layout` or `-l`: the layout's name.
    Layout,
}

/// What a command asks for.
#[derive(Clone, Debug, PartialEq, Eq)]
pub struct ParsedCommand {
    pub target: Option<String>,
    pub cwd: Option<String>,
    pub layout: Option<String>,
}

/// A command as plain text values.
pub struct CommandView {
    pub target: Option<Seq<char>>,
    pub cwd: Option<Seq<char>>,
    pub layout: Option<Seq<char>>,
}

/// The text of an optional string.
pub open spec fn text_of(s: Option<String>) -> Option<Seq<char>> {
    match s {
        Some(t) => Some(t@),
        None => None,
    }
}

impl View for ParsedCommand {
    type V = CommandView;

    open spec fn view(&self) -> CommandView {
        CommandView {
            target: text_of(self.target),
            cwd: text_of(self.cwd),
            layout: text_of(self.layout),
        }
    }
}

/// The command that asks for nothing.
pub open spec fn empty_command() -> CommandView {
    CommandView { target: None, cwd: None, layout: None }
}

/// Words that name the command itself and are never a target.
pub open spec fn is_reserved(w: Seq<char>) -> bool {
    w == "session-select"@ || w == "session-index"@
}

/// The option that an item read from the command line stands for, if it takes a value.
pub open spec fn lexed_flag(l: Lexed) -> Option<Flag> {
    match l {
        Lexed::Long(n) => if n == "target"@ {
            Some(Flag::Target)
        } else if n == "cwd"@ {
            Some(Flag::Cwd)
        } else if n == "layout"@ {
            Some(Flag::Layout)
        } else {
            None
        },
        Lexed::Short(c) => if c == 'c' {
            Some(Flag::Cwd)
        } else if c == 'l' {
            Some(Flag::Layout)
        } else {
            None
        },
        _ => None,
    }
}

/// The option that an item of the command line stands for, if it takes a value.
pub open spec fn flag_of_arg(a: Arg) -> Option<Flag> {
    lexed_flag(lexed_of(Some(a)))
}

/// `c` once option `f` has been given the value `v`.
pub open spec fn with_flag(c: CommandView, f: Flag, v: Seq<char>) -> CommandView {
    match f {
        Flag::Target => CommandView { target: Some(v), cwd: c.cwd, layout: c.layout },
        Flag::Cwd => CommandView { target: c.target, cwd: Some(v), layout: c.layout },
        Flag::Layout => CommandView { target: c.target, cwd: c.cwd, layout: Some(v) },
    }
}

/// `c` once the positional word `w` is read: the first word that is not
/// reserved becomes the target, when none is set yet.
pub open spec fn with_word(c: CommandView, w: Seq<char>) -> CommandView {
    if c.target is None && !is_reserved(w) {
        CommandView { target: Some(w), cwd: c.cwd, layout: c.layout }
    } else {
        c
    }
}

/// What is left of a short-option group and of a joined value.
pub open spec fn lex_weight(s: LexState) -> nat {
    s.group.len() + if s.joined is Some {
        1nat
    } else {
        0nat
    }
}

/// The command that reading on from parser state `s` builds out of `c`; `None`
/// where reading fails. Each of `--target`, `--cwd` (`-c`) and `--layout` (`-l`)
/// takes the value after it; a positional word may become the target; any other
/// option is passed over, with a value joined to it.
pub open spec fn read_from(c: CommandView, s: LexState) -> Option<CommandView>
    decreases s.words.len(), lex_weight(s),
{
    let (item, s1) = next_item(s);
    match item {
        Lexed::End => Some(c),
        Lexed::Refused => None,
        Lexed::Value(w) => read_from(with_word(c, w), s1),
        Lexed::Long(_) => match lexed_flag(item) {
            Some(f) => match next_value_of(s1) {
                (Some(v), s2) => read_from(with_flag(c, f, v), s2),
                (None, _) => None,
            },
            None => read_from(c, without_joined(s1)),
        },
        Lexed::Short(_) => match lexed_flag(item) {
            Some(f) => match next_value_of(s1) {
                (Some(v), s2) => read_from(with_flag(c, f, v), s2),
                (None, _) => None,
            },
            None => read_from(c, s1),
        },
    }
}

/// The command that a command line, given as words, asks for; `None` where an
/// option that takes a value has none.
pub open spec fn parsed_of(words: Seq<Seq<char>>) -> Option<CommandView> {
    read_from(empty_command(), fresh_state(words))
}

/// Whether `c` is a decimal digit.
pub open spec fn is_digit(c: char) -> bool {
    '0' <= c && c <= '9'
}

/// The number that a run of decimal digits writes.
pub open spec fn digits_value(d: Seq<char>) -> nat
    decreases d.len(),
{
    if d.len() == 0 {
        0
    } else {
        digits_value(d.drop_last()) * 10 + ((d.last() as u32) - ('0' as u32)) as nat
    }
}

/// The digits of `s` without a leading `+`.
pub open spec fn unsigned_part(s: Seq<char>) -> Seq<char> {
    if s.len() > 0 && s[0] == '+' {
        s.drop_first()
    } else {
        s
    }
}

/// The position that `s` names: one or more decimal digits, after an optional
/// `+`, for a number that fits in `usize`.
pub open spec fn index_value(s: Seq<char>) -> Option<usize> {
    digits_index(unsigned_part(s))
}

/// The number that `d` writes, when it is one or more decimal digits and fits in `usize`.
pub open spec fn digits_index(d: Seq<char>) -> Option<usize> {
    if d.len() > 0 && (forall|k: int| 0 <= k < d.len() ==> is_digit(#[trigger] d[k]))
        && digits_value(d) <= usize::MAX {
        Some(digits_value(d) as usize)
    } else {
        None
    }
}

/// The words of a command line, none where it cannot be split.
pub open spec fn command_words(s: Seq<char>) -> Seq<Seq<char>> {
    match shell_split_of(s) {
        Some(w) => w,
        None => Seq::empty(),
    }
}

impl ParsedCommand {
    /// A command that asks for nothing.
    pub fn new() -> (r: ParsedCommand)
        ensures
            r@ == empty_command(),
    {
        ParsedCommand { target: None, cwd: None, layout: None }
    }

    /// Gives option `flag` the value `value`, in place of any earlier one.
    pub fn set_flag(&mut self, flag: Flag, value: String)
        ensures
            final(self)@ == with_flag(old(self)@, flag, value@),
    {
        match flag {
            Flag::Target => self.target = Some(value),
            Flag::Cwd => self.cwd = Some(value),
            Flag::Layout => self.layout = Some(value),
        }
    }

    /// Reads a positional word: it becomes the target when it is the first
    /// that is not reserved and no target is set yet.
    pub fn add_word(&mut self, word: String)
        ensures
            final(self)@ == with_word(old(self)@, word@),
    {
        if self.target.is_none() && !is_reserved_word(&word) {
            self.target = Some(word);
        }
    }
}

/// Whether `w` is one of the words that name the command itself.
pub fn is_reserved_word(w: &String) -> (r: bool)
    ensures
        r == is_reserved(w@),
{
    let select = <String as StringExecFns>::from_str("session-select");
    let index = <String as StringExecFns>::from_str("session-index");
    *w == select || *w == index
}

/// The option that `arg` stands for, if it takes a value.
pub fn flag_of(arg: &Arg) -> (r: Option<Flag>)
    ensures
        r == flag_of_arg(*arg),
{
    match arg {
        Arg::Long(name) => {
            if *name == <String as StringExecFns>::from_str("target") {
                Some(Flag::Target)
            } else if *name == <String as StringExecFns>::from_str("cwd") {
                Some(Flag::Cwd)
            } else if *name == <String as StringExecFns>::from_str("layout") {
                Some(Flag::Layout)
            } else {
                None
            }
        },
        Arg::Short(c) => {
            if *c == 'c' {
                Some(Flag::Cwd)
            } else if *c == 'l' {
                Some(Flag::Layout)
            } else {
                None
            }
        },
        Arg::Value(_) => None,
    }
}

/// Why a command line could not be read.
#[derive(Debug)]
pub enum ParseError {
    /// The argument parser refused it: an option without its value, or a
    /// short option written with a joined `=value` where it takes none.
    Arguments(lexopt::Error),
}

/// The position that `s` names, as `usize`'s `from_str` reads it: decimal
/// digits after an optional `+`, within `usize`.
pub fn parse_index(s: &str) -> (r: Option<usize>)
    ensures
        r == index_value(s@),
{
    let n = s.unicode_len();
    let ghost d = unsigned_part(s@);
    let mut start: usize = 0;
    if n > 0 && s.get_char(0) == '+' {
        start = 1;
    }
    assert(d =~= s@.subrange(start as int, n as int));
    if start == n {
        return None;
    }
    let mut acc: usize = 0;
    let mut i: usize = start;
    while i < n
        invariant
            n == s@.len(),
            start <= i <= n,
            d =~= s@.subrange(start as int, n as int),
            d == unsigned_part(s@),
            forall|k: int| 0 <= k < i - start ==> is_digit(#[trigger] d[k]),
            acc == digits_value(d.take(i - start)),
        decreases n - i,
    {
        let c = s.get_char(i);
        let ghost k = i - start;
        assert(d[k] == c);
        if !('0' <= c && c <= '9') {
            assert(!is_digit(d[k]));
            return None;
        }
        assert(d.take(k + 1).drop_last() =~= d.take(k));
        let digit = (c as u32 - '0' as u32) as usize;
        let scaled = acc.checked_mul(10);
        let next = match scaled {
            Some(m) => m.checked_add(digit),
            None => None,
        };
        match next {
            Some(v) => {
                acc = v;
            },
            None => {
                proof {
                    assert(d.take(k + 1).last() == c);
                    assert(digits_value(d.take(k + 1)) == acc * 10 + digit);
                    lemma_digits_grow(d, k + 1);
                }
                return None;
            },
        }
        i = i + 1;
    }
    assert(d.take(n - start) =~= d);
    Some(acc)
}

/// A run of digits is worth at least as much as any of its prefixes.
proof fn lemma_digits_grow(d: Seq<char>, k: int)
    requires
        0 <= k <= d.len(),
    ensures
        (forall|i: int| 0 <= i < d.len() ==> is_digit(#[trigger] d[i])) ==> digits_value(d.take(k)) <= digits_value(d),
    decreases d.len(),
{
    if k < d.len() {
        let rest = d.drop_last();
        assert(rest.take(k) =~= d.take(k));
        lemma_digits_grow(rest, k);
        if forall|i: int| 0 <= i < d.len() ==> is_digit(#[trigger] d[i]) {
            assert forall|i: int| 0 <= i < rest.len() implies is_digit(#[trigger] rest[i]) by {
                assert(rest[i] == d[i]);
            }
        }
    } else {
        assert(d.take(k) =~= d);
    }
}

/// Reads a command line, given as words, into a command. `--target`, `--cwd`
/// (`-c`) and `--layout` (`-l`) each take the next value; the first positional
/// word that is not reserved is the target when no target is set yet; other
/// options are passed over.
pub fn parse_words(words: Vec<String>) -> (r: Result<ParsedCommand, ParseError>)
    ensures
        match r {
            Ok(c) => parsed_of(names_of(words@)) == Some(c@),
            Err(_) => parsed_of(names_of(words@)) is None,
        },
{
    let ghost ws = names_of(words@);
    let mut parser = parser_over(words);
    let mut cmd = ParsedCommand::new();
    loop
        invariant
            ws == names_of(words@),
            read_from(cmd@, lex_state(parser)) == parsed_of(ws),
        ensures
            ws == names_of(words@),
            parsed_of(ws) == Some(cmd@),
        decreases parser_words(parser).len(), lex_weight(lex_state(parser)),
    {
        let ghost s0 = lex_state(parser);
        let ghost c0 = cmd@;
        let arg = match next_arg(&mut parser) {
            Ok(Some(a)) => a,
            Ok(None) => {
                assert(read_from(c0, s0) == Some(c0));
                break;
            },
            Err(e) => {
                assert(read_from(c0, s0) is None);
                return Err(ParseError::Arguments(e));
            },
        };
        match flag_of(&arg) {
            Some(flag) => {
                let value = match next_value(&mut parser) {
                    Ok(v) => v,
                    Err(e) => {
                        assert(read_from(c0, s0) is None);
                        return Err(ParseError::Arguments(e));
                    },
                };
                cmd.set_flag(flag, value);
            },
            None => match arg {
                Arg::Value(word) => cmd.add_word(word),
                Arg::Long(_) => drop_joined(&mut parser),
                Arg::Short(_) => {},
            },
        }
    }
    Ok(cmd)
}

/// The words of a command line, split as a shell would; none where it cannot be split.
pub fn split_command(payload: &str) -> (r: Vec<String>)
    ensures
        names_of(r@) == command_words(payload@),
{
    match split_words(payload) {
        Some(words) => words,
        None => {
            let none: Vec<String> = Vec::new();
            assert(names_of(none@) =~= Seq::<Seq<char>>::empty());
            none
        },
    }
}

/// Reads a command line: splits it into words, then reads the words.
pub fn parse(payload: &str) -> (r: Result<ParsedCommand, ParseError>)
    ensures
        match r {
            Ok(c) => parsed_of(command_words(payload@)) == Some(c@),
            Err(_) => parsed_of(command_words(payload@)) is None,
        },
{
    parse_words(split_command(payload))
}

} // verus!
