use vstd::prelude::*;
use vstd::string::StringExecFns;
use crate::command::{
    command_words, index_value, parse, parse_index, parsed_of, text_of, CommandView,
    ParsedCommand,
};
use crate::roster::SessionRegistry;

verus! {

/// Which layout a session opens with.
#[derive(Clone, Debug, PartialEq, Eq)]
pub enum Layout {
    /// The host's default layout.
    Default,
    /// The layout file of this name.
    Named(String),
}

/// A request to switch to a session.
#[derive(Clone, Debug, PartialEq, Eq)]
pub struct SwitchAction {
    pub name: String,
    pub layout: Layout,
    pub cwd: Option<String>,
}

/// A switch request as plain text values; a layout of `None` is the default one.
pub struct SwitchView {
    pub name: Seq<char>,
    pub layout: Option<Seq<char>>,
    pub cwd: Option<Seq<char>>,
}

/// The layout's name, `None` for the default layout.
pub open spec fn layout_name(l: Layout) -> Option<Seq<char>> {
    match l {
        Layout::Default => None,
        Layout::Named(n) => Some(n@),
    }
}

impl View for SwitchAction {
    type V = SwitchView;

    open spec fn view(&self) -> SwitchView {
        SwitchView { name: self.name@, layout: layout_name(self.layout), cwd: text_of(self.cwd) }
    }
}

/// The session that `target` designates in `roster`: the name at that position
/// when it reads as a position, else the target itself.
pub open spec fn target_session(target: Seq<char>, roster: Seq<Seq<char>>) -> Option<Seq<char>> {
    match index_value(target) {
        Some(i) => if i < roster.len() {
            Some(roster[i as int])
        } else {
            None
        },
        None => Some(target),
    }
}

/// The switch that command `c` asks for against `roster`, if any.
pub open spec fn resolved(c: CommandView, roster: Seq<Seq<char>>) -> Option<SwitchView> {
    match c.target {
        None => None,
        Some(t) => match target_session(t, roster) {
            None => None,
            Some(name) => Some(SwitchView { name, layout: c.layout, cwd: c.cwd }),
        },
    }
}

/// The name of the file that holds a layout.
pub open spec fn layout_file(l: Layout) -> Seq<char> {
    match l {
        Layout::Default => "default"@,
        Layout::Named(n) => n@ + ".kdl"@,
    }
}

impl Layout {
    /// The name of the layout file that the host is asked to open.
    pub fn file_name(&self) -> (r: String)
        ensures
            r@ == layout_file(*self),
    {
        match self {
            Layout::Default => <String as StringExecFns>::from_str("default"),
            Layout::Named(n) => n.clone().concat(".kdl"),
        }
    }
}

/// Turns a command into a switch request against the roster: none without a
/// target, or for a position past the roster's end. A target that reads as a
/// position picks that session; any other is taken as a name as it stands.
pub fn resolve(parsed: &ParsedCommand, registry: &SessionRegistry) -> (r: Option<SwitchAction>)
    ensures
        match r {
            Some(a) => resolved(parsed@, registry@) == Some(a@),
            None => resolved(parsed@, registry@) is None,
        },
{
    let target = match &parsed.target {
        Some(t) => t,
        None => return None,
    };
    let name = match parse_index(target.as_str()) {
        Some(i) => match registry.resolve_index(i) {
            Some(n) => n,
            None => return None,
        },
        None => target.clone(),
    };
    let layout = match &parsed.layout {
        Some(l) => Layout::Named(l.clone()),
        None => Layout::Default,
    };
    Some(SwitchAction { name, layout, cwd: parsed.cwd.clone() })
}

/// Handles a command line against the roster: reads it and resolves it. A line
/// that cannot be read asks for nothing.
pub fn handle_command(payload: &str, registry: &SessionRegistry) -> (r: Option<SwitchAction>)
    ensures
        match parsed_of(command_words(payload@)) {
            Some(c) => match r {
                Some(a) => resolved(c, registry@) == Some(a@),
                None => resolved(c, registry@) is None,
            },
            None => r is None,
        },
{
    match parse(payload) {
        Ok(parsed) => resolve(&parsed, registry),
        Err(_) => None,
    }
}

} // verus!
