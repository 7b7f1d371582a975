//! Command tree and the matcher that resolves an invocation to the most
//! specific command.
use vstd::prelude::*;
use crate::text::{chars_of, is_ws, lemma_find_ws_bounds, lemma_skip_ws_bounds, find_ws, find_whitespace, names_equal, skip_ws, skip_whitespace, span_equals, string_of_span};

verus! {

broadcast use vstd::std_specs::vec::group_vec_axioms;

/// One invocable command: its names, its subcommands and what the
/// dispatcher needs to know about it. The action itself lives with the caller.
pub struct Command {
    /// Primary name.
    pub name: String,
    /// Further names that invoke the same command.
    pub aliases: Vec<String>,
    /// Child commands, matched against the text after this command's name.
    pub subcommands: Vec<Command>,
    /// Whether the command can be run as a prefix command.
    pub has_prefix_action: bool,
    /// Whether the command can be run as a slash command.
    pub has_slash_action: bool,
    /// Whether an edit of the invoking message runs the command again.
    pub invoke_on_edit: bool,
    /// Category under which the help menu lists the command.
    pub category: Option<String>,
    /// Whether the help menu leaves the command out.
    pub hide_in_help: bool,
    /// One-line help text.
    pub inline_help: Option<String>,
    /// Long help text.
    pub multiline_help: Option<String>,
    /// Context menu entry of the command, if it has one.
    pub context_menu: Option<ContextMenuKind>,
    /// Name shown in the context menu, when it differs from `name`.
    pub context_menu_name: Option<String>,
}

/// What a context menu command is invoked on.
#[derive(PartialEq, Eq, Structural, Clone, Copy, Debug)]
pub enum ContextMenuKind {
    User,
    Message,
}

/// `tok` is the command's name or one of its aliases.
pub open spec fn command_named(c: Command, tok: Seq<char>, case_insensitive: bool) -> bool {
    names_equal(c.name@, tok, case_insensitive) || exists|j: int|
        0 <= j < c.aliases@.len() && names_equal(#[trigger] c.aliases@[j]@, tok, case_insensitive)
}

/// Index of the first command in `cmds[k..]` named `tok`.
pub open spec fn first_named(cmds: Seq<Command>, tok: Seq<char>, case_insensitive: bool, k: int) -> Option<int>
    decreases cmds.len() - k,
{
    if k < 0 || k >= cmds.len() {
        None
    } else if command_named(cmds[k], tok, case_insensitive) {
        Some(k)
    } else {
        first_named(cmds, tok, case_insensitive, k + 1)
    }
}

pub proof fn lemma_first_named(cmds: Seq<Command>, tok: Seq<char>, case_insensitive: bool, k: int)
    requires
        0 <= k,
    ensures
        match first_named(cmds, tok, case_insensitive, k) {
            Some(i) => k <= i < cmds.len() && command_named(cmds[i], tok, case_insensitive)
                && forall|j: int| k <= j < i ==> !command_named(#[trigger] cmds[j], tok, case_insensitive),
            None => forall|j: int| k <= j < cmds.len() ==> !command_named(#[trigger] cmds[j], tok, case_insensitive),
        },
    decreases cmds.len() - k,
{
    if k < cmds.len() && !command_named(cmds[k], tok, case_insensitive) {
        lemma_first_named(cmds, tok, case_insensitive, k + 1);
    }
}

/// End of the leading token of `s[pos..]`: the first whitespace at or after `pos`.
pub open spec fn token_end(s: Seq<char>, pos: int) -> int {
    find_ws(s, pos)
}

/// Start of the text after the leading token and the whitespace that follows it.
pub open spec fn after_token(s: Seq<char>, pos: int) -> int {
    skip_ws(s, find_ws(s, pos))
}

/// The command that `s[pos..]` invokes in `cmds`, with the span of the name
/// as written and the start of the argument text.
pub open spec fn find_spec(cmds: Seq<Command>, s: Seq<char>, pos: int, case_insensitive: bool) -> Option<(Command, int, int, int)>
    decreases cmds,
{
    let e = token_end(s, pos);
    let rest = after_token(s, pos);
    match first_named(cmds, s.subrange(pos, e), case_insensitive, 0) {
        None => None,
        Some(k) => if 0 <= k < cmds.len() {
            match find_spec(cmds[k].subcommands@, s, rest, case_insensitive) {
                Some(hit) => Some(hit),
                None => Some((cmds[k], pos, e, rest)),
            }
        } else {
            None
        },
    }
}

fn is_named(c: &Command, s: &Vec<char>, from: usize, to: usize, case_insensitive: bool) -> (r: bool)
    requires
        from <= to <= s@.len(),
    ensures
        r == command_named(*c, s@.subrange(from as int, to as int), case_insensitive),
{
    let name = chars_of(c.name.as_str());
    if span_equals(&name, s, from, to, case_insensitive) {
        return true;
    }
    let mut j: usize = 0;
    while j < c.aliases.len()
        invariant
            from <= to <= s@.len(),
            j <= c.aliases@.len(),
            !names_equal(c.name@, s@.subrange(from as int, to as int), case_insensitive),
            forall|i: int| 0 <= i < j ==> !names_equal(#[trigger] c.aliases@[i]@, s@.subrange(from as int, to as int), case_insensitive),
        decreases c.aliases@.len() - j,
    {
        let alias = chars_of(c.aliases[j].as_str());
        if span_equals(&alias, s, from, to, case_insensitive) {
            return true;
        }
        j = j + 1;
    }
    false
}

pub(crate) fn find_at<'a>(commands: &'a Vec<Command>, s: &Vec<char>, pos: usize, case_insensitive: bool) -> (r: Option<(&'a Command, usize, usize, usize)>)
    requires
        pos <= s@.len(),
    ensures
        match r {
            None => find_spec(commands@, s@, pos as int, case_insensitive) is None,
            Some((c, a, b, d)) => find_spec(commands@, s@, pos as int, case_insensitive)
                == Some((*c, a as int, b as int, d as int)) && a <= b <= d <= s@.len(),
        },
    decreases commands@,
{
    let e = find_whitespace(s, pos);
    let rest = skip_whitespace(s, e);
    let ghost tok = s@.subrange(pos as int, e as int);
    proof { lemma_first_named(commands@, tok, case_insensitive, 0); }
    let mut k: usize = 0;
    while k < commands.len()
        invariant
            pos <= e <= rest <= s@.len(),
            e == token_end(s@, pos as int),
            rest == after_token(s@, pos as int),
            tok == s@.subrange(pos as int, e as int),
            k <= commands@.len(),
            forall|j: int| 0 <= j < k ==> !command_named(#[trigger] commands@[j], tok, case_insensitive),
            match first_named(commands@, tok, case_insensitive, 0) {
                Some(i) => 0 <= i < commands@.len() && command_named(commands@[i], tok, case_insensitive)
                    && forall|j: int| 0 <= j < i ==> !command_named(#[trigger] commands@[j], tok, case_insensitive),
                None => forall|j: int| 0 <= j < commands@.len() ==> !command_named(#[trigger] commands@[j], tok, case_insensitive),
            },
        decreases commands@.len() - k,
    {
        let c = &commands[k];
        if is_named(c, s, pos, e, case_insensitive) {
            proof {
                assert(first_named(commands@, tok, case_insensitive, 0) == Some(k as int));
                assert(decreases_to!(commands@ => commands@[k as int]));
            }
            let deeper = find_at(&c.subcommands, s, rest, case_insensitive);
            match deeper {
                Some(hit) => {
                    return Some(hit);
                },
                None => {
                    return Some((c, pos, e, rest));
                },
            }
        }
        k = k + 1;
    }
    None
}

/// Finds the command or subcommand that `remaining_message` invokes, given
/// the text after the prefix. Returns the command, its name as written in the
/// message and the argument text after it.
pub fn find_command<'a>(commands: &'a Vec<Command>, remaining_message: &str, case_insensitive: bool) -> (r: Option<(&'a Command, String, String)>)
    ensures
        match r {
            None => find_spec(commands@, remaining_message@, 0, case_insensitive) is None,
            Some((c, name, args)) => exists|a: int, b: int, d: int|
                find_spec(commands@, remaining_message@, 0, case_insensitive) == Some((*c, a, b, d))
                && 0 <= a <= b <= d <= remaining_message@.len()
                && name@ == remaining_message@.subrange(a, b)
                && args@ == remaining_message@.subrange(d, remaining_message@.len() as int),
        },
{
    let s = chars_of(remaining_message);
    match find_at(commands, &s, 0, case_insensitive) {
        None => None,
        Some((c, a, b, d)) => {
            let name = string_of_span(&s, a, b);
            let args = string_of_span(&s, d, s.len());
            Some((c, name, args))
        },
    }
}

/// A message whose leading token is the name or an alias of a command, the
/// first in the list with that name, resolves to that command when none of
/// its subcommands matches what follows: the name is the token as written,
/// and the arguments are the text after the token and the whitespace that
/// follows it.
pub proof fn lemma_leading_token_resolves(cmds: Seq<Command>, s: Seq<char>, case_insensitive: bool, k: int)
    requires
        0 <= k < cmds.len(),
        command_named(cmds[k], s.subrange(0, token_end(s, 0)), case_insensitive),
        forall|j: int| 0 <= j < k ==> !command_named(#[trigger] cmds[j], s.subrange(0, token_end(s, 0)), case_insensitive),
        find_spec(cmds[k].subcommands@, s, after_token(s, 0), case_insensitive) is None,
    ensures
        find_spec(cmds, s, 0, case_insensitive) == Some((cmds[k], 0int, token_end(s, 0), after_token(s, 0))),
        0 <= token_end(s, 0) <= after_token(s, 0) <= s.len(),
        forall|q: int| 0 <= q < token_end(s, 0) ==> !is_ws(#[trigger] s[q]),
        token_end(s, 0) < s.len() ==> is_ws(s[token_end(s, 0)]),
        forall|q: int| token_end(s, 0) <= q < after_token(s, 0) ==> is_ws(#[trigger] s[q]),
        after_token(s, 0) < s.len() ==> !is_ws(s[after_token(s, 0)]),
{
    lemma_find_ws_bounds(s, 0);
    lemma_skip_ws_bounds(s, token_end(s, 0));
    lemma_first_named(cmds, s.subrange(0, token_end(s, 0)), case_insensitive, 0);
}

/// Subcommands take priority over arguments: when the leading token names
/// a command, the first in the list with that name, and the text after it
/// resolves among that command's subcommands, the deeper match is returned.
pub proof fn lemma_subcommand_priority(cmds: Seq<Command>, s: Seq<char>, pos: int, case_insensitive: bool, k: int)
    requires
        0 <= pos <= s.len(),
        0 <= k < cmds.len(),
        command_named(cmds[k], s.subrange(pos, token_end(s, pos)), case_insensitive),
        forall|j: int| 0 <= j < k ==> !command_named(#[trigger] cmds[j], s.subrange(pos, token_end(s, pos)), case_insensitive),
        find_spec(cmds[k].subcommands@, s, after_token(s, pos), case_insensitive) is Some,
    ensures
        find_spec(cmds, s, pos, case_insensitive) == find_spec(cmds[k].subcommands@, s, after_token(s, pos), case_insensitive),
{
    lemma_first_named(cmds, s.subrange(pos, token_end(s, pos)), case_insensitive, 0);
}

} // verus!
