//! The built-in help command's configuration and the text it replies with.
use vstd::prelude::*;
use vstd::string::{StrSliceExecFns, StringExecFns};
use crate::command::{Command, ContextMenuKind};
use crate::text::{chars_of, eq_ascii_ci, push_char, span_equals};
use crate::token::opt_view;

verus! {

/// How the help message looks.
pub struct HelpConfiguration<'a> {
    /// Extra text at the bottom of the message.
    pub extra_text_at_bottom: &'a str,
    /// Whether the reply is ephemeral where possible.
    pub ephemeral: bool,
    /// Whether context menu commands are listed as well.
    pub show_context_menu_commands: bool,
}

impl<'a> Default for HelpConfiguration<'a> {
    fn default() -> (r: Self)
        ensures
            r.extra_text_at_bottom@.len() == 0,
            r.ephemeral,
            !r.show_context_menu_commands,
    {
        proof { reveal_strlit(""); }
        HelpConfiguration { extra_text_at_bottom: "", ephemeral: true, show_context_menu_commands: false }
    }
}

/// The command that `~help name` describes: the first whose name, or whose
/// context menu name, equals `name` up to ASCII case.
pub open spec fn help_target(cmds: Seq<Command>, name: Seq<char>, k: int) -> Option<int>
    decreases cmds.len() - k,
{
    if k < 0 || k >= cmds.len() {
        None
    } else if eq_ascii_ci(cmds[k].name@, name) || (match cmds[k].context_menu_name {
        Some(n) => eq_ascii_ci(n@, name),
        None => false,
    }) {
        Some(k)
    } else {
        help_target(cmds, name, k + 1)
    }
}

/// The reply to `~help name`.
pub open spec fn single_help_spec(cmds: Seq<Command>, name: Seq<char>) -> Seq<char> {
    match help_target(cmds, name, 0) {
        Some(k) => match cmds[k].multiline_help {
            Some(h) => h@,
            None => match cmds[k].inline_help {
                Some(h) => h@,
                None => "No help available"@,
            },
        },
        None => "No such command `"@ + name + "`"@,
    }
}

fn named_ci(a: &String, name: &Vec<char>) -> (r: bool)
    ensures
        r == eq_ascii_ci(a@, name@),
{
    let ac = chars_of(a.as_str());
    let r = span_equals(&ac, name, 0, name.len(), true);
    proof { assert(name@.subrange(0, name@.len() as int) =~= name@); }
    r
}

/// The text of the help reply for one command.
pub fn help_single_command_text(commands: &Vec<Command>, command_name: &str) -> (r: String)
    ensures
        r@ == single_help_spec(commands@, command_name@),
{
    let name = chars_of(command_name);
    let mut k: usize = 0;
    while k < commands.len()
        invariant
            name@ == command_name@,
            k <= commands@.len(),
            help_target(commands@, command_name@, k as int) == help_target(commands@, command_name@, 0),
        decreases commands@.len() - k,
    {
        let c = &commands[k];
        let hit = named_ci(&c.name, &name) || match &c.context_menu_name {
            Some(n) => named_ci(n, &name),
            None => false,
        };
        if hit {
            return match &c.multiline_help {
                Some(h) => h.clone(),
                None => match &c.inline_help {
                    Some(h) => h.clone(),
                    None => String::from_str("No help available"),
                },
            };
        }
        k = k + 1;
    }
    let mut out = String::from_str("No such command `");
    out.append(command_name);
    out.append("`");
    out
}

/// The distinct categories of `cmds`, in the order in which they first occur.
pub open spec fn categories(cmds: Seq<Command>) -> Seq<Option<Seq<char>>>
    decreases cmds.len(),
{
    if cmds.len() == 0 {
        Seq::empty()
    } else {
        let prev = categories(cmds.drop_last());
        let c = opt_view(cmds.last().category);
        if prev.contains(c) {
            prev
        } else {
            prev.push(c)
        }
    }
}

pub open spec fn spaces(n: nat) -> Seq<char> {
    Seq::new(n, |i: int| ' ')
}

/// Spaces after a command's name: enough to reach a width of twelve, and one more.
pub open spec fn pad_width(p: Seq<char>, name: Seq<char>) -> nat {
    if p.len() + name.len() >= 12 {
        1
    } else {
        (12 - (p.len() + name.len()) + 1) as nat
    }
}

pub open spec fn opt_text(o: Option<String>) -> Seq<char> {
    match o {
        Some(s) => s@,
        None => Seq::empty(),
    }
}

pub open spec fn entry_line(p: Seq<char>, c: Command) -> Seq<char> {
    "  "@ + p + c.name@ + spaces(pad_width(p, c.name@)) + opt_text(c.inline_help) + "\n"@
}

/// The overview line of `c`: slash commands show `/`, prefix commands the
/// prefix; hidden commands and those of neither kind have none.
pub open spec fn menu_line(c: Command, prefix: Seq<char>) -> Seq<char> {
    if c.hide_in_help {
        Seq::empty()
    } else if c.has_slash_action {
        entry_line("/"@, c)
    } else if c.has_prefix_action {
        entry_line(prefix, c)
    } else {
        Seq::empty()
    }
}

/// Lines of the commands among `cmds[..n]` in category `cat`.
pub open spec fn category_lines(cmds: Seq<Command>, cat: Option<Seq<char>>, prefix: Seq<char>, n: int) -> Seq<char>
    decreases n,
{
    if n <= 0 || n > cmds.len() {
        Seq::empty()
    } else {
        category_lines(cmds, cat, prefix, n - 1) + if opt_view(cmds[n - 1].category) == cat {
            menu_line(cmds[n - 1], prefix)
        } else {
            Seq::empty()
        }
    }
}

pub open spec fn category_name(cat: Option<Seq<char>>) -> Seq<char> {
    match cat {
        Some(c) => c,
        None => "Commands"@,
    }
}

/// The sections of the first `m` categories: a header, then their lines.
pub open spec fn category_sections(cmds: Seq<Command>, cats: Seq<Option<Seq<char>>>, prefix: Seq<char>, m: int) -> Seq<char>
    decreases m,
{
    if m <= 0 || m > cats.len() {
        Seq::empty()
    } else {
        category_sections(cmds, cats, prefix, m - 1) + category_name(cats[m - 1]) + ":\n"@
            + category_lines(cmds, cats[m - 1], prefix, cmds.len() as int)
    }
}

pub open spec fn kind_name(k: ContextMenuKind) -> Seq<char> {
    match k {
        ContextMenuKind::User => "user"@,
        ContextMenuKind::Message => "message"@,
    }
}

pub open spec fn context_line(c: Command) -> Seq<char> {
    match c.context_menu {
        Some(k) => "  "@ + (match c.context_menu_name {
            Some(n) => n@,
            None => c.name@,
        }) + " (on "@ + kind_name(k) + ")\n"@,
        None => Seq::empty(),
    }
}

pub open spec fn context_lines(cmds: Seq<Command>, n: int) -> Seq<char>
    decreases n,
{
    if n <= 0 || n > cmds.len() {
        Seq::empty()
    } else {
        context_lines(cmds, n - 1) + context_line(cmds[n - 1])
    }
}

/// The overview of all commands, in a code block.
pub open spec fn menu_spec(cmds: Seq<Command>, prefix: Seq<char>, show_context_menu: bool, extra: Seq<char>) -> Seq<char> {
    "```\n"@ + category_sections(cmds, categories(cmds), prefix, categories(cmds).len() as int) + (if show_context_menu {
        "\nContext menu commands:\n"@ + context_lines(cmds, cmds.len() as int)
    } else {
        Seq::empty()
    }) + "\n"@ + extra + "\n```"@
}

fn same_category(a: &Option<String>, b: &Option<String>) -> (r: bool)
    ensures
        r == (opt_view(*a) == opt_view(*b)),
{
    match (a, b) {
        (Some(x), Some(y)) => x.eq(y),
        (None, None) => true,
        _ => false,
    }
}

pub open spec fn rep_categories(cmds: Seq<Command>, reps: Seq<usize>) -> Seq<Option<Seq<char>>> {
    reps.map_values(|i: usize| opt_view(cmds[i as int].category))
}

fn category_list(cmds: &Vec<Command>) -> (reps: Vec<usize>)
    ensures
        rep_categories(cmds@, reps@) == categories(cmds@),
        forall|j: int| 0 <= j < reps@.len() ==> #[trigger] reps@[j] < cmds@.len(),
{
    let mut reps: Vec<usize> = Vec::new();
    let mut k: usize = 0;
    while k < cmds.len()
        invariant
            k <= cmds@.len(),
            rep_categories(cmds@, reps@) == categories(cmds@.subrange(0, k as int)),
            forall|j: int| 0 <= j < reps@.len() ==> #[trigger] reps@[j] < k,
        decreases cmds@.len() - k,
    {
        let ghost prev = rep_categories(cmds@, reps@);
        let ghost c = opt_view(cmds@[k as int].category);
        let mut found = false;
        let mut j: usize = 0;
        while j < reps.len()
            invariant
                k < cmds@.len(),
                j <= reps@.len(),
                prev == rep_categories(cmds@, reps@),
                c == opt_view(cmds@[k as int].category),
                forall|q: int| 0 <= q < reps@.len() ==> #[trigger] reps@[q] < k,
                found <==> exists|q: int| 0 <= q < j && prev[q] == c,
            decreases reps@.len() - j,
        {
            proof { assert(prev[j as int] == opt_view(cmds@[reps@[j as int] as int].category)); }
            if same_category(&cmds[reps[j]].category, &cmds[k].category) {
                found = true;
            }
            j = j + 1;
        }
        let ghost sub = cmds@.subrange(0, k + 1);
        proof {
            assert(sub.drop_last() =~= cmds@.subrange(0, k as int));
            assert(sub.last() == cmds@[k as int]);
            assert(found <==> prev.contains(c));
        }
        if !found {
            reps.push(k);
            proof { assert(rep_categories(cmds@, reps@) =~= prev.push(c)); }
        }
        k = k + 1;
    }
    proof { assert(cmds@.subrange(0, cmds@.len() as int) =~= cmds@); }
    reps
}

fn push_spaces(out: &mut String, n: usize)
    ensures
        final(out)@ == old(out)@ + spaces(n as nat),
{
    let ghost base = out@;
    let mut i: usize = 0;
    while i < n
        invariant
            i <= n,
            out@ == base + spaces(i as nat),
        decreases n - i,
    {
        push_char(out, ' ');
        proof { assert(base + spaces((i + 1) as nat) =~= (base + spaces(i as nat)).push(' ')); }
        i = i + 1;
    }
}

fn push_entry(out: &mut String, p: &str, c: &Command)
    ensures
        final(out)@ == old(out)@ + entry_line(p@, *c),
{
    let ghost base = out@;
    out.append("  ");
    out.append(p);
    out.append(c.name.as_str());
    let pl = p.unicode_len();
    let nl = c.name.as_str().unicode_len();
    let pad: usize = if pl >= 12 || nl >= 12 - pl { 1 } else { 12 - pl - nl + 1 };
    push_spaces(out, pad);
    match &c.inline_help {
        Some(h) => out.append(h.as_str()),
        None => {},
    }
    out.append("\n");
    proof {
        assert(out@ =~= base + entry_line(p@, *c));
    }
}

fn push_menu_line(out: &mut String, c: &Command, prefix: &str)
    ensures
        final(out)@ == old(out)@ + menu_line(*c, prefix@),
{
    if c.hide_in_help {
        proof { assert(out@ =~= out@ + Seq::<char>::empty()); }
    } else if c.has_slash_action {
        push_entry(out, "/", c);
    } else if c.has_prefix_action {
        push_entry(out, prefix, c);
    } else {
        proof { assert(out@ =~= out@ + Seq::<char>::empty()); }
    }
}

fn push_context_line(out: &mut String, c: &Command)
    ensures
        final(out)@ == old(out)@ + context_line(*c),
{
    let ghost base = out@;
    match c.context_menu {
        Some(k) => {
            out.append("  ");
            match &c.context_menu_name {
                Some(n) => out.append(n.as_str()),
                None => out.append(c.name.as_str()),
            }
            out.append(" (on ");
            match k {
                ContextMenuKind::User => out.append("user"),
                ContextMenuKind::Message => out.append("message"),
            }
            out.append(")\n");
            proof { assert(out@ =~= base + context_line(*c)); }
        },
        None => {
            proof { assert(out@ =~= base + context_line(*c)); }
        },
    }
}

/// The overview of all commands: commands grouped by category, in the order
/// in which the categories first occur, each line showing how the command is
/// invoked (`/` or `command_prefix`) and its one-line help; then, if
/// configured, the context menu commands; then the configured extra text.
pub fn help_all_commands_text(commands: &Vec<Command>, command_prefix: &str, config: &HelpConfiguration) -> (r: String)
    ensures
        r@ == menu_spec(commands@, command_prefix@, config.show_context_menu_commands, config.extra_text_at_bottom@),
{
    let reps = category_list(commands);
    let ghost cats = categories(commands@);
    let mut out = String::from_str("```\n");
    let mut m: usize = 0;
    while m < reps.len()
        invariant
            m <= reps@.len(),
            rep_categories(commands@, reps@) == cats,
            forall|j: int| 0 <= j < reps@.len() ==> #[trigger] reps@[j] < commands@.len(),
            out@ == "```\n"@ + category_sections(commands@, cats, command_prefix@, m as int),
        decreases reps@.len() - m,
    {
        let cat = &commands[reps[m]].category;
        let ghost cv = opt_view(*cat);
        proof { assert(cv == cats[m as int]); }
        let ghost head = out@;
        match cat {
            Some(n) => out.append(n.as_str()),
            None => out.append("Commands"),
        }
        out.append(":\n");
        let ghost head2 = out@;
        proof { assert(head2 =~= head + category_name(cv) + ":\n"@); }
        let mut n: usize = 0;
        while n < commands.len()
            invariant
                n <= commands@.len(),
                cv == opt_view(*cat),
                out@ == head2 + category_lines(commands@, cv, command_prefix@, n as int),
            decreases commands@.len() - n,
        {
            let ghost before = out@;
            if same_category(&commands[n].category, cat) {
                push_menu_line(&mut out, &commands[n], command_prefix);
            }
            proof {
                assert(out@ =~= head2 + category_lines(commands@, cv, command_prefix@, n + 1));
            }
            n = n + 1;
        }
        proof {
            assert(out@ =~= "```\n"@ + category_sections(commands@, cats, command_prefix@, m + 1));
        }
        m = m + 1;
    }
    let ghost after_sections = out@;
    if config.show_context_menu_commands {
        out.append("\nContext menu commands:\n");
        let ghost head = out@;
        let mut n: usize = 0;
        while n < commands.len()
            invariant
                n <= commands@.len(),
                out@ == head + context_lines(commands@, n as int),
            decreases commands@.len() - n,
        {
            push_context_line(&mut out, &commands[n]);
            proof { assert(out@ =~= head + context_lines(commands@, n + 1)); }
            n = n + 1;
        }
        proof {
            assert(out@ =~= after_sections + ("\nContext menu commands:\n"@ + context_lines(commands@, commands@.len() as int)));
        }
    } else {
        proof { assert(out@ =~= after_sections + Seq::<char>::empty()); }
    }
    out.append("\n");
    out.append(config.extra_text_at_bottom);
    out.append("\n```");
    proof {
        assert(out@ =~= menu_spec(commands@, command_prefix@, config.show_context_menu_commands, config.extra_text_at_bottom@));
    }
    out
}

/// The prefix that the overview shows before prefix commands: the fixed
/// prefix, else what the dynamic prefix callback returned, else nothing.
pub open spec fn shown_prefix_spec(prefix: Option<Seq<char>>, dynamic_prefix: Option<Seq<char>>) -> Seq<char> {
    match prefix {
        Some(p) => p,
        None => match dynamic_prefix {
            Some(d) => d,
            None => Seq::empty(),
        },
    }
}

/// Chooses the prefix for `help_all_commands_text`. The dynamic prefix
/// callback is only consulted when there is no fixed prefix; `dynamic_prefix`
/// is its result, or `None` when there is no callback.
pub fn help_command_prefix(prefix: &Option<String>, dynamic_prefix: Option<String>) -> (r: String)
    ensures
        r@ == shown_prefix_spec(opt_view(*prefix), opt_view(dynamic_prefix)),
{
    match prefix {
        Some(p) => p.clone(),
        None => match dynamic_prefix {
            Some(d) => d,
            None => String::new(),
        },
    }
}

} // verus!
