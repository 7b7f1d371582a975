//! Grouping of the facades of one command definition. A command can be
//! registered as a prefix command, a slash command and a context menu
//! command; the three share one identity record, and grouping goes by that
//! identity, not by name.
use vstd::prelude::*;

verus! {

/// The facades of one command definition: indexes into the lists of prefix,
/// slash and context menu commands.
#[derive(PartialEq, Eq, Structural, Clone, Copy, Debug)]
pub struct CommandDefinitionRef {
    /// Identity of the shared command record.
    pub id: u64,
    pub prefix: Option<usize>,
    pub slash: Option<usize>,
    pub context_menu: Option<usize>,
}

/// The kinds of facade.
#[derive(PartialEq, Eq, Structural, Clone, Copy, Debug)]
pub enum Facade {
    Prefix,
    Slash,
    ContextMenu,
}

pub open spec fn with_facade(d: CommandDefinitionRef, f: Facade, idx: usize) -> CommandDefinitionRef {
    match f {
        Facade::Prefix => CommandDefinitionRef { prefix: Some(idx), ..d },
        Facade::Slash => CommandDefinitionRef { slash: Some(idx), ..d },
        Facade::ContextMenu => CommandDefinitionRef { context_menu: Some(idx), ..d },
    }
}

/// Index of the first group in `groups[k..]` with identity `id`.
pub open spec fn find_group(groups: Seq<CommandDefinitionRef>, id: u64, k: int) -> Option<int>
    decreases groups.len() - k,
{
    if k < 0 || k >= groups.len() {
        None
    } else if groups[k].id == id {
        Some(k)
    } else {
        find_group(groups, id, k + 1)
    }
}

/// Records facade `f` at `idx` in the group of `id`, opening a group at the
/// end when `id` has none yet.
pub open spec fn add_facade(groups: Seq<CommandDefinitionRef>, id: u64, f: Facade, idx: usize) -> Seq<CommandDefinitionRef> {
    match find_group(groups, id, 0) {
        Some(g) => groups.update(g, with_facade(groups[g], f, idx)),
        None => groups.push(with_facade(CommandDefinitionRef { id, prefix: None, slash: None, context_menu: None }, f, idx)),
    }
}

/// `groups` after recording the first `n` entries of `ids` as facades `f`.
pub open spec fn add_all(groups: Seq<CommandDefinitionRef>, ids: Seq<u64>, f: Facade, n: int) -> Seq<CommandDefinitionRef>
    decreases n,
{
    if n <= 0 || n > ids.len() {
        groups
    } else {
        add_facade(add_all(groups, ids, f, n - 1), ids[n - 1], f, (n - 1) as usize)
    }
}

/// What an application command is: the two kinds share one list, in
/// registration order.
#[derive(PartialEq, Eq, Structural, Clone, Copy, Debug)]
pub enum ApplicationCommandKind {
    Slash,
    ContextMenu,
}

pub open spec fn facade_of(k: ApplicationCommandKind) -> Facade {
    match k {
        ApplicationCommandKind::Slash => Facade::Slash,
        ApplicationCommandKind::ContextMenu => Facade::ContextMenu,
    }
}

/// `groups` after recording the first `n` application commands, each as the
/// facade of its kind.
pub open spec fn add_application(groups: Seq<CommandDefinitionRef>, app: Seq<(u64, ApplicationCommandKind)>, n: int) -> Seq<CommandDefinitionRef>
    decreases n,
{
    if n <= 0 || n > app.len() {
        groups
    } else {
        add_facade(add_application(groups, app, n - 1), app[n - 1].0, facade_of(app[n - 1].1), (n - 1) as usize)
    }
}

/// The definitions, in the order in which their identities first occur:
/// the prefix commands first, then the application commands in their order.
pub open spec fn definitions_spec(prefix_ids: Seq<u64>, application: Seq<(u64, ApplicationCommandKind)>) -> Seq<CommandDefinitionRef> {
    let g = add_all(Seq::empty(), prefix_ids, Facade::Prefix, prefix_ids.len() as int);
    add_application(g, application, application.len() as int)
}

fn set_facade(d: CommandDefinitionRef, f: Facade, idx: usize) -> (r: CommandDefinitionRef)
    ensures
        r == with_facade(d, f, idx),
{
    match f {
        Facade::Prefix => CommandDefinitionRef { prefix: Some(idx), ..d },
        Facade::Slash => CommandDefinitionRef { slash: Some(idx), ..d },
        Facade::ContextMenu => CommandDefinitionRef { context_menu: Some(idx), ..d },
    }
}

fn record_facade(groups: &mut Vec<CommandDefinitionRef>, id: u64, f: Facade, idx: usize)
    ensures
        final(groups)@ == add_facade(old(groups)@, id, f, idx),
{
    let mut k: usize = 0;
    while k < groups.len()
        invariant
            k <= groups@.len(),
            groups@ == old(groups)@,
            find_group(groups@, id, k as int) == find_group(groups@, id, 0),
        decreases groups@.len() - k,
    {
        if groups[k].id == id {
            let d = groups[k];
            groups.set(k, set_facade(d, f, idx));
            return;
        }
        k = k + 1;
    }
    groups.push(set_facade(CommandDefinitionRef { id, prefix: None, slash: None, context_menu: None }, f, idx));
}

fn record_all(groups: &mut Vec<CommandDefinitionRef>, ids: &Vec<u64>, f: Facade)
    ensures
        final(groups)@ == add_all(old(groups)@, ids@, f, ids@.len() as int),
{
    let mut n: usize = 0;
    while n < ids.len()
        invariant
            n <= ids@.len(),
            groups@ == add_all(old(groups)@, ids@, f, n as int),
        decreases ids@.len() - n,
    {
        record_facade(groups, ids[n], f, n);
        n = n + 1;
    }
}

fn record_application(groups: &mut Vec<CommandDefinitionRef>, app: &Vec<(u64, ApplicationCommandKind)>)
    ensures
        final(groups)@ == add_application(old(groups)@, app@, app@.len() as int),
{
    let mut n: usize = 0;
    while n < app.len()
        invariant
            n <= app@.len(),
            groups@ == add_application(old(groups)@, app@, n as int),
        decreases app@.len() - n,
    {
        let (id, kind) = app[n];
        let f = match kind {
            ApplicationCommandKind::Slash => Facade::Slash,
            ApplicationCommandKind::ContextMenu => Facade::ContextMenu,
        };
        record_facade(groups, id, f, n);
        n = n + 1;
    }
}

/// Groups the facades of each command definition. `prefix_ids[i]` is the
/// identity of the record behind the `i`-th prefix command; `application[i]`
/// gives the identity and kind of the `i`-th application command. One entry
/// per identity, in order of first occurrence, prefix commands scanned first;
/// each facade holds the index of the last command of its kind with that
/// identity.
pub fn command_definitions(prefix_ids: &Vec<u64>, application: &Vec<(u64, ApplicationCommandKind)>) -> (r: Vec<CommandDefinitionRef>)
    ensures
        r@ == definitions_spec(prefix_ids@, application@),
{
    let mut groups: Vec<CommandDefinitionRef> = Vec::new();
    record_all(&mut groups, prefix_ids, Facade::Prefix);
    record_application(&mut groups, application);
    groups
}

} // verus!
