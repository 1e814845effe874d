//! Routing commands that nodes emit beside their state patch.
use vstd::prelude::*;
use crate::json::{StrMap, Value};
use crate::text::owned;

verus! {

/// Read-only values handed to every node of a run.
pub type RuntimeContext = StrMap<Value>;

#[derive(Debug, PartialEq)]
pub enum Command {
    /// Stop after the current superstep.
    Interrupt,
    /// Run this node in the next superstep.
    Goto(String),
    /// Run these nodes in the next superstep.
    GotoMany(Vec<String>),
}

/// What a command says, by the characters of its names.
pub enum CommandView {
    Interrupt,
    Goto(Seq<char>),
    GotoMany(Seq<Seq<char>>),
}

/// The characters of each string, in order.
pub open spec fn names_view(v: Seq<String>) -> Seq<Seq<char>> {
    v.map_values(|s: String| s@)
}

impl View for Command {
    type V = CommandView;

    open spec fn view(&self) -> CommandView {
        match self {
            Command::Interrupt => CommandView::Interrupt,
            Command::Goto(t) => CommandView::Goto(t@),
            Command::GotoMany(ts) => CommandView::GotoMany(names_view(ts@)),
        }
    }
}

/// A copy of a vector of strings.
pub fn copy_strings(v: &Vec<String>) -> (r: Vec<String>)
    ensures
        r@ == v@,
{
    let mut out: Vec<String> = Vec::new();
    let mut i: usize = 0;
    while i < v.len()
        invariant
            i <= v.len(),
            out@ == v@.subrange(0, i as int),
        decreases v.len() - i,
    {
        out.push(v[i].clone());
        proof {
            assert(v@.subrange(0, i + 1) =~= v@.subrange(0, i as int).push(v@[i as int]));
        }
        i = i + 1;
    }
    proof {
        assert(v@.subrange(0, v@.len() as int) =~= v@);
    }
    out
}

impl Command {
    /// A copy of this command.
    pub fn copy(&self) -> (r: Command)
        ensures
            r@ == self@,
    {
        match self {
            Command::Interrupt => Command::Interrupt,
            Command::Goto(t) => Command::Goto(t.clone()),
            Command::GotoMany(ts) => Command::GotoMany(copy_strings(ts)),
        }
    }
}

/// The targets a command routes to.
pub open spec fn command_targets(c: CommandView) -> Seq<Seq<char>> {
    match c {
        CommandView::Interrupt => Seq::empty(),
        CommandView::Goto(t) => seq![t],
        CommandView::GotoMany(ts) => ts,
    }
}

/// The targets of a list of commands, in order.
pub open spec fn all_targets(cs: Seq<CommandView>) -> Seq<Seq<char>>
    decreases cs.len(),
{
    if cs.len() == 0 {
        Seq::empty()
    } else {
        all_targets(cs.drop_last()) + command_targets(cs.last())
    }
}

/// Whether a list of commands holds an interrupt.
pub open spec fn has_interrupt_spec(cs: Seq<CommandView>) -> bool {
    exists|i: int| 0 <= i < cs.len() && cs[i] is Interrupt
}

/// The views of a list of commands.
pub open spec fn commands_view(cs: Seq<Command>) -> Seq<CommandView> {
    cs.map_values(|c: Command| c@)
}

/// The result of running a node: a state patch and routing commands.
#[derive(Debug, PartialEq)]
pub struct NodeOutput {
    pub patch: StrMap<Value>,
    pub commands: Vec<Command>,
}

impl NodeOutput {
    /// An output with no commands.
    pub fn from_patch(patch: StrMap<Value>) -> (r: Self)
        ensures
            r.patch == patch,
            r.commands@.len() == 0,
    {
        NodeOutput { patch, commands: Vec::new() }
    }

    /// An output that interrupts the run after this superstep.
    pub fn interrupt(patch: StrMap<Value>) -> (r: Self)
        ensures
            r.patch == patch,
            commands_view(r.commands@) == seq![CommandView::Interrupt],
    {
        let mut commands = Vec::new();
        commands.push(Command::Interrupt);
        let r = NodeOutput { patch, commands };
        proof {
            assert(commands_view(r.commands@) =~= seq![CommandView::Interrupt]);
        }
        r
    }

    /// An output that routes to `node`.
    pub fn goto(patch: StrMap<Value>, node: &str) -> (r: Self)
        ensures
            r.patch == patch,
            commands_view(r.commands@) == seq![CommandView::Goto(node@)],
    {
        let mut commands = Vec::new();
        commands.push(Command::Goto(owned(node)));
        let r = NodeOutput { patch, commands };
        proof {
            assert(commands_view(r.commands@) =~= seq![CommandView::Goto(node@)]);
        }
        r
    }

    /// An output that routes to each of `nodes`.
    pub fn goto_many(patch: StrMap<Value>, nodes: &[&str]) -> (r: Self)
        ensures
            r.patch == patch,
            commands_view(r.commands@) == seq![
                CommandView::GotoMany(nodes@.map_values(|s: &str| s@)),
            ],
    {
        let mut names: Vec<String> = Vec::new();
        let mut i: usize = 0;
        while i < nodes.len()
            invariant
                i <= nodes@.len(),
                names_view(names@) =~= nodes@.subrange(0, i as int).map_values(|s: &str| s@),
            decreases nodes@.len() - i,
        {
            let ghost before = names@;
            names.push(owned(nodes[i]));
            proof {
                assert(nodes@.subrange(0, i + 1) =~= nodes@.subrange(0, i as int).push(nodes@[i as int]));
                assert(names_view(names@) =~= names_view(before).push(nodes@[i as int]@));
            }
            i = i + 1;
        }
        proof {
            assert(nodes@.subrange(0, nodes@.len() as int) =~= nodes@);
        }
        let mut commands = Vec::new();
        commands.push(Command::GotoMany(names));
        let r = NodeOutput { patch, commands };
        proof {
            assert(commands_view(r.commands@) =~= seq![
                CommandView::GotoMany(nodes@.map_values(|s: &str| s@)),
            ]);
        }
        r
    }

    /// This output with `commands` appended to its commands.
    pub fn with_commands(self, commands: Vec<Command>) -> (r: Self)
        ensures
            r.patch == self.patch,
            r.commands@ == self.commands@ + commands@,
    {
        let mut out = self;
        let mut rest = commands;
        out.commands.append(&mut rest);
        out
    }

    /// Whether the commands hold an interrupt.
    pub fn has_interrupt(&self) -> (b: bool)
        ensures
            b == has_interrupt_spec(commands_view(self.commands@)),
    {
        let mut i: usize = 0;
        while i < self.commands.len()
            invariant
                i <= self.commands@.len(),
                forall|j: int| 0 <= j < i ==> !(self.commands@[j] is Interrupt),
            decreases self.commands@.len() - i,
        {
            if let Command::Interrupt = &self.commands[i] {
                proof {
                    assert(commands_view(self.commands@)[i as int] is Interrupt);
                }
                return true;
            }
            i = i + 1;
        }
        proof {
            assert forall|j: int| 0 <= j < commands_view(self.commands@).len() implies !(commands_view(
                self.commands@,
            )[j] is Interrupt) by {
                assert(!(self.commands@[j] is Interrupt));
            }
        }
        false
    }

    /// The targets of the routing commands, in order.
    pub fn goto_targets(&self) -> (r: Vec<String>)
        ensures
            names_view(r@) == all_targets(commands_view(self.commands@)),
    {
        collect_targets(&self.commands)
    }
}

/// The targets of a list of commands, in order.
pub fn collect_targets(commands: &Vec<Command>) -> (r: Vec<String>)
    ensures
        names_view(r@) == all_targets(commands_view(commands@)),
{
    let mut targets: Vec<String> = Vec::new();
    let mut i: usize = 0;
    while i < commands.len()
        invariant
            i <= commands@.len(),
            names_view(targets@) == all_targets(commands_view(commands@.subrange(0, i as int))),
        decreases commands@.len() - i,
    {
        let ghost before = targets@;
        match &commands[i] {
            Command::Goto(t) => {
                targets.push(t.clone());
            },
            Command::GotoMany(items) => {
                let mut j: usize = 0;
                while j < items.len()
                    invariant
                        j <= items@.len(),
                        targets@ =~= before + items@.subrange(0, j as int),
                    decreases items@.len() - j,
                {
                    targets.push(items[j].clone());
                    proof {
                        assert(items@.subrange(0, j + 1) =~= items@.subrange(0, j as int).push(items@[j as int]));
                    }
                    j = j + 1;
                }
                proof {
                    assert(items@.subrange(0, items@.len() as int) =~= items@);
                }
            },
            Command::Interrupt => {},
        }
        proof {
            let cs = commands_view(commands@.subrange(0, i + 1));
            assert(cs.drop_last() =~= commands_view(commands@.subrange(0, i as int)));
            assert(cs.last() == commands@[i as int]@);
            assert(names_view(targets@) =~= names_view(before) + command_targets(commands@[i as int]@));
        }
        i = i + 1;
    }
    proof {
        assert(commands@.subrange(0, commands@.len() as int) =~= commands@);
    }
    targets
}

} // verus!
