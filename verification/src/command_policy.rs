//! The policy that decides which routing commands a node may emit, and how
//! the commands of one node resolve to an interrupt flag and goto targets.
use vstd::prelude::*;
use crate::json::StrSet;
use crate::runtime::{
    all_targets, collect_targets, commands_view, has_interrupt_spec, names_view,
    Command, CommandView,
};
use crate::text::{concat, concat3, decimal, seq_lt, u64_to_decimal};

verus! {

#[derive(Debug, Clone, Copy, PartialEq, Eq, Structural)]
pub struct CommandPolicy {
    pub allow_goto: bool,
    pub allow_goto_many: bool,
    pub max_goto_targets: usize,
    pub deduplicate_targets: bool,
    pub allow_interrupt_with_routing: bool,
}

/// The default policy: everything allowed, no limit on targets,
/// duplicates removed.
pub open spec fn default_policy() -> CommandPolicy {
    CommandPolicy {
        allow_goto: true,
        allow_goto_many: true,
        max_goto_targets: usize::MAX,
        deduplicate_targets: true,
        allow_interrupt_with_routing: true,
    }
}

impl Default for CommandPolicy {
    /// Everything allowed, no limit on targets, duplicates removed.
    fn default() -> (r: Self)
        ensures
            r.allow_goto,
            r.allow_goto_many,
            r.max_goto_targets == usize::MAX,
            r.deduplicate_targets,
            r.allow_interrupt_with_routing,
            r == default_policy(),
    {
        CommandPolicy {
            allow_goto: true,
            allow_goto_many: true,
            max_goto_targets: usize::MAX,
            deduplicate_targets: true,
            allow_interrupt_with_routing: true,
        }
    }
}

#[derive(Debug, PartialEq)]
pub struct ResolvedCommands {
    pub interrupted: bool,
    pub goto_targets: Vec<String>,
}

/// Whether the policy refuses a command by its kind.
pub open spec fn refused(c: CommandView, policy: CommandPolicy) -> bool {
    match c {
        CommandView::Goto(_) => !policy.allow_goto,
        CommandView::GotoMany(_) => !policy.allow_goto_many,
        CommandView::Interrupt => false,
    }
}

/// Index of the first refused command at or after `i`.
pub open spec fn first_refused_from(cs: Seq<CommandView>, policy: CommandPolicy, i: int) -> Option<int>
    decreases cs.len() - i,
{
    if i < 0 || i >= cs.len() {
        None
    } else if refused(cs[i], policy) {
        Some(i)
    } else {
        first_refused_from(cs, policy, i + 1)
    }
}

/// The message for a command refused by its kind.
pub open spec fn refusal_message(c: CommandView, node: Seq<char>) -> Seq<char> {
    match c {
        CommandView::GotoMany(_) => "command policy rejected GotoMany at node `"@ + node + "`"@,
        _ => "command policy rejected Goto at node `"@ + node + "`"@,
    }
}

/// Strictly ascending names.
pub open spec fn strictly_sorted(s: Seq<Seq<char>>) -> bool {
    forall|i: int, j: int| 0 <= i < j < s.len() ==> seq_lt(#[trigger] s[i], #[trigger] s[j])
}

/// What `resolve_commands` answers.
pub open spec fn resolve_ok(
    cs: Seq<CommandView>,
    policy: CommandPolicy,
    targets: Seq<Seq<char>>,
    interrupted: bool,
) -> bool {
    &&& interrupted == has_interrupt_spec(cs)
    &&& if policy.deduplicate_targets {
        strictly_sorted(targets) && targets.to_set() == all_targets(cs).to_set()
    } else {
        targets == all_targets(cs)
    }
}

proof fn lemma_first_refused_none(cs: Seq<CommandView>, policy: CommandPolicy, i: int)
    requires
        0 <= i <= cs.len(),
        forall|j: int| 0 <= j < i ==> !refused(#[trigger] cs[j], policy),
    ensures
        first_refused_from(cs, policy, 0) == first_refused_from(cs, policy, i),
    decreases i,
{
    if i > 0 {
        lemma_first_refused_none(cs, policy, i - 1);
    }
}

proof fn lemma_first_refused_all_ok(cs: Seq<CommandView>, policy: CommandPolicy, i: int)
    requires
        0 <= i <= cs.len(),
        first_refused_from(cs, policy, i) is None,
    ensures
        forall|j: int| i <= j < cs.len() ==> !refused(#[trigger] cs[j], policy),
    decreases cs.len() - i,
{
    if i < cs.len() {
        lemma_first_refused_all_ok(cs, policy, i + 1);
    }
}

/// The message with which `policy` refuses the commands `cs` of `node`, if
/// it refuses them: at the first command of a forbidden goto kind, for
/// more targets than its maximum, or for an interrupt mixed with routing
/// when that is forbidden.
#[verifier::opaque]
pub open spec fn policy_refusal(cs: Seq<CommandView>, policy: CommandPolicy, node: Seq<char>) -> Option<Seq<char>> {
    let targets = all_targets(cs);
    match first_refused_from(cs, policy, 0) {
        Some(i) => Some(refusal_message(cs[i], node)),
        None => if targets.len() > policy.max_goto_targets {
            Some(
                "command policy max_goto_targets exceeded at node `"@ + node + "`: "@ + decimal(targets.len())
                    + " > "@ + decimal(policy.max_goto_targets as nat),
            )
        } else if has_interrupt_spec(cs) && !policy.allow_interrupt_with_routing && targets.len() > 0 {
            Some("command policy rejected mixed interrupt and routing at node `"@ + node + "`"@)
        } else {
            None
        },
    }
}

/// Resolves the commands of `node` under `policy`: refuses a goto kind that
/// the policy forbids (at the first such command), more targets than the
/// policy's maximum, and an interrupt mixed with routing when forbidden.
/// Targets are sorted and made unique when the policy deduplicates.
pub fn resolve_commands(node: &str, commands: &Vec<Command>, policy: &CommandPolicy) -> (r: Result<
    ResolvedCommands,
    String,
>)
    ensures
        ({
            let cs = commands_view(commands@);
            let targets = all_targets(cs);
            match first_refused_from(cs, *policy, 0) {
                Some(i) => r matches Err(e) && e@ == refusal_message(cs[i], node@),
                None => if targets.len() > policy.max_goto_targets {
                    r matches Err(e) && e@ == "command policy max_goto_targets exceeded at node `"@
                        + node@ + "`: "@ + decimal(targets.len()) + " > "@ + decimal(
                        policy.max_goto_targets as nat,
                    )
                } else {
                    match r {
                        Ok(res) => resolve_ok(
                            cs,
                            *policy,
                            names_view(res.goto_targets@),
                            res.interrupted,
                        ) && !(res.interrupted && !policy.allow_interrupt_with_routing
                            && res.goto_targets@.len() > 0),
                        Err(e) => e@ == "command policy rejected mixed interrupt and routing at node `"@
                            + node@ + "`"@ && has_interrupt_spec(cs)
                            && !policy.allow_interrupt_with_routing && targets.len() > 0,
                    }
                },
            }
        }),
        r matches Err(e) ==> policy_refusal(commands_view(commands@), *policy, node@) == Some(e@),
        r is Ok <==> policy_refusal(commands_view(commands@), *policy, node@) is None,
{
    let r = resolve_in_order(node, commands, policy);
    proof {
        reveal(policy_refusal);
        let cs = commands_view(commands@);
        if r is Ok {
            let res = r->Ok_0;
            assert(first_refused_from(cs, *policy, 0) is None);
            assert(all_targets(cs).len() <= policy.max_goto_targets);
            assert(res.interrupted == has_interrupt_spec(cs));
            assert(!(res.interrupted && !policy.allow_interrupt_with_routing && res.goto_targets@.len() > 0));
            assert(res.goto_targets@.len() > 0 <==> all_targets(cs).len() > 0);
            assert(policy_refusal(cs, *policy, node@) is None);
        }
    }
    r
}

/// Resolves the commands, checking them in order.
fn resolve_in_order(node: &str, commands: &Vec<Command>, policy: &CommandPolicy) -> (r: Result<
    ResolvedCommands,
    String,
>)
    ensures
        ({
            let cs = commands_view(commands@);
            let targets = all_targets(cs);
            match first_refused_from(cs, *policy, 0) {
                Some(i) => r matches Err(e) && e@ == refusal_message(cs[i], node@),
                None => if targets.len() > policy.max_goto_targets {
                    r matches Err(e) && e@ == "command policy max_goto_targets exceeded at node `"@
                        + node@ + "`: "@ + decimal(targets.len()) + " > "@ + decimal(
                        policy.max_goto_targets as nat,
                    )
                } else {
                    match r {
                        Ok(res) => resolve_ok(
                            cs,
                            *policy,
                            names_view(res.goto_targets@),
                            res.interrupted,
                        ) && !(res.interrupted && !policy.allow_interrupt_with_routing
                            && res.goto_targets@.len() > 0),
                        Err(e) => e@ == "command policy rejected mixed interrupt and routing at node `"@
                            + node@ + "`"@ && has_interrupt_spec(cs)
                            && !policy.allow_interrupt_with_routing && targets.len() > 0,
                    }
                },
            }
        }),
        r matches Ok(res) ==> (res.goto_targets@.len() > 0 <==> all_targets(commands_view(commands@)).len() > 0),
{
    let ghost cs = commands_view(commands@);
    let mut interrupted = false;
    let mut i: usize = 0;
    while i < commands.len()
        invariant
            i <= commands@.len(),
            cs == commands_view(commands@),
            forall|j: int| 0 <= j < i ==> !refused(#[trigger] cs[j], *policy),
            interrupted == exists|j: int| 0 <= j < i && cs[j] is Interrupt,
        decreases commands@.len() - i,
    {
        match &commands[i] {
            Command::Interrupt => {
                interrupted = true;
            },
            Command::Goto(_) => {
                if !policy.allow_goto {
                    proof {
                        lemma_first_refused_none(cs, *policy, i as int);
                    }
                    return Err(concat3("command policy rejected Goto at node `", node, "`"));
                }
            },
            Command::GotoMany(_) => {
                if !policy.allow_goto_many {
                    proof {
                        lemma_first_refused_none(cs, *policy, i as int);
                    }
                    return Err(concat3("command policy rejected GotoMany at node `", node, "`"));
                }
            },
        }
        proof {
            if cs[i as int] is Interrupt {
                assert(exists|j: int| 0 <= j < i + 1 && cs[j] is Interrupt);
            }
            if exists|j: int| 0 <= j < i + 1 && cs[j] is Interrupt {
                let j = choose|j: int| 0 <= j < i + 1 && cs[j] is Interrupt;
                if j < i {
                    assert(exists|j: int| 0 <= j < i && cs[j] is Interrupt);
                }
            }
        }
        i = i + 1;
    }
    proof {
        lemma_first_refused_none(cs, *policy, commands@.len() as int);
        assert(interrupted == has_interrupt_spec(cs));
    }
    let targets = collect_targets(commands);
    if targets.len() > policy.max_goto_targets {
        let count = u64_to_decimal(targets.len() as u64);
        let limit = u64_to_decimal(policy.max_goto_targets as u64);
        let head = concat3("command policy max_goto_targets exceeded at node `", node, "`: ");
        let tail = concat(" > ", limit.as_str());
        let msg = concat3(head.as_str(), count.as_str(), tail.as_str());
        proof {
            assert(msg@ =~= "command policy max_goto_targets exceeded at node `"@ + node@ + "`: "@
                + decimal(all_targets(cs).len()) + " > "@ + decimal(policy.max_goto_targets as nat));
        }
        return Err(msg);
    }
    let mut goto_targets = targets;
    if policy.deduplicate_targets {
        let mut set = StrSet::new();
        let mut k: usize = 0;
        while k < goto_targets.len()
            invariant
                k <= goto_targets@.len(),
                set@ == names_view(goto_targets@.subrange(0, k as int)).to_set(),
            decreases goto_targets@.len() - k,
        {
            let ghost before = set@;
            set.insert(goto_targets[k].clone());
            proof {
                assert(goto_targets@.subrange(0, k + 1) =~= goto_targets@.subrange(0, k as int).push(goto_targets@[k as int]));
                assert(names_view(goto_targets@.subrange(0, k + 1)) =~= names_view(goto_targets@.subrange(0, k as int)).push(goto_targets@[k as int]@));
                names_view(goto_targets@.subrange(0, k as int)).lemma_push_to_set_commute(goto_targets@[k as int]@);
            }
            k = k + 1;
        }
        proof {
            assert(goto_targets@.subrange(0, goto_targets@.len() as int) =~= goto_targets@);
        }
        let mut unique: Vec<String> = Vec::new();
        let n = set.len();
        let mut m: usize = 0;
        while m < n
            invariant
                n == set.elems().len(),
                m <= n,
                names_view(unique@) =~= set.elems().subrange(0, m as int),
            decreases n - m,
        {
            let ghost before = unique@;
            unique.push(set.at(m).clone());
            proof {
                assert(names_view(unique@) =~= names_view(before).push(set.elems()[m as int]));
                assert(set.elems().subrange(0, m + 1) =~= set.elems().subrange(0, m as int).push(set.elems()[m as int]));
            }
            m = m + 1;
        }
        proof {
            assert(set.elems().subrange(0, n as int) =~= set.elems());
            set.lemma_elems();
            assert(set.elems().to_set() =~= set@) by {
                assert forall|x: Seq<char>| set.elems().to_set().contains(x) implies set@.contains(x) by {
                    let idx = choose|idx: int| 0 <= idx < set.elems().len() && set.elems()[idx] == x;
                    assert(set@.contains(set.elems()[idx]));
                }
            }
            set.lemma_sorted();
        }
        goto_targets = unique;
    }
    if interrupted && !policy.allow_interrupt_with_routing && goto_targets.len() > 0 {
        proof {
            if policy.deduplicate_targets {
                assert(names_view(goto_targets@).to_set().contains(names_view(goto_targets@)[0]));
                assert(all_targets(cs).to_set().contains(names_view(goto_targets@)[0]));
            }
        }
        return Err(concat3(
            "command policy rejected mixed interrupt and routing at node `",
            node,
            "`",
        ));
    }
    proof {
        if policy.deduplicate_targets && all_targets(cs).len() > 0 {
            assert(all_targets(cs).to_set().contains(all_targets(cs)[0]));
            assert(names_view(goto_targets@).to_set().contains(all_targets(cs)[0]));
        }
        if policy.deduplicate_targets && goto_targets@.len() > 0 {
            assert(names_view(goto_targets@).to_set().contains(names_view(goto_targets@)[0]));
            assert(all_targets(cs).to_set().contains(names_view(goto_targets@)[0]));
        }
    }
    Ok(ResolvedCommands { interrupted, goto_targets })
}

} // verus!
