//! Preparing a coding agent for a governed repository: the instruction file
//! it is given, and the pre-code hooks that run first.
use vstd::prelude::*;
use crate::order::{insert_sorted, strictly_sorted};
use crate::text::{cat, cat3, owned, push_str, starts_with, str_eq, str_starts_with, strs};

verus! {

/// The coding agents instructions can be written for.
#[derive(Clone, Copy, PartialEq, Eq, Structural, Debug)]
pub enum AgentKind {
    Cursor,
    Codex,
    Generic,
}

/// What preparing an agent did: the instruction file written and the
/// hooks run, relative to the project.
pub struct AgentPreparationReport {
    pub instruction_file: String,
    pub hooks_run: Vec<String>,
}

pub open spec fn kind_of_name(value: Seq<char>) -> Option<AgentKind> {
    if value == "cursor"@ {
        Some(AgentKind::Cursor)
    } else if value == "codex"@ {
        Some(AgentKind::Codex)
    } else if value == "generic"@ {
        Some(AgentKind::Generic)
    } else {
        None
    }
}

pub open spec fn stem_of(kind: AgentKind) -> Seq<char> {
    match kind {
        AgentKind::Cursor => "cursor"@,
        AgentKind::Codex => "codex"@,
        AgentKind::Generic => "generic"@,
    }
}

pub open spec fn label_of(kind: AgentKind) -> Seq<char> {
    match kind {
        AgentKind::Cursor => "Cursor"@,
        AgentKind::Codex => "Codex"@,
        AgentKind::Generic => "Generic agent"@,
    }
}

impl AgentKind {
    /// The agent a name designates; an unknown name is an error.
    pub fn parse(value: &str) -> (r: Result<AgentKind, String>)
        ensures
            match kind_of_name(value@) {
                Some(k) => r == Ok::<AgentKind, String>(k),
                None => r matches Err(e) && e@ == "unknown agent `"@ + value@
                    + "`; expected cursor, codex, or generic"@,
            },
    {
        if str_eq(value, "cursor") {
            Ok(AgentKind::Cursor)
        } else if str_eq(value, "codex") {
            Ok(AgentKind::Codex)
        } else if str_eq(value, "generic") {
            Ok(AgentKind::Generic)
        } else {
            Err(cat3("unknown agent `", value, "`; expected cursor, codex, or generic"))
        }
    }

    /// The stem of the agent's instruction file.
    pub fn file_stem(self) -> (r: &'static str)
        ensures
            r@ == stem_of(self),
    {
        match self {
            AgentKind::Cursor => "cursor",
            AgentKind::Codex => "codex",
            AgentKind::Generic => "generic",
        }
    }

    /// The agent's display name.
    pub fn label(self) -> (r: &'static str)
        ensures
            r@ == label_of(self),
    {
        match self {
            AgentKind::Cursor => "Cursor",
            AgentKind::Codex => "Codex",
            AgentKind::Generic => "Generic agent",
        }
    }
}

/// Where the agent's instructions are written, relative to the project.
pub open spec fn instruction_path_spec(kind: AgentKind) -> Seq<char> {
    ".mdd/docs/"@ + stem_of(kind) + "-mdd.md"@
}

pub fn instruction_path(kind: AgentKind) -> (r: String)
    ensures
        r@ == instruction_path_spec(kind),
{
    cat3(".mdd/docs/", kind.file_stem(), "-mdd.md")
}

/// The rules an agent is given after the title line.
pub open spec fn instruction_rules() -> Seq<char> {
    "\n\nYou are working in a repository governed by `mdd`.\n\nRequired rules:\n- Load `.mdd/docs/mdd-workflow.md` and `.mdd/docs/uml-and-ocl-guide.md` first.\n- Use the project-local MDD skills installed under `.codex/skills` when available.\n- Treat `.mdd/models` and `.mdd/constraints` as the approved source of truth.\n- Do not implement behavior that lacks a traceable model element.\n- Keep source changes linked to `.mdd/trace.yml`.\n- Preserve generated acceptance tests unless the approved model changes first.\n- If implementation requires behavior not present in the model, stop and update the model before coding.\n\nStart by reading:\n- `.mdd/trace.yml`\n- `.mdd/approvals.yml`\n- `.mdd/tests/acceptance/`\n"@
}

/// The agent's instruction file: a title naming the agent, then the rules.
pub open spec fn instructions_spec(kind: AgentKind) -> Seq<char> {
    "# Model-Driven Development Instructions for "@ + label_of(kind) + instruction_rules()
}

pub fn agent_instructions(kind: AgentKind) -> (r: String)
    ensures
        r@ == instructions_spec(kind),
{
    let mut r = cat("# Model-Driven Development Instructions for ", kind.label());
    push_str(
        &mut r,
        "\n\nYou are working in a repository governed by `mdd`.\n\nRequired rules:\n- Load `.mdd/docs/mdd-workflow.md` and `.mdd/docs/uml-and-ocl-guide.md` first.\n- Use the project-local MDD skills installed under `.codex/skills` when available.\n- Treat `.mdd/models` and `.mdd/constraints` as the approved source of truth.\n- Do not implement behavior that lacks a traceable model element.\n- Keep source changes linked to `.mdd/trace.yml`.\n- Preserve generated acceptance tests unless the approved model changes first.\n- If implementation requires behavior not present in the model, stop and update the model before coding.\n\nStart by reading:\n- `.mdd/trace.yml`\n- `.mdd/approvals.yml`\n- `.mdd/tests/acceptance/`\n",
    );
    r
}

/// The pre-code hooks among the entries of `.mdd/hooks` (their file names,
/// as paths): those whose name starts with `pre-code`, in path order.
pub fn pre_code_hooks(entries: &Vec<(String, String)>) -> (r: Vec<String>)
    ensures
        strictly_sorted(strs(r@)),
        strs(r@).to_set() == crate::review::pairs_view(entries@).filter(
            |e: (Seq<char>, Seq<char>)| starts_with(e.1, "pre-code"@),
        ).map_values(|e: (Seq<char>, Seq<char>)| e.0).to_set(),
{
    let ghost ev = crate::review::pairs_view(entries@);
    let ghost pred = |e: (Seq<char>, Seq<char>)| starts_with(e.1, "pre-code"@);
    let ghost f = |e: (Seq<char>, Seq<char>)| e.0;
    let mut r: Vec<String> = Vec::new();
    let mut i: usize = 0;
    assert(ev.take(0).filter(pred) =~= Seq::<(Seq<char>, Seq<char>)>::empty()) by {
        reveal(Seq::filter);
    }
    assert(strs(r@).to_set() =~= ev.take(0).filter(pred).map_values(f).to_set());
    while i < entries.len()
        invariant
            i <= entries.len(),
            ev == crate::review::pairs_view(entries@),
            pred == (|e: (Seq<char>, Seq<char>)| starts_with(e.1, "pre-code"@)),
            f == (|e: (Seq<char>, Seq<char>)| e.0),
            strictly_sorted(strs(r@)),
            strs(r@).to_set() == ev.take(i as int).filter(pred).map_values(f).to_set(),
        decreases entries.len() - i,
    {
        proof {
            assert(ev.take(i + 1) == ev.take(i as int).push(ev[i as int]));
            ev.take(i as int).lemma_filter_push(ev[i as int], pred);
        }
        let ghost fl = ev.take(i as int).filter(pred);
        if str_starts_with(entries[i].1.as_str(), "pre-code") {
            insert_sorted(&mut r, entries[i].0.clone());
            proof {
                assert(fl.push(ev[i as int]).map_values(f) =~= fl.map_values(f).push(f(ev[i as int])));
                fl.map_values(f).lemma_push_to_set_commute(f(ev[i as int]));
            }
        }
        i = i + 1;
    }
    assert(ev.take(entries.len() as int) == ev);
    r
}

/// What preparing an agent does: write its instruction file (path and
/// content) and run the pre-code hooks found in `.mdd/hooks` (each entry
/// given as its path and file name), in path order.
pub fn prepare_agent(kind: AgentKind, hook_entries: &Vec<(String, String)>) -> (r: (String, String, Vec<String>))
    ensures
        r.0@ == instruction_path_spec(kind),
        r.1@ == instructions_spec(kind),
        strictly_sorted(strs(r.2@)),
        strs(r.2@).to_set() == crate::review::pairs_view(hook_entries@).filter(
            |e: (Seq<char>, Seq<char>)| starts_with(e.1, "pre-code"@),
        ).map_values(|e: (Seq<char>, Seq<char>)| e.0).to_set(),
{
    (instruction_path(kind), agent_instructions(kind), pre_code_hooks(hook_entries))
}

} // verus!
