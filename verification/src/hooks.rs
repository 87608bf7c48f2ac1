//! The session-start hook that `mdd init` registers in an agent's settings,
//! and that `mdd clean` takes out again. A settings file holds, under the
//! `SessionStart` event, a list of groups, each with a list of hooks; the
//! managed hook is the command hook that runs a given command.
use vstd::prelude::*;
use crate::model::{clone_opt, opt_view};
use crate::text::{owned, str_eq};

verus! {

/// One hook of a group: its `type` and `command` when they are strings, and
/// where it came from in the settings that were read (none for one added).
pub struct HookEntry {
    pub kind: Option<String>,
    pub command: Option<String>,
    pub origin: Option<usize>,
}

/// One group of the `SessionStart` list: its `hooks` list when it has one,
/// and where it came from in the settings that were read.
pub struct HookGroup {
    pub hooks: Option<Vec<HookEntry>>,
    pub origin: Option<usize>,
}

/// The `SessionStart` list of a settings file, when the file has one.
pub struct SessionHooks {
    pub session_start: Option<Vec<HookGroup>>,
}

pub type HookV = (Option<Seq<char>>, Option<Seq<char>>, Option<usize>);

pub type GroupV = (Option<Seq<HookV>>, Option<usize>);

pub open spec fn hook_view(h: HookEntry) -> HookV {
    (opt_view(h.kind), opt_view(h.command), h.origin)
}

pub open spec fn hooks_view(hs: Seq<HookEntry>) -> Seq<HookV> {
    hs.map_values(|h: HookEntry| hook_view(h))
}

pub open spec fn group_view(g: HookGroup) -> GroupV {
    (
        match g.hooks {
            Some(hs) => Some(hooks_view(hs@)),
            None => None,
        },
        g.origin,
    )
}

pub open spec fn groups_view(gs: Seq<HookGroup>) -> Seq<GroupV> {
    gs.map_values(|g: HookGroup| group_view(g))
}

impl View for SessionHooks {
    type V = Option<Seq<GroupV>>;

    open spec fn view(&self) -> Option<Seq<GroupV>> {
        match self.session_start {
            Some(gs) => Some(groups_view(gs@)),
            None => None,
        }
    }
}

/// A hook is the command hook running `cmd`.
pub open spec fn runs(h: HookV, cmd: Seq<char>) -> bool {
    h.0 == Some("command"@) && h.1 == Some(cmd)
}

/// A group holds the command hook running `cmd`.
pub open spec fn group_runs(g: GroupV, cmd: Seq<char>) -> bool {
    match g.0 {
        Some(hs) => exists|j: int| 0 <= j < hs.len() && runs(#[trigger] hs[j], cmd),
        None => false,
    }
}

/// Some group of the list holds the command hook running `cmd`.
pub open spec fn groups_run(gs: Seq<GroupV>, cmd: Seq<char>) -> bool {
    exists|i: int| 0 <= i < gs.len() && group_runs(#[trigger] gs[i], cmd)
}

/// The settings register the command hook running `cmd`.
pub open spec fn has_command(h: Option<Seq<GroupV>>, cmd: Seq<char>) -> bool {
    match h {
        Some(gs) => groups_run(gs, cmd),
        None => false,
    }
}

/// The group `mdd init` adds: one command hook running `cmd`.
pub open spec fn new_group(cmd: Seq<char>) -> GroupV {
    (Some(seq![(Some("command"@), Some(cmd), None)]), None)
}

/// The hooks of a group without those running `cmd`.
pub open spec fn hooks_without(hs: Seq<HookV>, cmd: Seq<char>) -> Seq<HookV> {
    hs.filter(|h: HookV| !runs(h, cmd))
}

/// A group with its hooks running `cmd` taken out.
pub open spec fn group_without(g: GroupV, cmd: Seq<char>) -> GroupV {
    match g.0 {
        Some(hs) => (Some(hooks_without(hs, cmd)), g.1),
        None => g,
    }
}

/// A group stays unless its hooks list is empty.
pub open spec fn group_kept(g: GroupV) -> bool {
    match g.0 {
        Some(hs) => hs.len() > 0,
        None => true,
    }
}

/// The list with the hooks running `cmd` taken out of each group and the
/// groups left without hooks dropped, the rest in order.
pub open spec fn groups_without(gs: Seq<GroupV>, cmd: Seq<char>) -> Seq<GroupV>
    decreases gs.len(),
{
    if gs.len() == 0 {
        seq![]
    } else {
        let rest = groups_without(gs.drop_last(), cmd);
        let g = group_without(gs.last(), cmd);
        if group_kept(g) {
            rest.push(g)
        } else {
            rest
        }
    }
}

/// The settings after registering the hook running `cmd`: unchanged when
/// some group holds it, else with a group holding just that hook appended
/// (to a new list when there was none).
pub open spec fn upserted(h: Option<Seq<GroupV>>, cmd: Seq<char>) -> Option<Seq<GroupV>> {
    if has_command(h, cmd) {
        h
    } else {
        Some(
            match h {
                Some(gs) => gs,
                None => Seq::<GroupV>::empty(),
            }.push(new_group(cmd)),
        )
    }
}

/// The settings after taking the hook running `cmd` out: each group without
/// it, the groups left with no hooks dropped, and no list when none is left.
pub open spec fn stripped(h: Option<Seq<GroupV>>, cmd: Seq<char>) -> Option<Seq<GroupV>> {
    match h {
        None => None,
        Some(gs) => if groups_without(gs, cmd).len() == 0 {
            None
        } else {
            Some(groups_without(gs, cmd))
        },
    }
}

/// Registering the hook makes the settings hold it; registering it again
/// changes nothing, so the hook is there exactly as after the first time;
/// taking it out afterwards leaves no hook running the command.
pub proof fn lemma_session_hook_round(h: Option<Seq<GroupV>>, cmd: Seq<char>)
    ensures
        has_command(upserted(h, cmd), cmd),
        upserted(upserted(h, cmd), cmd) == upserted(h, cmd),
        !has_command(stripped(upserted(h, cmd), cmd), cmd),
        !has_command(stripped(h, cmd), cmd),
{
    reveal_strlit("command");
    if !has_command(h, cmd) {
        let gs = match h {
            Some(gs) => gs,
            None => Seq::<GroupV>::empty(),
        };
        let r = gs.push(new_group(cmd));
        assert(runs(new_group(cmd).0->0[0], cmd));
        assert(r[r.len() - 1] == new_group(cmd));
        assert(group_runs(r[r.len() - 1], cmd));
    }
    lemma_stripped_clear(upserted(h, cmd), cmd);
    lemma_stripped_clear(h, cmd);
}

proof fn lemma_stripped_clear(h: Option<Seq<GroupV>>, cmd: Seq<char>)
    ensures
        !has_command(stripped(h, cmd), cmd),
{
    if let Some(gs) = h {
        lemma_without_clear(gs, cmd);
    }
}

/// Stripping changes the list: some group holds the hook running `cmd`,
/// or has an empty hooks list.
pub open spec fn strip_changes(gs: Seq<GroupV>, cmd: Seq<char>) -> bool {
    exists|i: int| 0 <= i < gs.len() && (group_runs(#[trigger] gs[i], cmd) || gs[i].0 == Some(Seq::<HookV>::empty()))
}

fn hook_runs(h: &HookEntry, cmd: &str) -> (b: bool)
    ensures
        b == runs(hook_view(*h), cmd@),
{
    let k = match &h.kind {
        Some(k) => str_eq(k.as_str(), "command"),
        None => false,
    };
    let c = match &h.command {
        Some(c) => str_eq(c.as_str(), cmd),
        None => false,
    };
    proof {
        reveal_strlit("command");
    }
    k && c
}

fn group_has_command(g: &HookGroup, cmd: &str) -> (b: bool)
    ensures
        b == group_runs(group_view(*g), cmd@),
{
    match &g.hooks {
        Some(hs) => {
            assert(group_view(*g).0 == Some(hooks_view(hs@)));
            let mut j: usize = 0;
            while j < hs.len()
                invariant
                    j <= hs.len(),
                    group_view(*g).0 == Some(hooks_view(hs@)),
                    forall|q: int| 0 <= q < j ==> !runs(#[trigger] hooks_view(hs@)[q], cmd@),
                decreases hs.len() - j,
            {
                if hook_runs(&hs[j], cmd) {
                    let ghost hv = hooks_view(hs@);
                    assert(runs(hv[j as int], cmd@));
                    assert(group_view(*g).0->0[j as int] == hv[j as int]);
                    assert(group_runs(group_view(*g), cmd@));
                    return true;
                }
                j = j + 1;
            }
            false
        },
        None => false,
    }
}

fn any_group_has_command(gs: &Vec<HookGroup>, cmd: &str) -> (b: bool)
    ensures
        b == groups_run(groups_view(gs@), cmd@),
{
    let mut i: usize = 0;
    while i < gs.len()
        invariant
            i <= gs.len(),
            forall|q: int| 0 <= q < i ==> !group_runs(#[trigger] groups_view(gs@)[q], cmd@),
        decreases gs.len() - i,
    {
        if group_has_command(&gs[i], cmd) {
            assert(group_runs(groups_view(gs@)[i as int], cmd@));
            return true;
        }
        i = i + 1;
    }
    false
}

/// Make sure the settings register the command hook running `command`
/// exactly once more than nothing: when no group holds it, a group holding
/// just that hook is appended (a missing `SessionStart` list is created
/// first); otherwise nothing changes. Returns whether anything changed.
pub fn upsert_session_hook(h: &mut SessionHooks, command: &str) -> (changed: bool)
    ensures
        changed == !has_command(old(h)@, command@),
        final(h)@ == upserted(old(h)@, command@),
        has_command(final(h)@, command@),
{
    let found = match &h.session_start {
        Some(gs) => any_group_has_command(gs, command),
        None => false,
    };
    if found {
        return false;
    }
    let mut gs = match h.session_start.take() {
        Some(gs) => gs,
        None => Vec::new(),
    };
    let ghost g0 = groups_view(gs@);
    let mut inner: Vec<HookEntry> = Vec::new();
    inner.push(HookEntry { kind: Some(owned("command")), command: Some(owned(command)), origin: None });
    gs.push(HookGroup { hooks: Some(inner), origin: None });
    proof {
        reveal_strlit("command");
        assert(hooks_view(inner@) =~= seq![(Some("command"@), Some(command@), None::<usize>)]);
        assert(groups_view(gs@) =~= g0.push(new_group(command@)));
        let n = groups_view(gs@).len() - 1;
        assert(runs(new_group(command@).0.unwrap()[0], command@));
        assert(group_runs(groups_view(gs@)[n], command@));
    }
    h.session_start = Some(gs);
    true
}

fn clone_hook(h: &HookEntry) -> (r: HookEntry)
    ensures
        hook_view(r) == hook_view(*h),
{
    HookEntry { kind: clone_opt(&h.kind), command: clone_opt(&h.command), origin: h.origin }
}

/// The hooks of a group without those running `cmd`.
fn strip_hooks(hs: &Vec<HookEntry>, cmd: &str) -> (r: (Vec<HookEntry>, bool))
    ensures
        hooks_view(r.0@) == hooks_without(hooks_view(hs@), cmd@),
        r.1 == exists|j: int| 0 <= j < hs@.len() && runs(#[trigger] hooks_view(hs@)[j], cmd@),
{
    let mut removed = false;
    let ghost hv = hooks_view(hs@);
    let mut r: Vec<HookEntry> = Vec::new();
    let mut j: usize = 0;
    assert(hv.take(0).filter(|h: HookV| !runs(h, cmd@)) =~= Seq::<HookV>::empty());
    while j < hs.len()
        invariant
            j <= hs.len(),
            hv == hooks_view(hs@),
            hooks_view(r@) == hv.take(j as int).filter(|h: HookV| !runs(h, cmd@)),
            removed == exists|q: int| 0 <= q < j && runs(#[trigger] hv[q], cmd@),
        decreases hs.len() - j,
    {
        proof {
            assert(hv.take(j + 1).drop_last() =~= hv.take(j as int));
            assert(hv.take(j + 1).last() == hv[j as int]);
            reveal(Seq::filter);
        }
        if !hook_runs(&hs[j], cmd) {
            let ghost r0 = hooks_view(r@);
            r.push(clone_hook(&hs[j]));
            assert(hooks_view(r@) =~= r0.push(hv[j as int]));
        } else {
            removed = true;
        }
        j = j + 1;
    }
    assert(hv.take(hs.len() as int) =~= hv);
    (r, removed)
}

proof fn lemma_strip_changes_step(gs: Seq<GroupV>, cmd: Seq<char>, i: int)
    requires
        0 <= i < gs.len(),
    ensures
        strip_changes(gs.take(i + 1), cmd) == (strip_changes(gs.take(i), cmd) || group_runs(gs[i], cmd)
            || gs[i].0 == Some(Seq::<HookV>::empty())),
{
    let a = gs.take(i);
    let b = gs.take(i + 1);
    assert(b[i] == gs[i]);
    if strip_changes(a, cmd) {
        let q = choose|q: int| 0 <= q < a.len() && (group_runs(#[trigger] a[q], cmd) || a[q].0 == Some(Seq::<HookV>::empty()));
        assert(b[q] == a[q]);
    }
    if strip_changes(b, cmd) {
        let q = choose|q: int| 0 <= q < b.len() && (group_runs(#[trigger] b[q], cmd) || b[q].0 == Some(Seq::<HookV>::empty()));
        if q < i {
            assert(a[q] == b[q]);
        }
    }
}

proof fn lemma_without_clear(gs: Seq<GroupV>, cmd: Seq<char>)
    ensures
        !groups_run(groups_without(gs, cmd), cmd),
    decreases gs.len(),
{
    if gs.len() > 0 {
        lemma_without_clear(gs.drop_last(), cmd);
        let rest = groups_without(gs.drop_last(), cmd);
        let g = group_without(gs.last(), cmd);
        if group_kept(g) {
            let r = rest.push(g);
            assert forall|i: int| 0 <= i < r.len() implies !group_runs(#[trigger] r[i], cmd) by {
                if i == r.len() - 1 {
                    if let Some(hs) = gs.last().0 {
                        let f = hs.filter(|h: HookV| !runs(h, cmd));
                        assert forall|j: int| 0 <= j < f.len() implies !runs(#[trigger] f[j], cmd) by {
                            hs.lemma_filter_pred(|h: HookV| !runs(h, cmd), j);
                        }
                    }
                } else {
                    assert(r[i] == rest[i]);
                }
            }
        }
    }
}

/// Take the command hook running `command` out of every group, then drop
/// the groups left with an empty hooks list, and the `SessionStart` list
/// itself when it is left empty. Other hooks and groups stay, in order.
/// Returns whether anything changed.
pub fn strip_session_hook(h: &mut SessionHooks, command: &str) -> (changed: bool)
    ensures
        changed == (match old(h)@ {
            None => false,
            Some(gs) => strip_changes(gs, command@),
        }),
        final(h)@ == stripped(old(h)@, command@),
        !has_command(final(h)@, command@),
{
    let gs = match h.session_start.take() {
        Some(gs) => gs,
        None => {
            return false;
        },
    };
    let ghost gv = groups_view(gs@);
    let mut out: Vec<HookGroup> = Vec::new();
    let mut changed = false;
    let mut i: usize = 0;
    while i < gs.len()
        invariant
            i <= gs.len(),
            gv == groups_view(gs@),
            groups_view(out@) == groups_without(gv.take(i as int), command@),
            changed == strip_changes(gv.take(i as int), command@),
        decreases gs.len() - i,
    {
        proof {
            assert(gv.take(i + 1).drop_last() =~= gv.take(i as int));
            assert(gv.take(i + 1).last() == gv[i as int]);
            lemma_strip_changes_step(gv, command@, i as int);
        }
        let g = &gs[i];
        match &g.hooks {
            Some(hs) => {
                assert(gv[i as int].0 == Some(hooks_view(hs@)));
                let (f, removed) = strip_hooks(hs, command);
                proof {
                    if removed {
                        let j = choose|j: int| 0 <= j < hs@.len() && runs(#[trigger] hooks_view(hs@)[j], command@);
                        assert(gv[i as int].0->0[j] == hooks_view(hs@)[j]);
                    }
                    if group_runs(gv[i as int], command@) {
                        let j = choose|j: int| 0 <= j < gv[i as int].0->0.len() && runs(#[trigger] gv[i as int].0->0[j], command@);
                        assert(hooks_view(hs@)[j] == gv[i as int].0->0[j]);
                    }
                    if hs@.len() == 0 {
                        assert(hooks_view(hs@) =~= Seq::<HookV>::empty());
                    }
                    if gv[i as int].0 == Some(Seq::<HookV>::empty()) {
                        assert(hooks_view(hs@).len() == 0);
                    }
                    assert(hs@.len() == 0 <==> gv[i as int].0 == Some(Seq::<HookV>::empty()));
                }
                changed = changed || removed || hs.len() == 0;
                if f.len() > 0 {
                    let ghost o0 = groups_view(out@);
                    let ng = HookGroup { hooks: Some(f), origin: g.origin };
                    out.push(ng);
                    assert(groups_view(out@) =~= o0.push(group_without(gv[i as int], command@)));
                }
            },
            None => {
                let ghost o0 = groups_view(out@);
                out.push(HookGroup { hooks: None, origin: g.origin });
                assert(groups_view(out@) =~= o0.push(gv[i as int]));
            },
        }
        i = i + 1;
    }
    assert(gv.take(gs.len() as int) =~= gv);
    proof {
        lemma_without_clear(gv, command@);
    }
    if out.len() > 0 {
        h.session_start = Some(out);
    }
    changed
}

} // verus!
