//! The rules of `sh.*`: which process groups are alive, how one is ended, and
//! what a command's end means.
//!
//! A command runs in a process group of its own, so that ending it reaches what
//! it started.  A group carries the label its command was given, which is the
//! one handle a caller holds on a command that another coroutine waits for.
//! Starting processes, waiting and sending signals is the caller's.

use vstd::prelude::*;

use crate::bridge::http::{lossy, lossy_text};
use crate::text::{dec, decimal, same};

verus! {

broadcast use vstd::string::group_string_axioms;

/// Default timeout of a command, in seconds.
pub const DEFAULT_TIMEOUT_SECS: u64 = 30;

/// How long to wait between two looks at a group that was asked to end, in
/// milliseconds.
pub const PROBE_INTERVAL_MS: u64 = 50;

/// The exit code of a host that a signal ended: 128 and the number of SIGINT.
pub const SIGNALLED_EXIT_CODE: i32 = 130;

/// One live group.
struct Group {
    pgid: i32,
    label: Option<String>,
    killed: bool,
}

/// What is known of a live group: its label, and whether it was killed by
/// label.
pub ghost struct GroupView {
    pub label: Option<Seq<char>>,
    pub killed: bool,
}

/// The process groups that were started and have not been seen to finish, by
/// ascending group id.
pub struct LiveGroups {
    groups: Vec<Group>,
}

/// What an optional label reads as.
pub open spec fn label_of(label: Option<String>) -> Option<Seq<char>> {
    match label {
        Some(l) => Some(l@),
        None => None,
    }
}

spec fn group_view(g: Group) -> GroupView {
    GroupView { label: label_of(g.label), killed: g.killed }
}

spec fn ascending(groups: Seq<Group>) -> bool {
    forall|a: int, b: int|
        0 <= a < b < groups.len() ==> (#[trigger] groups[a]).pgid < (#[trigger] groups[b]).pgid
}

spec fn listed(groups: Seq<Group>, pgid: int) -> bool {
    exists|i: int| 0 <= i < groups.len() && (#[trigger] groups[i]).pgid == pgid
}

spec fn place_of(groups: Seq<Group>, pgid: int) -> int {
    choose|i: int| 0 <= i < groups.len() && (#[trigger] groups[i]).pgid == pgid
}

impl View for LiveGroups {
    type V = Map<int, GroupView>;

    closed spec fn view(&self) -> Map<int, GroupView> {
        Map::new(
            |p: int| listed(self.groups@, p),
            |p: int| group_view(self.groups@[place_of(self.groups@, p)]),
        )
    }
}

/// In an ascending list a group has one place.
proof fn lemma_place(groups: Seq<Group>, i: int)
    requires
        ascending(groups),
        0 <= i < groups.len(),
    ensures
        listed(groups, groups[i].pgid as int),
        place_of(groups, groups[i].pgid as int) == i,
{
    assert(listed(groups, groups[i].pgid as int));
    let j = place_of(groups, groups[i].pgid as int);
    if j < i {
        assert(groups[j].pgid < groups[i].pgid);
    } else if i < j {
        assert(groups[i].pgid < groups[j].pgid);
    }
}

/// Whether a live group has this label.
pub open spec fn has_label(groups: Map<int, GroupView>, label: Seq<char>, pgid: int) -> bool {
    groups.dom().contains(pgid) && groups[pgid].label == Some(label)
}

/// The live groups once a group was started.
pub open spec fn after_start(
    groups: Map<int, GroupView>,
    pgid: int,
    label: Option<Seq<char>>,
) -> Map<int, GroupView> {
    groups.insert(pgid, (GroupView { label, killed: false }))
}

/// Whether a group that finishes is reported as killed.
pub open spec fn reported(groups: Map<int, GroupView>, pgid: int) -> bool {
    groups.dom().contains(pgid) && groups[pgid].killed
}

/// What killing by label comes to: of the groups with the label the one with
/// the lowest id is marked, where there is one.
pub open spec fn taken(
    before: Map<int, GroupView>,
    label: Seq<char>,
    out: Option<int>,
    after: Map<int, GroupView>,
) -> bool {
    match out {
        Some(p) => {
            &&& has_label(before, label, p)
            &&& forall|q: int| #[trigger] has_label(before, label, q) ==> p <= q
            &&& after == before.insert(p, (GroupView { label: Some(label), killed: true }))
        },
        None => {
            &&& forall|q: int| !#[trigger] has_label(before, label, q)
            &&& after == before
        },
    }
}

impl LiveGroups {
    /// Whether the groups are listed by ascending id.
    pub closed spec fn well_formed(&self) -> bool {
        ascending(self.groups@)
    }

    /// The ids of the live groups, ascending.
    pub closed spec fn ids(&self) -> Seq<int> {
        self.groups@.map_values(|g: Group| g.pgid as int)
    }

    /// No groups.
    pub fn new() -> (out: LiveGroups)
        ensures
            out.well_formed(),
            out@ == Map::<int, GroupView>::empty(),
    {
        let out = LiveGroups { groups: Vec::new() };
        assert(out@ =~= Map::<int, GroupView>::empty());
        out
    }

    /// The first place whose group id is not below `pgid`.
    fn lower_bound(&self, pgid: i32) -> (i: usize)
        requires
            self.well_formed(),
        ensures
            i <= self.groups@.len(),
            forall|k: int| 0 <= k < i ==> (#[trigger] self.groups@[k]).pgid < pgid,
            forall|k: int| i <= k < self.groups@.len() ==> (#[trigger] self.groups@[k]).pgid >= pgid,
    {
        let mut i: usize = 0;
        while i < self.groups.len() && self.groups[i].pgid < pgid
            invariant
                self.well_formed(),
                i <= self.groups@.len(),
                forall|k: int| 0 <= k < i ==> (#[trigger] self.groups@[k]).pgid < pgid,
            decreases self.groups@.len() - i,
        {
            i += 1;
        }
        assert forall|k: int| i <= k < self.groups@.len() implies (
        #[trigger] self.groups@[k]).pgid >= pgid by {
            if i < k {
                assert(self.groups@[i as int].pgid < self.groups@[k].pgid);
            }
        }
        i
    }

    /// Remember a group that was just started.
    pub fn remember(&mut self, pgid: i32, label: Option<String>)
        requires
            old(self).well_formed(),
        ensures
            final(self).well_formed(),
            final(self)@ == after_start(old(self)@, pgid as int, label_of(label)),
    {
        let ghost before = self.groups@;
        let i: usize = self.lower_bound(pgid);
        let g = Group { pgid, label, killed: false };
        if i < self.groups.len() && self.groups[i].pgid == pgid {
            self.groups.set(i, g);
            proof {
                let after = self.groups@;
                assert forall|a: int, b: int| 0 <= a < b < after.len() implies (
                #[trigger] after[a]).pgid < (#[trigger] after[b]).pgid by {
                    assert(after[a].pgid == before[a].pgid && after[b].pgid == before[b].pgid);
                }
                lemma_same_places(before, after, pgid as int, i as int);
            }
        } else {
            self.groups.insert(i, g);
            proof {
                let after = self.groups@;
                assert(after == before.insert(i as int, g));
                assert forall|a: int, b: int| 0 <= a < b < after.len() implies (
                #[trigger] after[a]).pgid < (#[trigger] after[b]).pgid by {
                    let fa = if a < i {
                        a
                    } else {
                        a - 1
                    };
                    let fb = if b < i {
                        b
                    } else {
                        b - 1
                    };
                    if a != i {
                        assert(after[a] == before[fa]);
                    }
                    if b != i {
                        assert(after[b] == before[fb]);
                    }
                    if a == i {
                        assert(before[fb].pgid >= pgid);
                        assert(before[i as int].pgid != pgid);
                        if fb > i {
                            assert(before[i as int].pgid < before[fb].pgid);
                        }
                    }
                }
                lemma_view_insert(before, after, i as int);
            }
        }
        assert(self@ =~= old(self)@.insert(
            pgid as int,
            GroupView { label: label_of(label), killed: false },
        ));
    }

    /// Drop a group that finished; whether it had been killed by label.
    pub fn forget(&mut self, pgid: i32) -> (killed: bool)
        requires
            old(self).well_formed(),
        ensures
            final(self).well_formed(),
            final(self)@ == old(self)@.remove(pgid as int),
            killed == reported(old(self)@, pgid as int),
    {
        let ghost before = self.groups@;
        let i: usize = self.lower_bound(pgid);
        if i < self.groups.len() && self.groups[i].pgid == pgid {
            let g = self.groups.remove(i);
            proof {
                let after = self.groups@;
                lemma_place(before, i as int);
                assert forall|a: int, b: int| 0 <= a < b < after.len() implies (
                #[trigger] after[a]).pgid < (#[trigger] after[b]).pgid by {
                    let fa = if a < i {
                        a
                    } else {
                        a + 1
                    };
                    let fb = if b < i {
                        b
                    } else {
                        b + 1
                    };
                    assert(after[a] == before[fa] && after[b] == before[fb]);
                }
                lemma_view_remove(before, after, i as int);
                assert(self@ =~= old(self)@.remove(pgid as int));
            }
            g.killed
        } else {
            proof {
                assert(!listed(before, pgid as int)) by {
                    if listed(before, pgid as int) {
                        let k = place_of(before, pgid as int);
                        if k > i {
                            assert(before[i as int].pgid < before[k].pgid);
                            assert(before[i as int].pgid >= pgid);
                        }
                    }
                }
                assert(self@ =~= old(self)@.remove(pgid as int));
            }
            false
        }
    }

    /// The group started under `label`, marked as killed, if it is still live:
    /// of several the one with the lowest id.
    pub fn take_labelled(&mut self, label: &str) -> (out: Option<i32>)
        requires
            old(self).well_formed(),
        ensures
            final(self).well_formed(),
            taken(
                old(self)@,
                label@,
                match out {
                    Some(p) => Some(p as int),
                    None => None,
                },
                final(self)@,
            ),
    {
        let ghost before = self.groups@;
        let mut i: usize = 0;
        while i < self.groups.len()
            invariant
                self.groups@ == before,
                *self == *old(self),
                ascending(before),
                0 <= i <= before.len(),
                forall|k: int|
                    0 <= k < i ==> label_of((#[trigger] before[k]).label) != Some(label@),
            decreases before.len() - i,
        {
            let hit = match &self.groups[i].label {
                Some(l) => same(l.as_str(), label),
                None => false,
            };
            if hit {
                let pgid: i32 = self.groups[i].pgid;
                let own = label.to_owned();
                self.groups.set(i, Group { pgid, label: Some(own), killed: true });
                proof {
                    let after = self.groups@;
                    lemma_place(before, i as int);
                    assert forall|a: int, b: int| 0 <= a < b < after.len() implies (
                    #[trigger] after[a]).pgid < (#[trigger] after[b]).pgid by {
                        assert(after[a].pgid == before[a].pgid && after[b].pgid == before[b].pgid);
                    }
                    lemma_same_places(before, after, pgid as int, i as int);
                    assert(self@ =~= old(self)@.insert(
                        pgid as int,
                        GroupView { label: Some(label@), killed: true },
                    ));
                    assert forall|q: int| #[trigger]
                        has_label(old(self)@, label@, q) implies pgid as int <= q by {
                        let k = place_of(before, q);
                        assert(listed(before, q));
                        assert(label_of(before[k].label) == Some(label@));
                        if k < i {
                            assert(false);
                        } else if i < k {
                            assert(before[i as int].pgid < before[k].pgid);
                        }
                    }
                }
                return Some(pgid);
            }
            i += 1;
        }
        proof {
            assert forall|q: int| !#[trigger] has_label(old(self)@, label@, q) by {
                if has_label(old(self)@, label@, q) {
                    assert(listed(before, q));
                    let k = place_of(before, q);
                    assert(label_of(before[k].label) == Some(label@));
                }
            }
        }
        None
    }

    /// The ids of the live groups, ascending.
    pub fn live(&self) -> (out: Vec<i32>)
        ensures
            out@.map_values(|p: i32| p as int) == self.ids(),
    {
        let mut out: Vec<i32> = Vec::new();
        let mut i: usize = 0;
        let ghost f = |p: i32| p as int;
        assert(out@.map_values(f) =~= self.ids().take(0));
        while i < self.groups.len()
            invariant
                f == (|p: i32| p as int),
                0 <= i <= self.groups@.len(),
                out@.map_values(f) == self.ids().take(i as int),
            decreases self.groups@.len() - i,
        {
            let ghost so_far = out@;
            out.push(self.groups[i].pgid);
            assert(out@.map_values(f) =~= so_far.map_values(f).push(
                self.groups@[i as int].pgid as int,
            ));
            assert(self.ids().take(i + 1) =~= self.ids().take(i as int).push(
                self.groups@[i as int].pgid as int,
            ));
            i += 1;
        }
        assert(self.ids().take(self.ids().len() as int) =~= self.ids());
        out
    }

    /// The ids of the live groups; none is remembered afterwards.
    pub fn drain(&mut self) -> (out: Vec<i32>)
        ensures
            final(self).well_formed(),
            final(self)@ == Map::<int, GroupView>::empty(),
            out@.map_values(|p: i32| p as int) == old(self).ids(),
    {
        let out = self.live();
        self.groups = Vec::new();
        assert(self@ =~= Map::<int, GroupView>::empty());
        out
    }
}

/// The ids of the live groups are exactly those known, each once, ascending.
pub proof fn law_every_live_group_is_reached(g: LiveGroups)
    requires
        g.well_formed(),
    ensures
        forall|p: int| #[trigger] g@.dom().contains(p) <==> g.ids().contains(p),
        forall|a: int, b: int|
            0 <= a < b < g.ids().len() ==> #[trigger] g.ids()[a] < #[trigger] g.ids()[b],
{
    assert forall|p: int| #[trigger] g@.dom().contains(p) implies g.ids().contains(p) by {
        let k = place_of(g.groups@, p);
        assert(listed(g.groups@, p));
        assert(g.ids()[k] == p);
    }
    assert forall|p: int| g.ids().contains(p) implies #[trigger] g@.dom().contains(p) by {
        let k = choose|k: int| 0 <= k < g.ids().len() && g.ids()[k] == p;
        assert(g.groups@[k].pgid == p);
        assert(listed(g.groups@, p));
    }
    assert forall|a: int, b: int| 0 <= a < b < g.ids().len() implies #[trigger] g.ids()[a]
        < #[trigger] g.ids()[b] by {
        assert(g.groups@[a].pgid < g.groups@[b].pgid);
    }
}

/// Replacing the group at place `i` by one with the same id changes what is
/// known of that id alone.
proof fn lemma_same_places(before: Seq<Group>, after: Seq<Group>, pgid: int, i: int)
    requires
        ascending(before),
        ascending(after),
        before.len() == after.len(),
        0 <= i < before.len(),
        before[i].pgid == pgid,
        after[i].pgid == pgid,
        forall|k: int| 0 <= k < before.len() && k != i ==> after[k] == #[trigger] before[k],
    ensures
        forall|p: int| #[trigger] listed(after, p) <==> listed(before, p),
        forall|p: int|
            listed(before, p) && p != pgid ==> #[trigger] group_view(after[place_of(after, p)])
                == group_view(before[place_of(before, p)]),
        place_of(after, pgid) == i,
        place_of(before, pgid) == i,
{
    lemma_place(before, i);
    lemma_place(after, i);
    assert forall|p: int| #[trigger] listed(after, p) implies listed(before, p) by {
        let k = place_of(after, p);
        assert(before[k].pgid == p);
    }
    assert forall|p: int| listed(before, p) implies #[trigger] listed(after, p) by {
        let k = place_of(before, p);
        assert(after[k].pgid == p);
    }
    assert forall|p: int| listed(before, p) && p != pgid implies #[trigger] group_view(
        after[place_of(after, p)],
    ) == group_view(before[place_of(before, p)]) by {
        let k = place_of(before, p);
        assert(after[k] == before[k]);
        lemma_place(after, k);
        lemma_place(before, k);
    }
}

/// Inserting a group adds what is known of it and changes nothing else.
proof fn lemma_view_insert(before: Seq<Group>, after: Seq<Group>, i: int)
    requires
        ascending(before),
        ascending(after),
        0 <= i <= before.len(),
        after == before.insert(i, after[i]),
    ensures
        forall|p: int| #[trigger]
            listed(after, p) <==> listed(before, p) || p == after[i].pgid as int,
        forall|p: int|
            listed(before, p) && p != after[i].pgid as int ==> #[trigger] group_view(
                after[place_of(after, p)],
            ) == group_view(before[place_of(before, p)]),
        place_of(after, after[i].pgid as int) == i,
{
    lemma_place(after, i);
    assert forall|p: int| #[trigger] listed(after, p) implies listed(before, p) || p
        == after[i].pgid as int by {
        let k = place_of(after, p);
        if k < i {
            assert(before[k].pgid == p);
        } else if k > i {
            assert(before[k - 1].pgid == p);
        }
    }
    assert forall|p: int|
        listed(before, p) || p == after[i].pgid as int implies #[trigger] listed(after, p) by {
        if p != after[i].pgid as int {
            let k = place_of(before, p);
            let j = if k < i {
                k
            } else {
                k + 1
            };
            assert(after[j].pgid == p);
        }
    }
    assert forall|p: int| listed(before, p) && p != after[i].pgid as int implies #[trigger] group_view(
        after[place_of(after, p)],
    ) == group_view(before[place_of(before, p)]) by {
        let k = place_of(before, p);
        let j = if k < i {
            k
        } else {
            k + 1
        };
        assert(after[j] == before[k]);
        lemma_place(after, j);
        lemma_place(before, k);
    }
}

/// Removing a group takes away what is known of it and changes nothing else.
proof fn lemma_view_remove(before: Seq<Group>, after: Seq<Group>, i: int)
    requires
        ascending(before),
        ascending(after),
        0 <= i < before.len(),
        after == before.remove(i),
    ensures
        forall|p: int| #[trigger]
            listed(after, p) <==> listed(before, p) && p != before[i].pgid as int,
        forall|p: int|
            listed(after, p) ==> #[trigger] group_view(after[place_of(after, p)]) == group_view(
                before[place_of(before, p)],
            ),
{
    assert forall|p: int| #[trigger] listed(after, p) implies listed(before, p) && p
        != before[i].pgid as int by {
        let k = place_of(after, p);
        let j = if k < i {
            k
        } else {
            k + 1
        };
        assert(before[j] == after[k]);
        if j < i {
            assert(before[j].pgid < before[i].pgid);
        } else {
            assert(before[i].pgid < before[j].pgid);
        }
    }
    assert forall|p: int|
        listed(before, p) && p != before[i].pgid as int implies #[trigger] listed(after, p) by {
        let k = place_of(before, p);
        let j = if k < i {
            k
        } else {
            k - 1
        };
        assert(after[j].pgid == p);
    }
    assert forall|p: int| listed(after, p) implies #[trigger] group_view(after[place_of(after, p)])
        == group_view(before[place_of(before, p)]) by {
        let k = place_of(after, p);
        let j = if k < i {
            k
        } else {
            k + 1
        };
        assert(before[j] == after[k]);
        lemma_place(before, j);
    }
}

/// A command that was started under a label is found by it: killing by the
/// label marks one group of that label, which is reported as killed when it
/// finishes, and no other group's report changes.  It is this command where no
/// group with a lower id has the same label.
pub proof fn law_a_kill_by_label_is_reported(
    groups: Map<int, GroupView>,
    pgid: int,
    label: Seq<char>,
    out: Option<int>,
    after: Map<int, GroupView>,
)
    requires
        taken(after_start(groups, pgid, Some(label)), label, out, after),
    ensures
        !reported(after_start(groups, pgid, Some(label)), pgid),
        out is Some,
        reported(after, out->0),
        forall|q: int|
            q != out->0 ==> #[trigger] reported(after, q) == reported(
                after_start(groups, pgid, Some(label)),
                q,
            ),
        (forall|q: int| q < pgid ==> !#[trigger] has_label(groups, label, q)) ==> out == Some(pgid),
{
    let started = after_start(groups, pgid, Some(label));
    assert(has_label(started, label, pgid));
    if out->0 < pgid {
        assert(has_label(groups, label, out->0));
    }
}

/// What is done next with a group that was asked to end.
#[derive(Clone, Copy, PartialEq, Eq, Structural)]
pub enum KillStep {
    /// Wait, then look again whether the group has a member.
    WaitMs(u64),
    /// The group is gone.
    Done,
    /// The grace is over: end the group with a signal it cannot catch.
    Kill,
}

/// What is done next with a group that was sent SIGTERM `elapsed_ms` ago.  The
/// grace is the task grace window twice over: once for a child host to forward
/// the signal, once for it to leave.
pub open spec fn kill_step(alive: bool, elapsed_ms: int, grace_ms: int) -> KillStep {
    if !alive {
        KillStep::Done
    } else if elapsed_ms < 2 * grace_ms {
        KillStep::WaitMs(PROBE_INTERVAL_MS)
    } else {
        KillStep::Kill
    }
}

/// What is done next with a group that was sent SIGTERM `elapsed_ms` ago.
pub fn next_kill_step(alive: bool, elapsed_ms: u64, grace_ms: u64) -> (out: KillStep)
    ensures
        out == kill_step(alive, elapsed_ms as int, grace_ms as int),
{
    if !alive {
        KillStep::Done
    } else if (elapsed_ms as u128) < 2 * (grace_ms as u128) {
        KillStep::WaitMs(PROBE_INTERVAL_MS)
    } else {
        KillStep::Kill
    }
}

/// A group is not killed outright while the grace lasts, and never while it is
/// gone.
pub proof fn law_the_grace_is_given(alive: bool, elapsed_ms: int, grace_ms: int)
    ensures
        kill_step(alive, elapsed_ms, grace_ms) == KillStep::Kill ==> alive && elapsed_ms >= 2
            * grace_ms,
        !alive ==> kill_step(alive, elapsed_ms, grace_ms) == KillStep::Done,
        alive && elapsed_ms >= 2 * grace_ms ==> kill_step(alive, elapsed_ms, grace_ms)
            == KillStep::Kill,
{
}

/// Whether a signalled host ends the process itself, and with which code.
/// While the bus is being served the exit is the server's.
pub fn signalled_exit(serving: bool) -> (code: Option<i32>)
    ensures
        code == if serving {
            None
        } else {
            Some(SIGNALLED_EXIT_CODE)
        },
{
    if serving {
        None
    } else {
        Some(SIGNALLED_EXIT_CODE)
    }
}

/// What a script may say about a command.
pub struct ExecOpts {
    pub timeout: Option<u64>,
    pub cwd: Option<String>,
    pub label: Option<String>,
}

/// A command ready to be started.
pub struct ExecPlan {
    pub timeout_secs: u64,
    pub cwd: String,
    pub label: Option<String>,
}

/// Work out how a command is started: within thirty seconds and in the
/// project's root, unless the script says otherwise.
pub fn plan_exec(opts: ExecOpts, default_cwd: &str) -> (out: ExecPlan)
    ensures
        out.timeout_secs == match opts.timeout {
            Some(t) => t,
            None => DEFAULT_TIMEOUT_SECS,
        },
        out.cwd@ == match opts.cwd {
            Some(c) => c@,
            None => default_cwd@,
        },
        out.label == opts.label,
{
    let timeout_secs: u64 = match opts.timeout {
        Some(t) => t,
        None => DEFAULT_TIMEOUT_SECS,
    };
    let cwd = match opts.cwd {
        Some(c) => c,
        None => default_cwd.to_owned(),
    };
    ExecPlan { timeout_secs, cwd, label: opts.label }
}

/// How waiting for a command ended.
pub enum CommandEnd {
    /// The command could not be started.
    NotStarted(String),
    /// The command did not end in time.
    TimedOut,
    /// Waiting for the command failed.
    WaitFailed(String),
    /// The command ended, by itself or by a signal, in which case it has no
    /// exit code.
    Exited { code: Option<i32>, stdout: Vec<u8>, stderr: Vec<u8> },
}

/// What a command that ended left behind.
pub struct ExecOutput {
    pub code: i32,
    pub stdout: String,
    pub stderr: String,
    pub killed: bool,
}

/// Why a command did not answer, and whether that was the timeout.
pub struct ExecFailure {
    pub message: String,
    pub timed_out: bool,
}

/// What the script is told of a command's end.
pub fn exec_result(end: CommandEnd, timeout_secs: u64, killed: bool) -> (out: Result<
    ExecOutput,
    ExecFailure,
>)
    ensures
        match end {
            CommandEnd::NotStarted(e) => out matches Err(f) && f.message@ == "exec error: "@ + e@
                && !f.timed_out,
            CommandEnd::TimedOut => out matches Err(f) && f.message@ == "timeout after "@ + dec(
                timeout_secs as nat,
            ) + "s"@ && f.timed_out,
            CommandEnd::WaitFailed(e) => out matches Err(f) && f.message@ == "wait error: "@ + e@
                && !f.timed_out,
            CommandEnd::Exited { code, stdout, stderr } => out matches Ok(o) && o.code
                == match code {
                Some(c) => c,
                None => -1i32,
            } && o.stdout@ == lossy(stdout@) && o.stderr@ == lossy(stderr@) && o.killed == killed,
        },
{
    match end {
        CommandEnd::NotStarted(e) => {
            let mut message = "exec error: ".to_owned();
            message.append(e.as_str());
            Err(ExecFailure { message, timed_out: false })
        },
        CommandEnd::TimedOut => {
            let mut message = "timeout after ".to_owned();
            message.append(decimal(timeout_secs).as_str());
            message.append("s");
            Err(ExecFailure { message, timed_out: true })
        },
        CommandEnd::WaitFailed(e) => {
            let mut message = "wait error: ".to_owned();
            message.append(e.as_str());
            Err(ExecFailure { message, timed_out: false })
        },
        CommandEnd::Exited { code, stdout, stderr } => {
            let code: i32 = match code {
                Some(c) => c,
                None => -1,
            };
            Ok(
                ExecOutput {
                    code,
                    stdout: lossy_text(stdout.as_slice()),
                    stderr: lossy_text(stderr.as_slice()),
                    killed,
                },
            )
        },
    }
}

/// Settle a command that was waited for: whether its group has to be killed,
/// which it has when the wait timed out, and whether `sh.kill` had ended it.
/// The group is forgotten.
pub fn settle_group(groups: &mut LiveGroups, pgid: Option<i32>, timed_out: bool) -> (out: (
    Option<i32>,
    bool,
))
    requires
        old(groups).well_formed(),
    ensures
        final(groups).well_formed(),
        out.0 == if timed_out {
            pgid
        } else {
            None
        },
        match pgid {
            Some(p) => final(groups)@ == old(groups)@.remove(p as int) && out.1 == reported(
                old(groups)@,
                p as int,
            ),
            None => *final(groups) == *old(groups) && !out.1,
        },
{
    match pgid {
        Some(p) => {
            let killed = groups.forget(p);
            if timed_out {
                (Some(p), killed)
            } else {
                (None, killed)
            }
        },
        None => (None, false),
    }
}

/// A command that starts is known by its label and not killed, and what is known
/// of every other group stays.
pub proof fn law_a_start_touches_no_other_group(
    groups: Map<int, GroupView>,
    pgid: int,
    label: Option<Seq<char>>,
    other: int,
)
    ensures
        after_start(groups, pgid, label).dom().contains(pgid),
        after_start(groups, pgid, label)[pgid].label == label,
        !after_start(groups, pgid, label)[pgid].killed,
        other != pgid ==> after_start(groups, pgid, label).dom().contains(other)
            == groups.dom().contains(other),
        other != pgid && groups.dom().contains(other) ==> after_start(groups, pgid, label)[other]
            == groups[other],
{
}

/// A kill by label marks a group that has the label, the one with the lowest id,
/// and nothing else; where no group has the label nothing changes.
pub proof fn law_a_kill_marks_one_group(
    before: Map<int, GroupView>,
    label: Seq<char>,
    out: Option<int>,
    after: Map<int, GroupView>,
    other: int,
)
    requires
        taken(before, label, out, after),
    ensures
        out matches Some(p) ==> {
            &&& before.dom().contains(p) && before[p].label == Some(label)
            &&& after.dom().contains(p) && after[p].killed && after[p].label == Some(label)
            &&& other != p ==> after.dom().contains(other) == before.dom().contains(other)
            &&& other != p && before.dom().contains(other) ==> after[other] == before[other]
            &&& before.dom().contains(other) && before[other].label == Some(label) ==> p <= other
        },
        out is None ==> after == before && !(before.dom().contains(other) && before[other].label
            == Some(label)),
{
    if before.dom().contains(other) && before[other].label == Some(label) {
        assert(has_label(before, label, other));
    }
    if let Some(p) = out {
        assert(has_label(before, label, p));
    }
}

/// A group that was asked to end is looked at every fifty milliseconds while it
/// is alive, for twice as long as the grace.
pub proof fn law_a_group_is_waited_for(elapsed_ms: int, grace_ms: int)
    requires
        elapsed_ms < 2 * grace_ms,
    ensures
        kill_step(true, elapsed_ms, grace_ms) == KillStep::WaitMs(50),
{
}

} // verus!
