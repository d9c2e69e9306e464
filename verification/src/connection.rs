//! Voice-connection lifecycle, one connection per group.
//!
//! The manager is the decision core of the lifecycle: it keeps, per group, the
//! connection's phase, the text channel routed to it, and a process-local
//! handle naming the transport resource. Every method returns the action the
//! transport layer must carry out (request a join, tear down, stop), so the
//! asynchronous transport work stays outside while every decision in here is
//! verified. `join` on a group that already has a connection reuses it, which
//! is what keeps at most one connection live per group.

use vstd::prelude::*;

use crate::{sat_add, sat_add_s};

verus! {

/// Phase of one group's voice connection.
#[derive(Debug, Clone, Copy, PartialEq, Eq, Structural)]
pub enum ConnPhase {
    Connecting,
    Connected,
}

/// One group's voice connection.
#[derive(Debug, Clone, Copy, PartialEq, Eq, Structural)]
pub struct GroupConnection {
    pub phase: ConnPhase,
    /// The text channel whose messages are read into this connection.
    pub text_channel: u64,
    /// Process-local name of the transport resource.
    pub handle: u64,
}

/// What the caller must do after requesting a join.
#[derive(Debug, Clone, Copy, PartialEq, Eq, Structural)]
pub enum JoinAction {
    /// A connection already exists; use it, request nothing.
    Reuse { handle: u64 },
    /// A new connection was recorded; request the transport join for it.
    RequestJoin { handle: u64 },
}

/// What the caller must do after a disconnect notification.
#[derive(Debug, Clone, Copy, PartialEq, Eq, Structural)]
pub enum DisconnectAction {
    /// The connection was already gone; do nothing.
    Ignore,
    /// Stop playback for the dropped connection.
    Stop,
    /// Stop playback and also force the transport to forget the connection it
    /// still lists.
    StopAndRemove,
}

/// The handle an action names.
pub open spec fn action_handle(a: JoinAction) -> u64 {
    match a {
        JoinAction::Reuse { handle } => handle,
        JoinAction::RequestJoin { handle } => handle,
    }
}

/// The connection a group currently has, if any; the latest entry wins.
pub open spec fn find_group(gs: Seq<(u64, GroupConnection)>, g: u64) -> Option<GroupConnection>
    decreases gs.len(),
{
    if gs.len() == 0 {
        None
    } else if gs.last().0 == g {
        Some(gs.last().1)
    } else {
        find_group(gs.drop_last(), g)
    }
}

/// `gs` with every entry of group `g` removed.
pub open spec fn remove_group(gs: Seq<(u64, GroupConnection)>, g: u64) -> Seq<
    (u64, GroupConnection),
>
    decreases gs.len(),
{
    if gs.len() == 0 {
        Seq::empty()
    } else {
        let rest = remove_group(gs.drop_last(), g);
        if gs.last().0 == g {
            rest
        } else {
            rest.push(gs.last())
        }
    }
}

proof fn lemma_find_after_remove(gs: Seq<(u64, GroupConnection)>, g: u64, g2: u64)
    ensures
        find_group(remove_group(gs, g), g) is None,
        g2 != g ==> find_group(remove_group(gs, g), g2) == find_group(gs, g2),
    decreases gs.len(),
{
    if gs.len() > 0 {
        lemma_find_after_remove(gs.drop_last(), g, g2);
        if gs.last().0 != g {
            assert(remove_group(gs, g).drop_last() =~= remove_group(gs.drop_last(), g));
        }
    }
}

// ---------------------------------------------------------------------------
// The transitions
// ---------------------------------------------------------------------------

/// Result of a join request: the next state and the required action.
pub ghost struct JoinOutcome {
    pub groups: Seq<(u64, GroupConnection)>,
    pub next_handle: u64,
    pub action: JoinAction,
}

/// Joining reuses an existing connection of the group; otherwise it records a
/// fresh connecting entry, with the requesting text channel as its route, and
/// asks for one transport join.
pub open spec fn join_step(
    gs: Seq<(u64, GroupConnection)>,
    next_handle: u64,
    g: u64,
    text_channel: u64,
) -> JoinOutcome {
    match find_group(gs, g) {
        Some(c) => JoinOutcome {
            groups: gs,
            next_handle,
            action: JoinAction::Reuse { handle: c.handle },
        },
        None => {
            let c = GroupConnection {
                phase: ConnPhase::Connecting,
                text_channel,
                handle: next_handle,
            };
            JoinOutcome {
                groups: gs.push((g, c)),
                next_handle: sat_add_s(next_handle, 1),
                action: JoinAction::RequestJoin { handle: next_handle },
            }
        },
    }
}

/// A completed transport join moves a connecting group to connected; a failed
/// one removes it. A completion for a group that is not connecting is stale
/// and changes nothing.
pub open spec fn complete_step(gs: Seq<(u64, GroupConnection)>, g: u64, success: bool) -> Seq<
    (u64, GroupConnection),
> {
    match find_group(gs, g) {
        Some(c) => if c.phase == ConnPhase::Connecting {
            if success {
                remove_group(gs, g).push(
                    (
                        g,
                        GroupConnection {
                            phase: ConnPhase::Connected,
                            text_channel: c.text_channel,
                            handle: c.handle,
                        },
                    ),
                )
            } else {
                remove_group(gs, g)
            }
        } else {
            gs
        },
        None => gs,
    }
}

/// Result of a leave: the next state, and whether a teardown must be
/// requested.
pub ghost struct LeaveOutcome {
    pub groups: Seq<(u64, GroupConnection)>,
    pub teardown: bool,
}

/// Leaving a connected group removes it and requests the teardown; leaving in
/// any other state is a no-op, never an error.
pub open spec fn leave_step(gs: Seq<(u64, GroupConnection)>, g: u64) -> LeaveOutcome {
    match find_group(gs, g) {
        Some(c) => if c.phase == ConnPhase::Connected {
            LeaveOutcome { groups: remove_group(gs, g), teardown: true }
        } else {
            LeaveOutcome { groups: gs, teardown: false }
        },
        None => LeaveOutcome { groups: gs, teardown: false },
    }
}

/// Result of a disconnect notification: the next state and the required
/// action.
pub ghost struct DisconnectOutcome {
    pub groups: Seq<(u64, GroupConnection)>,
    pub action: DisconnectAction,
}

/// A disconnect notification for a group the manager still believes active
/// stops it and, when the transport still lists the connection, also forces
/// its removal; for a group already gone it does nothing.
pub open spec fn disconnect_step(
    gs: Seq<(u64, GroupConnection)>,
    g: u64,
    still_listed: bool,
) -> DisconnectOutcome {
    match find_group(gs, g) {
        Some(_) => DisconnectOutcome {
            groups: remove_group(gs, g),
            action: if still_listed {
                DisconnectAction::StopAndRemove
            } else {
                DisconnectAction::Stop
            },
        },
        None => DisconnectOutcome { groups: gs, action: DisconnectAction::Ignore },
    }
}

// ---------------------------------------------------------------------------
// The manager
// ---------------------------------------------------------------------------

pub struct ConnectionManager {
    pub groups: Vec<(u64, GroupConnection)>,
    pub next_handle: u64,
}

impl ConnectionManager {
    /// A manager with no connections.
    pub fn new() -> (r: ConnectionManager)
        ensures
            r.groups@.len() == 0,
            forall|g: u64| find_group(r.groups@, g) is None,
            one_per_group(r.groups@),
    {
        ConnectionManager { groups: Vec::new(), next_handle: 0 }
    }

    /// The connection a group currently has, if any.
    pub fn find(&self, group_id: u64) -> (r: Option<GroupConnection>)
        ensures
            r == find_group(self.groups@, group_id),
    {
        proof {
            assert(self.groups@.subrange(0, self.groups@.len() as int) =~= self.groups@);
        }
        let mut i: usize = self.groups.len();
        while i > 0
            invariant
                i <= self.groups.len(),
                find_group(self.groups@, group_id) == find_group(
                    self.groups@.subrange(0, i as int),
                    group_id,
                ),
            decreases i,
        {
            proof {
                assert(self.groups@.subrange(0, i as int).drop_last() =~= self.groups@.subrange(
                    0,
                    i - 1,
                ));
                assert(self.groups@.subrange(0, i as int).last() == self.groups@[i - 1]);
            }
            if self.groups[i - 1].0 == group_id {
                return Some(self.groups[i - 1].1);
            }
            i = i - 1;
        }
        None
    }

    /// The text channel routed to a group's connection, if one exists.
    pub fn route_of(&self, group_id: u64) -> (r: Option<u64>)
        ensures
            r == match find_group(self.groups@, group_id) {
                Some(c) => Some(c.text_channel),
                None => None::<u64>,
            },
    {
        match self.find(group_id) {
            Some(c) => Some(c.text_channel),
            None => None,
        }
    }

    fn remove_entries(&mut self, group_id: u64)
        ensures
            final(self).groups@ == remove_group(old(self).groups@, group_id),
            final(self).next_handle == old(self).next_handle,
    {
        let ghost gs = self.groups@;
        let mut out: Vec<(u64, GroupConnection)> = Vec::new();
        let mut i: usize = 0;
        while i < self.groups.len()
            invariant
                i <= self.groups.len(),
                gs == self.groups@,
                out@ == remove_group(gs.subrange(0, i as int), group_id),
            decreases self.groups.len() - i,
        {
            proof {
                assert(gs.subrange(0, i + 1 as int).drop_last() =~= gs.subrange(0, i as int));
                assert(gs.subrange(0, i + 1 as int).last() == gs[i as int]);
            }
            if self.groups[i].0 != group_id {
                out.push(self.groups[i]);
            }
            i = i + 1;
        }
        proof {
            assert(gs.subrange(0, gs.len() as int) =~= gs);
        }
        self.groups = out;
    }

    /// Request a voice connection for a group. An existing connection is
    /// reused; otherwise a connecting entry is recorded and the caller must
    /// perform the transport join, then report it through `join_completed`.
    pub fn join(&mut self, group_id: u64, text_channel: u64) -> (action: JoinAction)
        ensures
            ({
                let o = join_step(old(self).groups@, old(self).next_handle, group_id, text_channel);
                final(self).groups@ == o.groups && final(self).next_handle == o.next_handle
                    && action == o.action
            }),
    {
        match self.find(group_id) {
            Some(c) => JoinAction::Reuse { handle: c.handle },
            None => {
                let h = self.next_handle;
                self.groups.push(
                    (
                        group_id,
                        GroupConnection { phase: ConnPhase::Connecting, text_channel, handle: h },
                    ),
                );
                self.next_handle = sat_add(h, 1);
                JoinAction::RequestJoin { handle: h }
            },
        }
    }

    /// Report the outcome of the transport join requested for a group.
    pub fn join_completed(&mut self, group_id: u64, success: bool)
        ensures
            final(self).groups@ == complete_step(old(self).groups@, group_id, success),
            final(self).next_handle == old(self).next_handle,
    {
        match self.find(group_id) {
            Some(c) => {
                if c.phase == ConnPhase::Connecting {
                    self.remove_entries(group_id);
                    if success {
                        self.groups.push(
                            (
                                group_id,
                                GroupConnection {
                                    phase: ConnPhase::Connected,
                                    text_channel: c.text_channel,
                                    handle: c.handle,
                                },
                            ),
                        );
                    }
                }
            },
            None => {},
        }
    }

    /// Leave a group's voice connection. Returns whether the caller must
    /// request the transport teardown; leaving a group without a connected
    /// connection is a no-op.
    pub fn leave(&mut self, group_id: u64) -> (teardown: bool)
        ensures
            ({
                let o = leave_step(old(self).groups@, group_id);
                final(self).groups@ == o.groups && teardown == o.teardown
            }),
            final(self).next_handle == old(self).next_handle,
    {
        match self.find(group_id) {
            Some(c) => {
                if c.phase == ConnPhase::Connected {
                    self.remove_entries(group_id);
                    true
                } else {
                    false
                }
            },
            None => false,
        }
    }

    /// Handle an asynchronous disconnect notification from the transport.
    pub fn on_disconnect(&mut self, group_id: u64, transport_still_lists: bool) -> (action:
        DisconnectAction)
        ensures
            ({
                let o = disconnect_step(old(self).groups@, group_id, transport_still_lists);
                final(self).groups@ == o.groups && action == o.action
            }),
            final(self).next_handle == old(self).next_handle,
    {
        match self.find(group_id) {
            Some(_) => {
                self.remove_entries(group_id);
                if transport_still_lists {
                    DisconnectAction::StopAndRemove
                } else {
                    DisconnectAction::Stop
                }
            },
            None => DisconnectAction::Ignore,
        }
    }
}

// ---------------------------------------------------------------------------
// Laws
// ---------------------------------------------------------------------------

/// Law: joining a group that already has a connection changes nothing and
/// returns the existing handle, so at most one connection exists per group.
pub proof fn lemma_join_reuses(gs: Seq<(u64, GroupConnection)>, next_handle: u64, g: u64, tc: u64)
    requires
        find_group(gs, g) is Some,
    ensures
        join_step(gs, next_handle, g, tc) == (JoinOutcome {
            groups: gs,
            next_handle,
            action: JoinAction::Reuse { handle: find_group(gs, g)->Some_0.handle },
        }),
{
}

/// Law: two joins in a row for one group, with no intervening leave, request
/// the transport join at most once and both name the same handle.
pub proof fn lemma_join_twice(
    gs: Seq<(u64, GroupConnection)>,
    next_handle: u64,
    g: u64,
    tc1: u64,
    tc2: u64,
)
    ensures
        ({
            let o1 = join_step(gs, next_handle, g, tc1);
            let o2 = join_step(o1.groups, o1.next_handle, g, tc2);
            o2.action is Reuse && action_handle(o2.action) == action_handle(o1.action) && o2.groups
                == o1.groups && o2.next_handle == o1.next_handle
        }),
{
    let o1 = join_step(gs, next_handle, g, tc1);
    if find_group(gs, g) is None {
        assert(find_group(o1.groups, g) == Some(o1.groups.last().1));
    }
}

/// Law: after an explicit leave of a connected group, a disconnect
/// notification for that group is ignored: no second teardown, no state
/// change, no error.
pub proof fn lemma_disconnect_after_leave(gs: Seq<(u64, GroupConnection)>, g: u64, listed: bool)
    requires
        find_group(gs, g) is Some,
        find_group(gs, g)->Some_0.phase == ConnPhase::Connected,
    ensures
        ({
            let l = leave_step(gs, g);
            let d = disconnect_step(l.groups, g, listed);
            l.teardown && d.action == DisconnectAction::Ignore && d.groups == l.groups
        }),
{
    lemma_find_after_remove(gs, g, g);
}

/// Some entry of `gs` belongs to group `g`.
pub open spec fn has_key(gs: Seq<(u64, GroupConnection)>, g: u64) -> bool {
    exists|i: int| 0 <= i < gs.len() && (#[trigger] gs[i]).0 == g
}

/// No group has more than one recorded connection.
pub open spec fn one_per_group(gs: Seq<(u64, GroupConnection)>) -> bool {
    forall|i: int, j: int| 0 <= i < j < gs.len() ==> (#[trigger] gs[i]).0 != (#[trigger] gs[j]).0
}

proof fn lemma_find_none_absent(gs: Seq<(u64, GroupConnection)>, g: u64)
    ensures
        find_group(gs, g) is None <==> !has_key(gs, g),
    decreases gs.len(),
{
    if gs.len() > 0 {
        lemma_find_none_absent(gs.drop_last(), g);
        if gs.last().0 != g && find_group(gs.drop_last(), g) is None {
            assert forall|i: int| 0 <= i < gs.len() implies (#[trigger] gs[i]).0 != g by {
                if i < gs.len() - 1 {
                    assert(gs.drop_last()[i] == gs[i]);
                }
            }
        }
        if has_key(gs.drop_last(), g) {
            let i = choose|i: int| 0 <= i < gs.drop_last().len() && (#[trigger] gs.drop_last()[i]).0
                == g;
            assert(gs[i].0 == g);
        }
    }
}

/// Removal keeps keys from elsewhere only: whatever group is still present
/// was present before, and the removed group is gone.
proof fn lemma_remove_group_keys(gs: Seq<(u64, GroupConnection)>, g: u64, g2: u64)
    ensures
        has_key(remove_group(gs, g), g2) ==> g2 != g && has_key(gs, g2),
    decreases gs.len(),
{
    if gs.len() > 0 {
        lemma_remove_group_keys(gs.drop_last(), g, g2);
        if has_key(remove_group(gs, g), g2) {
            let rest = remove_group(gs.drop_last(), g);
            if gs.last().0 != g {
                let i = choose|i: int|
                    0 <= i < remove_group(gs, g).len() && (#[trigger] remove_group(gs, g)[i]).0
                        == g2;
                if i < rest.len() {
                    assert(has_key(rest, g2));
                } else {
                    assert(remove_group(gs, g)[i] == gs.last());
                    assert(gs[gs.len() - 1].0 == g2);
                }
            }
            if has_key(gs.drop_last(), g2) {
                let j = choose|j: int|
                    0 <= j < gs.drop_last().len() && (#[trigger] gs.drop_last()[j]).0 == g2;
                assert(gs[j].0 == g2);
            }
        }
    }
}

/// Removal preserves the one-connection-per-group shape.
proof fn lemma_remove_group_unique(gs: Seq<(u64, GroupConnection)>, g: u64)
    requires
        one_per_group(gs),
    ensures
        one_per_group(remove_group(gs, g)),
        !has_key(remove_group(gs, g), g),
    decreases gs.len(),
{
    if gs.len() == 0 {
        assert(remove_group(gs, g).len() == 0);
    } else {
        assert(forall|i: int, j: int|
            0 <= i < j < gs.drop_last().len() ==> (#[trigger] gs.drop_last()[i]).0
                != (#[trigger] gs.drop_last()[j]).0);
        lemma_remove_group_unique(gs.drop_last(), g);
        let rest = remove_group(gs.drop_last(), g);
        if gs.last().0 != g {
            // The kept last entry cannot collide: its group would have had to
            // be present earlier in the unique sequence.
            if has_key(rest, gs.last().0) {
                lemma_remove_group_keys(gs.drop_last(), g, gs.last().0);
                let j = choose|j: int|
                    0 <= j < gs.drop_last().len() && (#[trigger] gs.drop_last()[j]).0
                        == gs.last().0;
                assert(gs[j].0 == gs[gs.len() - 1].0);
                assert(false);
            }
            assert forall|i: int, j: int|
                0 <= i < j < rest.push(gs.last()).len() implies (#[trigger] rest.push(
                gs.last(),
            )[i]).0 != (#[trigger] rest.push(gs.last())[j]).0 by {
                if j < rest.len() {
                } else {
                    assert(rest.push(gs.last())[j] == gs.last());
                    if rest.push(gs.last())[i].0 == gs.last().0 {
                        assert(has_key(rest, gs.last().0));
                    }
                }
            }
            if has_key(rest.push(gs.last()), g) {
                let i = choose|i: int|
                    0 <= i < rest.push(gs.last()).len() && (#[trigger] rest.push(gs.last())[i]).0
                        == g;
                if i < rest.len() {
                    assert(has_key(rest, g));
                }
            }
        }
    }
}

/// Law: every transition preserves the invariant that a group has at most one
/// recorded connection, so at no reachable state does a group hold two.
pub proof fn lemma_one_connection_per_group(
    gs: Seq<(u64, GroupConnection)>,
    next_handle: u64,
    g: u64,
    tc: u64,
    success: bool,
    listed: bool,
)
    requires
        one_per_group(gs),
    ensures
        one_per_group(join_step(gs, next_handle, g, tc).groups),
        one_per_group(complete_step(gs, g, success)),
        one_per_group(leave_step(gs, g).groups),
        one_per_group(disconnect_step(gs, g, listed).groups),
{
    lemma_remove_group_unique(gs, g);
    lemma_find_none_absent(gs, g);
    let pushed = join_step(gs, next_handle, g, tc).groups;
    if find_group(gs, g) is None {
        assert forall|i: int, j: int| 0 <= i < j < pushed.len() implies (#[trigger] pushed[i]).0
            != (#[trigger] pushed[j]).0 by {
            if j == pushed.len() - 1 {
                assert(pushed[i] == gs[i]);
            }
        }
    }
    match find_group(gs, g) {
        Some(c) => {
            if c.phase == ConnPhase::Connecting && success {
                let base = remove_group(gs, g);
                let done = complete_step(gs, g, success);
                assert forall|i: int, j: int| 0 <= i < j < done.len() implies (#[trigger] done[i]).0
                    != (#[trigger] done[j]).0 by {
                    if j == done.len() - 1 {
                        assert(done[i] == base[i]);
                        if base[i].0 == g {
                            assert(has_key(base, g));
                        }
                    }
                }
            }
        },
        None => {},
    }
}

/// Law: disconnect handling is idempotent: a second notification for the same
/// group is ignored.
pub proof fn lemma_disconnect_twice(
    gs: Seq<(u64, GroupConnection)>,
    g: u64,
    listed1: bool,
    listed2: bool,
)
    ensures
        ({
            let d1 = disconnect_step(gs, g, listed1);
            let d2 = disconnect_step(d1.groups, g, listed2);
            d2.action == DisconnectAction::Ignore && d2.groups == d1.groups
        }),
{
    lemma_find_after_remove(gs, g, g);
}

} // verus!
