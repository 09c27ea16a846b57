use vstd::prelude::*;

use crate::registry::{Registry, RegistryView};

verus! {

/// An inbound message as the relay sees it.
pub struct InboundMessage {
    pub source_channel: u64,
    /// Posted by an automated account; the relay's own posts are such.
    pub from_automated: bool,
    pub author_name: String,
    pub avatar_url: String,
    pub body: String,
}

/// One delivery call: post `body` through `endpoint` into `channel`, under the
/// author's name and avatar.
pub struct Delivery {
    pub channel: u64,
    pub endpoint: u64,
    pub username: String,
    pub avatar_url: String,
    pub body: String,
}

/// Keeps the members whose channel is not `source`.
pub open spec fn not_from(source: u64) -> spec_fn((u64, u64)) -> bool {
    |m: (u64, u64)| m.0 != source
}

/// The (channel, endpoint) pairs that one inbound message is relayed to:
/// nothing for a message of an automated account or from an unlinked channel,
/// else every member of the channel's group but the channel itself.
pub open spec fn relay_targets_of(v: RegistryView, source: u64, from_automated: bool) -> Seq<
    (u64, u64),
> {
    if from_automated {
        Seq::empty()
    } else {
        match v.group_for(source) {
            None => Seq::empty(),
            Some(id) => match v.group(id) {
                None => Seq::empty(),
                Some(g) => g.members.filter(not_from(source)),
            },
        }
    }
}

/// The targets whose endpoint was resolved, in target order: each target's
/// delivery depends on its own resolution alone.
pub open spec fn dispatched(targets: Seq<(u64, u64)>, resolved: Seq<bool>) -> Seq<(u64, u64)>
    decreases targets.len(),
{
    if targets.len() == 0 || resolved.len() == 0 {
        Seq::empty()
    } else {
        let rest = dispatched(targets.drop_last(), resolved.drop_last());
        if resolved.last() {
            rest.push(targets.last())
        } else {
            rest
        }
    }
}

/// The members of `members` other than `source`, in order.
pub fn others(members: &Vec<(u64, u64)>, source: u64) -> (r: Vec<(u64, u64)>)
    ensures
        r@ == members@.filter(not_from(source)),
{
    let mut out: Vec<(u64, u64)> = Vec::new();
    let mut i: usize = 0;
    while i < members.len()
        invariant
            i <= members.len(),
            out@ == members@.take(i as int).filter(not_from(source)),
        decreases members.len() - i,
    {
        let m = members[i];
        proof {
            assert(members@.take(i as int + 1).drop_last() =~= members@.take(i as int));
            reveal(Seq::filter);
        }
        if m.0 != source {
            out.push(m);
        }
        i = i + 1;
    }
    assert(members@.take(i as int) =~= members@);
    out
}

/// Where one inbound message goes: the (channel, endpoint) pairs of every
/// other channel in the source channel's group. Messages of automated
/// accounts, this relay's own echoes among them, go nowhere, and so do
/// messages from channels that belong to no group.
pub fn relay_targets(registry: &Registry, message: &InboundMessage) -> (r: Vec<(u64, u64)>)
    requires
        registry.wf(),
    ensures
        r@ == relay_targets_of(registry@, message.source_channel, message.from_automated),
{
    let source_channel = message.source_channel;
    if message.from_automated {
        return Vec::new();
    }
    match registry.lookup_group_for_channel(source_channel) {
        None => Vec::new(),
        Some(id) => match registry.get_group(&id) {
            None => Vec::new(),
            Some(group) => others(&group.members, source_channel),
        },
    }
}

/// The delivery calls to make once each target's endpoint has been resolved
/// (`resolved[i]` tells whether the endpoint of `targets[i]` was): one for
/// every target whose endpoint resolved and no other, each with the author's
/// name, avatar and body unchanged.
pub fn dispatch(targets: &Vec<(u64, u64)>, resolved: &Vec<bool>, message: &InboundMessage) -> (r:
    Vec<Delivery>)
    requires
        targets.len() == resolved.len(),
    ensures
        r.len() == dispatched(targets@, resolved@).len(),
        forall|j: int|
            0 <= j < r.len() ==> {
                let d = #[trigger] r[j];
                &&& (d.channel, d.endpoint) == dispatched(targets@, resolved@)[j]
                &&& d.username@ == message.author_name@
                &&& d.avatar_url@ == message.avatar_url@
                &&& d.body@ == message.body@
            },
{
    let mut out: Vec<Delivery> = Vec::new();
    let mut i: usize = 0;
    while i < targets.len()
        invariant
            i <= targets.len(),
            targets.len() == resolved.len(),
            out.len() == dispatched(targets@.take(i as int), resolved@.take(i as int)).len(),
            forall|j: int|
                0 <= j < out.len() ==> {
                    let d = #[trigger] out[j];
                    &&& (d.channel, d.endpoint) == dispatched(
                        targets@.take(i as int),
                        resolved@.take(i as int),
                    )[j]
                    &&& d.username@ == message.author_name@
                    &&& d.avatar_url@ == message.avatar_url@
                    &&& d.body@ == message.body@
                },
        decreases targets.len() - i,
    {
        proof {
            assert(targets@.take(i as int + 1).drop_last() =~= targets@.take(i as int));
            assert(resolved@.take(i as int + 1).drop_last() =~= resolved@.take(i as int));
        }
        if resolved[i] {
            let (channel, endpoint) = targets[i];
            out.push(
                Delivery {
                    channel,
                    endpoint,
                    username: message.author_name.clone(),
                    avatar_url: message.avatar_url.clone(),
                    body: message.body.clone(),
                },
            );
        }
        i = i + 1;
    }
    assert(targets@.take(i as int) =~= targets@);
    assert(resolved@.take(i as int) =~= resolved@);
    out
}

/// Fan-out reaches every other member of the source channel's group and never
/// the source channel itself.
pub proof fn lemma_fan_out(v: RegistryView, source: u64, id: Seq<char>, m: (u64, u64))
    requires
        v.wf(),
        v.group_for(source) == Some(id),
    ensures
        v.group(id) is Some,
        relay_targets_of(v, source, false).contains(m) <==> (v.group(id)->0.members.contains(m)
            && m.0 != source),
{
    let i = choose|i: int| 0 <= i < v.links.len() && v.links[i].0 == source;
    assert(v.link_backed(i));
    let g = choose|g: int|
        0 <= g < v.groups.len() && #[trigger] v.groups[g].id == v.links[i].1
            && v.groups[g].lists_channel(v.links[i].0);
    crate::registry::lemma_group_pos(v, id, g);
    let members = v.group(id)->0.members;
    let pred = not_from(source);
    broadcast use Seq::lemma_filter_contains, Seq::lemma_filter_pred;
    members.lemma_filter_len(pred);
    if relay_targets_of(v, source, false).contains(m) {
        let j = choose|j: int| 0 <= j < members.filter(pred).len() && members.filter(pred)[j] == m;
        lemma_filter_in(members, pred, j);
    }
    if members.contains(m) && m.0 != source {
        let k = choose|k: int| 0 <= k < members.len() && members[k] == m;
        assert(members.filter(pred).contains(members[k]));
    }
}

/// Each element kept by a filter comes from the filtered sequence.
proof fn lemma_filter_in(s: Seq<(u64, u64)>, pred: spec_fn((u64, u64)) -> bool, j: int)
    requires
        0 <= j < s.filter(pred).len(),
    ensures
        s.contains(s.filter(pred)[j]),
    decreases s.len(),
{
    reveal(Seq::filter);
    if s.len() > 0 {
        let rest = s.drop_last().filter(pred);
        if j < rest.len() {
            lemma_filter_in(s.drop_last(), pred, j);
            let k = choose|k: int| 0 <= k < s.drop_last().len() && s.drop_last()[k] == rest[j];
            assert(s[k] == s.filter(pred)[j]);
        } else {
            assert(s[s.len() - 1] == s.filter(pred)[j]);
        }
    }
}

/// A message from a channel that belongs to no group, or from an automated
/// account, is relayed nowhere.
pub proof fn lemma_unlinked_no_op(v: RegistryView, source: u64, from_automated: bool)
    requires
        !v.is_linked(source) || from_automated,
    ensures
        relay_targets_of(v, source, from_automated).len() == 0,
{
}

/// Some target equal to `t` had its endpoint resolved.
pub open spec fn resolved_target(targets: Seq<(u64, u64)>, resolved: Seq<bool>, t: (u64, u64)) -> bool {
    exists|k: int| 0 <= k < targets.len() && resolved[k] && targets[k] == t
}

/// Failure isolation: a target whose endpoint resolved is delivered to,
/// whatever became of the other targets; nothing else is delivered to.
pub proof fn lemma_failure_isolation(targets: Seq<(u64, u64)>, resolved: Seq<bool>, i: int)
    requires
        targets.len() == resolved.len(),
        0 <= i < targets.len(),
    ensures
        resolved[i] ==> dispatched(targets, resolved).contains(targets[i]),
        forall|j: int|
            0 <= j < dispatched(targets, resolved).len() ==> resolved_target(
                targets,
                resolved,
                #[trigger] dispatched(targets, resolved)[j],
            ),
    decreases targets.len(),
{
    let d = dispatched(targets, resolved);
    let n = targets.len() - 1;
    let t0 = targets.drop_last();
    let r0 = resolved.drop_last();
    let d0 = dispatched(t0, r0);
    if i < n {
        lemma_failure_isolation(t0, r0, i);
        if resolved[i] {
            let j = choose|j: int| 0 <= j < d0.len() && d0[j] == t0[i];
            assert(d[j] == targets[i]);
        }
    } else {
        if n > 0 {
            lemma_failure_isolation(t0, r0, 0);
        }
        if resolved[i] {
            assert(d[d.len() - 1] == targets[i]);
        }
    }
    if n > 0 {
        lemma_failure_isolation(t0, r0, 0);
    }
    assert forall|j: int| 0 <= j < d.len() implies resolved_target(targets, resolved, #[trigger] d[j]) by {
        if j < d0.len() {
            assert(resolved_target(t0, r0, d0[j]));
            let k = choose|k: int| 0 <= k < t0.len() && r0[k] && t0[k] == d0[j];
            assert(targets[k] == d[j]);
        } else {
            assert(targets[n] == d[j]);
        }
    }
}

} // verus!
