use vstd::prelude::*;

verus! {

/// Reasons a registry write is refused.
#[derive(Debug, Clone, Copy, PartialEq, Eq, Structural)]
pub enum RegistryError {
    /// A group with the requested id already exists.
    AlreadyExists,
    /// No group has the requested id.
    NotFound,
    /// The channel already belongs to a group.
    AlreadyLinked,
}

/// A named set of channels that share relayed messages.
///
/// `members` holds (channel, delivery endpoint) pairs in the order they were linked.
#[derive(Debug)]
pub struct Group {
    pub id: String,
    pub title: String,
    pub description: String,
    pub owner: u64,
    pub members: Vec<(u64, u64)>,
}

/// The mathematical value of a [`Group`].
pub struct GroupView {
    pub id: Seq<char>,
    pub title: Seq<char>,
    pub description: Seq<char>,
    pub owner: u64,
    pub members: Seq<(u64, u64)>,
}

impl View for Group {
    type V = GroupView;

    open spec fn view(&self) -> GroupView {
        GroupView {
            id: self.id@,
            title: self.title@,
            description: self.description@,
            owner: self.owner,
            members: self.members@,
        }
    }
}

impl GroupView {
    /// The group as it is right after creation: no members yet.
    pub open spec fn fresh(id: Seq<char>, title: Seq<char>, description: Seq<char>, owner: u64) -> GroupView {
        GroupView { id, title, description, owner, members: Seq::empty() }
    }

    pub open spec fn with_member(self, channel: u64, endpoint: u64) -> GroupView {
        GroupView { members: self.members.push((channel, endpoint)), ..self }
    }

    pub open spec fn lists_channel(self, channel: u64) -> bool {
        exists|k: int| 0 <= k < self.members.len() && #[trigger] self.members[k].0 == channel
    }

    pub open spec fn has_member(self, channel: u64, endpoint: u64) -> bool {
        exists|k: int| 0 <= k < self.members.len() && self.members[k] == (channel, endpoint)
    }
}

impl Group {
    /// An independent copy of the group, fields and member list alike.
    pub fn snapshot(&self) -> (r: Group)
        ensures
            r@ == self@,
    {
        let mut members: Vec<(u64, u64)> = Vec::new();
        let mut k: usize = 0;
        while k < self.members.len()
            invariant
                k <= self.members.len(),
                members@ == self.members@.take(k as int),
            decreases self.members.len() - k,
        {
            members.push(self.members[k]);
            k = k + 1;
            assert(members@ =~= self.members@.take(k as int));
        }
        assert(members@ =~= self.members@);
        Group {
            id: self.id.clone(),
            title: self.title.clone(),
            description: self.description.clone(),
            owner: self.owner,
            members,
        }
    }

    /// How many channels are linked to the group.
    pub fn member_count(&self) -> (r: usize)
        ensures
            r == self@.members.len(),
    {
        self.members.len()
    }
}

/// The store of groups and of the membership index (channel to group id).
///
/// Both are changed only through its methods, and a link writes both at once.
pub struct Registry {
    groups: Vec<Group>,
    links: Vec<(u64, String)>,
}

/// The mathematical value of a [`Registry`]: groups in creation order, and the
/// membership index as (channel, group id) entries in linking order.
pub struct RegistryView {
    pub groups: Seq<GroupView>,
    pub links: Seq<(u64, Seq<char>)>,
}

impl View for Registry {
    type V = RegistryView;

    closed spec fn view(&self) -> RegistryView {
        RegistryView {
            groups: self.groups@.map_values(|g: Group| g@),
            links: self.links@.map_values(|l: (u64, String)| (l.0, l.1@)),
        }
    }
}

impl RegistryView {
    pub open spec fn has_group(self, id: Seq<char>) -> bool {
        exists|i: int| 0 <= i < self.groups.len() && self.groups[i].id == id
    }

    /// Where the group with this id stands; meaningful when `has_group(id)`.
    pub open spec fn group_pos(self, id: Seq<char>) -> int {
        choose|i: int| 0 <= i < self.groups.len() && self.groups[i].id == id
    }

    pub open spec fn group(self, id: Seq<char>) -> Option<GroupView> {
        if self.has_group(id) {
            Some(self.groups[self.group_pos(id)])
        } else {
            None
        }
    }

    pub open spec fn is_linked(self, channel: u64) -> bool {
        exists|i: int| 0 <= i < self.links.len() && self.links[i].0 == channel
    }

    /// The group id that the membership index gives for a channel.
    pub open spec fn group_for(self, channel: u64) -> Option<Seq<char>> {
        if self.is_linked(channel) {
            Some(
                self.links[choose|i: int| 0 <= i < self.links.len() && self.links[i].0 == channel].1,
            )
        } else {
            None
        }
    }

    /// Group ids are unique, a channel has at most one index entry, every index
    /// entry names a group that lists the channel, and every member of a group
    /// has the index entry for that group.
    pub open spec fn wf(self) -> bool {
        &&& forall|i: int, j: int|
            0 <= i < j < self.groups.len() ==> self.groups[i].id != self.groups[j].id
        &&& forall|i: int, j: int|
            0 <= i < j < self.links.len() ==> self.links[i].0 != self.links[j].0
        &&& forall|i: int| 0 <= i < self.links.len() ==> #[trigger] self.link_backed(i)
        &&& forall|g: int, k: int|
            0 <= g < self.groups.len() && 0 <= k < self.groups[g].members.len()
                ==> #[trigger] self.member_indexed(g, k)
    }

    /// The index entry at `i` names a group that lists its channel.
    pub open spec fn link_backed(self, i: int) -> bool {
        exists|g: int|
            0 <= g < self.groups.len() && #[trigger] self.groups[g].id == self.links[i].1
                && self.groups[g].lists_channel(self.links[i].0)
    }

    /// Member `k` of the group at `g` has its index entry.
    pub open spec fn member_indexed(self, g: int, k: int) -> bool {
        exists|i: int|
            0 <= i < self.links.len() && #[trigger] self.links[i] == (
                self.groups[g].members[k].0,
                self.groups[g].id,
            )
    }

    /// The registry after a successful creation.
    pub open spec fn created(
        self,
        id: Seq<char>,
        title: Seq<char>,
        description: Seq<char>,
        owner: u64,
    ) -> RegistryView {
        RegistryView {
            groups: self.groups.push(GroupView::fresh(id, title, description, owner)),
            links: self.links,
        }
    }

    /// The registry after a successful link: the member entry and the index
    /// entry are added together.
    pub open spec fn linked(self, id: Seq<char>, channel: u64, endpoint: u64) -> RegistryView {
        RegistryView {
            groups: self.groups.update(
                self.group_pos(id),
                self.groups[self.group_pos(id)].with_member(channel, endpoint),
            ),
            links: self.links.push((channel, id)),
        }
    }

    /// What creating a group does: the new state and the result.
    pub open spec fn create_step(
        self,
        id: Seq<char>,
        title: Seq<char>,
        description: Seq<char>,
        owner: u64,
    ) -> (RegistryView, Result<(), RegistryError>) {
        if self.has_group(id) {
            (self, Err(RegistryError::AlreadyExists))
        } else {
            (self.created(id, title, description, owner), Ok(()))
        }
    }

    /// What linking a channel does: the new state and the result.
    pub open spec fn link_step(self, id: Seq<char>, channel: u64, endpoint: u64) -> (
        RegistryView,
        Result<(), RegistryError>,
    ) {
        if !self.has_group(id) {
            (self, Err(RegistryError::NotFound))
        } else if self.is_linked(channel) {
            (self, Err(RegistryError::AlreadyLinked))
        } else {
            (self.linked(id, channel, endpoint), Ok(()))
        }
    }
}

impl Registry {
    pub open spec fn wf(&self) -> bool {
        self@.wf()
    }

    /// An empty registry: no groups, no links.
    pub fn new() -> (r: Registry)
        ensures
            r.wf(),
            r@.groups.len() == 0,
            r@.links.len() == 0,
    {
        Registry { groups: Vec::new(), links: Vec::new() }
    }

    /// Creates a group with no members; refused when the id is taken, in which
    /// case nothing changes.
    pub fn create_group(&mut self, id: String, title: String, description: String, owner: u64) -> (r:
        Result<(), RegistryError>)
        requires
            old(self).wf(),
        ensures
            final(self).wf(),
            (final(self)@, r) == old(self)@.create_step(id@, title@, description@, owner),
    {
        match self.find_group(&id) {
            Some(_) => Err(RegistryError::AlreadyExists),
            None => {
                let ghost v = self@;
                let group = Group { id, title, description, owner, members: Vec::new() };
                proof {
                    assert(group@ == GroupView::fresh(id@, title@, description@, owner));
                }
                self.groups.push(group);
                proof {
                    assert(self@.groups =~= v.groups.push(group@));
                    assert(self@.links =~= v.links);
                    lemma_created_wf(v, id@, title@, description@, owner);
                }
                Ok(())
            }
        }
    }

    /// Links a channel to a group, adding the member entry and the index entry
    /// together; refused when the group is missing or the channel is already
    /// linked, in which case nothing changes.
    pub fn link_channel(&mut self, group_id: &String, channel: u64, endpoint: u64) -> (r: Result<
        (),
        RegistryError,
    >)
        requires
            old(self).wf(),
        ensures
            final(self).wf(),
            (final(self)@, r) == old(self)@.link_step(group_id@, channel, endpoint),
    {
        let pos = match self.find_group(group_id) {
            None => {
                return Err(RegistryError::NotFound);
            },
            Some(p) => p,
        };
        if self.find_link(channel).is_some() {
            return Err(RegistryError::AlreadyLinked);
        }
        let ghost v = self@;
        proof {
            lemma_group_pos(v, group_id@, pos as int);
        }
        self.groups[pos].members.push((channel, endpoint));
        self.links.push((channel, group_id.clone()));
        proof {
            assert(self@.groups =~= v.groups.update(
                pos as int,
                v.groups[pos as int].with_member(channel, endpoint),
            ));
            assert(self@.links =~= v.links.push((channel, group_id@)));
            lemma_linked_wf(v, group_id@, channel, endpoint);
        }
        Ok(())
    }

    /// The group that the membership index gives for a channel, if any.
    pub fn lookup_group_for_channel(&self, channel: u64) -> (r: Option<String>)
        requires
            self.wf(),
        ensures
            match r {
                Some(id) => self@.group_for(channel) == Some(id@),
                None => self@.group_for(channel) is None,
            },
    {
        match self.find_link(channel) {
            Some(i) => {
                proof {
                    lemma_link_pos(self@, channel, i as int);
                }
                Some(self.links[i].1.clone())
            },
            None => None,
        }
    }

    /// A copy of the group with this id, if there is one.
    pub fn get_group(&self, id: &String) -> (r: Option<Group>)
        requires
            self.wf(),
        ensures
            match r {
                Some(g) => self@.group(id@) == Some(g@),
                None => self@.group(id@) is None,
            },
    {
        match self.find_group(id) {
            Some(i) => {
                proof {
                    lemma_group_pos(self@, id@, i as int);
                }
                Some(self.groups[i].snapshot())
            },
            None => None,
        }
    }

    /// A copy of every group, in creation order.
    pub fn list_groups(&self) -> (r: Vec<Group>)
        ensures
            r@.map_values(|g: Group| g@) == self@.groups,
    {
        let mut out: Vec<Group> = Vec::new();
        let mut i: usize = 0;
        while i < self.groups.len()
            invariant
                i <= self.groups.len(),
                out.len() == i,
                forall|j: int| 0 <= j < i ==> (#[trigger] out@[j])@ == self.groups@[j]@,
            decreases self.groups.len() - i,
        {
            let g = self.groups[i].snapshot();
            out.push(g);
            i = i + 1;
        }
        assert(out@.map_values(|g: Group| g@) =~= self@.groups);
        out
    }

    fn find_group(&self, id: &String) -> (r: Option<usize>)
        ensures
            match r {
                Some(i) => i < self@.groups.len() && self@.groups[i as int].id == id@,
                None => !self@.has_group(id@),
            },
    {
        let mut i: usize = 0;
        while i < self.groups.len()
            invariant
                i <= self.groups.len(),
                forall|j: int| 0 <= j < i ==> self@.groups[j].id != id@,
            decreases self.groups.len() - i,
        {
            if self.groups[i].id == *id {
                return Some(i);
            }
            i = i + 1;
        }
        None
    }

    fn find_link(&self, channel: u64) -> (r: Option<usize>)
        ensures
            match r {
                Some(i) => i < self@.links.len() && self@.links[i as int].0 == channel,
                None => !self@.is_linked(channel),
            },
    {
        let mut i: usize = 0;
        while i < self.links.len()
            invariant
                i <= self.links.len(),
                forall|j: int| 0 <= j < i ==> self@.links[j].0 != channel,
            decreases self.links.len() - i,
        {
            if self.links[i].0 == channel {
                return Some(i);
            }
            i = i + 1;
        }
        None
    }
}

/// In a well-formed registry the position of a group is the one index holding its id.
pub proof fn lemma_group_pos(v: RegistryView, id: Seq<char>, pos: int)
    requires
        v.wf(),
        0 <= pos < v.groups.len(),
        v.groups[pos].id == id,
    ensures
        v.has_group(id),
        v.group_pos(id) == pos,
        v.group(id) == Some(v.groups[pos]),
{
    let p = v.group_pos(id);
    assert(0 <= p < v.groups.len() && v.groups[p].id == id);
    if p != pos {
        if p < pos {
            assert(v.groups[p].id != v.groups[pos].id);
        } else {
            assert(v.groups[pos].id != v.groups[p].id);
        }
    }
}

/// In a well-formed registry the index entry of a channel is the one entry
/// holding that channel.
pub proof fn lemma_link_pos(v: RegistryView, channel: u64, pos: int)
    requires
        v.wf(),
        0 <= pos < v.links.len(),
        v.links[pos].0 == channel,
    ensures
        v.group_for(channel) == Some(v.links[pos].1),
{
    let p = choose|i: int| 0 <= i < v.links.len() && v.links[i].0 == channel;
    assert(0 <= p < v.links.len() && v.links[p].0 == channel);
    if p != pos {
        if p < pos {
            assert(v.links[p].0 != v.links[pos].0);
        } else {
            assert(v.links[pos].0 != v.links[p].0);
        }
    }
}

/// Creating a group under a fresh id keeps the registry well formed.
pub proof fn lemma_created_wf(
    v: RegistryView,
    id: Seq<char>,
    title: Seq<char>,
    description: Seq<char>,
    owner: u64,
)
    requires
        v.wf(),
        !v.has_group(id),
    ensures
        v.created(id, title, description, owner).wf(),
{
    let w = v.created(id, title, description, owner);
    assert forall|i: int, j: int| 0 <= i < j < w.groups.len() implies w.groups[i].id
        != w.groups[j].id by {
        if j == v.groups.len() {
            assert(v.groups[i].id != id);
        }
    }
    assert forall|i: int| 0 <= i < w.links.len() implies #[trigger] w.link_backed(i) by {
        assert(v.link_backed(i));
        let g = choose|g: int|
            0 <= g < v.groups.len() && #[trigger] v.groups[g].id == v.links[i].1
                && v.groups[g].lists_channel(v.links[i].0);
        assert(w.groups[g] == v.groups[g]);
    }
    assert forall|g: int, k: int|
        0 <= g < w.groups.len() && 0 <= k < w.groups[g].members.len() implies #[trigger] w.member_indexed(
        g,
        k,
    ) by {
        assert(w.groups[v.groups.len() as int].members.len() == 0);
        assert(g < v.groups.len());
        assert(w.groups[g] == v.groups[g]);
        assert(v.groups[g].members[k].0 == w.groups[g].members[k].0);
        assert(v.member_indexed(g, k));
        let i = choose|i: int|
            0 <= i < v.links.len() && #[trigger] v.links[i] == (
                v.groups[g].members[k].0,
                v.groups[g].id,
            );
        assert(w.links[i] == v.links[i]);
    }
}

/// Linking a channel that has no index entry into an existing group keeps the
/// registry well formed.
pub proof fn lemma_linked_wf(v: RegistryView, id: Seq<char>, channel: u64, endpoint: u64)
    requires
        v.wf(),
        v.has_group(id),
        !v.is_linked(channel),
    ensures
        v.linked(id, channel, endpoint).wf(),
{
    let w = v.linked(id, channel, endpoint);
    let pos = v.group_pos(id);
    let n = v.links.len() as int;
    assert(0 <= pos < v.groups.len() && v.groups[pos].id == id);
    assert forall|i: int, j: int| 0 <= i < j < w.groups.len() implies w.groups[i].id
        != w.groups[j].id by {
        assert(w.groups[i].id == v.groups[i].id);
        assert(w.groups[j].id == v.groups[j].id);
    }
    assert forall|i: int, j: int| 0 <= i < j < w.links.len() implies w.links[i].0
        != w.links[j].0 by {
        if j == n {
            assert(v.links[i].0 != channel);
        }
    }
    assert forall|i: int| 0 <= i < w.links.len() implies #[trigger] w.link_backed(i) by {
        if i == n {
            let k = v.groups[pos].members.len() as int;
            assert(w.groups[pos].members[k].0 == channel);
            assert(w.groups[pos].id == w.links[i].1);
        } else {
            assert(v.link_backed(i));
            let g = choose|g: int|
                0 <= g < v.groups.len() && #[trigger] v.groups[g].id == v.links[i].1
                    && v.groups[g].lists_channel(v.links[i].0);
            let k = choose|k: int|
                0 <= k < v.groups[g].members.len() && #[trigger] v.groups[g].members[k].0
                    == v.links[i].0;
            assert(w.groups[g].members[k] == v.groups[g].members[k]);
            assert(w.groups[g].id == w.links[i].1);
        }
    }
    assert forall|g: int, k: int|
        0 <= g < w.groups.len() && 0 <= k < w.groups[g].members.len() implies #[trigger] w.member_indexed(
        g,
        k,
    ) by {
        if g == pos && k == v.groups[pos].members.len() {
            assert(w.links[n] == (channel, id));
        } else {
            assert(w.groups[g].members[k] == v.groups[g].members[k]);
            assert(v.groups[g].members[k].0 == w.groups[g].members[k].0);
            assert(v.member_indexed(g, k));
            let i = choose|i: int|
                0 <= i < v.links.len() && #[trigger] v.links[i] == (
                    v.groups[g].members[k].0,
                    v.groups[g].id,
                );
            assert(w.links[i] == v.links[i]);
        }
    }
}

/// Runs creation requests (id, title, description, owner) one after another:
/// the final registry and each request's result.
pub open spec fn run_creates(
    v: RegistryView,
    calls: Seq<(Seq<char>, Seq<char>, Seq<char>, u64)>,
) -> (RegistryView, Seq<Result<(), RegistryError>>)
    decreases calls.len(),
{
    if calls.len() == 0 {
        (v, Seq::empty())
    } else {
        let (w, rs) = run_creates(v, calls.drop_last());
        let c = calls.last();
        let (w2, r) = w.create_step(c.0, c.1, c.2, c.3);
        (w2, rs.push(r))
    }
}

/// Group ids are unique over any run of creations: a request whose id was
/// already requested earlier in the run fails with `AlreadyExists`, so at most
/// one request per id succeeds, and the group that a successful request made is
/// still exactly that fresh group at the end.
pub proof fn lemma_create_unique(v: RegistryView, calls: Seq<(Seq<char>, Seq<char>, Seq<char>, u64)>)
    requires
        v.wf(),
    ensures
        ({
            let (w, rs) = run_creates(v, calls);
            &&& w.wf()
            &&& rs.len() == calls.len()
            &&& forall|i: int, j: int|
                0 <= i < j < calls.len() && calls[i].0 == calls[j].0 ==> rs[j] == Err::<
                    (),
                    RegistryError,
                >(RegistryError::AlreadyExists)
            &&& forall|i: int|
                0 <= i < calls.len() && rs[i] is Ok ==> w.group(calls[i].0) == Some(
                    GroupView::fresh(calls[i].0, calls[i].1, calls[i].2, calls[i].3),
                )
            &&& forall|i: int| 0 <= i < calls.len() ==> w.has_group(#[trigger] calls[i].0)
        }),
    decreases calls.len(),
{
    if calls.len() > 0 {
        let prefix = calls.drop_last();
        lemma_create_unique(v, prefix);
        let (w, rs) = run_creates(v, prefix);
        let n = prefix.len() as int;
        let c = calls.last();
        assert forall|i: int| 0 <= i < n implies calls[i] == prefix[i] by {}
        if w.has_group(c.0) {
        } else {
            let w2 = w.created(c.0, c.1, c.2, c.3);
            lemma_created_wf(w, c.0, c.1, c.2, c.3);
            lemma_group_pos(w2, c.0, w.groups.len() as int);
            assert forall|i: int| 0 <= i < n implies #[trigger] w2.has_group(calls[i].0) && w2.group(
                calls[i].0,
            ) == w.group(calls[i].0) by {
                assert(w.has_group(prefix[i].0));
                let p = w.group_pos(prefix[i].0);
                assert(w2.groups[p] == w.groups[p]);
                lemma_group_pos(w2, prefix[i].0, p);
            }
        }
    }
}

/// A successful link is visible through both reads at once: the index gives
/// the group, and the group lists the (channel, endpoint) pair.
pub proof fn lemma_link_visible(v: RegistryView, id: Seq<char>, channel: u64, endpoint: u64)
    requires
        v.wf(),
        v.link_step(id, channel, endpoint).1 is Ok,
    ensures
        ({
            let w = v.link_step(id, channel, endpoint).0;
            &&& w.group_for(channel) == Some(id)
            &&& w.group(id) is Some
            &&& w.group(id)->0.has_member(channel, endpoint)
        }),
{
    let w = v.linked(id, channel, endpoint);
    let pos = v.group_pos(id);
    lemma_linked_wf(v, id, channel, endpoint);
    lemma_link_pos(w, channel, v.links.len() as int);
    lemma_group_pos(w, id, pos);
    let k = v.groups[pos].members.len() as int;
    assert(w.groups[pos].members[k] == (channel, endpoint));
}

/// In every well-formed registry the two reads agree: the index gives a group
/// for a channel exactly when that group lists the channel, so no state shows
/// one of a link's entries without the other.
pub proof fn lemma_index_matches_members(v: RegistryView, channel: u64, id: Seq<char>)
    requires
        v.wf(),
    ensures
        v.group_for(channel) == Some(id) <==> (v.group(id) is Some && v.group(id)->0.lists_channel(
            channel,
        )),
{
    if v.group_for(channel) == Some(id) {
        let i = choose|i: int| 0 <= i < v.links.len() && v.links[i].0 == channel;
        assert(v.link_backed(i));
        let g = choose|g: int|
            0 <= g < v.groups.len() && #[trigger] v.groups[g].id == v.links[i].1
                && v.groups[g].lists_channel(v.links[i].0);
        lemma_group_pos(v, id, g);
    }
    if v.group(id) is Some && v.group(id)->0.lists_channel(channel) {
        let g = v.group_pos(id);
        let k = choose|k: int|
            0 <= k < v.groups[g].members.len() && #[trigger] v.groups[g].members[k].0 == channel;
        assert(v.member_indexed(g, k));
        let i = choose|i: int|
            0 <= i < v.links.len() && #[trigger] v.links[i] == (
                v.groups[g].members[k].0,
                v.groups[g].id,
            );
        lemma_link_pos(v, channel, i);
    }
}

/// A channel whose index entry and member entry are both visible keeps both
/// through any later creation.
pub proof fn lemma_link_kept_by_create(
    v: RegistryView,
    id: Seq<char>,
    channel: u64,
    endpoint: u64,
    new_id: Seq<char>,
    title: Seq<char>,
    description: Seq<char>,
    owner: u64,
)
    requires
        v.wf(),
        v.group_for(channel) == Some(id),
        v.group(id) is Some,
        v.group(id)->0.has_member(channel, endpoint),
    ensures
        ({
            let w = v.create_step(new_id, title, description, owner).0;
            &&& w.group_for(channel) == Some(id)
            &&& w.group(id) == v.group(id)
        }),
{
    if !v.has_group(new_id) {
        let w = v.created(new_id, title, description, owner);
        lemma_created_wf(v, new_id, title, description, owner);
        let p = v.group_pos(id);
        assert(w.groups[p] == v.groups[p]);
        lemma_group_pos(w, id, p);
        assert(w.links == v.links);
    }
}

/// A channel whose index entry and member entry are both visible keeps both
/// through any later link request, successful or not.
pub proof fn lemma_link_kept_by_link(
    v: RegistryView,
    id: Seq<char>,
    channel: u64,
    endpoint: u64,
    other_id: Seq<char>,
    other_channel: u64,
    other_endpoint: u64,
)
    requires
        v.wf(),
        v.group_for(channel) == Some(id),
        v.group(id) is Some,
        v.group(id)->0.has_member(channel, endpoint),
    ensures
        ({
            let w = v.link_step(other_id, other_channel, other_endpoint).0;
            &&& w.group_for(channel) == Some(id)
            &&& w.group(id) is Some
            &&& w.group(id)->0.has_member(channel, endpoint)
        }),
{
    if v.has_group(other_id) && !v.is_linked(other_channel) {
        let w = v.linked(other_id, other_channel, other_endpoint);
        lemma_linked_wf(v, other_id, other_channel, other_endpoint);
        let i = choose|i: int| 0 <= i < v.links.len() && v.links[i].0 == channel;
        assert(w.links[i] == v.links[i]);
        lemma_link_pos(w, channel, i);
        let p = v.group_pos(id);
        assert(w.groups[p].id == v.groups[p].id);
        lemma_group_pos(w, id, p);
        let k = choose|k: int|
            0 <= k < v.groups[p].members.len() && v.groups[p].members[k] == (channel, endpoint);
        assert(w.groups[p].members[k] == (channel, endpoint));
    }
}

/// Listing twice with no write in between gives equal snapshots: a listing is
/// a function of the registry's value alone.
pub proof fn lemma_listing_repeatable(v: RegistryView, first: Seq<Group>, second: Seq<Group>)
    requires
        first.map_values(|g: Group| g@) == v.groups,
        second.map_values(|g: Group| g@) == v.groups,
    ensures
        first.map_values(|g: Group| g@) == second.map_values(|g: Group| g@),
{
}

} // verus!
