use vstd::prelude::*;

use crate::registry::{Group, Registry, RegistryError, RegistryView};

verus! {

/// An administrator's request, with its options already read.
pub enum Command {
    /// Create a group.
    Create { id: String, title: String, description: String },
    /// Link a channel to a group.
    Link { group_id: String, channel: u64 },
    /// List every group.
    List,
    /// A request this relay does not know.
    Unknown,
}

/// Who sent a command, and from where.
pub struct Caller {
    pub user: u64,
    /// The command came from a server, not from a direct message.
    pub in_guild: bool,
    /// The caller may manage the server's channels.
    pub may_manage_channels: bool,
}

/// The answer shown to the caller.
pub enum Reply {
    ServerOnly,
    InsufficientPermission,
    GroupNotFound(String),
    AlreadyLinked(u64),
    NameTaken(String),
    Created(String),
    Linked { channel: u64, group_id: String },
    Listing(Vec<Group>),
    Unknown,
}

/// What to do next with a command.
pub enum Step {
    /// Answer the caller; the command is done.
    Answer(Reply),
    /// Create a delivery endpoint in `channel`, then finish with `complete_link`.
    ProvisionEndpoint { group_id: String, channel: u64 },
}

/// The answer to a creation, given the registry's result.
pub open spec fn create_reply(id: String, res: Result<(), RegistryError>) -> Reply {
    match res {
        Ok(_) => Reply::Created(id),
        Err(_) => Reply::NameTaken(id),
    }
}

/// The answer to a link, given the registry's result.
pub open spec fn link_reply(group_id: String, channel: u64, res: Result<(), RegistryError>) -> Reply {
    match res {
        Ok(_) => Reply::Linked { channel, group_id },
        Err(RegistryError::AlreadyLinked) => Reply::AlreadyLinked(channel),
        Err(_) => Reply::GroupNotFound(group_id),
    }
}

/// What a link request asks for before any endpoint exists.
pub open spec fn link_step_of(v: RegistryView, group_id: String, channel: u64, may_manage_channels: bool) -> Step {
    if !may_manage_channels {
        Step::Answer(Reply::InsufficientPermission)
    } else if !v.has_group(group_id@) {
        Step::Answer(Reply::GroupNotFound(group_id))
    } else if v.is_linked(channel) {
        Step::Answer(Reply::AlreadyLinked(channel))
    } else {
        Step::ProvisionEndpoint { group_id, channel }
    }
}

/// Decides a command against the registry. Only a creation writes to it; a
/// link that passes its checks asks for a delivery endpoint first, and
/// `complete_link` writes it.
pub fn handle_command(registry: &mut Registry, command: Command, caller: &Caller) -> (r: Step)
    requires
        old(registry).wf(),
    ensures
        final(registry).wf(),
        !caller.in_guild ==> r == Step::Answer(Reply::ServerOnly) && final(registry)@ == old(
            registry,
        )@,
        caller.in_guild ==> match command {
            Command::Create { id, title, description } => {
                let (w, res) = old(registry)@.create_step(id@, title@, description@, caller.user);
                final(registry)@ == w && r == Step::Answer(create_reply(id, res))
            },
            Command::Link { group_id, channel } => final(registry)@ == old(registry)@ && r
                == link_step_of(old(registry)@, group_id, channel, caller.may_manage_channels),
            Command::List => final(registry)@ == old(registry)@ && match r {
                Step::Answer(Reply::Listing(gs)) => gs@.map_values(|g: Group| g@) == old(
                    registry,
                )@.groups,
                _ => false,
            },
            Command::Unknown => final(registry)@ == old(registry)@ && r == Step::Answer(
                Reply::Unknown,
            ),
        },
{
    if !caller.in_guild {
        return Step::Answer(Reply::ServerOnly);
    }
    match command {
        Command::Create { id, title, description } => {
            let res = registry.create_group(id.clone(), title, description, caller.user);
            match res {
                Ok(_) => Step::Answer(Reply::Created(id)),
                Err(_) => Step::Answer(Reply::NameTaken(id)),
            }
        },
        Command::Link { group_id, channel } => {
            if !caller.may_manage_channels {
                Step::Answer(Reply::InsufficientPermission)
            } else if registry.get_group(&group_id).is_none() {
                Step::Answer(Reply::GroupNotFound(group_id))
            } else if registry.lookup_group_for_channel(channel).is_some() {
                Step::Answer(Reply::AlreadyLinked(channel))
            } else {
                Step::ProvisionEndpoint { group_id, channel }
            }
        },
        Command::List => Step::Answer(Reply::Listing(registry.list_groups())),
        Command::Unknown => Step::Answer(Reply::Unknown),
    }
}

/// Finishes a link once the channel's delivery endpoint exists: the registry
/// records it, or refuses when the group is gone or the channel got linked
/// meanwhile.
pub fn complete_link(registry: &mut Registry, group_id: String, channel: u64, endpoint: u64) -> (r:
    Reply)
    requires
        old(registry).wf(),
    ensures
        final(registry).wf(),
        ({
            let (w, res) = old(registry)@.link_step(group_id@, channel, endpoint);
            final(registry)@ == w && r == link_reply(group_id, channel, res)
        }),
{
    let res = registry.link_channel(&group_id, channel, endpoint);
    match res {
        Ok(_) => Reply::Linked { channel, group_id },
        Err(RegistryError::AlreadyLinked) => Reply::AlreadyLinked(channel),
        Err(_) => Reply::GroupNotFound(group_id),
    }
}

} // verus!
