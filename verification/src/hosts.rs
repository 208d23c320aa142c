//! Extension hosts as configured, and what starting their worker pools asks
//! for.

use vstd::prelude::*;

use crate::text::push_str;

verus! {

/// One configured extension host, with what the configuration resolved for
/// it.
#[derive(Debug)]
pub struct ExtensionHost {
    /// The host's name: its key in the configuration.
    pub name: String,
    /// Whether the host is started at all.
    pub enabled: bool,
    /// The configured number of workers; `0` asks for an adaptive pool.
    pub workers: usize,
    /// The number of workers the pool gets, or may grow to when adaptive.
    pub worker_count: usize,
    /// Whether the host has a command to start its workers with.
    pub has_command: bool,
}

/// The enabled hosts of `hosts`, in order.
pub open spec fn enabled_only(hosts: Seq<ExtensionHost>) -> Seq<ExtensionHost>
    decreases hosts.len(),
{
    if hosts.len() == 0 {
        Seq::empty()
    } else if hosts.last().enabled {
        enabled_only(hosts.drop_last()).push(hosts.last())
    } else {
        enabled_only(hosts.drop_last())
    }
}

/// The hosts that references point at.
pub open spec fn host_values(hosts: Seq<&ExtensionHost>) -> Seq<ExtensionHost> {
    hosts.map_values(|host: &ExtensionHost| *host)
}

/// The enabled hosts, in configuration order.
pub fn enabled_hosts(hosts: &[ExtensionHost]) -> (enabled: Vec<&ExtensionHost>)
    ensures
        host_values(enabled@) == enabled_only(hosts@),
{
    let mut enabled: Vec<&ExtensionHost> = Vec::new();
    let mut i: usize = 0;
    assert(hosts@.take(0) =~= Seq::<ExtensionHost>::empty());
    assert(host_values(enabled@) =~= Seq::<ExtensionHost>::empty());
    while i < hosts.len()
        invariant
            i <= hosts@.len(),
            host_values(enabled@) == enabled_only(hosts@.take(i as int)),
        decreases hosts@.len() - i,
    {
        assert(hosts@.take(i + 1).drop_last() =~= hosts@.take(i as int));
        assert(hosts@.take(i + 1).last() == hosts@[i as int]);
        let host = &hosts[i];
        if host.enabled {
            let ghost before = enabled@;
            enabled.push(host);
            assert(host_values(enabled@) =~= host_values(before).push(*host));
        }
        i = i + 1;
    }
    assert(hosts@.take(hosts@.len() as int) =~= hosts@);
    enabled
}

/// Whether any host is enabled.
pub fn has_enabled_host(hosts: &[ExtensionHost]) -> (any: bool)
    ensures
        any == exists|i: int| 0 <= i < hosts@.len() && (#[trigger] hosts@[i]).enabled,
{
    let mut i: usize = 0;
    while i < hosts.len()
        invariant
            i <= hosts@.len(),
            forall|k: int| 0 <= k < i ==> !(#[trigger] hosts@[k]).enabled,
        decreases hosts@.len() - i,
    {
        if hosts[i].enabled {
            return true;
        }
        i = i + 1;
    }
    false
}

/// What to do for one host when starting the extension pools.
#[derive(Debug)]
pub enum PoolStart {
    /// The host is disabled: start nothing.
    Skip,
    /// The host is enabled but has no command: fail with this message.
    MissingCommand(String),
    /// Start a pool of `size` workers; an adaptive pool grows up to `size`.
    Spawn { size: usize, adaptive: bool },
}

/// The message for an enabled host without a command.
pub open spec fn missing_command_message(name: Seq<char>) -> Seq<char> {
    "enabled extension host `"@ + name + "` has no command"@
}

/// What starting the pools does for `host`: nothing for a disabled host, an
/// error for an enabled host without a command, else a pool of the resolved
/// size, adaptive when no fixed worker count is configured.
pub fn plan_pool_start(host: &ExtensionHost) -> (start: PoolStart)
    ensures
        !host.enabled ==> start is Skip,
        host.enabled && !host.has_command ==> (start matches PoolStart::MissingCommand(message)
            && message@ == missing_command_message(host.name@)),
        host.enabled && host.has_command ==> start == (PoolStart::Spawn {
            size: host.worker_count,
            adaptive: host.workers == 0,
        }),
{
    if !host.enabled {
        PoolStart::Skip
    } else if !host.has_command {
        let mut message = String::new();
        push_str(&mut message, "enabled extension host `");
        push_str(&mut message, host.name.as_str());
        push_str(&mut message, "` has no command");
        PoolStart::MissingCommand(message)
    } else {
        PoolStart::Spawn { size: host.worker_count, adaptive: host.workers == 0 }
    }
}

} // verus!
