//! The machine-readable report of hosts and extensions: what `extension list
//! --json` prints, as values.

use vstd::prelude::*;

use crate::hosts::{host_values, ExtensionHost};
use crate::listing::{ListedExtension, Listing};
use crate::registration::{
    plugin_enabled, plugin_hook_names, str_views, AnalyzerPlugin, LinterRule,
};

verus! {

/// One enabled host in the report.
#[derive(Debug)]
pub struct HostReport<'a> {
    pub host: &'a str,
    /// Whether the pool grows and shrinks with demand.
    pub adaptive: bool,
    /// The number of workers, or the most an adaptive pool grows to.
    pub workers: usize,
}

/// One analyzer plugin in the report, with whether it runs and its hooks.
#[derive(Debug)]
pub struct PluginReport<'a> {
    pub plugin: &'a AnalyzerPlugin,
    pub enabled: bool,
    pub hooks: Vec<&'static str>,
}

/// One extension in the report.
#[derive(Debug)]
pub struct ExtensionReport<'a> {
    pub identifier: &'a str,
    pub name: &'a str,
    pub version: &'a str,
    pub linter_rules: &'a [LinterRule],
    pub analyzer_plugins: Vec<PluginReport<'a>>,
}

/// The whole report: the hosts, then the extensions.
#[derive(Debug)]
pub struct ListingReport<'a> {
    pub hosts: Vec<HostReport<'a>>,
    pub extensions: Vec<ExtensionReport<'a>>,
}

/// Whether `report` describes `host`.
pub open spec fn is_host_report(report: HostReport, host: ExtensionHost) -> bool {
    &&& report.host@ == host.name@
    &&& report.adaptive == (host.workers == 0)
    &&& report.workers == host.worker_count
}

/// Whether `report` describes `plugin` under the given selection.
pub open spec fn is_plugin_report(
    report: PluginReport,
    plugin: AnalyzerPlugin,
    enabled_plugins: Seq<String>,
    disable_defaults: bool,
) -> bool {
    &&& *report.plugin == plugin
    &&& report.enabled == plugin_enabled(plugin, enabled_plugins, disable_defaults)
    &&& str_views(report.hooks@) == plugin_hook_names(plugin)
}

/// Whether `report` describes the listed extension `entry`.
pub open spec fn is_extension_report(
    report: ExtensionReport,
    entry: ListedExtension,
    enabled_plugins: Seq<String>,
    disable_defaults: bool,
) -> bool {
    &&& report.identifier@ == entry.identifier@
    &&& report.name@ == entry.name@
    &&& report.version@ == entry.version@
    &&& report.linter_rules@ == entry.rules@
    &&& report.analyzer_plugins@.len() == entry.plugins@.len()
    &&& forall|k: int|
        0 <= k < entry.plugins@.len() ==> is_plugin_report(
            #[trigger] report.analyzer_plugins@[k],
            entry.plugins@[k],
            enabled_plugins,
            disable_defaults,
        )
}

/// Whether `report` describes, in order, every host and every extension.
pub open spec fn is_listing_report(
    report: ListingReport,
    hosts: Seq<ExtensionHost>,
    entries: Seq<ListedExtension>,
    enabled_plugins: Seq<String>,
    disable_defaults: bool,
) -> bool {
    &&& report.hosts@.len() == hosts.len()
    &&& forall|i: int| 0 <= i < hosts.len() ==> is_host_report(#[trigger] report.hosts@[i], hosts[i])
    &&& report.extensions@.len() == entries.len()
    &&& forall|x: int|
        0 <= x < entries.len() ==> is_extension_report(
            #[trigger] report.extensions@[x],
            entries[x],
            enabled_plugins,
            disable_defaults,
        )
}

fn extension_report<'a>(
    entry: &ListedExtension<'a>,
    enabled_plugins: &[String],
    disable_defaults: bool,
) -> (report: ExtensionReport<'a>)
    ensures
        is_extension_report(report, *entry, enabled_plugins@, disable_defaults),
{
    let mut plugins: Vec<PluginReport<'a>> = Vec::new();
    let mut k: usize = 0;
    while k < entry.plugins.len()
        invariant
            k <= entry.plugins@.len(),
            plugins@.len() == k,
            forall|m: int|
                0 <= m < k ==> is_plugin_report(
                    #[trigger] plugins@[m],
                    entry.plugins@[m],
                    enabled_plugins@,
                    disable_defaults,
                ),
        decreases entry.plugins@.len() - k,
    {
        let plugin: &'a AnalyzerPlugin = &entry.plugins[k];
        let enabled = plugin.is_enabled_by(enabled_plugins, disable_defaults);
        let hooks = plugin.hooks();
        plugins.push(PluginReport { plugin, enabled, hooks });
        k = k + 1;
    }
    ExtensionReport {
        identifier: entry.identifier,
        name: entry.name,
        version: entry.version,
        linter_rules: entry.rules,
        analyzer_plugins: plugins,
    }
}

/// The report that `extension list --json` prints: every enabled host with
/// whether its pool is adaptive and its worker count, then every extension
/// with its rules and its plugins, each plugin with whether it runs under the
/// selection and which hooks it implements.
pub fn list_report<'a>(
    enabled_hosts: &[&'a ExtensionHost],
    listed: &Listing<'a>,
    enabled_plugins: &[String],
    disable_defaults: bool,
) -> (report: ListingReport<'a>)
    ensures
        is_listing_report(
            report,
            host_values(enabled_hosts@),
            listed.view(),
            enabled_plugins@,
            disable_defaults,
        ),
{
    let mut hosts: Vec<HostReport<'a>> = Vec::new();
    let mut i: usize = 0;
    while i < enabled_hosts.len()
        invariant
            i <= enabled_hosts@.len(),
            hosts@.len() == i,
            forall|m: int| 0 <= m < i ==> is_host_report(#[trigger] hosts@[m], *enabled_hosts@[m]),
        decreases enabled_hosts@.len() - i,
    {
        let host: &'a ExtensionHost = enabled_hosts[i];
        hosts.push(
            HostReport {
                host: host.name.as_str(),
                adaptive: host.workers == 0,
                workers: host.worker_count,
            },
        );
        i = i + 1;
    }
    let entries = listed.entries();
    let mut extensions: Vec<ExtensionReport<'a>> = Vec::new();
    let mut x: usize = 0;
    while x < entries.len()
        invariant
            entries@ == listed.view(),
            x <= entries@.len(),
            extensions@.len() == x,
            forall|m: int|
                0 <= m < x ==> is_extension_report(
                    #[trigger] extensions@[m],
                    entries@[m],
                    enabled_plugins@,
                    disable_defaults,
                ),
        decreases entries@.len() - x,
    {
        extensions.push(extension_report(&entries[x], enabled_plugins, disable_defaults));
        x = x + 1;
    }
    ListingReport { hosts, extensions }
}

} // verus!
