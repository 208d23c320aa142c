//! The `extension` command: what it answers for each of its subcommands.

use vstd::prelude::*;

use crate::hosts::{enabled_hosts, enabled_only, ExtensionHost};
use crate::listing::{
    analyzer_plugin_count, counts_kept, is_join, join_registrations, linter_rule_count,
    listed_plugin_count, listed_rule_count, sum_of, ListedExtension,
};
use crate::registration::{AnalyzerExtension, LinterExtension};
use crate::render::{render_list, rendered_list};
use crate::report::{is_listing_report, list_report, ListingReport};
use crate::text::{decimal, push_decimal, push_str};

verus! {

/// What the `extension` command was asked to do.
pub enum ExtensionSubcommand {
    /// List configured extensions, the linter rules and the analyzer plugins
    /// they expose; `json` asks for the machine-readable report.
    List { json: bool },
    /// Start every configured host and validate its registration.
    Validate,
}

/// Manage external extensions configured for this workspace.
pub struct ExtensionCommand {
    pub command: ExtensionSubcommand,
}

/// What the command prints.
#[derive(Debug)]
pub enum CommandOutput<'a> {
    /// Text, printed as it stands.
    Text(String),
    /// A report, printed as pretty JSON.
    Report(ListingReport<'a>),
}

/// The answer when no extension host is enabled.
pub open spec fn nothing_configured_text() -> Seq<char> {
    "No external extensions are configured.\n"@
}

/// The answer of a successful validation.
pub open spec fn validation_text(extensions: nat, hosts: nat, rules: nat, plugins: nat) -> Seq<
    char,
> {
    "Validated "@ + decimal(extensions) + " extension(s) from "@ + decimal(hosts)
        + " host(s): "@ + decimal(rules) + " linter rule(s), "@ + decimal(plugins)
        + " analyzer plugin(s).\n"@
}

/// Whether `output` is what the command answers once the registrations have
/// been joined into `entries`.
pub open spec fn answers_with(
    command: ExtensionSubcommand,
    output: CommandOutput,
    hosts: Seq<ExtensionHost>,
    entries: Seq<ListedExtension>,
    enabled_plugins: Seq<String>,
    disable_defaults: bool,
) -> bool {
    match command {
        ExtensionSubcommand::List { json } => if json {
            output matches CommandOutput::Report(report) && is_listing_report(
                report,
                enabled_only(hosts),
                entries,
                enabled_plugins,
                disable_defaults,
            )
        } else {
            output matches CommandOutput::Text(text) && text@ == rendered_list(
                enabled_only(hosts),
                entries,
                enabled_plugins,
                disable_defaults,
            )
        },
        ExtensionSubcommand::Validate => output matches CommandOutput::Text(text) && text@
            == validation_text(
            entries.len(),
            enabled_only(hosts).len(),
            sum_of(entries, listed_rule_count()),
            sum_of(entries, listed_plugin_count()),
        ),
    }
}

/// Whether `output` is what the command answers when no host is enabled.
pub open spec fn answers_unconfigured(command: ExtensionSubcommand, output: CommandOutput) -> bool {
    match command {
        ExtensionSubcommand::List { json } => if json {
            output matches CommandOutput::Report(report) && report.hosts@.len() == 0
                && report.extensions@.len() == 0
        } else {
            output matches CommandOutput::Text(text) && text@ == nothing_configured_text()
        },
        ExtensionSubcommand::Validate => output matches CommandOutput::Text(text) && text@
            == nothing_configured_text(),
    }
}

fn nothing_configured() -> (text: String)
    ensures
        text@ == nothing_configured_text(),
{
    let mut text = String::new();
    push_str(&mut text, "No external extensions are configured.\n");
    assert(text@ =~= nothing_configured_text());
    text
}

impl ExtensionCommand {
    /// What the command prints, given the configured hosts and, where some
    /// host is enabled, the linter and analyzer registrations that the hosts
    /// made (`None` where no host is enabled).
    ///
    /// `list` joins the registrations by extension identifier and renders
    /// them, as text or as a report; `validate` counts the extensions, the
    /// enabled hosts, the rules and the plugins.
    pub fn execute<'a>(
        &self,
        hosts: &'a [ExtensionHost],
        registrations: Option<(&'a [LinterExtension], &'a [AnalyzerExtension])>,
        enabled_plugins: &[String],
        disable_defaults: bool,
    ) -> (output: CommandOutput<'a>)
        requires
            registrations matches Some((linter, analyzer)) ==> sum_of(
                linter@,
                linter_rule_count(),
            ) <= usize::MAX && sum_of(analyzer@, analyzer_plugin_count()) <= usize::MAX,
        ensures
            registrations is None ==> answers_unconfigured(self.command, output),
            registrations matches Some((linter, analyzer)) ==> exists|
                entries: Seq<ListedExtension<'a>>,
            |
                #![trigger is_join(entries, linter@, analyzer@)]
                is_join(entries, linter@, analyzer@) && counts_kept(entries, linter@, analyzer@)
                    && answers_with(
                    self.command,
                    output,
                    hosts@,
                    entries,
                    enabled_plugins@,
                    disable_defaults,
                ),
    {
        let enabled = enabled_hosts(hosts);
        match registrations {
            None => match self.command {
                ExtensionSubcommand::List { json } => {
                    if json {
                        CommandOutput::Report(
                            ListingReport { hosts: Vec::new(), extensions: Vec::new() },
                        )
                    } else {
                        CommandOutput::Text(nothing_configured())
                    }
                },
                ExtensionSubcommand::Validate => CommandOutput::Text(nothing_configured()),
            },
            Some((linter, analyzer)) => {
                let listed = join_registrations(linter, analyzer);
                let output = match self.command {
                    ExtensionSubcommand::List { json } => {
                        if json {
                            CommandOutput::Report(
                                list_report(
                                    enabled.as_slice(),
                                    &listed,
                                    enabled_plugins,
                                    disable_defaults,
                                ),
                            )
                        } else {
                            CommandOutput::Text(
                                render_list(
                                    enabled.as_slice(),
                                    &listed,
                                    enabled_plugins,
                                    disable_defaults,
                                ),
                            )
                        }
                    },
                    ExtensionSubcommand::Validate => {
                        let rules = listed.total_rules();
                        let plugins = listed.total_plugins();
                        let mut text = String::new();
                        push_str(&mut text, "Validated ");
                        push_decimal(&mut text, listed.len());
                        push_str(&mut text, " extension(s) from ");
                        push_decimal(&mut text, enabled.len());
                        push_str(&mut text, " host(s): ");
                        push_decimal(&mut text, rules);
                        push_str(&mut text, " linter rule(s), ");
                        push_decimal(&mut text, plugins);
                        push_str(&mut text, " analyzer plugin(s).\n");
                        proof {
                            assert(enabled@.len() == enabled_only(hosts@).len());
                            assert(text@ =~= validation_text(
                                listed.view().len(),
                                enabled_only(hosts@).len(),
                                sum_of(listed.view(), listed_rule_count()),
                                sum_of(listed.view(), listed_plugin_count()),
                            ));
                        }
                        CommandOutput::Text(text)
                    },
                };
                assert(answers_with(
                    self.command,
                    output,
                    hosts@,
                    listed.view(),
                    enabled_plugins@,
                    disable_defaults,
                ));
                output
            },
        }
    }
}

} // verus!
