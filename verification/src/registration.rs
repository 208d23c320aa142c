//! What an extension host registers: linter rules and analyzer plugins, each
//! grouped under the extension that advertises it.

use vstd::prelude::*;

use crate::text::{ascii_lowercase, eq_ignore_ascii_case};

verus! {

/// Severity assigned to the issues that a linter rule reports.
#[derive(PartialEq, Eq, Structural, Clone, Copy, Debug)]
pub enum Severity {
    Note,
    Help,
    Warning,
    Error,
}

/// The lowercase name under which a severity is displayed.
pub open spec fn severity_name(level: Severity) -> Seq<char> {
    match level {
        Severity::Note => "note"@,
        Severity::Help => "help"@,
        Severity::Warning => "warning"@,
        Severity::Error => "error"@,
    }
}

impl Severity {
    /// The lowercase display name: `note`, `help`, `warning` or `error`.
    pub fn name(&self) -> (name: &'static str)
        ensures
            name@ == severity_name(*self),
    {
        match self {
            Severity::Note => "note",
            Severity::Help => "help",
            Severity::Warning => "warning",
            Severity::Error => "error",
        }
    }
}

/// Metadata advertised for one linter rule.
#[derive(Debug)]
pub struct LinterRule {
    /// Globally unique issue code reported by the rule.
    pub code: String,
    /// Human-readable rule name.
    pub name: String,
    /// Short rule description.
    pub description: String,
    /// Severity assigned to issues reported by this rule.
    pub default_level: Severity,
    /// Whether the rule runs when no filter selects rules.
    pub default_enabled: bool,
    /// The syntax node kinds the rule subscribes to, by name.
    pub targets: Vec<String>,
}

/// The linter registration of one extension.
#[derive(Debug)]
pub struct LinterExtension {
    pub identifier: String,
    pub name: String,
    pub version: String,
    pub rules: Vec<LinterRule>,
}

/// Metadata advertised for one analyzer plugin.
#[derive(Debug)]
pub struct AnalyzerPlugin {
    pub identifier: String,
    pub name: String,
    pub description: String,
    /// Other names under which the plugin can be selected.
    pub aliases: Vec<String>,
    /// Whether the plugin runs unless defaults are disabled.
    pub default_enabled: bool,
    pub initialization: bool,
    pub before_analysis: bool,
    pub after_file_analysis: bool,
    pub node_analysis: bool,
    pub after_analysis: bool,
}

/// The analyzer registration of one extension.
#[derive(Debug)]
pub struct AnalyzerExtension {
    pub identifier: String,
    pub name: String,
    pub version: String,
    pub plugins: Vec<AnalyzerPlugin>,
}

/// Whether `selector` names the plugin, by identifier or by alias, ignoring
/// ASCII case.
pub open spec fn plugin_matches(plugin: AnalyzerPlugin, selector: Seq<char>) -> bool {
    ||| ascii_lowercase(plugin.identifier@) == ascii_lowercase(selector)
    ||| exists|i: int|
        0 <= i < plugin.aliases@.len() && ascii_lowercase(#[trigger] plugin.aliases@[i]@)
            == ascii_lowercase(selector)
}

/// Whether the plugin runs: some selector in `enabled_plugins` names it, or
/// it runs by default and defaults are not disabled.
pub open spec fn plugin_enabled(
    plugin: AnalyzerPlugin,
    enabled_plugins: Seq<String>,
    disable_defaults: bool,
) -> bool {
    ||| exists|j: int|
        0 <= j < enabled_plugins.len() && plugin_matches(plugin, #[trigger] enabled_plugins[j]@)
    ||| !disable_defaults && plugin.default_enabled
}

/// `seq![name]` where `present`, else the empty sequence.
pub open spec fn hook_if(present: bool, name: Seq<char>) -> Seq<Seq<char>> {
    if present {
        seq![name]
    } else {
        Seq::empty()
    }
}

/// The names of the hooks that the plugin implements, in lifecycle order.
pub open spec fn plugin_hook_names(plugin: AnalyzerPlugin) -> Seq<Seq<char>> {
    hook_if(plugin.initialization, "initialization"@) + hook_if(
        plugin.before_analysis,
        "before-analysis"@,
    ) + hook_if(plugin.after_file_analysis, "after-file-analysis"@) + hook_if(
        plugin.node_analysis,
        "node-analysis"@,
    ) + hook_if(plugin.after_analysis, "after-analysis"@)
}

/// The texts of a sequence of string slices.
pub open spec fn str_views(names: Seq<&str>) -> Seq<Seq<char>> {
    names.map_values(|name: &str| name@)
}

fn push_hook(hooks: &mut Vec<&'static str>, present: bool, name: &'static str)
    ensures
        str_views(final(hooks)@) == str_views(old(hooks)@) + hook_if(present, name@),
{
    if present {
        hooks.push(name);
        assert(str_views(hooks@) =~= str_views(old(hooks)@) + hook_if(present, name@));
    } else {
        assert(str_views(hooks@) =~= str_views(old(hooks)@) + hook_if(present, name@));
    }
}

impl AnalyzerPlugin {
    /// Whether `selector` names this plugin, by identifier or alias, ignoring
    /// ASCII case.
    pub fn matches(&self, selector: &str) -> (found: bool)
        ensures
            found == plugin_matches(*self, selector@),
    {
        if eq_ignore_ascii_case(self.identifier.as_str(), selector) {
            return true;
        }
        let mut i: usize = 0;
        while i < self.aliases.len()
            invariant
                i <= self.aliases@.len(),
                ascii_lowercase(self.identifier@) != ascii_lowercase(selector@),
                forall|k: int|
                    0 <= k < i ==> ascii_lowercase(#[trigger] self.aliases@[k]@)
                        != ascii_lowercase(selector@),
            decreases self.aliases@.len() - i,
        {
            if eq_ignore_ascii_case(self.aliases[i].as_str(), selector) {
                return true;
            }
            i = i + 1;
        }
        false
    }

    /// Whether the plugin runs under the given selection: named by one of
    /// `enabled_plugins`, or enabled by default while defaults are on.
    pub fn is_enabled_by(&self, enabled_plugins: &[String], disable_defaults: bool) -> (enabled:
        bool)
        ensures
            enabled == plugin_enabled(*self, enabled_plugins@, disable_defaults),
    {
        let mut j: usize = 0;
        while j < enabled_plugins.len()
            invariant
                j <= enabled_plugins@.len(),
                forall|k: int|
                    0 <= k < j ==> !plugin_matches(*self, #[trigger] enabled_plugins@[k]@),
            decreases enabled_plugins@.len() - j,
        {
            if self.matches(enabled_plugins[j].as_str()) {
                return true;
            }
            j = j + 1;
        }
        !disable_defaults && self.default_enabled
    }

    /// The names of the hooks this plugin implements, in lifecycle order.
    pub fn hooks(&self) -> (hooks: Vec<&'static str>)
        ensures
            str_views(hooks@) == plugin_hook_names(*self),
    {
        let mut hooks: Vec<&'static str> = Vec::new();
        assert(str_views(hooks@) =~= Seq::empty());
        push_hook(&mut hooks, self.initialization, "initialization");
        push_hook(&mut hooks, self.before_analysis, "before-analysis");
        push_hook(&mut hooks, self.after_file_analysis, "after-file-analysis");
        push_hook(&mut hooks, self.node_analysis, "node-analysis");
        push_hook(&mut hooks, self.after_analysis, "after-analysis");
        assert(str_views(hooks@) =~= plugin_hook_names(*self));
        hooks
    }
}

} // verus!
