//! Properties of the library as a whole.

use vstd::prelude::*;

use crate::command::{answers_with, validation_text, ExtensionSubcommand, CommandOutput};
use crate::hosts::{enabled_only, ExtensionHost};
use crate::registration::Severity;
use crate::listing::{
    analyzer_ids_unique, analyzer_plugin_count, counts_kept, is_join, is_joined_entry,
    is_registered, last_analyzer_index, last_linter_index, linter_ids_unique, linter_rule_count,
    sum_of, ListedExtension,
};
use crate::registration::{
    hook_if, plugin_enabled, plugin_hook_names, plugin_matches, severity_name, AnalyzerExtension,
    AnalyzerPlugin, LinterExtension, LinterRule,
};
use crate::render::{
    extension_block, extension_blocks, host_line, host_lines, lemma_flatten_push, plugin_line,
    plugin_lines, plugin_state, rendered_list, rule_line, rule_lines,
};
use crate::hosts::missing_command_message;
use crate::report::{is_listing_report, ListingReport};
use crate::text::{ascii_lowercase, decimal, digit_char, text_less};

verus! {

/// An extension that registers analyzer plugins and no linter rules is
/// listed all the same: once, with no rules, and with the plugins, name and
/// version of its last analyzer registration.
pub proof fn law_analyzer_only_extension_is_listed(
    entries: Seq<ListedExtension>,
    linter: Seq<LinterExtension>,
    analyzer: Seq<AnalyzerExtension>,
    j: int,
)
    requires
        is_join(entries, linter, analyzer),
        0 <= j < analyzer.len(),
        last_linter_index(linter, analyzer[j].identifier@) is None,
        last_analyzer_index(analyzer, analyzer[j].identifier@) == Some(j),
    ensures
        exists|x: int|
            0 <= x < entries.len() && (#[trigger] entries[x]).identifier@ == analyzer[j].identifier@
                && entries[x].rules@.len() == 0 && entries[x].plugins@ == analyzer[j].plugins@
                && entries[x].name@ == analyzer[j].name@ && entries[x].version@
                == analyzer[j].version@,
{
    let id = analyzer[j].identifier@;
    assert(is_registered(linter, analyzer, id));
    let x = choose|x: int| 0 <= x < entries.len() && (#[trigger] entries[x].identifier@) == id;
    assert(is_joined_entry(entries[x], linter, analyzer));
}

/// Every listed extension is registered, and every registered one is listed.
pub proof fn law_listed_exactly_the_registered(
    entries: Seq<ListedExtension>,
    linter: Seq<LinterExtension>,
    analyzer: Seq<AnalyzerExtension>,
    id: Seq<char>,
)
    requires
        is_join(entries, linter, analyzer),
    ensures
        is_registered(linter, analyzer, id) <==> exists|x: int|
            0 <= x < entries.len() && (#[trigger] entries[x]).identifier@ == id,
{
    if exists|x: int| 0 <= x < entries.len() && (#[trigger] entries[x]).identifier@ == id {
        let x = choose|x: int| 0 <= x < entries.len() && (#[trigger] entries[x]).identifier@ == id;
        assert(is_joined_entry(entries[x], linter, analyzer));
    }
}

/// Where no two registrations of a kind share an identifier, `validate`
/// counts every rule and every plugin that the registrations advertise.
pub proof fn law_validation_counts_every_rule_and_plugin(
    output: CommandOutput,
    hosts: Seq<ExtensionHost>,
    entries: Seq<ListedExtension>,
    linter: Seq<LinterExtension>,
    analyzer: Seq<AnalyzerExtension>,
    enabled_plugins: Seq<String>,
    disable_defaults: bool,
)
    requires
        counts_kept(entries, linter, analyzer),
        answers_with(
            ExtensionSubcommand::Validate,
            output,
            hosts,
            entries,
            enabled_plugins,
            disable_defaults,
        ),
        linter_ids_unique(linter),
        analyzer_ids_unique(analyzer),
    ensures
        output matches CommandOutput::Text(text) && text@ == validation_text(
            entries.len(),
            enabled_only(hosts).len(),
            sum_of(linter, linter_rule_count()),
            sum_of(analyzer, analyzer_plugin_count()),
        ),
{
}

/// A plugin that a selector names, by identifier or alias and in any ASCII
/// case, runs whether or not defaults are disabled.
pub proof fn law_selected_plugin_runs(
    plugin: AnalyzerPlugin,
    enabled_plugins: Seq<String>,
    disable_defaults: bool,
    j: int,
)
    requires
        0 <= j < enabled_plugins.len(),
        plugin_matches(plugin, enabled_plugins[j]@),
    ensures
        plugin_enabled(plugin, enabled_plugins, disable_defaults),
{
}

/// Selectors match regardless of ASCII case.
pub proof fn law_selection_ignores_ascii_case(
    plugin: AnalyzerPlugin,
    selector: Seq<char>,
    other: Seq<char>,
)
    requires
        ascii_lowercase(selector) == ascii_lowercase(other),
    ensures
        plugin_matches(plugin, selector) == plugin_matches(plugin, other),
{
}

/// Disabling defaults turns off exactly the plugins that run only by
/// default: with defaults disabled a plugin runs when a selector names it,
/// and with them enabled also when it is enabled by default.
pub proof fn law_disabling_defaults_keeps_only_selected(
    plugin: AnalyzerPlugin,
    enabled_plugins: Seq<String>,
)
    ensures
        plugin_enabled(plugin, enabled_plugins, true) == exists|j: int|
            0 <= j < enabled_plugins.len() && plugin_matches(plugin, #[trigger] enabled_plugins[j]@),
        plugin_enabled(plugin, enabled_plugins, false) == (plugin_enabled(
            plugin,
            enabled_plugins,
            true,
        ) || plugin.default_enabled),
{
}

/// The text listing and the report agree on which plugins run.
pub proof fn law_listing_and_report_agree(
    report: ListingReport,
    hosts: Seq<ExtensionHost>,
    entries: Seq<ListedExtension>,
    enabled_plugins: Seq<String>,
    disable_defaults: bool,
    x: int,
    k: int,
)
    requires
        is_listing_report(report, hosts, entries, enabled_plugins, disable_defaults),
        0 <= x < entries.len(),
        0 <= k < entries[x].plugins@.len(),
    ensures
        report.extensions@[x].analyzer_plugins@[k].enabled <==> plugin_state(
            entries[x].plugins@[k],
            enabled_plugins,
            disable_defaults,
        ) == "enabled"@,
{
    reveal_strlit("enabled");
    reveal_strlit("not enabled; add it to analyzer.plugins");
    assert(report.extensions@[x].analyzer_plugins@[k].enabled == plugin_enabled(
        entries[x].plugins@[k],
        enabled_plugins,
        disable_defaults,
    ));
    if !plugin_enabled(entries[x].plugins@[k], enabled_plugins, disable_defaults) {
        assert("not enabled; add it to analyzer.plugins"@.len() != "enabled"@.len());
    }
}

/// The first `prefix.len()` characters of `prefix + rest` are `prefix`.
proof fn lemma_prefix_of<A>(prefix: Seq<A>, rest: Seq<A>)
    ensures
        (prefix + rest).take(prefix.len() as int) == prefix,
        (prefix + rest).skip(prefix.len() as int) == rest,
{
    assert((prefix + rest).take(prefix.len() as int) =~= prefix);
    assert((prefix + rest).skip(prefix.len() as int) =~= rest);
}

/// A rule's line in the listing shows the rule's issue code, then its level:
/// it begins with four spaces and the code, the level follows in brackets,
/// and two rules with the same code and level get the same line whatever
/// their names or descriptions.
pub proof fn law_rule_line_shows_code_and_level(rule: LinterRule, other: LinterRule)
    ensures
        rule_line(rule).take(("    "@ + rule.code@).len() as int) == "    "@ + rule.code@,
        rule_line(rule).skip(("    "@ + rule.code@ + " ("@).len() as int).take(
            severity_name(rule.default_level).len() as int,
        ) == severity_name(rule.default_level),
        rule.code@ == other.code@ && rule.default_level == other.default_level ==> rule_line(rule)
            == rule_line(other),
{
    let head = "    "@ + rule.code@;
    let tail = " ("@ + severity_name(rule.default_level) + ")\n"@;
    assert(rule_line(rule) =~= head + tail);
    lemma_prefix_of(head, tail);
    let before = head + " ("@;
    let after = severity_name(rule.default_level) + ")\n"@;
    assert(rule_line(rule) =~= before + after);
    lemma_prefix_of(before, after);
    lemma_prefix_of(severity_name(rule.default_level), ")\n"@);
}

/// A host's line begins with two spaces and the host's name, and two hosts
/// that differ only in whether they are enabled or have a command get the
/// same line.
pub proof fn law_host_line_shows_name(host: ExtensionHost, other: ExtensionHost)
    ensures
        host_line(host).take(("  "@ + host.name@).len() as int) == "  "@ + host.name@,
        host.name@ == other.name@ && host.workers == other.workers && host.worker_count
            == other.worker_count ==> host_line(host) == host_line(other),
{
    let head = "  "@ + host.name@;
    if host.workers == 0 {
        let tail = " (adaptive, up to "@ + decimal(host.worker_count as nat) + " workers)\n"@;
        assert(host_line(host) =~= head + tail);
        lemma_prefix_of(head, tail);
    } else {
        let tail = " ("@ + decimal(host.worker_count as nat) + " workers)\n"@;
        assert(host_line(host) =~= head + tail);
        lemma_prefix_of(head, tail);
    }
}

/// A plugin's line begins with four spaces, the plugin's identifier and,
/// in brackets, whether it runs.
pub proof fn law_plugin_line_shows_identifier_and_state(
    plugin: AnalyzerPlugin,
    enabled_plugins: Seq<String>,
    disable_defaults: bool,
)
    ensures
        ({
            let head = "    "@ + plugin.identifier@ + " ("@ + plugin_state(
                plugin,
                enabled_plugins,
                disable_defaults,
            );
            plugin_line(plugin, enabled_plugins, disable_defaults).take(head.len() as int) == head
        }),
{
    let head = "    "@ + plugin.identifier@ + " ("@ + plugin_state(
        plugin,
        enabled_plugins,
        disable_defaults,
    );
    let hooks = plugin_hook_names(plugin);
    let tail = ") \u{2014} "@ + decimal(hooks.len()) + " hook(s)"@ + (if hooks.len() == 0 {
        ""@
    } else {
        ": "@
    }) + crate::text::join(hooks, ", "@) + "\n"@;
    assert(plugin_line(plugin, enabled_plugins, disable_defaults) =~= head + tail);
    lemma_prefix_of(head, tail);
}

/// An extension's block begins with its name, its identifier in brackets,
/// and its version on the next line.
pub proof fn law_extension_block_shows_name_identifier_version(
    entry: ListedExtension,
    enabled_plugins: Seq<String>,
    disable_defaults: bool,
)
    ensures
        ({
            let head = entry.name@ + " ("@ + entry.identifier@ + ")\n"@ + "  Version: "@
                + entry.version@ + "\n"@;
            extension_block(entry, enabled_plugins, disable_defaults).take(head.len() as int)
                == head
        }),
{
    let head = entry.name@ + " ("@ + entry.identifier@ + ")\n"@ + "  Version: "@ + entry.version@
        + "\n"@;
    let block = extension_block(entry, enabled_plugins, disable_defaults);
    let tail = block.skip(head.len() as int);
    assert(block.take(head.len() as int) =~= head);
}

/// `validate` reports, in this order, the number of listed extensions, of
/// enabled hosts, of listed rules and of listed plugins: the text begins
/// with the extension count, and the rule count stands before
/// ` linter rule(s), ` right after the host count.
pub proof fn law_validation_reports_counts_in_order(
    output: CommandOutput,
    hosts: Seq<ExtensionHost>,
    entries: Seq<ListedExtension>,
    enabled_plugins: Seq<String>,
    disable_defaults: bool,
)
    requires
        answers_with(
            ExtensionSubcommand::Validate,
            output,
            hosts,
            entries,
            enabled_plugins,
            disable_defaults,
        ),
    ensures
        output matches CommandOutput::Text(text) && ({
            let head = "Validated "@ + decimal(entries.len()) + " extension(s) from "@;
            let before_rules = head + decimal(enabled_only(hosts).len()) + " host(s): "@;
            let rules = decimal(sum_of(entries, crate::listing::listed_rule_count()))
                + " linter rule(s), "@;
            let plugins = decimal(sum_of(entries, crate::listing::listed_plugin_count()))
                + " analyzer plugin(s).\n"@;
            &&& text@.take(head.len() as int) == head
            &&& text@.skip(before_rules.len() as int).take(rules.len() as int) == rules
            &&& text@.skip((before_rules + rules).len() as int) == plugins
        }),
{
    let text = match output {
        CommandOutput::Text(text) => text,
        CommandOutput::Report(_) => {
            assert(false);
            arbitrary()
        },
    };
    let head = "Validated "@ + decimal(entries.len()) + " extension(s) from "@;
    let before_rules = head + decimal(enabled_only(hosts).len()) + " host(s): "@;
    let rules = decimal(sum_of(entries, crate::listing::listed_rule_count())) + " linter rule(s), "@;
    let plugins = decimal(sum_of(entries, crate::listing::listed_plugin_count()))
        + " analyzer plugin(s).\n"@;
    assert(text@ =~= before_rules + rules + plugins);
    assert(text@ =~= head + (decimal(enabled_only(hosts).len()) + " host(s): "@ + rules + plugins));
    lemma_prefix_of(head, decimal(enabled_only(hosts).len()) + " host(s): "@ + rules + plugins);
    assert(text@ =~= before_rules + (rules + plugins));
    lemma_prefix_of(before_rules, rules + plugins);
    lemma_prefix_of(rules, plugins);
    assert(text@ =~= (before_rules + rules) + plugins);
    lemma_prefix_of(before_rules + rules, plugins);
}

/// Each extension in the report carries what its registrations say of it:
/// the name and version of its last analyzer registration where there is
/// one, else of its last linter registration; the rules of its last linter
/// registration; as many plugins as its last analyzer registration.
pub proof fn law_report_shows_registered_extensions(
    report: ListingReport,
    hosts: Seq<ExtensionHost>,
    entries: Seq<ListedExtension>,
    linter: Seq<LinterExtension>,
    analyzer: Seq<AnalyzerExtension>,
    enabled_plugins: Seq<String>,
    disable_defaults: bool,
    x: int,
)
    requires
        is_join(entries, linter, analyzer),
        is_listing_report(report, hosts, entries, enabled_plugins, disable_defaults),
        0 <= x < entries.len(),
    ensures
        ({
            let shown = report.extensions@[x];
            let id = shown.identifier@;
            &&& id == entries[x].identifier@
            &&& (last_analyzer_index(analyzer, id) matches Some(j) ==> shown.name@
                == analyzer[j].name@ && shown.version@ == analyzer[j].version@
                && shown.analyzer_plugins@.len() == analyzer[j].plugins@.len())
            &&& (last_analyzer_index(analyzer, id) is None ==> shown.analyzer_plugins@.len() == 0)
            &&& (last_analyzer_index(analyzer, id) is None ==> (last_linter_index(linter, id)
                matches Some(i) ==> shown.name@ == linter[i].name@ && shown.version@
                == linter[i].version@))
            &&& (last_linter_index(linter, id) matches Some(i) ==> shown.linter_rules@
                == linter[i].rules@)
            &&& (last_linter_index(linter, id) is None ==> shown.linter_rules@.len() == 0)
        }),
{
    assert(is_joined_entry(entries[x], linter, analyzer));
}

/// Each host in the report carries the host's name, whether its pool is
/// adaptive, and its worker count.
pub proof fn law_report_shows_hosts(
    report: ListingReport,
    hosts: Seq<ExtensionHost>,
    entries: Seq<ListedExtension>,
    enabled_plugins: Seq<String>,
    disable_defaults: bool,
    i: int,
)
    requires
        is_listing_report(report, hosts, entries, enabled_plugins, disable_defaults),
        0 <= i < hosts.len(),
    ensures
        report.hosts@[i].host@ == hosts[i].name@,
        report.hosts@[i].adaptive == (hosts[i].workers == 0),
        report.hosts@[i].workers == hosts[i].worker_count,
{
}

/// A plugin is selected by its identifier and by each of its aliases, in
/// any ASCII case; a plugin so selected runs.
pub proof fn law_identifier_and_every_alias_select(
    plugin: AnalyzerPlugin,
    enabled_plugins: Seq<String>,
    disable_defaults: bool,
)
    ensures
        plugin_matches(plugin, plugin.identifier@),
        forall|i: int|
            0 <= i < plugin.aliases@.len() ==> plugin_matches(plugin, #[trigger] plugin.aliases@[i]@),
        forall|i: int, j: int|
            0 <= i < plugin.aliases@.len() && 0 <= j < enabled_plugins.len() && ascii_lowercase(
                #[trigger] enabled_plugins[j]@,
            ) == ascii_lowercase(#[trigger] plugin.aliases@[i]@) ==> plugin_enabled(
                plugin,
                enabled_plugins,
                disable_defaults,
            ),
        forall|j: int|
            0 <= j < enabled_plugins.len() && ascii_lowercase(#[trigger] enabled_plugins[j]@)
                == ascii_lowercase(plugin.identifier@) ==> plugin_enabled(
                plugin,
                enabled_plugins,
                disable_defaults,
            ),
{
    assert forall|i: int|
        0 <= i < plugin.aliases@.len() implies plugin_matches(
        plugin,
        #[trigger] plugin.aliases@[i]@,
    ) by {
        assert(ascii_lowercase(plugin.aliases@[i]@) == ascii_lowercase(plugin.aliases@[i]@));
    }
    assert forall|i: int, j: int|
        0 <= i < plugin.aliases@.len() && 0 <= j < enabled_plugins.len() && ascii_lowercase(
            #[trigger] enabled_plugins[j]@,
        ) == ascii_lowercase(#[trigger] plugin.aliases@[i]@) implies plugin_enabled(
        plugin,
        enabled_plugins,
        disable_defaults,
    ) by {
        assert(plugin_matches(plugin, enabled_plugins[j]@));
    }
    assert forall|j: int|
        0 <= j < enabled_plugins.len() && ascii_lowercase(#[trigger] enabled_plugins[j]@)
            == ascii_lowercase(plugin.identifier@) implies plugin_enabled(
        plugin,
        enabled_plugins,
        disable_defaults,
    ) by {
        assert(plugin_matches(plugin, enabled_plugins[j]@));
    }
}

proof fn lemma_concat_contains(first: Seq<Seq<char>>, second: Seq<Seq<char>>, name: Seq<char>)
    ensures
        (first + second).contains(name) <==> first.contains(name) || second.contains(name),
{
    if (first + second).contains(name) {
        let i = choose|i: int| 0 <= i < (first + second).len() && (first + second)[i] == name;
        if i < first.len() {
            assert(first[i] == name);
        } else {
            assert(second[i - first.len()] == name);
        }
    }
    if first.contains(name) {
        let i = choose|i: int| 0 <= i < first.len() && first[i] == name;
        assert((first + second)[i] == name);
    }
    if second.contains(name) {
        let i = choose|i: int| 0 <= i < second.len() && second[i] == name;
        assert((first + second)[first.len() + i] == name);
    }
}

proof fn lemma_hook_if_contains(present: bool, hook: Seq<char>, name: Seq<char>)
    ensures
        hook_if(present, hook).contains(name) <==> present && hook == name,
        hook_if(present, hook).len() == (if present { 1int } else { 0int }),
{
    if present {
        assert(hook_if(present, hook)[0] == hook);
    }
}

/// The hooks of a plugin are exactly those it implements: each hook name is
/// listed when, and only when, the plugin implements that hook, and there
/// are as many names as implemented hooks.
pub proof fn law_hooks_are_the_implemented_ones(plugin: AnalyzerPlugin)
    ensures
        plugin_hook_names(plugin).contains("initialization"@) <==> plugin.initialization,
        plugin_hook_names(plugin).contains("before-analysis"@) <==> plugin.before_analysis,
        plugin_hook_names(plugin).contains("after-file-analysis"@) <==> plugin.after_file_analysis,
        plugin_hook_names(plugin).contains("node-analysis"@) <==> plugin.node_analysis,
        plugin_hook_names(plugin).contains("after-analysis"@) <==> plugin.after_analysis,
        plugin_hook_names(plugin).len() == (if plugin.initialization { 1int } else { 0int }) + (
        if plugin.before_analysis {
            1int
        } else {
            0int
        }) + (if plugin.after_file_analysis { 1int } else { 0int }) + (if plugin.node_analysis {
            1int
        } else {
            0int
        }) + (if plugin.after_analysis { 1int } else { 0int }),
{
    reveal_strlit("initialization");
    reveal_strlit("before-analysis");
    reveal_strlit("after-file-analysis");
    reveal_strlit("node-analysis");
    reveal_strlit("after-analysis");
    let n0 = "initialization"@;
    let n1 = "before-analysis"@;
    let n2 = "after-file-analysis"@;
    let n3 = "node-analysis"@;
    let n4 = "after-analysis"@;
    assert(n0[0] != n1[0] && n0[0] != n2[0] && n0[0] != n3[0] && n0[0] != n4[0]);
    assert(n1[0] != n2[0] && n1[0] != n3[0] && n1[0] != n4[0]);
    assert(n2.len() != n3.len() && n2.len() != n4.len());
    assert(n3[0] != n4[0]);
    let h0 = hook_if(plugin.initialization, n0);
    let h1 = hook_if(plugin.before_analysis, n1);
    let h2 = hook_if(plugin.after_file_analysis, n2);
    let h3 = hook_if(plugin.node_analysis, n3);
    let h4 = hook_if(plugin.after_analysis, n4);
    let names = seq![n0, n1, n2, n3, n4];
    assert forall|k: int| 0 <= k < 5 implies #[trigger] plugin_hook_names(plugin).contains(names[k])
        <==> (h0 + h1 + h2 + h3 + h4).contains(names[k]) by {}
    assert forall|k: int| 0 <= k < 5 implies (h0 + h1 + h2 + h3 + h4).contains(#[trigger] names[k])
        <==> h0.contains(names[k]) || h1.contains(names[k]) || h2.contains(names[k])
        || h3.contains(names[k]) || h4.contains(names[k]) by {
        lemma_concat_contains(h0 + h1 + h2 + h3, h4, names[k]);
        lemma_concat_contains(h0 + h1 + h2, h3, names[k]);
        lemma_concat_contains(h0 + h1, h2, names[k]);
        lemma_concat_contains(h0, h1, names[k]);
    }
    assert forall|k: int| 0 <= k < 5 implies (#[trigger] h0.contains(names[k]) <==> (
    plugin.initialization && k == 0)) && (h1.contains(names[k]) <==> (plugin.before_analysis && k
        == 1)) && (h2.contains(names[k]) <==> (plugin.after_file_analysis && k == 2)) && (
    h3.contains(names[k]) <==> (plugin.node_analysis && k == 3)) && (h4.contains(names[k]) <==> (
    plugin.after_analysis && k == 4)) by {
        lemma_hook_if_contains(plugin.initialization, n0, names[k]);
        lemma_hook_if_contains(plugin.before_analysis, n1, names[k]);
        lemma_hook_if_contains(plugin.after_file_analysis, n2, names[k]);
        lemma_hook_if_contains(plugin.node_analysis, n3, names[k]);
        lemma_hook_if_contains(plugin.after_analysis, n4, names[k]);
    }
    assert(names[0] == n0 && names[1] == n1 && names[2] == n2 && names[3] == n3 && names[4] == n4);
    assert(plugin_hook_names(plugin).contains(names[0]) <==> plugin.initialization);
    assert(plugin_hook_names(plugin).contains(names[1]) <==> plugin.before_analysis);
    assert(plugin_hook_names(plugin).contains(names[2]) <==> plugin.after_file_analysis);
    assert(plugin_hook_names(plugin).contains(names[3]) <==> plugin.node_analysis);
    assert(plugin_hook_names(plugin).contains(names[4]) <==> plugin.after_analysis);
    lemma_hook_if_contains(plugin.initialization, n0, n0);
    lemma_hook_if_contains(plugin.before_analysis, n1, n1);
    lemma_hook_if_contains(plugin.after_file_analysis, n2, n2);
    lemma_hook_if_contains(plugin.node_analysis, n3, n3);
    lemma_hook_if_contains(plugin.after_analysis, n4, n4);
}

/// The value of a digit character.
pub open spec fn digit_value(c: char) -> int {
    (c as int) - ('0' as int)
}

/// The number that a sequence of decimal digits denotes.
pub open spec fn decimal_value(digits: Seq<char>) -> int
    decreases digits.len(),
{
    if digits.len() == 0 {
        0
    } else {
        decimal_value(digits.drop_last()) * 10 + digit_value(digits.last())
    }
}

/// Numbers are written in decimal: the text consists of digits, has no
/// leading zero, and reads back as the number.
pub proof fn law_decimal_reads_back(n: nat)
    ensures
        decimal(n).len() > 0,
        forall|i: int| 0 <= i < decimal(n).len() ==> '0' <= #[trigger] decimal(n)[i] <= '9',
        decimal_value(decimal(n)) == n,
        n > 0 ==> decimal(n)[0] != '0',
    decreases n,
{
    if n < 10 {
        assert(decimal(n).drop_last() =~= Seq::<char>::empty());
        assert(decimal(n).last() == digit_char(n));
        assert(digit_value(digit_char(n)) == n);
        assert(decimal_value(Seq::<char>::empty()) == 0);
        assert(decimal_value(decimal(n)) == decimal_value(decimal(n).drop_last()) * 10
            + digit_value(decimal(n).last()));
    } else {
        law_decimal_reads_back(n / 10);
        let digits = decimal(n);
        assert(digits.drop_last() =~= decimal(n / 10));
        assert(digit_value(digit_char(n % 10)) == n % 10);
        assert(digits.last() == digit_char(n % 10));
        assert(decimal_value(digits) == decimal_value(decimal(n / 10)) * 10 + digit_value(
            digit_char(n % 10),
        ));
        assert(n == (n / 10) * 10 + n % 10);
        assert(digits[0] == decimal(n / 10)[0]);
        assert forall|i: int| 0 <= i < digits.len() implies '0' <= #[trigger] digits[i] <= '9' by {
            if i < digits.len() - 1 {
                assert(digits[i] == decimal(n / 10)[i]);
            }
        }
    }
}

/// Texts are ordered as their characters' code points: one character
/// precedes another exactly when its code point is smaller.
pub proof fn law_single_characters_order_by_code_point(x: char, y: char)
    ensures
        text_less(seq![x], seq![y]) <==> (x as int) < (y as int),
{
    if x == y {
        crate::text::lemma_text_less_irreflexive(seq![x]);
    } else {
        assert(seq![x][0] == x && seq![y][0] == y);
    }
}

/// A text precedes every longer text that it begins.
pub proof fn law_proper_prefix_precedes(a: Seq<char>, b: Seq<char>)
    requires
        b.len() > 0,
    ensures
        text_less(a, a + b),
    decreases a.len(),
{
    if a.len() > 0 {
        assert((a + b)[0] == a[0]);
        assert((a + b).drop_first() =~= a.drop_first() + b);
        law_proper_prefix_precedes(a.drop_first(), b);
    }
}

/// The hosts that the listing shows are exactly the enabled ones.
pub proof fn law_enabled_hosts_are_the_enabled_ones(hosts: Seq<ExtensionHost>, host: ExtensionHost)
    ensures
        enabled_only(hosts).contains(host) <==> hosts.contains(host) && host.enabled,
        enabled_only(hosts).len() <= hosts.len(),
    decreases hosts.len(),
{
    if hosts.len() > 0 {
        let rest = hosts.drop_last();
        let last = hosts.last();
        law_enabled_hosts_are_the_enabled_ones(rest, host);
        assert(hosts.contains(host) <==> rest.contains(host) || last == host) by {
            if hosts.contains(host) {
                let i = choose|i: int| 0 <= i < hosts.len() && hosts[i] == host;
                if i < hosts.len() - 1 {
                    assert(rest[i] == host);
                }
            }
            if rest.contains(host) {
                let i = choose|i: int| 0 <= i < rest.len() && rest[i] == host;
                assert(hosts[i] == host);
            }
            if last == host {
                assert(hosts[hosts.len() - 1] == host);
            }
        }
        if last.enabled {
            let shown = enabled_only(rest).push(last);
            assert(enabled_only(hosts) == shown);
            assert(shown.contains(host) <==> enabled_only(rest).contains(host) || last == host)
                by {
                if shown.contains(host) {
                    let i = choose|i: int| 0 <= i < shown.len() && shown[i] == host;
                    if i < shown.len() - 1 {
                        assert(enabled_only(rest)[i] == host);
                    }
                }
                if enabled_only(rest).contains(host) {
                    let i = choose|i: int|
                        0 <= i < enabled_only(rest).len() && enabled_only(rest)[i] == host;
                    assert(shown[i] == host);
                }
                if last == host {
                    assert(shown[shown.len() - 1] == host);
                }
            }
        } else {
            assert(enabled_only(hosts) == enabled_only(rest));
        }
    }
}

/// Different severities are shown under different names.
pub proof fn law_severity_names_differ(level: Severity, other: Severity)
    ensures
        level != other ==> severity_name(level) != severity_name(other),
{
    reveal_strlit("note");
    reveal_strlit("help");
    reveal_strlit("warning");
    reveal_strlit("error");
    if level != other {
        assert(severity_name(level)[0] != severity_name(other)[0]);
    }
}

/// The listing says `enabled` of a plugin exactly when the plugin runs.
pub proof fn law_plugin_state_says_whether_it_runs(
    plugin: AnalyzerPlugin,
    enabled_plugins: Seq<String>,
    disable_defaults: bool,
)
    ensures
        plugin_state(plugin, enabled_plugins, disable_defaults) == "enabled"@ <==> plugin_enabled(
            plugin,
            enabled_plugins,
            disable_defaults,
        ),
{
    reveal_strlit("enabled");
    reveal_strlit("not enabled; add it to analyzer.plugins");
    if !plugin_enabled(plugin, enabled_plugins, disable_defaults) {
        assert("not enabled; add it to analyzer.plugins"@.len() != "enabled"@.len());
    }
}

/// The number of hooks a plugin implements, by its hook flags.
pub open spec fn implemented_hook_count(plugin: AnalyzerPlugin) -> nat {
    ((if plugin.initialization { 1int } else { 0int }) + (if plugin.before_analysis {
        1int
    } else {
        0int
    }) + (if plugin.after_file_analysis { 1int } else { 0int }) + (if plugin.node_analysis {
        1int
    } else {
        0int
    }) + (if plugin.after_analysis { 1int } else { 0int })) as nat
}

/// After its identifier and state, a plugin's line gives the number of
/// hooks that the plugin implements.
pub proof fn law_plugin_line_counts_implemented_hooks(
    plugin: AnalyzerPlugin,
    enabled_plugins: Seq<String>,
    disable_defaults: bool,
)
    ensures
        ({
            let head = "    "@ + plugin.identifier@ + " ("@ + plugin_state(
                plugin,
                enabled_plugins,
                disable_defaults,
            );
            let count = ") \u{2014} "@ + decimal(implemented_hook_count(plugin)) + " hook(s)"@;
            plugin_line(plugin, enabled_plugins, disable_defaults).skip(head.len() as int).take(
                count.len() as int,
            ) == count
        }),
{
    law_hooks_are_the_implemented_ones(plugin);
    let hooks = plugin_hook_names(plugin);
    let head = "    "@ + plugin.identifier@ + " ("@ + plugin_state(
        plugin,
        enabled_plugins,
        disable_defaults,
    );
    let count = ") \u{2014} "@ + decimal(implemented_hook_count(plugin)) + " hook(s)"@;
    let rest = (if hooks.len() == 0 {
        ""@
    } else {
        ": "@
    }) + crate::text::join(hooks, ", "@) + "\n"@;
    assert(hooks.len() == implemented_hook_count(plugin));
    assert(plugin_line(plugin, enabled_plugins, disable_defaults) =~= head + (count + rest));
    lemma_prefix_of(head, count + rest);
    lemma_prefix_of(count, rest);
}

/// After its name, identifier and version, an extension's block gives the
/// number of its rules, the rules, and then the number of its plugins.
pub proof fn law_extension_block_counts_rules_and_plugins(
    entry: ListedExtension,
    enabled_plugins: Seq<String>,
    disable_defaults: bool,
)
    ensures
        ({
            let head = entry.name@ + " ("@ + entry.identifier@ + ")\n"@ + "  Version: "@
                + entry.version@ + "\n"@;
            let rules = "  Linter rules: "@ + decimal(entry.rules@.len()) + "\n"@;
            let plugins = "  Analyzer plugins: "@ + decimal(entry.plugins@.len()) + "\n"@;
            let block = extension_block(entry, enabled_plugins, disable_defaults);
            &&& block.skip(head.len() as int).take(rules.len() as int) == rules
            &&& block.skip((head + rules + crate::render::rule_lines(entry.rules@)).len() as int).take(
                plugins.len() as int,
            ) == plugins
        }),
{
    let head = entry.name@ + " ("@ + entry.identifier@ + ")\n"@ + "  Version: "@ + entry.version@
        + "\n"@;
    let rules = "  Linter rules: "@ + decimal(entry.rules@.len()) + "\n"@;
    let lines = crate::render::rule_lines(entry.rules@);
    let plugins = "  Analyzer plugins: "@ + decimal(entry.plugins@.len()) + "\n"@;
    let tail = crate::render::plugin_lines(entry.plugins@, enabled_plugins, disable_defaults);
    let block = extension_block(entry, enabled_plugins, disable_defaults);
    assert(block =~= head + (rules + (lines + plugins + tail)));
    lemma_prefix_of(head, rules + (lines + plugins + tail));
    lemma_prefix_of(rules, lines + plugins + tail);
    assert(block =~= (head + rules + lines) + (plugins + tail));
    lemma_prefix_of(head + rules + lines, plugins + tail);
    lemma_prefix_of(plugins, tail);
}

/// The linter registration that decides an identifier is its last one: the
/// index found names the identifier and no later registration does, and
/// none is found exactly when no registration names it.
pub proof fn law_last_linter_registration_decides(linter: Seq<LinterExtension>, id: Seq<char>)
    ensures
        last_linter_index(linter, id) matches Some(i) ==> 0 <= i < linter.len()
            && linter[i].identifier@ == id && forall|k: int|
            i < k < linter.len() ==> (#[trigger] linter[k]).identifier@ != id,
        last_linter_index(linter, id) is None <==> forall|k: int|
            0 <= k < linter.len() ==> (#[trigger] linter[k]).identifier@ != id,
    decreases linter.len(),
{
    if linter.len() > 0 {
        let rest = linter.drop_last();
        law_last_linter_registration_decides(rest, id);
        assert forall|k: int| 0 <= k < rest.len() implies rest[k] == #[trigger] linter[k] by {}
        if linter.last().identifier@ != id {
            assert forall|k: int| 0 <= k < linter.len() && (#[trigger] linter[k]).identifier@ == id
                implies k < rest.len() by {}
        }
    }
}

/// The analyzer registration that decides an identifier is its last one.
pub proof fn law_last_analyzer_registration_decides(analyzer: Seq<AnalyzerExtension>, id: Seq<char>)
    ensures
        last_analyzer_index(analyzer, id) matches Some(j) ==> 0 <= j < analyzer.len()
            && analyzer[j].identifier@ == id && forall|k: int|
            j < k < analyzer.len() ==> (#[trigger] analyzer[k]).identifier@ != id,
        last_analyzer_index(analyzer, id) is None <==> forall|k: int|
            0 <= k < analyzer.len() ==> (#[trigger] analyzer[k]).identifier@ != id,
    decreases analyzer.len(),
{
    if analyzer.len() > 0 {
        let rest = analyzer.drop_last();
        law_last_analyzer_registration_decides(rest, id);
        assert forall|k: int| 0 <= k < rest.len() implies rest[k] == #[trigger] analyzer[k] by {}
        if analyzer.last().identifier@ != id {
            assert forall|k: int|
                0 <= k < analyzer.len() && (#[trigger] analyzer[k]).identifier@ == id implies k
                < rest.len() by {}
        }
    }
}

/// The listing is read in order: one more host adds its line at the end of
/// the host lines, one more extension its block at the end of the blocks, one
/// more rule or plugin its line at the end of the rule or plugin lines.
pub proof fn law_lines_follow_the_order(
    hosts: Seq<ExtensionHost>,
    host: ExtensionHost,
    entries: Seq<ListedExtension>,
    entry: ListedExtension,
    rules: Seq<LinterRule>,
    rule: LinterRule,
    plugins: Seq<AnalyzerPlugin>,
    plugin: AnalyzerPlugin,
    enabled_plugins: Seq<String>,
    disable_defaults: bool,
)
    ensures
        host_lines(hosts.push(host)) == host_lines(hosts) + host_line(host),
        extension_blocks(entries.push(entry), enabled_plugins, disable_defaults) == extension_blocks(
            entries,
            enabled_plugins,
            disable_defaults,
        ) + extension_block(entry, enabled_plugins, disable_defaults),
        rule_lines(rules.push(rule)) == rule_lines(rules) + rule_line(rule),
        plugin_lines(plugins.push(plugin), enabled_plugins, disable_defaults) == plugin_lines(
            plugins,
            enabled_plugins,
            disable_defaults,
        ) + plugin_line(plugin, enabled_plugins, disable_defaults),
        host_lines(Seq::empty()).len() == 0,
        extension_blocks(Seq::empty(), enabled_plugins, disable_defaults).len() == 0,
{
    let host_parts = hosts.map_values(|h: ExtensionHost| host_line(h));
    assert(hosts.push(host).map_values(|h: ExtensionHost| host_line(h)) =~= host_parts.push(
        host_line(host),
    ));
    lemma_flatten_push(host_parts, host_line(host));
    let blocks = entries.map_values(
        |e: ListedExtension| extension_block(e, enabled_plugins, disable_defaults),
    );
    assert(entries.push(entry).map_values(
        |e: ListedExtension| extension_block(e, enabled_plugins, disable_defaults),
    ) =~= blocks.push(extension_block(entry, enabled_plugins, disable_defaults)));
    lemma_flatten_push(blocks, extension_block(entry, enabled_plugins, disable_defaults));
    let rule_parts = rules.map_values(|r: LinterRule| rule_line(r));
    assert(rules.push(rule).map_values(|r: LinterRule| rule_line(r)) =~= rule_parts.push(
        rule_line(rule),
    ));
    lemma_flatten_push(rule_parts, rule_line(rule));
    let plugin_parts = plugins.map_values(
        |p: AnalyzerPlugin| plugin_line(p, enabled_plugins, disable_defaults),
    );
    assert(plugins.push(plugin).map_values(
        |p: AnalyzerPlugin| plugin_line(p, enabled_plugins, disable_defaults),
    ) =~= plugin_parts.push(plugin_line(plugin, enabled_plugins, disable_defaults)));
    lemma_flatten_push(plugin_parts, plugin_line(plugin, enabled_plugins, disable_defaults));
    assert(Seq::<ExtensionHost>::empty().map_values(|h: ExtensionHost| host_line(h))
        =~= Seq::<Seq<char>>::empty());
    assert(Seq::<ListedExtension>::empty().map_values(
        |e: ListedExtension| extension_block(e, enabled_plugins, disable_defaults),
    ) =~= Seq::<Seq<char>>::empty());
}

/// The listing shows the enabled hosts first, under their heading, and the
/// extensions after them, under theirs.
pub proof fn law_listing_shows_hosts_then_extensions(
    hosts: Seq<ExtensionHost>,
    entries: Seq<ListedExtension>,
    enabled_plugins: Seq<String>,
    disable_defaults: bool,
)
    ensures
        ({
            let text = rendered_list(hosts, entries, enabled_plugins, disable_defaults);
            let head = "Extension hosts:\n"@ + host_lines(hosts) + "Registered extensions:\n"@;
            &&& text.take(head.len() as int) == head
            &&& text.skip(head.len() as int) == extension_blocks(
                entries,
                enabled_plugins,
                disable_defaults,
            )
        }),
{
    let head = "Extension hosts:\n"@ + host_lines(hosts) + "Registered extensions:\n"@;
    lemma_prefix_of(head, extension_blocks(entries, enabled_plugins, disable_defaults));
}

/// The error for an enabled host without a command names that host between
/// backquotes.
pub proof fn law_missing_command_names_the_host(name: Seq<char>)
    ensures
        ({
            let message = missing_command_message(name);
            let head = "enabled extension host `"@;
            &&& message.take(head.len() as int) == head
            &&& message.skip(head.len() as int).take(name.len() as int) == name
        }),
{
    let head = "enabled extension host `"@;
    let tail = "` has no command"@;
    lemma_prefix_of(head, name + tail);
    lemma_prefix_of(name, tail);
    assert(missing_command_message(name) =~= head + (name + tail));
}

/// Joining puts the separator between each two parts and nowhere else: a
/// single part stands alone, and one more part follows the separator.
pub proof fn law_join_separates_parts(parts: Seq<Seq<char>>, part: Seq<char>, sep: Seq<char>)
    ensures
        crate::text::join(seq![part], sep) == part,
        parts.len() > 0 ==> crate::text::join(parts.push(part), sep) == crate::text::join(parts, sep)
            + sep + part,
        crate::text::join(Seq::empty(), sep).len() == 0,
{
    assert(seq![part][0] == part);
    assert(parts.push(part).drop_last() =~= parts);
}

/// A plugin's line ends with its hook names, after `: ` and separated by
/// `, `, where it implements some hook, and with nothing after the count
/// where it implements none.
pub proof fn law_plugin_line_ends_with_hooks(
    plugin: AnalyzerPlugin,
    enabled_plugins: Seq<String>,
    disable_defaults: bool,
)
    ensures
        ({
            let line = plugin_line(plugin, enabled_plugins, disable_defaults);
            let hooks = plugin_hook_names(plugin);
            let list = if hooks.len() == 0 {
                " hook(s)"@ + "\n"@
            } else {
                " hook(s)"@ + ": "@ + crate::text::join(hooks, ", "@) + "\n"@
            };
            line.skip(line.len() - list.len()) == list
        }),
{
    reveal_strlit("");
    let line = plugin_line(plugin, enabled_plugins, disable_defaults);
    let hooks = plugin_hook_names(plugin);
    let head = "    "@ + plugin.identifier@ + " ("@ + plugin_state(
        plugin,
        enabled_plugins,
        disable_defaults,
    ) + ") \u{2014} "@ + decimal(hooks.len());
    if hooks.len() == 0 {
        let list = " hook(s)"@ + "\n"@;
        assert(crate::text::join(hooks, ", "@) =~= Seq::<char>::empty());
        assert(""@ =~= Seq::<char>::empty());
        assert(line =~= head + list);
        lemma_prefix_of(head, list);
    } else {
        let list = " hook(s)"@ + ": "@ + crate::text::join(hooks, ", "@) + "\n"@;
        assert(line =~= head + list);
        lemma_prefix_of(head, list);
    }
}

} // verus!
