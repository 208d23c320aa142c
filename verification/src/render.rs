//! The human-readable listing of hosts and extensions.

use vstd::prelude::*;

use crate::hosts::{host_values, ExtensionHost};
use crate::listing::{ListedExtension, Listing};
use crate::registration::{
    plugin_enabled, plugin_hook_names, severity_name, str_views, AnalyzerPlugin, LinterRule,
};
use crate::text::{decimal, join, push_decimal, push_str};

verus! {

/// Concatenation lengthens by the last part.
pub proof fn lemma_flatten_push(parts: Seq<Seq<char>>, last: Seq<char>)
    ensures
        parts.push(last).flatten_alt() == parts.flatten_alt() + last,
{
    assert(parts.push(last).drop_last() =~= parts);
}

/// The line of one host.
pub open spec fn host_line(host: ExtensionHost) -> Seq<char> {
    if host.workers == 0 {
        "  "@ + host.name@ + " (adaptive, up to "@ + decimal(host.worker_count as nat)
            + " workers)\n"@
    } else {
        "  "@ + host.name@ + " ("@ + decimal(host.worker_count as nat) + " workers)\n"@
    }
}

/// The line of one linter rule.
pub open spec fn rule_line(rule: LinterRule) -> Seq<char> {
    "    "@ + rule.code@ + " ("@ + severity_name(rule.default_level) + ")\n"@
}

/// Whether a plugin runs, as the listing says it.
pub open spec fn plugin_state(
    plugin: AnalyzerPlugin,
    enabled_plugins: Seq<String>,
    disable_defaults: bool,
) -> Seq<char> {
    if plugin_enabled(plugin, enabled_plugins, disable_defaults) {
        "enabled"@
    } else {
        "not enabled; add it to analyzer.plugins"@
    }
}

/// The line of one analyzer plugin: its state and its hooks.
pub open spec fn plugin_line(
    plugin: AnalyzerPlugin,
    enabled_plugins: Seq<String>,
    disable_defaults: bool,
) -> Seq<char> {
    let hooks = plugin_hook_names(plugin);
    "    "@ + plugin.identifier@ + " ("@ + plugin_state(plugin, enabled_plugins, disable_defaults)
        + ") \u{2014} "@ + decimal(hooks.len()) + " hook(s)"@ + (if hooks.len() == 0 {
        ""@
    } else {
        ": "@
    }) + join(hooks, ", "@) + "\n"@
}

/// The lines of all rules.
pub open spec fn rule_lines(rules: Seq<LinterRule>) -> Seq<char> {
    rules.map_values(|rule: LinterRule| rule_line(rule)).flatten_alt()
}

/// The lines of all plugins.
pub open spec fn plugin_lines(
    plugins: Seq<AnalyzerPlugin>,
    enabled_plugins: Seq<String>,
    disable_defaults: bool,
) -> Seq<char> {
    plugins.map_values(
        |plugin: AnalyzerPlugin| plugin_line(plugin, enabled_plugins, disable_defaults),
    ).flatten_alt()
}

/// The block of one extension: name, identifier, version, rules, plugins.
pub open spec fn extension_block(
    entry: ListedExtension,
    enabled_plugins: Seq<String>,
    disable_defaults: bool,
) -> Seq<char> {
    entry.name@ + " ("@ + entry.identifier@ + ")\n"@ + "  Version: "@ + entry.version@ + "\n"@
        + "  Linter rules: "@ + decimal(entry.rules@.len()) + "\n"@ + rule_lines(entry.rules@)
        + "  Analyzer plugins: "@ + decimal(entry.plugins@.len()) + "\n"@ + plugin_lines(
        entry.plugins@,
        enabled_plugins,
        disable_defaults,
    )
}

/// The lines of all hosts.
pub open spec fn host_lines(hosts: Seq<ExtensionHost>) -> Seq<char> {
    hosts.map_values(|host: ExtensionHost| host_line(host)).flatten_alt()
}

/// The blocks of all extensions.
pub open spec fn extension_blocks(
    entries: Seq<ListedExtension>,
    enabled_plugins: Seq<String>,
    disable_defaults: bool,
) -> Seq<char> {
    entries.map_values(
        |entry: ListedExtension| extension_block(entry, enabled_plugins, disable_defaults),
    ).flatten_alt()
}

/// The whole listing: the hosts, then every extension.
pub open spec fn rendered_list(
    hosts: Seq<ExtensionHost>,
    entries: Seq<ListedExtension>,
    enabled_plugins: Seq<String>,
    disable_defaults: bool,
) -> Seq<char> {
    "Extension hosts:\n"@ + host_lines(hosts) + "Registered extensions:\n"@ + extension_blocks(
        entries,
        enabled_plugins,
        disable_defaults,
    )
}

fn push_host_line(out: &mut String, host: &ExtensionHost)
    ensures
        final(out)@ == old(out)@ + host_line(*host),
{
    push_str(out, "  ");
    push_str(out, host.name.as_str());
    if host.workers == 0 {
        push_str(out, " (adaptive, up to ");
    } else {
        push_str(out, " (");
    }
    push_decimal(out, host.worker_count);
    push_str(out, " workers)\n");
    assert(out@ =~= old(out)@ + host_line(*host));
}

fn push_rule_line(out: &mut String, rule: &LinterRule)
    ensures
        final(out)@ == old(out)@ + rule_line(*rule),
{
    push_str(out, "    ");
    push_str(out, rule.code.as_str());
    push_str(out, " (");
    push_str(out, rule.default_level.name());
    push_str(out, ")\n");
    assert(out@ =~= old(out)@ + rule_line(*rule));
}

/// Appends `parts`, with `sep` between each two of them.
fn push_joined(out: &mut String, parts: &Vec<&str>, sep: &str)
    ensures
        final(out)@ == old(out)@ + join(str_views(parts@), sep@),
{
    let ghost start = out@;
    let ghost views = str_views(parts@);
    let mut k: usize = 0;
    assert(join(views.take(0), sep@) =~= Seq::<char>::empty());
    assert(out@ =~= start + join(views.take(0), sep@));
    while k < parts.len()
        invariant
            k <= parts@.len(),
            views == str_views(parts@),
            out@ == start + join(views.take(k as int), sep@),
        decreases parts@.len() - k,
    {
        assert(views.take(k + 1).drop_last() =~= views.take(k as int));
        assert(views.take(k + 1).last() == parts@[k as int]@);
        if k > 0 {
            push_str(out, sep);
        }
        push_str(out, parts[k]);
        assert(out@ =~= start + join(views.take(k + 1), sep@));
        k = k + 1;
    }
    assert(views.take(parts@.len() as int) =~= views);
}

fn push_plugin_line(
    out: &mut String,
    plugin: &AnalyzerPlugin,
    enabled_plugins: &[String],
    disable_defaults: bool,
)
    ensures
        final(out)@ == old(out)@ + plugin_line(*plugin, enabled_plugins@, disable_defaults),
{
    let hooks = plugin.hooks();
    push_str(out, "    ");
    push_str(out, plugin.identifier.as_str());
    push_str(out, " (");
    if plugin.is_enabled_by(enabled_plugins, disable_defaults) {
        push_str(out, "enabled");
    } else {
        push_str(out, "not enabled; add it to analyzer.plugins");
    }
    push_str(out, ") \u{2014} ");
    push_decimal(out, hooks.len());
    push_str(out, " hook(s)");
    if hooks.len() == 0 {
        push_str(out, "");
    } else {
        push_str(out, ": ");
    }
    push_joined(out, &hooks, ", ");
    push_str(out, "\n");
    assert(out@ =~= old(out)@ + plugin_line(*plugin, enabled_plugins@, disable_defaults));
}

fn push_rule_lines(out: &mut String, rules: &[LinterRule])
    ensures
        final(out)@ == old(out)@ + rule_lines(rules@),
{
    let ghost start = out@;
    let mut k: usize = 0;
    assert(rules@.take(0).map_values(|rule: LinterRule| rule_line(rule)) =~= Seq::empty());
    assert(out@ =~= start + rule_lines(rules@.take(0)));
    while k < rules.len()
        invariant
            k <= rules@.len(),
            out@ == start + rule_lines(rules@.take(k as int)),
        decreases rules@.len() - k,
    {
        let ghost lines = rules@.take(k as int).map_values(|rule: LinterRule| rule_line(rule));
        assert(rules@.take(k + 1).map_values(|rule: LinterRule| rule_line(rule)) =~= lines.push(
            rule_line(rules@[k as int]),
        ));
        proof {
            lemma_flatten_push(lines, rule_line(rules@[k as int]));
        }
        push_rule_line(out, &rules[k]);
        k = k + 1;
    }
    assert(rules@.take(rules@.len() as int) =~= rules@);
}

fn push_plugin_lines(
    out: &mut String,
    plugins: &[AnalyzerPlugin],
    enabled_plugins: &[String],
    disable_defaults: bool,
)
    ensures
        final(out)@ == old(out)@ + plugin_lines(plugins@, enabled_plugins@, disable_defaults),
{
    let ghost start = out@;
    let ghost sel = enabled_plugins@;
    let mut k: usize = 0;
    assert(plugins@.take(0).map_values(
        |plugin: AnalyzerPlugin| plugin_line(plugin, sel, disable_defaults),
    ) =~= Seq::empty());
    assert(out@ =~= start + plugin_lines(plugins@.take(0), sel, disable_defaults));
    while k < plugins.len()
        invariant
            k <= plugins@.len(),
            sel == enabled_plugins@,
            out@ == start + plugin_lines(plugins@.take(k as int), sel, disable_defaults),
        decreases plugins@.len() - k,
    {
        let ghost lines = plugins@.take(k as int).map_values(
            |plugin: AnalyzerPlugin| plugin_line(plugin, sel, disable_defaults),
        );
        assert(plugins@.take(k + 1).map_values(
            |plugin: AnalyzerPlugin| plugin_line(plugin, sel, disable_defaults),
        ) =~= lines.push(plugin_line(plugins@[k as int], sel, disable_defaults)));
        proof {
            lemma_flatten_push(lines, plugin_line(plugins@[k as int], sel, disable_defaults));
        }
        push_plugin_line(out, &plugins[k], enabled_plugins, disable_defaults);
        k = k + 1;
    }
    assert(plugins@.take(plugins@.len() as int) =~= plugins@);
}

fn push_extension_block(
    out: &mut String,
    entry: &ListedExtension,
    enabled_plugins: &[String],
    disable_defaults: bool,
)
    ensures
        final(out)@ == old(out)@ + extension_block(*entry, enabled_plugins@, disable_defaults),
{
    push_str(out, entry.name);
    push_str(out, " (");
    push_str(out, entry.identifier);
    push_str(out, ")\n");
    push_str(out, "  Version: ");
    push_str(out, entry.version);
    push_str(out, "\n");
    push_str(out, "  Linter rules: ");
    push_decimal(out, entry.rules.len());
    push_str(out, "\n");
    push_rule_lines(out, entry.rules);
    push_str(out, "  Analyzer plugins: ");
    push_decimal(out, entry.plugins.len());
    push_str(out, "\n");
    push_plugin_lines(out, entry.plugins, enabled_plugins, disable_defaults);
    assert(out@ =~= old(out)@ + extension_block(*entry, enabled_plugins@, disable_defaults));
}

/// The listing that `extension list` prints: every enabled host with its
/// worker count, then every extension with its version, its linter rules and
/// its analyzer plugins, each plugin with whether it runs and which hooks it
/// implements.
pub fn render_list(
    enabled_hosts: &[&ExtensionHost],
    listed: &Listing,
    enabled_plugins: &[String],
    disable_defaults: bool,
) -> (output: String)
    ensures
        output@ == rendered_list(
            host_values(enabled_hosts@),
            listed.view(),
            enabled_plugins@,
            disable_defaults,
        ),
{
    let mut output = String::new();
    push_str(&mut output, "Extension hosts:\n");
    let ghost after_title = output@;
    let ghost values = host_values(enabled_hosts@);
    let mut k: usize = 0;
    assert(values.take(0).map_values(|host: ExtensionHost| host_line(host)) =~= Seq::empty());
    assert(output@ =~= after_title + host_lines(values.take(0)));
    while k < enabled_hosts.len()
        invariant
            k <= enabled_hosts@.len(),
            values == host_values(enabled_hosts@),
            output@ == after_title + host_lines(values.take(k as int)),
        decreases enabled_hosts@.len() - k,
    {
        let ghost lines = values.take(k as int).map_values(|host: ExtensionHost| host_line(host));
        assert(values.take(k + 1).map_values(|host: ExtensionHost| host_line(host)) =~= lines.push(
            host_line(values[k as int]),
        ));
        proof {
            lemma_flatten_push(lines, host_line(values[k as int]));
        }
        push_host_line(&mut output, enabled_hosts[k]);
        k = k + 1;
    }
    assert(values.take(values.len() as int) =~= values);
    push_str(&mut output, "Registered extensions:\n");
    let ghost after_hosts = output@;
    let entries = listed.entries();
    let ghost sel = enabled_plugins@;
    let mut x: usize = 0;
    assert(entries@.take(0).map_values(
        |entry: ListedExtension| extension_block(entry, sel, disable_defaults),
    ) =~= Seq::empty());
    assert(output@ =~= after_hosts + extension_blocks(entries@.take(0), sel, disable_defaults));
    while x < entries.len()
        invariant
            x <= entries@.len(),
            sel == enabled_plugins@,
            output@ == after_hosts + extension_blocks(
                entries@.take(x as int),
                sel,
                disable_defaults,
            ),
        decreases entries@.len() - x,
    {
        let ghost blocks = entries@.take(x as int).map_values(
            |entry: ListedExtension| extension_block(entry, sel, disable_defaults),
        );
        assert(entries@.take(x + 1).map_values(
            |entry: ListedExtension| extension_block(entry, sel, disable_defaults),
        ) =~= blocks.push(extension_block(entries@[x as int], sel, disable_defaults)));
        proof {
            lemma_flatten_push(blocks, extension_block(entries@[x as int], sel, disable_defaults));
        }
        push_extension_block(&mut output, &entries[x], enabled_plugins, disable_defaults);
        x = x + 1;
    }
    assert(entries@.take(entries@.len() as int) =~= entries@);
    assert(output@ =~= rendered_list(
        values,
        listed.view(),
        enabled_plugins@,
        disable_defaults,
    ));
    output
}

} // verus!
