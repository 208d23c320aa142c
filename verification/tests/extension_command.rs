use extension_listing::command::{CommandOutput, ExtensionCommand, ExtensionSubcommand};
use extension_listing::hosts::{enabled_hosts, has_enabled_host, plan_pool_start, ExtensionHost, PoolStart};
use extension_listing::listing::join_registrations;
use extension_listing::registration::{
    AnalyzerExtension, AnalyzerPlugin, LinterExtension, LinterRule, Severity,
};
use extension_listing::render::render_list;
use extension_listing::report::list_report;
use extension_listing::text::{compare_text, push_decimal, TextOrder};

fn plugin(identifier: &str, default_enabled: bool, node_analysis: bool, after_analysis: bool) -> AnalyzerPlugin {
    AnalyzerPlugin {
        identifier: identifier.to_owned(),
        name: identifier.to_owned(),
        description: "A plugin.".to_owned(),
        aliases: Vec::new(),
        default_enabled,
        initialization: false,
        before_analysis: false,
        after_file_analysis: false,
        node_analysis,
        after_analysis,
    }
}

fn rule(code: &str) -> LinterRule {
    LinterRule {
        code: code.to_owned(),
        name: code.to_owned(),
        description: "A rule.".to_owned(),
        default_level: Severity::Error,
        default_enabled: true,
        targets: vec!["Class".to_owned()],
    }
}

fn analyzer_extension(identifier: &str, name: &str, version: &str, plugins: Vec<AnalyzerPlugin>) -> AnalyzerExtension {
    AnalyzerExtension {
        identifier: identifier.to_owned(),
        name: name.to_owned(),
        version: version.to_owned(),
        plugins,
    }
}

fn linter_extension(identifier: &str, name: &str, version: &str, rules: Vec<LinterRule>) -> LinterExtension {
    LinterExtension { identifier: identifier.to_owned(), name: name.to_owned(), version: version.to_owned(), rules }
}

fn host(name: &str, enabled: bool, workers: usize, worker_count: usize) -> ExtensionHost {
    ExtensionHost { name: name.to_owned(), enabled, workers, worker_count, has_command: true }
}

fn text_of(output: CommandOutput<'_>) -> String {
    match output {
        CommandOutput::Text(text) => text,
        CommandOutput::Report(report) => panic!("expected text, got {report:?}"),
    }
}

#[test]
fn joins_an_extension_registering_only_analyzer_plugins() {
    let linter = vec![linter_extension("acme/rules", "Acme Rules", "1.0.0", vec![rule("acme/one")])];
    let analyzer = vec![analyzer_extension(
        "acme/plugins",
        "Acme Plugins",
        "2.0.0",
        vec![plugin("acme/doctrine", true, true, false)],
    )];

    let listed = join_registrations(&linter, &analyzer);

    // Before the join, an extension advertising analyzer plugins and no
    // linter rules did not appear in the listing at all.
    assert_eq!(listed.len(), 2);
    assert_eq!(listed.get("acme/plugins").unwrap().plugins.len(), 1);
    assert_eq!(listed.get("acme/plugins").unwrap().version, "2.0.0");
    assert!(listed.get("acme/plugins").unwrap().rules.is_empty());
    assert!(listed.get("acme/rules").unwrap().plugins.is_empty());
}

#[test]
fn renders_plugins_with_their_hooks_and_whether_they_run() {
    let analyzer = vec![analyzer_extension(
        "acme/conventions",
        "Conventions",
        "1.2.0",
        vec![plugin("acme/doctrine", true, true, true), plugin("acme/symfony-security", false, true, false)],
    )];
    let listed = join_registrations(&[], &analyzer);

    let output = render_list(&[], &listed, &[], false);

    assert!(output.contains("  Analyzer plugins: 2\n"), "{output}");
    assert!(
        output.contains("    acme/doctrine (enabled) \u{2014} 2 hook(s): node-analysis, after-analysis\n"),
        "{output}"
    );
    // The most common extension misconfiguration: registered, validated, and
    // never invoked because `analyzer.plugins` does not select it.
    assert!(
        output.contains(
            "    acme/symfony-security (not enabled; add it to analyzer.plugins) \u{2014} 1 hook(s): node-analysis\n"
        ),
        "{output}"
    );
}

#[test]
fn a_selected_plugin_is_reported_as_enabled() {
    let analyzer = vec![analyzer_extension(
        "acme/conventions",
        "Conventions",
        "1.2.0",
        vec![plugin("acme/symfony-security", false, true, false)],
    )];
    let listed = join_registrations(&[], &analyzer);
    let selected = vec!["acme/symfony-security".to_owned()];

    let output = render_list(&[], &listed, &selected, false);
    assert!(output.contains("    acme/symfony-security (enabled)"), "{output}");

    let report = list_report(&[], &listed, &selected, false);
    assert_eq!(report.extensions[0].analyzer_plugins[0].enabled, true);
    assert_eq!(report.extensions[0].analyzer_plugins[0].hooks, vec!["node-analysis"]);
}

#[test]
fn disabling_defaults_turns_a_default_plugin_off() {
    let analyzer = vec![analyzer_extension(
        "acme/conventions",
        "Conventions",
        "1.2.0",
        vec![plugin("acme/doctrine", true, true, false)],
    )];
    let listed = join_registrations(&[], &analyzer);

    let report = list_report(&[], &listed, &[], true);
    assert_eq!(report.extensions[0].analyzer_plugins[0].enabled, false);
}

#[test]
fn renders_the_whole_listing_exactly() {
    let hosts = vec![host("fixed", true, 3, 3), host("off", false, 2, 2), host("grow", true, 0, 12)];
    let linter = vec![linter_extension("acme/rules", "Acme Rules", "1.0.0", vec![rule("acme/one")])];
    let analyzer = vec![analyzer_extension(
        "acme/plugins",
        "Acme Plugins",
        "2.0.0",
        vec![AnalyzerPlugin { initialization: true, after_file_analysis: true, ..plugin("acme/all", false, false, false) }],
    )];
    let listed = join_registrations(&linter, &analyzer);
    let enabled = enabled_hosts(&hosts);

    let output = render_list(&enabled, &listed, &[], false);

    assert_eq!(
        output,
        "Extension hosts:\n\
         \x20 fixed (3 workers)\n\
         \x20 grow (adaptive, up to 12 workers)\n\
         Registered extensions:\n\
         Acme Plugins (acme/plugins)\n\
         \x20 Version: 2.0.0\n\
         \x20 Linter rules: 0\n\
         \x20 Analyzer plugins: 1\n\
         \x20   acme/all (not enabled; add it to analyzer.plugins) \u{2014} 2 hook(s): initialization, after-file-analysis\n\
         Acme Rules (acme/rules)\n\
         \x20 Version: 1.0.0\n\
         \x20 Linter rules: 1\n\
         \x20   acme/one (error)\n\
         \x20 Analyzer plugins: 0\n"
    );
}

#[test]
fn a_plugin_without_hooks_lists_none() {
    let analyzer = vec![analyzer_extension("acme/quiet", "Quiet", "0.1.0", vec![plugin("acme/idle", true, false, false)])];
    let listed = join_registrations(&[], &analyzer);
    let output = render_list(&[], &listed, &[], false);
    assert!(output.contains("    acme/idle (enabled) \u{2014} 0 hook(s)\n"), "{output}");
}

#[test]
fn listing_is_ordered_by_identifier_and_later_registrations_win() {
    let linter = vec![
        linter_extension("zeta", "Zeta", "1", vec![rule("z/one")]),
        linter_extension("alpha", "Alpha", "1", vec![rule("a/one")]),
        linter_extension("zeta", "Zeta Again", "2", vec![rule("z/two"), rule("z/three")]),
    ];
    let analyzer = vec![
        analyzer_extension("alpha", "Alpha Plugins", "3", vec![plugin("a/p", true, true, false)]),
        analyzer_extension("mid", "Mid", "1", vec![]),
    ];
    let listed = join_registrations(&linter, &analyzer);
    let identifiers: Vec<&str> = listed.entries().iter().map(|entry| entry.identifier).collect();
    assert_eq!(identifiers, vec!["alpha", "mid", "zeta"]);

    let alpha = listed.get("alpha").unwrap();
    assert_eq!(alpha.name, "Alpha Plugins");
    assert_eq!(alpha.version, "3");
    assert_eq!(alpha.rules.len(), 1);
    assert_eq!(alpha.plugins.len(), 1);

    let zeta = listed.get("zeta").unwrap();
    assert_eq!(zeta.name, "Zeta Again");
    assert_eq!(zeta.version, "2");
    assert_eq!(zeta.rules[0].code, "z/two");
    assert!(listed.get("missing").is_none());
    assert_eq!(listed.total_rules(), 3);
    assert_eq!(listed.total_plugins(), 1);
}

#[test]
fn selectors_match_aliases_ignoring_ascii_case() {
    let mut doctrine = plugin("acme/doctrine", false, true, false);
    doctrine.aliases = vec!["Doctrine".to_owned()];
    assert!(doctrine.is_enabled_by(&["DOCTRINE".to_owned()], true));
    assert!(doctrine.is_enabled_by(&["ACME/Doctrine".to_owned()], true));
    assert!(!doctrine.is_enabled_by(&["acme/doctrine-x".to_owned()], false));
    assert!(!doctrine.is_enabled_by(&[], false));
    let default_on = plugin("acme/on", true, false, false);
    assert!(default_on.is_enabled_by(&[], false));
    assert!(!default_on.is_enabled_by(&[], true));
}

#[test]
fn hooks_follow_the_lifecycle_order() {
    let every = AnalyzerPlugin {
        initialization: true,
        before_analysis: true,
        after_file_analysis: true,
        ..plugin("acme/every", false, true, true)
    };
    assert_eq!(
        every.hooks(),
        vec!["initialization", "before-analysis", "after-file-analysis", "node-analysis", "after-analysis"]
    );
    assert!(plugin("acme/none", false, false, false).hooks().is_empty());
}

#[test]
fn severities_are_named_in_lowercase() {
    assert_eq!(Severity::Note.name(), "note");
    assert_eq!(Severity::Help.name(), "help");
    assert_eq!(Severity::Warning.name(), "warning");
    assert_eq!(Severity::Error.name(), "error");
}

#[test]
fn report_lists_hosts_and_extensions() {
    let hosts = vec![host("fixed", true, 3, 3), host("grow", true, 0, 8)];
    let linter = vec![linter_extension("acme/rules", "Acme Rules", "1.0.0", vec![rule("acme/one")])];
    let listed = join_registrations(&linter, &[]);
    let enabled = enabled_hosts(&hosts);
    let report = list_report(&enabled, &listed, &[], false);
    assert_eq!(report.hosts.len(), 2);
    assert_eq!(report.hosts[0].host, "fixed");
    assert!(!report.hosts[0].adaptive);
    assert_eq!(report.hosts[0].workers, 3);
    assert!(report.hosts[1].adaptive);
    assert_eq!(report.hosts[1].workers, 8);
    assert_eq!(report.extensions.len(), 1);
    assert_eq!(report.extensions[0].identifier, "acme/rules");
    assert_eq!(report.extensions[0].linter_rules[0].code, "acme/one");
    assert!(report.extensions[0].analyzer_plugins.is_empty());
}

#[test]
fn validate_counts_extensions_hosts_rules_and_plugins() {
    let hosts = vec![host("one", true, 1, 1), host("two", false, 1, 1), host("three", true, 0, 4)];
    let linter = vec![
        linter_extension("acme/a", "A", "1", vec![rule("a/1"), rule("a/2")]),
        linter_extension("acme/b", "B", "1", vec![rule("b/1")]),
    ];
    let analyzer = vec![analyzer_extension(
        "acme/c",
        "C",
        "1",
        vec![plugin("c/1", true, true, false), plugin("c/2", false, false, true)],
    )];
    let command = ExtensionCommand { command: ExtensionSubcommand::Validate };
    let output = text_of(command.execute(&hosts, Some((&linter, &analyzer)), &[], false));
    assert_eq!(output, "Validated 3 extension(s) from 2 host(s): 3 linter rule(s), 2 analyzer plugin(s).\n");
}

#[test]
fn commands_without_enabled_hosts_say_so() {
    let hosts = vec![host("off", false, 1, 1)];
    let validate = ExtensionCommand { command: ExtensionSubcommand::Validate };
    assert_eq!(text_of(validate.execute(&hosts, None, &[], false)), "No external extensions are configured.\n");
    let list = ExtensionCommand { command: ExtensionSubcommand::List { json: false } };
    assert_eq!(text_of(list.execute(&hosts, None, &[], false)), "No external extensions are configured.\n");
    let json = ExtensionCommand { command: ExtensionSubcommand::List { json: true } };
    match json.execute(&hosts, None, &[], false) {
        CommandOutput::Report(report) => {
            assert!(report.hosts.is_empty());
            assert!(report.extensions.is_empty());
        }
        CommandOutput::Text(text) => panic!("expected a report, got {text}"),
    }
}

#[test]
fn list_command_renders_or_reports_the_join() {
    let hosts = vec![host("main", true, 2, 2)];
    let analyzer = vec![analyzer_extension("acme/c", "C", "1", vec![plugin("c/1", true, true, false)])];
    let list = ExtensionCommand { command: ExtensionSubcommand::List { json: false } };
    let text = text_of(list.execute(&hosts, Some((&[], &analyzer)), &[], false));
    assert!(text.starts_with("Extension hosts:\n  main (2 workers)\nRegistered extensions:\nC (acme/c)\n"), "{text}");
    let json = ExtensionCommand { command: ExtensionSubcommand::List { json: true } };
    match json.execute(&hosts, Some((&[], &analyzer)), &[], false) {
        CommandOutput::Report(report) => {
            assert_eq!(report.hosts.len(), 1);
            assert_eq!(report.extensions[0].analyzer_plugins[0].hooks, vec!["node-analysis"]);
        }
        CommandOutput::Text(text) => panic!("expected a report, got {text}"),
    }
}

#[test]
fn pool_start_follows_the_host_configuration() {
    assert!(matches!(plan_pool_start(&host("off", false, 1, 1)), PoolStart::Skip));
    assert!(matches!(plan_pool_start(&host("fixed", true, 4, 4)), PoolStart::Spawn { size: 4, adaptive: false }));
    assert!(matches!(plan_pool_start(&host("grow", true, 0, 6)), PoolStart::Spawn { size: 6, adaptive: true }));
    let commandless = ExtensionHost { has_command: false, ..host("bare", true, 1, 1) };
    match plan_pool_start(&commandless) {
        PoolStart::MissingCommand(message) => assert_eq!(message, "enabled extension host `bare` has no command"),
        other => panic!("expected a missing command, got {other:?}"),
    }
    assert!(has_enabled_host(&[host("off", false, 1, 1), host("on", true, 1, 1)]));
    assert!(!has_enabled_host(&[host("off", false, 1, 1)]));
}

#[test]
fn decimal_numbers_and_text_order() {
    let mut out = String::from("n=");
    push_decimal(&mut out, 0);
    push_decimal(&mut out, 1907);
    assert_eq!(out, "n=01907");
    assert_eq!(compare_text("acme/a", "acme/b"), TextOrder::Less);
    assert_eq!(compare_text("acme", "acme/b"), TextOrder::Less);
    assert_eq!(compare_text("acme/b", "acme"), TextOrder::Greater);
    assert_eq!(compare_text("\u{e9}", "z"), TextOrder::Greater);
    assert_eq!(compare_text("same", "same"), TextOrder::Equal);
}

fn shown(listing: &extension_listing::listing::Listing<'_>) -> Vec<(String, usize, usize)> {
    listing
        .entries()
        .iter()
        .map(|entry| (format!("{} {} {}", entry.identifier, entry.name, entry.version), entry.rules.len(), entry.plugins.len()))
        .collect()
}

#[test]
fn joining_twice_gives_the_same_listing() {
    let linter = vec![
        linter_extension("b", "B", "1", vec![rule("b/1")]),
        linter_extension("a", "A", "1", vec![]),
    ];
    let analyzer = vec![analyzer_extension("c", "C", "2", vec![plugin("c/1", false, false, false)])];
    let first = join_registrations(&linter, &analyzer);
    let second = join_registrations(&linter, &analyzer);
    let first_shown = shown(&first);
    assert_eq!(first_shown, shown(&second));
    assert_eq!(first_shown, vec![("a A 1".to_owned(), 0, 0), ("b B 1".to_owned(), 1, 0), ("c C 2".to_owned(), 0, 1)]);
}
