use komorebi::config_generation::{
    ApplicationConfiguration, ApplicationConfigurationGenerator, ApplicationIdentifier,
    ApplicationOptions, IdWithIdentifier, IdWithIdentifierAndComment, MatchingRule,
    MatchingStrategy, WorkspaceMatchingRule,
};

fn rule(kind: ApplicationIdentifier, id: &str) -> IdWithIdentifier {
    IdWithIdentifier { kind, id: id.to_string(), matching_strategy: None }
}

fn app(name: &str, kind: ApplicationIdentifier, id: &str) -> ApplicationConfiguration {
    ApplicationConfiguration {
        name: name.to_string(),
        identifier: rule(kind, id),
        options: None,
        ignore_identifiers: None,
    }
}

fn names(apps: &[ApplicationConfiguration]) -> Vec<String> {
    apps.iter().map(|a| a.name.clone()).collect()
}

fn ids(apps: &[ApplicationConfiguration]) -> Vec<String> {
    apps.iter().map(|a| a.identifier.id.clone()).collect()
}

#[test]
fn identifier_spelling() {
    assert_eq!(ApplicationIdentifier::Exe.as_str(), "exe");
    assert_eq!(ApplicationIdentifier::Class.as_str(), "class");
    assert_eq!(ApplicationIdentifier::Title.as_str(), "title");
    assert_eq!(ApplicationIdentifier::Path.as_str(), "path");
}

#[test]
fn raw_cfgen_of_each_option() {
    let kind = ApplicationIdentifier::Exe;
    assert_eq!(
        ApplicationOptions::ObjectNameChange.raw_cfgen(&kind, "a.exe"),
        "komorebic.exe identify-object-name-change-application exe \"a.exe\""
    );
    assert_eq!(
        ApplicationOptions::Layered.raw_cfgen(&ApplicationIdentifier::Class, "Foo Bar"),
        "komorebic.exe identify-layered-application class \"Foo Bar\""
    );
    assert_eq!(
        ApplicationOptions::TrayAndMultiWindow.raw_cfgen(&ApplicationIdentifier::Title, ""),
        "komorebic.exe identify-tray-application title \"\""
    );
    assert_eq!(
        ApplicationOptions::Force.raw_cfgen(&ApplicationIdentifier::Path, "C:\\x\\y.exe"),
        "komorebic.exe manage-rule path \"C:\\x\\y.exe\""
    );
}

#[test]
fn cfgen_wraps_the_raw_command() {
    assert_eq!(
        ApplicationOptions::Force.cfgen(&ApplicationIdentifier::Exe, "a.exe"),
        "RunWait('komorebic.exe manage-rule exe \"a.exe\"', , \"Hide\")"
    );
    assert_eq!(
        ApplicationOptions::Layered.cfgen(&ApplicationIdentifier::Class, "K"),
        "RunWait('komorebic.exe identify-layered-application class \"K\"', , \"Hide\")"
    );
}

#[test]
fn comment_is_dropped_in_conversion() {
    let with_comment = IdWithIdentifierAndComment {
        kind: ApplicationIdentifier::Title,
        id: "Settings".to_string(),
        comment: Some("the settings window".to_string()),
        matching_strategy: Some(MatchingStrategy::StartsWith),
    };
    let plain = IdWithIdentifier::from(with_comment);
    assert_eq!(
        plain,
        IdWithIdentifier {
            kind: ApplicationIdentifier::Title,
            id: "Settings".to_string(),
            matching_strategy: Some(MatchingStrategy::StartsWith),
        }
    );
}

#[test]
fn default_strategy_for_exe_and_path_only() {
    for (kind, expected) in [
        (ApplicationIdentifier::Exe, Some(MatchingStrategy::Equals)),
        (ApplicationIdentifier::Path, Some(MatchingStrategy::Equals)),
        (ApplicationIdentifier::Class, None),
        (ApplicationIdentifier::Title, None),
    ] {
        let mut a = app("A", kind, "x");
        a.populate_default_matching_strategies();
        assert_eq!(a.identifier.matching_strategy, expected);
        assert_eq!(a.identifier.id, "x");
        assert_eq!(a.identifier.kind, kind);
        assert_eq!(a.name, "A");
    }
}

#[test]
fn default_strategy_keeps_a_written_one() {
    let mut a = app("A", ApplicationIdentifier::Exe, "x");
    a.identifier.matching_strategy = Some(MatchingStrategy::Regex);
    a.populate_default_matching_strategies();
    assert_eq!(a.identifier.matching_strategy, Some(MatchingStrategy::Regex));
    let mut b = app("B", ApplicationIdentifier::Class, "x");
    b.identifier.matching_strategy = Some(MatchingStrategy::Legacy);
    b.populate_default_matching_strategies();
    assert_eq!(b.identifier.matching_strategy, Some(MatchingStrategy::Legacy));
}

#[test]
fn has_commands_spots_the_deprecated_option() {
    let mut a = app("A", ApplicationIdentifier::Exe, "x");
    assert!(a.has_commands());
    a.options = Some(vec![]);
    assert!(a.has_commands());
    a.options = Some(vec![ApplicationOptions::Force, ApplicationOptions::Layered]);
    assert!(a.has_commands());
    a.options = Some(vec![ApplicationOptions::Force, ApplicationOptions::BorderOverflow]);
    assert!(!a.has_commands());
}

#[test]
fn sort_orders_names_as_text() {
    let apps = vec![
        app("b", ApplicationIdentifier::Exe, "1"),
        app("a", ApplicationIdentifier::Exe, "2"),
        app("B", ApplicationIdentifier::Exe, "3"),
        app("ab", ApplicationIdentifier::Exe, "4"),
        app("", ApplicationIdentifier::Exe, "5"),
        app("é", ApplicationIdentifier::Exe, "6"),
        app("a b", ApplicationIdentifier::Exe, "7"),
        app("Zed", ApplicationIdentifier::Exe, "8"),
    ];
    let sorted = ApplicationConfigurationGenerator::sort_by_name(apps.clone());
    assert_eq!(names(&sorted), vec!["", "B", "Zed", "a", "a b", "ab", "b", "é"]);
    let mut expected = apps;
    expected.sort_by(|a, b| a.name.cmp(&b.name));
    assert_eq!(names(&sorted), names(&expected));
    assert_eq!(ids(&sorted), ids(&expected));
}

#[test]
fn sort_keeps_the_order_of_equal_names() {
    let apps = vec![
        app("m", ApplicationIdentifier::Exe, "1"),
        app("a", ApplicationIdentifier::Exe, "2"),
        app("m", ApplicationIdentifier::Exe, "3"),
        app("a", ApplicationIdentifier::Exe, "4"),
        app("m", ApplicationIdentifier::Exe, "5"),
    ];
    let sorted = ApplicationConfigurationGenerator::sort_by_name(apps);
    assert_eq!(names(&sorted), vec!["a", "a", "m", "m", "m"]);
    assert_eq!(ids(&sorted), vec!["2", "4", "1", "3", "5"]);
}

#[test]
fn sort_of_nothing_and_of_one() {
    assert!(ApplicationConfigurationGenerator::sort_by_name(vec![]).is_empty());
    let one = ApplicationConfigurationGenerator::sort_by_name(vec![app(
        "x",
        ApplicationIdentifier::Exe,
        "1",
    )]);
    assert_eq!(names(&one), vec!["x"]);
}

#[test]
fn format_fills_defaults_and_sorts() {
    let formatted = ApplicationConfigurationGenerator::format(vec![
        app("Zoom", ApplicationIdentifier::Class, "Z"),
        app("Alacritty", ApplicationIdentifier::Exe, "alacritty.exe"),
        app("Mail", ApplicationIdentifier::Path, "C:\\mail.exe"),
    ]);
    assert_eq!(names(&formatted), vec!["Alacritty", "Mail", "Zoom"]);
    assert_eq!(formatted[0].identifier.matching_strategy, Some(MatchingStrategy::Equals));
    assert_eq!(formatted[1].identifier.matching_strategy, Some(MatchingStrategy::Equals));
    assert_eq!(formatted[2].identifier.matching_strategy, None);
}

#[test]
fn merge_replaces_by_name_and_appends_the_rest() {
    let base = vec![
        app("A", ApplicationIdentifier::Exe, "a-base"),
        app("B", ApplicationIdentifier::Exe, "b-base"),
        app("C", ApplicationIdentifier::Exe, "c-base"),
    ];
    let overrides = vec![
        app("B", ApplicationIdentifier::Class, "b-over"),
        app("D", ApplicationIdentifier::Exe, "d-over"),
    ];
    let all = ApplicationConfigurationGenerator::merge(base, overrides);
    assert_eq!(names(&all), vec!["A", "B", "C", "D"]);
    assert_eq!(ids(&all), vec!["a-base", "b-over", "c-base", "d-over"]);
    assert_eq!(all[1].identifier.kind, ApplicationIdentifier::Class);
}

#[test]
fn merge_targets_the_last_base_entry_of_a_name() {
    let base = vec![
        app("A", ApplicationIdentifier::Exe, "first"),
        app("B", ApplicationIdentifier::Exe, "b"),
        app("A", ApplicationIdentifier::Exe, "second"),
    ];
    let overrides = vec![app("A", ApplicationIdentifier::Exe, "over")];
    let all = ApplicationConfigurationGenerator::merge(base, overrides);
    assert_eq!(ids(&all), vec!["first", "b", "over"]);
}

#[test]
fn merge_applies_overrides_in_order() {
    let base = vec![app("A", ApplicationIdentifier::Exe, "base")];
    let overrides = vec![
        app("A", ApplicationIdentifier::Exe, "one"),
        app("N", ApplicationIdentifier::Exe, "new-1"),
        app("A", ApplicationIdentifier::Exe, "two"),
        app("N", ApplicationIdentifier::Exe, "new-2"),
    ];
    let all = ApplicationConfigurationGenerator::merge(base, overrides);
    assert_eq!(names(&all), vec!["A", "N", "N"]);
    assert_eq!(ids(&all), vec!["two", "new-1", "new-2"]);
}

#[test]
fn merge_with_empty_sides() {
    let all = ApplicationConfigurationGenerator::merge(vec![], vec![]);
    assert!(all.is_empty());
    let all = ApplicationConfigurationGenerator::merge(
        vec![app("A", ApplicationIdentifier::Exe, "a")],
        vec![],
    );
    assert_eq!(ids(&all), vec!["a"]);
    let all = ApplicationConfigurationGenerator::merge(
        vec![],
        vec![app("A", ApplicationIdentifier::Exe, "a")],
    );
    assert_eq!(ids(&all), vec!["a"]);
}

fn firefox() -> ApplicationConfiguration {
    ApplicationConfiguration {
        name: "Firefox".to_string(),
        identifier: rule(ApplicationIdentifier::Exe, "firefox.exe"),
        options: Some(vec![
            ApplicationOptions::ObjectNameChange,
            ApplicationOptions::TrayAndMultiWindow,
        ]),
        ignore_identifiers: Some(vec![
            MatchingRule::Simple(rule(ApplicationIdentifier::Class, "MozillaDropShadowWindowClass")),
            MatchingRule::Composite(vec![
                rule(ApplicationIdentifier::Exe, "firefox.exe"),
                rule(ApplicationIdentifier::Title, "Picture-in-Picture"),
            ]),
        ]),
    }
}

fn discord() -> ApplicationConfiguration {
    ApplicationConfiguration {
        name: "Discord".to_string(),
        identifier: rule(ApplicationIdentifier::Exe, "Discord.exe"),
        options: Some(vec![ApplicationOptions::Layered, ApplicationOptions::Force]),
        ignore_identifiers: Some(vec![
            MatchingRule::Simple(rule(ApplicationIdentifier::Class, "MozillaDropShadowWindowClass")),
            MatchingRule::Simple(rule(ApplicationIdentifier::Title, "Updater")),
            MatchingRule::Simple(rule(ApplicationIdentifier::Title, "Updater")),
        ]),
    }
}

#[test]
fn pwsh_script_of_two_applications() {
    let lines = ApplicationConfigurationGenerator::generate_pwsh(vec![firefox(), discord()], None);
    assert_eq!(
        lines,
        vec![
            "# Generated by komorebic.exe",
            "",
            "# Discord",
            "komorebic.exe identify-layered-application exe \"Discord.exe\"",
            "komorebic.exe manage-rule exe \"Discord.exe\"",
            "komorebic.exe float-rule class \"MozillaDropShadowWindowClass\"",
            "komorebic.exe float-rule title \"Updater\"",
            "",
            "# Firefox",
            "komorebic.exe identify-object-name-change-application exe \"firefox.exe\"",
            "# If you have disabled minimize/close to tray for this application, you can delete/comment out the next line",
            "komorebic.exe identify-tray-application exe \"firefox.exe\"",
            "",
        ]
    );
}

#[test]
fn ahk_script_of_two_applications() {
    let lines = ApplicationConfigurationGenerator::generate_ahk(vec![firefox(), discord()], None);
    assert_eq!(
        lines,
        vec![
            "; Generated by komorebic.exe",
            "",
            "; Discord",
            "RunWait('komorebic.exe identify-layered-application exe \"Discord.exe\"', , \"Hide\")",
            "RunWait('komorebic.exe manage-rule exe \"Discord.exe\"', , \"Hide\")",
            "RunWait('komorebic.exe float-rule class \"MozillaDropShadowWindowClass\"', , \"Hide\")",
            "RunWait('komorebic.exe float-rule title \"Updater\"', , \"Hide\")",
            "",
            "; Firefox",
            "RunWait('komorebic.exe identify-object-name-change-application exe \"firefox.exe\"', , \"Hide\")",
            "; If you have disabled minimize/close to tray for this application, you can delete/comment out the next line",
            "RunWait('komorebic.exe identify-tray-application exe \"firefox.exe\"', , \"Hide\")",
            "",
        ]
    );
}

#[test]
fn script_of_nothing_is_the_header() {
    assert_eq!(
        ApplicationConfigurationGenerator::generate_pwsh(vec![], None),
        vec!["# Generated by komorebic.exe", ""]
    );
    assert_eq!(
        ApplicationConfigurationGenerator::generate_ahk(vec![], Some(vec![])),
        vec!["; Generated by komorebic.exe", ""]
    );
}

#[test]
fn script_without_options_or_rules() {
    let lines = ApplicationConfigurationGenerator::generate_pwsh(
        vec![app("Plain", ApplicationIdentifier::Exe, "plain.exe")],
        None,
    );
    assert_eq!(lines, vec!["# Generated by komorebic.exe", "", "# Plain", ""]);
    let mut empty_lists = app("Plain", ApplicationIdentifier::Exe, "plain.exe");
    empty_lists.options = Some(vec![]);
    empty_lists.ignore_identifiers = Some(vec![]);
    let lines = ApplicationConfigurationGenerator::generate_ahk(vec![empty_lists], None);
    assert_eq!(lines, vec!["; Generated by komorebic.exe", "", "; Plain", ""]);
}

#[test]
fn script_merges_overrides_before_sorting() {
    let mut over = app("Firefox", ApplicationIdentifier::Class, "MozillaWindowClass");
    over.options = Some(vec![ApplicationOptions::Force]);
    let lines = ApplicationConfigurationGenerator::generate_pwsh(
        vec![firefox(), app("Zed", ApplicationIdentifier::Exe, "zed.exe")],
        Some(vec![over, app("Alacritty", ApplicationIdentifier::Exe, "alacritty.exe")]),
    );
    assert_eq!(
        lines,
        vec![
            "# Generated by komorebic.exe",
            "",
            "# Alacritty",
            "",
            "# Firefox",
            "komorebic.exe manage-rule class \"MozillaWindowClass\"",
            "",
            "# Zed",
            "",
        ]
    );
}

#[test]
fn an_overridden_deprecated_option_does_no_harm() {
    let mut old = app("Old", ApplicationIdentifier::Exe, "old.exe");
    old.options = Some(vec![ApplicationOptions::BorderOverflow]);
    assert!(!old.has_commands());
    let merged = ApplicationConfigurationGenerator::merge(
        vec![old],
        vec![app("Old", ApplicationIdentifier::Exe, "new.exe")],
    );
    assert!(merged.iter().all(|a| a.has_commands()));
    let lines = ApplicationConfigurationGenerator::generate_pwsh(merged, None);
    assert_eq!(lines, vec!["# Generated by komorebic.exe", "", "# Old", ""]);
}

#[test]
fn workspace_rule_holds_its_fields() {
    let r = WorkspaceMatchingRule {
        monitor_index: 1,
        workspace_index: 2,
        matching_rule: MatchingRule::Simple(rule(ApplicationIdentifier::Exe, "a.exe")),
        initial_only: true,
    };
    assert_eq!(r.clone(), r);
    assert_eq!(r.monitor_index, 1);
    assert_eq!(r.workspace_index, 2);
    assert!(r.initial_only);
}
