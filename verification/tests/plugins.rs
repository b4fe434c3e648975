use launcher_core::launch::{find_entry, launch_plan, sensible_terminals, AppEntry, Config, LaunchPlan};
use launcher_core::symbols::build_symbols;
use launcher_core::windows::{build_window_entries, find_address};

fn entry(id: u64, name: &str, command: &str, term: bool, path: Option<&str>) -> AppEntry {
    AppEntry {
        id,
        name: String::from(name),
        desc: None,
        icon: String::from("icon"),
        command: String::from(command),
        term,
        path: path.map(String::from),
    }
}

#[test]
fn default_config_matches_the_documented_one() {
    let c = Config::default();
    assert!(!c.desktop_actions);
    assert_eq!(c.max_entries, 5);
    assert_eq!(c.terminal, Some(String::from("wezterm")));
}

#[test]
fn terminal_entry_uses_the_configured_terminal() {
    let e = entry(1, "editor", "hx", true, None);
    match launch_plan(&e, &Some(String::from("foot"))) {
        LaunchPlan::InTerminal { terminal, command } => {
            assert_eq!(terminal, "foot");
            assert_eq!(command, "hx");
        }
        _ => panic!("expected the configured terminal"),
    }
}

#[test]
fn terminal_entry_without_config_tries_the_fallback_list() {
    let e = entry(1, "editor", "hx", true, None);
    match launch_plan(&e, &None) {
        LaunchPlan::InFallbackTerminal { candidates, command } => {
            assert_eq!(
                candidates,
                vec![
                    String::from("alacritty"),
                    String::from("foot"),
                    String::from("kitty"),
                    String::from("wezterm"),
                    String::from("wterm")
                ]
            );
            assert_eq!(command, "hx");
        }
        _ => panic!("expected the fallback terminals"),
    }
}

#[test]
fn plain_entry_runs_through_the_shell_in_its_directory() {
    let e = entry(1, "app", "run --flag", false, Some("/opt/app"));
    match launch_plan(&e, &Some(String::from("foot"))) {
        LaunchPlan::InShell { command, dir } => {
            assert_eq!(command, "run --flag");
            assert_eq!(dir, Some(String::from("/opt/app")));
        }
        _ => panic!("expected the shell"),
    }
}

#[test]
fn sensible_terminals_are_fixed_and_ordered() {
    let t = sensible_terminals();
    assert_eq!(t.len(), 5);
    assert_eq!(t[0], "alacritty");
    assert_eq!(t[4], "wterm");
}

#[test]
fn find_entry_picks_the_selected_id() {
    let entries = vec![entry(7, "a", "a", false, None), entry(9, "b", "b", false, None)];
    assert_eq!(find_entry(&entries, 9).map(|e| e.name.clone()), Some(String::from("b")));
    assert!(find_entry(&entries, 8).is_none());
}

#[test]
fn window_entries_skip_blank_windows_and_join_class_and_title() {
    let listed = vec![
        (String::from("firefox"), String::from("Home"), String::from("0x1")),
        (String::from(""), String::from(""), String::from("0x2")),
        (String::from("kitty"), String::from(""), String::from("0x3")),
    ];
    let windows = build_window_entries(listed);
    assert_eq!(windows.len(), 2);
    assert_eq!(windows[0].id, 0);
    assert_eq!(windows[0].search, "firefox: Home");
    assert_eq!(windows[1].id, 1);
    assert_eq!(windows[1].search, "kitty: ");
    assert_eq!(windows[1].address, "0x3");
}

#[test]
fn find_address_picks_the_selected_window() {
    let listed = vec![
        (String::from("a"), String::from("x"), String::from("0x1")),
        (String::from("b"), String::from("y"), String::from("0x2")),
    ];
    let windows = build_window_entries(listed);
    assert_eq!(find_address(&windows, 1), Some(String::from("0x2")));
    assert_eq!(find_address(&windows, 3), None);
}

#[test]
fn symbols_join_the_builtin_table_and_the_additions() {
    let base = vec![(String::from("bullet"), String::from("\u{2022}"))];
    let extra = vec![(String::from("shrug"), String::from("(shrug)"))];
    let symbols = build_symbols(base, extra);
    assert_eq!(symbols.len(), 2);
    assert_eq!(symbols[0].name, "bullet");
    assert_eq!(symbols[0].chr, "\u{2022}");
    assert_eq!(symbols[1].name, "shrug");
    assert_eq!(symbols[1].chr, "(shrug)");
}
