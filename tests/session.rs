use colorschemer::args::{given_value, parse_args, resolve_args, Command};
use colorschemer::config::{compose_config, current_theme_from, MARKER_FILE_NAME};
use colorschemer::cycler::{Action, Cycler, Key, StartError};
use colorschemer::order::{name_leq, sort_names};
use colorschemer::themes::{theme_names, ThemeEntry};

fn file(name: &str) -> ThemeEntry {
    ThemeEntry { name: name.to_string(), is_file: true }
}

fn dir(name: &str) -> ThemeEntry {
    ThemeEntry { name: name.to_string(), is_file: false }
}

fn content_of(name: &str) -> &'static str {
    match name {
        "a.toml" => "fg=1\n",
        "b.toml" => "fg=2\n",
        _ => panic!("no such theme"),
    }
}

fn next_theme(c: &mut Cycler) -> String {
    match c.press(Key::Next) {
        Action::Show { theme } => theme,
        other => panic!("unexpected action {:?}", other),
    }
}

#[test]
fn example_session_confirm() {
    let base = "palette]\n";
    let mut c = Cycler::start(vec![file("b.toml"), file("a.toml")], None).unwrap();
    assert_eq!(c.current(), "");
    assert_eq!(c.shown(), None);

    let t = next_theme(&mut c);
    assert_eq!(t, "a.toml");
    let output = compose_config(base, content_of(&t));
    assert_eq!(output, "palette]\nfg=1\n");
    assert_eq!(c.shown(), Some("a.toml"));

    let t = next_theme(&mut c);
    assert_eq!(t, "b.toml");
    let output = compose_config(base, content_of(&t));
    assert_eq!(output, "palette]\nfg=2\n");

    let t = next_theme(&mut c);
    assert_eq!(t, "a.toml");
    let output = compose_config(base, content_of(&t));
    assert_eq!(output, "palette]\nfg=1\n");

    assert!(matches!(c.press(Key::Confirm), Action::Accept));
    assert_eq!(output, "palette]\nfg=1\n");
}

#[test]
fn full_cycle_returns_to_first() {
    let names = ["c", "a", "d", "b"];
    let entries: Vec<ThemeEntry> = names.iter().map(|n| file(n)).collect();
    let mut c = Cycler::start(entries, None).unwrap();
    let first = next_theme(&mut c);
    assert_eq!(first, "a");
    let mut seen = Vec::new();
    for _ in 0..c.len() {
        seen.push(next_theme(&mut c));
    }
    assert_eq!(seen, vec!["b", "c", "d", "a"]);
    assert_eq!(seen.last().unwrap(), &first);
}

#[test]
fn single_theme_repeats() {
    let mut c = Cycler::start(vec![file("only.toml")], None).unwrap();
    for _ in 0..3 {
        assert_eq!(next_theme(&mut c), "only.toml");
    }
}

#[test]
fn cancel_reverts_to_trimmed_original() {
    let mut c = Cycler::start(vec![file("a.toml"), file("b.toml")], Some(" b.toml\n".to_string())).unwrap();
    assert_eq!(c.current(), " b.toml\n");
    next_theme(&mut c);
    next_theme(&mut c);
    next_theme(&mut c);
    match c.press(Key::Cancel) {
        Action::Revert { theme } => {
            assert_eq!(theme, "b.toml");
            assert_eq!(compose_config("palette]\n", content_of(&theme)), "palette]\nfg=2\n");
        }
        other => panic!("unexpected action {:?}", other),
    }
}

#[test]
fn cancel_without_advancing() {
    let mut c = Cycler::start(vec![file("a.toml")], Some("a.toml".to_string())).unwrap();
    assert!(matches!(c.press(Key::Cancel), Action::Revert { theme } if theme == "a.toml"));
}

#[test]
fn confirm_writes_nothing() {
    let mut c = Cycler::start(vec![file("a.toml")], Some("b.toml".to_string())).unwrap();
    next_theme(&mut c);
    assert!(matches!(c.press(Key::Confirm), Action::Accept));
    assert_eq!(c.current(), "b.toml");
}

#[test]
fn other_keys_are_ignored() {
    let mut c = Cycler::start(vec![file("a.toml"), file("b.toml")], None).unwrap();
    next_theme(&mut c);
    assert!(matches!(c.press(Key::Other), Action::Ignore));
    assert_eq!(c.shown(), Some("a.toml"));
    assert_eq!(next_theme(&mut c), "b.toml");
}

#[test]
fn no_regular_files_is_an_error() {
    assert!(matches!(Cycler::start(vec![], None), Err(StartError::NoThemes)));
    assert!(matches!(Cycler::start(vec![dir("sub"), dir("other")], None), Err(StartError::NoThemes)));
    assert!(matches!(Cycler::new(vec![], String::new()), Err(StartError::NoThemes)));
}

#[test]
fn missing_marker_means_empty_current() {
    assert_eq!(current_theme_from(None), "");
    assert_eq!(current_theme_from(Some("x.toml\n".to_string())), "x.toml\n");
    let c = Cycler::start(vec![file("a.toml")], None).unwrap();
    assert_eq!(c.current(), "");
    assert_eq!(MARKER_FILE_NAME, "curr_color");
}

#[test]
fn theme_names_keep_files_only_sorted() {
    let entries = vec![file("zeta.toml"), dir("nested"), file("Beta.toml"), file("alpha.toml")];
    assert_eq!(theme_names(entries), vec!["Beta.toml", "alpha.toml", "zeta.toml"]);
    assert_eq!(theme_names(vec![]), Vec::<String>::new());
}

#[test]
fn name_order_is_bytewise() {
    assert!(name_leq("a", "b"));
    assert!(!name_leq("b", "a"));
    assert!(name_leq("B", "a"));
    assert!(name_leq("ab", "abc"));
    assert!(!name_leq("abc", "ab"));
    assert!(name_leq("same", "same"));
    assert!(name_leq("", ""));
    assert!(name_leq("z", "\u{e9}"));
}

#[test]
fn sort_names_sorts_and_keeps_duplicates() {
    let v = vec!["b".to_string(), "a".to_string(), "b".to_string(), "A".to_string()];
    assert_eq!(sort_names(v), vec!["A", "a", "b", "b"]);
}

#[test]
fn compose_config_concatenates() {
    assert_eq!(compose_config("palette]\n", "fg=1\n"), "palette]\nfg=1\n");
    assert_eq!(compose_config("", "x"), "x");
    assert_eq!(compose_config("base", ""), "base");
}

#[test]
fn resolve_args_defaults() {
    let a = resolve_args(None, None, None, None);
    assert_eq!(a.root_config, "~/.config/alacritty/");
    assert_eq!(a.themes_dir, "themes");
    assert_eq!(a.base_config_file, "base.toml");
    assert_eq!(a.out_file, "alacritty.toml");
    let b = resolve_args(Some("/r".into()), Some("t".into()), Some("b".into()), Some("o".into()));
    assert_eq!(b.root_config, "/r");
    assert_eq!(b.themes_dir, "t");
    assert_eq!(b.base_config_file, "b");
    assert_eq!(b.out_file, "o");
}

#[test]
fn parse_args_reads_options() {
    let mut p = pico_args::Arguments::from_vec(vec!["--themes".into(), "dark".into(), "--out-file".into(), "x.toml".into()]);
    match parse_args(&mut p) {
        Command::Run(a) => {
            assert_eq!(a.root_config, "~/.config/alacritty/");
            assert_eq!(a.themes_dir, "dark");
            assert_eq!(a.base_config_file, "base.toml");
            assert_eq!(a.out_file, "x.toml");
        }
        Command::Help => panic!("help not asked for"),
    }
    assert!(p.finish().is_empty());
}

#[test]
fn parse_args_help_and_leftovers() {
    let mut p = pico_args::Arguments::from_vec(vec!["-h".into()]);
    assert!(matches!(parse_args(&mut p), Command::Help));
    let mut q = pico_args::Arguments::from_vec(vec!["--root".into(), "/cfg".into(), "extra".into()]);
    match parse_args(&mut q) {
        Command::Run(a) => assert_eq!(a.root_config, "/cfg"),
        Command::Help => panic!("help not asked for"),
    }
    assert_eq!(q.finish().len(), 1);
    let mut r = pico_args::Arguments::from_vec(vec!["--themes".into()]);
    match parse_args(&mut r) {
        Command::Run(a) => assert_eq!(a.themes_dir, "themes"),
        Command::Help => panic!("help not asked for"),
    }
}

#[test]
fn given_value_maps_errors_to_none() {
    let mut p = pico_args::Arguments::from_vec(vec![]);
    let missing: Result<String, pico_args::Error> = p.value_from_str("--root");
    assert_eq!(given_value(missing), None);
    assert_eq!(given_value(Ok("v".to_string())), Some("v".to_string()));
}

#[test]
fn parse_args_long_help_flag() {
    let mut p = pico_args::Arguments::from_vec(vec!["--root".into(), "/x".into(), "--help".into()]);
    assert!(matches!(parse_args(&mut p), Command::Help));
    assert_eq!(p.finish().len(), 2);
}

#[test]
fn parse_args_value_is_next_argument() {
    let mut p = pico_args::Arguments::from_vec(vec!["--root".into(), "--themes".into(), "--base-config".into(), "b.toml".into()]);
    match parse_args(&mut p) {
        Command::Run(a) => {
            assert_eq!(a.root_config, "--themes");
            assert_eq!(a.themes_dir, "themes");
            assert_eq!(a.base_config_file, "b.toml");
            assert_eq!(a.out_file, "alacritty.toml");
        }
        Command::Help => panic!("help not asked for"),
    }
    assert!(p.finish().is_empty());
}
