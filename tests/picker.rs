use sessionizer::config::{parse_dirs, parse_layout, parse_root_files, Config, Layout};
use sessionizer::discovery::DirEntry;
use sessionizer::path::{file_name, host_path, is_hidden, join, parent, strip_prefix, user_path};
use sessionizer::picker::{dir_switch, session_switch, Action, Key, Picker, Screen};
use sessionizer::sesslist::{
    current_session, sessions_from_update, AliveSession, SessList, ALIVE_ICON, RESURRECTABLE_ICON,
};

fn strings(v: &[&str]) -> Vec<String> {
    v.iter().map(|x| x.to_string()).collect()
}

fn alive(name: &str, is_current: bool) -> AliveSession {
    AliveSession { name: name.to_string(), is_current }
}

fn report() -> (Vec<AliveSession>, Vec<String>) {
    (vec![alive("alpha", true), alive("beta", false)], strings(&["gamma"]))
}

#[test]
fn session_report_orders_alive_then_resurrectable() {
    let (a, r) = report();
    let sessions = sessions_from_update(&a, &r);
    let names: Vec<&str> = sessions.iter().map(|s| s.name.as_str()).collect();
    let icons: Vec<&str> = sessions.iter().map(|s| s.icon.as_str()).collect();
    assert_eq!(names, vec!["alpha", "beta", "gamma"]);
    assert_eq!(icons, vec![ALIVE_ICON, ALIVE_ICON, RESURRECTABLE_ICON]);
    assert!(sessions[0].is_current && !sessions[1].is_current && !sessions[2].is_current);
    assert!(sessions[2].resurrectable && !sessions[0].resurrectable);
    assert_eq!(current_session(&a, &String::new()), "alpha");
    assert_eq!(current_session(&vec![alive("x", false)], &"old".to_string()), "old");
}

#[test]
fn switching_to_current_session_is_suppressed() {
    let alpha = "alpha".to_string();
    let acts = session_switch(&alpha, &alpha);
    assert_eq!(acts.len(), 1);
    assert!(matches!(acts[0], Action::Close));
    let acts = session_switch(&"beta".to_string(), &alpha);
    assert_eq!(acts.len(), 2);
    assert!(matches!(&acts[0], Action::SwitchSession(n) if n == "beta"));
    assert!(matches!(acts[1], Action::Close));
}

#[test]
fn picker_session_screen_enter_on_current_only_closes() {
    let (mut p, _) = Picker::load("/", &Config::default());
    let (a, r) = report();
    p.on_session_update(&a, &r);
    assert_eq!(p.current_session(), "alpha");
    p.on_key(Key::Tab);
    assert!(matches!(p.screen(), Screen::SearchSessions));
    let acts = p.on_key(Key::Enter);
    assert_eq!(acts.len(), 1);
    assert!(matches!(acts[0], Action::Close));
    p.on_key(Key::Down);
    let acts = p.on_key(Key::Enter);
    assert!(matches!(&acts[0], Action::SwitchSession(n) if n == "beta"));
    let acts = p.on_key(Key::Kill);
    assert!(matches!(&acts[0], Action::KillSession(n) if n == "beta"));
}

#[test]
fn session_list_renders_icon_and_name() {
    let (a, r) = report();
    let mut l = SessList::new();
    l.update_sessions(sessions_from_update(&a, &r));
    l.handle_down();
    l.handle_down();
    assert_eq!(l.get_selected(), Some("gamma".to_string()));
    assert_eq!(l.kill_selected(), Some("gamma".to_string()));
    let rows = l.render(3, 80);
    assert_eq!(rows[0].text, format!("{} alpha", ALIVE_ICON));
    assert_eq!(rows[2].text, format!("{} gamma", RESURRECTABLE_ICON));
    assert!(rows[2].selected && !rows[0].selected);
    l.set_search_term("ga");
    assert_eq!(l.filtered(), strings(&["gamma"]));
    assert_eq!(l.get_selected(), Some("gamma".to_string()));
    l.filter();
    l.handle_up();
    assert_eq!(l.get_selected(), Some("gamma".to_string()));
    l.reset();
    assert_eq!(l.get_selected(), None);
    assert_eq!(l.kill_selected(), None);
}

#[test]
fn picker_typing_filters_active_list_and_tab_swaps_text() {
    let mut c = Config::default();
    c.root_dirs = strings(&["/work"]);
    c.dirs = strings(&["/opt/tools"]);
    let (mut p, scans) = Picker::load("/", &c);
    assert_eq!(scans, strings(&["/host/work"]));
    let more = p.on_filesystem_update(&vec![DirEntry { path: "/host/work/site".to_string(), is_dir: true }]);
    assert_eq!(more, strings(&["/host/work/site"]));
    p.on_filesystem_update(&vec![DirEntry { path: "/host/work/site/.git".to_string(), is_dir: true }]);
    assert_eq!(p.dir_list().filtered(), strings(&["/opt/tools", "/work/site"]));
    p.on_key(Key::Char('s'));
    p.on_key(Key::Char('i'));
    assert_eq!(p.search_text(), "si");
    assert_eq!(p.dir_list().filtered(), strings(&["/work/site"]));
    p.on_key(Key::Backspace);
    assert_eq!(p.search_text(), "s");
    p.on_key(Key::Tab);
    assert_eq!(p.search_text(), "");
    p.on_key(Key::Tab);
    assert_eq!(p.search_text(), "s");
    let acts = p.on_key(Key::Esc);
    assert!(matches!(acts[0], Action::Close));
    let acts = p.on_key(Key::Enter);
    assert_eq!(acts.len(), 2);
    match &acts[0] {
        Action::SwitchToDir { name, cwd, layout_path } => {
            assert_eq!(name, "tools");
            assert_eq!(cwd, "/opt/tools");
            assert_eq!(layout_path, "/host/opt/tools/layout.kdl");
        }
        _ => panic!("expected a switch"),
    }
    assert!(matches!(p.layout_for(&"/l.kdl".to_string(), true), Layout::File(f) if f == "/l.kdl"));
    assert!(matches!(p.layout_for(&"/l.kdl".to_string(), false), Layout::BuiltIn(n) if n == "default"));
    let rows = p.render(6, 80);
    assert_eq!(rows.len(), 2);
}

#[test]
fn dir_switch_to_current_session_only_closes() {
    let acts = dir_switch(&"/work/alpha".to_string(), &"alpha".to_string());
    assert_eq!(acts.len(), 1);
    assert!(matches!(acts[0], Action::Close));
}

#[test]
fn config_parsing() {
    assert_eq!(parse_dirs("/a;/b"), strings(&["/a", "/b"]));
    assert_eq!(parse_dirs(""), strings(&[""]));
    assert_eq!(parse_root_files(".git;;x"), strings(&[".git", "", "x"]));
    assert!(matches!(parse_layout(":compact"), Layout::BuiltIn(n) if n == "compact"));
    assert!(matches!(parse_layout("::x"), Layout::BuiltIn(n) if n == "x"));
    assert!(matches!(parse_layout("my.kdl"), Layout::File(n) if n == "my.kdl"));
    let c = Config::from_settings(&vec![
        ("root_dirs".to_string(), "/a;/b".to_string()),
        ("root_files".to_string(), "Cargo.toml".to_string()),
    ]);
    assert_eq!(c.root_dirs, strings(&["/a", "/b"]));
    assert!(c.dirs.is_empty());
    assert!(matches!(c.layout, Layout::BuiltIn(ref n) if n == "default"));
    assert_eq!(c.root_files, strings(&["Cargo.toml"]));
    let d = Config::default();
    assert_eq!(d.root_dirs, strings(&["/host"]));
    assert_eq!(d.root_files, strings(&[".git"]));
    let e = Config::from_settings(&vec![("session_layout".to_string(), "x.kdl".to_string())]);
    assert!(matches!(e.layout, Layout::File(ref n) if n == "x.kdl"));
}

#[test]
fn path_operations() {
    assert_eq!(parent("/a/b"), Some("/a".to_string()));
    assert_eq!(parent("/a"), Some("/".to_string()));
    assert_eq!(parent("/"), None);
    assert_eq!(parent("a"), Some("".to_string()));
    assert_eq!(file_name("/a/b.txt"), Some("b.txt".to_string()));
    assert_eq!(file_name("/"), None);
    assert_eq!(join("/a", "b"), "/a/b");
    assert_eq!(join("/", "b"), "/b");
    assert_eq!(join("/a", ""), "/a");
    assert_eq!(strip_prefix("/a/b/c", "/a"), Some("b/c".to_string()));
    assert_eq!(strip_prefix("/ab", "/a"), None);
    assert_eq!(strip_prefix("/a", "/a"), Some("".to_string()));
    assert_eq!(user_path("/home/u", "/host/x"), "/home/u/x");
    assert_eq!(user_path("/home/u", "/other/x"), "/other/x");
    assert_eq!(host_path("/home/u", "/home/u/p"), Some("/host/p".to_string()));
    assert_eq!(host_path("/home/u", "/home/user/p"), None);
    assert!(is_hidden("/x/.git"));
    assert!(!is_hidden("/x/.config"));
    assert!(!is_hidden("/x/src"));
}

#[test]
fn dot_components_are_no_file_names() {
    assert!(!is_hidden("/a/.."));
    assert!(!is_hidden("/a/."));
    assert!(is_hidden("/x/.git/."));
    assert_eq!(file_name("/a/.."), None);
    assert_eq!(file_name("/a/b/."), Some("b".to_string()));
    assert_eq!(file_name("/."), None);
    assert_eq!(file_name("."), None);
    assert_eq!(parent("/a/b/."), Some("/a".to_string()));
    assert_eq!(parent("/a/.."), Some("/a".to_string()));
    let acts = dir_switch(&"/work/..".to_string(), &"alpha".to_string());
    assert_eq!(acts.len(), 1);
    assert!(matches!(acts[0], Action::Close));
}
