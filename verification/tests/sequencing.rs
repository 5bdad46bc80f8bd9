use unlocker::config::RunConfig;
use unlocker::runner::plan_command;
use unlocker::runner::CommandPlan;
use unlocker::session::Directive;
use unlocker::session::Session;
use unlocker::strutil::str_eq;
use unlocker::strutil::toml_file_name;

fn strings(items: &[&str]) -> Vec<String> {
    items.iter().map(|s| s.to_string()).collect()
}

fn profile(name: &str, before: &[&str], after: &[&str]) -> RunConfig {
    RunConfig { name: name.to_string(), before: strings(before), after: strings(after) }
}

/// Drives a session, reporting the given outcome for the `k`-th hook (all
/// other hooks succeed), and records what happened in order: each hook's
/// command line, `<shell>`, and how the run ended.
fn drive(profiles: Vec<RunConfig>, failing_hook: Option<usize>) -> Vec<String> {
    let mut session = Session::new(profiles);
    let mut log: Vec<String> = Vec::new();
    let mut hooks_seen: usize = 0;
    loop {
        let (kind, argv, name) = match session.directive() {
            Directive::RunHook { argv } => (0u8, argv.clone(), String::new()),
            Directive::RunShell => (1u8, Vec::new(), String::new()),
            Directive::Finished => (2u8, Vec::new(), String::new()),
            Directive::HookFailed { in_before, name } => {
                (if in_before { 3u8 } else { 4u8 }, Vec::new(), name.clone())
            }
        };
        match kind {
            0 => {
                log.push(format!("hook[{}]", argv.join(" ")));
                let ok = failing_hook != Some(hooks_seen);
                hooks_seen += 1;
                session.advance(ok);
            }
            1 => {
                log.push("<shell>".to_string());
                session.advance(true);
            }
            2 => {
                log.push("<done>".to_string());
                return log;
            }
            3 => {
                log.push(format!("<before {} failed>", name));
                return log;
            }
            _ => {
                log.push(format!("<after {} failed>", name));
                return log;
            }
        }
    }
}

#[test]
fn full_run_brackets_the_shell() {
    let work = profile("work", &["echo", "unlocking"], &["echo", "locking"]);
    let vpn = profile("vpn", &[], &["echo", "vpn-down"]);
    let log = drive(vec![work, vpn], None);
    assert_eq!(
        log,
        vec![
            "hook[echo unlocking]",
            "hook[]",
            "<shell>",
            "hook[echo locking]",
            "hook[echo vpn-down]",
            "<done>",
        ]
    );
}

#[test]
fn failed_before_hook_skips_shell_and_teardown() {
    let work = profile("work", &["false"], &["echo", "locking"]);
    let vpn = profile("vpn", &["echo", "up"], &["echo", "vpn-down"]);
    let log = drive(vec![work, vpn], Some(0));
    assert_eq!(log, vec!["hook[false]", "<before work failed>"]);
}

#[test]
fn failed_after_hook_skips_remaining_teardown_only() {
    let work = profile("work", &["echo", "unlocking"], &["false"]);
    let vpn = profile("vpn", &[], &["echo", "vpn-down"]);
    // hooks in order: work.before, vpn.before, work.after (fails)
    let log = drive(vec![work, vpn], Some(2));
    assert_eq!(
        log,
        vec!["hook[echo unlocking]", "hook[]", "<shell>", "hook[false]", "<after work failed>"]
    );
}

#[test]
fn run_without_profiles_still_runs_the_shell_once() {
    let log = drive(Vec::new(), None);
    assert_eq!(log, vec!["<shell>", "<done>"]);
}

#[test]
fn plan_of_empty_list_is_a_skip() {
    let plan = plan_command(&Vec::new());
    assert!(matches!(plan, CommandPlan::Skip));
}

#[test]
fn plan_splits_program_and_arguments() {
    let argv = strings(&["echo", "a", "b"]);
    match plan_command(&argv) {
        CommandPlan::Spawn { program, args } => {
            assert_eq!(program, "echo");
            assert_eq!(args, strings(&["a", "b"]));
        }
        CommandPlan::Skip => panic!("expected a spawn"),
    }
}

#[test]
fn plan_of_single_element_has_no_arguments() {
    let argv = strings(&["true"]);
    match plan_command(&argv) {
        CommandPlan::Spawn { program, args } => {
            assert_eq!(program, "true");
            assert!(args.is_empty());
        }
        CommandPlan::Skip => panic!("expected a spawn"),
    }
}

#[test]
fn file_name_appends_toml_to_a_bare_name() {
    assert_eq!(toml_file_name("work"), "work.toml");
}

#[test]
fn file_name_replaces_an_existing_extension() {
    assert_eq!(toml_file_name("work.bak"), "work.toml");
    assert_eq!(toml_file_name("a/b.cfg"), "a/b.toml");
}

#[test]
fn file_name_keeps_a_leading_dot_name_whole() {
    assert_eq!(toml_file_name(".bashrc"), ".bashrc.toml");
    assert_eq!(toml_file_name("dir/.hidden"), "dir/.hidden.toml");
}

#[test]
fn file_name_of_empty_name_is_the_bare_extension() {
    assert_eq!(toml_file_name(""), ".toml");
}

#[test]
fn str_eq_compares_contents() {
    assert!(str_eq("before", "before"));
    assert!(!str_eq("before", "after"));
    assert!(!str_eq("before", "befor"));
    assert!(!str_eq("", "a"));
    assert!(str_eq("", ""));
}
