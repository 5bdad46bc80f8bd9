use unlocker::load::parse_profile;
use unlocker::session::Directive;
use unlocker::session::Session;

#[test]
fn two_profiles_bracket_the_shell_in_order() {
    let work_toml = "before = [\"echo\", \"unlocking\"]\nafter = [\"echo\", \"locking\"]\n";
    let vpn_toml = "before = []\nafter = [\"echo\", \"vpn-down\"]\n";
    let work = parse_profile("work".to_string(), work_toml).unwrap();
    let vpn = parse_profile("vpn".to_string(), vpn_toml).unwrap();

    let mut session = Session::new(vec![work, vpn]);
    let mut effects: Vec<String> = Vec::new();
    loop {
        let (hook, done) = match session.directive() {
            Directive::RunHook { argv } => (Some(argv.clone()), false),
            Directive::RunShell => (None, false),
            Directive::Finished => (None, true),
            Directive::HookFailed { .. } => panic!("no hook fails in this scenario"),
        };
        if done {
            break;
        }
        match hook {
            Some(argv) => {
                // An empty hook is a no-op: nothing is spawned, no effect.
                if !argv.is_empty() {
                    effects.push(format!("run {}", argv.join(" ")));
                }
                session.advance(true);
            }
            None => {
                effects.push("shell".to_string());
                session.advance(true);
            }
        }
    }
    assert_eq!(
        effects,
        vec!["run echo unlocking", "shell", "run echo locking", "run echo vpn-down"]
    );
}
