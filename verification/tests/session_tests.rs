use base64::Engine;
use myssh::config::ScriptStep;
use myssh::frame::{frame_command, frame_encoded};
use myssh::session::{data_event, fits_encoder, Endpoint, Event, JumpHop, Outcome, Reply, SessionPlan, SshRun, Stage};

fn step(name: &str, wait: &str, send: &str) -> ScriptStep {
    ScriptStep { name: name.to_string(), wait: wait.to_string(), send: send.to_string() }
}

fn endpoint(host: &str, port: u16, user: &str, password: &str) -> Endpoint {
    Endpoint { host: host.to_string(), port, user: user.to_string(), password: password.to_string() }
}

fn direct_plan(login: Vec<ScriptStep>, commands: Vec<ScriptStep>, prefix: bool) -> SessionPlan {
    SessionPlan {
        node_id: "node1".to_string(),
        target: endpoint("1.1.1.1", 22, "user", "pw"),
        target_login: login,
        jump: None,
        commands,
        prefix,
    }
}

fn data(s: &str) -> Event {
    Event::Data(s.to_string())
}

fn is_quiet(r: &Reply) -> bool {
    r.show.is_empty() && r.send.is_empty() && !r.connect && !r.open_shell && !r.start_timer && r.finish.is_none()
}

fn failed_with(r: &Reply, msg: &str) -> bool {
    matches!(&r.finish, Some(Outcome::Failed(m)) if m == msg)
}

#[test]
fn frame_command_encodes_the_command() {
    assert_eq!(frame_command("ls", true), "echo MY_begin;echo bHM= | base64 -d | bash -i;echo MY_end\n");
    assert_eq!(frame_command("ls -la", false), "echo MY_begin;echo bHMgLWxh | base64 -d | bash;echo MY_end\n");
    assert_eq!(frame_command("", true), "echo MY_begin;echo  | base64 -d | bash -i;echo MY_end\n");
}

#[test]
fn encoding_decodes_back() {
    for c in ["", "a", "ab", "abc", "ls -la", "echo 'x'; cat /etc/hosts\n", "中文"] {
        let line = frame_command(c, false);
        let b64 = line
            .strip_prefix("echo MY_begin;echo ")
            .and_then(|r| r.strip_suffix(" | base64 -d | bash;echo MY_end\n"))
            .unwrap();
        assert_eq!(b64.len(), 4 * ((c.len() + 2) / 3));
        let back = base64::engine::general_purpose::STANDARD.decode(b64).unwrap();
        assert_eq!(back, c.as_bytes());
    }
    assert_eq!(frame_command("ab", false), "echo MY_begin;echo YWI= | base64 -d | bash;echo MY_end\n");
    assert_eq!(frame_command("abc", false), "echo MY_begin;echo YWJj | base64 -d | bash;echo MY_end\n");
}

#[test]
fn framed_command_is_one_line() {
    let f = frame_command("echo 'a'; printf \"x\\ny\"\nrm -rf /tmp/x", true);
    assert_eq!(f.matches('\n').count(), 1);
    assert!(f.ends_with('\n'));
}

#[test]
fn data_event_decodes_bytes() {
    match data_event("héllo $".as_bytes()) {
        Event::Data(t) => assert_eq!(t, "héllo $"),
        _ => panic!("not data"),
    }
    match data_event(&[b'a', 0xff, b'b']) {
        Event::Data(t) => assert_eq!(t, "a\u{FFFD}b"),
        _ => panic!("not data"),
    }
}

#[test]
fn nothing_to_do_finishes_at_once() {
    let mut run = SshRun::new(direct_plan(vec![], vec![], false));
    let r = run.step(Event::Start);
    assert!(matches!(r.finish, Some(Outcome::Completed)));
    assert!(!r.connect);
    assert_eq!(run.stage(), Stage::Done);
}

#[test]
fn direct_run_full_course() {
    let login = vec![step("SSH登录", "$", "su - root"), step("输入密码", "Password:", "pw")];
    let cmds = vec![step("cli", "$|#", "hostname")];
    let plan = direct_plan(login, cmds, false);
    assert!(fits_encoder(&plan));
    let mut run = SshRun::new(plan);

    let r = run.step(Event::Start);
    assert!(r.connect && r.send.is_empty() && r.finish.is_none());
    assert_eq!(run.first_endpoint().host, "1.1.1.1");
    let r = run.step(Event::Authenticated(true));
    assert!(r.open_shell);
    let r = run.step(Event::ShellReady);
    assert!(r.start_timer && r.send.is_empty());
    assert_eq!(run.stage(), Stage::Login { hop: myssh::session::Hop::Target, step: 0 });

    let r = run.step(data("Last login: today\r\nuser@host:~"));
    assert!(is_quiet(&r));
    let r = run.step(data("$ "));
    assert_eq!(r.send, vec!["su - root\n".to_string()]);
    assert!(r.start_timer);
    let r = run.step(data("su - root\r\nPassword:"));
    assert_eq!(r.send, vec!["pw\n".to_string()]);
    assert!(r.start_timer);
    assert_eq!(run.stage(), Stage::Prompt { command: 0 });

    let r = run.step(data("\r\nroot@host:~# "));
    assert_eq!(r.send, vec![frame_command("hostname", true)]);
    assert_eq!(run.stage(), Stage::Capture { command: 0 });

    let r = run.step(data("echo MY_begin;echo aG9zdG5hbWU= | base64 -d | bash -i;echo MY_end\r\n"));
    assert!(is_quiet(&r));
    let r = run.step(data("MY_begin\r\nserver1.example.com\r\nMY_end\r\n# "));
    assert_eq!(r.show, vec!["server1.example.com".to_string()]);
    assert!(matches!(r.finish, Some(Outcome::Completed)));
    assert_eq!(run.stage(), Stage::Done);

    let r = run.step(data("more"));
    assert!(is_quiet(&r));
}

#[test]
fn streamed_output_is_shown_by_lines() {
    let cmds = vec![step("cli", "$", "ls")];
    let mut run = SshRun::new(direct_plan(vec![], cmds, true));
    run.step(Event::Start);
    run.step(Event::Authenticated(true));
    let r = run.step(Event::ShellReady);
    assert!(r.start_timer);
    assert_eq!(run.stage(), Stage::Prompt { command: 0 });
    run.step(data("$ "));
    let r = run.step(data("MY_begin\r\na\r\nb"));
    assert_eq!(r.show, vec!["[node1] a\r".to_string()]);
    let r = run.step(data("c\r\n"));
    assert_eq!(r.show, vec!["[node1] bc\r".to_string()]);
    let r = run.step(data("tail"));
    assert!(r.show.is_empty());
    // The final chunk shows only the output since the last streamed chunk,
    // then what was still buffered.
    let r = run.step(data(" end\r\nlast\r\nMY_end\r\n"));
    assert_eq!(
        r.show,
        vec!["[node1] end".to_string(), "[node1] last".to_string(), "[node1] tail".to_string()]
    );
    assert!(matches!(r.finish, Some(Outcome::Completed)));
}

#[test]
fn output_between_markers_is_trimmed_and_split() {
    let cmds = vec![step("cli", "$", "ls")];
    let mut run = SshRun::new(direct_plan(vec![], cmds, false));
    run.step(Event::Start);
    run.step(Event::Authenticated(true));
    run.step(Event::ShellReady);
    run.step(data("$ "));
    let r = run.step(data("MY_begin\r\n\r\n  one\r\n\r\ntwo  \r\nMY_end"));
    assert_eq!(
        r.show,
        vec!["one".to_string(), "".to_string(), "two".to_string()]
    );
    assert!(matches!(r.finish, Some(Outcome::Completed)));
}

#[test]
fn final_chunk_carries_the_prefix_when_asked() {
    let cmds = vec![step("cli", "$", "ls")];
    let mut run = SshRun::new(direct_plan(vec![], cmds, true));
    run.step(Event::Start);
    run.step(Event::Authenticated(true));
    run.step(Event::ShellReady);
    run.step(data("$ "));
    let r = run.step(data("MY_begin\r\none\r\ntwo\r\nMY_end"));
    assert_eq!(r.show, vec!["[node1] one".to_string(), "[node1] two".to_string()]);
}

#[test]
fn empty_output_shows_nothing() {
    let cmds = vec![step("cli", "$", "true")];
    let mut run = SshRun::new(direct_plan(vec![], cmds, false));
    run.step(Event::Start);
    run.step(Event::Authenticated(true));
    run.step(Event::ShellReady);
    run.step(data("$ "));
    let r = run.step(data("MY_begin\r\n \r\nMY_end\r\n"));
    assert!(r.show.is_empty());
    assert!(matches!(r.finish, Some(Outcome::Completed)));
}

#[test]
fn authentication_failure_message() {
    let mut run = SshRun::new(direct_plan(vec![], vec![step("cli", "$", "ls")], false));
    run.step(Event::Start);
    let r = run.step(Event::Authenticated(false));
    assert!(failed_with(&r, "1.1.1.1:22:user - Authentication failed: Invalid password or username"));
    assert_eq!(run.stage(), Stage::Done);
}

#[test]
fn login_step_failures() {
    let login = vec![step("输入密码", "Password:", "pw")];
    let mut run = SshRun::new(direct_plan(login, vec![], false));
    run.step(Event::Start);
    run.step(Event::Authenticated(true));
    run.step(Event::ShellReady);
    run.step(data("Passw"));
    assert_eq!(run.wait_output(), "Passw");
    let r = run.step(Event::Timeout);
    assert!(failed_with(
        &r,
        "1.1.1.1:22:user - Login script step '输入密码' failed: Timeout waiting for pattern 'Password:'"
    ));

    let login = vec![step("SSH登录", "$", "su - root")];
    let mut run = SshRun::new(direct_plan(login, vec![], false));
    run.step(Event::Start);
    run.step(Event::Authenticated(true));
    run.step(Event::ShellReady);
    let r = run.step(Event::Closed);
    assert!(failed_with(&r, "1.1.1.1:22:user - Login script step 'SSH登录' failed: Channel closed"));
}

#[test]
fn login_only_completes_after_last_step() {
    let login = vec![step("a", "$", "x")];
    let mut run = SshRun::new(direct_plan(login, vec![], false));
    run.step(Event::Start);
    run.step(Event::Authenticated(true));
    run.step(Event::ShellReady);
    let r = run.step(data("$"));
    assert_eq!(r.send, vec!["x\n".to_string()]);
    assert!(matches!(r.finish, Some(Outcome::Completed)));
}

#[test]
fn command_failures() {
    let mut run = SshRun::new(direct_plan(vec![], vec![step("cli", "$|#", "ls")], false));
    run.step(Event::Start);
    run.step(Event::Authenticated(true));
    run.step(Event::ShellReady);
    let r = run.step(Event::Timeout);
    assert!(failed_with(&r, "1.1.1.1:22:user - Command execution failed: Timeout waiting for prompt"));

    let mut run = SshRun::new(direct_plan(vec![], vec![step("cli", "$|#", "ls")], false));
    run.step(Event::Start);
    run.step(Event::Authenticated(true));
    run.step(Event::ShellReady);
    let r = run.step(Event::Closed);
    assert!(failed_with(&r, "1.1.1.1:22:user - Command execution failed: Channel closed"));
}

#[test]
fn interrupt_during_capture_flushes_and_stops() {
    let mut run = SshRun::new(direct_plan(vec![], vec![step("cli", "$", "ping x")], true));
    run.step(Event::Start);
    run.step(Event::Authenticated(true));
    run.step(Event::ShellReady);
    let r = run.step(Event::Interrupt);
    assert!(is_quiet(&r));
    run.step(data("$ "));
    run.step(data("MY_begin\r\n64 bytes"));
    let r = run.step(Event::Timeout);
    assert!(is_quiet(&r));
    let r = run.step(Event::Interrupt);
    assert_eq!(r.show, vec!["[node1] 64 bytes".to_string()]);
    assert!(matches!(r.finish, Some(Outcome::Interrupted)));
}

#[test]
fn closed_channel_during_capture_moves_on() {
    let cmds = vec![step("cli", "$", "a"), step("cli", "$", "b")];
    let mut run = SshRun::new(direct_plan(vec![], cmds, false));
    run.step(Event::Start);
    run.step(Event::Authenticated(true));
    run.step(Event::ShellReady);
    run.step(data("$"));
    run.step(data("MY_begin\r\npartial"));
    let r = run.step(Event::Closed);
    assert_eq!(r.show, vec!["partial".to_string()]);
    assert!(r.start_timer);
    assert_eq!(run.stage(), Stage::Prompt { command: 1 });
    let r = run.step(Event::Closed);
    assert!(failed_with(&r, "1.1.1.1:22:user - Command execution failed: Channel closed"));
}

fn jump_plan() -> SessionPlan {
    SessionPlan {
        node_id: "node5".to_string(),
        target: endpoint("192.168.1.10", 2222, "root", "secret"),
        target_login: vec![step("t", "#", "cd /srv")],
        jump: Some(JumpHop {
            endpoint: endpoint("10.0.0.1", 22, "jumper", "jump_password"),
            login_script: vec![step("切换到跳板机root", "$", "sudo -i")],
        }),
        commands: vec![step("cli", "$|#", "uptime")],
        prefix: false,
    }
}

#[test]
fn jump_run_full_course() {
    let mut run = SshRun::new(jump_plan());
    let r = run.step(Event::Start);
    assert!(r.connect);
    assert_eq!(run.first_endpoint().host, "10.0.0.1");
    run.step(Event::Authenticated(true));
    let r = run.step(Event::ShellReady);
    assert!(r.start_timer);
    let r = run.step(data("jumper@jump:~$ "));
    assert_eq!(
        r.send,
        vec![
            "sudo -i\n".to_string(),
            "ssh -t -o StrictHostKeyChecking=no -p 2222 root@192.168.1.10\n".to_string()
        ]
    );
    assert!(!r.start_timer);
    assert_eq!(run.stage(), Stage::PasswordPrompt);
    let r = run.step(Event::Timeout);
    assert!(is_quiet(&r));
    let r = run.step(data("root@192.168.1.10's password:"));
    assert_eq!(r.send, vec!["secret\n".to_string()]);
    assert!(r.start_timer);
    let r = run.step(data("root@target:~# "));
    assert_eq!(r.send, vec!["cd /srv\n".to_string()]);
    let r = run.step(data("# "));
    assert_eq!(r.send, vec![frame_command("uptime", false)]);
    let r = run.step(data("MY_begin\r\n up 3 days\r\nMY_end"));
    assert_eq!(r.show, vec!["up 3 days".to_string()]);
    assert!(matches!(r.finish, Some(Outcome::Completed)));
}

#[test]
fn jump_failures_name_the_host() {
    let mut run = SshRun::new(jump_plan());
    run.step(Event::Start);
    let r = run.step(Event::Authenticated(false));
    assert!(failed_with(&r, "Jump host 10.0.0.1:22:jumper - Authentication failed: Invalid password or username"));

    let mut run = SshRun::new(jump_plan());
    run.step(Event::Start);
    run.step(Event::Authenticated(true));
    run.step(Event::ShellReady);
    let r = run.step(Event::Timeout);
    assert!(failed_with(
        &r,
        "Jump host 10.0.0.1:22:jumper - Login script step '切换到跳板机root' failed: Timeout waiting for pattern '$'"
    ));

    let mut run = SshRun::new(jump_plan());
    run.step(Event::Start);
    run.step(Event::Authenticated(true));
    run.step(Event::ShellReady);
    run.step(data("$"));
    run.step(data("Password:"));
    let r = run.step(Event::Closed);
    assert!(failed_with(&r, "Target host 192.168.1.10:2222:root - Login script step 't' failed: Channel closed"));
}

#[test]
fn jump_password_prompt_abandons_on_close_or_interrupt() {
    let mut run = SshRun::new(jump_plan());
    run.step(Event::Start);
    run.step(Event::Authenticated(true));
    run.step(Event::ShellReady);
    run.step(data("$"));
    let r = run.step(Event::Interrupt);
    assert!(matches!(r.finish, Some(Outcome::Abandoned)));

    let mut run = SshRun::new(jump_plan());
    run.step(Event::Start);
    run.step(Event::Authenticated(true));
    run.step(Event::ShellReady);
    run.step(data("$"));
    let r = run.step(Event::Closed);
    assert!(matches!(r.finish, Some(Outcome::Abandoned)));
}

#[test]
fn jump_command_failure_names_target() {
    let mut plan = jump_plan();
    plan.target_login = vec![];
    let mut run = SshRun::new(plan);
    run.step(Event::Start);
    run.step(Event::Authenticated(true));
    run.step(Event::ShellReady);
    run.step(data("$"));
    let r = run.step(data("password:"));
    assert_eq!(r.send, vec!["secret\n".to_string()]);
    let r = run.step(Event::Timeout);
    assert!(failed_with(&r, "Target host 192.168.1.10:2222:root - Command execution failed: Timeout waiting for prompt"));
}

#[test]
fn frame_encoded_wraps_given_text() {
    assert_eq!(frame_encoded("aGk=", true), "echo MY_begin;echo aGk= | base64 -d | bash -i;echo MY_end\n");
    assert_eq!(frame_encoded("aGk=", false), "echo MY_begin;echo aGk= | base64 -d | bash;echo MY_end\n");
}
