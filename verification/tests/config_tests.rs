use myssh::config::{
    build_login_script, default_command_wait, default_port, DefaultsConfig, JumpConfig, NodeConfig,
    ScriptStep, SshverConfig,
};
use myssh::plan::{any_failed, plan_sessions};

fn step(name: &str, wait: &str, send: &str) -> ScriptStep {
    ScriptStep { name: name.to_string(), wait: wait.to_string(), send: send.to_string() }
}

fn texts(steps: &[ScriptStep]) -> Vec<(String, String, String)> {
    steps.iter().map(|s| (s.name.clone(), s.wait.clone(), s.send.clone())).collect()
}

fn defaults() -> DefaultsConfig {
    DefaultsConfig {
        port: 22,
        user: "user".to_string(),
        password: "default_password".to_string(),
        login_script: vec![step("SSH登录", "$", "su - root"), step("输入密码", "Password:", "{{password}}")],
        use_jump: false,
        command_wait: "$|#".to_string(),
    }
}

fn node(id: &str, host: &str) -> NodeConfig {
    NodeConfig {
        id: id.to_string(),
        host: host.to_string(),
        port: None,
        user: String::new(),
        password: String::new(),
        login_script: vec![],
        login_script_append: vec![],
        use_jump: None,
    }
}

fn jump() -> JumpConfig {
    JumpConfig {
        host: "10.0.0.1".to_string(),
        port: 22,
        user: "jumphost_user".to_string(),
        password: "jump_password".to_string(),
        login_script: vec![step("切换到跳板机root", "$", "sudo -i")],
    }
}

/// The example configuration of the README.
fn readme_config() -> SshverConfig {
    let node1 = node("node1", "1.1.1.1");
    let mut node2 = node("node2", "1.1.1.2");
    node2.password = "node2_specific_pass".to_string();
    let mut node3 = node("node3", "1.1.1.3");
    node3.login_script_append = vec![step("执行特定命令", "#", "ifconfig")];
    let mut node4 = node("node4", "1.1.1.4");
    node4.login_script = vec![step("直接 SSH", "$", "sudo -i"), step("sudo 密码", "password for", "sudo_pass")];
    let mut node5 = node("node5", "192.168.1.10");
    node5.use_jump = Some(true);
    let mut node6 = node("node6", "2.2.2.2");
    node6.use_jump = Some(false);
    SshverConfig { defaults: defaults(), jump: jump(), nodes: vec![node1, node2, node3, node4, node5, node6] }
}

#[test]
fn defaults_of_the_file() {
    assert_eq!(default_port(), 22);
    assert_eq!(default_command_wait(), "$|#");
}

#[test]
fn login_script_uses_defaults_with_password() {
    let d = defaults();
    let n = node("node1", "1.1.1.1");
    let s = build_login_script(&d, &n, "default_password");
    assert_eq!(
        texts(&s),
        texts(&[step("SSH登录", "$", "su - root"), step("输入密码", "Password:", "default_password")])
    );
}

#[test]
fn login_script_appends_without_substituting() {
    let d = defaults();
    let mut n = node("node3", "1.1.1.3");
    n.login_script_append = vec![step("执行特定命令", "#", "ifconfig"), step("p", "#", "{{password}}")];
    let s = build_login_script(&d, &n, "pw");
    assert_eq!(
        texts(&s),
        texts(&[
            step("SSH登录", "$", "su - root"),
            step("输入密码", "Password:", "pw"),
            step("执行特定命令", "#", "ifconfig"),
            step("p", "#", "{{password}}"),
        ])
    );
}

#[test]
fn own_login_script_replaces_defaults() {
    let d = defaults();
    let mut n = node("node4", "1.1.1.4");
    n.login_script = vec![step("a", "$", "{{password}}"), step("b", "$", "{{password}} ")];
    n.login_script_append = vec![step("ignored", "#", "x")];
    let s = build_login_script(&d, &n, "secret");
    assert_eq!(texts(&s), texts(&[step("a", "$", "secret"), step("b", "$", "{{password}} ")]));
}

#[test]
fn plans_follow_the_readme_example() {
    let c = readme_config();
    let plans = plan_sessions(&c, "hostname", &None, &None, true);
    assert_eq!(plans.len(), 6);
    let p1 = &plans[0];
    assert_eq!(p1.node_id, "node1");
    assert_eq!(p1.target.host, "1.1.1.1");
    assert_eq!(p1.target.port, 22);
    assert_eq!(p1.target.user, "user");
    assert_eq!(p1.target.password, "default_password");
    assert!(p1.jump.is_none());
    assert!(p1.prefix);
    assert_eq!(texts(&p1.commands), texts(&[step("cli", "$|#", "hostname")]));
    assert_eq!(texts(&p1.target_login)[1].2, "default_password");

    let p2 = &plans[1];
    assert_eq!(p2.target.password, "node2_specific_pass");
    assert_eq!(texts(&p2.target_login)[1].2, "node2_specific_pass");

    assert_eq!(plans[2].target_login.len(), 3);
    assert_eq!(texts(&plans[3].target_login)[1].2, "sudo_pass");

    let p5 = &plans[4];
    let hop = p5.jump.as_ref().expect("node5 goes through the jump host");
    assert_eq!(hop.endpoint.host, "10.0.0.1");
    assert_eq!(hop.endpoint.user, "jumphost_user");
    assert_eq!(hop.endpoint.password, "jump_password");
    assert_eq!(texts(&hop.login_script), texts(&[step("切换到跳板机root", "$", "sudo -i")]));
    assert!(plans[5].jump.is_none());
}

#[test]
fn plans_only_for_targeted_nodes_in_file_order() {
    let c = readme_config();
    let ids = Some(vec!["node3".to_string(), "node1".to_string(), "nodeX".to_string()]);
    let plans = plan_sessions(&c, "pwd", &ids, &None, false);
    let got: Vec<&str> = plans.iter().map(|p| p.node_id.as_str()).collect();
    assert_eq!(got, vec!["node1", "node3"]);
    let none = plan_sessions(&c, "pwd", &Some(vec![]), &None, false);
    assert!(none.is_empty());
}

#[test]
fn working_directory_prefixes_the_command() {
    let c = readme_config();
    let plans = plan_sessions(&c, "ls -la", &None, &Some("/var/log".to_string()), false);
    assert_eq!(plans[0].commands[0].send, "cd /var/log && ls -la");
}

#[test]
fn unset_port_takes_the_default() {
    let mut c = readme_config();
    c.defaults.port = 2200;
    c.nodes[1].port = Some(2022);
    c.nodes[2].user = "admin".to_string();
    let plans = plan_sessions(&c, "x", &None, &None, false);
    assert_eq!(plans[0].target.port, 2200);
    assert_eq!(plans[1].target.port, 2022);
    assert_eq!(plans[2].target.user, "admin");
}

#[test]
fn node_port_22_overrides_a_different_default() {
    let mut c = readme_config();
    c.defaults.port = 2222;
    c.nodes[0].port = Some(22);
    let plans = plan_sessions(&c, "x", &None, &None, false);
    assert_eq!(plans[0].target.port, 22);
    assert_eq!(plans[1].target.port, 2222);
}

#[test]
fn default_jump_switch_applies_to_unset_nodes() {
    let mut c = readme_config();
    c.defaults.use_jump = true;
    let plans = plan_sessions(&c, "x", &None, &None, false);
    assert!(plans[0].jump.is_some());
    assert!(plans[4].jump.is_some());
    assert!(plans[5].jump.is_none());
}

#[test]
fn failure_counts_only_interrupted_runs() {
    assert!(!any_failed(&vec![]));
    assert!(!any_failed(&vec![Some(true), None, Some(true)]));
    assert!(any_failed(&vec![Some(true), Some(false)]));
}
