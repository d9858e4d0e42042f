use myssh::config::{DefaultsConfig, JumpConfig, NodeConfig, SshverConfig};
use myssh::interactive::{
    build_prompt, get_node_names, interpret_line, missing_node_ids, nodes_not_found_message,
    parse_node_list, parse_special_command, LineAction,
};
use myssh::special::{handle_special_command, CommandReply, InteractiveSession};

fn node(id: &str, host: &str) -> NodeConfig {
    NodeConfig {
        id: id.to_string(),
        host: host.to_string(),
        port: None,
        user: String::new(),
        password: String::new(),
        login_script: vec![],
        login_script_append: vec![],
        use_jump: None,
    }
}

fn nodes() -> Vec<NodeConfig> {
    vec![node("node3", "1.1.1.3"), node("node1", "1.1.1.1"), node("node2", "1.1.1.2")]
}

fn config() -> SshverConfig {
    SshverConfig {
        defaults: DefaultsConfig {
            port: 22,
            user: String::new(),
            password: String::new(),
            login_script: vec![],
            use_jump: false,
            command_wait: "$|#".to_string(),
        },
        jump: JumpConfig {
            host: String::new(),
            port: 22,
            user: String::new(),
            password: String::new(),
            login_script: vec![],
        },
        nodes: nodes(),
    }
}

fn fresh() -> InteractiveSession {
    InteractiveSession { ssh_config: config(), target_node_ids: None, current_dir: None, prefix: false, sync: false }
}

fn special(s: &str) -> Option<(String, String)> {
    parse_special_command(s)
}

fn pair(a: &str, b: &str) -> Option<(String, String)> {
    Some((a.to_string(), b.to_string()))
}

#[test]
fn special_commands_are_parsed() {
    assert_eq!(special("!!help"), pair("help", ""));
    assert_eq!(special("!!node set node1,node2"), pair("node", "set node1,node2"));
    assert_eq!(special("!!   cd   /tmp  "), pair("cd", "/tmp"));
    assert_eq!(special("ls !!pwd"), None);
    assert_eq!(special("  !!pwd"), pair("pwd", ""));
    assert_eq!(special("echo hi !!"), None);
    assert_eq!(special("!!"), None);
    assert_eq!(special("!!   "), None);
    assert_eq!(special("ls -la"), None);
    assert_eq!(special("!prefix on"), None);
    assert_eq!(special("!!prefix\ton"), pair("prefix\ton", ""));
}

#[test]
fn lines_are_interpreted() {
    assert!(matches!(interpret_line("   "), LineAction::Skip));
    assert!(matches!(interpret_line(""), LineAction::Skip));
    assert!(matches!(interpret_line(" exit "), LineAction::Exit));
    assert!(matches!(interpret_line("quit"), LineAction::Exit));
    match interpret_line("  !!cd /srv ") {
        LineAction::Special { cmd, args } => assert_eq!((cmd.as_str(), args.as_str()), ("cd", "/srv")),
        other => panic!("{:?}", other),
    }
    match interpret_line("  ls -la  ") {
        LineAction::Run(c) => assert_eq!(c, "ls -la"),
        other => panic!("{:?}", other),
    }
    assert!(matches!(interpret_line("exit now"), LineAction::Run(_)));
    match interpret_line("echo a !!b") {
        LineAction::Run(c) => assert_eq!(c, "echo a !!b"),
        other => panic!("{:?}", other),
    }
}

#[test]
fn prompts_show_nodes_and_directory() {
    assert_eq!(build_prompt("all", &None), "myssh[all]> ");
    assert_eq!(build_prompt("node1,node2", &Some("/tmp".to_string())), "myssh[node1,node2]/tmp> ");
    assert_eq!(build_prompt("all", &Some(String::new())), "myssh[all]> ");
}

#[test]
fn node_names_are_sorted() {
    let c = config();
    assert_eq!(get_node_names(&c, &None), "all");
    let ids = Some(vec!["node3".to_string(), "node2".to_string(), "nodeX".to_string()]);
    assert_eq!(get_node_names(&c, &ids), "node2,node3");
    assert_eq!(get_node_names(&c, &Some(vec![])), "");
}

#[test]
fn node_lists_from_the_command_line() {
    assert_eq!(parse_node_list("node1, node3 ,node1"), vec!["node1".to_string(), "node3".to_string()]);
    assert_eq!(parse_node_list("a,,b"), vec!["a".to_string(), "".to_string(), "b".to_string()]);
    let n = nodes();
    let ids = parse_node_list("node1,node99,node100");
    let missing = missing_node_ids(&ids, &n);
    assert_eq!(missing, vec!["node99".to_string(), "node100".to_string()]);
    assert_eq!(nodes_not_found_message(&missing), "Error: Node(s) not found: node99, node100");
}

fn out(r: &CommandReply) -> Vec<&str> {
    r.out.iter().map(|s| s.as_str()).collect()
}

fn err(r: &CommandReply) -> Vec<&str> {
    r.err.iter().map(|s| s.as_str()).collect()
}

#[test]
fn help_lists_the_special_commands() {
    let mut s = fresh();
    let r = handle_special_command(&mut s, "help", "");
    assert!(r.ok);
    assert_eq!(r.out.len(), 12);
    assert_eq!(r.out[0], "Special commands (!! prefix):");
    assert!(r.out[11].contains("output buffers until exit."));
}

#[test]
fn node_set_and_list() {
    let c = config();
    let mut s = fresh();
    let r = handle_special_command(&mut s, "node", "set node1, node2 ,node1");
    assert!(r.ok);
    assert_eq!(out(&r), vec!["Target nodes: node1, node2 ,node1"]);
    assert_eq!(s.target_node_ids, Some(vec!["node1".to_string(), "node2".to_string()]));
    assert_eq!(get_node_names(&c, &s.target_node_ids), "node1,node2");

    let r = handle_special_command(&mut s, "node", "set node1,node99");
    assert!(!r.ok);
    assert_eq!(err(&r), vec!["Error: Node(s) not found: node99"]);
    assert_eq!(s.target_node_ids, Some(vec!["node1".to_string(), "node2".to_string()]));

    let r = handle_special_command(&mut s, "node", "set");
    assert!(r.ok);
    assert_eq!(out(&r), vec!["Target nodes: all"]);
    assert_eq!(s.target_node_ids, None);

    handle_special_command(&mut s, "node", "set node2");
    let r = handle_special_command(&mut s, "node", "set all");
    assert!(r.ok);
    assert_eq!(out(&r), vec!["Target nodes: all"]);
    assert_eq!(s.target_node_ids, None);
    assert_eq!(get_node_names(&c, &s.target_node_ids), "all");

    let r = handle_special_command(&mut s, "node", "list");
    assert_eq!(out(&r), vec!["Available nodes: node1, node2, node3"]);
    let r = handle_special_command(&mut s, "node", "list -v");
    assert_eq!(out(&r), vec!["Node details:", "  node3 - 1.1.1.3", "  node1 - 1.1.1.1", "  node2 - 1.1.1.2"]);

    let r = handle_special_command(&mut s, "node", "");
    assert!(!r.ok);
    assert_eq!(err(&r), vec!["Error: Missing subcommand. Use '!!node help' for usage."]);
    let r = handle_special_command(&mut s, "node", "help");
    assert!(r.ok);
    assert_eq!(out(&r)[0], "Node management commands:");
    assert_eq!(r.out.len(), 4);
}

#[test]
fn cd_and_pwd() {
    let mut s = fresh();
    let r = handle_special_command(&mut s, "pwd", "");
    assert_eq!(out(&r), vec!["Current working directory: (not set)"]);
    let r = handle_special_command(&mut s, "cd", "var");
    assert_eq!(out(&r), vec!["Working directory: /var"]);
    let r = handle_special_command(&mut s, "cd", "log");
    assert_eq!(out(&r), vec!["Working directory: /var/log"]);
    let r = handle_special_command(&mut s, "pwd", "");
    assert_eq!(out(&r), vec!["Current working directory: /var/log"]);
    let r = handle_special_command(&mut s, "cd", "/etc");
    assert_eq!(out(&r), vec!["Working directory: /etc"]);
    assert_eq!(s.current_dir, Some("/etc".to_string()));
}

#[test]
fn prefix_and_sync_toggles() {
    let mut s = fresh();
    assert_eq!(out(&handle_special_command(&mut s, "prefix", "")), vec!["Prefix: off"]);
    assert_eq!(out(&handle_special_command(&mut s, "prefix", " on ")), vec!["Prefix: on"]);
    assert!(s.prefix);
    assert_eq!(out(&handle_special_command(&mut s, "prefix", "")), vec!["Prefix: on"]);
    let r = handle_special_command(&mut s, "prefix", "maybe");
    assert!(!r.ok);
    assert_eq!(err(&r), vec!["Usage: !!prefix [on|off]"]);
    assert!(s.prefix);
    assert_eq!(out(&handle_special_command(&mut s, "prefix", "off")), vec!["Prefix: off"]);
    assert!(!s.prefix);

    assert_eq!(
        out(&handle_special_command(&mut s, "sync", "on")),
        vec!["Sync: on  (reminder: do not use with streaming commands like tail -f)"]
    );
    assert!(s.sync);
    assert_eq!(out(&handle_special_command(&mut s, "sync", "")), vec!["Sync: on"]);
    assert_eq!(out(&handle_special_command(&mut s, "sync", "off")), vec!["Sync: off"]);
    assert_eq!(err(&handle_special_command(&mut s, "sync", "x")), vec!["Usage: !!sync [on|off]"]);
}

#[test]
fn unknown_special_command() {
    let mut s = fresh();
    let r = handle_special_command(&mut s, "frob", "x");
    assert!(!r.ok);
    assert_eq!(err(&r), vec!["Unknown command: !!frob", "Type '!!help' for available commands"]);
}

#[test]
fn node_lists_hold_each_id_once() {
    assert_eq!(
        parse_node_list("b,a,b , a,c"),
        vec!["b".to_string(), "a".to_string(), "c".to_string()]
    );
}
