use vstd::prelude::*;
use vstd::string::StringExecFns;

use crate::config::{NodeConfig, SshverConfig};
use crate::interactive::{node_id_list, node_ids, not_found_text, nodes_not_found_message};
use crate::pieces::{
    dedup, dedup_exec, join_strings, join_with, listed, non_empty, non_empty_exec, not_among,
    not_among_exec, sort_strings, sorts, split_on, split_on_exec, trim_all, trim_each, words,
    words_exec,
};
use crate::session::texts;
use crate::text::{chars_of, string_of_range, trim, trim_range};

verus! {

broadcast use vstd::string::group_string_axioms;

/// An interactive session: the configuration, and the settings that
/// special commands change.
#[derive(Debug)]
pub struct InteractiveSession {
    pub ssh_config: SshverConfig,
    /// The targeted node ids; all nodes when `None`.
    pub target_node_ids: Option<Vec<String>>,
    /// The working directory that commands run in, if set.
    pub current_dir: Option<String>,
    /// Whether streamed output lines carry the node prefix.
    pub prefix: bool,
    /// Whether each node's output is shown as one block.
    pub sync: bool,
}

#[verifier::ext_equal]
pub struct SessionView {
    pub targets: Option<Seq<Seq<char>>>,
    pub dir: Option<Seq<char>>,
    pub prefix: bool,
    pub sync: bool,
}

impl View for InteractiveSession {
    type V = SessionView;

    open spec fn view(&self) -> SessionView {
        SessionView {
            targets: match self.target_node_ids {
                Some(v) => Some(texts(v@)),
                None => None,
            },
            dir: match self.current_dir {
                Some(d) => Some(d@),
                None => None,
            },
            prefix: self.prefix,
            sync: self.sync,
        }
    }
}

/// What a special command printed, and whether it succeeded.
#[derive(Debug)]
pub struct CommandReply {
    pub ok: bool,
    /// Lines for standard output.
    pub out: Vec<String>,
    /// Lines for standard error.
    pub err: Vec<String>,
}

#[verifier::ext_equal]
pub struct CommandReplyView {
    pub ok: bool,
    pub out: Seq<Seq<char>>,
    pub err: Seq<Seq<char>>,
}

impl View for CommandReply {
    type V = CommandReplyView;

    open spec fn view(&self) -> CommandReplyView {
        CommandReplyView { ok: self.ok, out: texts(self.out@), err: texts(self.err@) }
    }
}

pub open spec fn succeeded(out: Seq<Seq<char>>) -> CommandReplyView {
    CommandReplyView { ok: true, out, err: seq![] }
}

pub open spec fn refused(err: Seq<Seq<char>>) -> CommandReplyView {
    CommandReplyView { ok: false, out: seq![], err }
}

pub open spec fn help_lines() -> Seq<Seq<char>> {
    seq![
        "Special commands (!! prefix):"@,
        "  !!help                 - Show this help"@,
        "  !!node <subcmd>        - Node management commands"@,
        "      set <list|all>    - Set target nodes (e.g., !!node set node1,node2)"@,
        "      list               - List all node IDs"@,
        "      list -v            - List all nodes with details"@,
        "  !!cd <path>            - Change working directory"@,
        "  !!pwd                  - Show current working directory"@,
        "  !!prefix [on|off]      - Toggle per-line [node] prefix (no arg shows state)"@,
        "  !!sync   [on|off]      - Toggle grouped-per-node output (no arg shows state)"@,
        "                           Note: do NOT enable --sync for streaming commands"@,
        "                                 like tail -f / ping \u{2014} output buffers until exit."@,
    ]
}

pub open spec fn node_help_lines() -> Seq<Seq<char>> {
    seq![
        "Node management commands:"@,
        "  !!node set <list|all> - Set target nodes"@,
        "  !!node list            - List all node IDs"@,
        "  !!node list -v         - List all nodes with details"@,
    ]
}

/// The ids that `!!node set` asks for: the comma separated pieces of the
/// words joined with spaces, trimmed, not empty, each once.
pub open spec fn requested_ids(nodes_str: Seq<char>) -> Seq<Seq<char>> {
    dedup(non_empty(trim_all(split_on(nodes_str, ','))))
}

/// `  id - host`.
pub open spec fn detail_line(n: NodeConfig) -> Seq<char> {
    "  "@ + n.id@ + " - "@ + n.host@
}

/// `!!node args`; `sorted` is the node ids in ascending order. `set` with
/// no ids, or with the single word `all`, targets every node.
pub open spec fn node_command(
    s: SessionView,
    nodes: Seq<NodeConfig>,
    args: Seq<char>,
    sorted: Seq<Seq<char>>,
) -> (SessionView, CommandReplyView) {
    let parts = words(args);
    let subargs = parts.skip(1);
    if parts.len() == 0 {
        (s, refused(seq!["Error: Missing subcommand. Use '!!node help' for usage."@]))
    } else if parts[0] == "set"@ {
        if subargs.len() == 0 || subargs == seq!["all"@] {
            (SessionView { targets: None, ..s }, succeeded(seq!["Target nodes: all"@]))
        } else {
            let nodes_str = join_with(subargs, " "@);
            let req = requested_ids(nodes_str);
            let missing = not_among(req, node_ids(nodes));
            if missing.len() > 0 {
                (s, refused(seq![not_found_text(missing)]))
            } else {
                (
                    SessionView { targets: Some(req), ..s },
                    succeeded(seq!["Target nodes: "@ + nodes_str]),
                )
            }
        }
    } else if parts[0] == "list"@ {
        if subargs.contains("-v"@) {
            (
                s,
                succeeded(
                    seq!["Node details:"@] + nodes.map_values(|n: NodeConfig| detail_line(n)),
                ),
            )
        } else {
            (s, succeeded(seq!["Available nodes: "@ + join_with(sorted, ", "@)]))
        }
    } else {
        (s, succeeded(node_help_lines()))
    }
}

/// `on` or `off`.
pub open spec fn on_off(b: bool) -> Seq<char> {
    if b {
        "on"@
    } else {
        "off"@
    }
}

/// The directory that `!!cd args` moves to: `args` when it starts with
/// `/`, else `args` below the current directory, or below `/`.
pub open spec fn changed_dir(dir: Option<Seq<char>>, args: Seq<char>) -> Seq<char> {
    if args.len() > 0 && args[0] == '/' {
        args
    } else {
        match dir {
            Some(d) => d + "/"@ + args,
            None => "/"@ + args,
        }
    }
}

/// `!!prefix args`.
pub open spec fn prefix_command(s: SessionView, args: Seq<char>) -> (SessionView, CommandReplyView) {
    let a = trim(args);
    if a.len() == 0 {
        (s, succeeded(seq!["Prefix: "@ + on_off(s.prefix)]))
    } else if a == "on"@ {
        (SessionView { prefix: true, ..s }, succeeded(seq!["Prefix: on"@]))
    } else if a == "off"@ {
        (SessionView { prefix: false, ..s }, succeeded(seq!["Prefix: off"@]))
    } else {
        (s, refused(seq!["Usage: !!prefix [on|off]"@]))
    }
}

/// `!!sync args`.
pub open spec fn sync_command(s: SessionView, args: Seq<char>) -> (SessionView, CommandReplyView) {
    let a = trim(args);
    if a.len() == 0 {
        (s, succeeded(seq!["Sync: "@ + on_off(s.sync)]))
    } else if a == "on"@ {
        (
            SessionView { sync: true, ..s },
            succeeded(seq!["Sync: on  (reminder: do not use with streaming commands like tail -f)"@]),
        )
    } else if a == "off"@ {
        (SessionView { sync: false, ..s }, succeeded(seq!["Sync: off"@]))
    } else {
        (s, refused(seq!["Usage: !!sync [on|off]"@]))
    }
}

/// The special command `!!cmd args`; `sorted` is the node ids in ascending
/// order.
pub open spec fn special(
    s: SessionView,
    nodes: Seq<NodeConfig>,
    cmd: Seq<char>,
    args: Seq<char>,
    sorted: Seq<Seq<char>>,
) -> (SessionView, CommandReplyView) {
    if cmd == "help"@ {
        (s, succeeded(help_lines()))
    } else if cmd == "node"@ {
        node_command(s, nodes, args, sorted)
    } else if cmd == "cd"@ {
        let d = changed_dir(s.dir, args);
        (SessionView { dir: Some(d), ..s }, succeeded(seq!["Working directory: "@ + d]))
    } else if cmd == "pwd"@ {
        (
            s,
            succeeded(
                seq![
                    match s.dir {
                        Some(d) => "Current working directory: "@ + d,
                        None => "Current working directory: (not set)"@,
                    },
                ],
            ),
        )
    } else if cmd == "prefix"@ {
        prefix_command(s, args)
    } else if cmd == "sync"@ {
        sync_command(s, args)
    } else {
        (
            s,
            refused(seq!["Unknown command: !!"@ + cmd, "Type '!!help' for available commands"@]),
        )
    }
}

fn text(lit: &str) -> (r: String)
    ensures
        r@ == lit@,
{
    String::from_str(lit)
}

fn is(s: &str, lit: &str) -> (r: bool)
    ensures
        r == (s@ == lit@),
{
    text(s) == text(lit)
}

fn lines_reply(ok: bool, line: String) -> (r: CommandReply)
    ensures
        r@ == if ok {
            succeeded(seq![line@])
        } else {
            refused(seq![line@])
        },
{
    let mut v: Vec<String> = Vec::new();
    v.push(line);
    let r = if ok {
        CommandReply { ok, out: v, err: Vec::new() }
    } else {
        CommandReply { ok, out: Vec::new(), err: v }
    };
    assert(texts(v@) =~= seq![line@]);
    assert(texts(Seq::<String>::empty()) =~= Seq::<Seq<char>>::empty());
    r
}

fn help_reply() -> (r: CommandReply)
    ensures
        r@ == succeeded(help_lines()),
{
    let mut v: Vec<String> = Vec::new();
    v.push(text("Special commands (!! prefix):"));
    v.push(text("  !!help                 - Show this help"));
    v.push(text("  !!node <subcmd>        - Node management commands"));
    v.push(text("      set <list|all>    - Set target nodes (e.g., !!node set node1,node2)"));
    v.push(text("      list               - List all node IDs"));
    v.push(text("      list -v            - List all nodes with details"));
    v.push(text("  !!cd <path>            - Change working directory"));
    v.push(text("  !!pwd                  - Show current working directory"));
    v.push(text("  !!prefix [on|off]      - Toggle per-line [node] prefix (no arg shows state)"));
    v.push(text("  !!sync   [on|off]      - Toggle grouped-per-node output (no arg shows state)"));
    v.push(text("                           Note: do NOT enable --sync for streaming commands"));
    v.push(
        text("                                 like tail -f / ping \u{2014} output buffers until exit."),
    );
    assert(texts(v@) =~= help_lines());
    let r = CommandReply { ok: true, out: v, err: Vec::new() };
    assert(texts(Seq::<String>::empty()) =~= Seq::<Seq<char>>::empty());
    r
}

fn node_help_reply() -> (r: CommandReply)
    ensures
        r@ == succeeded(node_help_lines()),
{
    let mut v: Vec<String> = Vec::new();
    v.push(text("Node management commands:"));
    v.push(text("  !!node set <list|all> - Set target nodes"));
    v.push(text("  !!node list            - List all node IDs"));
    v.push(text("  !!node list -v         - List all nodes with details"));
    assert(texts(v@) =~= node_help_lines());
    let r = CommandReply { ok: true, out: v, err: Vec::new() };
    assert(texts(Seq::<String>::empty()) =~= Seq::<Seq<char>>::empty());
    r
}

fn details_reply(nodes: &Vec<NodeConfig>) -> (r: CommandReply)
    ensures
        r@ == succeeded(seq!["Node details:"@] + nodes@.map_values(|n: NodeConfig| detail_line(n))),
{
    let mut v: Vec<String> = Vec::new();
    v.push(text("Node details:"));
    let mut i: usize = 0;
    while i < nodes.len()
        invariant
            i <= nodes.len(),
            texts(v@) == seq!["Node details:"@] + nodes@.take(i as int).map_values(
                |n: NodeConfig| detail_line(n),
            ),
        decreases nodes.len() - i,
    {
        let mut line = text("  ");
        line.append(nodes[i].id.as_str());
        line.append(" - ");
        line.append(nodes[i].host.as_str());
        let ghost old_v = v@;
        v.push(line);
        assert(texts(v@) =~= texts(old_v).push(line@));
        i = i + 1;
        assert(nodes@.take(i as int).map_values(|n: NodeConfig| detail_line(n)) =~= nodes@.take(
            i - 1,
        ).map_values(|n: NodeConfig| detail_line(n)).push(detail_line(nodes@[i - 1])));
    }
    assert(nodes@.take(nodes.len() as int) =~= nodes@);
    let r = CommandReply { ok: true, out: v, err: Vec::new() };
    assert(texts(Seq::<String>::empty()) =~= Seq::<Seq<char>>::empty());
    r
}

fn node_command_exec(session: &mut InteractiveSession, args: &str, sorted: &Vec<String>) -> (r:
    CommandReply)
    ensures
        final(session).ssh_config == old(session).ssh_config,
        (final(session)@, r@) == node_command(
            old(session)@,
            old(session).ssh_config.nodes@,
            args@,
            texts(sorted@),
        ),
{
    let ac = chars_of(args);
    let parts = words_exec(&ac);
    let mut subargs: Vec<String> = Vec::new();
    let mut i: usize = 1;
    while i < parts.len()
        invariant
            1 <= i <= parts.len() || parts.len() == 0,
            parts.len() > 0 ==> texts(subargs@) == texts(parts@).subrange(1, i as int),
        decreases parts.len() - i,
    {
        let ghost old_s = subargs@;
        subargs.push(parts[i].clone());
        assert(texts(subargs@) =~= texts(old_s).push(parts@[i as int]@));
        i = i + 1;
        assert(texts(parts@).subrange(1, i as int) =~= texts(parts@).subrange(1, i - 1).push(
            texts(parts@)[i - 1],
        ));
    }
    proof {
        if parts.len() > 0 {
            assert(texts(parts@).subrange(1, parts.len() as int) =~= texts(parts@).skip(1));
        }
    }
    if parts.len() == 0 {
        return lines_reply(false, text("Error: Missing subcommand. Use '!!node help' for usage."));
    }
    assert(texts(parts@)[0] == parts@[0]@);
    if is(parts[0].as_str(), "set") {
        if subargs.len() == 0 || (subargs.len() == 1 && is(subargs[0].as_str(), "all")) {
            proof {
                if subargs.len() == 1 && subargs@[0]@ == "all"@ {
                    assert(texts(subargs@) =~= seq!["all"@]);
                }
            }
            session.target_node_ids = None;
            return lines_reply(true, text("Target nodes: all"));
        }
        let nodes_str = join_strings(&subargs, " ");
        let ns = chars_of(nodes_str.as_str());
        let pieces = split_on_exec(&ns, ',');
        let trimmed = trim_each(&pieces);
        let filled = non_empty_exec(&trimmed);
        let req = dedup_exec(&filled);
        let all = node_id_list(&session.ssh_config.nodes);
        let missing = not_among_exec(&req, &all);
        if missing.len() > 0 {
            return lines_reply(false, nodes_not_found_message(&missing));
        }
        session.target_node_ids = Some(req);
        let mut line = text("Target nodes: ");
        line.append(nodes_str.as_str());
        return lines_reply(true, line);
    }
    if is(parts[0].as_str(), "list") {
        let verbose_flag = text("-v");
        if listed(&subargs, &verbose_flag) {
            return details_reply(&session.ssh_config.nodes);
        }
        let mut line = text("Available nodes: ");
        let joined = join_strings(sorted, ", ");
        line.append(joined.as_str());
        return lines_reply(true, line);
    }
    node_help_reply()
}

/// What the argument of `!!prefix` or `!!sync` asks for: `0` to show the
/// state, `1` for `on`, `2` for `off`, `3` for anything else.
fn toggle_request(args: &str) -> (r: u8)
    ensures
        r == if trim(args@).len() == 0 {
            0u8
        } else if trim(args@) == "on"@ {
            1u8
        } else if trim(args@) == "off"@ {
            2u8
        } else {
            3u8
        },
{
    let ac = chars_of(args);
    let (lo, hi) = trim_range(&ac, 0, ac.len());
    assert(ac@.subrange(0, ac@.len() as int) =~= ac@);
    let a = string_of_range(&ac, lo, hi);
    if lo == hi {
        0
    } else if is(a.as_str(), "on") {
        1
    } else if is(a.as_str(), "off") {
        2
    } else {
        3
    }
}

/// Carries out the special command `!!cmd args` on the session: changes its
/// settings and says what to print, and whether it succeeded.
pub fn handle_special_command(session: &mut InteractiveSession, cmd: &str, args: &str) -> (r:
    CommandReply)
    ensures
        final(session).ssh_config == old(session).ssh_config,
        exists|sorted: Seq<Seq<char>>|
            sorts(sorted, node_ids(old(session).ssh_config.nodes@)) && (final(session)@, r@)
                == special(old(session)@, old(session).ssh_config.nodes@, cmd@, args@, sorted),
{
    let sorted = sort_strings(node_id_list(&session.ssh_config.nodes));
    if is(cmd, "help") {
        return help_reply();
    }
    if is(cmd, "node") {
        return node_command_exec(session, args, &sorted);
    }
    if is(cmd, "cd") {
        let ac = chars_of(args);
        let new_dir = if ac.len() > 0 && ac[0] == '/' {
            text(args)
        } else {
            match &session.current_dir {
                Some(dir) => {
                    let mut d = dir.clone();
                    d.append("/");
                    d.append(args);
                    d
                },
                None => {
                    let mut d = text("/");
                    d.append(args);
                    d
                },
            }
        };
        let mut line = text("Working directory: ");
        line.append(new_dir.as_str());
        session.current_dir = Some(new_dir);
        return lines_reply(true, line);
    }
    if is(cmd, "pwd") {
        let line = match &session.current_dir {
            Some(dir) => {
                let mut l = text("Current working directory: ");
                l.append(dir.as_str());
                l
            },
            None => text("Current working directory: (not set)"),
        };
        return lines_reply(true, line);
    }
    if is(cmd, "prefix") {
        let req = toggle_request(args);
        if req == 0 {
            let mut line = text("Prefix: ");
            line.append(if session.prefix {
                "on"
            } else {
                "off"
            });
            return lines_reply(true, line);
        } else if req == 1 {
            session.prefix = true;
            return lines_reply(true, text("Prefix: on"));
        } else if req == 2 {
            session.prefix = false;
            return lines_reply(true, text("Prefix: off"));
        }
        return lines_reply(false, text("Usage: !!prefix [on|off]"));
    }
    if is(cmd, "sync") {
        let req = toggle_request(args);
        if req == 0 {
            let mut line = text("Sync: ");
            line.append(if session.sync {
                "on"
            } else {
                "off"
            });
            return lines_reply(true, line);
        } else if req == 1 {
            session.sync = true;
            return lines_reply(
                true,
                text("Sync: on  (reminder: do not use with streaming commands like tail -f)"),
            );
        } else if req == 2 {
            session.sync = false;
            return lines_reply(true, text("Sync: off"));
        }
        return lines_reply(false, text("Usage: !!sync [on|off]"));
    }
    let mut line = text("Unknown command: !!");
    line.append(cmd);
    let mut v: Vec<String> = Vec::new();
    v.push(line);
    v.push(text("Type '!!help' for available commands"));
    let r = CommandReply { ok: false, out: Vec::new(), err: v };
    assert(texts(v@) =~= seq!["Unknown command: !!"@ + cmd@, "Type '!!help' for available commands"@]);
    assert(texts(Seq::<String>::empty()) =~= Seq::<Seq<char>>::empty());
    r
}

/// Read after write: after `!!cd path`, `!!pwd` shows the directory that
/// `!!cd` reported, and changes nothing.
pub proof fn law_cd_then_pwd(
    s: SessionView,
    nodes: Seq<NodeConfig>,
    path: Seq<char>,
    pwd_args: Seq<char>,
    sorted: Seq<Seq<char>>,
)
    ensures
        ({
            let (s1, r1) = special(s, nodes, "cd"@, path, sorted);
            let (s2, r2) = special(s1, nodes, "pwd"@, pwd_args, sorted);
            &&& r1 == succeeded(seq!["Working directory: "@ + changed_dir(s.dir, path)])
            &&& s1.dir == Some(changed_dir(s.dir, path))
            &&& r2 == succeeded(
                seq!["Current working directory: "@ + changed_dir(s.dir, path)],
            )
            &&& s2 == s1
        }),
{
    reveal_strlit("help");
    reveal_strlit("node");
    reveal_strlit("cd");
    reveal_strlit("pwd");
    assert("cd"@.len() == 2 && "help"@.len() == 4 && "node"@.len() == 4 && "pwd"@.len() == 3);
    let (s1, r1) = special(s, nodes, "cd"@, path, sorted);
    let (s2, r2) = special(s1, nodes, "pwd"@, pwd_args, sorted);
    assert(s2 =~= s1);
}

/// An absolute path replaces the working directory; a relative one goes
/// below it (below `/` when none is set).
pub proof fn law_cd_paths(dir: Option<Seq<char>>, path: Seq<char>)
    ensures
        path.len() > 0 && path[0] == '/' ==> changed_dir(dir, path) == path,
        changed_dir(dir, path).len() > 0,
{
    reveal_strlit("/");
}

/// Read after write: after `!!prefix on` or `!!prefix off`, `!!prefix`
/// shows that state; the same holds of `!!sync`.
pub proof fn law_toggle_then_show(
    s: SessionView,
    nodes: Seq<NodeConfig>,
    on: bool,
    sorted: Seq<Seq<char>>,
)
    ensures
        ({
            let (s1, _) = special(s, nodes, "prefix"@, on_off(on), sorted);
            let (s2, r2) = special(s1, nodes, "prefix"@, Seq::<char>::empty(), sorted);
            s1.prefix == on && r2 == succeeded(seq!["Prefix: "@ + on_off(on)]) && s2 == s1
        }),
        ({
            let (s1, _) = special(s, nodes, "sync"@, on_off(on), sorted);
            let (s2, r2) = special(s1, nodes, "sync"@, Seq::<char>::empty(), sorted);
            s1.sync == on && r2 == succeeded(seq!["Sync: "@ + on_off(on)]) && s2 == s1
        }),
{
    reveal_strlit("help");
    reveal_strlit("node");
    reveal_strlit("cd");
    reveal_strlit("pwd");
    reveal_strlit("prefix");
    reveal_strlit("sync");
    reveal_strlit("on");
    reveal_strlit("off");
    assert("help"@.len() == 4 && "node"@.len() == 4 && "cd"@.len() == 2 && "pwd"@.len() == 3);
    assert("prefix"@.len() == 6 && "sync"@.len() == 4);
    assert("sync"@[0] == 's' && "help"@[0] == 'h' && "node"@[0] == 'n');
    assert("on"@.len() == 2 && "off"@.len() == 3);
    assert("on"@[0] == 'o' && "on"@[1] == 'n' && "off"@[0] == 'o' && "off"@[2] == 'f');
    lemma_trim_fixed(on_off(on));
    lemma_trim_fixed(Seq::<char>::empty());
}

/// A text without white space at either end is its own trim.
proof fn lemma_trim_fixed(a: Seq<char>)
    requires
        a.len() == 0 || (!crate::text::is_white_space(a[0]) && !crate::text::is_white_space(
            a.last(),
        )),
    ensures
        trim(a) == a,
{
}

} // verus!
