use vstd::prelude::*;
use vstd::string::StringExecFns;

use crate::config::{
    build_login_script, duplicate_steps, is_login_script, password_placeholder, NodeConfig,
    ScriptStep, SshverConfig,
};
use crate::session::{Endpoint, JumpHop, SessionPlan};

verus! {

/// `id` is one of `ids`.
pub open spec fn id_listed(ids: Seq<String>, id: Seq<char>) -> bool {
    exists|k: int| 0 <= k < ids.len() && #[trigger] ids[k]@ == id
}

/// The node is among the targets: all nodes when no targets are given.
pub open spec fn node_selected(target: Option<Vec<String>>, node: NodeConfig) -> bool {
    match target {
        None => true,
        Some(ids) => id_listed(ids@, node.id@),
    }
}

/// The nodes among the targets, in configuration order.
pub open spec fn selected_nodes(nodes: Seq<NodeConfig>, target: Option<Vec<String>>) -> Seq<
    NodeConfig,
>
    decreases nodes.len(),
{
    if nodes.len() == 0 {
        seq![]
    } else {
        let rest = selected_nodes(nodes.drop_last(), target);
        if node_selected(target, nodes.last()) {
            rest.push(nodes.last())
        } else {
            rest
        }
    }
}

/// The node's password, else the default one.
pub open spec fn node_password(config: SshverConfig, node: NodeConfig) -> Seq<char> {
    if node.password@.len() == 0 {
        config.defaults.password@
    } else {
        node.password@
    }
}

/// The node's user, else the default one.
pub open spec fn node_user(config: SshverConfig, node: NodeConfig) -> Seq<char> {
    if node.user@.len() == 0 {
        config.defaults.user@
    } else {
        node.user@
    }
}

/// The node's own port when it sets one, else the default port.
pub open spec fn node_port(config: SshverConfig, node: NodeConfig) -> u16 {
    match node.port {
        Some(p) => p,
        None => config.defaults.port,
    }
}

/// Whether the node is reached through the jump host.
pub open spec fn node_uses_jump(config: SshverConfig, node: NodeConfig) -> bool {
    match node.use_jump {
        Some(b) => b,
        None => config.defaults.use_jump,
    }
}

/// The command run on the node: after `cd` into the working directory when
/// one is set.
pub open spec fn actual_command(command: Seq<char>, current_dir: Option<String>) -> Seq<char> {
    match current_dir {
        Some(dir) => "cd "@ + dir@ + " && "@ + command,
        None => command,
    }
}

/// `p` is the plan for running `command` on `node`.
pub open spec fn plans_node(
    config: SshverConfig,
    node: NodeConfig,
    command: Seq<char>,
    current_dir: Option<String>,
    prefix: bool,
    p: SessionPlan,
) -> bool {
    &&& p.node_id@ == node.id@
    &&& p.target.host@ == node.host@
    &&& p.target.port == node_port(config, node)
    &&& p.target.user@ == node_user(config, node)
    &&& p.target.password@ == node_password(config, node)
    &&& is_login_script(config.defaults, node, node_password(config, node), p.target_login@)
    &&& p.commands.len() == 1
    &&& p.commands@[0].name@ == "cli"@
    &&& p.commands@[0].wait@ == config.defaults.command_wait@
    &&& p.commands@[0].send@ == actual_command(command, current_dir)
    &&& p.prefix == prefix
    &&& match p.jump {
        Some(hop) => {
            &&& node_uses_jump(config, node)
            &&& hop.endpoint.host@ == config.jump.host@
            &&& hop.endpoint.port == config.jump.port
            &&& hop.endpoint.user@ == config.jump.user@
            &&& hop.endpoint.password@ == config.jump.password@
            &&& hop.login_script@ == config.jump.login_script@
        },
        None => !node_uses_jump(config, node),
    }
}

/// Whether `id` is one of `ids`.
pub fn id_listed_exec(ids: &Vec<String>, id: &String) -> (r: bool)
    ensures
        r == id_listed(ids@, id@),
{
    let mut k: usize = 0;
    while k < ids.len()
        invariant
            k <= ids.len(),
            forall|j: int| 0 <= j < k ==> ids@[j]@ != id@,
        decreases ids.len() - k,
    {
        if ids[k] == *id {
            return true;
        }
        k = k + 1;
    }
    false
}

fn copy_string(s: &String) -> (r: String)
    ensures
        r@ == s@,
{
    s.clone()
}

/// The plan for running `command` on `node`.
fn plan_node(
    config: &SshverConfig,
    node: &NodeConfig,
    command: &str,
    current_dir: &Option<String>,
    prefix: bool,
) -> (p: SessionPlan)
    ensures
        plans_node(*config, *node, command@, *current_dir, prefix, p),
{
    let password = if node.password.as_str().is_empty() {
        copy_string(&config.defaults.password)
    } else {
        copy_string(&node.password)
    };
    let user = if node.user.as_str().is_empty() {
        copy_string(&config.defaults.user)
    } else {
        copy_string(&node.user)
    };
    let port = match node.port {
        Some(p) => p,
        None => config.defaults.port,
    };
    let login = build_login_script(&config.defaults, node, password.as_str());
    let use_jump = match node.use_jump {
        Some(b) => b,
        None => config.defaults.use_jump,
    };
    let send = match current_dir {
        Some(dir) => {
            let mut s = String::from_str("cd ");
            s.append(dir.as_str());
            s.append(" && ");
            s.append(command);
            s
        },
        None => String::from_str(command),
    };
    let step = ScriptStep {
        name: String::from_str("cli"),
        wait: copy_string(&config.defaults.command_wait),
        send,
    };
    let mut commands: Vec<ScriptStep> = Vec::new();
    commands.push(step);
    let jump = if use_jump {
        Some(
            JumpHop {
                endpoint: Endpoint {
                    host: copy_string(&config.jump.host),
                    port: config.jump.port,
                    user: copy_string(&config.jump.user),
                    password: copy_string(&config.jump.password),
                },
                login_script: duplicate_steps(&config.jump.login_script),
            },
        )
    } else {
        None
    };
    SessionPlan {
        node_id: copy_string(&node.id),
        target: Endpoint { host: copy_string(&node.host), port, user, password },
        target_login: login,
        jump,
        commands,
        prefix,
    }
}

/// The plans for running `command` on each targeted node, in configuration
/// order: every node when `target_node_ids` is `None`, else the nodes whose
/// id is listed there.
pub fn plan_sessions(
    config: &SshverConfig,
    command: &str,
    target_node_ids: &Option<Vec<String>>,
    current_dir: &Option<String>,
    prefix: bool,
) -> (r: Vec<SessionPlan>)
    ensures
        r.len() == selected_nodes(config.nodes@, *target_node_ids).len(),
        forall|k: int|
            0 <= k < r.len() ==> plans_node(
                *config,
                selected_nodes(config.nodes@, *target_node_ids)[k],
                command@,
                *current_dir,
                prefix,
                #[trigger] r@[k],
            ),
{
    let mut r: Vec<SessionPlan> = Vec::new();
    let mut i: usize = 0;
    while i < config.nodes.len()
        invariant
            i <= config.nodes.len(),
            r.len() == selected_nodes(config.nodes@.take(i as int), *target_node_ids).len(),
            forall|k: int|
                0 <= k < r.len() ==> plans_node(
                    *config,
                    selected_nodes(config.nodes@.take(i as int), *target_node_ids)[k],
                    command@,
                    *current_dir,
                    prefix,
                    #[trigger] r@[k],
                ),
        decreases config.nodes.len() - i,
    {
        let node = &config.nodes[i];
        let selected = match target_node_ids {
            None => true,
            Some(ids) => id_listed_exec(ids, &node.id),
        };
        proof {
            assert(config.nodes@.take(i + 1).drop_last() =~= config.nodes@.take(i as int));
        }
        if selected {
            let p = plan_node(config, node, command, current_dir, prefix);
            r.push(p);
        }
        i = i + 1;
    }
    assert(config.nodes@.take(config.nodes.len() as int) =~= config.nodes@);
    r
}

/// Whether a command failed on some node: some node's run ended with
/// `false` (interrupted). `None` stands for a node whose run ended in an
/// error, which does not count.
pub fn any_failed(results: &Vec<Option<bool>>) -> (r: bool)
    ensures
        r == exists|i: int| 0 <= i < results.len() && #[trigger] results@[i] == Some(false),
{
    let mut i: usize = 0;
    while i < results.len()
        invariant
            i <= results.len(),
            forall|j: int| 0 <= j < i ==> results@[j] != Some(false),
        decreases results.len() - i,
    {
        if results[i] == Some(false) {
            return true;
        }
        i = i + 1;
    }
    false
}

/// A login step written to send `{{password}}` sends the password that the
/// node logs in with: the node's own, else the default one.
pub proof fn law_placeholder_is_login_password(
    config: SshverConfig,
    node: NodeConfig,
    command: Seq<char>,
    current_dir: Option<String>,
    prefix: bool,
    p: SessionPlan,
    i: int,
)
    requires
        plans_node(config, node, command, current_dir, prefix, p),
        node.login_script.len() > 0 ==> 0 <= i < node.login_script.len()
            && node.login_script@[i].send@ == password_placeholder(),
        node.login_script.len() == 0 ==> 0 <= i < config.defaults.login_script.len()
            && config.defaults.login_script@[i].send@ == password_placeholder(),
    ensures
        p.target_login@[i].send@ == p.target.password@,
{
}

/// A node is a target exactly when its id is, character for character, one
/// of the listed ids: no prefix, suffix or other partial match selects it.
pub proof fn law_selected_by_equal_id(ids: Vec<String>, node: NodeConfig)
    ensures
        node_selected(Some(ids), node) <==> crate::session::texts(ids@).contains(node.id@),
{
    let t = crate::session::texts(ids@);
    if node_selected(Some(ids), node) {
        let k = choose|k: int| 0 <= k < ids@.len() && #[trigger] ids@[k]@ == node.id@;
        assert(t[k] == node.id@);
    }
    if t.contains(node.id@) {
        let k = choose|k: int| 0 <= k < t.len() && t[k] == node.id@;
        assert(ids@[k]@ == node.id@);
    }
}

/// With listed targets, the nodes chosen are exactly the configured nodes
/// whose id is listed: every chosen node's id is listed and was configured,
/// and every configured node with a listed id is chosen.
pub proof fn law_selected_nodes_are_the_listed(nodes: Seq<NodeConfig>, ids: Vec<String>)
    ensures
        forall|k: int|
            0 <= k < selected_nodes(nodes, Some(ids)).len() ==> crate::session::texts(
                ids@,
            ).contains(#[trigger] selected_nodes(nodes, Some(ids))[k].id@) && nodes.contains(
                selected_nodes(nodes, Some(ids))[k],
            ),
        forall|j: int|
            0 <= j < nodes.len() && crate::session::texts(ids@).contains(#[trigger] nodes[j].id@)
                ==> selected_nodes(nodes, Some(ids)).contains(nodes[j]),
    decreases nodes.len(),
{
    if nodes.len() > 0 {
        let init = nodes.drop_last();
        law_selected_nodes_are_the_listed(init, ids);
        law_selected_by_equal_id(ids, nodes.last());
        let rest = selected_nodes(init, Some(ids));
        let sel = selected_nodes(nodes, Some(ids));
        assert forall|k: int| 0 <= k < sel.len() implies crate::session::texts(ids@).contains(
            #[trigger] sel[k].id@,
        ) && nodes.contains(sel[k]) by {
            if k < rest.len() {
                assert(sel[k] == rest[k]);
                assert(0 <= k < selected_nodes(init, Some(ids)).len());
                assert(crate::session::texts(ids@).contains(selected_nodes(init, Some(ids))[k].id@));
                assert(init.contains(rest[k]));
                let m = choose|m: int| 0 <= m < init.len() && init[m] == rest[k];
                assert(nodes[m] == init[m]);
            } else {
                assert(sel[k] == nodes.last());
                assert(nodes[nodes.len() - 1] == nodes.last());
            }
        }
        assert forall|j: int|
            0 <= j < nodes.len() && crate::session::texts(ids@).contains(
                #[trigger] nodes[j].id@,
            ) implies sel.contains(nodes[j]) by {
            if j < init.len() {
                assert(init[j] == nodes[j]);
                let m = choose|m: int| 0 <= m < rest.len() && rest[m] == init[j];
                assert(sel[m] == rest[m]);
            } else {
                law_selected_by_equal_id(ids, nodes[j]);
                assert(sel[sel.len() - 1] == nodes[j]);
            }
        }
    }
}

/// A node reached through the jump host dials the configured jump host,
/// with its port, user and password, whatever the node's own settings; so
/// any two such plans dial the same jump endpoint.
pub proof fn law_jump_hop_is_the_jump_host(
    config: SshverConfig,
    n1: NodeConfig,
    n2: NodeConfig,
    command: Seq<char>,
    current_dir: Option<String>,
    prefix: bool,
    p1: SessionPlan,
    p2: SessionPlan,
)
    requires
        plans_node(config, n1, command, current_dir, prefix, p1),
        plans_node(config, n2, command, current_dir, prefix, p2),
    ensures
        p1.jump matches Some(h) ==> h.endpoint.host@ == config.jump.host@ && h.endpoint.port
            == config.jump.port && h.endpoint.user@ == config.jump.user@
            && h.endpoint.password@ == config.jump.password@,
        (p1.jump is Some && p2.jump is Some) ==> p1.jump->0.endpoint.port
            == p2.jump->0.endpoint.port && p1.jump->0.endpoint.host@ == p2.jump->0.endpoint.host@,
{
}

} // verus!
