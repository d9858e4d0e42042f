use vstd::prelude::*;
use vstd::string::StringExecFns;

verus! {

/// One step of a script: wait until `wait` has appeared, then send `send`.
#[derive(Debug)]
pub struct ScriptStep {
    pub name: String,
    pub wait: String,
    pub send: String,
}

impl ScriptStep {
    /// A copy of the step.
    pub fn duplicate(&self) -> (r: ScriptStep)
        ensures
            r == *self,
    {
        ScriptStep { name: self.name.clone(), wait: self.wait.clone(), send: self.send.clone() }
    }
}

/// Where to connect and how to log in.
#[derive(Debug)]
pub struct SshConfig {
    pub host: String,
    pub port: u16,
    pub user: String,
    pub password: String,
}

/// A single-host configuration: the connection, the login script and the
/// commands to run.
#[derive(Debug)]
pub struct Config {
    pub ssh: SshConfig,
    pub login_script: Vec<ScriptStep>,
    pub command: Vec<ScriptStep>,
}

/// A copy of a list of steps.
pub fn duplicate_steps(steps: &Vec<ScriptStep>) -> (r: Vec<ScriptStep>)
    ensures
        r@ == steps@,
{
    let mut r: Vec<ScriptStep> = Vec::new();
    let mut i: usize = 0;
    while i < steps.len()
        invariant
            i <= steps.len(),
            r@ == steps@.take(i as int),
        decreases steps.len() - i,
    {
        r.push(steps[i].duplicate());
        i = i + 1;
        assert(r@ =~= steps@.take(i as int));
    }
    assert(steps@.take(steps.len() as int) =~= steps@);
    r
}

/// The defaults that nodes fall back on.
#[derive(Debug)]
pub struct DefaultsConfig {
    pub port: u16,
    pub user: String,
    pub password: String,
    pub login_script: Vec<ScriptStep>,
    pub use_jump: bool,
    pub command_wait: String,
}

/// The jump host that nodes may be reached through.
#[derive(Debug)]
pub struct JumpConfig {
    pub host: String,
    pub port: u16,
    pub user: String,
    pub password: String,
    pub login_script: Vec<ScriptStep>,
}

/// One node; empty strings and an absent port defer to the defaults.
#[derive(Debug)]
pub struct NodeConfig {
    pub id: String,
    pub host: String,
    pub port: Option<u16>,
    pub user: String,
    pub password: String,
    pub login_script: Vec<ScriptStep>,
    pub login_script_append: Vec<ScriptStep>,
    pub use_jump: Option<bool>,
}

/// The whole configuration file.
#[derive(Debug)]
pub struct SshverConfig {
    pub defaults: DefaultsConfig,
    pub jump: JumpConfig,
    pub nodes: Vec<NodeConfig>,
}

/// The SSH port used when none is given.
pub fn default_port() -> (p: u16)
    ensures
        p == 22,
{
    22
}

/// The prompt waited for after each command when none is given: `$` or `#`.
pub fn default_command_wait() -> (s: String)
    ensures
        s@ == "$|#"@,
{
    String::from_str("$|#")
}

/// The placeholder that login scripts write for the node's password.
pub open spec fn password_placeholder() -> Seq<char> {
    "{{password}}"@
}

/// `out` is `step` with a placeholder `send` replaced by `password`.
pub open spec fn substituted(step: ScriptStep, out: ScriptStep, password: Seq<char>) -> bool {
    &&& out.name@ == step.name@
    &&& out.wait@ == step.wait@
    &&& out.send@ == if step.send@ == password_placeholder() {
        password
    } else {
        step.send@
    }
}

/// `out` has the texts of `step`.
pub open spec fn same_step(step: ScriptStep, out: ScriptStep) -> bool {
    &&& out.name@ == step.name@
    &&& out.wait@ == step.wait@
    &&& out.send@ == step.send@
}

/// Copies of `steps` with each placeholder `send` replaced by `password`.
fn substitute_password(steps: &Vec<ScriptStep>, password: &str) -> (r: Vec<ScriptStep>)
    ensures
        r.len() == steps.len(),
        forall|i: int| 0 <= i < r.len() ==> substituted(steps@[i], #[trigger] r@[i], password@),
{
    let placeholder = String::from_str("{{password}}");
    let mut r: Vec<ScriptStep> = Vec::new();
    let mut i: usize = 0;
    while i < steps.len()
        invariant
            i <= steps.len(),
            placeholder@ == password_placeholder(),
            r.len() == i,
            forall|k: int| 0 <= k < i ==> substituted(steps@[k], #[trigger] r@[k], password@),
        decreases steps.len() - i,
    {
        let mut step = steps[i].duplicate();
        if step.send == placeholder {
            step.send = String::from_str(password);
        }
        r.push(step);
        i = i + 1;
    }
    r
}

/// `r` is the login script of `node`: its own script when it has one, else
/// the default script followed by its appended steps; in the node's own or
/// the default script a step that sends `{{password}}` sends `password`
/// instead.
pub open spec fn is_login_script(
    defaults: DefaultsConfig,
    node: NodeConfig,
    password: Seq<char>,
    r: Seq<ScriptStep>,
) -> bool {
    if node.login_script.len() > 0 {
        &&& r.len() == node.login_script.len()
        &&& forall|i: int|
            0 <= i < r.len() ==> substituted(node.login_script@[i], #[trigger] r[i], password)
    } else {
        &&& r.len() == defaults.login_script.len() + node.login_script_append.len()
        &&& forall|i: int|
            0 <= i < defaults.login_script.len() ==> substituted(
                defaults.login_script@[i],
                #[trigger] r[i],
                password,
            )
        &&& forall|i: int|
            0 <= i < node.login_script_append.len() ==> same_step(
                node.login_script_append@[i],
                #[trigger] r[defaults.login_script.len() + i],
            )
    }
}

/// The login script of `node` (see `is_login_script`).
pub fn build_login_script(defaults: &DefaultsConfig, node: &NodeConfig, node_password: &str) -> (r:
    Vec<ScriptStep>)
    ensures
        is_login_script(*defaults, *node, node_password@, r@),
{
    if node.login_script.len() > 0 {
        return substitute_password(&node.login_script, node_password);
    }
    let mut script = substitute_password(&defaults.login_script, node_password);
    let n = script.len();
    let mut i: usize = 0;
    while i < node.login_script_append.len()
        invariant
            i <= node.login_script_append.len(),
            n == defaults.login_script.len(),
            script.len() == n + i,
            forall|k: int|
                0 <= k < n ==> substituted(
                    defaults.login_script@[k],
                    #[trigger] script@[k],
                    node_password@,
                ),
            forall|k: int|
                0 <= k < i ==> same_step(node.login_script_append@[k], #[trigger] script@[n + k]),
        decreases node.login_script_append.len() - i,
    {
        script.push(node.login_script_append[i].duplicate());
        i = i + 1;
    }
    script
}

} // verus!
