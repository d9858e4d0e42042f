use vstd::prelude::*;
use vstd::string::StringExecFns;
use vstd::utf8::{decode_utf8, encode_utf8, valid_utf8};

use crate::config::ScriptStep;
use crate::frame::{base64_encode, frame, frame_command};
use crate::line_buffer::{decorate, LineBuffer};
use crate::text::{
    append_char_vec, append_chars, chars_of, complete_lines, contains_seq, decimal, decimal_exec,
    find, find_exec, lemma_find_contains, line_ranges, lines, range_holds, sub_chars, trim,
    trim_range,
};
use crate::wait::{wait_appeared, wait_appeared_chars};

verus! {

broadcast use vstd::string::group_string_axioms;

// ---------------------------------------------------------------------------
// What a run is given.
// ---------------------------------------------------------------------------

/// An SSH server and the password login on it.
#[derive(Debug)]
pub struct Endpoint {
    pub host: String,
    pub port: u16,
    pub user: String,
    pub password: String,
}

/// A jump host that the target is reached through, and its login script.
#[derive(Debug)]
pub struct JumpHop {
    pub endpoint: Endpoint,
    pub login_script: Vec<ScriptStep>,
}

/// Everything one node's run needs: where to go, the login scripts, the
/// commands, and whether streamed output lines carry the node prefix.
#[derive(Debug)]
pub struct SessionPlan {
    pub node_id: String,
    pub target: Endpoint,
    pub target_login: Vec<ScriptStep>,
    pub jump: Option<JumpHop>,
    pub commands: Vec<ScriptStep>,
    pub prefix: bool,
}

/// Which host's login script is running.
#[derive(Clone, Copy, PartialEq, Eq, Structural, Debug)]
pub enum Hop {
    Jump,
    Target,
}

/// Where a run stands.
#[derive(Clone, Copy, PartialEq, Eq, Structural, Debug)]
pub enum Stage {
    /// Nothing has happened yet.
    Start,
    /// Connecting and authenticating to the first host.
    Authenticating,
    /// Opening a channel with a terminal and a shell.
    OpeningShell,
    /// Waiting for the wait pattern of a login step.
    Login { hop: Hop, step: usize },
    /// Waiting for the target's password prompt through the jump host.
    PasswordPrompt,
    /// Waiting for the shell prompt before a command.
    Prompt { command: usize },
    /// Collecting the output of a command.
    Capture { command: usize },
    /// The run is over.
    Done,
}

/// What happened on the connection.
#[derive(Debug)]
pub enum Event {
    /// The run begins.
    Start,
    /// The password authentication answered.
    Authenticated(bool),
    /// The channel, its terminal and its shell are ready.
    ShellReady,
    /// Text arrived on the channel.
    Data(String),
    /// Some other channel message arrived.
    Other,
    /// The channel closed.
    Closed,
    /// The wait that the last timer covers took too long.
    Timeout,
    /// The user pressed Ctrl+C.
    Interrupt,
}

pub enum EventView {
    Start,
    Authenticated(bool),
    ShellReady,
    Data(Seq<char>),
    Other,
    Closed,
    Timeout,
    Interrupt,
}

impl View for Event {
    type V = EventView;

    open spec fn view(&self) -> EventView {
        match self {
            Event::Start => EventView::Start,
            Event::Authenticated(ok) => EventView::Authenticated(*ok),
            Event::ShellReady => EventView::ShellReady,
            Event::Data(t) => EventView::Data(t@),
            Event::Other => EventView::Other,
            Event::Closed => EventView::Closed,
            Event::Timeout => EventView::Timeout,
            Event::Interrupt => EventView::Interrupt,
        }
    }
}

/// How a run ended.
#[derive(Debug)]
pub enum Outcome {
    /// Every command ran; close the channel and disconnect.
    Completed,
    /// The user interrupted a command; close the channel and disconnect.
    Interrupted,
    /// The run stopped before the target was reached; leave the connection.
    Abandoned,
    /// The run failed with this message.
    Failed(String),
}

pub enum OutcomeView {
    Completed,
    Interrupted,
    Abandoned,
    Failed(Seq<char>),
}

impl View for Outcome {
    type V = OutcomeView;

    open spec fn view(&self) -> OutcomeView {
        match self {
            Outcome::Completed => OutcomeView::Completed,
            Outcome::Interrupted => OutcomeView::Interrupted,
            Outcome::Abandoned => OutcomeView::Abandoned,
            Outcome::Failed(m) => OutcomeView::Failed(m@),
        }
    }
}

/// What to do after an event, in this order: show the lines, send the
/// texts, connect and authenticate to the first host, open the shell,
/// start a timer for the wait that begins, and end the run.
#[derive(Debug)]
pub struct Reply {
    pub show: Vec<String>,
    pub send: Vec<String>,
    pub connect: bool,
    pub open_shell: bool,
    pub start_timer: bool,
    pub finish: Option<Outcome>,
}

#[verifier::ext_equal]
pub struct ReplyView {
    pub show: Seq<Seq<char>>,
    pub send: Seq<Seq<char>>,
    pub connect: bool,
    pub open_shell: bool,
    pub start_timer: bool,
    pub finish: Option<OutcomeView>,
}

/// The texts of a list of strings.
pub open spec fn texts(v: Seq<String>) -> Seq<Seq<char>> {
    v.map_values(|s: String| s@)
}

impl View for Reply {
    type V = ReplyView;

    open spec fn view(&self) -> ReplyView {
        ReplyView {
            show: texts(self.show@),
            send: texts(self.send@),
            connect: self.connect,
            open_shell: self.open_shell,
            start_timer: self.start_timer,
            finish: match self.finish {
                Some(o) => Some(o@),
                None => None,
            },
        }
    }
}

/// The state of a run that events change.
#[verifier::ext_equal]
pub struct RunState {
    pub stage: Stage,
    /// What arrived since the current wait began.
    pub buf: Seq<char>,
    /// Everything that arrived while commands ran.
    pub full: Seq<char>,
    /// Where in `full` the output not yet shown begins.
    pub output_start: int,
    /// Streamed output that no `\n` has completed yet.
    pub pending: Seq<char>,
}

// ---------------------------------------------------------------------------
// The texts of a run.
// ---------------------------------------------------------------------------

pub open spec fn hop_script(plan: SessionPlan, hop: Hop) -> Seq<ScriptStep> {
    match hop {
        Hop::Jump => match plan.jump {
            Some(j) => j.login_script@,
            None => seq![],
        },
        Hop::Target => plan.target_login@,
    }
}

pub open spec fn hop_endpoint(plan: SessionPlan, hop: Hop) -> Endpoint {
    match hop {
        Hop::Jump => match plan.jump {
            Some(j) => j.endpoint,
            None => plan.target,
        },
        Hop::Target => plan.target,
    }
}

/// The host connected to first: the jump host when there is one.
pub open spec fn first_hop(plan: SessionPlan) -> Hop {
    if plan.jump is Some {
        Hop::Jump
    } else {
        Hop::Target
    }
}

/// `host:port:user` of a host, with `Jump host ` or `Target host ` in front
/// when the run goes through a jump host.
pub open spec fn at_hop(plan: SessionPlan, hop: Hop) -> Seq<char> {
    let ep = hop_endpoint(plan, hop);
    let label = if plan.jump is None {
        Seq::<char>::empty()
    } else {
        match hop {
            Hop::Jump => "Jump host "@,
            Hop::Target => "Target host "@,
        }
    };
    label + ep.host@ + ":"@ + decimal(ep.port as nat) + ":"@ + ep.user@
}

pub open spec fn auth_failed(plan: SessionPlan) -> Seq<char> {
    at_hop(plan, first_hop(plan)) + " - Authentication failed: Invalid password or username"@
}

pub open spec fn login_closed(plan: SessionPlan, hop: Hop, step: ScriptStep) -> Seq<char> {
    at_hop(plan, hop) + " - Login script step '"@ + step.name@ + "' failed: Channel closed"@
}

pub open spec fn login_timeout(plan: SessionPlan, hop: Hop, step: ScriptStep) -> Seq<char> {
    at_hop(plan, hop) + " - Login script step '"@ + step.name@
        + "' failed: Timeout waiting for pattern '"@ + step.wait@ + "'"@
}

pub open spec fn command_closed(plan: SessionPlan) -> Seq<char> {
    at_hop(plan, Hop::Target) + " - Command execution failed: Channel closed"@
}

pub open spec fn command_timeout(plan: SessionPlan) -> Seq<char> {
    at_hop(plan, Hop::Target) + " - Command execution failed: Timeout waiting for prompt"@
}

/// The command typed on the jump host to reach the target.
pub open spec fn ssh_command(plan: SessionPlan) -> Seq<char> {
    "ssh -t -o StrictHostKeyChecking=no -p "@ + decimal(plan.target.port as nat) + " "@
        + plan.target.user@ + "@"@ + plan.target.host@ + "\n"@
}

/// A text followed by a newline, as typed.
pub open spec fn line_of(text: Seq<char>) -> Seq<char> {
    text + "\n"@
}

/// The line sent to run a command: an interactive shell when connected
/// directly, a plain one through a jump host.
pub open spec fn framed(plan: SessionPlan, c: ScriptStep) -> Seq<char> {
    frame(base64_encode(encode_utf8(c.send@)), plan.jump is None)
}

/// `[node_id]`.
pub open spec fn node_prefix(plan: SessionPlan) -> Seq<char> {
    "["@ + plan.node_id@ + "]"@
}

pub open spec fn begin_marker() -> Seq<char> {
    "MY_begin\r\n"@
}

pub open spec fn end_marker() -> Seq<char> {
    "MY_end"@
}

pub open spec fn password_prompt_seen(buf: Seq<char>) -> bool {
    contains_seq(buf, "password:"@) || contains_seq(buf, "Password:"@)
}

/// Every command fits the base64 encoder.
pub open spec fn commands_fit(plan: SessionPlan) -> bool {
    forall|i: int|
        0 <= i < plan.commands.len() ==> (encode_utf8(#[trigger] plan.commands@[i].send@).len()
            as usize) <= usize::MAX / 2
}

// ---------------------------------------------------------------------------
// The transitions.
// ---------------------------------------------------------------------------

pub open spec fn quiet() -> ReplyView {
    ReplyView {
        show: seq![],
        send: seq![],
        connect: false,
        open_shell: false,
        start_timer: false,
        finish: None,
    }
}

pub open spec fn ending(o: OutcomeView) -> ReplyView {
    ReplyView { finish: Some(o), ..quiet() }
}

pub open spec fn timing() -> ReplyView {
    ReplyView { start_timer: true, ..quiet() }
}

pub open spec fn sending_first(line: Seq<char>, r: ReplyView) -> ReplyView {
    ReplyView { send: seq![line] + r.send, ..r }
}

pub open spec fn showing(shown: Seq<Seq<char>>, r: ReplyView) -> ReplyView {
    ReplyView { show: shown + r.show, ..r }
}

/// Begin waiting for the prompt before command `j`, or end the run when all
/// commands have run.
pub open spec fn enter_prompt(plan: SessionPlan, s: RunState, j: int) -> (RunState, ReplyView) {
    if j < plan.commands.len() {
        (RunState { stage: Stage::Prompt { command: j as usize }, buf: seq![], ..s }, timing())
    } else {
        (RunState { stage: Stage::Done, ..s }, ending(OutcomeView::Completed))
    }
}

/// Begin waiting for login step `i` of `hop`; after the jump host's last
/// step, ask it to reach the target; after the target's, go to the commands.
pub open spec fn enter_login(plan: SessionPlan, s: RunState, hop: Hop, i: int) -> (
    RunState,
    ReplyView,
) {
    if i < hop_script(plan, hop).len() {
        (RunState { stage: Stage::Login { hop, step: i as usize }, buf: seq![], ..s }, timing())
    } else if hop == Hop::Jump {
        (
            RunState { stage: Stage::PasswordPrompt, buf: seq![], ..s },
            ReplyView { send: seq![ssh_command(plan)], ..quiet() },
        )
    } else {
        enter_prompt(plan, s, 0)
    }
}

/// What is still buffered, shown.
pub open spec fn flushed(plan: SessionPlan, pending: Seq<char>) -> Seq<Seq<char>> {
    if pending.len() > 0 {
        seq![decorate(node_prefix(plan), plan.prefix, pending)]
    } else {
        seq![]
    }
}

/// Command `command` is over: show `shown` and what is still buffered, then
/// go on with the next command.
pub open spec fn end_capture(plan: SessionPlan, s: RunState, command: int, shown: Seq<Seq<char>>) -> (
    RunState,
    ReplyView,
) {
    let next = enter_prompt(plan, RunState { pending: seq![], ..s }, command + 1);
    (next.0, showing(shown + flushed(plan, s.pending), next.1))
}

/// The output between the markers, trimmed, line by line, each line with
/// `[node_id] ` in front when the plan asks for the prefix.
pub open spec fn output_lines(plan: SessionPlan, content: Seq<char>, e: int) -> Seq<Seq<char>> {
    let out = trim(content.take(e));
    if out.len() > 0 {
        lines(out).map_values(|l: Seq<char>| decorate(node_prefix(plan), plan.prefix, l))
    } else {
        seq![]
    }
}

/// Text `t` arrived while command `command` runs.
pub open spec fn on_capture_data(plan: SessionPlan, s: RunState, command: int, t: Seq<char>) -> (
    RunState,
    ReplyView,
) {
    let full = s.full + t;
    match find(full, begin_marker()) {
        None => (RunState { full, ..s }, quiet()),
        Some(b) => {
            let content_start = b + begin_marker().len();
            let start = if content_start > s.output_start {
                content_start as int
            } else {
                s.output_start
            };
            let content = full.subrange(start, full.len() as int);
            match find(content, end_marker()) {
                Some(e) => end_capture(
                    plan,
                    RunState { full, output_start: start, ..s },
                    command,
                    output_lines(plan, content, e as int),
                ),
                None => {
                    let cl = complete_lines(s.pending + content);
                    (
                        RunState { full, output_start: full.len() as int, pending: cl.1, ..s },
                        ReplyView {
                            show: cl.0.map_values(
                                |l: Seq<char>| decorate(node_prefix(plan), plan.prefix, l),
                            ),
                            ..quiet()
                        },
                    )
                },
            }
        },
    }
}

pub open spec fn on_login(plan: SessionPlan, s: RunState, hop: Hop, i: int, e: EventView) -> (
    RunState,
    ReplyView,
) {
    let st = hop_script(plan, hop)[i];
    match e {
        EventView::Data(t) => {
            let buf = s.buf + t;
            if wait_appeared(st.wait@, buf) {
                let next = enter_login(plan, RunState { buf, ..s }, hop, i + 1);
                (next.0, sending_first(line_of(st.send@), next.1))
            } else {
                (RunState { buf, ..s }, quiet())
            }
        },
        EventView::Closed => (
            RunState { stage: Stage::Done, ..s },
            ending(OutcomeView::Failed(login_closed(plan, hop, st))),
        ),
        EventView::Timeout => (
            RunState { stage: Stage::Done, ..s },
            ending(OutcomeView::Failed(login_timeout(plan, hop, st))),
        ),
        _ => (s, quiet()),
    }
}

pub open spec fn on_password_prompt(plan: SessionPlan, s: RunState, e: EventView) -> (
    RunState,
    ReplyView,
) {
    match e {
        EventView::Data(t) => {
            let buf = s.buf + t;
            if password_prompt_seen(buf) {
                let next = enter_login(plan, RunState { buf, ..s }, Hop::Target, 0);
                (next.0, sending_first(line_of(plan.target.password@), next.1))
            } else {
                (RunState { buf, ..s }, quiet())
            }
        },
        EventView::Closed => (RunState { stage: Stage::Done, ..s }, ending(OutcomeView::Abandoned)),
        EventView::Interrupt => (
            RunState { stage: Stage::Done, ..s },
            ending(OutcomeView::Abandoned),
        ),
        _ => (s, quiet()),
    }
}

pub open spec fn on_prompt(plan: SessionPlan, s: RunState, command: int, e: EventView) -> (
    RunState,
    ReplyView,
) {
    let c = plan.commands@[command];
    match e {
        EventView::Data(t) => {
            let buf = s.buf + t;
            if wait_appeared(c.wait@, buf) {
                (
                    RunState {
                        stage: Stage::Capture { command: command as usize },
                        buf,
                        pending: seq![],
                        ..s
                    },
                    ReplyView { send: seq![framed(plan, c)], ..quiet() },
                )
            } else {
                (RunState { buf, ..s }, quiet())
            }
        },
        EventView::Closed => (
            RunState { stage: Stage::Done, ..s },
            ending(OutcomeView::Failed(command_closed(plan))),
        ),
        EventView::Timeout => (
            RunState { stage: Stage::Done, ..s },
            ending(OutcomeView::Failed(command_timeout(plan))),
        ),
        _ => (s, quiet()),
    }
}

pub open spec fn on_capture(plan: SessionPlan, s: RunState, command: int, e: EventView) -> (
    RunState,
    ReplyView,
) {
    match e {
        EventView::Data(t) => on_capture_data(plan, s, command, t),
        EventView::Closed => end_capture(plan, s, command, seq![]),
        EventView::Interrupt => (
            RunState { stage: Stage::Done, pending: seq![], ..s },
            ReplyView {
                show: flushed(plan, s.pending),
                finish: Some(OutcomeView::Interrupted),
                ..quiet()
            },
        ),
        _ => (s, quiet()),
    }
}

/// The state after event `e`, and what to do.
pub open spec fn next(plan: SessionPlan, s: RunState, e: EventView) -> (RunState, ReplyView) {
    match s.stage {
        Stage::Start => match e {
            EventView::Start => if plan.jump is None && plan.target_login.len()
                + plan.commands.len() == 0 {
                (RunState { stage: Stage::Done, ..s }, ending(OutcomeView::Completed))
            } else {
                (RunState { stage: Stage::Authenticating, ..s }, ReplyView { connect: true, ..quiet() })
            },
            _ => (s, quiet()),
        },
        Stage::Authenticating => match e {
            EventView::Authenticated(ok) => if ok {
                (
                    RunState { stage: Stage::OpeningShell, ..s },
                    ReplyView { open_shell: true, ..quiet() },
                )
            } else {
                (
                    RunState { stage: Stage::Done, ..s },
                    ending(OutcomeView::Failed(auth_failed(plan))),
                )
            },
            _ => (s, quiet()),
        },
        Stage::OpeningShell => match e {
            EventView::ShellReady => enter_login(plan, s, first_hop(plan), 0),
            _ => (s, quiet()),
        },
        Stage::Login { hop, step } => on_login(plan, s, hop, step as int, e),
        Stage::PasswordPrompt => on_password_prompt(plan, s, e),
        Stage::Prompt { command } => on_prompt(plan, s, command as int, e),
        Stage::Capture { command } => on_capture(plan, s, command as int, e),
        Stage::Done => (s, quiet()),
    }
}

/// The stage's indices lie within the plan's scripts.
pub open spec fn stage_ok(plan: SessionPlan, stage: Stage) -> bool {
    match stage {
        Stage::Login { hop, step } => step < hop_script(plan, hop).len(),
        Stage::Prompt { command } => command < plan.commands.len(),
        Stage::Capture { command } => command < plan.commands.len(),
        _ => true,
    }
}

/// The scripts' lengths are those of vectors in memory.
pub open spec fn plan_fits(plan: SessionPlan) -> bool {
    &&& hop_script(plan, Hop::Jump).len() <= usize::MAX
    &&& hop_script(plan, Hop::Target).len() <= usize::MAX
    &&& plan.commands.len() <= usize::MAX
}

pub open spec fn state_ok(plan: SessionPlan, s: RunState) -> bool {
    &&& plan_fits(plan)
    &&& stage_ok(plan, s.stage)
    &&& 0 <= s.output_start <= s.full.len()
}

// ---------------------------------------------------------------------------
// Received bytes.
// ---------------------------------------------------------------------------

/// What `String::from_utf8_lossy` returns for `bytes`.
pub uninterp spec fn utf8_lossy(bytes: Seq<u8>) -> Seq<char>;

/// `String::from_utf8_lossy`, made owned. Trusted: the result is the named
/// decoding of `bytes`, and, as std documents, bytes that are valid UTF-8
/// decode to exactly their characters. What replaces invalid sequences is
/// left to the name.
#[verifier::external_body]
fn decode_lossy(bytes: &[u8]) -> (r: String)
    ensures
        r@ == utf8_lossy(bytes@),
        valid_utf8(bytes@) ==> r@ == decode_utf8(bytes@),
{
    String::from_utf8_lossy(bytes).into_owned()
}

/// The event for bytes that arrived on the channel: their text, decoded
/// as UTF-8 with invalid sequences replaced.
pub fn data_event(bytes: &[u8]) -> (e: Event)
    ensures
        e@ == EventView::Data(utf8_lossy(bytes@)),
        valid_utf8(bytes@) ==> e@ == EventView::Data(decode_utf8(bytes@)),
{
    Event::Data(decode_lossy(bytes))
}

/// Whether every command of the plan fits the base64 encoder (see
/// `commands_fit`); a run can be made of the plan exactly when it does.
pub fn fits_encoder(plan: &SessionPlan) -> (b: bool)
    ensures
        b == commands_fit(*plan),
{
    let mut i: usize = 0;
    while i < plan.commands.len()
        invariant
            i <= plan.commands.len(),
            forall|j: int|
                0 <= j < i ==> (encode_utf8(#[trigger] plan.commands@[j].send@).len() as usize)
                    <= usize::MAX / 2,
        decreases plan.commands.len() - i,
    {
        if plan.commands[i].send.as_str().len() > usize::MAX / 2 {
            return false;
        }
        i = i + 1;
    }
    true
}

// ---------------------------------------------------------------------------
// The run.
// ---------------------------------------------------------------------------

fn quiet_reply() -> (r: Reply)
    ensures
        r@ == quiet(),
{
    let r = Reply {
        show: Vec::new(),
        send: Vec::new(),
        connect: false,
        open_shell: false,
        start_timer: false,
        finish: None,
    };
    assert(r@ =~= quiet());
    r
}

fn ending_reply(o: Outcome) -> (r: Reply)
    ensures
        r@ == ending(o@),
{
    let mut r = quiet_reply();
    r.finish = Some(o);
    assert(r@ =~= ending(o@));
    r
}

/// Puts `line` in front of the texts to send.
fn send_first(r: &mut Reply, line: String)
    ensures
        final(r)@ == sending_first(line@, old(r)@),
{
    r.send.insert(0, line);
    assert(texts(r.send@) =~= seq![line@] + texts(old(r).send@));
    assert(final(r)@ =~= sending_first(line@, old(r)@));
}

/// Puts `shown` in front of the lines to show.
fn show_first(r: &mut Reply, shown: Vec<String>)
    ensures
        final(r)@ == showing(texts(shown@), old(r)@),
{
    let mut all = shown;
    let ghost first = all@;
    let mut i: usize = 0;
    while i < r.show.len()
        invariant
            i <= r.show.len(),
            all@ == first + r.show@.take(i as int),
        decreases r.show.len() - i,
    {
        let line = r.show[i].clone();
        all.push(line);
        i = i + 1;
        assert(all@ =~= first + r.show@.take(i as int));
    }
    assert(r.show@.take(r.show.len() as int) =~= r.show@);
    r.show = all;
    assert(texts(r.show@) =~= texts(first) + texts(old(r).show@));
    assert(final(r)@ =~= showing(texts(first), old(r)@));
}

/// The run of one node's session, driven by events.
pub struct SshRun {
    plan: SessionPlan,
    stage: Stage,
    buf: Vec<char>,
    full: Vec<char>,
    output_start: usize,
    lines: LineBuffer,
}

impl SshRun {
    pub closed spec fn plan(&self) -> SessionPlan {
        self.plan
    }

    pub closed spec fn state(&self) -> RunState {
        RunState {
            stage: self.stage,
            buf: self.buf@,
            full: self.full@,
            output_start: self.output_start as int,
            pending: self.lines.pending(),
        }
    }

    closed spec fn inv(&self) -> bool {
        &&& self.lines.prefix() == node_prefix(self.plan)
        &&& self.output_start <= self.full@.len()
        &&& commands_fit(self.plan)
        &&& plan_fits(self.plan)
    }

    /// The run's internal invariant.
    pub closed spec fn wf(&self) -> bool {
        &&& self.inv()
        &&& stage_ok(self.plan, self.stage)
    }

    /// A run of `plan` that has not started.
    pub fn new(plan: SessionPlan) -> (r: SshRun)
        requires
            commands_fit(plan),
        ensures
            r.wf(),
            r.plan() == plan,
            r.state() == (RunState {
                stage: Stage::Start,
                buf: seq![],
                full: seq![],
                output_start: 0,
                pending: seq![],
            }),
            state_ok(r.plan(), r.state()),
    {
        let lines = LineBuffer::new(plan.node_id.as_str());
        let _ = plan.target_login.len();
        let _ = plan.commands.len();
        match &plan.jump {
            Some(j) => {
                let _ = j.login_script.len();
            },
            None => {},
        }
        proof {
            reveal_strlit("[");
            reveal_strlit("]");
            assert(lines.prefix() =~= node_prefix(plan));
        }
        let r = SshRun { plan, stage: Stage::Start, buf: Vec::new(), full: Vec::new(), output_start: 0, lines };
        assert(r.state() =~= RunState {
            stage: Stage::Start,
            buf: seq![],
            full: seq![],
            output_start: 0,
            pending: seq![],
        });
        r
    }

    /// Where the run stands.
    pub fn stage(&self) -> (r: Stage)
        ensures
            r == self.state().stage,
    {
        self.stage
    }

    /// What arrived since the current wait began.
    pub fn wait_output(&self) -> (r: String)
        ensures
            r@ == self.state().buf,
    {
        crate::text::string_of(&self.buf)
    }

    /// The host to connect to first.
    pub fn first_endpoint(&self) -> (r: &Endpoint)
        ensures
            *r == hop_endpoint(self.plan(), first_hop(self.plan())),
    {
        match &self.plan.jump {
            Some(j) => &j.endpoint,
            None => &self.plan.target,
        }
    }

    fn endpoint(&self, hop: Hop) -> (r: &Endpoint)
        ensures
            *r == hop_endpoint(self.plan, hop),
    {
        match hop {
            Hop::Jump => match &self.plan.jump {
                Some(j) => &j.endpoint,
                None => &self.plan.target,
            },
            Hop::Target => &self.plan.target,
        }
    }

    fn script_len(&self, hop: Hop) -> (n: usize)
        ensures
            n == hop_script(self.plan, hop).len(),
    {
        match hop {
            Hop::Jump => match &self.plan.jump {
                Some(j) => j.login_script.len(),
                None => 0,
            },
            Hop::Target => self.plan.target_login.len(),
        }
    }

    fn script_step(&self, hop: Hop, i: usize) -> (r: ScriptStep)
        requires
            i < hop_script(self.plan, hop).len(),
        ensures
            r == hop_script(self.plan, hop)[i as int],
    {
        match hop {
            Hop::Jump => match &self.plan.jump {
                Some(j) => j.login_script[i].duplicate(),
                None => {
                    proof {
                        assert(false);
                    }
                    self.plan.target_login[i].duplicate()
                },
            },
            Hop::Target => self.plan.target_login[i].duplicate(),
        }
    }

    /// `at_hop` as a string.
    fn at_hop_text(&self, hop: Hop) -> (r: String)
        ensures
            r@ == at_hop(self.plan, hop),
    {
        let mut r = if self.plan.jump.is_none() {
            String::new()
        } else {
            match hop {
                Hop::Jump => String::from_str("Jump host "),
                Hop::Target => String::from_str("Target host "),
            }
        };
        let ep = self.endpoint(hop);
        r.append(ep.host.as_str());
        r.append(":");
        let port = decimal_exec(ep.port as u32);
        append_char_vec(&mut r, &port);
        r.append(":");
        r.append(ep.user.as_str());
        r
    }

    fn ssh_command_text(&self) -> (r: String)
        ensures
            r@ == ssh_command(self.plan),
    {
        let mut r = String::from_str("ssh -t -o StrictHostKeyChecking=no -p ");
        let port = decimal_exec(self.plan.target.port as u32);
        append_char_vec(&mut r, &port);
        r.append(" ");
        r.append(self.plan.target.user.as_str());
        r.append("@");
        r.append(self.plan.target.host.as_str());
        r.append("\n");
        r
    }

    /// Begin waiting for the prompt before command `j`, or end the run.
    fn enter_prompt(&mut self, j: usize) -> (r: Reply)
        requires
            old(self).inv(),
            j <= old(self).plan.commands.len(),
        ensures
            final(self).wf(),
            final(self).plan == old(self).plan,
            final(self).state() == enter_prompt(old(self).plan, old(self).state(), j as int).0,
            r@ == enter_prompt(old(self).plan, old(self).state(), j as int).1,
    {
        if j < self.plan.commands.len() {
            self.stage = Stage::Prompt { command: j };
            self.buf = Vec::new();
            let mut r = quiet_reply();
            r.start_timer = true;
            assert(r@ =~= timing());
            assert(self.state() =~= enter_prompt(old(self).plan, old(self).state(), j as int).0);
            r
        } else {
            self.stage = Stage::Done;
            assert(self.state() =~= enter_prompt(old(self).plan, old(self).state(), j as int).0);
            ending_reply(Outcome::Completed)
        }
    }

    /// Begin waiting for login step `i` of `hop`, or move past the script.
    fn enter_login(&mut self, hop: Hop, i: usize) -> (r: Reply)
        requires
            old(self).inv(),
            i <= hop_script(old(self).plan, hop).len(),
        ensures
            final(self).wf(),
            final(self).plan == old(self).plan,
            final(self).state() == enter_login(old(self).plan, old(self).state(), hop, i as int).0,
            r@ == enter_login(old(self).plan, old(self).state(), hop, i as int).1,
    {
        if i < self.script_len(hop) {
            self.stage = Stage::Login { hop, step: i };
            self.buf = Vec::new();
            let mut r = quiet_reply();
            r.start_timer = true;
            assert(r@ =~= timing());
            assert(self.state() =~= enter_login(old(self).plan, old(self).state(), hop, i as int).0);
            r
        } else if hop == Hop::Jump {
            self.stage = Stage::PasswordPrompt;
            self.buf = Vec::new();
            let mut r = quiet_reply();
            let cmd = self.ssh_command_text();
            r.send.push(cmd);
            assert(texts(r.send@) =~= seq![ssh_command(self.plan)]);
            assert(r@ =~= ReplyView { send: seq![ssh_command(self.plan)], ..quiet() });
            assert(self.state() =~= enter_login(old(self).plan, old(self).state(), hop, i as int).0);
            r
        } else {
            self.enter_prompt(0)
        }
    }

    /// Shows what is still buffered, if anything.
    fn flush_lines(&mut self) -> (r: Vec<String>)
        requires
            old(self).inv(),
        ensures
            final(self).inv(),
            final(self).plan == old(self).plan,
            final(self).stage == old(self).stage,
            final(self).state() == (RunState { pending: seq![], ..old(self).state() }),
            texts(r@) == flushed(old(self).plan, old(self).state().pending),
    {
        let mut r: Vec<String> = Vec::new();
        let with_prefix = self.plan.prefix;
        match self.lines.flush(with_prefix) {
            Some(line) => {
                r.push(line);
            },
            None => {},
        }
        assert(texts(r@) =~= flushed(old(self).plan, old(self).state().pending));
        assert(self.state() =~= RunState { pending: seq![], ..old(self).state() });
        r
    }
    fn login_failure(&self, hop: Hop, st: &ScriptStep, timed_out: bool) -> (r: String)
        ensures
            r@ == if timed_out {
                login_timeout(self.plan, hop, *st)
            } else {
                login_closed(self.plan, hop, *st)
            },
    {
        let mut r = self.at_hop_text(hop);
        r.append(" - Login script step '");
        r.append(st.name.as_str());
        if timed_out {
            r.append("' failed: Timeout waiting for pattern '");
            r.append(st.wait.as_str());
            r.append("'");
        } else {
            r.append("' failed: Channel closed");
        }
        r
    }

    fn command_failure(&self, timed_out: bool) -> (r: String)
        ensures
            r@ == if timed_out {
                command_timeout(self.plan)
            } else {
                command_closed(self.plan)
            },
    {
        let mut r = self.at_hop_text(Hop::Target);
        if timed_out {
            r.append(" - Command execution failed: Timeout waiting for prompt");
        } else {
            r.append(" - Command execution failed: Channel closed");
        }
        r
    }

    fn on_login(&mut self, hop: Hop, i: usize, e: Event) -> (r: Reply)
        requires
            old(self).wf(),
            old(self).stage == (Stage::Login { hop, step: i }),
        ensures
            final(self).wf(),
            final(self).plan == old(self).plan,
            final(self).state() == on_login(old(self).plan, old(self).state(), hop, i as int, e@).0,
            r@ == on_login(old(self).plan, old(self).state(), hop, i as int, e@).1,
    {
        let st = self.script_step(hop, i);
        let n = self.script_len(hop);
        match e {
            Event::Data(t) => {
                let tc = chars_of(t.as_str());
                append_chars(&mut self.buf, &tc);
                let w = chars_of(st.wait.as_str());
                if wait_appeared_chars(&w, &self.buf) {
                    let mut r = self.enter_login(hop, i + 1);
                    let mut line = st.send.clone();
                    line.append("\n");
                    send_first(&mut r, line);
                    r
                } else {
                    quiet_reply()
                }
            },
            Event::Closed => {
                self.stage = Stage::Done;
                let m = self.login_failure(hop, &st, false);
                ending_reply(Outcome::Failed(m))
            },
            Event::Timeout => {
                self.stage = Stage::Done;
                let m = self.login_failure(hop, &st, true);
                ending_reply(Outcome::Failed(m))
            },
            _ => quiet_reply(),
        }
    }

    fn on_password_prompt(&mut self, e: Event) -> (r: Reply)
        requires
            old(self).wf(),
            old(self).stage == Stage::PasswordPrompt,
        ensures
            final(self).wf(),
            final(self).plan == old(self).plan,
            final(self).state() == on_password_prompt(old(self).plan, old(self).state(), e@).0,
            r@ == on_password_prompt(old(self).plan, old(self).state(), e@).1,
    {
        match e {
            Event::Data(t) => {
                let tc = chars_of(t.as_str());
                append_chars(&mut self.buf, &tc);
                let lower = chars_of("password:");
                let upper = chars_of("Password:");
                let seen_lower = find_exec(&self.buf, &lower, 0).is_some();
                let seen_upper = find_exec(&self.buf, &upper, 0).is_some();
                proof {
                    lemma_find_contains(self.buf@, lower@);
                    lemma_find_contains(self.buf@, upper@);
                }
                if seen_lower || seen_upper {
                    let mut r = self.enter_login(Hop::Target, 0);
                    let mut line = self.plan.target.password.clone();
                    line.append("\n");
                    send_first(&mut r, line);
                    r
                } else {
                    quiet_reply()
                }
            },
            Event::Closed => {
                self.stage = Stage::Done;
                ending_reply(Outcome::Abandoned)
            },
            Event::Interrupt => {
                self.stage = Stage::Done;
                ending_reply(Outcome::Abandoned)
            },
            _ => quiet_reply(),
        }
    }

    fn on_prompt(&mut self, command: usize, e: Event) -> (r: Reply)
        requires
            old(self).wf(),
            old(self).stage == (Stage::Prompt { command }),
        ensures
            final(self).wf(),
            final(self).plan == old(self).plan,
            final(self).state() == on_prompt(old(self).plan, old(self).state(), command as int, e@).0,
            r@ == on_prompt(old(self).plan, old(self).state(), command as int, e@).1,
    {
        match e {
            Event::Data(t) => {
                let tc = chars_of(t.as_str());
                append_chars(&mut self.buf, &tc);
                let w = chars_of(self.plan.commands[command].wait.as_str());
                if wait_appeared_chars(&w, &self.buf) {
                    let interactive = self.plan.jump.is_none();
                    let line = frame_command(self.plan.commands[command].send.as_str(), interactive);
                    self.stage = Stage::Capture { command };
                    self.lines = LineBuffer::new(self.plan.node_id.as_str());
                    proof {
                        reveal_strlit("[");
                        reveal_strlit("]");
                        assert(self.lines.prefix() =~= node_prefix(self.plan));
                    }
                    let mut r = quiet_reply();
                    r.send.push(line);
                    assert(texts(r.send@) =~= seq![framed(self.plan, self.plan.commands@[command as int])]);
                    r
                } else {
                    quiet_reply()
                }
            },
            Event::Closed => {
                self.stage = Stage::Done;
                let m = self.command_failure(false);
                ending_reply(Outcome::Failed(m))
            },
            Event::Timeout => {
                self.stage = Stage::Done;
                let m = self.command_failure(true);
                ending_reply(Outcome::Failed(m))
            },
            _ => quiet_reply(),
        }
    }

    /// Command `command` is over: show `shown` and the rest of the buffer,
    /// then go on.
    fn end_capture(&mut self, command: usize, shown: Vec<String>) -> (r: Reply)
        requires
            old(self).inv(),
            command < old(self).plan.commands.len(),
        ensures
            final(self).wf(),
            final(self).plan == old(self).plan,
            final(self).state() == end_capture(
                old(self).plan,
                old(self).state(),
                command as int,
                texts(shown@),
            ).0,
            r@ == end_capture(old(self).plan, old(self).state(), command as int, texts(shown@)).1,
    {
        let rest = self.flush_lines();
        let mut all = shown;
        let ghost first = all@;
        let mut i: usize = 0;
        while i < rest.len()
            invariant
                i <= rest.len(),
                all@ == first + rest@.take(i as int),
            decreases rest.len() - i,
        {
            all.push(rest[i].clone());
            i = i + 1;
            assert(all@ =~= first + rest@.take(i as int));
        }
        assert(rest@.take(rest.len() as int) =~= rest@);
        assert(texts(all@) =~= texts(first) + texts(rest@));
        let mut r = self.enter_prompt(command + 1);
        show_first(&mut r, all);
        r
    }

    fn on_capture_data(&mut self, command: usize, t: String) -> (r: Reply)
        requires
            old(self).wf(),
            old(self).stage == (Stage::Capture { command }),
        ensures
            final(self).wf(),
            final(self).plan == old(self).plan,
            final(self).state() == on_capture_data(
                old(self).plan,
                old(self).state(),
                command as int,
                t@,
            ).0,
            r@ == on_capture_data(old(self).plan, old(self).state(), command as int, t@).1,
    {
        let tc = chars_of(t.as_str());
        append_chars(&mut self.full, &tc);
        let begin = chars_of("MY_begin\r\n");
        let found = find_exec(&self.full, &begin, 0);
        proof {
            crate::text::lemma_find_from_found(self.full@, begin@, 0);
        }
        match found {
            None => quiet_reply(),
            Some(b) => {
                let full_len = self.full.len();
                assert(b + begin@.len() <= full_len);
                let content_start = b + begin.len();
                if content_start > self.output_start {
                    self.output_start = content_start;
                }
                let content = sub_chars(&self.full, self.output_start, self.full.len());
                let end = chars_of("MY_end");
                match find_exec(&content, &end, 0) {
                    Some(e) => {
                        proof {
                            crate::text::lemma_find_from_found(content@, end@, 0);
                        }
                        let (lo, hi) = trim_range(&content, 0, e);
                        assert(content@.subrange(0, e as int) =~= content@.take(e as int));
                        let with_prefix = self.plan.prefix;
                        let mut shown: Vec<String> = Vec::new();
                        if lo < hi {
                            let out = sub_chars(&content, lo, hi);
                            let ranges = line_ranges(&out);
                            let mut k: usize = 0;
                            while k < ranges.len()
                                invariant
                                    k <= ranges.len(),
                                    ranges.len() == lines(out@).len(),
                                    forall|j: int|
                                        0 <= j < ranges.len() ==> range_holds(
                                            out@,
                                            #[trigger] ranges[j],
                                            lines(out@)[j],
                                        ),
                                    self.lines.prefix() == node_prefix(self.plan),
                                    with_prefix == self.plan.prefix,
                                    shown.len() == k,
                                    forall|j: int|
                                        0 <= j < k ==> #[trigger] shown[j]@ == decorate(
                                            node_prefix(self.plan),
                                            self.plan.prefix,
                                            lines(out@)[j],
                                        ),
                                decreases ranges.len() - k,
                            {
                                assert(range_holds(out@, ranges[k as int], lines(out@)[k as int]));
                                let line = self.lines.show(&out, ranges[k].0, ranges[k].1, with_prefix);
                                shown.push(line);
                                k = k + 1;
                            }
                            assert(texts(shown@) =~= lines(out@).map_values(
                                |l: Seq<char>| decorate(node_prefix(self.plan), self.plan.prefix, l),
                            ));
                        } else {
                            assert(texts(shown@) =~= Seq::<Seq<char>>::empty());
                        }
                        self.end_capture(command, shown)
                    },
                    None => {
                        let with_prefix = self.plan.prefix;
                        let shown = self.lines.feed_chars(&content, with_prefix);
                        self.output_start = self.full.len();
                        let mut r = quiet_reply();
                        r.show = shown;
                        proof {
                            let cl = complete_lines(old(self).state().pending + content@);
                            assert(texts(r.show@) =~= cl.0.map_values(
                                |l: Seq<char>| decorate(node_prefix(self.plan), self.plan.prefix, l),
                            ));
                        }
                        r
                    },
                }
            },
        }
    }

    fn on_capture(&mut self, command: usize, e: Event) -> (r: Reply)
        requires
            old(self).wf(),
            old(self).stage == (Stage::Capture { command }),
        ensures
            final(self).wf(),
            final(self).plan == old(self).plan,
            final(self).state() == on_capture(old(self).plan, old(self).state(), command as int, e@).0,
            r@ == on_capture(old(self).plan, old(self).state(), command as int, e@).1,
    {
        match e {
            Event::Data(t) => self.on_capture_data(command, t),
            Event::Closed => {
                let r = self.end_capture(command, Vec::new());
                assert(texts(Seq::<String>::empty()) =~= Seq::<Seq<char>>::empty());
                r
            },
            Event::Interrupt => {
                let shown = self.flush_lines();
                self.stage = Stage::Done;
                let mut r = ending_reply(Outcome::Interrupted);
                r.show = shown;
                r
            },
            _ => quiet_reply(),
        }
    }

    /// Takes event `e` and says what to do; see `next`.
    pub fn step(&mut self, e: Event) -> (r: Reply)
        requires
            old(self).wf(),
        ensures
            final(self).wf(),
            final(self).plan() == old(self).plan(),
            final(self).state() == next(old(self).plan(), old(self).state(), e@).0,
            r@ == next(old(self).plan(), old(self).state(), e@).1,
            state_ok(final(self).plan(), final(self).state()),
    {
        match self.stage {
            Stage::Start => match e {
                Event::Start => {
                    if self.plan.jump.is_none() && self.plan.target_login.len() == 0
                        && self.plan.commands.len() == 0 {
                        self.stage = Stage::Done;
                        ending_reply(Outcome::Completed)
                    } else {
                        self.stage = Stage::Authenticating;
                        let mut r = quiet_reply();
                        r.connect = true;
                        r
                    }
                },
                _ => quiet_reply(),
            },
            Stage::Authenticating => match e {
                Event::Authenticated(ok) => {
                    if ok {
                        self.stage = Stage::OpeningShell;
                        let mut r = quiet_reply();
                        r.open_shell = true;
                        r
                    } else {
                        let first = if self.plan.jump.is_some() {
                            Hop::Jump
                        } else {
                            Hop::Target
                        };
                        let mut m = self.at_hop_text(first);
                        m.append(" - Authentication failed: Invalid password or username");
                        self.stage = Stage::Done;
                        ending_reply(Outcome::Failed(m))
                    }
                },
                _ => quiet_reply(),
            },
            Stage::OpeningShell => match e {
                Event::ShellReady => {
                    let first = if self.plan.jump.is_some() {
                        Hop::Jump
                    } else {
                        Hop::Target
                    };
                    self.enter_login(first, 0)
                },
                _ => quiet_reply(),
            },
            Stage::Login { hop, step } => self.on_login(hop, step, e),
            Stage::PasswordPrompt => self.on_password_prompt(e),
            Stage::Prompt { command } => self.on_prompt(command, e),
            Stage::Capture { command } => self.on_capture(command, e),
            Stage::Done => quiet_reply(),
        }
    }
}

} // verus!
