use vstd::prelude::*;

use crate::session::{
    end_capture, enter_login, enter_prompt, framed, hop_script, line_of, next, on_capture, quiet,
    state_ok, EventView, Hop, OutcomeView, RunState, SessionPlan, Stage,
};
use crate::line_buffer::decorate;
use crate::pieces::join_with;
use crate::session::{begin_marker, end_marker, flushed, node_prefix, on_capture_data};
use crate::text::{
    char_index_from, complete_lines, find, is_white_space, join_terminated, lemma_char_index_from_found,
    lemma_complete_lines, lines, strip_cr, trim, trim_end,
};
use crate::wait::wait_appeared;

verus! {

/// The position of a stage in the course of a run: start, authentication,
/// shell, the jump host's login steps, its password prompt, the target's
/// login steps, each command's prompt and output, and the end.
pub open spec fn stage_rank(stage: Stage) -> (int, int) {
    match stage {
        Stage::Start => (0, 0),
        Stage::Authenticating => (1, 0),
        Stage::OpeningShell => (2, 0),
        Stage::Login { hop, step } => match hop {
            Hop::Jump => (3, step as int),
            Hop::Target => (5, step as int),
        },
        Stage::PasswordPrompt => (4, 0),
        Stage::Prompt { command } => (6, 2 * command),
        Stage::Capture { command } => (6, 2 * command + 1),
        Stage::Done => (7, 0),
    }
}

pub open spec fn rank_le(a: (int, int), b: (int, int)) -> bool {
    a.0 < b.0 || (a.0 == b.0 && a.1 <= b.1)
}

pub open spec fn rank_lt(a: (int, int), b: (int, int)) -> bool {
    a.0 < b.0 || (a.0 == b.0 && a.1 < b.1)
}

proof fn lemma_enter_prompt(plan: SessionPlan, s: RunState, j: int)
    requires
        0 <= j,
        plan.commands.len() <= usize::MAX,
    ensures
        rank_le((6, 2 * j), stage_rank(enter_prompt(plan, s, j).0.stage)),
        enter_prompt(plan, s, j).1.send.len() == 0,
        enter_prompt(plan, s, j).1.finish == Some(OutcomeView::Completed) ==> j
            >= plan.commands.len(),
{
}

/// The position of login step `i` of `hop`.
pub open spec fn login_rank(hop: Hop, i: int) -> (int, int) {
    match hop {
        Hop::Jump => (3, i),
        Hop::Target => (5, i),
    }
}

proof fn lemma_enter_login(plan: SessionPlan, s: RunState, hop: Hop, i: int)
    requires
        0 <= i,
        hop_script(plan, hop).len() <= usize::MAX,
    ensures
        rank_le(login_rank(hop, i), stage_rank(enter_login(plan, s, hop, i).0.stage)),
        i >= hop_script(plan, hop).len() ==> rank_lt(
            login_rank(hop, i - 1),
            stage_rank(enter_login(plan, s, hop, i).0.stage),
        ),
        enter_login(plan, s, hop, i).1.finish == Some(OutcomeView::Completed) ==> hop
            == Hop::Target && plan.commands.len() == 0,
{
    lemma_enter_prompt(plan, s, 0);
}

/// A run never goes back: each event keeps it where it stands or moves it
/// further through the login scripts and the commands, and whenever it
/// sends something it moves further, so no step is typed twice.
pub proof fn law_runs_forward(plan: SessionPlan, s: RunState, e: EventView)
    requires
        state_ok(plan, s),
    ensures
        rank_le(stage_rank(s.stage), stage_rank(next(plan, s, e).0.stage)),
        next(plan, s, e).1.send.len() > 0 ==> rank_lt(
            stage_rank(s.stage),
            stage_rank(next(plan, s, e).0.stage),
        ),
{
    match s.stage {
        Stage::OpeningShell => {
            if plan.jump is Some {
                lemma_enter_login(plan, s, Hop::Jump, 0);
            } else {
                lemma_enter_login(plan, s, Hop::Target, 0);
            }
        },
        Stage::Login { hop, step } => {
            if let EventView::Data(t) = e {
                lemma_enter_login(plan, RunState { buf: s.buf + t, ..s }, hop, step + 1);
            }
        },
        Stage::PasswordPrompt => {
            if let EventView::Data(t) = e {
                lemma_enter_login(plan, RunState { buf: s.buf + t, ..s }, Hop::Target, 0);
            }
        },
        Stage::Capture { command } => {
            lemma_capture_forward(plan, s, command as int, e);
        },
        _ => {},
    }
}

proof fn lemma_end_capture(plan: SessionPlan, s: RunState, command: int, shown: Seq<Seq<char>>)
    requires
        0 <= command,
        plan.commands.len() <= usize::MAX,
    ensures
        rank_le((6, 2 * command + 2), stage_rank(end_capture(plan, s, command, shown).0.stage)),
        end_capture(plan, s, command, shown).1.send.len() == 0,
        end_capture(plan, s, command, shown).1.finish == Some(OutcomeView::Completed) ==> command
            + 1 >= plan.commands.len(),
{
    lemma_enter_prompt(plan, RunState { pending: seq![], ..s }, command + 1);
}

proof fn lemma_capture_forward(plan: SessionPlan, s: RunState, command: int, e: EventView)
    requires
        0 <= command,
        plan.commands.len() <= usize::MAX,
        s.stage == (Stage::Capture { command: command as usize }),
    ensures
        rank_le(stage_rank(s.stage), stage_rank(on_capture(plan, s, command, e).0.stage)),
        on_capture(plan, s, command, e).1.send.len() == 0,
        on_capture(plan, s, command, e).1.finish == Some(OutcomeView::Completed) ==> command + 1
            >= plan.commands.len(),
{
    match e {
        EventView::Data(t) => {
            let full = s.full + t;
            match crate::text::find(full, crate::session::begin_marker()) {
                Some(b) => {
                    let content_start = b + crate::session::begin_marker().len();
                    let start = if content_start > s.output_start {
                        content_start as int
                    } else {
                        s.output_start
                    };
                    let content = full.subrange(start, full.len() as int);
                    match crate::text::find(content, crate::session::end_marker()) {
                        Some(x) => {
                            lemma_end_capture(
                                plan,
                                RunState { full, output_start: start, ..s },
                                command,
                                crate::session::output_lines(plan, content, x as int),
                            );
                        },
                        None => {},
                    }
                },
                None => {},
            }
        },
        EventView::Closed => {
            lemma_end_capture(plan, s, command, seq![]);
        },
        _ => {},
    }
}

/// Once a run is over, nothing changes it: every event leaves it as it is
/// and asks for nothing.
pub proof fn law_done_is_final(plan: SessionPlan, s: RunState, e: EventView)
    requires
        s.stage == Stage::Done,
    ensures
        next(plan, s, e).0 == s,
        next(plan, s, e).1 == quiet(),
{
}

/// A login step's text is typed only once its wait pattern has appeared in
/// what arrived since the wait began, and it is typed first, as a line.
pub proof fn law_login_waits(plan: SessionPlan, s: RunState, hop: Hop, i: usize, e: EventView)
    requires
        s.stage == (Stage::Login { hop, step: i }),
        state_ok(plan, s),
        next(plan, s, e).1.send.len() > 0,
    ensures
        e is Data,
        wait_appeared(hop_script(plan, hop)[i as int].wait@, s.buf + e->Data_0),
        next(plan, s, e).1.send[0] == line_of(hop_script(plan, hop)[i as int].send@),
{
}

/// A command is sent only once its prompt has appeared in what arrived
/// since the wait began, and what is sent is the command framed.
pub proof fn law_command_waits_for_prompt(
    plan: SessionPlan,
    s: RunState,
    command: usize,
    e: EventView,
)
    requires
        s.stage == (Stage::Prompt { command }),
        state_ok(plan, s),
        next(plan, s, e).1.send.len() > 0,
    ensures
        e is Data,
        wait_appeared(plan.commands@[command as int].wait@, s.buf + e->Data_0),
        next(plan, s, e).1.send == seq![framed(plan, plan.commands@[command as int])],
        next(plan, s, e).0.stage == (Stage::Capture { command }),
{
}

/// A run reports completion only when it has no commands or when the last
/// command's output has ended.
pub proof fn law_completion_after_last_command(plan: SessionPlan, s: RunState, e: EventView)
    requires
        state_ok(plan, s),
        next(plan, s, e).1.finish == Some(OutcomeView::Completed),
    ensures
        plan.commands.len() == 0 || s.stage == (Stage::Capture {
            command: (plan.commands.len() - 1) as usize,
        }),
{
    match s.stage {
        Stage::OpeningShell => {
            if plan.jump is Some {
                lemma_enter_login(plan, s, Hop::Jump, 0);
            } else {
                lemma_enter_login(plan, s, Hop::Target, 0);
            }
        },
        Stage::Login { hop, step } => {
            if let EventView::Data(t) = e {
                lemma_enter_login(plan, RunState { buf: s.buf + t, ..s }, hop, step + 1);
            }
        },
        Stage::PasswordPrompt => {
            if let EventView::Data(t) = e {
                lemma_enter_login(plan, RunState { buf: s.buf + t, ..s }, Hop::Target, 0);
            }
        },
        Stage::Capture { command } => {
            lemma_capture_forward(plan, s, command as int, e);
        },
        _ => {},
    }
}

// ---------------------------------------------------------------------------
// What a command's output shows.
// ---------------------------------------------------------------------------

/// `s` with every carriage return that stands just before a `\n` removed.
pub open spec fn crlf_as_lf(s: Seq<char>) -> Seq<char>
    decreases s.len(),
{
    if s.len() == 0 {
        s
    } else if s.len() >= 2 && s[0] == '\r' && s[1] == '\n' {
        crlf_as_lf(s.skip(1))
    } else {
        seq![s[0]] + crlf_as_lf(s.skip(1))
    }
}

proof fn lemma_crlf_no_newline(s: Seq<char>)
    requires
        forall|k: int| 0 <= k < s.len() ==> s[k] != '\n',
    ensures
        crlf_as_lf(s) == s,
    decreases s.len(),
{
    if s.len() > 0 {
        lemma_crlf_no_newline(s.skip(1));
        assert(seq![s[0]] + s.skip(1) =~= s);
    }
}

proof fn lemma_crlf_line(p: Seq<char>, q: Seq<char>)
    requires
        forall|k: int| 0 <= k < p.len() ==> p[k] != '\n',
    ensures
        crlf_as_lf(p + seq!['\n'] + q) == strip_cr(p) + seq!['\n'] + crlf_as_lf(q),
    decreases p.len(),
{
    let s = p + seq!['\n'] + q;
    if p.len() == 0 {
        assert(s =~= seq!['\n'] + q);
        assert(s.skip(1) =~= q);
        assert(strip_cr(p) =~= p);
        assert(crlf_as_lf(s) == seq![s[0]] + crlf_as_lf(s.skip(1)));
        assert(crlf_as_lf(s) =~= strip_cr(p) + seq!['\n'] + crlf_as_lf(q));
    } else {
        let p2 = p.skip(1);
        assert(s.skip(1) =~= p2 + seq!['\n'] + q);
        if p.len() == 1 && p[0] == '\r' {
            assert(s.skip(1) =~= seq!['\n'] + q);
            assert(s.skip(1).skip(1) =~= q);
            assert(strip_cr(p) =~= Seq::<char>::empty());
            assert(s[0] == '\r' && s[1] == '\n');
            assert(crlf_as_lf(s) == crlf_as_lf(s.skip(1)));
            assert(crlf_as_lf(s.skip(1)) == seq![s.skip(1)[0]] + crlf_as_lf(s.skip(1).skip(1)));
            assert(crlf_as_lf(s) =~= strip_cr(p) + seq!['\n'] + crlf_as_lf(q));
        } else {
            lemma_crlf_line(p2, q);
            assert(s[0] == p[0]);
            if p.len() >= 2 {
                assert(s[1] == p[1]);
                assert(p[1] != '\n');
            } else {
                assert(s[1] == '\n');
                assert(p[0] != '\r');
            }
            assert(!(s[0] == '\r' && s[1] == '\n'));
            assert(crlf_as_lf(s) == seq![s[0]] + crlf_as_lf(s.skip(1)));
            if p2.len() > 0 {
                assert(p2.last() == p.last());
                assert(strip_cr(p) =~= seq![p[0]] + strip_cr(p2));
            } else {
                assert(strip_cr(p) =~= seq![p[0]] + strip_cr(p2));
            }
            assert(crlf_as_lf(s) =~= strip_cr(p) + seq!['\n'] + crlf_as_lf(q));
        }
    }
}

proof fn lemma_join_front(a: Seq<char>, rest: Seq<Seq<char>>, sep: Seq<char>)
    requires
        rest.len() > 0,
    ensures
        join_with(seq![a] + rest, sep) == a + sep + join_with(rest, sep),
    decreases rest.len(),
{
    let all = seq![a] + rest;
    if rest.len() == 1 {
        assert(all.drop_last() =~= seq![a]);
        assert(join_with(seq![a], sep) == a);
        assert(join_with(rest, sep) == rest[0]);
        assert(all.last() == rest[0]);
        assert(join_with(all, sep) == join_with(all.drop_last(), sep) + sep + all.last());
    } else {
        lemma_join_front(a, rest.drop_last(), sep);
        assert(all.drop_last() =~= seq![a] + rest.drop_last());
        assert(all.last() == rest.last());
        assert(join_with(all, sep) == join_with(all.drop_last(), sep) + sep + all.last());
        assert(join_with(rest, sep) == join_with(rest.drop_last(), sep) + sep + rest.last());
        assert(join_with(all, sep) =~= a + sep + join_with(rest, sep));
    }
}

proof fn lemma_lines_join(s: Seq<char>)
    requires
        s.len() > 0,
        s.last() != '\n',
        s.last() != '\r',
    ensures
        lines(s).len() > 0,
        join_with(lines(s), "\n"@) == crlf_as_lf(s),
        forall|i: int, k: int|
            0 <= i < lines(s).len() && 0 <= k < lines(s)[i].len() ==> lines(s)[i][k] != '\n',
    decreases s.len(),
{
    reveal_strlit("\n");
    lemma_char_index_from_found(s, '\n', 0);
    match char_index_from(s, '\n', 0) {
        None => {
            lemma_crlf_no_newline(s);
        },
        Some(i) => {
            let p = s.take(i as int);
            let q = s.skip(i + 1int);
            assert(i + 1 < s.len());
            assert(q.last() == s.last());
            lemma_lines_join(q);
            lemma_join_front(strip_cr(p), lines(q), "\n"@);
            assert(s =~= p + seq!['\n'] + q);
            lemma_crlf_line(p, q);
            assert("\n"@ =~= seq!['\n']);
            let ls = lines(s);
            assert(ls == seq![strip_cr(p)] + lines(q));
            assert forall|j: int, k: int| 0 <= j < ls.len() && 0 <= k < ls[j].len() implies ls[j][k]
                != '\n' by {
                if j == 0 {
                    assert(ls[0] == strip_cr(p));
                    assert(strip_cr(p)[k] == p[k]);
                } else {
                    assert(ls[j] == lines(q)[j - 1]);
                }
            }
        },
    }
}

proof fn lemma_trim_ends(s: Seq<char>)
    ensures
        trim_end(s).len() > 0 ==> !is_white_space(trim_end(s).last()),
    decreases s.len(),
{
    if s.len() > 0 && is_white_space(s.last()) {
        lemma_trim_ends(s.drop_last());
    }
}

/// When the end marker arrives, the command's output between the markers,
/// trimmed as a whole, is shown line by line with every line as it was:
/// the lines hold no `\n`, joined again with `\n` they give back that
/// output with only the `\r` of its `\r\n` pairs left out, and there are
/// lines exactly when that output is not empty. Each line carries the node
/// prefix only when the plan asks for it, and what was still buffered
/// follows them.
pub proof fn law_final_output_lines_unchanged(
    plan: SessionPlan,
    s: RunState,
    command: int,
    t: Seq<char>,
    b: nat,
    e: nat,
)
    requires
        find(s.full + t, begin_marker()) == Some(b),
        find(
            (s.full + t).subrange(
                if b + begin_marker().len() > s.output_start {
                    (b + begin_marker().len()) as int
                } else {
                    s.output_start
                },
                (s.full + t).len() as int,
            ),
            end_marker(),
        ) == Some(e),
    ensures
        ({
            let full = s.full + t;
            let start = if b + begin_marker().len() > s.output_start {
                (b + begin_marker().len()) as int
            } else {
                s.output_start
            };
            let out = trim(full.subrange(start, full.len() as int).take(e as int));
            exists|ls: Seq<Seq<char>>|
                {
                    &&& on_capture_data(plan, s, command, t).1.show == ls.map_values(
                        |l: Seq<char>| decorate(node_prefix(plan), plan.prefix, l),
                    ) + flushed(plan, s.pending)
                    &&& forall|i: int, k: int|
                        0 <= i < ls.len() && 0 <= k < ls[i].len() ==> ls[i][k] != '\n'
                    &&& join_with(ls, "\n"@) == crlf_as_lf(out)
                    &&& (ls.len() == 0 <==> out.len() == 0)
                }
        }),
{
    let full = s.full + t;
    let start = if b + begin_marker().len() > s.output_start {
        (b + begin_marker().len()) as int
    } else {
        s.output_start
    };
    let content = full.subrange(start, full.len() as int);
    let out = trim(content.take(e as int));
    let r = on_capture_data(plan, s, command, t);
    if out.len() > 0 {
        lemma_trim_ends(crate::text::trim_start(content.take(e as int)));
        assert(is_white_space('\n') && is_white_space('\r'));
        lemma_lines_join(out);
        let ls = lines(out);
        assert(r.1.show == ls.map_values(
            |l: Seq<char>| decorate(node_prefix(plan), plan.prefix, l),
        ) + flushed(plan, s.pending));
    } else {
        let ls = Seq::<Seq<char>>::empty();
        assert(r.1.show =~= ls.map_values(
            |l: Seq<char>| decorate(node_prefix(plan), plan.prefix, l),
        ) + flushed(plan, s.pending));
        assert(join_with(ls, "\n"@) == crlf_as_lf(out));
    }
}

/// Before the end marker arrives, nothing streamed is lost or made up:
/// the lines shown, each as it arrived and with the node prefix only when
/// the plan asks for it, each followed by `\n`, and then what stays
/// buffered, are exactly what was buffered before followed by the new
/// output after the begin marker; neither a shown line nor the buffered
/// rest holds a `\n`, so every line that a `\n` completed is shown at once,
/// with the prefix on or off.
pub proof fn law_streamed_lines_shown(plan: SessionPlan, s: RunState, command: int, t: Seq<char>, b: nat)
    requires
        find(s.full + t, begin_marker()) == Some(b),
        find(
            (s.full + t).subrange(
                if b + begin_marker().len() > s.output_start {
                    (b + begin_marker().len()) as int
                } else {
                    s.output_start
                },
                (s.full + t).len() as int,
            ),
            end_marker(),
        ) is None,
    ensures
        ({
            let full = s.full + t;
            let start = if b + begin_marker().len() > s.output_start {
                (b + begin_marker().len()) as int
            } else {
                s.output_start
            };
            let content = full.subrange(start, full.len() as int);
            let r = on_capture_data(plan, s, command, t);
            exists|ls: Seq<Seq<char>>|
                {
                    &&& r.1.show == ls.map_values(
                        |l: Seq<char>| decorate(node_prefix(plan), plan.prefix, l),
                    )
                    &&& join_terminated(ls) + r.0.pending == s.pending + content
                    &&& forall|i: int, k: int|
                        0 <= i < ls.len() && 0 <= k < ls[i].len() ==> ls[i][k] != '\n'
                    &&& forall|k: int| 0 <= k < r.0.pending.len() ==> r.0.pending[k] != '\n'
                }
        }),
{
    let full = s.full + t;
    let start = if b + begin_marker().len() > s.output_start {
        (b + begin_marker().len()) as int
    } else {
        s.output_start
    };
    let content = full.subrange(start, full.len() as int);
    lemma_complete_lines(s.pending + content);
    let ls = complete_lines(s.pending + content).0;
    let r = on_capture_data(plan, s, command, t);
    assert(r.1.show == ls.map_values(|l: Seq<char>| decorate(node_prefix(plan), plan.prefix, l)));
}

} // verus!
