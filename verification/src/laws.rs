//! Properties of the shell that span its operations.
use vstd::prelude::*;
use crate::commands::{Chain, Special, GetSet, GetSetCommand, SpecialCommand, Foreground, Command, CmdV, Redirect, strs};
use crate::variables::{valid_name_spec, lookup_var, insert_var, remove_var, distinct_keys, has_key, key_index, lemma_lookup_var};
use crate::machine::{
    next, return_next, await_next, merge, with_mode, push_eval, ret, MachineV, Mode, Frame, Awaiting,
    ActionV, Event, Vars, Diag, JobsV,
};
use crate::format_line::{format_line_spec, dec_words, dec_chars, encode, enc_upto, enc_step, EncState, pat_flag, pat_piece, lemma_enc_bounds, unquoted_step};
use crate::text::{split_ws, split_ws_from, trim, parse_usize_spec, is_digit, all_digits};
use crate::history::{again_spec, again_upto, again_word, help_word, help_w, lookup, equal_pat_spec, skip_spaces, word_end, AgainState};
use crate::{Signal, next_signal};
use crate::parser::{parse_spec, priority_spec, scan_upto, Scan, chain_spec, redirect_spec};

verus! {

/// Binding keeps the names distinct.
pub proof fn law_insert_distinct(e: Vars, k: Seq<char>, v: Seq<char>)
    requires
        distinct_keys(e),
    ensures
        distinct_keys(insert_var(e, k, v)),
        distinct_keys(remove_var(e, k)),
{
    if has_key(e, k) {
        let i = key_index(e, k);
        let e2 = insert_var(e, k, v);
        assert forall|a: int, b: int| 0 <= a < b < e2.len() implies e2[a].0 != e2[b].0 by {
            assert(e[a].0 != e[b].0);
        }
        let e3 = remove_var(e, k);
        assert forall|a: int, b: int| 0 <= a < b < e3.len() implies e3[a].0 != e3[b].0 by {
            if a < i && b < i {
                assert(e[a].0 != e[b].0);
            } else if a < i {
                assert(e[a].0 != e[b + 1].0);
            } else {
                assert(e[a + 1].0 != e[b + 1].0);
            }
        }
    } else {
        let e2 = insert_var(e, k, v);
        assert forall|a: int, b: int| 0 <= a < b < e2.len() implies e2[a].0 != e2[b].0 by {
            if b < e.len() {
                assert(e[a].0 != e[b].0);
            }
        }
    }
}

/// After `set k v`, `k` is bound to `v` and every other name keeps its
/// value.
pub proof fn law_set_then_lookup(e: Vars, k: Seq<char>, v: Seq<char>, other: Seq<char>)
    requires
        distinct_keys(e),
    ensures
        lookup_var(insert_var(e, k, v), k) == Some(v),
        other != k ==> lookup_var(insert_var(e, k, v), other) == lookup_var(e, other),
{
    let e2 = insert_var(e, k, v);
    law_insert_distinct(e, k, v);
    lemma_lookup_var(e2, k);
    lemma_lookup_var(e2, other);
    lemma_lookup_var(e, other);
    if has_key(e, k) {
        let i = key_index(e, k);
        assert(e2[i].0 == k);
        assert(has_key(e2, k));
        let j = key_index(e2, k);
        if j != i {
            if i < j {
                assert(e2[i].0 != e2[j].0);
            } else {
                assert(e2[j].0 != e2[i].0);
            }
        }
    } else {
        assert(e2[e.len() as int].0 == k);
        assert(has_key(e2, k));
        let j = key_index(e2, k);
        if j != e.len() {
            assert(e2[j].0 != e2[e.len() as int].0);
        }
    }
    if other == k {
    } else if has_key(e, other) {
        let i = key_index(e, other);
        assert(e2[i].0 == other);
        let j = key_index(e2, other);
        if j != i {
            if i < j {
                assert(e2[i].0 != e2[j].0);
            } else {
                assert(e2[j].0 != e2[i].0);
            }
        }
    } else {
        if has_key(e2, other) {
            let j = key_index(e2, other);
            assert(e[j].0 == other);
        }
    }
}

/// After `unset k`, `k` is unbound and every other name keeps its value.
pub proof fn law_unset_then_lookup(e: Vars, k: Seq<char>, other: Seq<char>)
    requires
        distinct_keys(e),
    ensures
        lookup_var(remove_var(e, k), k) is None,
        other != k ==> lookup_var(remove_var(e, k), other) == lookup_var(e, other),
{
    let e2 = remove_var(e, k);
    law_insert_distinct(e, k, seq![]);
    lemma_lookup_var(e2, k);
    lemma_lookup_var(e2, other);
    lemma_lookup_var(e, other);
    if has_key(e, k) {
        let i = key_index(e, k);
        if has_key(e2, k) {
            let j = key_index(e2, k);
            if j < i {
                assert(e[j].0 != e[i].0);
            } else {
                assert(e[i].0 != e[j + 1].0);
            }
        }
        if other == k {
        } else if has_key(e, other) {
            let a = key_index(e, other);
            assert(a != i);
            let a2 = if a < i { a } else { a - 1 };
            assert(e2[a2].0 == other);
            let j = key_index(e2, other);
            let j1 = if j < i { j } else { j + 1 };
            assert(e[j1].0 == other);
            if j1 != a {
                if j1 < a {
                    assert(e[j1].0 != e[a].0);
                } else {
                    assert(e[a].0 != e[j1].0);
                }
            }
        } else if has_key(e2, other) {
            let j = key_index(e2, other);
            let j1 = if j < i { j } else { j + 1 };
            assert(e[j1].0 == other);
        }
    }
}

/// `set x v` then `get x` (its output on the terminal), for a name `x` of
/// lowercase letters: the first step binds `x` to `v`, the second prints `v` and a newline, and succeeds.
pub proof fn law_set_then_get(
    frames: Seq<Frame>,
    e: Vars,
    jobs: JobsV,
    hist: Seq<Seq<char>>,
    ev: Event,
    l1: Seq<char>,
    l2: Seq<char>,
    set_cmd: GetSetCommand,
    get_cmd: GetSetCommand,
    stdin: i32,
    out: bool,
)
    requires
        distinct_keys(e),
        set_cmd.get_set == GetSet::SetVar,
        strs(set_cmd.args@).len() == 3,
        valid_name_spec(strs(set_cmd.args@)[1]),
        get_cmd.get_set == GetSet::Get,
        strs(get_cmd.args@).len() == 2,
        strs(get_cmd.args@)[1] == strs(set_cmd.args@)[1],
    ensures
        ({
            let n1 = next(
                MachineV { frames, mode: Mode::Eval { command: Command::GetSet(set_cmd), stdin, out } },
                e,
                jobs,
                hist,
                ev,
                l1,
            );
            let n2 = next(
                MachineV { frames, mode: Mode::Eval { command: Command::GetSet(get_cmd), stdin, out: true } },
                n1.vars,
                jobs,
                hist,
                ev,
                l2,
            );
            &&& n1.vars == insert_var(e, strs(set_cmd.args@)[1], strs(set_cmd.args@)[2])
            &&& n1.diag is None
            &&& n2.action == ActionV::Print { text: strs(set_cmd.args@)[2].push('\n') }
            &&& n2.machine.mode == Mode::Await(Awaiting::Print { status: true })
            &&& n2.diag is None
        }),
{
    let a = strs(set_cmd.args@);
    law_set_then_lookup(e, a[1], a[2], seq![]);
}

/// `unset x` then `get x`: the second step reports that the variable is not
/// found, and fails.
pub proof fn law_unset_then_get(
    frames: Seq<Frame>,
    e: Vars,
    jobs: JobsV,
    hist: Seq<Seq<char>>,
    ev: Event,
    l1: Seq<char>,
    l2: Seq<char>,
    unset_cmd: GetSetCommand,
    get_cmd: GetSetCommand,
    stdin: i32,
    out: bool,
)
    requires
        distinct_keys(e),
        unset_cmd.get_set == GetSet::UnSet,
        strs(unset_cmd.args@).len() == 2,
        get_cmd.get_set == GetSet::Get,
        strs(get_cmd.args@).len() == 2,
        strs(get_cmd.args@)[1] == strs(unset_cmd.args@)[1],
    ensures
        ({
            let n1 = next(
                MachineV { frames, mode: Mode::Eval { command: Command::GetSet(unset_cmd), stdin, out } },
                e,
                jobs,
                hist,
                ev,
                l1,
            );
            let n2 = next(
                MachineV { frames, mode: Mode::Eval { command: Command::GetSet(get_cmd), stdin, out } },
                n1.vars,
                jobs,
                hist,
                ev,
                l2,
            );
            &&& n1.vars == remove_var(e, strs(unset_cmd.args@)[1])
            &&& n2.diag == Some(Diag::VariableNotFound)
            &&& n2.machine.mode == Mode::Await(Awaiting::Print { status: false })
            &&& n2.action == ActionV::Print { text: seq![] }
        }),
{
    let a = strs(unset_cmd.args@);
    law_unset_then_lookup(e, a[1], seq![]);
}

/// `set` with a wrong number of words, or with a name that is not made of
/// lowercase letters, fails, reports it, and changes no variable.
pub proof fn law_set_rejected(
    frames: Seq<Frame>,
    e: Vars,
    jobs: JobsV,
    hist: Seq<Seq<char>>,
    ev: Event,
    l: Seq<char>,
    set_cmd: GetSetCommand,
    stdin: i32,
    out: bool,
)
    requires
        set_cmd.get_set == GetSet::SetVar,
        !(strs(set_cmd.args@).len() == 3 && valid_name_spec(strs(set_cmd.args@)[1])),
    ensures
        ({
            let n = next(
                MachineV { frames, mode: Mode::Eval { command: Command::GetSet(set_cmd), stdin, out } },
                e,
                jobs,
                hist,
                ev,
                l,
            );
            &&& n.vars == e
            &&& n.diag == Some(Diag::IncorrectSet)
            &&& n.machine.mode == Mode::Await(Awaiting::Print { status: false })
            &&& n.action == ActionV::Print { text: seq![] }
        }),
{
}

/// `unset x` where `x` is not bound fails, reports that the variable is not
/// found, and changes no variable.
pub proof fn law_unset_missing(
    frames: Seq<Frame>,
    e: Vars,
    jobs: JobsV,
    hist: Seq<Seq<char>>,
    ev: Event,
    l: Seq<char>,
    unset_cmd: GetSetCommand,
    stdin: i32,
    out: bool,
)
    requires
        distinct_keys(e),
        unset_cmd.get_set == GetSet::UnSet,
        strs(unset_cmd.args@).len() == 2,
        lookup_var(e, strs(unset_cmd.args@)[1]) is None,
    ensures
        ({
            let n = next(
                MachineV { frames, mode: Mode::Eval { command: Command::GetSet(unset_cmd), stdin, out } },
                e,
                jobs,
                hist,
                ev,
                l,
            );
            &&& n.vars == e
            &&& n.diag == Some(Diag::VariableNotFound)
            &&& n.machine.mode == Mode::Await(Awaiting::Print { status: false })
        }),
{
    let a = strs(unset_cmd.args@);
    lemma_lookup_var(e, a[1]);
}

/// `true` always succeeds and `false` never does; neither produces output.
pub proof fn law_true_false(
    frames: Seq<Frame>,
    e: Vars,
    jobs: JobsV,
    hist: Seq<Seq<char>>,
    ev: Event,
    l: Seq<char>,
    stdin: i32,
    out: bool,
)
    ensures
        next(
            MachineV { frames, mode: Mode::Eval { command: Command::Special(SpecialCommand { special: Special::True }), stdin, out } },
            e, jobs, hist, ev, l,
        ).machine == (MachineV { frames, mode: Mode::Return { fd: -1i32, status: true } }),
        next(
            MachineV { frames, mode: Mode::Eval { command: Command::Special(SpecialCommand { special: Special::False }), stdin, out } },
            e, jobs, hist, ev, l,
        ).machine == (MachineV { frames, mode: Mode::Return { fd: -1i32, status: false } }),
{
}

/// In `a && b`, `b` runs exactly when `a` succeeds; when it does not run,
/// the chain goes straight to joining the outputs, with the status of `a`.
pub proof fn law_and(
    frames: Seq<Frame>,
    e: Vars,
    jobs: JobsV,
    command2: Box<Command>,
    out: bool,
    fd: i32,
    status: bool,
)
    ensures
        ({
            let n = return_next(
                frames.push(Frame::ChainSecond { command2, chain: Chain::And, out }),
                e,
                jobs,
                fd,
                status,
            );
            &&& status ==> n == push_eval(
                frames,
                e,
                jobs,
                Frame::ChainDone { fd1: fd, status1: status },
                *command2,
                -1i32,
                out,
            )
            &&& !status ==> n == with_mode(frames, e, jobs, merge(fd, -1i32, false), None)
        }),
{
    assert(frames.push(Frame::ChainSecond { command2, chain: Chain::And, out }).drop_last() == frames);
}

/// In `a || b`, `b` runs exactly when `a` fails.
pub proof fn law_or(
    frames: Seq<Frame>,
    e: Vars,
    jobs: JobsV,
    command2: Box<Command>,
    out: bool,
    fd: i32,
    status: bool,
)
    ensures
        ({
            let n = return_next(
                frames.push(Frame::ChainSecond { command2, chain: Chain::Or, out }),
                e,
                jobs,
                fd,
                status,
            );
            &&& !status ==> n == push_eval(
                frames,
                e,
                jobs,
                Frame::ChainDone { fd1: fd, status1: status },
                *command2,
                -1i32,
                out,
            )
            &&& status ==> n == with_mode(frames, e, jobs, merge(fd, -1i32, true), None)
        }),
{
    assert(frames.push(Frame::ChainSecond { command2, chain: Chain::Or, out }).drop_last() == frames);
}

/// In `a ; b`, `b` runs whatever `a` gives, and the chain succeeds when
/// both do.
pub proof fn law_sequence(
    frames: Seq<Frame>,
    e: Vars,
    jobs: JobsV,
    command2: Box<Command>,
    out: bool,
    fd: i32,
    status: bool,
    fd2: i32,
    status2: bool,
)
    ensures
        return_next(
            frames.push(Frame::ChainSecond { command2, chain: Chain::Multiple, out }),
            e,
            jobs,
            fd,
            status,
        ) == push_eval(frames, e, jobs, Frame::ChainDone { fd1: fd, status1: status }, *command2, -1i32, out),
        return_next(frames.push(Frame::ChainDone { fd1: fd, status1: status }), e, jobs, fd2, status2)
            == with_mode(frames, e, jobs, merge(fd, fd2, status && status2), None),
{
    assert(frames.push(Frame::ChainSecond { command2, chain: Chain::Multiple, out }).drop_last() == frames);
    assert(frames.push(Frame::ChainDone { fd1: fd, status1: status }).drop_last() == frames);
}

/// In `a | b`, the output of `a` is the input of `b`, and the pipe
/// succeeds when both do.
pub proof fn law_pipe(
    frames: Seq<Frame>,
    e: Vars,
    jobs: JobsV,
    command2: Box<Command>,
    out: bool,
    fd: i32,
    status: bool,
    fd2: i32,
    status2: bool,
)
    ensures
        return_next(frames.push(Frame::PipeSecond { command2, out }), e, jobs, fd, status)
            == push_eval(frames, e, jobs, Frame::PipeDone { status1: status }, *command2, fd, out),
        return_next(frames.push(Frame::PipeDone { status1: status }), e, jobs, fd2, status2).machine
            == (MachineV { frames, mode: Mode::Return { fd: fd2, status: status && status2 } }),
{
    assert(frames.push(Frame::PipeSecond { command2, out }).drop_last() == frames);
    assert(frames.push(Frame::PipeDone { status1: status }).drop_last() == frames);
}

/// In `if c then t else f end`, `t` runs when `c` succeeds and `f` when it
/// fails; the conditional's status is that of the branch that ran.
pub proof fn law_conditional(
    frames: Seq<Frame>,
    e: Vars,
    jobs: JobsV,
    c_then: Box<Command>,
    c_else: Box<Command>,
    out: bool,
    fd: i32,
    status: bool,
    fd2: i32,
    status2: bool,
)
    ensures
        return_next(frames.push(Frame::CondBranch { c_then, c_else, out }), e, jobs, fd, status)
            == push_eval(frames, e, jobs, Frame::CondDone { fd1: fd }, if status { *c_then } else { *c_else }, -1i32, out),
        return_next(frames.push(Frame::CondDone { fd1: fd }), e, jobs, fd2, status2)
            == with_mode(frames, e, jobs, merge(fd, fd2, status2), None),
{
    assert(frames.push(Frame::CondBranch { c_then, c_else, out }).drop_last() == frames);
    assert(frames.push(Frame::CondDone { fd1: fd }).drop_last() == frames);
}

/// `command < file` reads the file; `command > file` and
/// `command >> file` send the command's output into the file.
pub proof fn law_redirect(
    frames: Seq<Frame>,
    e: Vars,
    jobs: JobsV,
    command: Box<Command>,
    redirect: Redirect,
    stdin: i32,
    out: bool,
    file: i32,
    fd: i32,
    status: bool,
)
    ensures
        redirect == Redirect::In ==> await_next(frames, e, jobs, Awaiting::Open { command, redirect, stdin, out }, Event::Opened(file))
            == push_eval(frames, e, jobs, Frame::RedirectDone { redirect, file }, *command, file, out),
        redirect != Redirect::In ==> await_next(frames, e, jobs, Awaiting::Open { command, redirect, stdin, out }, Event::Opened(file))
            == push_eval(frames, e, jobs, Frame::RedirectDone { redirect, file }, *command, stdin, false),
        redirect != Redirect::In && fd != -1 ==> return_next(frames.push(Frame::RedirectDone { redirect, file }), e, jobs, fd, status).action
            == (ActionV::Copy { fd, file }),
{
    assert(frames.push(Frame::RedirectDone { redirect, file }).drop_last() == frames);
}

/// The status of a redirected command is the command's own: once its output
/// has been copied into the file, the redirection ends with the status the
/// command gave (and fails where the copy fails); with no output to copy it
/// ends with that status at once.
pub proof fn law_redirect_status(
    frames: Seq<Frame>,
    e: Vars,
    jobs: JobsV,
    hist: Seq<Seq<char>>,
    l: Seq<char>,
    redirect: Redirect,
    file: i32,
    fd: i32,
    status: bool,
)
    ensures
        ({
            let n1 = return_next(frames.push(Frame::RedirectDone { redirect, file }), e, jobs, fd, status);
            let n2 = next(n1.machine, n1.vars, n1.jobs, hist, Event::Ack, l);
            let n3 = next(n1.machine, n1.vars, n1.jobs, hist, Event::Failed, l);
            &&& redirect != Redirect::In && fd != -1 ==> {
                &&& n1.action == (ActionV::Copy { fd, file })
                &&& n2.machine == (MachineV { frames, mode: Mode::Return { fd: -1i32, status } })
                &&& n2.vars == e && n2.jobs == jobs
                &&& n3.machine == (MachineV { frames, mode: Mode::Return { fd: -1i32, status: false } })
            }
            &&& redirect == Redirect::In || fd == -1 ==> n1.machine == (MachineV {
                frames,
                mode: Mode::Return { fd, status },
            })
        }),
{
    assert(frames.push(Frame::RedirectDone { redirect, file }).drop_last() == frames);
}

/// `fg n`, for a number `n` from 1 to the number of jobs, waits for the n-th
/// job (oldest first) and, once it is done, forgets that job and keeps the
/// others in order; the status is the job's.
pub proof fn law_fg_index(
    frames: Seq<Frame>,
    e: Vars,
    jobs: JobsV,
    hist: Seq<Seq<char>>,
    ev: Event,
    l: Seq<char>,
    fg: Foreground,
    n: usize,
    stdin: i32,
    out: bool,
    fd: i32,
    status: bool,
)
    requires
        strs(fg.args@).len() == 2,
        parse_usize_spec(strs(fg.args@)[1]) == Some(n),
        1 <= n <= jobs.len(),
    ensures
        ({
            let n1 = next(MachineV { frames, mode: Mode::Eval { command: Command::Foreground(fg), stdin, out } }, e, jobs, hist, ev, l);
            let n2 = next(n1.machine, e, n1.jobs, hist, Event::Done { fd, status }, l);
            &&& n1.action == (ActionV::Wait { pid: jobs[n - 1].0 })
            &&& n1.jobs == jobs
            &&& n2.jobs == jobs.remove(n - 1)
            &&& n2.jobs.len() == jobs.len() - 1
            &&& forall|i: int| 0 <= i < n - 1 ==> #[trigger] n2.jobs[i] == jobs[i]
            &&& forall|i: int| n - 1 <= i < jobs.len() - 1 ==> #[trigger] n2.jobs[i] == jobs[i + 1]
            &&& n2.machine == (MachineV { frames, mode: Mode::Return { fd: -1i32, status } })
        }),
{
    assert(((n - 1) as usize) as int == n - 1);
}

/// `set x ( command )`: the variable takes the command's output, trimmed.
/// A command with no output, or with only whitespace, makes the `set` fail
/// and leaves the variables as they were.
pub proof fn law_set_from_output(
    frames: Seq<Frame>,
    e: Vars,
    jobs: JobsV,
    hist: Seq<Seq<char>>,
    variable: String,
    fd: i32,
    status: bool,
    t: String,
    l: Seq<char>,
)
    ensures
        ({
            let n = return_next(frames.push(Frame::ComplexSetDone { variable }), e, jobs, fd, status);
            &&& fd == -1 ==> n == ret(frames, e, jobs, -1i32, false, Some(Diag::NullOutput))
            &&& fd != -1 ==> n.action == ActionV::Read { fd } && n.vars == e && n.machine == (MachineV {
                frames,
                mode: Mode::Await(Awaiting::ReadVar { variable }),
            })
        }),
        ({
            let n = next(
                MachineV { frames, mode: Mode::Await(Awaiting::ReadVar { variable }) },
                e,
                jobs,
                hist,
                Event::Text(t),
                l,
            );
            &&& trim(t@).len() == 0 ==> n == ret(frames, e, jobs, -1i32, false, Some(Diag::NullOutput))
            &&& trim(t@).len() > 0 ==> n == ret(frames, insert_var(e, variable@, trim(t@)), jobs, -1i32, true, None)
        }),
{
    assert(frames.push(Frame::ComplexSetDone { variable }).drop_last() == frames);
}

/// A command sent to the background joins the jobs, with its command text; `fg` with no number
/// waits for the last of them, and once it is done the job is forgotten and
/// its status is that of `fg`.
pub proof fn law_background_fg(
    frames: Seq<Frame>,
    e: Vars,
    jobs: JobsV,
    hist: Seq<Seq<char>>,
    ev: Event,
    l: Seq<char>,
    pid: u32,
    text: String,
    fg: Foreground,
    stdin: i32,
    out: bool,
    fd: i32,
    status: bool,
)
    requires
        strs(fg.args@).len() == 1,
        jobs.len() < usize::MAX,
    ensures
        ({
            let n1 = next(MachineV { frames, mode: Mode::Await(Awaiting::Background { text }) }, e, jobs, hist, Event::Started(pid), l);
            let n2 = next(MachineV { frames, mode: Mode::Eval { command: Command::Foreground(fg), stdin, out } }, e, n1.jobs, hist, ev, l);
            let n3 = next(n2.machine, e, n2.jobs, hist, Event::Done { fd, status }, l);
            &&& n1.jobs == jobs.push((pid, text@))
            &&& n1.machine.mode == (Mode::Return { fd: -1i32, status: true })
            &&& n2.action == ActionV::Wait { pid }
            &&& n2.jobs == n1.jobs
            &&& n3.jobs == jobs
            &&& n3.machine == (MachineV { frames, mode: Mode::Return { fd: -1i32, status } })
        }),
{
    let j = jobs.push((pid, text@));
    let i = jobs.len() as int;
    assert(j[i].0 == pid);
    assert((i as usize) as int == i);
    assert(j.remove(i) =~= jobs);
}

/// The first Ctrl+C interrupts the running command, the next ones kill it.
pub proof fn law_ctrl_c(s: Signal)
    ensures
        next_signal(Signal::Default) == Signal::SigInt,
        next_signal(next_signal(s)) == Signal::SigKill,
{
}

proof fn lemma_split_nonempty(s: Seq<char>, cur: Seq<char>)
    ensures
        forall|i: int| 0 <= i < split_ws_from(s, cur).len() ==> #[trigger] split_ws_from(s, cur)[i].len() > 0,
    decreases s.len(),
{
    if s.len() == 0 {
        if cur.len() > 0 {
            assert(split_ws_from(s, cur) == seq![cur]);
        } else {
            assert(split_ws_from(s, cur) == Seq::<Seq<char>>::empty());
        }
    } else if crate::text::is_ws(s[0]) {
        lemma_split_nonempty(s.drop_first(), seq![]);
        let head: Seq<Seq<char>> = if cur.len() > 0 { seq![cur] } else { seq![] };
        let tail = split_ws_from(s.drop_first(), seq![]);
        assert(split_ws_from(s, cur) == head + tail);
        assert forall|i: int| 0 <= i < (head + tail).len() implies #[trigger] (head + tail)[i].len() > 0 by {
            if i < head.len() {
            } else {
                assert((head + tail)[i] == tail[i - head.len()]);
            }
        }
    } else {
        lemma_split_nonempty(s.drop_first(), cur.push(s[0]));
        assert(split_ws_from(s, cur) == split_ws_from(s.drop_first(), cur.push(s[0])));
    }
}

proof fn lemma_dec_chars_len(w: Seq<char>, sp: Seq<usize>, x: nat, j: nat)
    ensures
        dec_chars(w, sp, x, j).0.len() == w.len(),
    decreases w.len(),
{
    if w.len() > 0 {
        lemma_dec_chars_len(w.drop_last(), sp, x, j);
    }
}

proof fn lemma_dec_words_len(ws: Seq<Seq<char>>, sp: Seq<usize>)
    ensures
        dec_words(ws, sp).words.len() == ws.len(),
        forall|i: int| 0 <= i < ws.len() ==> #[trigger] dec_words(ws, sp).words[i].len() == ws[i].len(),
    decreases ws.len(),
{
    if ws.len() > 0 {
        lemma_dec_words_len(ws.drop_last(), sp);
        let st = dec_words(ws.drop_last(), sp);
        lemma_dec_chars_len(ws.last(), sp, st.x, st.j);
        assert forall|i: int| 0 <= i < ws.len() implies #[trigger] dec_words(ws, sp).words[i].len() == ws[i].len() by {
            if i < ws.len() - 1 {
                assert(dec_words(ws, sp).words[i] == st.words[i]);
                assert(ws.drop_last()[i] == ws[i]);
            }
        }
    }
}

/// Words may be separated by any number of spaces: no argument of a line
/// is empty.
pub proof fn law_arguments_nonempty(line: Seq<char>)
    ensures
        forall|i: int| 0 <= i < format_line_spec(line).len() ==> #[trigger] format_line_spec(line)[i].len() > 0,
{
    let (nl, sp) = encode(line);
    lemma_split_nonempty(nl, seq![]);
    lemma_dec_words_len(split_ws(nl), sp);
    assert forall|i: int| 0 <= i < format_line_spec(line).len() implies #[trigger] format_line_spec(line)[i].len() > 0 by {
        assert(split_ws(nl)[i].len() > 0);
    }
}

/// Two lines whose characters agree around `i` and `j` take the same step
/// of the formatter there.
proof fn lemma_enc_step_same(l1: Seq<char>, l2: Seq<char>, i: int, j: int, st: EncState)
    requires
        0 <= i < l1.len(),
        0 <= j < l2.len(),
        l1[i] == l2[j],
        (i == 0) == (j == 0),
        i > 0 ==> l1[i - 1] == l2[j - 1],
        (l1[i] == '\\' || pat_flag(l1[i]) is Some) ==> ((i == l1.len() - 1) == (j == l2.len() - 1)),
        (l1[i] == '\\' || pat_flag(l1[i]) is Some) && i < l1.len() - 1 ==> l1[i + 1] == l2[j + 1],
    ensures
        enc_step(l1, i, st) == enc_step(l2, j, st),
{
    if pat_flag(l1[i]) is Some && !st.done && !st.skip && l1[i] != '"' && !st.quoted && l1[i] != '#' {
        assert(pat_piece(l1, i) == pat_piece(l2, j));
    }
}

/// On the characters before `k`, both lines go through the same states.
proof fn lemma_enc_prefix(l1: Seq<char>, l2: Seq<char>, k: int, m: nat)
    requires
        0 <= k < l1.len(),
        k < l2.len(),
        m <= k + 1,
        l1.take(k + 1) == l2.take(k + 1),
        l1[k] == ' ',
        forall|i: int| 0 <= i < k ==> #[trigger] l1[i + 1] == l2[i + 1],
    ensures
        enc_upto(l1, m) == enc_upto(l2, m),
    decreases m,
{
    if m > 0 {
        lemma_enc_prefix(l1, l2, k, (m - 1) as nat);
        let i = m - 1;
        assert(l1[i] == l1.take(k + 1)[i]);
        assert(l2[i] == l2.take(k + 1)[i]);
        if i > 0 {
            assert(l1[i - 1] == l1.take(k + 1)[i - 1]);
            assert(l2[i - 1] == l2.take(k + 1)[i - 1]);
        }
        if i < k {
            assert(l1[i + 1] == l2[i + 1]);
        }
        lemma_enc_step_same(l1, l2, i, i, enc_upto(l1, i as nat));
    }
}

/// After the doubled space, the longer line is one character behind.
proof fn lemma_enc_shifted(l1: Seq<char>, l2: Seq<char>, k: int, m: nat)
    requires
        0 <= k < l1.len(),
        l2.len() == l1.len() + 1,
        k + 1 <= m <= l1.len(),
        l1[k] == ' ',
        l2[k + 1] == ' ',
        forall|i: int| k + 1 <= i < l1.len() ==> #[trigger] l1[i] == l2[i + 1],
        enc_upto(l2, (k + 2) as nat) == enc_upto(l1, (k + 1) as nat),
    ensures
        enc_upto(l2, m + 1) == enc_upto(l1, m),
    decreases m,
{
    if m > k + 1 {
        lemma_enc_shifted(l1, l2, k, (m - 1) as nat);
        let i = m - 1;
        assert(l1[i] == l2[i + 1]);
        if i == k + 1 {
            assert(l1[i - 1] == l2[i]);
        } else {
            assert(l1[i - 1] == l2[i]);
        }
        if i < l1.len() - 1 {
            assert(l1[i + 1] == l2[i + 2]);
        }
        lemma_enc_step_same(l1, l2, i, i + 1, enc_upto(l1, i as nat));
    }
}

/// A finished line (after a comment) has no pending escape.
proof fn lemma_enc_done_no_skip(line: Seq<char>, m: nat)
    requires
        m <= line.len(),
    ensures
        enc_upto(line, m).done ==> !enc_upto(line, m).skip,
    decreases m,
{
    if m > 0 {
        lemma_enc_done_no_skip(line, (m - 1) as nat);
    }
}

/// Words may be separated by any number of spaces: doubling a space that
/// stands outside double quotes leaves the arguments of the line unchanged.
pub proof fn law_extra_space(a: Seq<char>, b: Seq<char>)
    requires
        !enc_upto(a + seq![' '] + b, a.len() + 1).quoted,
    ensures
        format_line_spec(a + seq![' ', ' '] + b) == format_line_spec(a + seq![' '] + b),
{
    let l1 = a + seq![' '] + b;
    let l2 = a + seq![' ', ' '] + b;
    let k = a.len() as int;
    assert(l1.take(k + 1) == l2.take(k + 1));
    assert(l1[k] == ' ');
    assert(l2[k + 1] == ' ');
    assert forall|i: int| 0 <= i < k implies #[trigger] l1[i + 1] == l2[i + 1] by {
        if i + 1 < k {
            assert(l1[i + 1] == a[i + 1]);
            assert(l2[i + 1] == a[i + 1]);
        }
    }
    lemma_enc_prefix(l1, l2, k, (k + 1) as nat);
    let st1 = enc_upto(l1, (k + 1) as nat);
    lemma_enc_done_no_skip(l1, k as nat);
    assert(!st1.skip);
    assert(enc_upto(l2, (k + 2) as nat) == st1);
    assert forall|i: int| k + 1 <= i < l1.len() implies #[trigger] l1[i] == l2[i + 1] by {
        assert(l1[i] == b[i - k - 1]);
        assert(l2[i + 1] == b[i - k - 1]);
    }
    lemma_enc_shifted(l1, l2, k, l1.len());
    assert(encode(l2) == encode(l1));
}

/// One step of the formatter either extends the new line, or adds a
/// placeholder `#` and records its position.
proof fn lemma_enc_step_shape(line: Seq<char>, i: int, st: EncState)
    requires
        0 <= i < line.len(),
    ensures
        ({
            let n = enc_step(line, i, st);
            ||| n.spaces == st.spaces && n.out.len() >= st.out.len() && n.out.take(st.out.len() as int) == st.out
            ||| n.spaces == st.spaces.push(st.out.len() as usize) && n.out == st.out.push('#')
        }),
{
    assert forall|d: Seq<char>| #[trigger] (st.out + d).take(st.out.len() as int) == st.out by {
        assert((st.out + d).take(st.out.len() as int) =~= st.out);
    }
    assert forall|c: char| #[trigger] st.out.push(c).take(st.out.len() as int) == st.out by {
        assert(st.out.push(c).take(st.out.len() as int) =~= st.out);
    }
    assert(st.out.take(st.out.len() as int) =~= st.out);
}

proof fn lemma_enc_placeholders(line: Seq<char>, k: nat)
    requires
        k <= line.len(),
        3 * line.len() <= usize::MAX,
    ensures
        ({
            let st = enc_upto(line, k);
            &&& forall|a: int, b: int| 0 <= a < b < st.spaces.len() ==> st.spaces[a] < st.spaces[b]
            &&& forall|a: int| 0 <= a < st.spaces.len() ==> #[trigger] st.spaces[a] < st.out.len() && st.out[st.spaces[a] as int] == '#'
        }),
    decreases k,
{
    if k > 0 {
        let p = enc_upto(line, (k - 1) as nat);
        lemma_enc_placeholders(line, (k - 1) as nat);
        lemma_enc_bounds(line, (k - 1) as nat);
        lemma_enc_step_shape(line, k - 1, p);
        let st = enc_upto(line, k);
        if st.spaces == p.spaces {
            assert forall|a: int| 0 <= a < st.spaces.len() implies #[trigger] st.spaces[a] < st.out.len() && st.out[st.spaces[a] as int] == '#' by {
                assert(p.out[p.spaces[a] as int] == '#');
                assert(st.out.take(p.out.len() as int)[p.spaces[a] as int] == st.out[p.spaces[a] as int]);
            }
        } else {
            assert(st.spaces == p.spaces.push(p.out.len() as usize));
            assert forall|a: int, b: int| 0 <= a < b < st.spaces.len() implies st.spaces[a] < st.spaces[b] by {
                assert(p.spaces[a] < p.out.len());
                if b < p.spaces.len() {
                    assert(st.spaces[b] == p.spaces[b]);
                }
            }
            assert forall|a: int| 0 <= a < st.spaces.len() implies #[trigger] st.spaces[a] < st.out.len() && st.out[st.spaces[a] as int] == '#' by {
                if a < p.spaces.len() {
                    assert(st.spaces[a] == p.spaces[a]);
                    assert(p.out[p.spaces[a] as int] == '#');
                }
            }
        }
    }
}

/// The placeholders of a line whose double quotes are closed: the positions
/// that `encode` records strictly increase, and each holds a `#` of the new
/// line.
pub proof fn law_placeholders(line: Seq<char>)
    requires
        3 * line.len() <= usize::MAX,
        !enc_upto(line, line.len()).quoted,
    ensures
        ({
            let (nl, sp) = encode(line);
            &&& forall|a: int, b: int| 0 <= a < b < sp.len() ==> sp[a] < sp[b]
            &&& forall|a: int| 0 <= a < sp.len() ==> #[trigger] sp[a] < nl.len() && nl[sp[a] as int] == '#'
        }),
{
    lemma_enc_placeholders(line, line.len());
}

/// A character that the formatter treats specially.
pub open spec fn format_special_char(c: char) -> bool {
    c == '"' || c == '\\' || c == '#' || c == '`' || pat_flag(c) is Some
}

/// A line of plain words: no special character, no leading space and no
/// two spaces in a row.
pub open spec fn plain_line(line: Seq<char>) -> bool {
    &&& forall|i: int| 0 <= i < line.len() ==> !format_special_char(#[trigger] line[i])
    &&& line.len() > 0 ==> line[0] != ' '
    &&& forall|i: int| 1 <= i < line.len() ==> #[trigger] line[i] == ' ' ==> line[i - 1] != ' '
}

proof fn lemma_plain_enc(line: Seq<char>, k: nat)
    requires
        plain_line(line),
        k <= line.len(),
    ensures
        enc_upto(line, k) == (EncState { out: line.take(k as int), spaces: seq![], quoted: false, skip: false, done: false }),
    decreases k,
{
    if k > 0 {
        lemma_plain_enc(line, (k - 1) as nat);
        let i = k - 1;
        let c = line[i];
        assert(!format_special_char(line[i]));
        assert(c != '"' && c != '\\' && c != '#' && c != '`' && pat_flag(c) is None);
        if c == ' ' {
            if i == 0 {
                assert(line[0] != ' ');
            } else {
                assert(line[i - 1] != ' ');
            }
        }
        let st = enc_upto(line, i as nat);
        assert(unquoted_step(line, i, st) == (EncState { out: st.out.push(c), ..st }));
        assert(line.take(i).push(line[i]) =~= line.take(k as int));
    } else {
        assert(line.take(0) =~= Seq::<char>::empty());
    }
}

proof fn lemma_dec_chars_plain(w: Seq<char>, x: nat, j: nat)
    ensures
        dec_chars(w, seq![], x, j) == (w, x),
    decreases w.len(),
{
    if w.len() > 0 {
        lemma_dec_chars_plain(w.drop_last(), x, j);
        assert(w.drop_last().push(w.last()) =~= w);
    }
}

proof fn lemma_dec_words_plain(ws: Seq<Seq<char>>)
    ensures
        dec_words(ws, seq![]).words == ws,
        dec_words(ws, seq![]).x == 0,
    decreases ws.len(),
{
    if ws.len() > 0 {
        lemma_dec_words_plain(ws.drop_last());
        let st = dec_words(ws.drop_last(), seq![]);
        lemma_dec_chars_plain(ws.last(), st.x, st.j);
        assert(ws.drop_last().push(ws.last()) =~= ws);
    }
}

/// On a line of plain words the formatter changes nothing: the arguments
/// are the words of the line, split at whitespace.
pub proof fn law_plain_words(line: Seq<char>)
    requires
        plain_line(line),
    ensures
        encode(line) == (line, Seq::<usize>::empty()),
        format_line_spec(line) == split_ws(line),
{
    lemma_plain_enc(line, line.len());
    assert(line.take(line.len() as int) =~= line);
    lemma_dec_words_plain(split_ws(line));
}

/// Whether `p` is one of the recorded placeholder positions.
pub open spec fn recorded(sp: Seq<usize>, p: int) -> bool {
    exists|k: int| 0 <= k < sp.len() && sp[k] == p
}

pub open spec fn increasing(sp: Seq<usize>) -> bool {
    forall|a: int, b: int| 0 <= a < b < sp.len() ==> sp[a] < sp[b]
}

/// Where word `i` starts when the words are written one separator apart.
pub open spec fn word_start(ws: Seq<Seq<char>>, i: int) -> int
    decreases i,
{
    if i <= 0 {
        0
    } else {
        word_start(ws, i - 1) + ws[i - 1].len() + 1
    }
}

/// The positions before `x` lie below `at`, the others at or above it.
spec fn split_at(sp: Seq<usize>, x: nat, at: int) -> bool {
    &&& x <= sp.len()
    &&& forall|k: int| 0 <= k < x ==> sp[k] < at
    &&& forall|k: int| x <= k < sp.len() ==> sp[k] >= at
}

proof fn lemma_dec_chars_law(w: Seq<char>, sp: Seq<usize>, x: nat, j: nat)
    requires
        increasing(sp),
        split_at(sp, x, j as int),
    ensures
        ({
            let (p, x1) = dec_chars(w, sp, x, j);
            &&& p.len() == w.len()
            &&& split_at(sp, x1, j + w.len() as int)
            &&& forall|m: int| 0 <= m < w.len() ==> #[trigger] p[m] == (if recorded(sp, j + m) { ' ' } else { w[m] })
        }),
    decreases w.len(),
{
    if w.len() > 0 {
        let d = w.drop_last();
        lemma_dec_chars_law(d, sp, x, j);
        let (p0, x0) = dec_chars(d, sp, x, j);
        let at = j + w.len() - 1;
        let (p, x1) = dec_chars(w, sp, x, j);
        if x0 < sp.len() && at == sp[x0 as int] {
            assert(recorded(sp, at));
            assert forall|k: int| x0 + 1 <= k < sp.len() implies sp[k] >= at + 1 by {
                assert(sp[x0 as int] < sp[k]);
            }
        } else {
            assert forall|k: int| x0 <= k < sp.len() implies sp[k] >= at + 1 by {
                if k > x0 {
                    assert(sp[x0 as int] < sp[k]);
                }
            }
            if recorded(sp, at) {
                let k = choose|k: int| 0 <= k < sp.len() && sp[k] == at;
                assert(false);
            }
        }
        assert forall|m: int| 0 <= m < w.len() implies #[trigger] p[m] == (if recorded(sp, j + m) { ' ' } else { w[m] }) by {
            if m < w.len() - 1 {
                assert(p[m] == p0[m]);
                assert(d[m] == w[m]);
            }
        }
    }
}

proof fn lemma_word_start_prefix(ws: Seq<Seq<char>>, i: int)
    requires
        0 <= i < ws.len(),
    ensures
        word_start(ws.drop_last(), i) == word_start(ws, i),
    decreases i,
{
    if i > 0 {
        lemma_word_start_prefix(ws, i - 1);
    }
}

proof fn lemma_dec_words_law(ws: Seq<Seq<char>>, sp: Seq<usize>)
    requires
        increasing(sp),
        forall|i: int| 0 <= i < ws.len() ==> !recorded(sp, #[trigger] word_start(ws, i) + ws[i].len()),
    ensures
        ({
            let st = dec_words(ws, sp);
            &&& st.words.len() == ws.len()
            &&& st.j == word_start(ws, ws.len() as int)
            &&& split_at(sp, st.x, st.j as int)
            &&& forall|i: int, m: int| 0 <= i < ws.len() && 0 <= m < ws[i].len() ==> #[trigger] st.words[i][m] == (if recorded(sp, word_start(ws, i) + m) { ' ' } else { ws[i][m] })
            &&& forall|i: int| 0 <= i < ws.len() ==> #[trigger] st.words[i].len() == ws[i].len()
        }),
    decreases ws.len(),
{
    if ws.len() > 0 {
        let d = ws.drop_last();
        let n = ws.len() - 1;
        assert forall|i: int| 0 <= i < d.len() implies !recorded(sp, #[trigger] word_start(d, i) + d[i].len()) by {
            lemma_word_start_prefix(ws, i);
            assert(d[i] == ws[i]);
            assert(!recorded(sp, word_start(ws, i) + ws[i].len()));
        }
        lemma_dec_words_law(d, sp);
        let st = dec_words(d, sp);
        lemma_word_start_prefix(ws, n);
        assert(word_start(d, d.len() as int) == word_start(ws, n));
        lemma_dec_chars_law(ws.last(), sp, st.x, st.j);
        let (w, x1) = dec_chars(ws.last(), sp, st.x, st.j);
        let end = st.j + ws.last().len();
        assert(!recorded(sp, word_start(ws, n) + ws[n].len()));
        assert forall|k: int| x1 <= k < sp.len() implies sp[k] >= end + 1 by {
            if sp[k] == end {
                assert(recorded(sp, end as int));
            }
        }
        let fin = dec_words(ws, sp);
        assert forall|i: int, m: int| 0 <= i < ws.len() && 0 <= m < ws[i].len() implies #[trigger] fin.words[i][m] == (if recorded(sp, word_start(ws, i) + m) { ' ' } else { ws[i][m] }) by {
            if i < n {
                lemma_word_start_prefix(ws, i);
                assert(fin.words[i] == st.words[i]);
                assert(d[i] == ws[i]);
                assert(st.words[i][m] == (if recorded(sp, word_start(d, i) + m) { ' ' } else { d[i][m] }));
            } else {
                assert(fin.words[i] == w);
                assert(w[m] == (if recorded(sp, st.j + m) { ' ' } else { ws.last()[m] }));
            }
        }
        assert forall|i: int| 0 <= i < ws.len() implies #[trigger] fin.words[i].len() == ws[i].len() by {
            if i < n {
                assert(fin.words[i] == st.words[i]);
                assert(d[i] == ws[i]);
            }
        }
    }
}

/// Decoding: with the words written one separator apart and the recorded
/// positions increasing and never on a separator, each word keeps its
/// length and a character becomes a space exactly when its position is a
/// recorded one.
pub proof fn law_decode(ws: Seq<Seq<char>>, sp: Seq<usize>)
    requires
        increasing(sp),
        forall|i: int| 0 <= i < ws.len() ==> !recorded(sp, #[trigger] word_start(ws, i) + ws[i].len()),
    ensures
        dec_words(ws, sp).words.len() == ws.len(),
        forall|i: int| 0 <= i < ws.len() ==> #[trigger] dec_words(ws, sp).words[i].len() == ws[i].len(),
        forall|i: int, m: int| 0 <= i < ws.len() && 0 <= m < ws[i].len() ==> #[trigger] dec_words(ws, sp).words[i][m] == (if recorded(sp, word_start(ws, i) + m) { ' ' } else { ws[i][m] }),
{
    lemma_dec_words_law(ws, sp);
}

proof fn lemma_quoted_copy(line: Seq<char>, s: int, q: Seq<char>, k: nat, st0: EncState)
    requires
        0 <= s,
        k <= q.len(),
        s + q.len() + 1 < line.len(),
        line[s] == '"',
        forall|i: int| 0 <= i < q.len() ==> line[s + 1 + i] == q[i],
        forall|i: int| 0 <= i < q.len() ==> #[trigger] q[i] != '"' && q[i] != ' ',
        enc_upto(line, s as nat) == st0,
        !st0.quoted && !st0.skip && !st0.done,
    ensures
        enc_upto(line, (s + 1 + k) as nat) == (EncState { out: st0.out + q.take(k as int), quoted: true, ..st0 }),
    decreases k,
{
    if k == 0 {
        assert(st0.out + q.take(0) =~= st0.out);
    } else {
        lemma_quoted_copy(line, s, q, (k - 1) as nat, st0);
        let c = q[k - 1];
        assert(line[s + 1 + (k - 1)] == c);
        assert(c != '"' && c != ' ');
        assert((st0.out + q.take(k - 1)).push(c) =~= st0.out + q.take(k as int));
    }
}

/// Quoted text is taken as it is: inside double quotes every character but
/// the quote and the space goes to the new line unchanged (`#` starts no
/// comment there), and the closing quote ends the quoted part.
pub proof fn law_quoted_copy(p: Seq<char>, q: Seq<char>, r: Seq<char>)
    requires
        !enc_upto(p + seq!['"'] + q + seq!['"'] + r, p.len()).quoted,
        !enc_upto(p + seq!['"'] + q + seq!['"'] + r, p.len()).skip,
        !enc_upto(p + seq!['"'] + q + seq!['"'] + r, p.len()).done,
        forall|i: int| 0 <= i < q.len() ==> #[trigger] q[i] != '"' && q[i] != ' ',
    ensures
        ({
            let line = p + seq!['"'] + q + seq!['"'] + r;
            let st0 = enc_upto(line, p.len());
            enc_upto(line, p.len() + q.len() + 2) == (EncState { out: st0.out + q, ..st0 })
        }),
{
    let line = p + seq!['"'] + q + seq!['"'] + r;
    let s = p.len() as int;
    let st0 = enc_upto(line, p.len());
    assert(line[s] == '"');
    assert forall|i: int| 0 <= i < q.len() implies line[s + 1 + i] == q[i] by {
        assert(line[s + 1 + i] == q[i]);
    }
    lemma_quoted_copy(line, s, q, q.len(), st0);
    assert(q.take(q.len() as int) =~= q);
    assert(line[s + 1 + q.len()] == '"');
}

/// `again` alone stands for the last command of the history (or for
/// `false`, reported as an error, when the history is empty).
pub proof fn law_again_last(hist: Seq<Seq<char>>)
    ensures
        hist.len() > 0 ==> again_spec(again_word(), hist) == (trim(hist.last()), 0nat),
        hist.len() == 0 ==> again_spec(again_word(), hist) == (trim(seq!['f', 'a', 'l', 's', 'e']), 1nat),
{
    let line = again_word();
    assert(line.subrange(0, 5) == again_word());
    assert(equal_pat_spec(line, again_word(), 0));
    assert(line[0] == 'a');
    let l = lookup(hist, hist.len() as int);
    assert(Seq::<char>::empty() + l.0 == l.0);
    assert(again_upto(line, hist, 0) == (AgainState { out: seq![], next: 0, quoted: false, errors: 0, done: false }));
    let s1 = again_upto(line, hist, 1);
    assert(s1.out == lookup(hist, hist.len() as int).0 && s1.next == 4 && !s1.done);
    let s5 = again_upto(line, hist, 5);
    assert(again_upto(line, hist, 2).next == 3);
    assert(again_upto(line, hist, 3).next == 2);
    assert(again_upto(line, hist, 4).next == 1);
    assert(s5.out == s1.out && s5.errors == s1.errors);
}

/// The digits after `again ` run to the end of the line.
proof fn lemma_word_end_digits(line: Seq<char>, k: int)
    requires
        0 <= k <= line.len(),
        forall|j: int| k <= j < line.len() ==> is_digit(#[trigger] line[j]),
    ensures
        word_end(line, k) == line.len(),
    decreases line.len() - k,
{
    if k < line.len() {
        assert(is_digit(line[k]));
        lemma_word_end_digits(line, k + 1);
    }
}

/// Once `again n` has been expanded at the start of the line, the rest of
/// the line is skipped.
proof fn lemma_again_tail(line: Seq<char>, hist: Seq<Seq<char>>, k: nat, out: Seq<char>)
    requires
        1 <= k <= line.len(),
        again_upto(line, hist, 1) == (AgainState { out, next: line.len() - 1, quoted: false, errors: 0, done: false }),
        forall|j: int| 1 <= j < line.len() ==> #[trigger] line[j] != '"',
    ensures
        again_upto(line, hist, k) == (AgainState { out, next: line.len() - k, quoted: false, errors: 0, done: false }),
    decreases k,
{
    if k > 1 {
        lemma_again_tail(line, hist, (k - 1) as nat, out);
        assert(line[k - 1] != '"');
    }
}

/// `again n`, for a number `n` from 1 to the length of the history, stands
/// for the n-th command of the history.
pub proof fn law_again_index(hist: Seq<Seq<char>>, digits: Seq<char>, n: usize)
    requires
        digits.len() > 0,
        all_digits(digits),
        parse_usize_spec(digits) == Some(n),
        1 <= n <= hist.len(),
    ensures
        again_spec(again_word() + seq![' '] + digits, hist) == (trim(hist[n - 1]), 0nat),
{
    let line = again_word() + seq![' '] + digits;
    let len = line.len() as int;
    assert(line.subrange(0, 5) == again_word());
    assert(equal_pat_spec(line, again_word(), 0));
    assert(line[0] == 'a');
    assert(line[5] == ' ');
    assert(line[6] == digits[0]);
    assert(is_digit(digits[0]));
    assert(skip_spaces(line, 6) == 6);
    assert(skip_spaces(line, 5) == 6);
    assert forall|j: int| 6 <= j < len implies is_digit(#[trigger] line[j]) by {
        assert(line[j] == digits[j - 6]);
    }
    lemma_word_end_digits(line, 6);
    assert(line.subrange(6, len) == digits);
    let l = lookup(hist, n as int);
    assert(l == (hist[n - 1], false));
    assert(Seq::<char>::empty() + l.0 == l.0);
    assert(again_upto(line, hist, 0) == (AgainState { out: seq![], next: 0, quoted: false, errors: 0, done: false }));
    assert(again_upto(line, hist, 1) == (AgainState { out: hist[n - 1], next: len - 1, quoted: false, errors: 0, done: false }));
    assert forall|j: int| 1 <= j < len implies #[trigger] line[j] != '"' by {
        if j >= 6 {
            assert(is_digit(line[j]));
        }
    }
    lemma_again_tail(line, hist, line.len(), hist[n - 1]);
}

/// A prefix with no `a` and no double quote goes through unchanged.
proof fn lemma_again_plain_prefix(line: Seq<char>, hist: Seq<Seq<char>>, p: Seq<char>, k: nat)
    requires
        k <= p.len() <= line.len(),
        line.take(p.len() as int) == p,
        forall|i: int| 0 <= i < p.len() ==> #[trigger] p[i] != 'a' && p[i] != '"',
    ensures
        again_upto(line, hist, k) == (AgainState { out: p.take(k as int), next: 0, quoted: false, errors: 0, done: false }),
    decreases k,
{
    if k == 0 {
        assert(p.take(0) =~= Seq::<char>::empty());
    } else {
        lemma_again_plain_prefix(line, hist, p, (k - 1) as nat);
        let i = k - 1;
        assert(line[i] == line.take(p.len() as int)[i]);
        assert(line[i] == p[i]);
        assert(p[i] != 'a' && p[i] != '"');
        if equal_pat_spec(line, again_word(), i) {
            assert(line.subrange(i, i + 5)[0] == line[i]);
        }
        assert(p.take(i).push(line[i]) =~= p.take(k as int));
    }
}

proof fn lemma_again_tail_from(line: Seq<char>, hist: Seq<Seq<char>>, s: int, k: nat, out: Seq<char>)
    requires
        0 <= s,
        s + 1 <= k <= line.len(),
        again_upto(line, hist, (s + 1) as nat) == (AgainState { out, next: line.len() - s - 1, quoted: false, errors: 0, done: false }),
        forall|j: int| s + 1 <= j < line.len() ==> #[trigger] line[j] != '"',
    ensures
        again_upto(line, hist, k) == (AgainState { out, next: line.len() - k, quoted: false, errors: 0, done: false }),
    decreases k,
{
    if k > s + 1 {
        lemma_again_tail_from(line, hist, s, (k - 1) as nat, out);
        assert(line[k - 1] != '"');
    }
}

/// `again n` after other commands is expanded as well: for a prefix `p` with
/// no `a` and no double quote, whose last word is not `help` (it ends in a
/// space that follows a character other than a space or `p`), `p again n`
/// stands for `p` followed by the n-th command of the history.
pub proof fn law_again_after(hist: Seq<Seq<char>>, p: Seq<char>, digits: Seq<char>, n: usize)
    requires
        p.len() >= 2,
        p[p.len() - 1] == ' ',
        p[p.len() - 2] != ' ' && p[p.len() - 2] != 'p',
        forall|i: int| 0 <= i < p.len() ==> #[trigger] p[i] != 'a' && p[i] != '"',
        digits.len() > 0,
        all_digits(digits),
        parse_usize_spec(digits) == Some(n),
        1 <= n <= hist.len(),
    ensures
        again_spec(p + again_word() + seq![' '] + digits, hist) == (trim(p + hist[n - 1]), 0nat),
{
    let line = p + again_word() + seq![' '] + digits;
    let s = p.len() as int;
    let len = line.len() as int;
    assert(line.take(s) =~= p);
    lemma_again_plain_prefix(line, hist, p, p.len());
    assert(p.take(s) =~= p);
    assert(line.subrange(s, s + 5) =~= again_word());
    assert(equal_pat_spec(line, again_word(), s));
    assert(line[s] == 'a');
    assert(line[s - 1] == ' ');
    assert(line[s - 2] == p[s - 2]);
    if s - 1 >= 3 {
        assert(help_w(line, s - 1) == s - 2);
        if s - 1 >= 4 && equal_pat_spec(line, help_word(), s - 1 - 4) {
            assert(line.subrange(s - 5, s - 1)[3] == line[s - 2]);
            assert(help_word()[3] == 'p');
        }
    } else {
        assert(help_w(line, s - 1) == s - 1);
    }
    assert(line[s + 5] == ' ');
    assert(line[s + 6] == digits[0]);
    assert(is_digit(digits[0]));
    assert(skip_spaces(line, s + 6) == s + 6);
    assert(skip_spaces(line, s + 5) == s + 6);
    assert forall|j: int| s + 6 <= j < len implies is_digit(#[trigger] line[j]) by {
        assert(line[j] == digits[j - s - 6]);
    }
    lemma_word_end_digits(line, s + 6);
    assert(line.subrange(s + 6, len) =~= digits);
    let l = lookup(hist, n as int);
    assert(l == (hist[n - 1], false));
    assert(again_upto(line, hist, (s + 1) as nat) == (AgainState { out: p + hist[n - 1], next: len - s - 1, quoted: false, errors: 0, done: false }));
    assert forall|j: int| s + 1 <= j < len implies #[trigger] line[j] != '"' by {
        if j >= s + 6 {
            assert(is_digit(line[j]));
        }
    }
    lemma_again_tail_from(line, hist, s, line.len(), p + hist[n - 1]);
}

/// A word that is neither an operator nor a grouping word.
pub open spec fn plain_word(w: Seq<char>) -> bool {
    w != "<"@ && w != "|"@ && w != ">"@ && w != ">>"@ && w != "&&"@ && w != "||"@ && w != ";"@ && w
        != "&"@ && w != "("@ && w != ")"@ && w != "if"@ && w != "end"@
}

pub open spec fn plain_words(a: Seq<Seq<char>>) -> bool {
    forall|i: int| 0 <= i < a.len() ==> plain_word(#[trigger] a[i])
}

/// The operator and grouping words, spelled out.
proof fn lemma_op_words()
    ensures
        "<"@.len() == 1,
        "<"@[0] == '<',
        "|"@.len() == 1,
        "|"@[0] == '|',
        ">"@.len() == 1,
        ">"@[0] == '>',
        ">>"@.len() == 2,
        ">>"@[0] == '>',
        "&&"@.len() == 2,
        "&&"@[0] == '&',
        "||"@.len() == 2,
        "||"@[0] == '|',
        ";"@.len() == 1,
        ";"@[0] == ';',
        "&"@.len() == 1,
        "&"@[0] == '&',
        "("@.len() == 1,
        "("@[0] == '(',
        ")"@.len() == 1,
        ")"@[0] == ')',
        "if"@.len() == 2,
        "if"@[0] == 'i',
        "end"@.len() == 3,
        "end"@[0] == 'e',
{
    reveal_strlit("<");
    reveal_strlit("|");
    reveal_strlit(">");
    reveal_strlit(">>");
    reveal_strlit("&&");
    reveal_strlit("||");
    reveal_strlit(";");
    reveal_strlit("&");
    reveal_strlit("(");
    reveal_strlit(")");
    reveal_strlit("if");
    reveal_strlit("end");
    assert("<"@.len() == 1 && "<"@[0] == '<');
    assert("|"@.len() == 1 && "|"@[0] == '|');
    assert(">"@.len() == 1 && ">"@[0] == '>');
    assert(">>"@.len() == 2 && ">>"@[0] == '>');
    assert("&&"@.len() == 2 && "&&"@[0] == '&');
    assert("||"@.len() == 2 && "||"@[0] == '|');
    assert(";"@.len() == 1 && ";"@[0] == ';');
    assert("&"@.len() == 1 && "&"@[0] == '&');
    assert("("@.len() == 1 && "("@[0] == '(');
    assert(")"@.len() == 1 && ")"@[0] == ')');
    assert("if"@.len() == 2 && "if"@[0] == 'i');
    assert("end"@.len() == 3 && "end"@[0] == 'e');
}

/// How strongly the operators bind: `<` binds tightest, then `|`, then `>`
/// and `>>`, then `&&` and `||`, then `;`, and `&` loosest; any other word
/// is no operator.
pub proof fn law_operator_priorities(w: Seq<char>)
    ensures
        priority_spec("<"@) < priority_spec("|"@),
        priority_spec("|"@) < priority_spec(">"@),
        priority_spec(">"@) == priority_spec(">>"@),
        priority_spec(">>"@) < priority_spec("&&"@),
        priority_spec("&&"@) == priority_spec("||"@),
        priority_spec("||"@) < priority_spec(";"@),
        priority_spec(";"@) < priority_spec("&"@),
        priority_spec("<"@) > 0,
        plain_word(w) ==> priority_spec(w) == 0,
{
    lemma_op_words();
}

proof fn lemma_scan_plain(l: Seq<Seq<char>>, lo: nat, k: nat)
    requires
        lo <= k <= l.len(),
        forall|i: int| lo <= i < k ==> plain_word(#[trigger] l[i]),
        scan_upto(l, lo).c_parent == 0,
        scan_upto(l, lo).c_cond == 0,
        scan_upto(l, lo).priority >= 0,
    ensures
        scan_upto(l, k) == scan_upto(l, lo),
    decreases k,
{
    if k > lo {
        lemma_scan_plain(l, lo, (k - 1) as nat);
        assert(plain_word(l[k - 1]));
        law_operator_priorities(l[k - 1]);
    }
}

/// `a > f && c`: `&&` binds more loosely than `>`, so the line is a chain
/// whose first command is `a` redirected to `f` and whose second is `c`
/// (for words `a`, `f`, `c` that hold no operator).
pub proof fn law_redirect_then_and(a: Seq<Seq<char>>, f: Seq<char>, c: Seq<Seq<char>>)
    requires
        a.len() > 0,
        c.len() > 0,
        plain_words(a),
        plain_word(f),
        plain_words(c),
    ensures
        parse_spec(a + seq![">"@, f, "&&"@] + c) == (match (parse_spec(a), parse_spec(c)) {
            (Some((x, e1)), Some((y, e2))) => Some((
                CmdV::Chain {
                    command1: Box::new(CmdV::Redirect { command: Box::new(x), redirect: Redirect::Out, path: f }),
                    command2: Box::new(y),
                    chain: Chain::And,
                },
                e1 + e2,
            )),
            _ => None,
        }),
{
    lemma_op_words();
    let na = a.len() as int;
    let l = a + seq![">"@, f, "&&"@] + c;
    let l1 = a + seq![">"@, f];
    law_operator_priorities(f);
    // the scan of the whole line
    assert forall|i: int| 0 <= i < na implies plain_word(#[trigger] l[i]) by {
        assert(l[i] == a[i]);
    }
    lemma_scan_plain(l, 0, na as nat);
    assert(scan_upto(l, na as nat) == (Scan { ind: 0, priority: 1, c_parent: 0, c_cond: 0 }));
    assert(l[na] == ">"@);
    assert(scan_upto(l, (na + 1) as nat) == (Scan { ind: na, priority: 4, c_parent: 0, c_cond: 0 }));
    assert(l[na + 1] == f);
    lemma_scan_plain(l, (na + 1) as nat, (na + 2) as nat);
    assert(l[na + 2] == "&&"@);
    assert(scan_upto(l, (na + 3) as nat) == (Scan { ind: na + 2, priority: 5, c_parent: 0, c_cond: 0 }));
    assert forall|i: int| na + 3 <= i < l.len() implies plain_word(#[trigger] l[i]) by {
        assert(l[i] == c[i - na - 3]);
    }
    lemma_scan_plain(l, (na + 3) as nat, l.len());
    assert(l.subrange(0, na + 2) =~= l1);
    assert(l.subrange(na + 3, l.len() as int) =~= c);
    // the scan of the left part
    assert forall|i: int| 0 <= i < na implies plain_word(#[trigger] l1[i]) by {
        assert(l1[i] == a[i]);
    }
    lemma_scan_plain(l1, 0, na as nat);
    assert(l1[na] == ">"@);
    assert(scan_upto(l1, (na + 1) as nat) == (Scan { ind: na, priority: 4, c_parent: 0, c_cond: 0 }));
    assert(l1[na + 1] == f);
    lemma_scan_plain(l1, (na + 1) as nat, (na + 2) as nat);
    assert(l1.subrange(0, na) =~= a);
    assert(scan_upto(l1, l1.len()).ind == na);
    assert(parse_spec(l1) == redirect_spec(l1, na, Redirect::Out));
    assert(scan_upto(l, l.len()).ind == na + 2);
    assert(parse_spec(l) == chain_spec(l, na + 2, Chain::And));
}

} // verus!
