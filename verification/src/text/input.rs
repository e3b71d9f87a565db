use std::collections::VecDeque;
use vstd::prelude::*;

use crate::text::command::{
    clone_command, clone_commands, lemma_same_command_trans, same_command, same_commands, Command,
    MacroId,
};
use crate::text::Mode;

verus! {

/// The change history: the last changes that were made, newest first, so that they can be
/// repeated later, and the change that is being recorded.
pub struct SimpleHistory {
    h: VecDeque<Vec<Command>>,
    acc: Vec<Command>,
    size: usize,
    record: bool,
}

/// `xs` with `x` put in front, cut to at most `size` entries.
pub open spec fn push_newest(xs: Seq<Seq<Command>>, x: Seq<Command>, size: nat) -> Seq<
    Seq<Command>,
> {
    let ys = seq![x] + xs;
    if ys.len() > size {
        ys.take(size as int)
    } else {
        ys
    }
}

/// The history keeps changes newest first: after storing `x`, it comes first, the changes
/// kept before follow in their order, and no more than `size` are kept.
pub proof fn lemma_newest_first(xs: Seq<Seq<Command>>, x: Seq<Command>, size: nat)
    requires
        size > 0,
        xs.len() <= size,
    ensures
        push_newest(xs, x, size)[0] == x,
        push_newest(xs, x, size).len() <= size,
        push_newest(xs, x, size).len() == if xs.len() < size { xs.len() + 1 } else { size },
        forall|i: int| 0 <= i < push_newest(xs, x, size).len() - 1 ==> push_newest(xs, x, size)[i + 1] == xs[i],
{
}

/// `new` is `old` with a copy of `e` recorded, if a change is being recorded.
pub open spec fn added_elem(old: SimpleHistory, new: SimpleHistory, e: Command) -> bool {
    &&& new.entries() == old.entries()
    &&& new.limit() == old.limit()
    &&& new.recording() == old.recording()
    &&& if old.recording() {
        &&& new.pending().len() == old.pending().len() + 1
        &&& new.pending().take(old.pending().len() as int) == old.pending()
        &&& same_command(e, new.pending().last())
    } else {
        new.pending() == old.pending()
    }
}

/// `new` is `old` after the recorded change was closed: it becomes the newest entry when it
/// holds any command, and recording stops.
pub open spec fn ended_change(old: SimpleHistory, new: SimpleHistory) -> bool {
    &&& new.limit() == old.limit()
    &&& !new.recording()
    &&& new.pending().len() == 0
    &&& new.entries() == if old.pending().len() > 0 {
        push_newest(old.entries(), old.pending(), old.limit())
    } else {
        old.entries()
    }
}

/// `hs` are the history's states while `es` are added one by one: each step records a copy
/// of the next command.
pub open spec fn elems_added(hs: Seq<SimpleHistory>, es: Seq<Command>) -> bool {
    &&& hs.len() == es.len() + 1
    &&& forall|j: int| 0 <= j < es.len() ==> added_elem(#[trigger] hs[j], hs[j + 1], es[j])
}

/// While a change is recorded, adding commands one by one appends a copy of each, in order,
/// to the change being recorded and leaves the stored changes alone.
proof fn lemma_elems_added(hs: Seq<SimpleHistory>, es: Seq<Command>, k: int)
    requires
        elems_added(hs, es),
        hs[0].recording(),
        0 <= k <= es.len(),
    ensures
        hs[k].recording(),
        hs[k].entries() == hs[0].entries(),
        hs[k].limit() == hs[0].limit(),
        hs[k].pending().len() == hs[0].pending().len() + k,
        hs[k].pending().take(hs[0].pending().len() as int) == hs[0].pending(),
        forall|j: int| 0 <= j < k ==> same_command(es[j], #[trigger] hs[k].pending()[hs[0].pending().len() + j]),
    decreases k,
{
    if k > 0 {
        lemma_elems_added(hs, es, k - 1);
        let a = hs[k - 1];
        let b = hs[k];
        assert(added_elem(a, b, es[k - 1]));
        let n0 = hs[0].pending().len() as int;
        assert(b.pending().take(a.pending().len() as int) == a.pending());
        assert forall|j: int| 0 <= j < k implies same_command(es[j], #[trigger] b.pending()[n0 + j]) by {
            if j < k - 1 {
                assert(b.pending()[n0 + j] == b.pending().take(a.pending().len() as int)[n0 + j]);
            }
        }
        assert(b.pending().take(n0) =~= a.pending().take(n0)) by {
            assert forall|j: int| 0 <= j < n0 implies b.pending().take(n0)[j] == a.pending().take(n0)[j] by {
                assert(b.pending()[j] == b.pending().take(a.pending().len() as int)[j]);
            }
        }
    }
}

/// A whole recorded change: after `change_start`, adding the commands `es` one by one and
/// `change_end`, the change (what was pending before, then copies of `es` in order) becomes
/// the newest stored change, the older ones follow, at most `limit` are kept, and recording
/// stops; when nothing was recorded the stored changes stay as they were.
pub proof fn lemma_recorded_change(
    h0: SimpleHistory,
    h1: SimpleHistory,
    hs: Seq<SimpleHistory>,
    es: Seq<Command>,
    h2: SimpleHistory,
)
    requires
        h0.wf(),
        h1.recording(),
        h1.entries() == h0.entries(),
        h1.pending() == h0.pending(),
        h1.limit() == h0.limit(),
        elems_added(hs, es),
        hs[0] == h1,
        ended_change(hs.last(), h2),
    ensures
        !h2.recording(),
        h2.pending().len() == 0,
        h2.limit() == h0.limit(),
        h2.entries().len() <= h0.limit(),
        h0.pending().len() + es.len() == 0 ==> h2.entries() == h0.entries(),
        h0.pending().len() + es.len() > 0 ==> {
            let p = hs.last().pending();
            &&& h2.entries() == push_newest(h0.entries(), p, h0.limit())
            &&& p.len() == h0.pending().len() + es.len()
            &&& p.take(h0.pending().len() as int) == h0.pending()
            &&& forall|j: int| 0 <= j < es.len() ==> same_command(es[j], #[trigger] p[h0.pending().len() + j])
        },
{
    lemma_elems_added(hs, es, es.len() as int);
    assert(hs.last() == hs[es.len() as int]);
    let p = hs.last().pending();
    if p.len() > 0 {
        assert(push_newest(h0.entries(), p, h0.limit()).len() <= h0.limit());
    }
}

impl SimpleHistory {
    /// The stored changes, newest first.
    pub closed spec fn entries(self) -> Seq<Seq<Command>> {
        self.h@.map_values(|v: Vec<Command>| v@)
    }

    /// The commands of the change being recorded.
    pub closed spec fn pending(self) -> Seq<Command> {
        self.acc@
    }

    /// How many changes are kept.
    pub closed spec fn limit(self) -> nat {
        self.size as nat
    }

    /// Whether a change is being recorded.
    pub closed spec fn recording(self) -> bool {
        self.record
    }

    /// No more changes are stored than are kept.
    pub open spec fn wf(self) -> bool {
        self.entries().len() <= self.limit()
    }

    /// Stores a change as the newest one, dropping the oldest one when more than `limit` are
    /// stored.
    pub fn add(&mut self, v: Vec<Command>)
        requires
            old(self).wf(),
        ensures
            final(self).wf(),
            final(self).entries() == push_newest(old(self).entries(), v@, old(self).limit()),
            final(self).pending() == old(self).pending(),
            final(self).limit() == old(self).limit(),
            final(self).recording() == old(self).recording(),
    {
        let ghost before = self.entries();
        let ghost x = v@;
        self.h.push_front(v);
        proof {
            assert(self.entries() =~= seq![x] + before);
        }
        if self.h.len() > self.size {
            let _ = self.h.pop_back();
            proof {
                assert(self.entries() =~= (seq![x] + before).take(self.size as int));
            }
        }
    }

    /// A copy of the newest stored change, if there is one.
    pub fn front(&self) -> (r: Option<Vec<Command>>)
        ensures
            r is None <==> self.entries().len() == 0,
            r matches Some(v) ==> same_commands(self.entries()[0], v@),
    {
        if self.h.len() == 0 {
            None
        } else {
            Some(clone_commands(self.h[0].as_slice()))
        }
    }

    /// Records a copy of `e` in the change being recorded, if there is one.
    pub fn add_elem(&mut self, e: &Command)
        ensures
            added_elem(*old(self), *final(self), *e),
    {
        if self.record {
            let ghost before = self.acc@;
            self.acc.push(clone_command(e));
            assert(self.acc@.take(before.len() as int) =~= before);
        }
    }

    /// Records copies of `es` in the change being recorded, if there is one.
    pub fn add_acc(&mut self, es: &[Command])
        ensures
            final(self).entries() == old(self).entries(),
            final(self).limit() == old(self).limit(),
            final(self).recording() == old(self).recording(),
            old(self).recording() ==> final(self).pending().take(old(self).pending().len() as int)
                == old(self).pending() && same_commands(
                es@,
                final(self).pending().skip(old(self).pending().len() as int),
            ),
            !old(self).recording() ==> final(self).pending() == old(self).pending(),
    {
        if self.record {
            let ghost before = self.acc@;
            let mut more = clone_commands(es);
            self.acc.append(&mut more);
            proof {
                assert(self.acc@.take(before.len() as int) =~= before);
                assert(self.acc@.skip(before.len() as int) =~= self.acc@.subrange(
                    before.len() as int,
                    self.acc@.len() as int,
                ));
            }
        }
    }

    /// Closes the change being recorded: when it holds any command it becomes the newest stored
    /// change; recording stops either way.
    pub fn change_end(&mut self)
        requires
            old(self).wf(),
        ensures
            final(self).wf(),
            ended_change(*old(self), *final(self)),
    {
        if self.acc.len() > 0 {
            let mut done: Vec<Command> = Vec::new();
            std::mem::swap(&mut done, &mut self.acc);
            self.add(done);
        }
        self.record = false;
    }

    /// Starts recording a change.
    pub fn change_start(&mut self)
        ensures
            final(self).recording(),
            final(self).entries() == old(self).entries(),
            final(self).pending() == old(self).pending(),
            final(self).limit() == old(self).limit(),
    {
        self.record = true;
    }
}

impl Default for SimpleHistory {
    /// An empty history that keeps ten changes and records nothing.
    fn default() -> (h: Self)
        ensures
            h.wf(),
            h.entries().len() == 0,
            h.pending().len() == 0,
            h.limit() == 10,
            !h.recording(),
    {
        let h = SimpleHistory { h: VecDeque::new(), acc: Vec::new(), size: 10, record: false };
        assert(h.entries() =~= Seq::<Seq<Command>>::empty());
        h
    }
}

/// What the input side of the editor keeps between key strokes: whether it has quit, the
/// mode, the macro being recorded and the change history.
pub struct InputReader {
    pub quit: bool,
    pub mode: Mode,
    pub record: Option<MacroId>,
    pub history: SimpleHistory,
}

impl InputReader {
    /// The state before the first key: not quit, normal mode, no macro, an empty history.
    pub fn new() -> (s: Self)
        ensures
            !s.quit,
            s.mode == Mode::Normal,
            s.record is None,
            s.history.wf(),
            s.history.entries().len() == 0,
            s.history.pending().len() == 0,
            !s.history.recording(),
    {
        InputReader {
            quit: false,
            mode: Mode::Normal,
            record: None,
            history: SimpleHistory::default(),
        }
    }

    /// Whether `Quit` was seen.
    pub fn is_quit(&self) -> (q: bool)
        ensures
            q == self.quit,
    {
        self.quit
    }
}

/// What the caller has to do after the commands of a key sequence were handled: send these
/// commands to the editor, in order, and clear the queue of pending keys, or the whole parser
/// state, when asked.
pub struct InputAction {
    pub send: Vec<Command>,
    pub clear_queue: bool,
    pub reset_state: bool,
}

/// The parts of the input state that a command leaves alone unless it is about them.
pub open spec fn same_input(a: InputReader, b: InputReader) -> bool {
    &&& a.quit == b.quit
    &&& a.mode == b.mode
    &&& a.record == b.record
    &&& a.history == b.history
}

/// What handling command `c` does, from reader `st` and action `act` to `st2` and `act2`:
/// `Quit` is sent and sets `quit`; `Reset` asks for the queue and the parser state to be
/// cleared; the macro and change commands update the record and the history; `ChangeRepeat`
/// sends a copy of the newest change and clears the queue; `Mode` switches the mode, is
/// recorded and sent; every other command is recorded and a copy of it sent.
pub open spec fn command_effect(
    st: InputReader,
    act: InputAction,
    c: Command,
    st2: InputReader,
    act2: InputAction,
) -> bool {
    &&& st2.history.wf()
    &&& act2.reset_state == (act.reset_state || c is Reset)
    &&& match c {
        Command::Quit => {
            &&& st2.quit
            &&& act2.send@ =~= act.send@.push(Command::Quit)
            &&& act2.clear_queue == act.clear_queue
            &&& st2.mode == st.mode && st2.record == st.record
            &&& st2.history == st.history
        },
        Command::Reset => {
            &&& act2.send@ =~= act.send@
            &&& act2.clear_queue
            &&& same_input(st2, st)
        },
        Command::MacroStart(id) => {
            &&& act2.send@ =~= act.send@
            &&& act2.clear_queue == act.clear_queue
            &&& st2.record == Some(id)
            &&& st2.quit == st.quit && st2.mode == st.mode
            &&& st2.history == st.history
        },
        Command::MacroEnd => {
            &&& act2.send@ =~= act.send@
            &&& act2.clear_queue == act.clear_queue
            &&& st2.record is None
            &&& st2.quit == st.quit && st2.mode == st.mode
            &&& st2.history == st.history
        },
        Command::ChangeStart => {
            &&& act2.send@ =~= act.send@
            &&& act2.clear_queue == act.clear_queue
            &&& st2.history.recording()
            &&& st2.history.entries() =~= st.history.entries()
            &&& st2.history.pending() =~= st.history.pending()
            &&& st2.history.limit() == st.history.limit()
            &&& st2.quit == st.quit && st2.mode == st.mode
            &&& st2.record == st.record
        },
        Command::ChangeEnd => {
            &&& act2.send@ =~= act.send@
            &&& act2.clear_queue == act.clear_queue
            &&& ended_change(st.history, st2.history)
            &&& st2.quit == st.quit && st2.mode == st.mode
            &&& st2.record == st.record
        },
        Command::ChangeRepeat => {
            let n = act.send@.len();
            &&& act2.send@.take(n as int) =~= act.send@
            &&& if st.history.entries().len() > 0 {
                same_commands(st.history.entries()[0], act2.send@.skip(n as int))
            } else {
                act2.send@.len() == n
            }
            &&& act2.clear_queue
            &&& same_input(st2, st)
        },
        Command::Mode(m) => {
            &&& st2.mode == m
            &&& act2.send@ =~= act.send@.push(Command::Mode(m))
            &&& added_elem(st.history, st2.history, c)
            &&& act2.clear_queue
            &&& st2.quit == st.quit && st2.record == st.record
        },
        _ => {
            &&& act2.send@.len() == act.send@.len() + 1
            &&& act2.send@.take(act.send@.len() as int) =~= act.send@
            &&& same_command(c, act2.send@.last())
            &&& added_elem(st.history, st2.history, c)
            &&& act2.clear_queue
            &&& st2.quit == st.quit && st2.mode == st.mode
            &&& st2.record == st.record
        },
    }
}

/// Handles one parsed command; returns whether handling stops here (on `Quit`).
pub fn input_command(st: &mut InputReader, c: &Command, act: &mut InputAction) -> (stop: bool)
    requires
        old(st).history.wf(),
    ensures
        final(st).history.wf(),
        stop == (*c is Quit),
        final(act).reset_state == (old(act).reset_state || *c is Reset),
        command_effect(*old(st), *old(act), *c, *final(st), *final(act)),

{
    match c {
        Command::Quit => {
            act.send.push(Command::Quit);
            st.quit = true;
            true
        },
        Command::Reset => {
            act.clear_queue = true;
            act.reset_state = true;
            false
        },
        Command::MacroStart(id) => {
            st.record = Some(*id);
            false
        },
        Command::MacroEnd => {
            st.record = None;
            false
        },
        Command::ChangeStart => {
            st.history.change_start();
            false
        },
        Command::ChangeEnd => {
            st.history.change_end();
            false
        },
        Command::ChangeRepeat => {
            let ghost before = act.send@;
            let ghost rs = act.reset_state;
            match st.history.front() {
                Some(v) => {
                    let mut i: usize = 0;
                    while i < v.len()
                        invariant
                            i <= v@.len(),
                            act.send@.len() == before.len() + i,
                            act.send@.take(before.len() as int) == before,
                            act.reset_state == rs,
                            forall|j: int|
                                0 <= j < i ==> same_command(
                                    v@[j],
                                    #[trigger] act.send@[before.len() + j],
                                ),
                        decreases v@.len() - i,
                    {
                        let ghost prev = act.send@;
                        act.send.push(clone_command(&v[i]));
                        proof {
                            assert(act.send@.take(before.len() as int) =~= prev.take(
                                before.len() as int,
                            ));
                        }
                        i = i + 1;
                    }
                    proof {
                        let tail = act.send@.skip(before.len() as int);
                        let e = st.history.entries()[0];
                        assert forall|j: int| 0 <= j < e.len() implies same_command(
                            e[j],
                            #[trigger] tail[j],
                        ) by {
                            assert(tail[j] == act.send@[before.len() + j]);
                            lemma_same_command_trans(e[j], v@[j], tail[j]);
                        }
                    }
                },
                None => {},
            }
            act.clear_queue = true;
            false
        },
        Command::Mode(m) => {
            st.mode = *m;
            act.send.push(Command::Mode(*m));
            st.history.add_elem(c);
            act.clear_queue = true;
            false
        },
        _ => {
            st.history.add_elem(c);
            act.send.push(clone_command(c));
            act.clear_queue = true;
            false
        },
    }
}

/// No command before position `n` is `Quit`.
pub open spec fn no_quit_before(cmds: Seq<Command>, n: int) -> bool {
    forall|j: int| 0 <= j < n ==> !(#[trigger] cmds[j] is Quit)
}

/// `sts` and `acts` are the readers and actions, step by step, while the commands `cmds` are
/// handled from reader `st0` and an empty action: each step is the effect of one command, and
/// none but the last command handled is `Quit`.
pub open spec fn input_trace(
    st0: InputReader,
    cmds: Seq<Command>,
    sts: Seq<InputReader>,
    acts: Seq<InputAction>,
) -> bool {
    let n = sts.len() - 1;
    &&& sts.len() >= 1
    &&& acts.len() == sts.len()
    &&& n <= cmds.len()
    &&& sts[0] == st0
    &&& acts[0].send@.len() == 0 && !acts[0].clear_queue && !acts[0].reset_state
    &&& forall|j: int|
        0 <= j < n ==> command_effect(
            #[trigger] sts[j],
            acts[j],
            cmds[j],
            sts[j + 1],
            acts[j + 1],
        )
    &&& no_quit_before(cmds, n - 1)
}

/// Handling `cmds` from reader `st0` ends in reader `st` with action `out`: the steps go on to
/// the end of `cmds`, or stop right after the first `Quit`.
pub open spec fn input_run(st0: InputReader, cmds: Seq<Command>, st: InputReader, out: InputAction) -> bool {
    exists|sts: Seq<InputReader>, acts: Seq<InputAction>|
        #[trigger] input_trace(st0, cmds, sts, acts) && sts.last() == st && acts.last() == out && (
        sts.len() - 1 == cmds.len() || (sts.len() >= 2 && cmds[sts.len() - 2] is Quit))
}

impl InputReader {
    /// Handles the commands that one key sequence was parsed into, in order, and stops after the
    /// first `Quit`: `Quit` is sent alone and sets `quit`, `Reset` asks for the parser state to be
    /// cleared, macro and change commands update the state, `ChangeRepeat` sends the newest
    /// recorded change again, `Mode` switches the mode, and every other command is recorded and
    /// sent (see `input_command` for each of them).
    pub fn add(&mut self, cmds: Vec<Command>) -> (out: InputAction)
        requires
            old(self).history.wf(),
        ensures
            final(self).history.wf(),
            final(self).quit == (old(self).quit || exists|i: int|
                0 <= i < cmds@.len() && #[trigger] cmds@[i] is Quit),
            (exists|i: int| 0 <= i < cmds@.len() && #[trigger] cmds@[i] is Quit) ==> out.send@.len()
                > 0 && out.send@.last() == Command::Quit,
            out.reset_state == exists|i: int|
                0 <= i < cmds@.len() && #[trigger] cmds@[i] is Reset && no_quit_before(cmds@, i),
            cmds@.len() == 0 ==> out.send@.len() == 0 && !out.clear_queue && same_input(
                *final(self),
                *old(self),
            ),
            input_run(*old(self), cmds@, *final(self), out),
    {
        let mut act = InputAction { send: Vec::new(), clear_queue: false, reset_state: false };
        let mut i: usize = 0;
        let ghost mut sts: Seq<InputReader> = seq![*self];
        let ghost mut acts: Seq<InputAction> = seq![act];
        while i < cmds.len()
            invariant
                i <= cmds@.len(),
                sts.len() == i + 1,
                input_trace(*old(self), cmds@, sts, acts),
                sts.last() == *self,
                acts.last() == act,
                self.history.wf(),
                no_quit_before(cmds@, i as int),
                self.quit == old(self).quit,
                act.reset_state == exists|j: int| 0 <= j < i && #[trigger] cmds@[j] is Reset,
                i == 0 ==> act.send@.len() == 0 && !act.clear_queue && same_input(*self, *old(self)),
            decreases cmds@.len() - i,
        {
            let ghost was_quit = self.quit;
            let ghost sts0 = sts;
            let ghost acts0 = acts;
            let stop = input_command(self, &cmds[i], &mut act);
            proof {
                sts = sts.push(*self);
                acts = acts.push(act);
                assert forall|j: int| 0 <= j < i + 1 implies command_effect(
                    #[trigger] sts[j],
                    acts[j],
                    cmds@[j],
                    sts[j + 1],
                    acts[j + 1],
                ) by {
                    if j < i {
                        assert(sts[j] == sts0[j] && sts[j + 1] == sts0[j + 1]);
                        assert(acts[j] == acts0[j] && acts[j + 1] == acts0[j + 1]);
                    }
                }
            }
            if stop {
                proof {
                    assert(cmds@[i as int] is Quit);
                    assert forall|j: int|
                        0 <= j < cmds@.len() && #[trigger] cmds@[j] is Reset implies no_quit_before(
                        cmds@,
                        j,
                    ) == (j < i) by {
                        if j > i {
                            assert(cmds@[i as int] is Quit);
                        }
                    }
                    assert(input_trace(*old(self), cmds@, sts, acts));
                }
                return act;
            }
            proof {
                assert(!(cmds@[i as int] is Quit));
                assert(self.quit == was_quit) by {
                    match cmds@[i as int] {
                        _ => {},
                    }
                }
            }
            i = i + 1;
        }
        proof {
            assert forall|j: int| 0 <= j < cmds@.len() implies !(#[trigger] cmds@[j] is Quit) by {
                assert(no_quit_before(cmds@, i as int));
            }
            assert(input_trace(*old(self), cmds@, sts, acts));
        }
        act
    }
}

} // verus!
