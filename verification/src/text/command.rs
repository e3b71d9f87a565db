use ropey::Rope;
use vstd::prelude::*;

use crate::rope::{rope_chars, rope_clone};
use crate::text::Mode;
use crate::word::{char_is_whitespace, white_space};

verus! {

/// The name of a recorded macro.
#[derive(Debug, Clone, Copy, PartialEq, Eq, Structural)]
pub struct MacroId(pub char);

/// What the editor is asked to do.
#[derive(Debug)]
pub enum Command {
    Insert(char),
    Join,
    RemoveChar(i32),
    Mode(Mode),
    MacroStart(MacroId),
    ChangeStart,
    ChangeEnd,
    ChangeRepeat,
    CliEdit(Vec<Command>),
    CliExec,
    CliCancel,
    MacroEnd,
    Quit,
    Stop,
    Save,
    SaveAs(String),
    Open(String),
    Resume,
    Reset,
    SaveBuffer(String, Rope),
    VarGet(String),
    VarSet(String, String),
    Mouse(u16, u16),
    Scroll(i16),
    ScrollPage(i8),
    Line(i64),
    LineNav(i32),
    Resize(u16, u16),
    MoveCursorY(i32),
    MoveCursorX(i32),
    BufferNext,
    BufferPrev,
    Test,
    Refresh,
}

/// `b` is a copy of `a`: the same command, with texts holding the same characters and the
/// commands of a command-line edit copied one by one.
pub open spec fn same_command(a: Command, b: Command) -> bool
    decreases a,
{
    match a {
        Command::SaveBuffer(p, t) => b matches Command::SaveBuffer(q, u) && p@ == q@ && rope_chars(t)
            == rope_chars(u),
        Command::VarGet(x) => b matches Command::VarGet(y) && x@ == y@,
        Command::SaveAs(x) => b matches Command::SaveAs(y) && x@ == y@,
        Command::Open(x) => b matches Command::Open(y) && x@ == y@,
        Command::VarSet(x, v) => b matches Command::VarSet(y, w) && x@ == y@ && v@ == w@,
        Command::CliEdit(xs) => match b {
            Command::CliEdit(ys) => xs@.len() == ys@.len() && forall|i: int|
                0 <= i < xs@.len() ==> same_command(xs@[i], #[trigger] ys@[i]),
            _ => false,
        },
        _ => a == b,
    }
}

/// A copy of a copy is a copy.
pub proof fn lemma_same_command_trans(a: Command, b: Command, c: Command)
    requires
        same_command(a, b),
        same_command(b, c),
    ensures
        same_command(a, c),
    decreases a,
{
    if let Command::CliEdit(xs) = a {
        if let Command::CliEdit(ys) = b {
            if let Command::CliEdit(zs) = c {
                assert forall|i: int| 0 <= i < xs@.len() implies same_command(
                    xs@[i],
                    #[trigger] zs@[i],
                ) by {
                    assert(same_command(xs@[i], ys@[i]));
                    assert(same_command(ys@[i], zs@[i]));
                    lemma_same_command_trans(xs@[i], ys@[i], zs@[i]);
                }
            }
        }
    }
}

/// A copy of a command.
pub fn clone_command(c: &Command) -> (r: Command)
    ensures
        same_command(*c, r),
    decreases c,
{
    match c {
        Command::CliEdit(v) => {
            let mut out: Vec<Command> = Vec::new();
            let mut i: usize = 0;
            while i < v.len()
                invariant
                    i <= v@.len(),
                    out@.len() == i,
                    forall|j: int| 0 <= j < i ==> same_command(v@[j], #[trigger] out@[j]),
                    *c == Command::CliEdit(*v),
                decreases v@.len() - i,
            {
                proof {
                    assert(decreases_to!(*c => v@[i as int])) by {
                        assert(decreases_to!(*c => (*c)->CliEdit_0));
                        assert(decreases_to!(*v => v@));
                        assert(decreases_to!(v@ => v@[i as int]));
                    }
                }
                out.push(clone_command(&v[i]));
                i = i + 1;
            }
            Command::CliEdit(out)
        },
        Command::Insert(x) => Command::Insert(*x),
        Command::Join => Command::Join,
        Command::RemoveChar(x) => Command::RemoveChar(*x),
        Command::Mode(m) => Command::Mode(*m),
        Command::MacroStart(id) => Command::MacroStart(*id),
        Command::ChangeStart => Command::ChangeStart,
        Command::ChangeEnd => Command::ChangeEnd,
        Command::ChangeRepeat => Command::ChangeRepeat,
        Command::CliExec => Command::CliExec,
        Command::CliCancel => Command::CliCancel,
        Command::MacroEnd => Command::MacroEnd,
        Command::Quit => Command::Quit,
        Command::Stop => Command::Stop,
        Command::Save => Command::Save,
        Command::Resume => Command::Resume,
        Command::Reset => Command::Reset,
        Command::SaveBuffer(p, t) => Command::SaveBuffer(p.clone(), rope_clone(t)),
        Command::VarGet(x) => Command::VarGet(x.clone()),
        Command::SaveAs(x) => Command::SaveAs(x.clone()),
        Command::Open(x) => Command::Open(x.clone()),
        Command::VarSet(x, v) => Command::VarSet(x.clone(), v.clone()),
        Command::Mouse(x, y) => Command::Mouse(*x, *y),
        Command::Scroll(d) => Command::Scroll(*d),
        Command::ScrollPage(d) => Command::ScrollPage(*d),
        Command::Line(l) => Command::Line(*l),
        Command::LineNav(x) => Command::LineNav(*x),
        Command::Resize(x, y) => Command::Resize(*x, *y),
        Command::MoveCursorY(d) => Command::MoveCursorY(*d),
        Command::MoveCursorX(d) => Command::MoveCursorX(*d),
        Command::BufferNext => Command::BufferNext,
        Command::BufferPrev => Command::BufferPrev,
        Command::Test => Command::Test,
        Command::Refresh => Command::Refresh,
    }
}

/// `b` copies the commands of `a` one by one, in order.
pub open spec fn same_commands(a: Seq<Command>, b: Seq<Command>) -> bool {
    a.len() == b.len() && forall|i: int| 0 <= i < a.len() ==> same_command(a[i], #[trigger] b[i])
}

/// A copy of a list of commands.
pub fn clone_commands(v: &[Command]) -> (r: Vec<Command>)
    ensures
        same_commands(v@, r@),
{
    let mut out: Vec<Command> = Vec::new();
    let mut i: usize = 0;
    while i < v.len()
        invariant
            i <= v@.len(),
            out@.len() == i,
            forall|j: int| 0 <= j < i ==> same_command(v@[j], #[trigger] out@[j]),
        decreases v@.len() - i,
    {
        out.push(clone_command(&v[i]));
        i = i + 1;
    }
    out
}

impl Clone for Command {
    fn clone(&self) -> (c: Self)
        ensures
            same_command(*self, c),
    {
        clone_command(self)
    }
}

/// A command line that does not parse.
#[derive(Debug, Clone, Copy, PartialEq, Eq, Structural)]
pub enum CommandError {
    Error,
}

/// The words of `s`: its longest stretches of characters that are not white space, in order.
pub open spec fn words(s: Seq<char>) -> Seq<Seq<char>>
    decreases s.len(),
{
    if s.len() == 0 {
        seq![]
    } else {
        let w = words(s.drop_last());
        let c = s.last();
        if white_space(c) {
            w
        } else if s.len() >= 2 && !white_space(s[s.len() - 2]) {
            w.update(w.len() - 1, w.last().push(c))
        } else {
            w.push(seq![c])
        }
    }
}

/// The word `set`.
pub open spec fn set_word() -> Seq<char> {
    seq!['s', 'e', 't']
}

/// What a command line asks for: with `set` and one name, the value of that variable; with
/// `set`, a name and a value (and possibly more words, which are ignored), setting it; any
/// other line is an error.
pub open spec fn parse_spec(line: Seq<char>) -> Option<(bool, Seq<char>, Seq<char>)> {
    let w = words(line);
    if w.len() < 2 || w[0] != set_word() {
        None
    } else if w.len() == 2 {
        Some((false, w[1], Seq::empty()))
    } else {
        Some((true, w[1], w[2]))
    }
}

/// Cuts `input` into its words.
fn split_words(input: &str) -> (out: Vec<String>)
    ensures
        out@.len() == words(input@).len(),
        forall|i: int| 0 <= i < out@.len() ==> (#[trigger] out@[i])@ == words(input@)[i],
{
    let mut out: Vec<String> = Vec::new();
    let mut cur = String::new();
    let mut in_word = false;
    let ghost s = input@;
    for c in it: input.chars()
        invariant
            it.seq() == s,
            ({
                let w = words(s.take(it.index() as int));
                &&& in_word ==> w.len() == out@.len() + 1 && w.last() == cur@ && it.index() > 0
                    && !white_space(s[it.index() - 1])
                &&& !in_word ==> w.len() == out@.len() && cur@.len() == 0 && (it.index() > 0
                    ==> white_space(s[it.index() - 1]))
                &&& forall|i: int| 0 <= i < out@.len() ==> (#[trigger] out@[i])@ == w[i]
            }),
    {
        let ghost k = it.index() as int;
        let ghost before = words(s.take(k));
        proof {
            assert(s.take(k + 1).drop_last() =~= s.take(k));
            assert(s.take(k + 1).last() == c);
            if k > 0 {
                assert(s.take(k + 1)[k - 1] == s[k - 1]);
            }
        }
        if char_is_whitespace(c) {
            if in_word {
                out.push(cur);
                cur = String::new();
                in_word = false;
            }
        } else {
            crate::strings::string_push(&mut cur, c);
            in_word = true;
        }
        proof {
            let w = words(s.take(k + 1));
            assert forall|i: int| 0 <= i < out@.len() implies (#[trigger] out@[i])@ == w[i] by {
                if !white_space(c) && i == out@.len() - 1 {
                } else {
                }
            }
        }
    }
    if in_word {
        out.push(cur);
    }
    proof {
        assert(s.take(s.len() as int) =~= s);
    }
    out
}

/// Whether a word is `set`.
fn is_set(w: &String) -> (b: bool)
    ensures
        b == (w@ == set_word()),
{
    let s = w.as_str();
    let mut cs: Vec<char> = Vec::new();
    for c in it: s.chars()
        invariant
            it.seq() == w@,
            cs@ == w@.take(it.index() as int),
    {
        let ghost i = it.index() as int;
        cs.push(c);
        assert(cs@ =~= w@.take(i + 1));
    }
    assert(w@.take(w@.len() as int) =~= w@);
    if cs.len() == 3 && cs[0] == 's' && cs[1] == 'e' && cs[2] == 't' {
        assert(cs@ =~= set_word());
        true
    } else {
        proof {
            if w@ == set_word() {
                assert(cs@[0] == 's' && cs@[1] == 'e' && cs@[2] == 't');
            }
        }
        false
    }
}

/// Parses a command line: `set NAME` asks for a variable's value and `set NAME VALUE` sets
/// it (words after the value are ignored); anything else is an error.
pub fn command_parse(input: &str) -> (r: Result<Vec<Command>, CommandError>)
    ensures
        match parse_spec(input@) {
            None => r == Err::<Vec<Command>, CommandError>(CommandError::Error),
            Some((set, name, value)) => r matches Ok(v) && v@.len() == 1 && if set {
                v@[0] matches Command::VarSet(n, x) && n@ == name && x@ == value
            } else {
                v@[0] matches Command::VarGet(n) && n@ == name
            },
        },
{
    let parts = split_words(input);
    if parts.len() < 2 {
        return Err(CommandError::Error);
    }
    if !is_set(&parts[0]) {
        return Err(CommandError::Error);
    }
    if parts.len() == 2 {
        Ok(vec![Command::VarGet(parts[1].clone())])
    } else {
        Ok(vec![Command::VarSet(parts[1].clone(), parts[2].clone())])
    }
}

} // verus!
