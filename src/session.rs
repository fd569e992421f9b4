use vstd::prelude::*;
use vstd::string::{StrSliceExecFns, StringExecFns};
use crate::shell::{
    Effect, chown_usage, copy_strings, effects_of, effects_view, parsed, remove_char, strip_char, Commands, SystemCall,
    VarTable,
};
use crate::storage::{
    cd_target, names_along, node_name, owner_updated, path_string, Listing, Resolution, VFSNode,
    VfsError, VFS,
};
use crate::text::{literal, push_char, strs};

verus! {

/// How many submitted lines the history keeps.
pub const HISTORY_CAPACITY: usize = 30;

/// The last `n` items of `s`, or all of them if there are fewer.
pub open spec fn last_n<A>(s: Seq<A>, n: int) -> Seq<A> {
    if s.len() > n {
        s.subrange(s.len() - n, s.len() as int)
    } else {
        s
    }
}

/// The submitted lines, oldest first, at most `HISTORY_CAPACITY` of them.
#[derive(Debug)]
pub struct CommandHistory {
    entries: Vec<String>,
}

impl CommandHistory {
    pub closed spec fn lines(self) -> Seq<Seq<char>> {
        strs(self.entries@)
    }

    pub open spec fn wf(self) -> bool {
        self.lines().len() <= HISTORY_CAPACITY
    }

    pub fn new() -> (r: CommandHistory)
        ensures
            r.wf(),
            r.lines() == Seq::<Seq<char>>::empty(),
    {
        let r = CommandHistory { entries: Vec::new() };
        assert(r.lines() =~= Seq::<Seq<char>>::empty());
        r
    }

    /// Appends `line`, dropping the oldest line once there are more than
    /// `HISTORY_CAPACITY`.
    pub fn push(&mut self, line: String)
        requires
            old(self).wf(),
        ensures
            final(self).wf(),
            final(self).lines() == last_n(old(self).lines().push(line@), HISTORY_CAPACITY as int),
    {
        let ghost before = self.lines();
        self.entries.push(line);
        assert(self.lines() =~= before.push(line@));
        if self.entries.len() > HISTORY_CAPACITY {
            let ghost full = self.lines();
            self.entries.remove(0);
            assert(self.lines() =~= full.subrange(1, full.len() as int));
        }
    }

    pub fn len(&self) -> (r: usize)
        ensures
            r == self.lines().len(),
    {
        self.entries.len()
    }

    /// The line at `i`, oldest first.
    pub fn get(&self, i: usize) -> (r: &String)
        requires
            i < self.lines().len(),
        ensures
            r@ == self.lines()[i as int],
    {
        &self.entries[i]
    }
}

/// The decimal digits, in order of value.
pub const DIGITS: &'static str = "0123456789";

pub open spec fn digit_char(d: int) -> char {
    DIGITS@[d]
}

/// `n` in decimal.
pub open spec fn decimal(n: nat) -> Seq<char>
    decreases n,
{
    if n < 10 {
        seq![digit_char(n as int)]
    } else {
        decimal(n / 10).push(digit_char((n % 10) as int))
    }
}

fn push_decimal(s: &mut String, n: usize)
    ensures
        final(s)@ == old(s)@ + decimal(n as nat),
    decreases n,
{
    if n >= 10 {
        push_decimal(s, n / 10);
    }
    proof {
        reveal_strlit("0123456789");
    }
    let c = DIGITS.get_char(n % 10);
    push_char(s, c);
}

/// The line that shows entry `i` of `h`, counted from 1; the newest entry
/// is shown without line breaks.
pub open spec fn history_line(h: Seq<Seq<char>>, i: int) -> Seq<char> {
    let cmd = if i == h.len() - 1 {
        strip_char(h[i], '\n')
    } else {
        h[i]
    };
    decimal((i + 1) as nat) + ": "@ + cmd
}

/// `l` is a comment line of a startup script.
pub open spec fn is_comment(l: Seq<char>) -> bool {
    l.len() > 0 && l[0] == '#'
}

/// The lines of `ls` that are not comments, in order.
pub open spec fn uncommented(ls: Seq<Seq<char>>) -> Seq<Seq<char>>
    decreases ls.len(),
{
    if ls.len() == 0 {
        ls
    } else if is_comment(ls.last()) {
        uncommented(ls.drop_last())
    } else {
        uncommented(ls.drop_last()).push(ls.last())
    }
}

/// The lines of a startup script that are submitted: all but comments.
pub fn startup_commands(lines: Vec<String>) -> (r: Vec<String>)
    ensures
        strs(r@) == uncommented(strs(lines@)),
{
    let mut out: Vec<String> = Vec::new();
    let mut i: usize = 0;
    while i < lines.len()
        invariant
            i <= lines@.len(),
            strs(out@) == uncommented(strs(lines@.subrange(0, i as int))),
        decreases lines@.len() - i,
    {
        let l = &lines[i];
        assert(strs(lines@.subrange(0, i + 1)).drop_last() =~= strs(lines@.subrange(0, i as int)));
        assert(strs(lines@.subrange(0, i + 1)).last() == l@);
        if !(l.unicode_len() > 0 && l.as_str().get_char(0) == '#') {
            let ghost before = out@;
            out.push(l.clone());
            assert(strs(out@) =~= strs(before).push(l@));
        }
        i = i + 1;
    }
    assert(lines@.subrange(0, lines@.len() as int) =~= lines@);
    out
}

/// The history after each of `lines` is submitted in turn, starting from `h`.
pub open spec fn after_pushes(h: Seq<Seq<char>>, lines: Seq<Seq<char>>) -> Seq<Seq<char>>
    decreases lines.len(),
{
    if lines.len() == 0 {
        h
    } else {
        after_pushes(last_n(h.push(lines[0]), HISTORY_CAPACITY as int), lines.drop_first())
    }
}

proof fn lemma_last_n_append<A>(x: Seq<A>, y: Seq<A>, n: int)
    requires
        n >= 0,
    ensures
        last_n(last_n(x, n) + y, n) == last_n(x + y, n),
{
    if x.len() > n {
        let z = last_n(x, n) + y;
        assert(last_n(z, n) =~= last_n(x + y, n));
    }
}

/// However many lines are submitted, the history holds the most recent
/// `HISTORY_CAPACITY` of all lines so far, oldest first.
pub proof fn lemma_history_window(h: Seq<Seq<char>>, lines: Seq<Seq<char>>)
    requires
        h.len() <= HISTORY_CAPACITY,
    ensures
        after_pushes(h, lines) == last_n(h + lines, HISTORY_CAPACITY as int),
        after_pushes(h, lines).len() <= HISTORY_CAPACITY,
    decreases lines.len(),
{
    let n = HISTORY_CAPACITY as int;
    if lines.len() == 0 {
        assert(h + lines =~= h);
    } else {
        let x = h.push(lines[0]);
        let rest = lines.drop_first();
        lemma_history_window(last_n(x, n), rest);
        lemma_last_n_append(x, rest, n);
        assert(x + rest =~= h + lines);
    }
}

/// The lines that show the first `k` entries of `h`.
pub open spec fn history_text(h: Seq<Seq<char>>, k: int) -> Seq<char>
    decreases k,
{
    if k <= 0 {
        Seq::empty()
    } else {
        history_text(h, k - 1) + history_line(h, k - 1)
    }
}

/// The names of `c`, each followed by a space.
pub open spec fn names_text(c: Seq<VFSNode>) -> Seq<char>
    decreases c.len(),
{
    if c.len() == 0 {
        Seq::empty()
    } else {
        names_text(c.drop_last()) + node_name(c.last()) + seq![' ']
    }
}

/// What a display shows: text appended, everything cleared, or the end of
/// the session.
#[derive(Debug)]
pub enum Output {
    Text(String),
    Clear,
    Exit,
}

pub enum Shown {
    Text(Seq<char>),
    Clear,
    Exit,
}

impl View for Output {
    type V = Shown;

    open spec fn view(&self) -> Shown {
        match self {
            Output::Text(s) => Shown::Text(s@),
            Output::Clear => Shown::Clear,
            Output::Exit => Shown::Exit,
        }
    }
}

pub open spec fn shown(v: Seq<Output>) -> Seq<Shown> {
    v.map_values(|o: Output| o@)
}

pub open spec fn storage_not_set() -> Seq<char> {
    "VFS storage not set\n"@
}

pub open spec fn error_line(cmd: Seq<char>, m: Seq<char>) -> Seq<char> {
    cmd + ": "@ + m + "\n"@
}

/// `w` is `v` after `cd` with `args`, and `out` what it shows.
pub open spec fn cd_step(v: VFS, w: VFS, args: Seq<Seq<char>>, out: Seq<Shown>) -> bool {
    if args.len() > 1 {
        w == v && out == seq![Shown::Text(error_line("cd"@, "too many args"@))]
    } else {
        match v.lookup(cd_target(args)) {
            Resolution::Found(p) => {
                &&& w.root == v.root
                &&& w.user == v.user
                &&& w.sys_path_name == v.sys_path_name
                &&& w.current_path@ == path_string(names_along(v.root, p))
                &&& out == Seq::<Shown>::empty()
            },
            Resolution::Failed(k, m) => w == v && out == seq![Shown::Text(error_line("cd"@, m))],
        }
    }
}

/// What `ls` with `args` shows on `v`.
pub open spec fn ls_step(v: VFS, args: Seq<Seq<char>>, out: Seq<Shown>) -> bool {
    match v.list_spec(args) {
        Listing::Entries(c) => out == if c.len() == 0 {
            Seq::<Shown>::empty()
        } else {
            seq![Shown::Text(names_text(c) + "\n"@)]
        },
        Listing::Error(k, m) => out == seq![Shown::Text(error_line("ls"@, m))],
    }
}

/// `w` is `v` after `chown` with `args` (owner, then path), and `out` what
/// it shows; anything but two arguments does nothing.
pub open spec fn chown_step(v: VFS, w: Option<VFS>, args: Seq<Seq<char>>, out: Seq<Shown>) -> bool {
    if args.len() != 2 {
        w == Some(v) && out == Seq::<Shown>::empty()
    } else {
        match v.lookup(args[1]) {
            Resolution::Found(p) => w matches Some(u) && {
                &&& owner_updated(v.root, u.root, p, args[0])
                &&& u.user == v.user
                &&& u.sys_path_name == v.sys_path_name
                &&& u.current_path == v.current_path
                &&& out == Seq::<Shown>::empty()
            },
            Resolution::Failed(k, m) => w == Some(v) && out == seq![Shown::Text(error_line("chown"@, m))],
        }
    }
}

/// The shell session: the file system if one was read, the acting user and
/// the history of submitted lines.
#[derive(Debug)]
pub struct Session {
    pub vfs: Option<VFS>,
    pub user: String,
    pub history: CommandHistory,
}

fn error_text(cmd: &str, e: &VfsError) -> (r: String)
    ensures
        r@ == error_line(cmd@, e.message@),
{
    let mut t = literal(cmd);
    t.append(": ");
    t.append(e.to_string().as_str());
    t.append("\n");
    t
}

/// The names of `c`, each followed by a space.
fn listing_names(c: &Vec<VFSNode>) -> (r: String)
    ensures
        r@ == names_text(c@),
{
    let mut out = String::new();
    let mut i: usize = 0;
    while i < c.len()
        invariant
            i <= c@.len(),
            out@ == names_text(c@.subrange(0, i as int)),
        decreases c@.len() - i,
    {
        assert(c@.subrange(0, i + 1).drop_last() =~= c@.subrange(0, i as int));
        out.append(c[i].name().as_str());
        push_char(&mut out, ' ');
        i = i + 1;
    }
    assert(c@.subrange(0, c@.len() as int) =~= c@);
    out
}

/// The prompt shown before each line.
pub fn get_shell_prefix(user: &String) -> (r: String)
    ensures
        r@ == "["@ + user@ + "@polina]# "@,
{
    let mut p = literal("[");
    p.append(user.as_str());
    p.append("@polina]# ");
    p
}

/// `t` is `s` after carrying out `call`, which shows `out` and, if `stop`,
/// skips the rest of the line.
pub open spec fn applied(s: Session, call: SystemCall, t: Session, out: Seq<Shown>, stop: bool) -> bool {
    &&& t.user == s.user
    &&& t.history == s.history
    &&& match call {
        SystemCall::Display(msg) => t.vfs == s.vfs && out == seq![Shown::Text(msg@)] && !stop,
        SystemCall::DisplayNewLine => t.vfs == s.vfs && out == seq![Shown::Text("\n"@)] && !stop,
        SystemCall::Clear => t.vfs == s.vfs && out == seq![Shown::Clear] && !stop,
        SystemCall::Exit => t.vfs == s.vfs && out == seq![Shown::Exit] && stop,
        SystemCall::Whoami => t.vfs == s.vfs && out == seq![Shown::Text(s.user@)] && !stop,
        SystemCall::History => {
            let h = s.history.lines();
            t.vfs == s.vfs && out == seq![Shown::Text(history_text(h, h.len() as int))] && !stop
        },
        SystemCall::ChangeDir(a) => match s.vfs {
            None => t.vfs is None && out == seq![Shown::Text(storage_not_set())] && !stop,
            Some(v) => t.vfs matches Some(w) && cd_step(v, w, strs(a@), out) && !stop,
        },
        SystemCall::ListDir(a) => match s.vfs {
            None => t.vfs is None && out == seq![Shown::Text(storage_not_set())] && !stop,
            Some(v) => t.vfs == s.vfs && ls_step(v, strs(a@), out) && !stop,
        },
        SystemCall::ChangeOwner(a) => match s.vfs {
            None => t.vfs is None && out == seq![Shown::Text(storage_not_set())] && !stop,
            Some(v) => !stop && chown_step(v, t.vfs, strs(a@), out),
        },
    }
}

/// The outputs of `outs`, one after another.
pub open spec fn flat(outs: Seq<Seq<Shown>>) -> Seq<Shown>
    decreases outs.len(),
{
    if outs.len() == 0 {
        Seq::empty()
    } else {
        flat(outs.drop_last()) + outs.last()
    }
}

/// The first `k` of `calls` were carried out one after another from
/// `states[0]`, and none but perhaps the last stopped the line.
pub open spec fn ran(
    calls: Seq<SystemCall>,
    states: Seq<Session>,
    outs: Seq<Seq<Shown>>,
    stops: Seq<bool>,
    k: int,
) -> bool {
    &&& 0 <= k <= calls.len()
    &&& states.len() == k + 1
    &&& outs.len() == k
    &&& stops.len() == k
    &&& forall|i: int|
        0 <= i < k ==> applied(
            #[trigger] states[i],
            calls[i],
            states[i + 1],
            outs[i],
            stops[i],
        )
    &&& forall|i: int| 0 <= i < k - 1 ==> !#[trigger] stops[i]
}

/// `t` and `out` are what submitting `line` to `s` gives: the line joins
/// the history, is parsed to `cmd`, whose effects `calls` are carried out in
/// order until one stops the line; the prompt follows unless one did.
pub open spec fn submitted(
    s: Session,
    line: Seq<char>,
    env: Seq<(String, String)>,
    cmd: Commands,
    calls: Seq<SystemCall>,
    states: Seq<Session>,
    outs: Seq<Seq<Shown>>,
    stops: Seq<bool>,
    t: Session,
    out: Seq<Shown>,
) -> bool {
    let k = outs.len() as int;
    &&& parsed(line, cmd)
    &&& effects_view(calls) == effects_of(cmd, env)
    &&& ran(calls, states, outs, stops, k)
    &&& states[0].vfs == s.vfs
    &&& states[0].user == s.user
    &&& states[0].history.lines() == last_n(s.history.lines().push(line), HISTORY_CAPACITY as int)
    &&& t == states[k]
    &&& if k > 0 && stops[k - 1] {
        out == flat(outs)
    } else {
        k == calls.len() && out == flat(outs).push(Shown::Text(prompt_text(s.user@)))
    }
}

pub open spec fn prompt_text(user: Seq<char>) -> Seq<char> {
    "["@ + user + "@polina]# "@
}

proof fn lemma_display_only_keeps_tree(
    calls: Seq<SystemCall>,
    states: Seq<Session>,
    outs: Seq<Seq<Shown>>,
    stops: Seq<bool>,
    k: int,
    j: int,
)
    requires
        ran(calls, states, outs, stops, k),
        0 <= j <= k,
        forall|i: int|
            0 <= i < calls.len() ==> (#[trigger] calls[i] is Display || calls[i] is DisplayNewLine),
    ensures
        states[j].vfs == states[0].vfs,
    decreases j,
{
    if j > 0 {
        lemma_display_only_keeps_tree(calls, states, outs, stops, k, j - 1);
        assert(applied(states[j - 1], calls[j - 1], states[j], outs[j - 1], stops[j - 1]));
    }
}

/// A `chown` line without exactly two arguments shows the usage lines, then
/// the prompt, and leaves the tree as it was.
pub proof fn lemma_chown_usage(
    s: Session,
    line: Seq<char>,
    env: Seq<(String, String)>,
    cmd: Commands,
    calls: Seq<SystemCall>,
    states: Seq<Session>,
    outs: Seq<Seq<Shown>>,
    stops: Seq<bool>,
    t: Session,
    out: Seq<Shown>,
)
    requires
        submitted(s, line, env, cmd, calls, states, outs, stops, t, out),
        cmd matches Commands::Chown(a) && a@.len() != 2,
    ensures
        effects_view(calls) == chown_usage(),
        t.vfs == s.vfs,
        out == seq![
            Shown::Text("\n"@),
            Shown::Text("chown: need 2 arguments"@),
            Shown::Text("\n"@),
            Shown::Text("example: chown root home.pl"@),
            Shown::Text("\n"@),
            Shown::Text(prompt_text(s.user@)),
        ],
{
    assert forall|i: int|
        0 <= i < calls.len() implies (#[trigger] calls[i] is Display || calls[i] is DisplayNewLine) by {
        assert(effects_of(cmd, env) == chown_usage());
        assert(effects_view(calls).len() == calls.len());
        assert(effects_view(calls)[i] == calls[i]@);
        let u = chown_usage();
        assert(u.len() == 5);
        assert(u[0] is NewLine && u[1] is Display && u[2] is NewLine && u[3] is Display && u[4] is NewLine);
    }
    lemma_display_only_keeps_tree(calls, states, outs, stops, outs.len() as int, outs.len() as int);
    let k = outs.len() as int;
    let u = chown_usage();
    assert(effects_of(cmd, env) == u);
    assert(effects_view(calls).len() == calls.len());
    assert forall|i: int| 0 <= i < k implies outs[i] == seq![Shown::Text(
        match #[trigger] u[i] {
            Effect::Display(m) => m,
            _ => "\n"@,
        },
    )] && !stops[i] by {
        assert(applied(states[i], calls[i], states[i + 1], outs[i], stops[i]));
        assert(effects_view(calls)[i] == calls[i]@);
    }
    if k > 0 {
        assert(!stops[k - 1]);
    }
    assert(k == 5);
    reveal_with_fuel(flat, 6);
    assert(flat(outs) =~= seq![
        Shown::Text("\n"@),
        Shown::Text("chown: need 2 arguments"@),
        Shown::Text("\n"@),
        Shown::Text("example: chown root home.pl"@),
        Shown::Text("\n"@),
    ]);
}

impl Session {
    pub open spec fn wf(self) -> bool {
        &&& self.history.wf()
        &&& self.vfs matches Some(v) ==> v.wf()
    }

    /// A session over `vfs`, acting as its user, or as nobody without one.
    pub fn new(vfs: Option<VFS>) -> (r: Session)
        ensures
            (vfs matches Some(v) ==> v.wf()) ==> r.wf(),
            r.vfs == vfs,
            r.user@ == match vfs {
                Some(v) => v.user@,
                None => Seq::<char>::empty(),
            },
            r.history.lines() == Seq::<Seq<char>>::empty(),
    {
        let user = match &vfs {
            Some(v) => v.user.clone(),
            None => String::new(),
        };
        Session { vfs, user, history: CommandHistory::new() }
    }

    /// The history as shown by `history`.
    pub fn history_lines(&self) -> (r: String)
        ensures
            r@ == history_text(self.history.lines(), self.history.lines().len() as int),
    {
        let n = self.history.len();
        let mut out = String::new();
        let mut i: usize = 0;
        while i < n
            invariant
                n == self.history.lines().len(),
                i <= n,
                out@ == history_text(self.history.lines(), i as int),
            decreases n - i,
        {
            let ghost before = out@;
            push_decimal(&mut out, i + 1);
            out.append(": ");
            let entry = self.history.get(i);
            if i + 1 == n {
                let cmd = remove_char(entry, '\n');
                out.append(cmd.as_str());
            } else {
                out.append(entry.as_str());
            }
            assert(out@ =~= before + history_line(self.history.lines(), i as int));
            i = i + 1;
        }
        out
    }

    /// Carries out one effect; says what to show and whether the rest of the
    /// line's effects are skipped.
    pub fn apply(&mut self, call: &SystemCall) -> (r: (Vec<Output>, bool))
        ensures
            applied(*old(self), *call, *final(self), shown(r.0@), r.1),
            old(self).wf() ==> final(self).wf(),
    {
        let mut out: Vec<Output> = Vec::new();
        let mut stop = false;
        match call {
            SystemCall::Display(t) => {
                let c = t.clone();
                out.push(Output::Text(c));
                assert(shown(out@) =~= seq![Shown::Text(t@)]);
            },
            SystemCall::DisplayNewLine => {
                out.push(Output::Text(literal("\n")));
            },
            SystemCall::Clear => {
                out.push(Output::Clear);
            },
            SystemCall::Exit => {
                out.push(Output::Exit);
                stop = true;
            },
            SystemCall::Whoami => {
                out.push(Output::Text(self.user.clone()));
            },
            SystemCall::History => {
                out.push(Output::Text(self.history_lines()));
            },
            SystemCall::ChangeDir(a) => {
                match &mut self.vfs {
                    None => {
                        out.push(Output::Text(literal("VFS storage not set\n")));
                    },
                    Some(v) => {
                        match v.change_dir(copy_strings(a)) {
                            Ok(_) => {},
                            Err(e) => {
                                out.push(Output::Text(error_text("cd", &e)));
                            },
                        }
                    },
                }
            },
            SystemCall::ListDir(a) => {
                match &self.vfs {
                    None => {
                        out.push(Output::Text(literal("VFS storage not set\n")));
                    },
                    Some(v) => {
                        match v.list_dir(copy_strings(a)) {
                            Ok(c) => {
                                if c.len() > 0 {
                                    let mut t = listing_names(c);
                                    t.append("\n");
                                    out.push(Output::Text(t));
                                }
                            },
                            Err(e) => {
                                out.push(Output::Text(error_text("ls", &e)));
                            },
                        }
                    },
                }
            },
            SystemCall::ChangeOwner(a) => {
                match &mut self.vfs {
                    None => {
                        out.push(Output::Text(literal("VFS storage not set\n")));
                    },
                    Some(v) => {
                        if a.len() == 2 {
                            match v.set_node_owner(a[1].clone(), a[0].clone()) {
                                Ok(()) => {},
                                Err(e) => {
                                    out.push(Output::Text(error_text("chown", &e)));
                                },
                            }
                        }
                    },
                }
            },
        }
        proof {
            if out@.len() == 0 {
                assert(shown(out@) =~= Seq::<Shown>::empty());
            } else if out@.len() == 1 {
                assert(shown(out@) =~= seq![out@[0]@]);
            }
        }
        (out, stop)
    }
    /// Submits one line: records it in the history, parses it, and carries
    /// out its effects in order; returns what to show.
    pub fn submit(&mut self, line: String, env: &VarTable) -> (r: Vec<Output>)
        requires
            old(self).wf(),
        ensures
            final(self).wf(),
            final(self).history.lines() == last_n(
                old(self).history.lines().push(line@),
                HISTORY_CAPACITY as int,
            ),
            exists|
                cmd: Commands,
                calls: Seq<SystemCall>,
                states: Seq<Session>,
                outs: Seq<Seq<Shown>>,
                stops: Seq<bool>,
            |
                submitted(
                    *old(self),
                    line@,
                    env@,
                    cmd,
                    calls,
                    states,
                    outs,
                    stops,
                    *final(self),
                    shown(r@),
                ),
    {
        let ghost s0 = *self;
        let ghost text = line@;
        self.history.push(line.clone());
        let cmd = Commands::parse_from_string(line);
        let calls = cmd.execute(env);
        let ghost mut states: Seq<Session> = seq![*self];
        let ghost mut outs: Seq<Seq<Shown>> = Seq::empty();
        let ghost mut stops: Seq<bool> = Seq::empty();
        let mut out: Vec<Output> = Vec::new();
        let mut i: usize = 0;
        assert(shown(out@) =~= flat(outs));
        while i < calls.len()
            invariant
                i <= calls@.len(),
                s0 == *old(self),
                text == line@,
                parsed(text, cmd),
                effects_view(calls@) == effects_of(cmd, env@),
                ran(calls@, states, outs, stops, i as int),
                forall|j: int| 0 <= j < i ==> !#[trigger] stops[j],
                *self == states[i as int],
                states[0].vfs == s0.vfs,
                states[0].user == s0.user,
                states[0].history.lines() == last_n(
                    s0.history.lines().push(text),
                    HISTORY_CAPACITY as int,
                ),
                self.wf(),
                self.user == s0.user,
                self.history == states[0].history,
                shown(out@) == flat(outs),
            decreases calls@.len() - i,
        {
            let ghost pre = *self;
            let (o, stop) = self.apply(&calls[i]);
            let ghost shown_o = shown(o@);
            let ghost before = out@;
            let ghost prev_outs = outs;
            let ghost prev_states = states;
            let ghost prev_stops = stops;
            let mut o = o;
            out.append(&mut o);
            proof {
                assert(shown(out@) =~= shown(before) + shown_o);
                states = states.push(*self);
                outs = outs.push(shown_o);
                stops = stops.push(stop);
                assert(outs.drop_last() =~= prev_outs);
                assert(states[0] == prev_states[0]);
                assert(states[i + 1] == *self);
                assert forall|j: int| 0 <= j < i + 1 implies applied(
                    #[trigger] states[j],
                    calls@[j],
                    states[j + 1],
                    outs[j],
                    stops[j],
                ) by {
                    if j < i {
                        assert(states[j] == prev_states[j]);
                        assert(states[j + 1] == prev_states[j + 1]);
                        assert(outs[j] == prev_outs[j]);
                        assert(stops[j] == prev_stops[j]);
                        assert(applied(prev_states[j], calls@[j], prev_states[j + 1], prev_outs[j], prev_stops[j]));
                    }
                }
                assert forall|j: int| 0 <= j < i implies !#[trigger] stops[j] by {
                    assert(stops[j] == prev_stops[j]);
                }
            }
            if stop {
                assert(submitted(s0, text, env@, cmd, calls@, states, outs, stops, *self, shown(out@)));
                return out;
            }
            i = i + 1;
        }
        let ghost before = out@;
        out.push(Output::Text(get_shell_prefix(&self.user)));
        assert(shown(out@) =~= shown(before).push(Shown::Text(prompt_text(s0.user@))));
        assert(submitted(s0, text, env@, cmd, calls@, states, outs, stops, *self, shown(out@)));
        out
    }
}

} // verus!
