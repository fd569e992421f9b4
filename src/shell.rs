use vstd::prelude::*;
use vstd::string::{StrSliceExecFns, StringExecFns};
use crate::text::{
    last_piece, last_piece_start, literal, occurs_at_exec, push_char, split_tokens, strs, tokens,
    Separator,
};

verus! {

/// A table of variables: names with their values. A name given twice takes
/// its first value; the later entries are never read.
pub type VarTable = Vec<(String, String)>;

/// A parsed command line.
#[derive(Debug)]
pub enum Commands {
    Ls(Vec<String>, Option<VarTable>),
    Cd(Vec<String>, Option<VarTable>),
    Chown(Vec<String>),
    Exit,
    Clear,
    Whoami,
    History,
    NotFound(String),
    Null,
}

/// A primitive effect of a command.
#[derive(Debug)]
pub enum SystemCall {
    Display(String),
    Clear,
    Exit,
    Whoami,
    History,
    ChangeDir(Vec<String>),
    ListDir(Vec<String>),
    ChangeOwner(Vec<String>),
    DisplayNewLine,
}

/// An effect with its text as plain character sequences.
pub enum Effect {
    Display(Seq<char>),
    Clear,
    Exit,
    Whoami,
    History,
    ChangeDir(Seq<Seq<char>>),
    ListDir(Seq<Seq<char>>),
    ChangeOwner(Seq<Seq<char>>),
    NewLine,
}

impl View for SystemCall {
    type V = Effect;

    open spec fn view(&self) -> Effect {
        match self {
            SystemCall::Display(s) => Effect::Display(s@),
            SystemCall::Clear => Effect::Clear,
            SystemCall::Exit => Effect::Exit,
            SystemCall::Whoami => Effect::Whoami,
            SystemCall::History => Effect::History,
            SystemCall::ChangeDir(a) => Effect::ChangeDir(strs(a@)),
            SystemCall::ListDir(a) => Effect::ListDir(strs(a@)),
            SystemCall::ChangeOwner(a) => Effect::ChangeOwner(strs(a@)),
            SystemCall::DisplayNewLine => Effect::NewLine,
        }
    }
}

pub open spec fn effects_view(v: Seq<SystemCall>) -> Seq<Effect> {
    v.map_values(|c: SystemCall| c@)
}

/// The value of the first entry of `table` named `key`.
pub open spec fn lookup_var(table: Seq<(String, String)>, key: Seq<char>) -> Option<Seq<char>>
    decreases table.len(),
{
    if table.len() == 0 {
        None
    } else if table[0].0@ == key {
        Some(table[0].1@)
    } else {
        lookup_var(table.drop_first(), key)
    }
}

/// `s` without any `c`.
pub open spec fn strip_char(s: Seq<char>, c: char) -> Seq<char>
    decreases s.len(),
{
    if s.len() == 0 {
        s
    } else if s.last() == c {
        strip_char(s.drop_last(), c)
    } else {
        strip_char(s.drop_last(), c).push(s.last())
    }
}

pub open spec fn table_view(t: Option<&VarTable>) -> Option<Seq<(String, String)>> {
    match t {
        Some(v) => Some(v@),
        None => None,
    }
}

pub open spec fn owned_table_view(t: Option<VarTable>) -> Option<Seq<(String, String)>> {
    match t {
        Some(v) => Some(v@),
        None => None,
    }
}

/// What an argument becomes: one that starts with `$` is the environment
/// variable named by the rest without its `$`s, if set; another is its
/// value in `extra`, if there; otherwise the argument stays.
pub open spec fn substituted(
    arg: Seq<char>,
    env: Seq<(String, String)>,
    extra: Option<Seq<(String, String)>>,
) -> Seq<char> {
    if arg.len() > 0 && arg[0] == '$' {
        match lookup_var(env, strip_char(arg, '$')) {
            Some(v) => v,
            None => arg,
        }
    } else {
        match extra {
            Some(t) => match lookup_var(t, arg) {
                Some(v) => v,
                None => arg,
            },
            None => arg,
        }
    }
}

pub open spec fn substituted_all(
    args: Seq<String>,
    env: Seq<(String, String)>,
    extra: Option<Seq<(String, String)>>,
) -> Seq<Seq<char>> {
    args.map_values(|a: String| substituted(a@, env, extra))
}

pub open spec fn not_found_text(t: Seq<char>) -> Seq<char> {
    t + ": command not found"@
}

pub open spec fn chown_usage() -> Seq<Effect> {
    seq![
        Effect::NewLine,
        Effect::Display("chown: need 2 arguments"@),
        Effect::NewLine,
        Effect::Display("example: chown root home.pl"@),
        Effect::NewLine,
    ]
}

/// The effects of `cmd`, in order, with `env` as the environment.
pub open spec fn effects_of(cmd: Commands, env: Seq<(String, String)>) -> Seq<Effect> {
    match cmd {
        Commands::Ls(a, e) => seq![
            Effect::NewLine,
            Effect::ListDir(substituted_all(a@, env, owned_table_view(e))),
        ],
        Commands::Cd(a, e) => seq![
            Effect::NewLine,
            Effect::ChangeDir(substituted_all(a@, env, owned_table_view(e))),
        ],
        Commands::Exit => seq![Effect::Exit],
        Commands::NotFound(t) => seq![
            Effect::NewLine,
            Effect::Display(not_found_text(t@)),
            Effect::NewLine,
        ],
        Commands::Whoami => seq![Effect::NewLine, Effect::Whoami, Effect::NewLine],
        Commands::History => seq![Effect::NewLine, Effect::History, Effect::NewLine],
        Commands::Clear => seq![Effect::Clear],
        Commands::Null => seq![Effect::NewLine],
        Commands::Chown(a) => if a@.len() != 2 {
            chown_usage()
        } else {
            seq![Effect::ChangeOwner(strs(a@)), Effect::NewLine]
        },
    }
}

/// `r` is what parsing the line `input` gives.
pub open spec fn parsed(input: Seq<char>, r: Commands) -> bool {
    let w = tokens(input, Separator::WhiteSpace);
    if w.len() == 0 || (w[0].len() > 0 && w[0][0] == '#') {
        r is Null
    } else {
        let rest = w.drop_first();
        if w[0] == "ls"@ {
            r matches Commands::Ls(a, e) && strs(a@) == rest && e is None
        } else if w[0] == "cd"@ {
            r matches Commands::Cd(a, e) && strs(a@) == rest && e is None
        } else if w[0] == "exit"@ {
            r is Exit
        } else if w[0] == "clear"@ {
            r is Clear
        } else if w[0] == "whoami"@ {
            r is Whoami
        } else if w[0] == "history"@ {
            r is History
        } else if w[0] == "chown"@ {
            r matches Commands::Chown(a) && strs(a@) == rest
        } else {
            r matches Commands::NotFound(t) && t@ == w[0]
        }
    }
}

/// The value of the first entry of `table` named `key`.
fn find_var(table: &VarTable, key: &String) -> (r: Option<String>)
    ensures
        match lookup_var(table@, key@) {
            Some(v) => r matches Some(s) && s@ == v,
            None => r is None,
        },
{
    let mut j: usize = 0;
    assert(table@.subrange(0, table@.len() as int) =~= table@);
    while j < table.len()
        invariant
            j <= table@.len(),
            lookup_var(table@, key@) == lookup_var(table@.subrange(j as int, table@.len() as int), key@),
        decreases table@.len() - j,
    {
        let ghost rest = table@.subrange(j as int, table@.len() as int);
        assert(rest.drop_first() =~= table@.subrange(j + 1, table@.len() as int));
        if table[j].0.eq(key) {
            return Some(table[j].1.clone());
        }
        j = j + 1;
    }
    None
}

/// `s` without any `c`.
pub(crate) fn remove_char(s: &String, c: char) -> (r: String)
    ensures
        r@ == strip_char(s@, c),
{
    let n = s.unicode_len();
    let mut out = String::new();
    let mut i: usize = 0;
    while i < n
        invariant
            n == s@.len(),
            i <= n,
            out@ == strip_char(s@.subrange(0, i as int), c),
        decreases n - i,
    {
        let d = s.as_str().get_char(i);
        assert(s@.subrange(0, i + 1).drop_last() =~= s@.subrange(0, i as int));
        if d != c {
            push_char(&mut out, d);
        }
        i = i + 1;
    }
    assert(s@.subrange(0, n as int) =~= s@);
    out
}

/// One argument after substitution.
fn substitute(arg: &String, env: &VarTable, extra: Option<&VarTable>) -> (r: String)
    ensures
        r@ == substituted(arg@, env@, table_view(extra)),
{
    if arg.unicode_len() > 0 && arg.as_str().get_char(0) == '$' {
        let key = remove_char(arg, '$');
        match find_var(env, &key) {
            Some(v) => v,
            None => arg.clone(),
        }
    } else {
        match extra {
            Some(t) => match find_var(t, arg) {
                Some(v) => v,
                None => arg.clone(),
            },
            None => arg.clone(),
        }
    }
}

/// A copy of `v`.
pub(crate) fn copy_strings(v: &Vec<String>) -> (r: Vec<String>)
    ensures
        strs(r@) == strs(v@),
{
    let mut out: Vec<String> = Vec::new();
    let mut i: usize = 0;
    while i < v.len()
        invariant
            i <= v@.len(),
            strs(out@) == strs(v@.subrange(0, i as int)),
        decreases v@.len() - i,
    {
        let ghost before = out@;
        out.push(v[i].clone());
        assert(strs(out@) =~= strs(before).push(v@[i as int]@));
        assert(strs(v@.subrange(0, i + 1)) =~= strs(v@.subrange(0, i as int)).push(v@[i as int]@));
        i = i + 1;
    }
    assert(v@.subrange(0, v@.len() as int) =~= v@);
    out
}

impl Commands {
    /// What is left of `text` after the last match of `prefix`: the whole text
    /// where there is none.
    pub fn get_last_command_frame(prefix: &str, text: &str) -> (r: String)
        ensures
            r@ == last_piece(text@, prefix@),
    {
        let n = text.unicode_len();
        let m = prefix.unicode_len();
        if m == 0 {
            return String::new();
        }
        let mut i: usize = 0;
        let mut start: usize = 0;
        while m <= n - i
            invariant
                n == text@.len(),
                m == prefix@.len(),
                m > 0,
                start <= i <= n,
                last_piece_start(text@, prefix@, 0, 0) == last_piece_start(
                    text@,
                    prefix@,
                    i as int,
                    start as int,
                ),
            decreases n - i,
        {
            if occurs_at_exec(text, n, prefix, m, i) {
                i = i + m;
                start = i;
            } else {
                i = i + 1;
            }
        }
        text.substring_char(start, n).to_owned()
    }

    /// The arguments after substitution, in order.
    pub fn format_command_args_to_env(
        &self,
        command: &Vec<String>,
        env: &VarTable,
        extra: Option<&VarTable>,
    ) -> (r: Vec<String>)
        ensures
            strs(r@) == substituted_all(command@, env@, table_view(extra)),
    {
        let mut out: Vec<String> = Vec::new();
        let mut i: usize = 0;
        while i < command.len()
            invariant
                i <= command@.len(),
                strs(out@) == substituted_all(command@.subrange(0, i as int), env@, table_view(extra)),
            decreases command@.len() - i,
        {
            let s = substitute(&command[i], env, extra);
            let ghost before = out@;
            out.push(s);
            assert(strs(out@) =~= strs(before).push(s@));
            assert(substituted_all(command@.subrange(0, i + 1), env@, table_view(extra))
                =~= substituted_all(command@.subrange(0, i as int), env@, table_view(extra)).push(
                substituted(command@[i as int]@, env@, table_view(extra)),
            ));
            i = i + 1;
        }
        assert(command@.subrange(0, command@.len() as int) =~= command@);
        out
    }

    /// The effects of this command, in order; `$` arguments are looked up
    /// in `env`, the process environment.
    pub fn execute(&self, env: &VarTable) -> (r: Vec<SystemCall>)
        ensures
            effects_view(r@) == effects_of(*self, env@),
    {
        let r = match self {
            Commands::Ls(command, extra) => {
                let replaced = self.format_command_args_to_env(command, env, extra.as_ref());
                vec![SystemCall::DisplayNewLine, SystemCall::ListDir(replaced)]
            },
            Commands::Cd(command, extra) => {
                let replaced = self.format_command_args_to_env(command, env, extra.as_ref());
                vec![SystemCall::DisplayNewLine, SystemCall::ChangeDir(replaced)]
            },
            Commands::Exit => vec![SystemCall::Exit],
            Commands::NotFound(command) => {
                let mut m = command.clone();
                m.append(": command not found");
                vec![SystemCall::DisplayNewLine, SystemCall::Display(m), SystemCall::DisplayNewLine]
            },
            Commands::Whoami => vec![
                SystemCall::DisplayNewLine,
                SystemCall::Whoami,
                SystemCall::DisplayNewLine,
            ],
            Commands::History => vec![
                SystemCall::DisplayNewLine,
                SystemCall::History,
                SystemCall::DisplayNewLine,
            ],
            Commands::Clear => vec![SystemCall::Clear],
            Commands::Null => vec![SystemCall::DisplayNewLine],
            Commands::Chown(commands) => {
                if commands.len() != 2 {
                    vec![
                        SystemCall::DisplayNewLine,
                        SystemCall::Display(literal("chown: need 2 arguments")),
                        SystemCall::DisplayNewLine,
                        SystemCall::Display(literal("example: chown root home.pl")),
                        SystemCall::DisplayNewLine,
                    ]
                } else {
                    vec![SystemCall::ChangeOwner(copy_strings(commands)), SystemCall::DisplayNewLine]
                }
            },
        };
        assert(effects_view(r@) =~= effects_of(*self, env@));
        r
    }

    /// Parses one line: its first word names the command, the rest are its
    /// arguments; a blank line or one whose first word starts with `#` does
    /// nothing.
    pub fn parse_from_string(input: String) -> (r: Commands)
        ensures
            parsed(input@, r),
    {
        let parts = split_tokens(input.as_str(), Separator::WhiteSpace);
        let ghost w = tokens(input@, Separator::WhiteSpace);
        assert(strs(parts@) == w);
        if parts.len() == 0 {
            return Commands::Null;
        }
        assert(parts@[0]@ == w[0]);
        if parts[0].unicode_len() > 0 && parts[0].as_str().get_char(0) == '#' {
            return Commands::Null;
        }
        let mut args: Vec<String> = Vec::new();
        let mut i: usize = 1;
        while i < parts.len()
            invariant
                1 <= i <= parts@.len(),
                strs(parts@) == w,
                strs(args@) == w.subrange(1, i as int),
            decreases parts@.len() - i,
        {
            let ghost before = args@;
            args.push(parts[i].clone());
            assert(strs(args@) =~= strs(before).push(parts@[i as int]@));
            assert(w.subrange(1, i + 1) =~= w.subrange(1, i as int).push(w[i as int]));
            i = i + 1;
        }
        assert(w.subrange(1, w.len() as int) =~= w.drop_first());
        let first = &parts[0];
        if first.eq(&literal("ls")) {
            Commands::Ls(args, None)
        } else if first.eq(&literal("cd")) {
            Commands::Cd(args, None)
        } else if first.eq(&literal("exit")) {
            Commands::Exit
        } else if first.eq(&literal("clear")) {
            Commands::Clear
        } else if first.eq(&literal("whoami")) {
            Commands::Whoami
        } else if first.eq(&literal("history")) {
            Commands::History
        } else if first.eq(&literal("chown")) {
            Commands::Chown(args)
        } else {
            Commands::NotFound(first.clone())
        }
    }
}

} // verus!
