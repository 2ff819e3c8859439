//! The command shell's rules: how the words of an input line group into
//! commands, which commands the shell runs itself, the syntax of
//! `if ... do`, and the statuses it records for each command.

use std::collections::HashMap;
use vstd::prelude::*;
use crate::parse::{decimal, parse_i32, parse_int, IntErrorKind};
use crate::text::str_eq;

verus! {

/// The super commands, which stand apart from the commands around them.
pub open spec fn is_super_command(w: Seq<char>) -> bool {
    w == "then"@ || w == "if"@ || w == "do"@
}

/// Whether `w` is a super command.
pub fn is_super(w: &str) -> (r: bool)
    ensures
        r == is_super_command(w@),
{
    str_eq(w, "then") || str_eq(w, "if") || str_eq(w, "do")
}

/// Position of the first super command in `ws`, or `ws.len()`.
pub open spec fn keyword_index(ws: Seq<Seq<char>>) -> int
    decreases ws.len(),
{
    if ws.len() == 0 {
        0
    } else if is_super_command(ws[0]) {
        0
    } else {
        1 + keyword_index(ws.drop_first())
    }
}

pub proof fn lemma_keyword_index(ws: Seq<Seq<char>>)
    ensures
        0 <= keyword_index(ws) <= ws.len(),
        keyword_index(ws) < ws.len() ==> is_super_command(ws[keyword_index(ws)]),
        forall|j: int| 0 <= j < keyword_index(ws) ==> !is_super_command(#[trigger] ws[j]),
    decreases ws.len(),
{
    if ws.len() > 0 && !is_super_command(ws[0]) {
        lemma_keyword_index(ws.drop_first());
        assert forall|j: int| 0 <= j < keyword_index(ws) implies !is_super_command(#[trigger] ws[j]) by {
            if j > 0 {
                assert(ws[j] == ws.drop_first()[j - 1]);
            }
        }
    }
}

proof fn lemma_keyword_index_is(ws: Seq<Seq<char>>, k: int)
    requires
        0 <= k <= ws.len(),
        k == ws.len() || is_super_command(ws[k]),
        forall|j: int| 0 <= j < k ==> !is_super_command(#[trigger] ws[j]),
    ensures
        keyword_index(ws) == k,
{
    lemma_keyword_index(ws);
    let m = keyword_index(ws);
    if m < k {
        assert(!is_super_command(ws[m]));
    } else if k < m {
        assert(!is_super_command(ws[k]));
    }
}

/// The commands of a line of words: each run of words between super
/// commands is a command, and each super command is a command on its own.
pub open spec fn group_commands(ws: Seq<Seq<char>>) -> Seq<Seq<Seq<char>>>
    decreases ws.len(),
{
    if ws.len() == 0 {
        Seq::empty()
    } else {
        proof {
            lemma_keyword_index(ws);
        }
        let k = keyword_index(ws);
        if k == ws.len() {
            seq![ws]
        } else {
            (if k > 0 {
                seq![ws.subrange(0, k)]
            } else {
                Seq::empty()
            }) + seq![seq![ws[k]]] + group_commands(ws.subrange(k + 1, ws.len() as int))
        }
    }
}

/// Copies of `words[i..j]`.
fn clone_range(words: &Vec<String>, i: usize, j: usize) -> (r: Vec<String>)
    requires
        i <= j <= words@.len(),
    ensures
        r.deep_view() == words.deep_view().subrange(i as int, j as int),
{
    let mut r: Vec<String> = Vec::new();
    let mut k = i;
    while k < j
        invariant
            i <= k <= j <= words@.len(),
            r.deep_view() == words.deep_view().subrange(i as int, k as int),
        decreases j - k,
    {
        let ghost old_r = r.deep_view();
        let w = words[k].clone();
        r.push(w);
        proof {
            assert(r.deep_view() =~= old_r.push(words@[k as int]@));
            assert(words.deep_view().subrange(i as int, k + 1) =~= words.deep_view().subrange(
                i as int,
                k as int,
            ).push(words@[k as int]@));
        }
        k = k + 1;
    }
    r
}

/// Groups the words of an input line into commands (see [`group_commands`]).
pub fn getinput(words: &Vec<String>) -> (commands: Vec<Vec<String>>)
    ensures
        commands.deep_view() == group_commands(words.deep_view()),
{
    let ghost ws = words.deep_view();
    let n = words.len();
    let mut commands: Vec<Vec<String>> = Vec::new();
    let mut i: usize = 0;
    proof {
        assert(ws.subrange(0, n as int) =~= ws);
    }
    while i < n
        invariant
            n == words@.len(),
            ws == words.deep_view(),
            i <= n,
            commands.deep_view() + group_commands(ws.subrange(i as int, n as int)) == group_commands(ws),
        decreases n - i,
    {
        let ghost rest = ws.subrange(i as int, n as int);
        let mut k = i;
        while k < n && !is_super(words[k].as_str())
            invariant
                i <= k <= n,
                n == words@.len(),
                ws == words.deep_view(),
                forall|j: int| i <= j < k ==> !is_super_command(#[trigger] ws[j]),
            decreases n - k,
        {
            k = k + 1;
        }
        proof {
            assert forall|j: int| 0 <= j < k - i implies !is_super_command(#[trigger] rest[j]) by {
                assert(rest[j] == ws[i + j]);
            }
            if k < n {
                assert(rest[k - i] == ws[k as int]);
            }
            lemma_keyword_index_is(rest, k - i);
        }
        let ghost before = commands.deep_view();
        if k == n {
            let run = clone_range(words, i, n);
            commands.push(run);
            proof {
                assert(group_commands(rest) == seq![rest]);
                assert(commands.deep_view() =~= before + seq![rest]);
                assert(ws.subrange(n as int, n as int) =~= Seq::<Seq<char>>::empty());
                assert(before + seq![rest] + Seq::<Seq<Seq<char>>>::empty() =~= before + seq![rest]);
            }
            i = n;
        } else {
            let ghost tail = ws.subrange(k + 1, n as int);
            proof {
                assert(rest.subrange(0, k - i) =~= ws.subrange(i as int, k as int));
                assert(rest.subrange(k - i + 1, rest.len() as int) =~= tail);
                assert(rest[k - i] == ws[k as int]);
            }
            if k > i {
                let run = clone_range(words, i, k);
                commands.push(run);
            }
            let kw = clone_range(words, k, k + 1);
            commands.push(kw);
            proof {
                assert(ws.subrange(k as int, k + 1) =~= seq![ws[k as int]]);
                if k > i {
                    assert(commands.deep_view() =~= before + seq![ws.subrange(i as int, k as int)]
                        + seq![seq![ws[k as int]]]);
                } else {
                    assert(commands.deep_view() =~= before + seq![seq![ws[k as int]]]);
                }
            }
            i = k + 1;
        }
    }
    proof {
        assert(ws.subrange(i as int, n as int) =~= Seq::<Seq<char>>::empty());
        assert(commands.deep_view() + Seq::<Seq<Seq<char>>>::empty() =~= commands.deep_view());
    }
    commands
}

/// A command as `getinput` makes them: not empty, and a super command
/// stands alone.
pub open spec fn well_grouped(c: Seq<Seq<char>>) -> bool {
    &&& c.len() > 0
    &&& forall|j: int| 0 <= j < c.len() && is_super_command(#[trigger] c[j]) ==> c.len() == 1
}

/// Grouping keeps every word, in order, and nothing else; no command is
/// empty, and every super command is a command of its own.
pub proof fn law_grouping_keeps_words(ws: Seq<Seq<char>>)
    ensures
        group_commands(ws).flatten() == ws,
        forall|i: int| 0 <= i < group_commands(ws).len() ==> well_grouped(#[trigger] group_commands(ws)[i]),
    decreases ws.len(),
{
    let g = group_commands(ws);
    if ws.len() > 0 {
        lemma_keyword_index(ws);
        let k = keyword_index(ws);
        if k == ws.len() {
            assert(g == seq![ws]);
            seq![ws].lemma_flatten_one_element();
        } else {
            let tail = ws.subrange(k + 1, ws.len() as int);
            law_grouping_keeps_words(tail);
            let head: Seq<Seq<Seq<char>>> = if k > 0 {
                seq![ws.subrange(0, k)]
            } else {
                Seq::empty()
            };
            let mid: Seq<Seq<Seq<char>>> = seq![seq![ws[k]]];
            assert(g == head + mid + group_commands(tail));
            vstd::seq_lib::lemma_flatten_concat(head + mid, group_commands(tail));
            vstd::seq_lib::lemma_flatten_concat(head, mid);
            mid.lemma_flatten_one_element();
            if k > 0 {
                head.lemma_flatten_one_element();
            } else {
                assert(head.flatten() =~= Seq::<Seq<char>>::empty());
            }
            assert(ws =~= ws.subrange(0, k) + seq![ws[k]] + tail);
            assert(head.flatten() + mid.flatten() + tail =~= ws);
            assert forall|i: int| 0 <= i < g.len() implies well_grouped(#[trigger] g[i]) by {
                if i < head.len() {
                    assert(g[i] == ws.subrange(0, k));
                    assert forall|j: int| 0 <= j < g[i].len() implies !is_super_command(#[trigger] g[i][j]) by {
                        assert(g[i][j] == ws[j]);
                    }
                } else if i == head.len() {
                    assert(g[i] == seq![ws[k]]);
                } else {
                    assert(g[i] == group_commands(tail)[i - head.len() - 1]);
                }
            }
        }
    } else {
        assert(g =~= Seq::<Seq<Seq<char>>>::empty());
        assert(g.flatten() =~= Seq::<Seq<char>>::empty());
    }
}

/// What the shell records about a finished command.
#[derive(PartialEq, Eq, Structural, Debug, Clone, Copy)]
pub struct CommandStatus {
    pub code: Option<i32>,
    pub success: bool,
    pub signal: Option<i32>,
    pub core_dumped: bool,
}

/// The status of a command that succeeded.
pub open spec fn success_status() -> CommandStatus {
    CommandStatus { code: Some(0), success: true, signal: None, core_dumped: false }
}

/// The status of a command that failed.
pub open spec fn failure_status() -> CommandStatus {
    CommandStatus { code: Some(1), success: false, signal: None, core_dumped: false }
}

/// Records that command `index` succeeded.
pub fn report_success(index: usize, statuses: &mut HashMap<usize, CommandStatus>)
    ensures
        final(statuses)@ == old(statuses)@.insert(index, success_status()),
{
    let command_status = CommandStatus { code: Some(0), success: true, signal: None, core_dumped: false };
    statuses.insert(index, command_status);
}

/// Records that command `index` failed.
pub fn report_failure(index: usize, statuses: &mut HashMap<usize, CommandStatus>)
    ensures
        final(statuses)@ == old(statuses)@.insert(index, failure_status()),
{
    let command_status = CommandStatus { code: Some(1), success: false, signal: None, core_dumped: false };
    statuses.insert(index, command_status);
}

/// What the shell does with a command, by its first word.
#[derive(PartialEq, Eq, Structural, Debug, Clone, Copy)]
pub enum Builtin {
    /// `gt`: change the working directory.
    Gt,
    /// `help` or `?`.
    Help,
    /// `exit`, `quit` or `bye`.
    Exit,
    /// `then`: always succeeds.
    Then,
    /// `if`: check the syntax up to `do`.
    If,
    /// `do`: look back at the commands since `if`.
    Do,
    /// Anything else: run it as a program.
    Run,
}

pub open spec fn builtin_of(name: Seq<char>) -> Builtin {
    if name == "gt"@ {
        Builtin::Gt
    } else if name == "help"@ || name == "?"@ {
        Builtin::Help
    } else if name == "exit"@ || name == "quit"@ || name == "bye"@ {
        Builtin::Exit
    } else if name == "then"@ {
        Builtin::Then
    } else if name == "if"@ {
        Builtin::If
    } else if name == "do"@ {
        Builtin::Do
    } else {
        Builtin::Run
    }
}

/// Tells what the shell does with a command whose first word is `name`.
pub fn classify(name: &str) -> (b: Builtin)
    ensures
        b == builtin_of(name@),
{
    if str_eq(name, "gt") {
        Builtin::Gt
    } else if str_eq(name, "help") || str_eq(name, "?") {
        Builtin::Help
    } else if str_eq(name, "exit") || str_eq(name, "quit") || str_eq(name, "bye") {
        Builtin::Exit
    } else if str_eq(name, "then") {
        Builtin::Then
    } else if str_eq(name, "if") {
        Builtin::If
    } else if str_eq(name, "do") {
        Builtin::Do
    } else {
        Builtin::Run
    }
}

/// Why `gt` cannot go anywhere.
#[derive(PartialEq, Eq, Structural, Debug, Clone, Copy)]
pub enum GtError {
    /// No directory was given.
    MissingPath,
    /// More than one directory was given.
    TooManyPaths,
}

/// What `gt` makes of its arguments: the one directory to go to, or why
/// there is none.
pub open spec fn gt_outcome(args: Seq<Seq<char>>) -> Result<Seq<char>, GtError> {
    if args.len() == 1 {
        Err(GtError::MissingPath)
    } else if args.len() > 2 {
        Err(GtError::TooManyPaths)
    } else {
        Ok(args[1])
    }
}

/// The argument check of `gt`: with exactly one directory it hands back the
/// directory to go to (the caller goes there and records the outcome);
/// otherwise it records a failure for command `index`.
pub fn gt(args: &Vec<String>, index: usize, statuses: &mut HashMap<usize, CommandStatus>) -> (r:
    Result<String, GtError>)
    requires
        args@.len() >= 1,
    ensures
        match gt_outcome(args.deep_view()) {
            Ok(p) => r matches Ok(path) && path@ == p && final(statuses)@ == old(statuses)@,
            Err(e) => r == Err::<String, GtError>(e) && final(statuses)@ == old(statuses)@.insert(
                index,
                failure_status(),
            ),
        },
{
    proof {
        if args@.len() == 2 {
            assert(args.deep_view()[1] == args@[1]@);
        }
    }
    if args.len() == 1 {
        report_failure(index, statuses);
        Err(GtError::MissingPath)
    } else if args.len() > 2 {
        report_failure(index, statuses);
        Err(GtError::TooManyPaths)
    } else {
        Ok(args[1].clone())
    }
}

/// What `exit` does.
#[derive(PartialEq, Eq, Structural, Debug, Clone, Copy)]
pub enum ExitStep {
    /// Leave the shell with this exit code.
    Quit(i32),
    /// More than one exit code was given; the shell goes on.
    TooManyCodes,
    /// The exit code is not an `i32`; the shell goes on.
    BadCode(IntErrorKind),
}

/// What `exit` does with its arguments, and whether it records a success.
pub open spec fn exit_outcome(args: Seq<Seq<char>>) -> (ExitStep, bool) {
    if args.len() == 1 {
        (ExitStep::Quit(0), false)
    } else if args.len() > 2 {
        (ExitStep::TooManyCodes, false)
    } else {
        match parse_int(args[1], i32::MIN as int, i32::MAX as int) {
            Ok(c) => (ExitStep::Quit(c as i32), true),
            Err(e) => (ExitStep::BadCode(e), false),
        }
    }
}

/// `exit [code]`: without a code the shell records a failure and leaves with
/// code 0; with one code that reads as an `i32` it records a success and
/// leaves with that code; otherwise it records a failure and goes on.
pub fn exit(args: &Vec<String>, index: usize, statuses: &mut HashMap<usize, CommandStatus>) -> (r:
    ExitStep)
    requires
        args@.len() >= 1,
    ensures
        r == exit_outcome(args.deep_view()).0,
        final(statuses)@ == old(statuses)@.insert(
            index,
            if exit_outcome(args.deep_view()).1 {
                success_status()
            } else {
                failure_status()
            },
        ),
{
    proof {
        if args@.len() == 2 {
            assert(args.deep_view()[1] == args@[1]@);
        }
    }
    if args.len() == 1 {
        report_failure(index, statuses);
        ExitStep::Quit(0)
    } else if args.len() > 2 {
        report_failure(index, statuses);
        ExitStep::TooManyCodes
    } else {
        match parse_i32(args[1].as_str()) {
            Err(e) => {
                report_failure(index, statuses);
                ExitStep::BadCode(e)
            },
            Ok(code) => {
                report_success(index, statuses);
                ExitStep::Quit(code)
            },
        }
    }
}

/// Syntax errors of `if ... do`.
#[derive(PartialEq, Eq, Structural, Debug, Clone, Copy)]
pub enum SyntaxError {
    /// An `if` where a `do` was expected.
    UnexpectedIf,
    /// No `do` after an `if`.
    MissingDo,
    /// A `do` where an `if` was expected.
    UnexpectedDo,
    /// No `if` before a `do`.
    MissingIf,
}

/// Every command from position `from` on has a first word.
pub open spec fn heads_from(cmds: Seq<Seq<Seq<char>>>, from: int) -> bool {
    forall|j: int| from <= j < cmds.len() ==> (#[trigger] cmds[j]).len() > 0
}

/// Scanning forward from command `p` for the `do` that closes an `if`.
pub open spec fn if_syntax(cmds: Seq<Seq<Seq<char>>>, p: int) -> Result<(), SyntaxError>
    decreases cmds.len() - p,
{
    if p < 0 || p >= cmds.len() {
        Err(SyntaxError::MissingDo)
    } else if cmds[p][0] == "do"@ {
        Ok(())
    } else if cmds[p][0] == "if"@ {
        Err(SyntaxError::UnexpectedIf)
    } else {
        if_syntax(cmds, p + 1)
    }
}

/// Checks that the `if` at `index_of_if` is closed by a `do` before any
/// other `if`.
pub fn supercmd_if(index_of_if: usize, commands: &Vec<Vec<String>>) -> (r: Result<(), SyntaxError>)
    requires
        index_of_if <= commands@.len(),
        heads_from(commands.deep_view(), index_of_if + 1),
    ensures
        r == if_syntax(commands.deep_view(), index_of_if + 1),
{
    let ghost cmds = commands.deep_view();
    let n = commands.len();
    if index_of_if >= n {
        return Err(SyntaxError::MissingDo);
    }
    let mut p = index_of_if + 1;
    while p < n
        invariant
            cmds == commands.deep_view(),
            n == cmds.len(),
            index_of_if + 1 <= p,
            heads_from(cmds, index_of_if + 1),
            if_syntax(cmds, index_of_if + 1) == if_syntax(cmds, p as int),
        decreases n - p,
    {
        assert(cmds[p as int].len() > 0);
        assert(cmds[p as int][0] == commands@[p as int]@[0]@);
        let cur = commands[p][0].as_str();
        if str_eq(cur, "do") {
            return Ok(());
        }
        if str_eq(cur, "if") {
            return Err(SyntaxError::UnexpectedIf);
        }
        p = p + 1;
    }
    Err(SyntaxError::MissingDo)
}

/// Scanning back from command `idx` for the `if` that a `do` closes:
/// the position just after that `if`.
pub open spec fn do_syntax(cmds: Seq<Seq<Seq<char>>>, idx: int) -> Result<usize, SyntaxError>
    decreases idx,
{
    if idx < 0 || idx >= cmds.len() {
        Err(SyntaxError::MissingIf)
    } else if cmds[idx][0] == "if"@ {
        Ok((idx + 1) as usize)
    } else if cmds[idx][0] == "do"@ {
        Err(SyntaxError::UnexpectedDo)
    } else if idx == 0 {
        Err(SyntaxError::MissingIf)
    } else {
        do_syntax(cmds, idx - 1)
    }
}

/// Finds the `if` that the `do` at `index_of_do` closes, and gives the
/// position of the first command after it.
pub fn supercmd_do(index_of_do: usize, commands: &Vec<Vec<String>>) -> (r: Result<usize, SyntaxError>)
    requires
        1 <= index_of_do <= commands@.len(),
        forall|j: int| 0 <= j < index_of_do ==> (#[trigger] commands@[j])@.len() > 0,
    ensures
        r == do_syntax(commands.deep_view(), index_of_do - 1),
{
    let ghost cmds = commands.deep_view();
    let mut idx = index_of_do - 1;
    loop
        invariant
            cmds == commands.deep_view(),
            idx < index_of_do <= cmds.len(),
            forall|j: int| 0 <= j < index_of_do ==> (#[trigger] commands@[j])@.len() > 0,
            do_syntax(cmds, index_of_do - 1) == do_syntax(cmds, idx as int),
        decreases idx,
    {
        assert(commands@[idx as int]@.len() > 0);
        assert(cmds[idx as int][0] == commands@[idx as int]@[0]@);
        let cur = commands[idx][0].as_str();
        if str_eq(cur, "if") {
            return Ok(idx + 1);
        }
        if str_eq(cur, "do") {
            return Err(SyntaxError::UnexpectedDo);
        }
        if idx == 0 {
            return Err(SyntaxError::MissingIf);
        }
        idx = idx - 1;
    }
}

/// The recorded success of each command from `from` up to (not including) `to`.
pub fn block_statuses(from: usize, to: usize, statuses: &HashMap<usize, CommandStatus>) -> (r: Vec<bool>)
    requires
        forall|i: usize| from <= i < to ==> statuses@.contains_key(i),
    ensures
        r@.len() == if from <= to { to - from } else { 0 },
        forall|k: int| 0 <= k < r@.len() ==> r@[k] == statuses@[(from + k) as usize].success,
{
    let mut r: Vec<bool> = Vec::new();
    let mut i = from;
    while i < to
        invariant
            from <= i <= to || (to < from && i == from),
            r@.len() == i - from,
            forall|i: usize| from <= i < to ==> statuses@.contains_key(i),
            forall|k: int| 0 <= k < r@.len() ==> r@[k] == statuses@[(from + k) as usize].success,
        decreases to - i,
    {
        assert(statuses@.contains_key(i));
        match statuses.get(&i) {
            Some(st) => {
                r.push(st.success);
            },
            None => {
                assert(false);
            },
        }
        i = i + 1;
    }
    r
}

/// The lengths and first letters of the built-in names, which tell them apart.
proof fn lemma_builtin_name_facts()
    ensures
        "gt"@.len() == 2 && "gt"@[0] == 'g',
        "help"@.len() == 4 && "help"@[0] == 'h',
        "?"@.len() == 1 && "?"@[0] == '?',
        "exit"@.len() == 4 && "exit"@[0] == 'e',
        "quit"@.len() == 4 && "quit"@[0] == 'q',
        "bye"@.len() == 3 && "bye"@[0] == 'b',
        "then"@.len() == 4 && "then"@[0] == 't',
        "if"@.len() == 2 && "if"@[0] == 'i',
        "do"@.len() == 2 && "do"@[0] == 'd',
{
    reveal_strlit("gt");
    reveal_strlit("help");
    reveal_strlit("?");
    reveal_strlit("exit");
    reveal_strlit("quit");
    reveal_strlit("bye");
    reveal_strlit("then");
    reveal_strlit("if");
    reveal_strlit("do");
}

/// Each built-in name, in each of its spellings, leads to its own built-in;
/// every other first word is run as a program.
pub proof fn law_builtin_names(name: Seq<char>)
    ensures
        builtin_of("gt"@) == Builtin::Gt,
        builtin_of("help"@) == Builtin::Help,
        builtin_of("?"@) == Builtin::Help,
        builtin_of("exit"@) == Builtin::Exit,
        builtin_of("quit"@) == Builtin::Exit,
        builtin_of("bye"@) == Builtin::Exit,
        builtin_of("then"@) == Builtin::Then,
        builtin_of("if"@) == Builtin::If,
        builtin_of("do"@) == Builtin::Do,
        !(name == "gt"@ || name == "help"@ || name == "?"@ || name == "exit"@ || name == "quit"@ || name
            == "bye"@ || name == "then"@ || name == "if"@ || name == "do"@) ==> builtin_of(name) == Builtin::Run,
        is_super_command(name) <==> (name == "then"@ || name == "if"@ || name == "do"@),
{
    lemma_builtin_name_facts();
}

/// `gt` goes somewhere exactly when it is given one directory, which is
/// where it goes; with none or several it fails, telling which.
pub proof fn law_gt_needs_one_directory(args: Seq<Seq<char>>)
    requires
        args.len() >= 1,
    ensures
        (gt_outcome(args) is Ok) <==> args.len() == 2,
        args.len() == 2 ==> gt_outcome(args) == Ok::<Seq<char>, GtError>(args[1]),
        args.len() == 1 ==> gt_outcome(args) == Err::<Seq<char>, GtError>(GtError::MissingPath),
        args.len() > 2 ==> gt_outcome(args) == Err::<Seq<char>, GtError>(GtError::TooManyPaths),
{
}

/// `exit n` leaves with code `n` and records a success, for every code that
/// is not negative; `exit` alone leaves with code 0 and records a failure;
/// the shell leaves in no other case.
pub proof fn law_exit_codes(args: Seq<Seq<char>>, n: i32)
    requires
        args.len() >= 1,
    ensures
        n >= 0 ==> exit_outcome(seq!["exit"@, decimal(n as nat)]) == (ExitStep::Quit(n), true),
        exit_outcome(seq!["exit"@]) == (ExitStep::Quit(0), false),
        (exit_outcome(args).0 is Quit) ==> (args.len() == 1 || args.len() == 2),
        exit_outcome(args).1 ==> (exit_outcome(args).0 is Quit),
        args.len() > 2 ==> exit_outcome(args) == (ExitStep::TooManyCodes, false),
{
    if n >= 0 {
        crate::parse::law_decimal_reads_back(n as nat, i32::MIN as int, i32::MAX as int);
    }
}

/// The `if` syntax holds exactly when a `do` follows with no other `if` or
/// `do` before it: scanning from `p`, the first command that is `if` or
/// `do` must be a `do`.
pub proof fn law_if_needs_do(cmds: Seq<Seq<Seq<char>>>, p: int)
    requires
        0 <= p,
        heads_from(cmds, p),
    ensures
        (if_syntax(cmds, p) is Ok) <==> exists|k: int|
            p <= k < cmds.len() && (#[trigger] cmds[k])[0] == "do"@ && forall|m: int|
                p <= m < k ==> (#[trigger] cmds[m])[0] != "do"@ && cmds[m][0] != "if"@,
        if_syntax(cmds, p) is Err ==> (if_syntax(cmds, p) == Err::<(), SyntaxError>(SyntaxError::MissingDo)
            || if_syntax(cmds, p) == Err::<(), SyntaxError>(SyntaxError::UnexpectedIf)),
    decreases cmds.len() - p,
{
    if p < cmds.len() {
        if cmds[p][0] == "do"@ {
            assert(p <= p < cmds.len() && cmds[p][0] == "do"@);
        } else if cmds[p][0] == "if"@ {
            if exists|k: int|
                p <= k < cmds.len() && (#[trigger] cmds[k])[0] == "do"@ && forall|m: int|
                    p <= m < k ==> (#[trigger] cmds[m])[0] != "do"@ && cmds[m][0] != "if"@ {
                let k = choose|k: int|
                    p <= k < cmds.len() && (#[trigger] cmds[k])[0] == "do"@ && forall|m: int|
                        p <= m < k ==> (#[trigger] cmds[m])[0] != "do"@ && cmds[m][0] != "if"@;
                if k > p {
                    assert(cmds[p][0] != "if"@);
                }
            }
        } else {
            law_if_needs_do(cmds, p + 1);
            if if_syntax(cmds, p + 1) is Ok {
                let k = choose|k: int|
                    p + 1 <= k < cmds.len() && (#[trigger] cmds[k])[0] == "do"@ && forall|m: int|
                        p + 1 <= m < k ==> (#[trigger] cmds[m])[0] != "do"@ && cmds[m][0] != "if"@;
                assert(p <= k < cmds.len() && cmds[k][0] == "do"@ && forall|m: int|
                    p <= m < k ==> (#[trigger] cmds[m])[0] != "do"@ && cmds[m][0] != "if"@);
            } else {
                if exists|k: int|
                    p <= k < cmds.len() && (#[trigger] cmds[k])[0] == "do"@ && forall|m: int|
                        p <= m < k ==> (#[trigger] cmds[m])[0] != "do"@ && cmds[m][0] != "if"@ {
                    let k = choose|k: int|
                        p <= k < cmds.len() && (#[trigger] cmds[k])[0] == "do"@ && forall|m: int|
                            p <= m < k ==> (#[trigger] cmds[m])[0] != "do"@ && cmds[m][0] != "if"@;
                    assert(k != p);
                    assert(p + 1 <= k < cmds.len() && cmds[k][0] == "do"@ && forall|m: int|
                        p + 1 <= m < k ==> (#[trigger] cmds[m])[0] != "do"@ && cmds[m][0] != "if"@);
                }
            }
        }
    }
}

/// A `do` finds its `if` exactly when, scanning back from just before it,
/// the first command that is `if` or `do` is an `if`; the block then starts
/// right after that `if`.
pub proof fn law_do_finds_if(cmds: Seq<Seq<Seq<char>>>, idx: int)
    requires
        0 <= idx < cmds.len(),
        cmds.len() <= usize::MAX,
        forall|j: int| 0 <= j <= idx ==> (#[trigger] cmds[j]).len() > 0,
    ensures
        do_syntax(cmds, idx) matches Ok(start) ==> 1 <= start <= idx + 1 && cmds[start - 1][0] == "if"@
            && forall|m: int| start <= m <= idx ==> (#[trigger] cmds[m])[0] != "if"@ && cmds[m][0] != "do"@,
        (do_syntax(cmds, idx) is Err) ==> forall|j: int|
            0 <= j <= idx && (#[trigger] cmds[j])[0] == "if"@ ==> exists|m: int|
                j < m <= idx && ((#[trigger] cmds[m])[0] == "do"@ || cmds[m][0] == "if"@),
    decreases idx,
{
    if cmds[idx][0] != "if"@ && cmds[idx][0] != "do"@ && idx > 0 {
        law_do_finds_if(cmds, idx - 1);
        if do_syntax(cmds, idx) is Ok {
            let start = do_syntax(cmds, idx)->Ok_0;
            assert forall|m: int| start <= m <= idx implies (#[trigger] cmds[m])[0] != "if"@ && cmds[m][0] != "do"@ by {
                if m < idx {
                    assert(start <= m <= idx - 1);
                }
            }
        }
        if do_syntax(cmds, idx) is Err {
            assert forall|j: int|
                0 <= j <= idx && (#[trigger] cmds[j])[0] == "if"@ implies exists|m: int|
                    j < m <= idx && ((#[trigger] cmds[m])[0] == "do"@ || cmds[m][0] == "if"@) by {
                if j == idx {
                } else {
                    let m = choose|m: int| j < m <= idx - 1 && ((#[trigger] cmds[m])[0] == "do"@ || cmds[m][0] == "if"@);
                    assert(j < m <= idx && (cmds[m][0] == "do"@ || cmds[m][0] == "if"@));
                }
            }
        }
    } else if cmds[idx][0] == "do"@ {
        assert forall|j: int|
            0 <= j <= idx && (#[trigger] cmds[j])[0] == "if"@ implies exists|m: int|
                j < m <= idx && ((#[trigger] cmds[m])[0] == "do"@ || cmds[m][0] == "if"@) by {
            if j < idx {
                assert(cmds[idx][0] == "do"@);
            } else {
                reveal_strlit("if");
                reveal_strlit("do");
                assert("if"@[0] != "do"@[0]);
            }
        }
    }
}

} // verus!
