use vstd::prelude::*;

use crate::text::{chars_of, is_space, is_space_char};

verus! {

/// The commands of the transform language.
#[derive(Clone, Copy, Debug, PartialEq, Eq, Structural)]
pub enum CommandKind {
    Identity,
    Translate,
    Rotate,
    Scale,
    LookAt,
}

/// One command with the text of its numeric arguments, in order.
#[derive(Clone, Debug, PartialEq, Eq)]
pub struct Command {
    pub kind: CommandKind,
    pub args: Vec<String>,
}

pub struct CommandSpec {
    pub kind: CommandKind,
    pub args: Seq<Seq<char>>,
}

pub open spec fn strings_view(v: Seq<String>) -> Seq<Seq<char>> {
    v.map_values(|x: String| x@)
}

impl View for Command {
    type V = CommandSpec;

    open spec fn view(&self) -> CommandSpec {
        CommandSpec { kind: self.kind, args: strings_view(self.args@) }
    }
}

/// A compiled transform program.
///
/// The matrix it stands for is `ops[n-1] * ... * ops[0] * base`: `base` is an
/// `Identity` or a `LookAt` command, and `ops` holds the `Translate`, `Rotate`
/// and `Scale` commands that follow it, in the order written, each applied
/// after the ones before it.
#[derive(Clone, Debug, PartialEq, Eq)]
pub struct TransformPlan {
    pub base: Command,
    pub ops: Vec<Command>,
}

pub struct PlanSpec {
    pub base: CommandSpec,
    pub ops: Seq<CommandSpec>,
}

impl View for TransformPlan {
    type V = PlanSpec;

    open spec fn view(&self) -> PlanSpec {
        PlanSpec { base: self.base@, ops: commands_view(self.ops@) }
    }
}

/// Why a transform program was rejected.
#[derive(Clone, Debug, PartialEq, Eq)]
pub enum TransformError {
    /// A line starts with a word that names no command.
    UnknownCommand(String),
    /// A command has fewer numeric arguments than it takes.
    MissingArgument(CommandKind),
    /// A command has more numeric arguments than it takes.
    ExtraArguments(CommandKind),
}

pub enum TransformErrorSpec {
    UnknownCommand(Seq<char>),
    MissingArgument(CommandKind),
    ExtraArguments(CommandKind),
}

impl View for TransformError {
    type V = TransformErrorSpec;

    open spec fn view(&self) -> TransformErrorSpec {
        match self {
            TransformError::UnknownCommand(s) => TransformErrorSpec::UnknownCommand(s@),
            TransformError::MissingArgument(k) => TransformErrorSpec::MissingArgument(*k),
            TransformError::ExtraArguments(k) => TransformErrorSpec::ExtraArguments(*k),
        }
    }
}

/// The command that a word names.
pub open spec fn command_named(name: Seq<char>) -> Option<CommandKind> {
    if name == "identity"@ {
        Some(CommandKind::Identity)
    } else if name == "translate"@ {
        Some(CommandKind::Translate)
    } else if name == "rotate"@ {
        Some(CommandKind::Rotate)
    } else if name == "scale"@ {
        Some(CommandKind::Scale)
    } else if name == "lookat"@ {
        Some(CommandKind::LookAt)
    } else {
        None
    }
}

/// How many numeric arguments a command takes.
pub open spec fn arity(kind: CommandKind) -> nat {
    match kind {
        CommandKind::Identity => 0,
        CommandKind::Translate => 3,
        CommandKind::Rotate => 4,
        CommandKind::Scale => 3,
        CommandKind::LookAt => 9,
    }
}

/// Whether a command replaces what came before it rather than composing with it.
pub open spec fn resets(kind: CommandKind) -> bool {
    kind == CommandKind::Identity || kind == CommandKind::LookAt
}

/// The words of each line of `s`: lines are split at `\n`, words at ASCII
/// whitespace. Only ASCII whitespace separates words or leaves a line blank:
/// any other white space character (U+00A0, U+3000, ...) is part of a word,
/// also at either end of a line.
pub open spec fn line_words(s: Seq<char>) -> Seq<Seq<Seq<char>>>
    decreases s.len(),
{
    if s.len() == 0 {
        seq![seq![]]
    } else {
        let p = s.drop_last();
        let c = s.last();
        let lines = line_words(p);
        if c == '\n' {
            lines.push(seq![])
        } else if is_space(c) {
            lines
        } else if p.len() > 0 && !is_space(p.last()) {
            let ws = lines.last();
            lines.update(lines.len() - 1, ws.update(ws.len() - 1, ws.last().push(c)))
        } else {
            lines.update(lines.len() - 1, lines.last().push(seq![c]))
        }
    }
}

/// What one line, given as its words, contributes: nothing for a blank line
/// or a comment, else one command.
pub open spec fn interpret_line(ws: Seq<Seq<char>>) -> Result<Option<CommandSpec>, TransformErrorSpec> {
    if ws.len() == 0 || (ws[0].len() > 0 && ws[0][0] == '#') {
        Ok(None)
    } else {
        match command_named(ws[0]) {
            None => Err(TransformErrorSpec::UnknownCommand(ws[0])),
            Some(kind) => if ws.len() - 1 < arity(kind) {
                Err(TransformErrorSpec::MissingArgument(kind))
            } else if ws.len() - 1 > arity(kind) {
                Err(TransformErrorSpec::ExtraArguments(kind))
            } else {
                Ok(Some(CommandSpec { kind, args: ws.drop_first() }))
            },
        }
    }
}

/// The commands of a sequence of lines, or the error of the first bad line.
pub open spec fn interpret_lines(lines: Seq<Seq<Seq<char>>>) -> Result<Seq<CommandSpec>, TransformErrorSpec>
    decreases lines.len(),
{
    if lines.len() == 0 {
        Ok(seq![])
    } else {
        match interpret_lines(lines.drop_last()) {
            Err(e) => Err(e),
            Ok(cmds) => match interpret_line(lines.last()) {
                Err(e) => Err(e),
                Ok(None) => Ok(cmds),
                Ok(Some(c)) => Ok(cmds.push(c)),
            },
        }
    }
}

pub open spec fn identity_command() -> CommandSpec {
    CommandSpec { kind: CommandKind::Identity, args: seq![] }
}

/// The plan of a command sequence, folded left to right from the identity.
pub open spec fn plan_of(cmds: Seq<CommandSpec>) -> PlanSpec
    decreases cmds.len(),
{
    if cmds.len() == 0 {
        PlanSpec { base: identity_command(), ops: seq![] }
    } else {
        let c = cmds.last();
        if resets(c.kind) {
            PlanSpec { base: c, ops: seq![] }
        } else {
            let p = plan_of(cmds.drop_last());
            PlanSpec { base: p.base, ops: p.ops.push(c) }
        }
    }
}

/// The plan that a program compiles to, or the error of its first bad line.
pub open spec fn compile_spec(s: Seq<char>) -> Result<PlanSpec, TransformErrorSpec> {
    match interpret_lines(line_words(s)) {
        Ok(cmds) => Ok(plan_of(cmds)),
        Err(e) => Err(e),
    }
}

pub open spec fn commands_view(v: Seq<Command>) -> Seq<CommandSpec> {
    v.map_values(|c: Command| c@)
}

pub open spec fn error_view(e: Option<TransformError>) -> Option<TransformErrorSpec> {
    match e {
        Some(x) => Some(x@),
        None => None,
    }
}

/// The commands read so far and the first error, after one more line.
pub open spec fn collect_step(
    acc: (Seq<CommandSpec>, Option<TransformErrorSpec>),
    ws: Seq<Seq<char>>,
) -> (Seq<CommandSpec>, Option<TransformErrorSpec>) {
    if acc.1 is Some {
        acc
    } else {
        match interpret_line(ws) {
            Err(e) => (acc.0, Some(e)),
            Ok(None) => acc,
            Ok(Some(c)) => (acc.0.push(c), None),
        }
    }
}

/// The commands of the lines before the first bad one, and that line's error.
pub open spec fn collect_lines(lines: Seq<Seq<Seq<char>>>) -> (Seq<CommandSpec>, Option<TransformErrorSpec>)
    decreases lines.len(),
{
    if lines.len() == 0 {
        (seq![], None)
    } else {
        collect_step(collect_lines(lines.drop_last()), lines.last())
    }
}

/// The text of each word, given by its start and end positions in `s`.
pub open spec fn words_view(s: Seq<char>, ws: Seq<(usize, usize)>) -> Seq<Seq<char>> {
    ws.map_values(|w: (usize, usize)| s.subrange(w.0 as int, w.1 as int))
}

/// Each word's positions are in order and end at or before `bound`.
pub open spec fn words_within(ws: Seq<(usize, usize)>, bound: int) -> bool {
    forall|k: int| 0 <= k < ws.len() ==> #[trigger] ws[k].0 <= ws[k].1 <= bound
}

pub proof fn lemma_line_words_nonempty(s: Seq<char>)
    ensures
        line_words(s).len() >= 1,
    decreases s.len(),
{
    if s.len() > 0 {
        lemma_line_words_nonempty(s.drop_last());
    }
}

/// Reads a transform program, one command per line, into its commands in the
/// order written, up to the first line whose command name or argument count
/// is wrong, and that line's error. Blank lines and lines whose first word
/// starts with `#` are skipped. The arguments are handed on as text: whether
/// each is a number is for the caller to decide, command by command.
pub fn compile_commands(transform_str: &str) -> (r: (Vec<Command>, Option<TransformError>))
    ensures
        (commands_view(r.0@), error_view(r.1)) == collect_lines(line_words(transform_str@)),
{
    let chars = chars_of(transform_str);
    let ghost s = transform_str@;
    let n = chars.len();
    let mut words: Vec<(usize, usize)> = Vec::new();
    let mut cmds: Vec<Command> = Vec::new();
    proof {
        assert(s.take(0) =~= seq![]);
        assert(commands_view(cmds@) =~= seq![]);
        assert(words_view(s, words@) =~= seq![]);
    }
    let mut failed: Option<TransformError> = None;
    let mut i: usize = 0;
    while i < n
        invariant
            chars@ == s,
            s == transform_str@,
            n == s.len(),
            i <= n,
            line_words(s.take(i as int)).len() >= 1,
            collect_lines(line_words(s.take(i as int)).drop_last()) == (
                commands_view(cmds@),
                error_view(failed),
            ),
            words_view(s, words@) == line_words(s.take(i as int)).last(),
            words_within(words@, i as int),
            i > 0 && !is_space(s[i - 1]) ==> words@.len() > 0 && words@.last().1 == i,
        decreases n - i,
    {
        let c = chars[i];
        let ghost before = s.take(i as int);
        let ghost after = s.take(i + 1);
        let ghost lines = line_words(before);
        proof {
            assert(after.drop_last() =~= before);
            assert(after.last() == c);
            lemma_line_words_nonempty(after);
        }
        if c == '\n' {
            proof {
                assert(line_words(after).drop_last() =~= lines);
            }
            take_line(transform_str, &words, &mut cmds, &mut failed);
            words = Vec::new();
            assert(words_within(words@, i + 1));
            proof {
                assert(words_view(s, words@) =~= seq![]);
            }
        } else if is_space_char(c) {
            assert(words_within(words@, i + 1));
        } else if i > 0 && !is_space_char(chars[i - 1]) {
            let last = words.len() - 1;
            let (a, b) = words[last];
            let ghost old_words = words@;
            words.set(last, (a, i + 1));
            proof {
                assert(words_within(old_words, i as int));
                assert(old_words[last as int].0 <= old_words[last as int].1);
                assert forall|k: int| 0 <= k < words@.len() implies #[trigger] words@[k].0
                    <= words@[k].1 <= i + 1 by {
                    if k != last {
                        assert(words@[k] == old_words[k]);
                        assert(old_words[k].0 <= old_words[k].1 <= i);
                    }
                }
                assert(words_within(words@, i + 1));
                assert(s.subrange(a as int, i + 1) =~= s.subrange(a as int, i as int).push(c));
                assert(words_view(s, words@) =~= line_words(after).last());
                assert(line_words(after).drop_last() =~= lines.drop_last());
            }
        } else {
            let ghost old_words = words@;
            words.push((i, i + 1));
            proof {
                assert forall|k: int| 0 <= k < words@.len() implies #[trigger] words@[k].0
                    <= words@[k].1 <= i + 1 by {
                    if k < old_words.len() {
                        assert(words@[k] == old_words[k]);
                    }
                }
                assert(words_within(words@, i + 1));
                assert(s.subrange(i as int, i + 1) =~= seq![c]);
                assert(words_view(s, words@) =~= line_words(after).last());
                assert(line_words(after).drop_last() =~= lines.drop_last());
            }
        }
        assert(words_within(words@, i + 1));
        i = i + 1;
    }
    proof {
        assert(s.take(n as int) =~= s);
    }
    take_line(transform_str, &words, &mut cmds, &mut failed);
    (cmds, failed)
}

/// Adds what one line contributes, unless an earlier line has failed.
fn take_line(
    text: &str,
    words: &Vec<(usize, usize)>,
    cmds: &mut Vec<Command>,
    failed: &mut Option<TransformError>,
)
    requires
        words_within(words@, text@.len() as int),
    ensures
        (commands_view(final(cmds)@), error_view(*final(failed))) == collect_step(
            (commands_view(old(cmds)@), error_view(*old(failed))),
            words_view(text@, words@),
        ),
{
    if failed.is_none() {
        match interpret_words(text, words) {
            Err(e) => {
                *failed = Some(e);
            },
            Ok(None) => {},
            Ok(Some(cmd)) => {
                let ghost before = cmds@;
                cmds.push(cmd);
                assert(commands_view(cmds@) =~= commands_view(before).push(cmd@));
            },
        }
    }
}

/// Compiles a transform program into the plan of the matrix it describes.
/// Only command names and argument counts are checked here; see
/// `compile_commands` for a caller that also reads the arguments as numbers.
pub fn compile_transform(transform_str: &str) -> (r: Result<TransformPlan, TransformError>)
    ensures
        match compile_spec(transform_str@) {
            Ok(p) => r matches Ok(plan) && plan@ == p,
            Err(e) => r matches Err(x) && x@ == e,
        },
{
    let (cmds, failed) = compile_commands(transform_str);
    proof {
        lemma_collect_agrees(line_words(transform_str@));
    }
    match failed {
        Some(e) => Err(e),
        None => Ok(plan_from_commands(cmds)),
    }
}

/// The plan of a command sequence: the last `identity` or `lookat` (or the
/// identity, if there is none) followed by the commands after it.
pub fn plan_from_commands(cmds: Vec<Command>) -> (r: TransformPlan)
    ensures
        r@ == plan_of(commands_view(cmds@)),
{
    let ghost all = cmds@;
    let mut cmds = cmds;
    let mut k: usize = cmds.len();
    while k > 0 && !(cmds[k - 1].kind == CommandKind::Identity || cmds[k - 1].kind
        == CommandKind::LookAt)
        invariant
            cmds@ == all,
            k <= all.len(),
            forall|j: int| k <= j < all.len() ==> !resets(#[trigger] all[j].kind),
        decreases k,
    {
        k = k - 1;
    }
    proof {
        lemma_plan_after_last_reset(commands_view(all), k as int);
    }
    let ops = cmds.split_off(k);
    assert(commands_view(ops@) =~= commands_view(all).subrange(k as int, all.len() as int));
    let base = if k == 0 {
        let b = Command { kind: CommandKind::Identity, args: Vec::new() };
        assert(b@.args =~= seq![]);
        assert(commands_view(all).subrange(0, all.len() as int) =~= commands_view(all));
        b
    } else {
        let b = cmds.pop().unwrap();
        assert(b == all[k - 1]);
        assert(b@ == commands_view(all)[k - 1]);
        b
    };
    TransformPlan { base, ops }
}

proof fn lemma_plan_after_last_reset(cs: Seq<CommandSpec>, k: int)
    requires
        0 <= k <= cs.len(),
        forall|j: int| k <= j < cs.len() ==> !resets(#[trigger] cs[j].kind),
        k == 0 || resets(cs[k - 1].kind),
    ensures
        plan_of(cs) == (if k == 0 {
            PlanSpec { base: identity_command(), ops: cs }
        } else {
            PlanSpec { base: cs[k - 1], ops: cs.subrange(k, cs.len() as int) }
        }),
    decreases cs.len(),
{
    if cs.len() == k {
        if k == 0 {
            assert(cs =~= seq![]);
        } else {
            assert(cs.subrange(k, k) =~= seq![]);
        }
    } else {
        let init = cs.drop_last();
        assert forall|j: int| k <= j < init.len() implies !resets(#[trigger] init[j].kind) by {
            assert(init[j] == cs[j]);
        }
        if k > 0 {
            assert(init[k - 1] == cs[k - 1]);
        }
        lemma_plan_after_last_reset(init, k);
        assert(!resets(cs[cs.len() - 1].kind));
        assert(init.push(cs.last()) =~= cs);
        assert(init.subrange(k, init.len() as int).push(cs.last()) =~= cs.subrange(k, cs.len() as int));
    }
}

/// The step-by-step reading agrees with `interpret_lines`.
pub proof fn lemma_collect_agrees(lines: Seq<Seq<Seq<char>>>)
    ensures
        match collect_lines(lines) {
            (c, None) => interpret_lines(lines) == Ok::<Seq<CommandSpec>, TransformErrorSpec>(c),
            (_, Some(e)) => interpret_lines(lines) == Err::<Seq<CommandSpec>, TransformErrorSpec>(e),
        },
    decreases lines.len(),
{
    if lines.len() > 0 {
        lemma_collect_agrees(lines.drop_last());
    }
}



fn interpret_words(text: &str, words: &Vec<(usize, usize)>) -> (r: Result<
    Option<Command>,
    TransformError,
>)
    requires
        words_within(words@, text@.len() as int),
    ensures
        match interpret_line(words_view(text@, words@)) {
            Ok(None) => r matches Ok(None),
            Ok(Some(c)) => r matches Ok(Some(cmd)) && cmd@ == c,
            Err(e) => r matches Err(x) && x@ == e,
        },
{
    let ghost ws = words_view(text@, words@);
    if words.len() == 0 {
        return Ok(None);
    }
    let (a, b) = words[0];
    assert(ws[0] == text@.subrange(a as int, b as int));
    if a < b && text.get_char(a) == '#' {
        return Ok(None);
    }
    let name = String::from_str(text.substring_char(a, b));
    let kind = match command_kind_named(&name) {
        Some(k) => k,
        None => return Err(TransformError::UnknownCommand(name)),
    };
    let takes = command_arity(kind);
    if words.len() - 1 < takes {
        return Err(TransformError::MissingArgument(kind));
    }
    if words.len() - 1 > takes {
        return Err(TransformError::ExtraArguments(kind));
    }
    let mut args: Vec<String> = Vec::new();
    let mut k: usize = 1;
    while k < words.len()
        invariant
            ws == words_view(text@, words@),
            1 <= k <= words@.len(),
            words_within(words@, text@.len() as int),
            strings_view(args@) == ws.subrange(1, k as int),
        decreases words@.len() - k,
    {
        let (a, b) = words[k];
        let arg = String::from_str(text.substring_char(a, b));
        let ghost prev = args@;
        args.push(arg);
        assert(strings_view(args@) =~= strings_view(prev).push(arg@));
        assert(strings_view(args@) =~= ws.subrange(1, k + 1));
        k = k + 1;
    }
    assert(ws.drop_first() =~= ws.subrange(1, ws.len() as int));
    Ok(Some(Command { kind, args }))
}

fn command_kind_named(name: &String) -> (r: Option<CommandKind>)
    ensures
        r == command_named(name@),
{
    if *name == String::from_str("identity") {
        Some(CommandKind::Identity)
    } else if *name == String::from_str("translate") {
        Some(CommandKind::Translate)
    } else if *name == String::from_str("rotate") {
        Some(CommandKind::Rotate)
    } else if *name == String::from_str("scale") {
        Some(CommandKind::Scale)
    } else if *name == String::from_str("lookat") {
        Some(CommandKind::LookAt)
    } else {
        None
    }
}

fn command_arity(kind: CommandKind) -> (r: usize)
    ensures
        r == arity(kind),
{
    match kind {
        CommandKind::Identity => 0,
        CommandKind::Translate => 3,
        CommandKind::Rotate => 4,
        CommandKind::Scale => 3,
        CommandKind::LookAt => 9,
    }
}

} // verus!
