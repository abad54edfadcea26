use vstd::prelude::*;

use crate::text::is_space;
use crate::transform::{
    arity, command_named, lemma_line_words_nonempty, compile_spec, identity_command, interpret_line, interpret_lines,
    line_words, plan_of, resets, CommandKind, CommandSpec, PlanSpec, TransformErrorSpec,
};

verus! {

proof fn lemma_line_words_concat(p: Seq<char>, q: Seq<char>)
    ensures
        line_words(p.push('\n') + q) == line_words(p) + line_words(q),
    decreases q.len(),
{
    let x = p.push('\n') + q;
    if q.len() == 0 {
        assert(x =~= p.push('\n'));
        assert(x.drop_last() =~= p);
        assert(line_words(p).push(seq![]) =~= line_words(p) + seq![seq![]]);
    } else {
        let q0 = q.drop_last();
        let c = q.last();
        let x0 = p.push('\n') + q0;
        lemma_line_words_concat(p, q0);
        assert(x.drop_last() =~= x0);
        assert(x.last() == c);
        let a = line_words(p);
        let b = line_words(q0);
        lemma_line_words_nonempty(q0);
        if c == '\n' {
            assert((a + b).push(seq![]) =~= a + b.push(seq![]));
        } else if is_space(c) {
        } else {
            if q0.len() > 0 {
                assert(x0.last() == q0.last());
            } else {
                assert(x0.last() == '\n');
            }
            if q0.len() > 0 && !is_space(q0.last()) {
                let ws = b.last();
                assert((a + b).update(a.len() + b.len() - 1, ws.update(ws.len() - 1, ws.last().push(c)))
                    =~= a + b.update(b.len() - 1, ws.update(ws.len() - 1, ws.last().push(c))));
            } else {
                assert((a + b).update(a.len() + b.len() - 1, b.last().push(seq![c])) =~= a + b.update(
                    b.len() - 1,
                    b.last().push(seq![c]),
                ));
            }
        }
    }
}

proof fn lemma_interpret_lines_concat(a: Seq<Seq<Seq<char>>>, b: Seq<Seq<Seq<char>>>)
    requires
        interpret_lines(a) is Ok,
    ensures
        interpret_lines(a + b) == match interpret_lines(b) {
            Ok(cb) => Ok::<Seq<CommandSpec>, TransformErrorSpec>(interpret_lines(a)->Ok_0 + cb),
            Err(e) => Err(e),
        },
    decreases b.len(),
{
    let ca = interpret_lines(a)->Ok_0;
    if b.len() == 0 {
        assert(a + b =~= a);
        assert(ca + seq![] =~= ca);
    } else {
        lemma_interpret_lines_concat(a, b.drop_last());
        assert((a + b).drop_last() =~= a + b.drop_last());
        assert((a + b).last() == b.last());
        if let Ok(cb) = interpret_lines(b.drop_last()) {
            if let Ok(Some(c)) = interpret_line(b.last()) {
                assert((ca + cb).push(c) =~= ca + cb.push(c));
            }
        }
    }
}

proof fn lemma_plan_after_reset(a: Seq<CommandSpec>, b: Seq<CommandSpec>)
    requires
        b.len() > 0,
        resets(b[0].kind),
    ensures
        plan_of(a + b) == plan_of(b),
    decreases b.len(),
{
    if b.len() == 1 {
        assert((a + b).last() == b[0]);
        assert(b.last() == b[0]);
    } else {
        lemma_plan_after_reset(a, b.drop_last());
        assert((a + b).drop_last() =~= a + b.drop_last());
        assert((a + b).last() == b.last());
        assert(b.drop_last()[0] == b[0]);
    }
}

/// A program whose first command is `identity` or `lookat` compiles to the
/// same plan whatever valid program stands before it: that command discards
/// everything accumulated so far.
pub proof fn law_reset_discards_prior(before: Seq<char>, program: Seq<char>)
    requires
        compile_spec(before) is Ok,
        interpret_lines(line_words(program)) matches Ok(cmds) && cmds.len() > 0 && resets(
            cmds[0].kind,
        ),
    ensures
        compile_spec(before.push('\n') + program) == compile_spec(program),
{
    lemma_line_words_concat(before, program);
    let a = line_words(before);
    let b = line_words(program);
    lemma_interpret_lines_concat(a, b);
    let ca = interpret_lines(a)->Ok_0;
    let cb = interpret_lines(b)->Ok_0;
    lemma_plan_after_reset(ca, cb);
}

proof fn lemma_no_commands(lines: Seq<Seq<Seq<char>>>)
    requires
        forall|k: int|
            0 <= k < lines.len() ==> (#[trigger] lines[k]).len() == 0 || (lines[k][0].len() > 0
                && lines[k][0][0] == '#'),
    ensures
        interpret_lines(lines) == Ok::<Seq<CommandSpec>, TransformErrorSpec>(seq![]),
    decreases lines.len(),
{
    if lines.len() > 0 {
        let init = lines.drop_last();
        assert forall|k: int| 0 <= k < init.len() implies (#[trigger] init[k]).len() == 0 || (
        init[k][0].len() > 0 && init[k][0][0] == '#') by {
            assert(init[k] == lines[k]);
        }
        lemma_no_commands(init);
        assert(lines.last() == lines[lines.len() - 1]);
    }
}

/// A program made only of blank lines and comments compiles to the identity.
pub proof fn law_comments_compile_to_identity(program: Seq<char>)
    requires
        forall|k: int|
            0 <= k < line_words(program).len() ==> (#[trigger] line_words(program)[k]).len() == 0
                || (line_words(program)[k][0].len() > 0 && line_words(program)[k][0][0] == '#'),
    ensures
        compile_spec(program) == Ok::<PlanSpec, TransformErrorSpec>(
            PlanSpec { base: identity_command(), ops: seq![] },
        ),
{
    lemma_no_commands(line_words(program));
}

/// With no `identity` or `lookat` among them, commands compose in the order
/// written on top of the identity: each one is applied after those before it.
pub proof fn law_ops_compose_in_order(cmds: Seq<CommandSpec>)
    requires
        forall|k: int| 0 <= k < cmds.len() ==> !resets(#[trigger] cmds[k].kind),
    ensures
        plan_of(cmds) == (PlanSpec { base: identity_command(), ops: cmds }),
    decreases cmds.len(),
{
    if cmds.len() > 0 {
        let init = cmds.drop_last();
        assert forall|k: int| 0 <= k < init.len() implies !resets(#[trigger] init[k].kind) by {
            assert(init[k] == cmds[k]);
        }
        law_ops_compose_in_order(init);
        assert(!resets(cmds[cmds.len() - 1].kind));
        assert(init.push(cmds.last()) =~= cmds);
    } else {
        assert(cmds =~= seq![]);
    }
}

/// A command line with more numeric arguments than its command takes is
/// rejected as such, and one with fewer as missing an argument.
pub proof fn law_argument_count_is_checked(ws: Seq<Seq<char>>, kind: CommandKind)
    requires
        ws.len() > 0,
        command_named(ws[0]) == Some(kind),
        ws.len() - 1 != arity(kind),
    ensures
        ws.len() - 1 > arity(kind) ==> interpret_line(ws) == Err::<Option<CommandSpec>, TransformErrorSpec>(
            TransformErrorSpec::ExtraArguments(kind),
        ),
        ws.len() - 1 < arity(kind) ==> interpret_line(ws) == Err::<Option<CommandSpec>, TransformErrorSpec>(
            TransformErrorSpec::MissingArgument(kind),
        ),
{
    reveal_strlit("identity");
    reveal_strlit("translate");
    reveal_strlit("rotate");
    reveal_strlit("scale");
    reveal_strlit("lookat");
    assert(ws[0][0] != '#');
}

/// The first line that fails stops a program: whatever follows it, the
/// program fails with that line's error.
pub proof fn law_first_error_stops(lines: Seq<Seq<Seq<char>>>, k: int)
    requires
        0 <= k < lines.len(),
        interpret_lines(lines.take(k)) is Ok,
        interpret_line(lines[k]) is Err,
    ensures
        interpret_lines(lines) == Err::<Seq<CommandSpec>, TransformErrorSpec>(
            interpret_line(lines[k])->Err_0,
        ),
{
    assert(lines.take(k + 1).drop_last() =~= lines.take(k));
    assert(lines.take(k + 1).last() == lines[k]);
    lemma_error_persists(lines, k + 1);
}

proof fn lemma_error_persists(lines: Seq<Seq<Seq<char>>>, m: int)
    requires
        0 < m <= lines.len(),
        interpret_lines(lines.take(m)) is Err,
    ensures
        interpret_lines(lines) == interpret_lines(lines.take(m)),
    decreases lines.len() - m,
{
    if m == lines.len() {
        assert(lines.take(m) =~= lines);
    } else {
        assert(lines.take(m + 1).drop_last() =~= lines.take(m));
        lemma_error_persists(lines, m + 1);
    }
}

} // verus!
