//! The whole pipeline from a script's text to its printed lines and result.
use vstd::prelude::*;
use crate::executor::{
    Machine,
    pop_error,
    pop_line,
    program_result,
    result_view,
    run_nodes,
    stack_execution,
    step,
};
use crate::grammar::{
    Expr,
    Pair,
    Scan,
    expected_text,
    lemma_failure_in_source,
    node_of,
    parse,
    pest_error_text,
    push_at,
    pop_at,
    scan,
    space_run,
    text_run,
    tree_of,
};

verus! {

/// Executing expression `e` of source `s` as instruction `index` on `stack`.
pub open spec fn expr_step(stack: Seq<Seq<char>>, s: Seq<char>, e: Expr, index: int) -> Machine {
    match e {
        Expr::Push { start, lit_start, lit_end } => Machine {
            stack: stack.push(s.subrange(lit_start, lit_end)),
            output: seq![],
            result: Ok(index + 1),
        },
        Expr::Pop { start } => if stack.len() > 0 {
            Machine {
                stack: stack.drop_last(),
                output: seq![pop_line(stack.last())],
                result: Ok(index + 1),
            }
        } else {
            Machine {
                stack,
                output: seq![],
                result: Err(pop_error(index as nat, s.subrange(start, start + 3))),
            }
        },
    }
}

/// Executing the expressions `es` of `s` in order from an empty stack and index 0,
/// stopping at the first failure.
pub open spec fn run_exprs(s: Seq<char>, es: Seq<Expr>) -> Machine
    decreases es.len(),
{
    if es.len() == 0 {
        Machine { stack: seq![], output: seq![], result: Ok(0) }
    } else {
        let m = run_exprs(s, es.drop_last());
        match m.result {
            Ok(index) => {
                let t = expr_step(m.stack, s, es.last(), index);
                Machine { stack: t.stack, output: m.output + t.output, result: t.result }
            },
            Err(_) => m,
        }
    }
}

/// Executing a program with expressions `es` of `s`: the expressions, then the
/// end-of-input marker, which counts as one more instruction.
pub open spec fn run_program(s: Seq<char>, es: Seq<Expr>) -> Machine {
    let m = run_exprs(s, es);
    match m.result {
        Ok(index) => Machine { stack: m.stack, output: m.output, result: Ok(index + 1) },
        Err(_) => m,
    }
}

/// What running source text `s` prints (after the lines `before`, giving `after`)
/// and returns: the syntax error's text when `s` is not a program, else the lines
/// and the result of executing it.
pub open spec fn ran(
    s: Seq<char>,
    before: Seq<Seq<char>>,
    after: Seq<Seq<char>>,
    r: Result<int, Seq<char>>,
) -> bool {
    match scan(s, 0) {
        Scan::Exprs(es) => after == before + run_program(s, es).output && r == run_program(
            s,
            es,
        ).result,
        Scan::Fails(pos, e) => after == before && r == Err::<int, Seq<char>>(
            pest_error_text(s, pos as nat, expected_text(e)),
        ),
    }
}

pub open spec fn missing_input_error() -> Seq<char> {
    "Not input file provided"@
}

/// A program with `es.len()` expressions read from position `i` of `s` takes at
/// least three characters per expression.
pub proof fn lemma_scan_length(s: Seq<char>, i: int)
    requires
        0 <= i <= s.len(),
        scan(s, i) is Exprs,
    ensures
        3 * scan(s, i)->Exprs_0.len() <= s.len() - i,
    decreases s.len() - i,
{
    let j = i + space_run(s, i);
    if j < s.len() {
        if push_at(s, j) {
            let k = j + 4 + space_run(s, j + 4);
            let c = k + 1 + text_run(s, k + 1);
            lemma_scan_length(s, c + 1);
        } else if pop_at(s, j) {
            lemma_scan_length(s, j + 3);
        }
    }
}

/// The root node of `s` executes as the expressions that it was read from.
pub proof fn lemma_tree_runs_as_program(root: Pair, s: Seq<char>, es: Seq<Expr>)
    requires
        tree_of(root, s, es),
    ensures
        program_result(root) == run_program(s, es),
{
    let nodes = root.inner@;
    assert forall|k: int| 0 <= k <= es.len() implies run_nodes(#[trigger] nodes.take(k))
        == run_exprs(s, es.take(k)) by {
        lemma_prefix_runs_as_exprs(root, s, es, k);
    }
    assert(nodes.take((es.len() + 1) as int) =~= nodes);
    assert(nodes.take((es.len() + 1) as int).drop_last() =~= nodes.take(es.len() as int));
    assert(es.take(es.len() as int) =~= es);
}

proof fn lemma_prefix_runs_as_exprs(root: Pair, s: Seq<char>, es: Seq<Expr>, k: int)
    requires
        tree_of(root, s, es),
        0 <= k <= es.len(),
    ensures
        run_nodes(root.inner@.take(k)) == run_exprs(s, es.take(k)),
    decreases k,
{
    let nodes = root.inner@;
    if k == 0 {
        assert(nodes.take(0) =~= seq![]);
        assert(es.take(0) =~= seq![]);
    } else {
        lemma_prefix_runs_as_exprs(root, s, es, k - 1);
        assert(nodes.take(k).drop_last() =~= nodes.take(k - 1));
        assert(es.take(k).drop_last() =~= es.take(k - 1));
        assert(nodes.take(k).last() == nodes[k - 1]);
        assert(es.take(k).last() == es[k - 1]);
        assert(node_of(nodes[k - 1], s, es[k - 1]));
        let m = run_nodes(nodes.take(k - 1));
        if let Ok(index) = m.result {
            assert(step(m.stack, nodes[k - 1], index) == expr_step(m.stack, s, es[k - 1], index));
        }
    }
}

/// The script path in command-line arguments `args`, whose first entry is the
/// program's own name.
pub fn input_path(args: &Vec<String>) -> (r: Result<String, String>)
    ensures
        args.len() >= 2 ==> r is Ok && r->Ok_0@ == args[1]@,
        args.len() < 2 ==> r is Err && r->Err_0@ == missing_input_error(),
{
    if args.len() >= 2 {
        Ok(args[1].clone())
    } else {
        Err(String::from_str("Not input file provided"))
    }
}

/// Parses and executes `source`, appending the lines it prints to `out`. Returns
/// the number of instructions executed, or the text of the first error: the
/// syntax error, or the failure of the execution.
pub fn run(source: &str, out: &mut Vec<String>) -> (r: Result<u32, String>)
    requires
        source@.len() < u32::MAX,
    ensures
        ran(source@, old(out).deep_view(), final(out).deep_view(), result_view(r)),
{
    match parse(source) {
        Err(e) => {
            proof {
                lemma_failure_in_source(source@, 0);
            }
            Err(e.message(source))
        },
        Ok(pairs) => {
            // The grammar always yields its root; a parse without one is still
            // reported as an error of its own.
            if pairs.len() == 0 {
                return Err(String::from_str("Parsed code is empty"));
            }
            let root = &pairs[0];
            proof {
                let es = scan(source@, 0)->Exprs_0;
                lemma_scan_length(source@, 0);
                lemma_tree_runs_as_program(*root, source@, es);
            }
            stack_execution(root, out)
        },
    }
}

} // verus!
