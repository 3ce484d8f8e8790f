//! Execution of a parsed program against a stack of strings.
//!
//! Each child of the root is one instruction. The instruction index starts at 0 and
//! grows by one per executed instruction; the first failure ends the run. Lines that
//! a `pop_expr` prints are appended to an output vector, in execution order.
use vstd::prelude::*;
use crate::grammar::{Pair, Rule};
use crate::text::{decimal, decimal_text};

verus! {

/// What a `push_expr` pushes: the text of its first child (its literal), or the
/// empty text for a node without children.
pub open spec fn payload(p: Pair) -> Seq<char> {
    if p.inner@.len() > 0 {
        p.inner@[0].text@
    } else {
        seq![]
    }
}

/// The line printed for a popped value.
pub open spec fn pop_line(v: Seq<char>) -> Seq<char> {
    "POP: "@ + v
}

/// The failure of a `pop_expr`, with source text `text`, on an empty stack.
pub open spec fn pop_error(index: nat, text: Seq<char>) -> Seq<char> {
    "Cannot pop from empty stack at index "@ + decimal(index) + ": "@ + text
}

pub open spec fn not_stack_error() -> Seq<char> {
    "Provided rule was not 'stack'"@
}

pub open spec fn unknown_rule_error() -> Seq<char> {
    "Received unknown rule"@
}

/// The state of a run: the stack, the lines printed so far, and either the index
/// reached or the failure.
pub ghost struct Machine {
    pub stack: Seq<Seq<char>>,
    pub output: Seq<Seq<char>>,
    pub result: Result<int, Seq<char>>,
}

/// Executing `node` as instruction `index` on `stack`; `output` holds the lines it
/// prints.
pub open spec fn step(stack: Seq<Seq<char>>, node: Pair, index: int) -> Machine {
    match node.rule {
        Rule::PushExpr => Machine {
            stack: stack.push(payload(node)),
            output: seq![],
            result: Ok(index + 1),
        },
        Rule::PopExpr => if stack.len() > 0 {
            Machine {
                stack: stack.drop_last(),
                output: seq![pop_line(stack.last())],
                result: Ok(index + 1),
            }
        } else {
            Machine { stack, output: seq![], result: Err(pop_error(index as nat, node.text@)) }
        },
        Rule::Eoi => Machine { stack, output: seq![], result: Ok(index + 1) },
        _ => Machine { stack, output: seq![], result: Err(unknown_rule_error()) },
    }
}

/// Executing `nodes` in order from an empty stack and index 0, stopping at the
/// first failure.
pub open spec fn run_nodes(nodes: Seq<Pair>) -> Machine
    decreases nodes.len(),
{
    if nodes.len() == 0 {
        Machine { stack: seq![], output: seq![], result: Ok(0) }
    } else {
        let m = run_nodes(nodes.drop_last());
        match m.result {
            Ok(index) => {
                let s = step(m.stack, nodes.last(), index);
                Machine { stack: s.stack, output: m.output + s.output, result: s.result }
            },
            Err(_) => m,
        }
    }
}

/// The value of an executable result.
pub open spec fn result_view(r: Result<u32, String>) -> Result<int, Seq<char>> {
    match r {
        Ok(i) => Ok(i as int),
        Err(e) => Err(e@),
    }
}

/// What the root `node` gives: the lines printed and the final index or failure.
pub open spec fn program_result(node: Pair) -> Machine {
    if node.rule == Rule::Stack {
        run_nodes(node.inner@)
    } else {
        Machine { stack: seq![], output: seq![], result: Err(not_stack_error()) }
    }
}

/// Executes one instruction, `node`, as instruction `index`: a push pushes the
/// node's literal, a pop pops the top value and prints it after `POP: `, the
/// end-of-input marker does nothing. Returns `index + 1`, or the failure of a pop
/// on an empty stack or of a node of another rule.
pub fn expression_execution(
    stack: &mut Vec<String>,
    node: &Pair,
    index: u32,
    out: &mut Vec<String>,
) -> (r: Result<u32, String>)
    requires
        index < u32::MAX,
    ensures
        final(stack).deep_view() == step(old(stack).deep_view(), *node, index as int).stack,
        final(out).deep_view() == old(out).deep_view() + step(
            old(stack).deep_view(),
            *node,
            index as int,
        ).output,
        result_view(r) == step(old(stack).deep_view(), *node, index as int).result,
{
    let ghost before = stack.deep_view();
    let ghost printed = out.deep_view();
    match node.rule {
        Rule::PushExpr => {
            let value = if node.inner.len() > 0 {
                node.inner[0].text.clone()
            } else {
                String::new()
            };
            stack.push(value);
            assert(stack.deep_view() =~= before.push(payload(*node)));
            Ok(index + 1)
        },
        Rule::PopExpr => {
            match stack.pop() {
                Some(value) => {
                    assert(stack.deep_view() =~= before.drop_last());
                    out.push(String::from_str("POP: ").concat(value.as_str()));
                    assert(out.deep_view() =~= printed + seq![pop_line(before.last())]);
                    Ok(index + 1)
                },
                None => {
                    assert(out.deep_view() =~= printed + seq![]);
                    let message = String::from_str("Cannot pop from empty stack at index ").concat(
                        decimal_text(index).as_str(),
                    ).concat(": ").concat(node.text.as_str());
                    Err(message)
                },
            }
        },
        Rule::Eoi => {
            assert(out.deep_view() =~= printed + seq![]);
            Ok(index + 1)
        },
        _ => {
            assert(out.deep_view() =~= printed + seq![]);
            Err(String::from_str("Received unknown rule"))
        },
    }
}

/// Once a prefix of the instructions has failed, the whole run ends in that state.
proof fn lemma_failure_absorbs(nodes: Seq<Pair>, k: int)
    requires
        0 <= k <= nodes.len(),
        run_nodes(nodes.take(k)).result is Err,
    ensures
        run_nodes(nodes) == run_nodes(nodes.take(k)),
    decreases nodes.len() - k,
{
    if k < nodes.len() {
        assert(nodes.take(k + 1).drop_last() =~= nodes.take(k));
        lemma_failure_absorbs(nodes, k + 1);
    } else {
        assert(nodes.take(k) =~= nodes);
    }
}

/// Executes the root `node` of a program: each child in order, on a stack that
/// starts empty, with the index starting at 0; stops at the first failure. A node
/// of another rule than `stack` fails at once.
pub fn stack_execution(node: &Pair, out: &mut Vec<String>) -> (r: Result<u32, String>)
    requires
        node.inner@.len() < u32::MAX,
    ensures
        final(out).deep_view() == old(out).deep_view() + program_result(*node).output,
        result_view(r) == program_result(*node).result,
{
    let ghost printed = out.deep_view();
    let mut stack: Vec<String> = Vec::new();
    if node.rule != Rule::Stack {
        assert(out.deep_view() =~= printed + seq![]);
        return Err(String::from_str("Provided rule was not 'stack'"));
    }
    let ghost nodes = node.inner@;
    let mut index: u32 = 0;
    let mut k: usize = 0;
    assert(nodes.take(0) =~= seq![]);
    assert(stack.deep_view() =~= seq![]);
    assert(out.deep_view() =~= printed + seq![]);
    while k < node.inner.len()
        invariant
            nodes == node.inner@,
            node.rule == Rule::Stack,
            printed == old(out).deep_view(),
            nodes.len() < u32::MAX,
            k <= nodes.len(),
            index == k,
            run_nodes(nodes.take(k as int)).result == Ok::<int, Seq<char>>(index as int),
            stack.deep_view() == run_nodes(nodes.take(k as int)).stack,
            out.deep_view() == printed + run_nodes(nodes.take(k as int)).output,
        decreases nodes.len() - k,
    {
        assert(nodes.take(k + 1).drop_last() =~= nodes.take(k as int));
        assert(nodes.take(k + 1).last() == nodes[k as int]);
        match expression_execution(&mut stack, &node.inner[k], index, out) {
            Ok(next) => {
                assert(out.deep_view() =~= printed + run_nodes(nodes.take(k + 1)).output);
                index = next;
                k = k + 1;
            },
            Err(e) => {
                assert(out.deep_view() =~= printed + run_nodes(nodes.take(k + 1)).output);
                assert(run_nodes(nodes.take(k + 1)).result == Err::<int, Seq<char>>(e@));
                proof {
                    lemma_failure_absorbs(nodes, k + 1);
                }
                return Err(e);
            },
        }
    }
    assert(nodes.take(k as int) =~= nodes);
    Ok(index)
}

/// `w` occurs in `t`.
pub open spec fn contains(t: Seq<char>, w: Seq<char>) -> bool {
    exists|i: int| 0 <= i && i + w.len() <= t.len() && #[trigger] t.subrange(i, i + w.len()) == w
}

/// A program whose instructions are pops only (at least one of them), followed by
/// the end-of-input marker, prints nothing and fails at its first pop, at index 0,
/// with a message that names index 0.
pub proof fn law_pops_alone_fail_at_index_zero(node: Pair)
    requires
        node.rule == Rule::Stack,
        node.inner@.len() >= 2,
        forall|k: int| 0 <= k < node.inner@.len() - 1 ==> (#[trigger] node.inner@[k]).rule
            == Rule::PopExpr,
        node.inner@.last().rule == Rule::Eoi,
    ensures
        program_result(node).output == Seq::<Seq<char>>::empty(),
        program_result(node).result == Err::<int, Seq<char>>(pop_error(0, node.inner@[0].text@)),
        contains(pop_error(0, node.inner@[0].text@), "index 0"@),
{
    let nodes = node.inner@;
    assert(nodes.take(1).drop_last() =~= nodes.take(0));
    assert(nodes.take(0) =~= seq![]);
    assert(nodes.take(1).last() == nodes[0]);
    assert(nodes[0].rule == Rule::PopExpr);
    let empty = Machine { stack: seq![], output: seq![], result: Ok(0) };
    assert(run_nodes(nodes.take(0)) == empty);
    assert(run_nodes(nodes.take(1)).output =~= seq![]);
    assert(run_nodes(nodes.take(1)).result == Err::<int, Seq<char>>(pop_error(0, nodes[0].text@)));
    lemma_failure_absorbs(nodes, 1);
    let t = pop_error(0, nodes[0].text@);
    reveal_strlit("Cannot pop from empty stack at index ");
    reveal_strlit(": ");
    reveal_strlit("index 0");
    assert(decimal(0) == seq!['0']);
    assert(t.subrange(31, 38) =~= "index 0"@);
    assert(t.subrange(31, 31 + "index 0"@.len() as int) == "index 0"@);
}

/// Pushing a value and then popping prints exactly that value after `POP: ` and
/// leaves the stack as it was.
pub proof fn law_push_then_pop(stack: Seq<Seq<char>>, push: Pair, pop: Pair, index: int)
    requires
        push.rule == Rule::PushExpr,
        pop.rule == Rule::PopExpr,
    ensures
        ({
            let first = step(stack, push, index);
            let second = step(first.stack, pop, index + 1);
            &&& first.output + second.output == seq![pop_line(payload(push))]
            &&& second.stack == stack
            &&& second.result == Ok::<int, Seq<char>>(index + 2)
        }),
{
    let first = step(stack, push, index);
    assert(first.stack.drop_last() =~= stack);
    assert(first.output + seq![pop_line(payload(push))] =~= seq![pop_line(payload(push))]);
}

/// A program of the end-of-input marker alone succeeds with index 1 and prints
/// nothing.
pub proof fn law_empty_program(node: Pair)
    requires
        node.rule == Rule::Stack,
        node.inner@.len() == 1,
        node.inner@[0].rule == Rule::Eoi,
    ensures
        program_result(node).output == Seq::<Seq<char>>::empty(),
        program_result(node).result == Ok::<int, Seq<char>>(1),
{
    let nodes = node.inner@;
    assert(nodes.drop_last() =~= seq![]);
    let empty = Machine { stack: seq![], output: seq![], result: Ok(0) };
    assert(run_nodes(nodes.drop_last()) == empty);
    assert(run_nodes(nodes).output =~= seq![]);
}

/// The positions of the pushes among the first `k` of `nodes` that no later pop of
/// those `k` has taken, oldest first.
pub open spec fn pending(nodes: Seq<Pair>, k: int) -> Seq<int>
    decreases k,
{
    if k <= 0 {
        seq![]
    } else {
        let p = pending(nodes, k - 1);
        if nodes[k - 1].rule == Rule::PushExpr {
            p.push(k - 1)
        } else if nodes[k - 1].rule == Rule::PopExpr {
            p.drop_last()
        } else {
            p
        }
    }
}

/// Every pop of `nodes` comes after more pushes than pops.
pub open spec fn pops_matched(nodes: Seq<Pair>) -> bool {
    forall|k: int|
        0 <= k < nodes.len() && (#[trigger] nodes[k]).rule == Rule::PopExpr ==> pending(
            nodes,
            k,
        ).len() > 0
}

/// The lines of the pops among the first `k` of `nodes`, each giving the payload of
/// the most recent push not yet popped.
pub open spec fn lifo_lines(nodes: Seq<Pair>, k: int) -> Seq<Seq<char>>
    decreases k,
{
    if k <= 0 {
        seq![]
    } else {
        let lines = lifo_lines(nodes, k - 1);
        if nodes[k - 1].rule == Rule::PopExpr {
            lines.push(pop_line(payload(nodes[pending(nodes, k - 1).last()])))
        } else {
            lines
        }
    }
}

proof fn lemma_matched_prefix(nodes: Seq<Pair>, k: int)
    requires
        0 <= k <= nodes.len(),
        forall|m: int|
            0 <= m < nodes.len() ==> #[trigger] nodes[m].rule == Rule::PushExpr || nodes[m].rule
                == Rule::PopExpr || nodes[m].rule == Rule::Eoi,
        pops_matched(nodes),
    ensures
        run_nodes(nodes.take(k)).result == Ok::<int, Seq<char>>(k),
        run_nodes(nodes.take(k)).stack == pending(nodes, k).map_values(|i: int| payload(nodes[i])),
        run_nodes(nodes.take(k)).output == lifo_lines(nodes, k),
    decreases k,
{
    if k == 0 {
        assert(nodes.take(0) =~= seq![]);
        assert(pending(nodes, 0).map_values(|i: int| payload(nodes[i])) =~= seq![]);
    } else {
        lemma_matched_prefix(nodes, k - 1);
        assert(nodes.take(k).drop_last() =~= nodes.take(k - 1));
        assert(nodes.take(k).last() == nodes[k - 1]);
        let p = pending(nodes, k - 1);
        let before = p.map_values(|i: int| payload(nodes[i]));
        let after = pending(nodes, k).map_values(|i: int| payload(nodes[i]));
        let m = run_nodes(nodes.take(k - 1));
        if nodes[k - 1].rule == Rule::PushExpr {
            assert(after =~= before.push(payload(nodes[k - 1])));
            assert(m.output + seq![] =~= m.output);
        } else if nodes[k - 1].rule == Rule::PopExpr {
            assert(p.len() > 0);
            assert(after =~= before.drop_last());
        } else {
            assert(m.output + seq![] =~= m.output);
        }
    }
}

/// A program of pushes and pops, each pop coming after more pushes than pops, then
/// the end-of-input marker, executes every instruction, so that its index is the
/// number of nodes; it prints one line per pop, in order, each with the value of
/// the most recent push not yet popped.
pub proof fn law_matched_pops_print_lifo(node: Pair)
    requires
        node.rule == Rule::Stack,
        node.inner@.len() >= 1,
        forall|k: int|
            0 <= k < node.inner@.len() - 1 ==> #[trigger] node.inner@[k].rule == Rule::PushExpr
                || node.inner@[k].rule == Rule::PopExpr,
        node.inner@.last().rule == Rule::Eoi,
        pops_matched(node.inner@),
    ensures
        program_result(node).result == Ok::<int, Seq<char>>(node.inner@.len() as int),
        program_result(node).output == lifo_lines(node.inner@, node.inner@.len() as int),
{
    let nodes = node.inner@;
    assert forall|m: int| 0 <= m < nodes.len() implies #[trigger] nodes[m].rule == Rule::PushExpr
        || nodes[m].rule == Rule::PopExpr || nodes[m].rule == Rule::Eoi by {
        if m < nodes.len() - 1 {
            assert(node.inner@[m].rule == Rule::PushExpr || node.inner@[m].rule == Rule::PopExpr);
        }
    }
    lemma_matched_prefix(nodes, nodes.len() as int);
    assert(nodes.take(nodes.len() as int) =~= nodes);
}

} // verus!
