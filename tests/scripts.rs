use stack_script::executor::{expression_execution, stack_execution};
use stack_script::grammar::{parse, Expected, Pair, Rule, SyntaxError};
use stack_script::program::{input_path, run};
use stack_script::text::decimal_text;

fn run_source(source: &str) -> (Vec<String>, Result<u32, String>) {
    let mut out: Vec<String> = Vec::new();
    let r = run(source, &mut out);
    (out, r)
}

fn leaf(rule: Rule, text: &str) -> Pair {
    Pair { rule, start: 0, end: text.chars().count(), text: text.to_string(), inner: Vec::new() }
}

#[test]
fn two_pushes_pop_in_reverse_order() {
    let (out, r) = run_source("push \"a\" push \"b\" pop pop");
    assert_eq!(out, vec!["POP: b".to_string(), "POP: a".to_string()]);
    assert_eq!(r, Ok(5));
}

#[test]
fn single_pop_on_empty_stack_fails() {
    let (out, r) = run_source("pop");
    assert!(out.is_empty());
    let e = r.unwrap_err();
    assert!(e.contains("index 0"));
    assert!(e.contains("pop"));
    assert_eq!(e, "Cannot pop from empty stack at index 0: pop");
}

#[test]
fn pops_alone_fail_at_index_zero() {
    let (out, r) = run_source("pop\npop pop");
    assert!(out.is_empty());
    assert_eq!(r, Err("Cannot pop from empty stack at index 0: pop".to_string()));
}

#[test]
fn push_without_literal_is_a_syntax_error_after_push() {
    let (out, r) = run_source("push");
    assert!(out.is_empty());
    let e = r.unwrap_err();
    assert!(e.contains("--> 1:5"), "{}", e);
    assert!(e.contains("expected literal"), "{}", e);
    assert_eq!(parse("push").err(), Some(SyntaxError { pos: 4, expected: Expected::Literal }));
    assert_eq!(
        e,
        [" --> 1:5", "  |", "1 | push", "  |     ^---", "  |", "  = expected literal"].join("\n")
    );
}

#[test]
fn missing_argument_is_reported() {
    let args = vec!["stack".to_string()];
    assert_eq!(input_path(&args), Err("Not input file provided".to_string()));
    assert_eq!(input_path(&Vec::new()), Err("Not input file provided".to_string()));
}

#[test]
fn argument_names_the_script() {
    let args = vec!["stack".to_string(), "script.txt".to_string(), "extra".to_string()];
    assert_eq!(input_path(&args), Ok("script.txt".to_string()));
}

#[test]
fn empty_program_succeeds_with_index_one() {
    let (out, r) = run_source("");
    assert!(out.is_empty());
    assert_eq!(r, Ok(1));
    let (out, r) = run_source(" \t\r\n ");
    assert!(out.is_empty());
    assert_eq!(r, Ok(1));
}

#[test]
fn hello_round_trip() {
    let (out, r) = run_source("push \"hello\" pop");
    assert_eq!(out, vec!["POP: hello".to_string()]);
    assert_eq!(r, Ok(3));
}

#[test]
fn matched_pops_follow_last_in_first_out() {
    let (out, r) = run_source("push \"x\" push \"y\" pop push \"z\" pop pop");
    assert_eq!(out, vec!["POP: y".to_string(), "POP: z".to_string(), "POP: x".to_string()]);
    assert_eq!(r, Ok(7));
}

#[test]
fn first_failure_wins_and_earlier_lines_stay() {
    let (out, r) = run_source("push \"a\" pop pop pop");
    assert_eq!(out, vec!["POP: a".to_string()]);
    assert_eq!(r, Err("Cannot pop from empty stack at index 2: pop".to_string()));
}

#[test]
fn parsing_twice_gives_the_same_tree() {
    let source = "push \"a b\"\npop";
    let a = parse(source).unwrap();
    let b = parse(source).unwrap();
    assert_eq!(a.len(), 1);
    assert_eq!(b.len(), 1);
    let (ra, rb) = (&a[0], &b[0]);
    assert_eq!(ra.rule, rb.rule);
    assert_eq!((ra.start, ra.end, &ra.text), (rb.start, rb.end, &rb.text));
    assert_eq!(ra.inner.len(), rb.inner.len());
    for (x, y) in ra.inner.iter().zip(rb.inner.iter()) {
        assert_eq!((x.rule, x.start, x.end, &x.text), (y.rule, y.start, y.end, &y.text));
        assert_eq!(x.inner.len(), y.inner.len());
    }
}

#[test]
fn parse_builds_rule_tagged_spans() {
    let source = "  push \"a b\"\n\tpop ";
    let top = parse(source).unwrap();
    assert_eq!(top.len(), 1);
    let root = &top[0];
    assert_eq!(root.as_rule(), Rule::Stack);
    assert_eq!((root.start, root.end), (0, 18));
    assert_eq!(root.as_str(), source);
    assert_eq!(root.inner.len(), 3);
    let push = &root.inner[0];
    assert_eq!(push.rule, Rule::PushExpr);
    assert_eq!((push.start, push.end), (2, 12));
    assert_eq!(push.as_str(), "push \"a b\"");
    assert_eq!(push.inner.len(), 1);
    assert_eq!(push.inner[0].rule, Rule::Literal);
    assert_eq!((push.inner[0].start, push.inner[0].end), (8, 11));
    assert_eq!(push.inner[0].as_str(), "a b");
    let pop = &root.inner[1];
    assert_eq!(pop.rule, Rule::PopExpr);
    assert_eq!((pop.start, pop.end), (14, 17));
    assert_eq!(pop.as_str(), "pop");
    let eoi = &root.inner[2];
    assert_eq!(eoi.rule, Rule::Eoi);
    assert_eq!((eoi.start, eoi.end), (18, 18));
    assert_eq!(eoi.as_str(), "");
}

#[test]
fn literal_is_taken_verbatim() {
    let (out, r) = run_source("push \"h\u{e9}llo \\n\"push\"\"pop pop");
    assert_eq!(out, vec!["POP: ".to_string(), "POP: h\u{e9}llo \\n".to_string()]);
    assert_eq!(r, Ok(5));
}

#[test]
fn unterminated_literal_fails_at_end() {
    assert_eq!(
        parse("push \"abc").err(),
        Some(SyntaxError { pos: 9, expected: Expected::ClosingQuote })
    );
    let (out, r) = run_source("push \"abc");
    assert!(out.is_empty());
    let e = r.unwrap_err();
    assert!(e.contains("--> 1:10"), "{}", e);
    assert!(e.contains("expected closing quote"), "{}", e);
}

#[test]
fn unknown_token_is_a_syntax_error() {
    assert_eq!(parse("foo").err(), Some(SyntaxError { pos: 0, expected: Expected::Expression }));
    assert_eq!(
        parse("pop popx").err(),
        Some(SyntaxError { pos: 7, expected: Expected::Expression })
    );
    let e = run_source("push \"a\"\n  bad").1.unwrap_err();
    assert!(e.contains("--> 2:3"), "{}", e);
    assert!(e.contains("bad"), "{}", e);
    assert!(e.contains("expected push_expr, pop_expr, or EOI"), "{}", e);
}

#[test]
fn no_output_before_a_syntax_error() {
    let (out, r) = run_source("push \"a\" pop push");
    assert!(out.is_empty());
    assert!(r.is_err());
}

#[test]
fn root_of_another_rule_is_refused() {
    let mut out: Vec<String> = Vec::new();
    let node = leaf(Rule::PopExpr, "pop");
    assert_eq!(stack_execution(&node, &mut out), Err("Provided rule was not 'stack'".to_string()));
    assert!(out.is_empty());
}

#[test]
fn unknown_rule_is_refused() {
    let mut stack: Vec<String> = vec!["a".to_string()];
    let mut out: Vec<String> = Vec::new();
    let node = leaf(Rule::Literal, "x");
    assert_eq!(
        expression_execution(&mut stack, &node, 3, &mut out),
        Err("Received unknown rule".to_string())
    );
    assert_eq!(stack, vec!["a".to_string()]);
    assert!(out.is_empty());
}

#[test]
fn single_instructions_step_the_index() {
    let mut stack: Vec<String> = Vec::new();
    let mut out: Vec<String> = Vec::new();
    let mut push = leaf(Rule::PushExpr, "push \"v\"");
    push.inner.push(leaf(Rule::Literal, "v"));
    assert_eq!(expression_execution(&mut stack, &push, 41, &mut out), Ok(42));
    assert_eq!(stack, vec!["v".to_string()]);
    let eoi = leaf(Rule::Eoi, "");
    assert_eq!(expression_execution(&mut stack, &eoi, 42, &mut out), Ok(43));
    let pop = leaf(Rule::PopExpr, "pop");
    assert_eq!(expression_execution(&mut stack, &pop, 43, &mut out), Ok(44));
    assert_eq!(out, vec!["POP: v".to_string()]);
    assert_eq!(
        expression_execution(&mut stack, &pop, 1234, &mut out),
        Err("Cannot pop from empty stack at index 1234: pop".to_string())
    );
}

#[test]
fn error_index_in_decimal() {
    assert_eq!(decimal_text(0), "0");
    assert_eq!(decimal_text(7), "7");
    assert_eq!(decimal_text(10), "10");
    assert_eq!(decimal_text(1234567), "1234567");
    assert_eq!(decimal_text(u32::MAX), "4294967295");
}
