//! The script grammar and its parser.
//!
//! ```text
//! stack     = { SOI ~ (push_expr | pop_expr)* ~ EOI }
//! push_expr = { "push" ~ "\"" ~ literal ~ "\"" }
//! literal   = @{ (!"\"" ~ ANY)* }
//! pop_expr  = { "pop" }
//! ```
//! Spaces, tabs, carriage returns and line feeds may stand before each expression,
//! between `push` and its opening quote, and at the end. Positions are counted in
//! characters.
use vstd::prelude::*;

verus! {

/// The tag of a syntax node.
#[derive(Clone, Copy, Debug, PartialEq, Eq, Structural, Hash)]
pub enum Rule {
    /// The root: every expression, then the end-of-input marker.
    Stack,
    /// `push "..."`; its one child is the literal.
    PushExpr,
    /// `pop`.
    PopExpr,
    /// The characters between the quotes of a `push_expr`.
    Literal,
    /// The end-of-input marker.
    Eoi,
}

/// A node of the syntax tree: a rule, the span `start..end` of the source that it
/// covers (in characters), that span's text, and the ordered child nodes.
pub struct Pair {
    pub rule: Rule,
    pub start: usize,
    pub end: usize,
    pub text: String,
    pub inner: Vec<Pair>,
}

impl Pair {
    pub fn as_rule(&self) -> (r: Rule)
        ensures
            r == self.rule,
    {
        self.rule
    }

    pub fn as_str(&self) -> (r: &str)
        ensures
            r@ == self.text@,
    {
        self.text.as_str()
    }
}

/// What the parser was looking for where it stopped.
#[derive(Clone, Copy, Debug, PartialEq, Eq, Structural)]
pub enum Expected {
    /// A `push_expr`, a `pop_expr` or the end of input.
    Expression,
    /// The opening quote of a literal after `push`.
    Literal,
    /// The quote that closes a literal.
    ClosingQuote,
}

/// A source text that the grammar does not accept: the first position at which no
/// rule could go on, and what was expected there.
#[derive(Clone, Copy, Debug, PartialEq, Eq, Structural)]
pub struct SyntaxError {
    pub pos: usize,
    pub expected: Expected,
}

pub open spec fn is_space(c: char) -> bool {
    c == ' ' || c == '\t' || c == '\n' || c == '\r'
}

/// The number of layout characters from position `i` on.
pub open spec fn space_run(s: Seq<char>, i: int) -> nat
    decreases s.len() - i,
{
    if 0 <= i < s.len() && is_space(s[i]) {
        1 + space_run(s, i + 1)
    } else {
        0
    }
}

/// The number of characters from position `i` up to the next quote or the end.
pub open spec fn text_run(s: Seq<char>, i: int) -> nat
    decreases s.len() - i,
{
    if 0 <= i < s.len() && s[i] != '"' {
        1 + text_run(s, i + 1)
    } else {
        0
    }
}

pub open spec fn push_at(s: Seq<char>, i: int) -> bool {
    0 <= i && i + 4 <= s.len() && s[i] == 'p' && s[i + 1] == 'u' && s[i + 2] == 's' && s[i + 3]
        == 'h'
}

pub open spec fn pop_at(s: Seq<char>, i: int) -> bool {
    0 <= i && i + 3 <= s.len() && s[i] == 'p' && s[i + 1] == 'o' && s[i + 2] == 'p'
}

/// One expression found in the source. A push covers `start..lit_end + 1`, its
/// literal `lit_start..lit_end`; a pop covers `start..start + 3`.
pub ghost enum Expr {
    Push { start: int, lit_start: int, lit_end: int },
    Pop { start: int },
}

/// The outcome of reading expressions from some position to the end.
pub ghost enum Scan {
    Exprs(Seq<Expr>),
    Fails(int, Expected),
}

pub open spec fn prepend(es: Seq<Expr>, r: Scan) -> Scan {
    match r {
        Scan::Exprs(rest) => Scan::Exprs(es + rest),
        Scan::Fails(pos, e) => r,
    }
}

/// The expressions of `s` from position `i` on, or where and why the grammar fails.
pub open spec fn scan(s: Seq<char>, i: int) -> Scan
    decreases s.len() - i,
{
    let j = i + space_run(s, i);
    if j >= s.len() {
        Scan::Exprs(seq![])
    } else if push_at(s, j) {
        let k = j + 4 + space_run(s, j + 4);
        if k < s.len() && s[k] == '"' {
            let c = k + 1 + text_run(s, k + 1);
            if c < s.len() {
                prepend(seq![Expr::Push { start: j, lit_start: k + 1, lit_end: c }], scan(s, c + 1))
            } else {
                Scan::Fails(s.len() as int, Expected::ClosingQuote)
            }
        } else {
            Scan::Fails(k, Expected::Literal)
        }
    } else if pop_at(s, j) {
        prepend(seq![Expr::Pop { start: j }], scan(s, j + 3))
    } else {
        Scan::Fails(j, Expected::Expression)
    }
}

/// `p` is a node of `rule` over `from..to` of `s`.
pub open spec fn spans(p: Pair, s: Seq<char>, rule: Rule, from: int, to: int) -> bool {
    &&& p.rule == rule
    &&& p.start == from
    &&& p.end == to
    &&& p.text@ == s.subrange(from, to)
}

/// `p` is the node of expression `e` of `s`.
pub open spec fn node_of(p: Pair, s: Seq<char>, e: Expr) -> bool {
    match e {
        Expr::Push { start, lit_start, lit_end } => {
            &&& spans(p, s, Rule::PushExpr, start, lit_end + 1)
            &&& p.inner@.len() == 1
            &&& spans(p.inner@[0], s, Rule::Literal, lit_start, lit_end)
            &&& p.inner@[0].inner@.len() == 0
        },
        Expr::Pop { start } => {
            &&& spans(p, s, Rule::PopExpr, start, start + 3)
            &&& p.inner@.len() == 0
        },
    }
}

/// `p` is the root node of `s`, whose expressions are `es`.
pub open spec fn tree_of(p: Pair, s: Seq<char>, es: Seq<Expr>) -> bool {
    &&& spans(p, s, Rule::Stack, 0, s.len() as int)
    &&& p.inner@.len() == es.len() + 1
    &&& forall|k: int| 0 <= k < es.len() ==> node_of(#[trigger] p.inner@[k], s, es[k])
    &&& spans(p.inner@[es.len() as int], s, Rule::Eoi, s.len() as int, s.len() as int)
    &&& p.inner@[es.len() as int].inner@.len() == 0
}

/// What `parse` returns for `s`: the single root node, or the syntax error.
pub open spec fn parsed(s: Seq<char>, r: Result<Vec<Pair>, SyntaxError>) -> bool {
    match scan(s, 0) {
        Scan::Exprs(es) => r is Ok && r->Ok_0@.len() == 1 && tree_of(r->Ok_0@[0], s, es),
        Scan::Fails(pos, e) => r == Err::<Vec<Pair>, SyntaxError>(
            SyntaxError { pos: pos as usize, expected: e },
        ),
    }
}

proof fn lemma_runs_bounded(s: Seq<char>, i: int)
    requires
        0 <= i <= s.len(),
    ensures
        i + space_run(s, i) <= s.len(),
        i + text_run(s, i) <= s.len(),
    decreases s.len() - i,
{
    if i < s.len() {
        lemma_runs_bounded(s, i + 1);
    }
}

/// A syntax error lies within the source.
pub proof fn lemma_failure_in_source(s: Seq<char>, i: int)
    requires
        0 <= i <= s.len(),
    ensures
        scan(s, i) matches Scan::Fails(pos, _) ==> i <= pos <= s.len(),
    decreases s.len() - i,
{
    lemma_runs_bounded(s, i);
    let j = i + space_run(s, i);
    if j < s.len() {
        if push_at(s, j) {
            lemma_runs_bounded(s, j + 4);
            let k = j + 4 + space_run(s, j + 4);
            if k < s.len() {
                lemma_runs_bounded(s, k + 1);
                let c = k + 1 + text_run(s, k + 1);
                if c < s.len() {
                    lemma_failure_in_source(s, c + 1);
                }
            }
        } else if pop_at(s, j) {
            lemma_failure_in_source(s, j + 3);
        }
    }
}

/// `a` and `b` have the same rule and span.
pub open spec fn same_span(a: Pair, b: Pair) -> bool {
    a.rule == b.rule && a.start == b.start && a.end == b.end && a.text@ == b.text@
}

/// `a` and `b` have the same rules and spans over their first three levels, which
/// is every level of a parsed tree.
pub open spec fn same_tree(a: Pair, b: Pair) -> bool {
    &&& same_span(a, b)
    &&& a.inner@.len() == b.inner@.len()
    &&& forall|k: int|
        0 <= k < a.inner@.len() ==> {
            &&& same_span(#[trigger] a.inner@[k], b.inner@[k])
            &&& a.inner@[k].inner@.len() == b.inner@[k].inner@.len()
            &&& forall|m: int|
                0 <= m < a.inner@[k].inner@.len() ==> same_span(
                    #[trigger] a.inner@[k].inner@[m],
                    b.inner@[k].inner@[m],
                )
        }
}

/// Parsing is a function of the text: two parses of one source either both fail
/// with the same error, or both give one root, with the same rules and spans.
pub proof fn law_parse_deterministic(
    s: Seq<char>,
    r1: Result<Vec<Pair>, SyntaxError>,
    r2: Result<Vec<Pair>, SyntaxError>,
)
    requires
        parsed(s, r1),
        parsed(s, r2),
    ensures
        r1 is Ok <==> r2 is Ok,
        r1 is Err ==> r1 == r2,
        r1 is Ok ==> r1->Ok_0@.len() == 1 && r2->Ok_0@.len() == 1 && same_tree(
            r1->Ok_0@[0],
            r2->Ok_0@[0],
        ),
{
    if let Scan::Exprs(es) = scan(s, 0) {
        let a = r1->Ok_0@[0];
        let b = r2->Ok_0@[0];
        assert forall|k: int| 0 <= k < a.inner@.len() implies {
            &&& same_span(#[trigger] a.inner@[k], b.inner@[k])
            &&& a.inner@[k].inner@.len() == b.inner@[k].inner@.len()
            &&& forall|m: int|
                0 <= m < a.inner@[k].inner@.len() ==> same_span(
                    #[trigger] a.inner@[k].inner@[m],
                    b.inner@[k].inner@[m],
                )
        } by {
            if k < es.len() {
                assert(node_of(a.inner@[k], s, es[k]));
                assert(node_of(b.inner@[k], s, es[k]));
            }
        }
    }
}

fn chars_of(s: &str) -> (r: Vec<char>)
    ensures
        r@ == s@,
{
    let mut r: Vec<char> = Vec::new();
    for c in it: s.chars()
        invariant
            r@ == it.history(),
    {
        r.push(c);
    }
    assert(r@ =~= s@);
    r
}

fn skip_spaces(s: &Vec<char>, i: usize) -> (j: usize)
    requires
        i <= s.len(),
    ensures
        j == i + space_run(s@, i as int),
        j <= s.len(),
{
    let mut j = i;
    while j < s.len() && (s[j] == ' ' || s[j] == '\t' || s[j] == '\n' || s[j] == '\r')
        invariant
            i <= j <= s.len(),
            space_run(s@, i as int) == (j - i) + space_run(s@, j as int),
        decreases s.len() - j,
    {
        j = j + 1;
    }
    j
}

fn skip_text(s: &Vec<char>, i: usize) -> (j: usize)
    requires
        i <= s.len(),
    ensures
        j == i + text_run(s@, i as int),
        j <= s.len(),
{
    let mut j = i;
    while j < s.len() && s[j] != '"'
        invariant
            i <= j <= s.len(),
            text_run(s@, i as int) == (j - i) + text_run(s@, j as int),
        decreases s.len() - j,
    {
        j = j + 1;
    }
    j
}

fn node(source: &str, rule: Rule, start: usize, end: usize, inner: Vec<Pair>) -> (p: Pair)
    requires
        start <= end <= source@.len(),
    ensures
        spans(p, source@, rule, start as int, end as int),
        p.inner == inner,
{
    Pair { rule, start, end, text: String::from_str(source.substring_char(start, end)), inner }
}

proof fn lemma_prepend_twice(a: Seq<Expr>, b: Seq<Expr>, r: Scan)
    ensures
        prepend(a, prepend(b, r)) == prepend(a + b, r),
{
    if let Scan::Exprs(rest) = r {
        assert(a + (b + rest) =~= (a + b) + rest);
    }
}

/// Parses `source` as a `stack` program: on success the result holds the one root
/// node, whose children are the expressions in source order and then the
/// end-of-input marker; otherwise the error gives the first position at which the
/// grammar cannot go on.
pub fn parse(source: &str) -> (r: Result<Vec<Pair>, SyntaxError>)
    ensures
        parsed(source@, r),
{
    let s = chars_of(source);
    let n = s.len();
    let mut exprs: Vec<Pair> = Vec::new();
    let ghost mut done: Seq<Expr> = seq![];
    let mut i: usize = 0;
    loop
        invariant
            s@ == source@,
            n == s.len(),
            i <= n,
            exprs@.len() == done.len(),
            forall|k: int| 0 <= k < done.len() ==> node_of(#[trigger] exprs@[k], source@, done[k]),
            scan(source@, 0) == prepend(done, scan(source@, i as int)),
        ensures
            s@ == source@,
            n == s.len(),
            exprs@.len() == done.len(),
            forall|k: int| 0 <= k < done.len() ==> node_of(#[trigger] exprs@[k], source@, done[k]),
            scan(source@, 0) == Scan::Exprs(done),
        decreases n - i,
    {
        let j = skip_spaces(&s, i);
        if j == n {
            assert(done + seq![] =~= done);
            break;
        }
        if n - j >= 4 && s[j] == 'p' && s[j + 1] == 'u' && s[j + 2] == 's' && s[j + 3] == 'h' {
            let k = skip_spaces(&s, j + 4);
            if k == n || s[k] != '"' {
                return Err(SyntaxError { pos: k, expected: Expected::Literal });
            }
            let c = skip_text(&s, k + 1);
            if c == n {
                return Err(SyntaxError { pos: n, expected: Expected::ClosingQuote });
            }
            let literal = node(source, Rule::Literal, k + 1, c, Vec::new());
            let mut children: Vec<Pair> = Vec::new();
            children.push(literal);
            exprs.push(node(source, Rule::PushExpr, j, c + 1, children));
            proof {
                let e = Expr::Push { start: j as int, lit_start: k + 1, lit_end: c as int };
                assert(scan(source@, i as int) == prepend(seq![e], scan(source@, c + 1)));
                lemma_prepend_twice(done, seq![e], scan(source@, c + 1));
                done = done + seq![e];
            }
            i = c + 1;
        } else if n - j >= 3 && s[j] == 'p' && s[j + 1] == 'o' && s[j + 2] == 'p' {
            exprs.push(node(source, Rule::PopExpr, j, j + 3, Vec::new()));
            proof {
                let e = Expr::Pop { start: j as int };
                assert(scan(source@, i as int) == prepend(seq![e], scan(source@, j + 3)));
                lemma_prepend_twice(done, seq![e], scan(source@, j + 3));
                done = done + seq![e];
            }
            i = j + 3;
        } else {
            return Err(SyntaxError { pos: j, expected: Expected::Expression });
        }
    }
    let ghost before = exprs@;
    exprs.push(node(source, Rule::Eoi, n, n, Vec::new()));
    assert(forall|k: int| 0 <= k < done.len() ==> exprs@[k] == before[k]);
    let root = node(source, Rule::Stack, 0, n, exprs);
    assert(tree_of(root, source@, done));
    let mut top: Vec<Pair> = Vec::new();
    top.push(root);
    Ok(top)
}

/// What a syntax error says it expected.
pub open spec fn expected_text(e: Expected) -> Seq<char> {
    match e {
        Expected::Expression => "expected push_expr, pop_expr, or EOI"@,
        Expected::Literal => "expected literal"@,
        Expected::ClosingQuote => "expected closing quote"@,
    }
}

/// The text of a pest error at character position `pos` of `source` that carries
/// `message`.
pub uninterp spec fn pest_error_text(source: Seq<char>, pos: nat, message: Seq<char>) -> Seq<char>;

/// Relies on `pest::Position::new` and `pest::error::Error::new_from_pos` with an
/// `ErrorVariant::CustomError`, rendered through the error's `Display`: the line
/// and column of the position, that source line, a caret under the position and
/// the message. The position is the byte length of `prefix`, which is a prefix of
/// `source`, so it lies on a character boundary and `Position::new` returns it.
#[verifier::external_body]
fn render_pest_error(source: &str, prefix: &str, message: &str) -> (r: String)
    requires
        prefix@.len() <= source@.len(),
        prefix@ == source@.subrange(0, prefix@.len() as int),
    ensures
        r@ == pest_error_text(source@, prefix@.len(), message@),
{
    let pos = pest::Position::new(source, prefix.len()).unwrap();
    let variant = pest::error::ErrorVariant::<()>::CustomError { message: message.to_string() };
    format!("{}", pest::error::Error::new_from_pos(variant, pos))
}

impl Expected {
    pub fn describe(&self) -> (r: &'static str)
        ensures
            r@ == expected_text(*self),
    {
        match self {
            Expected::Expression => "expected push_expr, pop_expr, or EOI",
            Expected::Literal => "expected literal",
            Expected::ClosingQuote => "expected closing quote",
        }
    }
}

impl SyntaxError {
    /// The human-readable form of this error in `source`: its line and column, the
    /// source line with a caret under the position, and what was expected.
    pub fn message(&self, source: &str) -> (r: String)
        requires
            self.pos <= source@.len(),
        ensures
            r@ == pest_error_text(source@, self.pos as nat, expected_text(self.expected)),
    {
        let prefix = source.substring_char(0, self.pos);
        render_pest_error(source, prefix, self.expected.describe())
    }
}

} // verus!
