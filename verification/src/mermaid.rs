//! A tree as the text of a flowchart.

use std::collections::HashMap;
use vstd::prelude::*;
use vstd::string::StringExecFns;
use crate::error::DymexError;
use crate::parser::{branch_views, parse_source, tree_of, Branch, BranchView};
use crate::text::{chars_of, push_char};
use crate::tokenizer::lexer::names;
use crate::tokenizer::token::{Token, TokenContext, TokenContextView, TokenView};

verus! {

/// The character of a decimal digit.
pub open spec fn digit_char(d: nat) -> char {
    if d == 0 {
        '0'
    } else if d == 1 {
        '1'
    } else if d == 2 {
        '2'
    } else if d == 3 {
        '3'
    } else if d == 4 {
        '4'
    } else if d == 5 {
        '5'
    } else if d == 6 {
        '6'
    } else if d == 7 {
        '7'
    } else if d == 8 {
        '8'
    } else {
        '9'
    }
}

/// A number in decimal digits.
pub open spec fn decimal(n: nat) -> Seq<char>
    decreases n,
{
    if n < 10 {
        seq![digit_char(n)]
    } else {
        decimal(n / 10).push(digit_char(n % 10))
    }
}

fn digit_of(d: usize) -> (r: char)
    requires
        d < 10,
    ensures
        r == digit_char(d as nat),
{
    if d == 0 {
        '0'
    } else if d == 1 {
        '1'
    } else if d == 2 {
        '2'
    } else if d == 3 {
        '3'
    } else if d == 4 {
        '4'
    } else if d == 5 {
        '5'
    } else if d == 6 {
        '6'
    } else if d == 7 {
        '7'
    } else if d == 8 {
        '8'
    } else {
        '9'
    }
}

/// Writes a number in decimal digits.
pub fn decimal_string(n: usize) -> (r: String)
    ensures
        r@ == decimal(n as nat),
    decreases n,
{
    if n < 10 {
        let mut s = String::new();
        push_char(&mut s, digit_of(n));
        assert(s@ =~= seq![digit_char(n as nat)]);
        s
    } else {
        let mut s = decimal_string(n / 10);
        push_char(&mut s, digit_of(n % 10));
        s
    }
}

/// The shape of a node with its label: a rhombus for an arithmetic
/// operator, a trapezoid for a function of one argument, a flag for any other
/// function, and boxes of different kinds for constants, numbers, names and the
/// rest.
pub open spec fn node_shape(t: TokenView) -> Seq<char> {
    match t {
        TokenView::ArOp(_) => "{\" \\"@ + t.text() + " \"}"@,
        TokenView::Func(_, n) => if n == 1 {
            "[\\ "@ + t.text() + " /]"@
        } else {
            "> "@ + t.text() + " ]"@
        },
        TokenView::Const(_) => "[[ "@ + t.text() + " ]]"@,
        TokenView::Number(_) => "[ "@ + t.text() + " ]"@,
        TokenView::Var(_) => "( "@ + t.text() + " )"@,
        _ => "[\" "@ + t.text() + " \"]"@,
    }
}

/// The text with `⋅` in place of each `*`.
pub open spec fn with_dots(s: Seq<char>) -> Seq<char> {
    Seq::new(s.len(), |i: int| if s[i] == '*' { '\u{22c5}' } else { s[i] })
}

/// The lines joined, each indented by two spaces and closed by a line break.
pub open spec fn indented(lines: Seq<Seq<char>>, n: int) -> Seq<char>
    decreases n,
{
    if 0 < n <= lines.len() {
        indented(lines, n - 1) + "  "@ + lines[n - 1] + "\n"@
    } else {
        Seq::empty()
    }
}

/// The lines that name the inputs: the first `n` of them.
pub open spec fn variable_lines(vars: Seq<Seq<char>>, n: int) -> Seq<char>
    decreases n,
{
    if 0 < n <= vars.len() {
        variable_lines(vars, n - 1) + "  var"@ + decimal((n - 1) as nat)
            + "@{ shape: cyl, label: \""@ + vars[n - 1] + "\" }\n"@
    } else {
        Seq::empty()
    }
}

/// The lines that every chart begins with.
pub const HEADER: &'static str =
    "---\nconfig:\n  layout: elk\n  look: handDrawn\n  theme: light\n---\nflowchart TB\n";

/// A flowchart of a tree: a line for every node and a line for every edge
/// from an operator to an operand. A node is known by the position of its
/// token in the source.
#[derive(Debug)]
pub struct MermaidGraph {
    defined: HashMap<usize, String>,
    node_lines: Vec<String>,
    edge_lines: Vec<String>,
    expression: Option<String>,
    variables: Vec<String>,
}

/// A [`MermaidGraph`] as a mathematical value.
pub struct MermaidView {
    /// The number of each node, in digits, by the position of its token.
    pub defined: Map<usize, Seq<char>>,
    pub node_lines: Seq<Seq<char>>,
    pub edge_lines: Seq<Seq<char>>,
    pub expression: Option<Seq<char>>,
    pub variables: Seq<Seq<char>>,
}

/// The views of a list of strings.
pub open spec fn line_views(lines: Seq<String>) -> Seq<Seq<char>> {
    Seq::new(lines.len(), |i: int| lines[i]@)
}

impl View for MermaidGraph {
    type V = MermaidView;

    closed spec fn view(&self) -> MermaidView {
        MermaidView {
            defined: Map::new(
                |k: usize| self.defined@.contains_key(k),
                |k: usize| self.defined@[k]@,
            ),
            node_lines: line_views(self.node_lines@),
            edge_lines: line_views(self.edge_lines@),
            expression: match self.expression {
                Some(e) => Some(e@),
                None => None,
            },
            variables: line_views(self.variables@),
        }
    }
}

impl MermaidView {
    /// The chart without a node.
    pub open spec fn empty() -> MermaidView {
        MermaidView {
            defined: Map::empty(),
            node_lines: Seq::empty(),
            edge_lines: Seq::empty(),
            expression: None,
            variables: Seq::empty(),
        }
    }

    /// The chart with a node more: the node gets the next number, and its
    /// line is `S`, the number and the shape.
    pub open spec fn with_node(self, tc: TokenContextView) -> MermaidView {
        let id = decimal(self.node_lines.len());
        MermaidView {
            defined: self.defined.insert(tc.at, id),
            node_lines: self.node_lines.push("S"@ + id + node_shape(tc.token)),
            ..self
        }
    }

    /// The chart with an edge more, between the nodes of two positions.
    pub open spec fn with_edge(self, fr: usize, to: usize) -> MermaidView {
        MermaidView {
            edge_lines: self.edge_lines.push(
                "S"@ + self.defined[fr] + "-->S"@ + self.defined[to],
            ),
            ..self
        }
    }

    /// The chart with the nodes and edges of a tree: the node of the root,
    /// then each operand's tree followed by the edge to it.
    pub open spec fn with_tree(self, tree: BranchView) -> MermaidView
        decreases tree, 0nat,
    {
        match tree {
            BranchView::Atom(tc) => self.with_node(tc),
            BranchView::Expression(tc, children) => self.with_node(tc).with_operands(
                children,
                tc.at,
                0,
            ),
        }
    }

    /// The chart with the trees of the operands at and behind `from`, each
    /// followed by the edge from the operator at the position `above`.
    pub open spec fn with_operands(
        self,
        children: Seq<BranchView>,
        above: usize,
        from: int,
    ) -> MermaidView
        decreases children, children.len() - from,
    {
        if 0 <= from < children.len() {
            self.with_tree(children[from]).with_edge(
                above,
                children[from].head().at,
            ).with_operands(children, above, from + 1)
        } else {
            self
        }
    }

    /// The text of the chart: the header, the expression and the inputs if
    /// they are known, the lines of the nodes and the lines of the edges.
    pub open spec fn rendered(self) -> Seq<char> {
        HEADER@ + (match self.expression {
            Some(e) => "  expr@{ shape: doc, label: \""@ + with_dots(e) + "\" }\n"@,
            None => Seq::empty(),
        }) + variable_lines(self.variables, self.variables.len() as int) + indented(
            self.node_lines,
            self.node_lines.len() as int,
        ) + indented(self.edge_lines, self.edge_lines.len() as int)
    }
}

impl MermaidGraph {
    /// The chart without a node.
    pub fn new() -> (r: Self)
        ensures
            r@ == MermaidView::empty(),
    {
        broadcast use vstd::std_specs::hash::group_hash_axioms;

        let r = Self {
            defined: HashMap::new(),
            node_lines: Vec::new(),
            edge_lines: Vec::new(),
            expression: None,
            variables: Vec::new(),
        };
        assert(r@.defined =~= Map::empty());
        assert(r@.node_lines =~= Seq::empty());
        assert(r@.edge_lines =~= Seq::empty());
        assert(r@.variables =~= Seq::empty());
        r
    }

    /// The shape of a node with its label.
    fn shape_of(token: &Token) -> (r: String)
        ensures
            r@ == node_shape(token@),
    {
        let text = token.to_string();
        let (open, close) = match token {
            Token::ArOp(_) => ("{\" \\", " \"}"),
            Token::Func(_, n) => if *n == 1 {
                ("[\\ ", " /]")
            } else {
                ("> ", " ]")
            },
            Token::Const(_) => ("[[ ", " ]]"),
            Token::Number(_) => ("[ ", " ]"),
            Token::Var(_) => ("( ", " )"),
            _ => ("[\" ", " \"]"),
        };
        let mut s = String::from_str(open);
        s.append(text.as_str());
        s.append(close);
        s
    }

    /// Adds the node of a token.
    pub fn add_node(&mut self, tc: &TokenContext)
        ensures
            final(self)@ == old(self)@.with_node(tc@),
    {
        broadcast use vstd::std_specs::hash::group_hash_axioms;

        let id = decimal_string(self.node_lines.len());
        let mut line = String::from_str("S");
        line.append(id.as_str());
        line.append(Self::shape_of(&tc.token).as_str());
        self.node_lines.push(line);
        self.defined.insert(tc.at, id);
        assert(self@.node_lines =~= old(self)@.with_node(tc@).node_lines);
        assert(self@.defined =~= old(self)@.with_node(tc@).defined);
    }

    /// Adds the edge between the nodes of two positions.
    pub fn add_edge(&mut self, fr: usize, to: usize)
        requires
            old(self)@.defined.contains_key(fr),
            old(self)@.defined.contains_key(to),
        ensures
            final(self)@ == old(self)@.with_edge(fr, to),
    {
        broadcast use vstd::std_specs::hash::group_hash_axioms;

        let mut line = String::from_str("S");
        match self.defined.get(&fr) {
            Some(id) => {
                line.append(id.as_str());
            },
            None => {},
        }
        line.append("-->S");
        match self.defined.get(&to) {
            Some(id) => {
                line.append(id.as_str());
            },
            None => {},
        }
        self.edge_lines.push(line);
        assert(self@.edge_lines =~= old(self)@.with_edge(fr, to).edge_lines);
    }

    /// Adds the nodes and edges of a tree.
    pub fn recurse_tree(&mut self, ast: &Branch)
        ensures
            final(self)@ == old(self)@.with_tree(ast@),
            final(self)@.defined.contains_key(ast@.head().at),
            forall|k: usize|
                old(self)@.defined.contains_key(k) ==> final(self)@.defined.contains_key(k),
        decreases ast,
    {
        proof {
            reveal_with_fuel(<Branch as View>::view, 2);
        }
        match ast {
            Branch::Atom(tc) => self.add_node(tc),
            Branch::Expression(tc_from, children) => {
                let ghost operands = branch_views(children@);
                assert(ast@->Expression_1 =~= operands);
                self.add_node(tc_from);
                let ghost goal = self@.with_operands(operands, tc_from.at, 0);
                let mut i: usize = 0;
                while i < children.len()
                    invariant
                        i <= children.len(),
                        operands == branch_views(children@),
                        goal == old(self)@.with_tree(ast@),
                        goal == self@.with_operands(operands, tc_from.at, i as int),
                        self@.defined.contains_key(tc_from.at),
                        ast@.head().at == tc_from.at,
                        forall|k: usize|
                            old(self)@.defined.contains_key(k) ==> self@.defined.contains_key(k),
                        *ast matches Branch::Expression(_, c) && c == children,
                    decreases children.len() - i,
                {
                    let branch = &children[i];
                    self.recurse_tree(branch);
                    let to = match branch {
                        Branch::Atom(tc_to) => tc_to.at,
                        Branch::Expression(tc_to, _) => tc_to.at,
                    };
                    self.add_edge(tc_from.at, to);
                    i = i + 1;
                }
            },
        }
    }

    /// The chart of a tree.
    pub fn from_ast(ast: &Branch) -> (r: Self)
        ensures
            r@ == MermaidView::empty().with_tree(ast@),
    {
        let mut graph = Self::new();
        graph.recurse_tree(ast);
        graph
    }
}

impl MermaidGraph {
    /// The chart of an expression over the inputs named by `vars`, with the
    /// expression and the inputs noted in it; or the error of scanning or
    /// parsing the expression.
    pub fn from_expr(expr: String, vars: &[&str]) -> (r: Result<Self, DymexError>)
        ensures
            match tree_of(expr@, names(vars@)) {
                Ok(tree) => r matches Ok(g) && g@ == (MermaidView {
                    expression: Some(expr@),
                    variables: names(vars@),
                    ..MermaidView::empty()
                }).with_tree(tree),
                Err(e) => r matches Err(x) && x@ == e,
            },
    {
        let mut graph = Self::new();
        let mut i: usize = 0;
        assert(names(vars@).take(0) =~= Seq::empty());
        while i < vars.len()
            invariant
                i <= vars@.len(),
                graph@ == (MermaidView {
                    variables: names(vars@).take(i as int),
                    ..MermaidView::empty()
                }),
            decreases vars@.len() - i,
        {
            graph.add_variable(vars[i]);
            i = i + 1;
            assert(names(vars@).take(i as int) =~= names(vars@).take(i - 1).push(
                names(vars@)[i - 1],
            ));
        }
        assert(names(vars@).take(vars@.len() as int) =~= names(vars@));
        let ast = match parse_source(expr.as_str(), vars) {
            Ok(ast) => ast,
            Err(e) => {
                return Err(e);
            },
        };
        graph.set_expression(expr);
        match ast.take_tree() {
            Some(tree) => {
                graph.recurse_tree(&tree);
                Ok(graph)
            },
            None => Ok(graph),
        }
    }

    fn add_variable(&mut self, name: &str)
        ensures
            final(self)@ == (MermaidView {
                variables: old(self)@.variables.push(name@),
                ..old(self)@
            }),
    {
        self.variables.push(String::from_str(name));
        assert(self@.variables =~= old(self)@.variables.push(name@));
        assert(self@.defined =~= old(self)@.defined);
    }

    fn set_expression(&mut self, expr: String)
        ensures
            final(self)@ == (MermaidView { expression: Some(expr@), ..old(self)@ }),
    {
        self.expression = Some(expr);
        assert(self@.defined =~= old(self)@.defined);
    }

    /// The text of the chart.
    pub fn render(&self) -> (r: String)
        ensures
            r@ == self@.rendered(),
    {
        let mut out = String::from_str(HEADER);
        if let Some(expr) = &self.expression {
            out.append("  expr@{ shape: doc, label: \"");
            let chars = chars_of(expr.as_str());
            let ghost head = out@;
            let mut i: usize = 0;
            while i < chars.len()
                invariant
                    i <= chars.len(),
                    out@ == head + with_dots(chars@).take(i as int),
                decreases chars.len() - i,
            {
                let c = if chars[i] == '*' {
                    '\u{22c5}'
                } else {
                    chars[i]
                };
                push_char(&mut out, c);
                i = i + 1;
                assert(out@ =~= head + with_dots(chars@).take(i as int));
            }
            assert(with_dots(chars@).take(chars@.len() as int) =~= with_dots(chars@));
            out.append("\" }\n");
        } else {
            assert(out@ =~= HEADER@ + Seq::<char>::empty());
        }
        let ghost head = out@;
        assert(out@ =~= head + variable_lines(self@.variables, 0));
        let mut i: usize = 0;
        while i < self.variables.len()
            invariant
                i <= self.variables.len(),
                out@ == head + variable_lines(self@.variables, i as int),
            decreases self.variables.len() - i,
        {
            out.append("  var");
            out.append(decimal_string(i).as_str());
            out.append("@{ shape: cyl, label: \"");
            out.append(self.variables[i].as_str());
            out.append("\" }\n");
            i = i + 1;
            assert(out@ =~= head + variable_lines(self@.variables, i as int));
        }
        Self::append_lines(&mut out, &self.node_lines);
        Self::append_lines(&mut out, &self.edge_lines);
        out
    }

    /// Appends the lines, each indented and closed by a line break.
    fn append_lines(out: &mut String, lines: &Vec<String>)
        ensures
            final(out)@ == old(out)@ + indented(line_views(lines@), lines@.len() as int),
    {
        let ghost head = out@;
        assert(out@ =~= head + indented(line_views(lines@), 0));
        let mut i: usize = 0;
        while i < lines.len()
            invariant
                i <= lines.len(),
                out@ == head + indented(line_views(lines@), i as int),
            decreases lines.len() - i,
        {
            out.append("  ");
            out.append(lines[i].as_str());
            out.append("\n");
            i = i + 1;
            assert(out@ =~= head + indented(line_views(lines@), i as int));
        }
    }
}

} // verus!
