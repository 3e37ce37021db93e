//! The parse tree: nodes with a kind, an optional text, a source location
//! and their children in source order.

use crate::token::TokenClass;
use vstd::prelude::*;
use vstd::std_specs::convert::FromSpecImpl;
use vstd::string::*;

verus! {

/// What a node of the tree stands for: a production of the grammar, or, for
/// a leaf, the class of its token.
#[derive(Debug, PartialEq, Eq, Clone, Copy, Structural)]
pub enum NodeKind {
    Block,
    Program,
    Expression,
    Statement,
    ForLoopStatement,
    ReturnStatement,
    ControlFlowBlock,
    ConditionStatement,
    AssignmentStatement,
    Argument,
    Arguments,
    FunctionCall,
    FunctionDefinition,
    Identifier,
    Keyword,
    Operator,
    Literal,
    Number,
    Boolean,
    Lparen,
    Rparen,
    LCurly,
    RCurly,
    Semi,
    Comma,
    Assignment,
    Error,
}

impl NodeKind {
    /// The name of the kind, as it is rendered.
    pub open spec fn name(self) -> Seq<char> {
        match self {
            NodeKind::Block => "Block"@,
            NodeKind::Program => "Program"@,
            NodeKind::Expression => "Expression"@,
            NodeKind::Statement => "Statement"@,
            NodeKind::ForLoopStatement => "ForLoopStatement"@,
            NodeKind::ReturnStatement => "ReturnStatement"@,
            NodeKind::ControlFlowBlock => "ControlFlowBlock"@,
            NodeKind::ConditionStatement => "ConditionStatement"@,
            NodeKind::AssignmentStatement => "AssignmentStatement"@,
            NodeKind::Argument => "Argument"@,
            NodeKind::Arguments => "Arguments"@,
            NodeKind::FunctionCall => "FunctionCall"@,
            NodeKind::FunctionDefinition => "FunctionDefinition"@,
            NodeKind::Identifier => "Identifier"@,
            NodeKind::Keyword => "Keyword"@,
            NodeKind::Operator => "Operator"@,
            NodeKind::Literal => "Literal"@,
            NodeKind::Number => "Number"@,
            NodeKind::Boolean => "Boolean"@,
            NodeKind::Lparen => "Lparen"@,
            NodeKind::Rparen => "Rparen"@,
            NodeKind::LCurly => "LCurly"@,
            NodeKind::RCurly => "RCurly"@,
            NodeKind::Semi => "Semi"@,
            NodeKind::Comma => "Comma"@,
            NodeKind::Assignment => "Assignment"@,
            NodeKind::Error => "Error"@,
        }
    }

    /// The name of the kind.
    pub fn to_string(&self) -> (text: String)
        ensures
            text@ == self.name(),
    {
        match self {
            NodeKind::Block => "Block".to_owned(),
            NodeKind::Program => "Program".to_owned(),
            NodeKind::Expression => "Expression".to_owned(),
            NodeKind::Statement => "Statement".to_owned(),
            NodeKind::ForLoopStatement => "ForLoopStatement".to_owned(),
            NodeKind::ReturnStatement => "ReturnStatement".to_owned(),
            NodeKind::ControlFlowBlock => "ControlFlowBlock".to_owned(),
            NodeKind::ConditionStatement => "ConditionStatement".to_owned(),
            NodeKind::AssignmentStatement => "AssignmentStatement".to_owned(),
            NodeKind::Argument => "Argument".to_owned(),
            NodeKind::Arguments => "Arguments".to_owned(),
            NodeKind::FunctionCall => "FunctionCall".to_owned(),
            NodeKind::FunctionDefinition => "FunctionDefinition".to_owned(),
            NodeKind::Identifier => "Identifier".to_owned(),
            NodeKind::Keyword => "Keyword".to_owned(),
            NodeKind::Operator => "Operator".to_owned(),
            NodeKind::Literal => "Literal".to_owned(),
            NodeKind::Number => "Number".to_owned(),
            NodeKind::Boolean => "Boolean".to_owned(),
            NodeKind::Lparen => "Lparen".to_owned(),
            NodeKind::Rparen => "Rparen".to_owned(),
            NodeKind::LCurly => "LCurly".to_owned(),
            NodeKind::RCurly => "RCurly".to_owned(),
            NodeKind::Semi => "Semi".to_owned(),
            NodeKind::Comma => "Comma".to_owned(),
            NodeKind::Assignment => "Assignment".to_owned(),
            NodeKind::Error => "Error".to_owned(),
        }
    }
}

/// The kind of the leaf that stands for a token of class `class`.
pub open spec fn leaf_kind(class: TokenClass) -> NodeKind {
    match class {
        TokenClass::Identifier => NodeKind::Identifier,
        TokenClass::Keyword => NodeKind::Keyword,
        TokenClass::Operator => NodeKind::Operator,
        TokenClass::Literal => NodeKind::Literal,
        TokenClass::Number => NodeKind::Number,
        TokenClass::Boolean => NodeKind::Boolean,
        TokenClass::Lparen => NodeKind::Lparen,
        TokenClass::Rparen => NodeKind::Rparen,
        TokenClass::LCurly => NodeKind::LCurly,
        TokenClass::RCurly => NodeKind::RCurly,
        TokenClass::Semi => NodeKind::Semi,
        TokenClass::Comma => NodeKind::Comma,
        TokenClass::Assignment => NodeKind::Assignment,
        TokenClass::Error => NodeKind::Error,
    }
}

impl From<TokenClass> for NodeKind {
    fn from(value: TokenClass) -> (kind: NodeKind)
        ensures
            kind == leaf_kind(value),
    {
        match value {
            TokenClass::Identifier => NodeKind::Identifier,
            TokenClass::Keyword => NodeKind::Keyword,
            TokenClass::Operator => NodeKind::Operator,
            TokenClass::Literal => NodeKind::Literal,
            TokenClass::Number => NodeKind::Number,
            TokenClass::Boolean => NodeKind::Boolean,
            TokenClass::Lparen => NodeKind::Lparen,
            TokenClass::Rparen => NodeKind::Rparen,
            TokenClass::LCurly => NodeKind::LCurly,
            TokenClass::RCurly => NodeKind::RCurly,
            TokenClass::Semi => NodeKind::Semi,
            TokenClass::Comma => NodeKind::Comma,
            TokenClass::Assignment => NodeKind::Assignment,
            TokenClass::Error => NodeKind::Error,
        }
    }
}

impl FromSpecImpl<TokenClass> for NodeKind {
    open spec fn obeys_from_spec() -> bool {
        true
    }

    open spec fn from_spec(value: TokenClass) -> NodeKind {
        leaf_kind(value)
    }
}

impl<'a> From<&'a TokenClass> for NodeKind {
    fn from(value: &'a TokenClass) -> (kind: NodeKind)
        ensures
            kind == leaf_kind(*value),
    {
        NodeKind::from(*value)
    }
}

impl<'a> FromSpecImpl<&'a TokenClass> for NodeKind {
    open spec fn obeys_from_spec() -> bool {
        true
    }

    open spec fn from_spec(value: &'a TokenClass) -> NodeKind {
        leaf_kind(*value)
    }
}

/// A place in the source. Lines and columns count from 1.
#[derive(Debug, Clone, Copy, PartialEq, Eq, Structural)]
pub struct Loc {
    pub line: usize,
    pub column: usize,
}

/// A node of the parse tree.
#[derive(Debug)]
pub struct ParseNode {
    pub loc: Loc,
    pub kind: NodeKind,
    pub value: Option<String>,
    pub children: Vec<ParseNode>,
}

/// The model of a node: the same tree over mathematical values.
pub struct NodeModel {
    pub kind: NodeKind,
    pub value: Option<Seq<char>>,
    pub line: nat,
    pub column: nat,
    pub children: Seq<NodeModel>,
}

impl NodeModel {
    /// The node with `child` as its new last child. A node without
    /// children takes the location of its first child.
    pub open spec fn with_child(self, child: NodeModel) -> NodeModel {
        NodeModel {
            line: if self.children.len() == 0 {
                child.line
            } else {
                self.line
            },
            column: if self.children.len() == 0 {
                child.column
            } else {
                self.column
            },
            children: self.children.push(child),
            ..self
        }
    }
}

/// `n` spaces.
pub open spec fn spaces(n: nat) -> Seq<char> {
    Seq::new(n, |i: int| ' ')
}

/// The line that renders one node: indentation, the kind, and the text of
/// the node behind a colon where it has one.
pub open spec fn node_line(node: NodeModel, padding: nat) -> Seq<char> {
    spaces(padding) + node.kind.name() + match node.value {
        Some(value) => ": "@ + value,
        None => Seq::empty(),
    } + "\n"@
}

/// The rendering of a tree: the line of the node, then the renderings of
/// its children, in order, two spaces further in.
pub open spec fn tree_text(node: NodeModel, padding: nat) -> Seq<char>
    decreases node, 1nat,
{
    node_line(node, padding) + forest_text(node.children, padding + 2)
}

/// The renderings of a run of trees, one after the other.
pub open spec fn forest_text(nodes: Seq<NodeModel>, padding: nat) -> Seq<char>
    decreases nodes, 0nat,
{
    if nodes.len() == 0 {
        Seq::empty()
    } else {
        forest_text(nodes.drop_last(), padding) + tree_text(nodes.last(), padding)
    }
}

/// The models of a run of nodes, in the same order.
pub open spec fn nodes_model(nodes: Seq<ParseNode>) -> Seq<NodeModel>
    decreases nodes,
{
    if nodes.len() == 0 {
        Seq::empty()
    } else {
        nodes_model(nodes.drop_last()).push(nodes.last()@)
    }
}

/// The model of a run of nodes holds the model of each node at its place.
pub proof fn lemma_nodes_model(nodes: Seq<ParseNode>)
    ensures
        nodes_model(nodes).len() == nodes.len(),
        forall|i: int| 0 <= i < nodes.len() ==> (#[trigger] nodes_model(nodes)[i]) == nodes[i]@,
    decreases nodes.len(),
{
    if nodes.len() > 0 {
        lemma_nodes_model(nodes.drop_last());
        assert(nodes_model(nodes) == nodes_model(nodes.drop_last()).push(nodes.last()@));
    } else {
        assert(nodes_model(nodes).len() == 0);
    }
}

impl View for ParseNode {
    type V = NodeModel;

    open spec fn view(&self) -> NodeModel
        decreases self,
    {
        NodeModel {
            kind: self.kind,
            value: match self.value {
                Some(text) => Some(text@),
                None => None,
            },
            line: self.loc.line as nat,
            column: self.loc.column as nat,
            children: nodes_model(self.children@),
        }
    }
}

impl ParseNode {
    /// Appends `node` to the children. A node that had no children takes
    /// the location of this first child.
    pub fn add_child(&mut self, node: ParseNode)
        ensures
            final(self)@ == old(self)@.with_child(node@),
    {
        if self.children.len() == 0 {
            self.loc = node.loc;
        }
        self.children.push(node);
        proof {
            assert(self.children@.drop_last() =~= old(self).children@);
            lemma_nodes_model(old(self).children@);
        }
    }

    /// Renders the tree as text: every node on a line of its own, indented
    /// by two spaces per level, as `kind: value` where the node has a value
    /// and as `kind` where it has none.
    pub fn print_tree(&self) -> (text: String)
        ensures
            text@ == tree_text(self@, 0),
    {
        let mut text: String = String::new();
        proof {
            reveal_strlit("");
            assert(""@ =~= spaces(0));
            assert(text@ + tree_text(self@, 0) =~= tree_text(self@, 0));
        }
        self.inner_print_tree("", &mut text, Ghost(0));
        text
    }

    /// Appends the rendering of the tree to `out`, with `pad` in front of
    /// the line of this node.
    fn inner_print_tree(&self, pad: &str, out: &mut String, Ghost(padding): Ghost<nat>)
        requires
            pad@ == spaces(padding),
        ensures
            final(out)@ == old(out)@ + tree_text(self@, padding),
        decreases self,
    {
        out.append(pad);
        out.append(self.kind.to_string().as_str());
        match &self.value {
            Some(value) => {
                out.append(": ");
                out.append(value.as_str());
            },
            None => {},
        }
        out.append("\n");
        assert(out@ =~= old(out)@ + node_line(self@, padding));
        let deeper: String = pad.to_owned().concat("  ");
        proof {
            reveal_strlit("  ");
            assert(deeper@ =~= spaces(padding + 2));
            lemma_nodes_model(self.children@);
            assert(self.children@.take(0) =~= Seq::<ParseNode>::empty());
            assert(forest_text(nodes_model(self.children@.take(0)), padding + 2) =~= Seq::<
                char,
            >::empty());
        }
        let mut i: usize = 0;
        while i < self.children.len()
            invariant
                i <= self.children@.len(),
                deeper@ == spaces(padding + 2),
                out@ == old(out)@ + node_line(self@, padding) + forest_text(
                    nodes_model(self.children@.take(i as int)),
                    padding + 2,
                ),
            decreases self.children@.len() - i,
        {
            let ghost before = out@;
            self.children[i].inner_print_tree(deeper.as_str(), out, Ghost(padding + 2));
            proof {
                let done = self.children@.take(i as int);
                let more = self.children@.take(i + 1);
                assert(more.drop_last() =~= done);
                assert(more.last() == self.children@[i as int]);
                assert(nodes_model(more) == nodes_model(done).push(self.children@[i as int]@));
                assert(nodes_model(more).drop_last() =~= nodes_model(done));
                assert(forest_text(nodes_model(more), padding + 2) == forest_text(
                    nodes_model(done),
                    padding + 2,
                ) + tree_text(self.children@[i as int]@, padding + 2));
                assert(out@ =~= old(out)@ + node_line(self@, padding) + forest_text(
                    nodes_model(more),
                    padding + 2,
                ));
            }
            i = i + 1;
        }
        assert(self.children@.take(i as int) =~= self.children@);
    }
}

} // verus!