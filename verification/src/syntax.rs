//! The grammar of the language as functions from the tokens that are left
//! to the tree that a production builds, and the laws that hold of every
//! tree that the grammar accepts.

use crate::lexer::{LexerErrorModel, TokenInfoModel};
use crate::operator::Operator;
use crate::parse_node::{leaf_kind, NodeKind, NodeModel};
use crate::token::{token_display, TokenClass, TokenModel};
use vstd::prelude::*;

verus! {

/// Why a parse fails: the lexer has failed, or the grammar asks for the
/// first text where the second stood.
pub enum ParserErrorModel {
    LexerError(LexerErrorModel),
    UnexpectedToken(Seq<char>, Seq<char>),
}

/// The tokens that a parser has still to read.
pub type Tokens = Seq<TokenInfoModel>;

/// A node under construction and the tokens that are left behind it.
pub struct Build {
    pub node: NodeModel,
    pub rest: Tokens,
}

/// The state of a production: what it has built so far, or why it failed.
pub type Step = Result<Build, ParserErrorModel>;

/// A node of kind `kind` without text or children, at the place 1:1.
pub open spec fn fresh(kind: NodeKind) -> NodeModel {
    NodeModel { kind, value: None, line: 1, column: 1, children: Seq::empty() }
}

/// The leaf that stands for the token `info`: the kind of the token's class,
/// the text of the token, the place where the token starts.
pub open spec fn leaf(info: TokenInfoModel) -> NodeModel {
    NodeModel {
        kind: leaf_kind(info.token.0),
        value: info.token.1,
        line: info.line,
        column: info.start_column,
        children: Seq::empty(),
    }
}

/// The next token is of class `class`.
pub open spec fn next_is(tokens: Tokens, class: TokenClass) -> bool {
    tokens.len() > 0 && tokens[0].token.0 == class
}

/// The next token is the token `token`, with the same text.
pub open spec fn next_is_exact(tokens: Tokens, token: TokenModel) -> bool {
    tokens.len() > 0 && tokens[0].token == token
}

/// The next token is of one of the classes `classes`.
pub open spec fn next_is_any_of(tokens: Tokens, classes: Seq<TokenClass>) -> bool {
    exists|i: int| 0 <= i < classes.len() && next_is(tokens, #[trigger] classes[i])
}

/// The next token is one of the tokens `choices`.
pub open spec fn next_is_exact_any_of(tokens: Tokens, choices: Seq<TokenModel>) -> bool {
    exists|i: int| 0 <= i < choices.len() && next_is_exact(tokens, #[trigger] choices[i])
}

/// How an error names the token that stood in the way: its display text, or
/// `Unknown` at the end of the input.
pub open spec fn actual_text(tokens: Tokens) -> Seq<char> {
    if tokens.len() > 0 {
        token_display(tokens[0].token)
    } else {
        "Unknown"@
    }
}

/// The names of the classes, joined by ` or `.
pub open spec fn joined_names(classes: Seq<TokenClass>) -> Seq<char>
    decreases classes.len(),
{
    if classes.len() == 0 {
        Seq::empty()
    } else if classes.len() == 1 {
        classes[0].name()
    } else {
        joined_names(classes.drop_last()) + " or "@ + classes.last().name()
    }
}

/// Consumes the next token if it is of class `class` and makes a leaf of
/// it; fails otherwise, naming the class and the token that stood there.
pub open spec fn eat(tokens: Tokens, class: TokenClass) -> Step {
    if next_is(tokens, class) {
        Ok(Build { node: leaf(tokens[0]), rest: tokens.drop_first() })
    } else {
        Err(ParserErrorModel::UnexpectedToken(class.name(), actual_text(tokens)))
    }
}

/// Consumes the next token if it is of one of the classes `classes`; fails
/// otherwise, naming all the classes.
pub open spec fn eat_any_of(tokens: Tokens, classes: Seq<TokenClass>) -> Step {
    if next_is_any_of(tokens, classes) {
        Ok(Build { node: leaf(tokens[0]), rest: tokens.drop_first() })
    } else {
        Err(ParserErrorModel::UnexpectedToken(joined_names(classes), actual_text(tokens)))
    }
}

/// Consumes the next token if it is `token`, text included; fails at the
/// end of the input, and on any other token, naming both.
pub open spec fn eat_exact(tokens: Tokens, token: TokenModel) -> Step {
    if tokens.len() == 0 {
        Err(ParserErrorModel::LexerError(LexerErrorModel::EndOfFileReached))
    } else if tokens[0].token == token {
        Ok(Build { node: leaf(tokens[0]), rest: tokens.drop_first() })
    } else {
        Err(ParserErrorModel::UnexpectedToken(token_display(token), token_display(tokens[0].token)))
    }
}

/// The state of a production that has built `node` and has `rest` left.
pub open spec fn state(node: NodeModel, rest: Tokens) -> Build {
    Build { node, rest }
}

/// A production that starts to build a node of kind `kind`.
pub open spec fn begin(kind: NodeKind, tokens: Tokens) -> Step {
    Ok(Build { node: fresh(kind), rest: tokens })
}

/// Makes the tree of `sub` the next child of the node under construction;
/// the error of `sub` is the error of the whole.
pub open spec fn attach(build: Build, sub: Step) -> Step {
    match sub {
        Ok(part) => Ok(Build { node: build.node.with_child(part.node), rest: part.rest }),
        Err(error) => Err(error),
    }
}

/// Goes on with a token of class `class`.
pub open spec fn and_eat(step: Step, class: TokenClass) -> Step {
    match step {
        Ok(build) => attach(build, eat(build.rest, class)),
        Err(error) => Err(error),
    }
}

/// Goes on with the token `token`.
pub open spec fn and_eat_exact(step: Step, token: TokenModel) -> Step {
    match step {
        Ok(build) => attach(build, eat_exact(build.rest, token)),
        Err(error) => Err(error),
    }
}

/// Goes on with a token of one of the classes `classes`.
pub open spec fn and_eat_any_of(step: Step, classes: Seq<TokenClass>) -> Step {
    match step {
        Ok(build) => attach(build, eat_any_of(build.rest, classes)),
        Err(error) => Err(error),
    }
}

/// The keyword token with the text `word`.
pub open spec fn keyword(word: Seq<char>) -> TokenModel {
    (TokenClass::Keyword, Some(word))
}

/// The operator token of `op`.
pub open spec fn operator(op: Operator) -> TokenModel {
    (TokenClass::Operator, Some(op.lexeme()))
}

/// The classes of the tokens that can stand as an operand.
pub open spec fn operand_classes() -> Seq<TokenClass> {
    seq![TokenClass::Identifier, TokenClass::Boolean, TokenClass::Number, TokenClass::Literal]
}

/// `kind` is the kind of a leaf: it stands for a class of tokens.
pub open spec fn is_token_kind(kind: NodeKind) -> bool {
    exists|class: TokenClass| kind == leaf_kind(class)
}

/// The leaves of a tree, from left to right: a node of a token kind is a
/// leaf, any other node gives the leaves of its children.
pub open spec fn leaves(node: NodeModel) -> Seq<NodeModel>
    decreases node, 1nat,
{
    if is_token_kind(node.kind) {
        seq![node]
    } else {
        forest_leaves(node.children)
    }
}

/// The leaves of a run of trees, from left to right.
pub open spec fn forest_leaves(nodes: Seq<NodeModel>) -> Seq<NodeModel>
    decreases nodes, 0nat,
{
    if nodes.len() == 0 {
        Seq::empty()
    } else {
        forest_leaves(nodes.drop_last()) + leaves(nodes.last())
    }
}

/// The leaves that stand for a run of tokens, one for each, in order.
pub open spec fn token_leaves(tokens: Tokens) -> Seq<NodeModel> {
    Seq::new(tokens.len(), |i: int| leaf(tokens[i]))
}

/// Every node of the tree that has children stands at the place of its
/// first child.
pub open spec fn is_placed(node: NodeModel) -> bool
    decreases node,
{
    &&& node.children.len() > 0 ==> node.line == node.children[0].line && node.column
        == node.children[0].column
    &&& forall|i: int| 0 <= i < node.children.len() ==> is_placed(#[trigger] node.children[i])
}

/// The state `build` accounts for the tokens `tokens` that its production
/// started from: the leaves of its node, followed by the tokens that are
/// left, are those tokens, and every node stands at the place of its first
/// child.
pub open spec fn accounts(build: Build, tokens: Tokens) -> bool {
    &&& build.rest.len() <= tokens.len()
    &&& !is_token_kind(build.node.kind)
    &&& leaves(build.node) + token_leaves(build.rest) == token_leaves(tokens)
    &&& is_placed(build.node)
}

/// The step `step`, where it succeeded, accounts for `tokens`.
pub open spec fn keeps(step: Step, tokens: Tokens) -> bool {
    step matches Ok(build) ==> accounts(build, tokens)
}

/// The step `step`, where it succeeded, accounts for `tokens` and has taken
/// at least one of them.
pub open spec fn sound(step: Step, tokens: Tokens) -> bool {
    step matches Ok(build) ==> accounts(build, tokens) && build.rest.len() < tokens.len()
}

/// No production kind is a token kind.
pub proof fn lemma_production_kinds()
    ensures
        !is_token_kind(NodeKind::Block),
        !is_token_kind(NodeKind::Program),
        !is_token_kind(NodeKind::Expression),
        !is_token_kind(NodeKind::Statement),
        !is_token_kind(NodeKind::ForLoopStatement),
        !is_token_kind(NodeKind::ReturnStatement),
        !is_token_kind(NodeKind::ControlFlowBlock),
        !is_token_kind(NodeKind::ConditionStatement),
        !is_token_kind(NodeKind::AssignmentStatement),
        !is_token_kind(NodeKind::Argument),
        !is_token_kind(NodeKind::Arguments),
        !is_token_kind(NodeKind::FunctionCall),
        !is_token_kind(NodeKind::FunctionDefinition),
{
}

/// The leaves of a run of trees with one more tree at its end.
pub proof fn lemma_forest_push(nodes: Seq<NodeModel>, node: NodeModel)
    ensures
        forest_leaves(nodes.push(node)) == forest_leaves(nodes) + leaves(node),
{
    assert(nodes.push(node).drop_last() =~= nodes);
    assert(nodes.push(node).last() == node);
}

/// The leaves of a run of tokens: the leaf of the first, then those of the
/// others.
pub proof fn lemma_token_leaves_first(tokens: Tokens)
    requires
        tokens.len() > 0,
    ensures
        token_leaves(tokens) == seq![leaf(tokens[0])] + token_leaves(tokens.drop_first()),
        is_token_kind(leaf(tokens[0]).kind),
{
    assert(token_leaves(tokens) =~= seq![leaf(tokens[0])] + token_leaves(tokens.drop_first()));
    assert(leaf(tokens[0]).kind == leaf_kind(tokens[0].token.0));
}

/// A production that begins has lost no token.
pub proof fn lemma_begin(kind: NodeKind, tokens: Tokens)
    requires
        !is_token_kind(kind),
    ensures
        keeps(begin(kind, tokens), tokens),
{
    assert(forest_leaves(fresh(kind).children) =~= Seq::<NodeModel>::empty());
    assert(leaves(fresh(kind)) + token_leaves(tokens) =~= token_leaves(tokens));
}

/// A tree that accounts for the tokens it took, made the next child of a
/// node that accounts for the tokens before it, accounts for all of them.
pub proof fn lemma_attach(build: Build, sub: Step, tokens: Tokens)
    requires
        accounts(build, tokens),
        sub matches Ok(part) ==> {
            &&& part.rest.len() < build.rest.len()
            &&& leaves(part.node) + token_leaves(part.rest) == token_leaves(build.rest)
            &&& is_placed(part.node)
        },
    ensures
        sound(attach(build, sub), tokens),
        attach(build, sub) is Ok <==> sub is Ok,
{
    match sub {
        Ok(part) => {
            lemma_forest_push(build.node.children, part.node);
            let after = build.node.with_child(part.node);
            assert forall|i: int| 0 <= i < after.children.len() implies is_placed(
                #[trigger] after.children[i],
            ) by {
                if i < build.node.children.len() {
                    assert(after.children[i] == build.node.children[i]);
                }
            }
            if build.node.children.len() > 0 {
                assert(after.children[0] == build.node.children[0]);
            }
            assert(leaves(after) + token_leaves(part.rest) =~= leaves(build.node) + (leaves(
                part.node,
            ) + token_leaves(part.rest)));
        },
        Err(_) => {},
    }
}

/// A token that was eaten is a leaf, and the first of the tokens.
pub proof fn lemma_eaten(tokens: Tokens, part: Build)
    requires
        tokens.len() > 0,
        part == (Build { node: leaf(tokens[0]), rest: tokens.drop_first() }),
    ensures
        part.rest.len() < tokens.len(),
        leaves(part.node) + token_leaves(part.rest) == token_leaves(tokens),
        is_placed(part.node),
{
    lemma_token_leaves_first(tokens);
}

/// Eating a token keeps the account.
pub proof fn lemma_and_eat(step: Step, class: TokenClass, tokens: Tokens)
    requires
        keeps(step, tokens),
    ensures
        sound(and_eat(step, class), tokens),
{
    match step {
        Ok(build) => {
            if next_is(build.rest, class) {
                lemma_eaten(build.rest, eat(build.rest, class)->Ok_0);
            }
            lemma_attach(build, eat(build.rest, class), tokens);
        },
        Err(_) => {},
    }
}

/// Eating an exact token keeps the account.
pub proof fn lemma_and_eat_exact(step: Step, token: TokenModel, tokens: Tokens)
    requires
        keeps(step, tokens),
    ensures
        sound(and_eat_exact(step, token), tokens),
{
    match step {
        Ok(build) => {
            if eat_exact(build.rest, token) is Ok {
                lemma_eaten(build.rest, eat_exact(build.rest, token)->Ok_0);
            }
            lemma_attach(build, eat_exact(build.rest, token), tokens);
        },
        Err(_) => {},
    }
}

/// Eating a token of one of several classes keeps the account.
pub proof fn lemma_and_eat_any_of(step: Step, classes: Seq<TokenClass>, tokens: Tokens)
    requires
        keeps(step, tokens),
    ensures
        sound(and_eat_any_of(step, classes), tokens),
{
    match step {
        Ok(build) => {
            if eat_any_of(build.rest, classes) is Ok {
                lemma_eaten(build.rest, eat_any_of(build.rest, classes)->Ok_0);
            }
            lemma_attach(build, eat_any_of(build.rest, classes), tokens);
        },
        Err(_) => {},
    }
}

/// The tree of a production that is sound, made the next child, keeps the
/// account.
pub proof fn lemma_attach_sound(build: Build, sub: Step, tokens: Tokens)
    requires
        accounts(build, tokens),
        sound(sub, build.rest),
    ensures
        sound(attach(build, sub), tokens),
        attach(build, sub) is Ok <==> sub is Ok,
{
    lemma_attach(build, sub, tokens);
}

/// `Expression := '(' Expression ')' Suffix? | Operand Suffix?`, where an
/// operand is an identifier, a boolean, a number or a string literal, and
/// `Suffix := '++' | Operator Expression`.
///
/// The test on the length before the second expression is always met
/// ([`lemma_expression_consumes`]); it is what makes the definition well
/// founded.
pub open spec fn expression(tokens: Tokens) -> Step
    decreases tokens.len(),
{
    let head = if next_is(tokens, TokenClass::Lparen) {
        let open = Build {
            node: fresh(NodeKind::Expression).with_child(leaf(tokens[0])),
            rest: tokens.drop_first(),
        };
        and_eat(attach(open, expression(open.rest)), TokenClass::Rparen)
    } else {
        and_eat_any_of(begin(NodeKind::Expression, tokens), operand_classes())
    };
    match head {
        Err(error) => Err(error),
        Ok(build) => if next_is_exact(build.rest, operator(Operator::Increment)) {
            and_eat(head, TokenClass::Operator)
        } else if next_is(build.rest, TokenClass::Operator) && build.rest.len() <= tokens.len() {
            match and_eat(head, TokenClass::Operator) {
                Ok(left) => attach(left, expression(build.rest.drop_first())),
                Err(error) => Err(error),
            }
        } else {
            head
        },
    }
}

/// An expression that parses takes at least one token, and its leaves are
/// the tokens that it took.
pub proof fn lemma_expression_sound(tokens: Tokens)
    ensures
        sound(expression(tokens), tokens),
    decreases tokens.len(),
{
    lemma_production_kinds();
    let head = if next_is(tokens, TokenClass::Lparen) {
        let open = Build {
            node: fresh(NodeKind::Expression).with_child(leaf(tokens[0])),
            rest: tokens.drop_first(),
        };
        lemma_begin(NodeKind::Expression, tokens);
        lemma_and_eat(begin(NodeKind::Expression, tokens), TokenClass::Lparen, tokens);
        assert(and_eat(begin(NodeKind::Expression, tokens), TokenClass::Lparen) == Ok::<
            Build,
            ParserErrorModel,
        >(open));
        lemma_expression_sound(open.rest);
        lemma_attach_sound(open, expression(open.rest), tokens);
        lemma_and_eat(attach(open, expression(open.rest)), TokenClass::Rparen, tokens);
        and_eat(attach(open, expression(open.rest)), TokenClass::Rparen)
    } else {
        lemma_begin(NodeKind::Expression, tokens);
        lemma_and_eat_any_of(begin(NodeKind::Expression, tokens), operand_classes(), tokens);
        and_eat_any_of(begin(NodeKind::Expression, tokens), operand_classes())
    };
    match head {
        Ok(build) => {
            lemma_and_eat(head, TokenClass::Operator, tokens);
            if !next_is_exact(build.rest, operator(Operator::Increment)) && next_is(
                build.rest,
                TokenClass::Operator,
            ) {
                match and_eat(head, TokenClass::Operator) {
                    Ok(left) => {
                        lemma_expression_sound(left.rest);
                        lemma_attach_sound(left, expression(left.rest), tokens);
                    },
                    Err(_) => {},
                }
            }
        },
        Err(_) => {},
    }
}

/// Follows from [`lemma_expression_sound`]: an expression that parses takes
/// at least one token.
pub proof fn lemma_expression_consumes(tokens: Tokens)
    ensures
        expression(tokens) matches Ok(build) ==> build.rest.len() < tokens.len(),
{
    lemma_expression_sound(tokens);
}

/// The expressions up to the next `;`, each one a further child.
pub open spec fn expressions(build: Build) -> Step
    decreases build.rest.len(),
    via expressions_decreases
{
    if next_is(build.rest, TokenClass::Semi) {
        Ok(build)
    } else {
        match expression(build.rest) {
            Ok(part) => expressions(
                Build { node: build.node.with_child(part.node), rest: part.rest },
            ),
            Err(error) => Err(error),
        }
    }
}

#[via_fn]
proof fn expressions_decreases(build: Build) {
    lemma_expression_consumes(build.rest);
}

/// Goes on with the expressions up to the next `;`.
pub open spec fn and_expressions(step: Step) -> Step {
    match step {
        Ok(build) => expressions(build),
        Err(error) => Err(error),
    }
}

/// Goes on with one expression.
pub open spec fn and_expression(step: Step) -> Step {
    match step {
        Ok(build) => attach(build, expression(build.rest)),
        Err(error) => Err(error),
    }
}

/// A run of expressions keeps the account.
pub proof fn lemma_expressions(build: Build, tokens: Tokens)
    requires
        accounts(build, tokens),
    ensures
        keeps(expressions(build), tokens),
        expressions(build) matches Ok(after) ==> after.rest.len() <= build.rest.len(),
    decreases build.rest.len(),
{
    if !next_is(build.rest, TokenClass::Semi) {
        lemma_expression_sound(build.rest);
        lemma_attach_sound(build, expression(build.rest), tokens);
        match expression(build.rest) {
            Ok(part) => {
                lemma_expressions(
                    Build { node: build.node.with_child(part.node), rest: part.rest },
                    tokens,
                );
            },
            Err(_) => {},
        }
    }
}

/// Going on with a run of expressions keeps the account.
pub proof fn lemma_and_expressions(step: Step, tokens: Tokens)
    requires
        sound(step, tokens),
    ensures
        sound(and_expressions(step), tokens),
{
    match step {
        Ok(build) => {
            lemma_expressions(build, tokens);
        },
        Err(_) => {},
    }
}

/// Going on with one expression keeps the account.
pub proof fn lemma_and_expression(step: Step, tokens: Tokens)
    requires
        keeps(step, tokens),
    ensures
        sound(and_expression(step), tokens),
{
    match step {
        Ok(build) => {
            lemma_expression_sound(build.rest);
            lemma_attach_sound(build, expression(build.rest), tokens);
        },
        Err(_) => {},
    }
}

/// `AssignmentStatement := Keyword Identifier '=' Expression* ';'`.
pub open spec fn assignment_statement(tokens: Tokens) -> Step {
    and_eat(
        and_expressions(
            and_eat(
                and_eat(
                    and_eat(begin(NodeKind::AssignmentStatement, tokens), TokenClass::Keyword),
                    TokenClass::Identifier,
                ),
                TokenClass::Assignment,
            ),
        ),
        TokenClass::Semi,
    )
}

/// `ReturnStatement := 'return' Expression* ';'`.
pub open spec fn return_statement(tokens: Tokens) -> Step {
    and_eat(
        and_expressions(
            and_eat_exact(begin(NodeKind::ReturnStatement, tokens), keyword("return"@)),
        ),
        TokenClass::Semi,
    )
}

/// `FunctionCall := Identifier '(' Expression ')' ';'`.
pub open spec fn function_call_statement(tokens: Tokens) -> Step {
    and_eat(
        and_eat(
            and_expression(
                and_eat(
                    and_eat(begin(NodeKind::FunctionCall, tokens), TokenClass::Identifier),
                    TokenClass::Lparen,
                ),
            ),
            TokenClass::Rparen,
        ),
        TokenClass::Semi,
    )
}

/// `Argument := Keyword Identifier`.
pub open spec fn argument(tokens: Tokens) -> Step {
    and_eat(and_eat(begin(NodeKind::Argument, tokens), TokenClass::Keyword), TokenClass::Identifier)
}

/// The arguments up to the next `)`, each one a further child.
pub open spec fn argument_list(build: Build) -> Step
    decreases build.rest.len(),
{
    if next_is(build.rest, TokenClass::Rparen) {
        Ok(build)
    } else {
        match argument(build.rest) {
            Ok(part) => argument_list(
                Build { node: build.node.with_child(part.node), rest: part.rest },
            ),
            Err(error) => Err(error),
        }
    }
}

/// `Arguments := '(' Argument* ')'`.
pub open spec fn arguments(tokens: Tokens) -> Step {
    match and_eat(begin(NodeKind::Arguments, tokens), TokenClass::Lparen) {
        Ok(build) => and_eat(argument_list(build), TokenClass::Rparen),
        Err(error) => Err(error),
    }
}

/// Goes on with an assignment statement.
pub open spec fn and_assignment(step: Step) -> Step {
    match step {
        Ok(build) => attach(build, assignment_statement(build.rest)),
        Err(error) => Err(error),
    }
}

/// Goes on with the arguments of a function definition.
pub open spec fn and_arguments(step: Step) -> Step {
    match step {
        Ok(build) => attach(build, arguments(build.rest)),
        Err(error) => Err(error),
    }
}

/// An assignment statement that parses takes at least one token, and its
/// leaves are the tokens that it took.
pub proof fn lemma_assignment_sound(tokens: Tokens)
    ensures
        sound(assignment_statement(tokens), tokens),
{
    lemma_production_kinds();
    let s0 = begin(NodeKind::AssignmentStatement, tokens);
    lemma_begin(NodeKind::AssignmentStatement, tokens);
    let s1 = and_eat(s0, TokenClass::Keyword);
    lemma_and_eat(s0, TokenClass::Keyword, tokens);
    let s2 = and_eat(s1, TokenClass::Identifier);
    lemma_and_eat(s1, TokenClass::Identifier, tokens);
    let s3 = and_eat(s2, TokenClass::Assignment);
    lemma_and_eat(s2, TokenClass::Assignment, tokens);
    let s4 = and_expressions(s3);
    lemma_and_expressions(s3, tokens);
    lemma_and_eat(s4, TokenClass::Semi, tokens);
}

/// A return statement that parses takes at least one token, and its leaves
/// are the tokens that it took.
pub proof fn lemma_return_sound(tokens: Tokens)
    ensures
        sound(return_statement(tokens), tokens),
{
    lemma_production_kinds();
    let s0 = begin(NodeKind::ReturnStatement, tokens);
    lemma_begin(NodeKind::ReturnStatement, tokens);
    let s1 = and_eat_exact(s0, keyword("return"@));
    lemma_and_eat_exact(s0, keyword("return"@), tokens);
    let s2 = and_expressions(s1);
    lemma_and_expressions(s1, tokens);
    lemma_and_eat(s2, TokenClass::Semi, tokens);
}

/// A function call that parses takes at least one token, and its leaves are
/// the tokens that it took.
pub proof fn lemma_function_call_sound(tokens: Tokens)
    ensures
        sound(function_call_statement(tokens), tokens),
{
    lemma_production_kinds();
    let s0 = begin(NodeKind::FunctionCall, tokens);
    lemma_begin(NodeKind::FunctionCall, tokens);
    let s1 = and_eat(s0, TokenClass::Identifier);
    lemma_and_eat(s0, TokenClass::Identifier, tokens);
    let s2 = and_eat(s1, TokenClass::Lparen);
    lemma_and_eat(s1, TokenClass::Lparen, tokens);
    let s3 = and_expression(s2);
    lemma_and_expression(s2, tokens);
    let s4 = and_eat(s3, TokenClass::Rparen);
    lemma_and_eat(s3, TokenClass::Rparen, tokens);
    lemma_and_eat(s4, TokenClass::Semi, tokens);
}

/// An argument that parses takes at least one token, and its leaves are the
/// tokens that it took.
pub proof fn lemma_argument_sound(tokens: Tokens)
    ensures
        sound(argument(tokens), tokens),
{
    lemma_production_kinds();
    let s0 = begin(NodeKind::Argument, tokens);
    lemma_begin(NodeKind::Argument, tokens);
    let s1 = and_eat(s0, TokenClass::Keyword);
    lemma_and_eat(s0, TokenClass::Keyword, tokens);
    lemma_and_eat(s1, TokenClass::Identifier, tokens);
}

/// A run of arguments keeps the account.
pub proof fn lemma_argument_list(build: Build, tokens: Tokens)
    requires
        accounts(build, tokens),
    ensures
        keeps(argument_list(build), tokens),
        argument_list(build) matches Ok(after) ==> after.rest.len() <= build.rest.len(),
    decreases build.rest.len(),
{
    if !next_is(build.rest, TokenClass::Rparen) {
        lemma_argument_sound(build.rest);
        lemma_attach_sound(build, argument(build.rest), tokens);
        match argument(build.rest) {
            Ok(part) => {
                lemma_argument_list(
                    Build { node: build.node.with_child(part.node), rest: part.rest },
                    tokens,
                );
            },
            Err(_) => {},
        }
    }
}

/// The arguments of a function definition, where they parse, take at least
/// one token, and their leaves are the tokens that they took.
pub proof fn lemma_arguments_sound(tokens: Tokens)
    ensures
        sound(arguments(tokens), tokens),
{
    lemma_production_kinds();
    let s0 = begin(NodeKind::Arguments, tokens);
    lemma_begin(NodeKind::Arguments, tokens);
    lemma_and_eat(s0, TokenClass::Lparen, tokens);
    match and_eat(s0, TokenClass::Lparen) {
        Ok(build) => {
            lemma_argument_list(build, tokens);
            lemma_and_eat(argument_list(build), TokenClass::Rparen, tokens);
        },
        Err(_) => {},
    }
}

/// What a control-flow block reads before its block: `'(' Expression ')'`.
pub open spec fn control_flow_head(tokens: Tokens) -> Step {
    and_eat(
        and_expression(and_eat(begin(NodeKind::ControlFlowBlock, tokens), TokenClass::Lparen)),
        TokenClass::Rparen,
    )
}

/// What a for loop reads before its block:
/// `'for' '(' AssignmentStatement Expression ';' Expression ')'`.
pub open spec fn for_loop_head(tokens: Tokens) -> Step {
    and_eat(
        and_expression(
            and_eat(
                and_expression(
                    and_assignment(
                        and_eat(
                            and_eat(
                                begin(NodeKind::ForLoopStatement, tokens),
                                TokenClass::Keyword,
                            ),
                            TokenClass::Lparen,
                        ),
                    ),
                ),
                TokenClass::Semi,
            ),
        ),
        TokenClass::Rparen,
    )
}

/// What a function definition reads before its block:
/// `'fn' Identifier Arguments '->' Keyword`.
pub open spec fn function_head(tokens: Tokens) -> Step {
    and_eat(
        and_eat_exact(
            and_arguments(
                and_eat(
                    and_eat_exact(begin(NodeKind::FunctionDefinition, tokens), keyword("fn"@)),
                    TokenClass::Identifier,
                ),
            ),
            operator(Operator::Pointer),
        ),
        TokenClass::Keyword,
    )
}

/// The head of a control-flow block takes at least one token and keeps the
/// account.
pub proof fn lemma_control_flow_head(tokens: Tokens)
    ensures
        sound(control_flow_head(tokens), tokens),
{
    lemma_production_kinds();
    let s0 = begin(NodeKind::ControlFlowBlock, tokens);
    lemma_begin(NodeKind::ControlFlowBlock, tokens);
    let s1 = and_eat(s0, TokenClass::Lparen);
    lemma_and_eat(s0, TokenClass::Lparen, tokens);
    let s2 = and_expression(s1);
    lemma_and_expression(s1, tokens);
    lemma_and_eat(s2, TokenClass::Rparen, tokens);
}

/// The head of a for loop takes at least one token and keeps the account.
pub proof fn lemma_for_loop_head(tokens: Tokens)
    ensures
        sound(for_loop_head(tokens), tokens),
{
    lemma_production_kinds();
    let s0 = begin(NodeKind::ForLoopStatement, tokens);
    lemma_begin(NodeKind::ForLoopStatement, tokens);
    let s1 = and_eat(s0, TokenClass::Keyword);
    lemma_and_eat(s0, TokenClass::Keyword, tokens);
    let s2 = and_eat(s1, TokenClass::Lparen);
    lemma_and_eat(s1, TokenClass::Lparen, tokens);
    let s3 = and_assignment(s2);
    match s2 {
        Ok(build) => {
            lemma_assignment_sound(build.rest);
            lemma_attach_sound(build, assignment_statement(build.rest), tokens);
        },
        Err(_) => {},
    }
    let s4 = and_expression(s3);
    lemma_and_expression(s3, tokens);
    let s5 = and_eat(s4, TokenClass::Semi);
    lemma_and_eat(s4, TokenClass::Semi, tokens);
    let s6 = and_expression(s5);
    lemma_and_expression(s5, tokens);
    lemma_and_eat(s6, TokenClass::Rparen, tokens);
}

/// The head of a function definition takes at least one token and keeps the
/// account.
pub proof fn lemma_function_head(tokens: Tokens)
    ensures
        sound(function_head(tokens), tokens),
{
    lemma_production_kinds();
    let s0 = begin(NodeKind::FunctionDefinition, tokens);
    lemma_begin(NodeKind::FunctionDefinition, tokens);
    let s1 = and_eat_exact(s0, keyword("fn"@));
    lemma_and_eat_exact(s0, keyword("fn"@), tokens);
    let s2 = and_eat(s1, TokenClass::Identifier);
    lemma_and_eat(s1, TokenClass::Identifier, tokens);
    let s3 = and_arguments(s2);
    match s2 {
        Ok(build) => {
            lemma_arguments_sound(build.rest);
            lemma_attach_sound(build, arguments(build.rest), tokens);
        },
        Err(_) => {},
    }
    let s4 = and_eat_exact(s3, operator(Operator::Pointer));
    lemma_and_eat_exact(s3, operator(Operator::Pointer), tokens);
    lemma_and_eat(s4, TokenClass::Keyword, tokens);
}

/// `Statement := KeywordStatement | FunctionCall`: a statement that starts
/// with a keyword is a keyword statement, any other a function call.
pub open spec fn statement(tokens: Tokens) -> Step
    decreases tokens.len(), 5nat,
{
    if next_is(tokens, TokenClass::Keyword) {
        keyword_statement(tokens)
    } else {
        function_call_statement(tokens)
    }
}

/// The statement that a leading keyword announces: a condition after `if`
/// or `while`, a loop after `for`, a function definition after `fn`, a
/// return statement after `return`, an assignment after any other keyword.
pub open spec fn keyword_statement(tokens: Tokens) -> Step
    decreases tokens.len(), 4nat,
{
    if next_is_exact(tokens, keyword("if"@)) || next_is_exact(tokens, keyword("while"@)) {
        condition_statement(tokens)
    } else if next_is_exact(tokens, keyword("for"@)) {
        for_loop_statement(tokens)
    } else if next_is_exact(tokens, keyword("fn"@)) {
        function_definition(tokens)
    } else if next_is_exact(tokens, keyword("return"@)) {
        return_statement(tokens)
    } else {
        assignment_statement(tokens)
    }
}

/// `ConditionStatement := Keyword ControlFlowBlock`.
pub open spec fn condition_statement(tokens: Tokens) -> Step
    decreases tokens.len(), 3nat,
{
    match and_eat(begin(NodeKind::ConditionStatement, tokens), TokenClass::Keyword) {
        Ok(build) => attach(build, control_flow_block(build.rest)),
        Err(error) => Err(error),
    }
}

/// `ControlFlowBlock := '(' Expression ')' Block`.
pub open spec fn control_flow_block(tokens: Tokens) -> Step
    decreases tokens.len(), 2nat,
    via control_flow_block_decreases
{
    match control_flow_head(tokens) {
        Ok(build) => attach(build, block(build.rest)),
        Err(error) => Err(error),
    }
}

#[via_fn]
proof fn control_flow_block_decreases(tokens: Tokens) {
    lemma_control_flow_head(tokens);
}

/// `ForLoopStatement := 'for' '(' AssignmentStatement Expression ';'
/// Expression ')' Block`.
pub open spec fn for_loop_statement(tokens: Tokens) -> Step
    decreases tokens.len(), 3nat,
    via for_loop_statement_decreases
{
    match for_loop_head(tokens) {
        Ok(build) => attach(build, block(build.rest)),
        Err(error) => Err(error),
    }
}

#[via_fn]
proof fn for_loop_statement_decreases(tokens: Tokens) {
    lemma_for_loop_head(tokens);
}

/// `FunctionDefinition := 'fn' Identifier Arguments '->' Keyword Block`.
pub open spec fn function_definition(tokens: Tokens) -> Step
    decreases tokens.len(), 3nat,
    via function_definition_decreases
{
    match function_head(tokens) {
        Ok(build) => attach(build, block(build.rest)),
        Err(error) => Err(error),
    }
}

#[via_fn]
proof fn function_definition_decreases(tokens: Tokens) {
    lemma_function_head(tokens);
}

/// `Block := '{' Statement* '}'`.
pub open spec fn block(tokens: Tokens) -> Step
    decreases tokens.len(), 1nat,
{
    match and_eat(begin(NodeKind::Block, tokens), TokenClass::LCurly) {
        Ok(build) => and_eat(block_items(build), TokenClass::RCurly),
        Err(error) => Err(error),
    }
}

/// The statements up to the next `}`, each one a further child.
///
/// The test on the length is always met ([`lemma_statement_consumes`]); it
/// is what makes the definition well founded.
pub open spec fn block_items(build: Build) -> Step
    decreases build.rest.len(), 6nat,
{
    if next_is(build.rest, TokenClass::RCurly) {
        Ok(build)
    } else {
        match statement(build.rest) {
            Ok(part) => {
                let next = Build { node: build.node.with_child(part.node), rest: part.rest };
                if part.rest.len() < build.rest.len() {
                    block_items(next)
                } else {
                    Ok(next)
                }
            },
            Err(error) => Err(error),
        }
    }
}

/// A statement that parses takes at least one token, and its leaves are the
/// tokens that it took.
pub proof fn lemma_statement_sound(tokens: Tokens)
    ensures
        sound(statement(tokens), tokens),
    decreases tokens.len(), 5nat,
{
    if next_is(tokens, TokenClass::Keyword) {
        lemma_keyword_statement_sound(tokens);
    } else {
        lemma_function_call_sound(tokens);
    }
}

/// A keyword statement that parses takes at least one token, and its leaves
/// are the tokens that it took.
pub proof fn lemma_keyword_statement_sound(tokens: Tokens)
    ensures
        sound(keyword_statement(tokens), tokens),
    decreases tokens.len(), 4nat,
{
    lemma_production_kinds();
    if next_is_exact(tokens, keyword("if"@)) || next_is_exact(tokens, keyword("while"@)) {
        let s0 = begin(NodeKind::ConditionStatement, tokens);
        lemma_begin(NodeKind::ConditionStatement, tokens);
        lemma_and_eat(s0, TokenClass::Keyword, tokens);
        match and_eat(s0, TokenClass::Keyword) {
            Ok(build) => {
                lemma_control_flow_block_sound(build.rest);
                lemma_attach_sound(build, control_flow_block(build.rest), tokens);
            },
            Err(_) => {},
        }
    } else if next_is_exact(tokens, keyword("for"@)) {
        lemma_for_loop_head(tokens);
        match for_loop_head(tokens) {
            Ok(build) => {
                lemma_block_sound(build.rest);
                lemma_attach_sound(build, block(build.rest), tokens);
            },
            Err(_) => {},
        }
    } else if next_is_exact(tokens, keyword("fn"@)) {
        lemma_function_head(tokens);
        match function_head(tokens) {
            Ok(build) => {
                lemma_block_sound(build.rest);
                lemma_attach_sound(build, block(build.rest), tokens);
            },
            Err(_) => {},
        }
    } else if next_is_exact(tokens, keyword("return"@)) {
        lemma_return_sound(tokens);
    } else {
        lemma_assignment_sound(tokens);
    }
}

/// A control-flow block that parses takes at least one token, and its leaves
/// are the tokens that it took.
pub proof fn lemma_control_flow_block_sound(tokens: Tokens)
    ensures
        sound(control_flow_block(tokens), tokens),
    decreases tokens.len(), 2nat,
{
    lemma_control_flow_head(tokens);
    match control_flow_head(tokens) {
        Ok(build) => {
            lemma_block_sound(build.rest);
            lemma_attach_sound(build, block(build.rest), tokens);
        },
        Err(_) => {},
    }
}

/// A block that parses takes at least one token, and its leaves are the
/// tokens that it took.
pub proof fn lemma_block_sound(tokens: Tokens)
    ensures
        sound(block(tokens), tokens),
    decreases tokens.len(), 1nat,
{
    lemma_production_kinds();
    let s0 = begin(NodeKind::Block, tokens);
    lemma_begin(NodeKind::Block, tokens);
    lemma_and_eat(s0, TokenClass::LCurly, tokens);
    match and_eat(s0, TokenClass::LCurly) {
        Ok(build) => {
            lemma_block_items(build, tokens);
            lemma_and_eat(block_items(build), TokenClass::RCurly, tokens);
        },
        Err(_) => {},
    }
}

/// The statements of a block keep the account.
pub proof fn lemma_block_items(build: Build, tokens: Tokens)
    requires
        accounts(build, tokens),
    ensures
        keeps(block_items(build), tokens),
    decreases build.rest.len(), 6nat,
{
    if !next_is(build.rest, TokenClass::RCurly) {
        lemma_statement_sound(build.rest);
        lemma_attach_sound(build, statement(build.rest), tokens);
        match statement(build.rest) {
            Ok(part) => {
                lemma_block_items(
                    Build { node: build.node.with_child(part.node), rest: part.rest },
                    tokens,
                );
            },
            Err(_) => {},
        }
    }
}

/// Follows from [`lemma_statement_sound`]: a statement that parses takes at
/// least one token.
pub proof fn lemma_statement_consumes(tokens: Tokens)
    ensures
        statement(tokens) matches Ok(build) ==> build.rest.len() < tokens.len(),
{
    lemma_statement_sound(tokens);
}

/// The statements up to the end of the input, each one a further child.
pub open spec fn program_items(build: Build) -> Step
    decreases build.rest.len(),
    via program_items_decreases
{
    if build.rest.len() == 0 {
        Ok(build)
    } else {
        match statement(build.rest) {
            Ok(part) => program_items(
                Build { node: build.node.with_child(part.node), rest: part.rest },
            ),
            Err(error) => Err(error),
        }
    }
}

#[via_fn]
proof fn program_items_decreases(build: Build) {
    lemma_statement_consumes(build.rest);
}

/// `Program := Statement*`, up to the end of the input.
pub open spec fn program(tokens: Tokens) -> Step {
    program_items(Build { node: fresh(NodeKind::Program), rest: tokens })
}

/// The statements of a program keep the account and leave no token.
pub proof fn lemma_program_items(build: Build, tokens: Tokens)
    requires
        accounts(build, tokens),
    ensures
        keeps(program_items(build), tokens),
        program_items(build) matches Ok(after) ==> after.rest.len() == 0,
    decreases build.rest.len(),
{
    if build.rest.len() > 0 {
        lemma_statement_sound(build.rest);
        lemma_attach_sound(build, statement(build.rest), tokens);
        match statement(build.rest) {
            Ok(part) => {
                lemma_program_items(
                    Build { node: build.node.with_child(part.node), rest: part.rest },
                    tokens,
                );
            },
            Err(_) => {},
        }
    }
}

/// The leaves of the tree of an accepted input are its tokens, in source
/// order: the leaf at each place has the kind of the class of the token
/// at that place, its text, and the line and the column where it starts.
/// No token is left, and every node that has children stands at the place
/// of its first child.
pub proof fn lemma_leaves_are_tokens(tokens: Tokens)
    ensures
        program(tokens) matches Ok(build) ==> {
            &&& build.rest.len() == 0
            &&& is_placed(build.node)
            &&& leaves(build.node) == token_leaves(tokens)
            &&& leaves(build.node).len() == tokens.len()
            &&& forall|i: int|
                0 <= i < tokens.len() ==> {
                    &&& (#[trigger] leaves(build.node)[i]).kind == leaf_kind(tokens[i].token.0)
                    &&& leaves(build.node)[i].value == tokens[i].token.1
                    &&& leaves(build.node)[i].line == tokens[i].line
                    &&& leaves(build.node)[i].column == tokens[i].start_column
                }
        },
{
    lemma_production_kinds();
    let start = Build { node: fresh(NodeKind::Program), rest: tokens };
    lemma_begin(NodeKind::Program, tokens);
    lemma_program_items(start, tokens);
    match program(tokens) {
        Ok(build) => {
            assert(token_leaves(build.rest) =~= Seq::<NodeModel>::empty());
            assert(leaves(build.node) =~= leaves(build.node) + token_leaves(build.rest));
        },
        Err(_) => {},
    }
}

} // verus!
