//! The recursive-descent parser. It decides on one token of look-ahead,
//! never goes back, and stops at the first token that the grammar does not
//! allow.

use crate::lexer::{Lexer, LexerError, TokenInfo};
use crate::operator::Operator;
use crate::parse_node::{Loc, NodeKind, NodeModel, ParseNode};
use crate::syntax::{
    and_eat, argument, argument_list, arguments, assignment_statement, block, block_items,
    condition_statement, control_flow_block, eat, eat_any_of, eat_exact, expression, expressions,
    for_loop_statement, fresh, function_call_statement, function_definition, is_placed,
    joined_names, keyword,
    keyword_statement, leaf, leaves, lemma_arguments_sound, lemma_assignment_sound,
    lemma_expression_consumes, lemma_leaves_are_tokens, lemma_statement_consumes, next_is,
    next_is_any_of, next_is_exact, next_is_exact_any_of, operand_classes, program, program_items,
    return_statement, state, statement, token_leaves, Build, ParserErrorModel, Step, Tokens,
};
use crate::token::{Token, TokenClass};
use vstd::prelude::*;
use vstd::string::*;

verus! {

/// Why a parse failed.
#[derive(Debug)]
pub enum ParserError {
    /// The lexer failed.
    LexerError(LexerError),
    /// The grammar asks for the first text; the second is what stood there.
    UnexpectedToken(String, String),
}

impl View for ParserError {
    type V = ParserErrorModel;

    open spec fn view(&self) -> ParserErrorModel {
        match self {
            ParserError::LexerError(error) => ParserErrorModel::LexerError(error@),
            ParserError::UnexpectedToken(expected, actual) => ParserErrorModel::UnexpectedToken(
                expected@,
                actual@,
            ),
        }
    }
}

impl ParserError {
    /// The message of the error.
    pub open spec fn message(&self) -> Seq<char> {
        match self {
            ParserError::LexerError(_) => "Lexer has failed!"@,
            ParserError::UnexpectedToken(expected, actual) => "Unexpected token: "@ + expected@
                + " actual was: "@ + actual@ + "!"@,
        }
    }

    /// The message of the error.
    pub fn to_string(&self) -> (text: String)
        ensures
            text@ == self.message(),
    {
        match self {
            ParserError::LexerError(_) => "Lexer has failed!".to_owned(),
            ParserError::UnexpectedToken(expected, actual) => {
                let text = "Unexpected token: ".to_owned().concat(expected.as_str());
                text.concat(" actual was: ").concat(actual.as_str()).concat("!")
            },
        }
    }
}

/// What a parse gives: the tree, or the first error.
pub type ParserResult = Result<ParseNode, ParserError>;

/// The parser: a lexer and the grammar's productions over it.
pub struct RecursiveDescentParser {
    lexer: Lexer,
}

/// `result` and the tokens `left` are what the production state `step`
/// says: the same tree with the same tokens left, or the same error.
pub open spec fn agrees(result: ParserResult, left: Tokens, step: Step) -> bool {
    match step {
        Ok(build) => result matches Ok(node) && node@ == build.node && left == build.rest,
        Err(error) => result matches Err(e) && e@ == error,
    }
}

impl RecursiveDescentParser {
    /// The parser is in a state that its own operations lead to.
    pub closed spec fn wf(&self) -> bool {
        self.lexer.wf()
    }

    /// The tokens that the parser has still to read.
    pub closed spec fn upcoming(&self) -> Tokens {
        self.lexer.upcoming()
    }

    /// A parser over the tokens of `lexer`.
    pub fn new(lexer: Lexer) -> (parser: RecursiveDescentParser)
        requires
            lexer.wf(),
        ensures
            parser.wf(),
            parser.upcoming() == lexer.upcoming(),
    {
        RecursiveDescentParser { lexer }
    }

    /// The leaf that stands for the token `info`.
    fn leaf_of(info: &TokenInfo) -> (node: ParseNode)
        ensures
            node@ == leaf(info@),
    {
        let node = ParseNode {
            loc: Loc { line: info.line, column: info.start_column },
            value: info.token.extract_value(),
            kind: NodeKind::from(info.token.to_token_class()),
            children: Vec::new(),
        };
        assert(node@.children =~= Seq::<NodeModel>::empty());
        node
    }

    fn eat(&mut self, token: &TokenClass) -> (r: ParserResult)
        requires
            old(self).wf(),
        ensures
            final(self).wf(),
            agrees(r, final(self).upcoming(), eat(old(self).upcoming(), *token)),
            r is Err ==> final(self).upcoming() == old(self).upcoming(),
    {
        let mut node: Option<ParseNode> = None;
        let mut actual_token: String = "Unknown".to_owned();
        match self.lexer.peek() {
            Some(token_info) => {
                actual_token = token_info.token.to_string();
                if token_info.token.to_token_class() == *token {
                    node = Some(Self::leaf_of(token_info));
                }
            },
            None => {},
        }
        match node {
            Some(node) => {
                match self.lexer.next() {
                    Ok(_) => Ok(node),
                    Err(error) => Err(ParserError::LexerError(error)),
                }
            },
            None => Err(ParserError::UnexpectedToken(token.to_string(), actual_token)),
        }
    }

    fn is_next_exact(&mut self, token: &Token) -> (r: bool)
        requires
            old(self).wf(),
        ensures
            final(self).wf(),
            final(self).upcoming() == old(self).upcoming(),
            r == next_is_exact(old(self).upcoming(), token@),
    {
        match self.lexer.peek() {
            Some(token_info) => token_info.token == *token,
            None => false,
        }
    }

    fn is_next(&mut self, token: &TokenClass) -> (r: bool)
        requires
            old(self).wf(),
        ensures
            final(self).wf(),
            final(self).upcoming() == old(self).upcoming(),
            r == next_is(old(self).upcoming(), *token),
    {
        match self.lexer.peek() {
            Some(token_info) => token_info.token.to_token_class() == *token,
            None => false,
        }
    }

    fn eat_any_of(&mut self, tokens: &[TokenClass]) -> (r: ParserResult)
        requires
            old(self).wf(),
        ensures
            final(self).wf(),
            agrees(r, final(self).upcoming(), eat_any_of(old(self).upcoming(), tokens@)),
            r is Err ==> final(self).upcoming() == old(self).upcoming(),
    {
        let mut i: usize = 0;
        while i < tokens.len()
            invariant
                i <= tokens@.len(),
                self.wf(),
                self.upcoming() == old(self).upcoming(),
                forall|j: int| 0 <= j < i ==> !next_is(old(self).upcoming(), #[trigger] tokens@[j]),
            decreases tokens@.len() - i,
        {
            match self.eat(&tokens[i]) {
                Ok(node) => {
                    return Ok(node);
                },
                Err(_) => {},
            }
            i = i + 1;
        }
        let mut buffer: String = String::new();
        let mut k: usize = 0;
        proof {
            assert(tokens@.take(0) =~= Seq::<TokenClass>::empty());
        }
        while k < tokens.len()
            invariant
                k <= tokens@.len(),
                buffer@ == joined_names(tokens@.take(k as int)),
            decreases tokens@.len() - k,
        {
            proof {
                assert(tokens@.take(k + 1).drop_last() =~= tokens@.take(k as int));
                assert(tokens@.take(k + 1).last() == tokens@[k as int]);
            }
            if k > 0 {
                buffer.append(" or ");
            }
            buffer.append(tokens[k].to_string().as_str());
            proof {
                if k == 0 {
                    assert(buffer@ =~= tokens@[0].name());
                }
            }
            k = k + 1;
        }
        proof {
            assert(tokens@.take(k as int) =~= tokens@);
        }
        let mut actual_token: String = "Unknown".to_owned();
        match self.lexer.peek() {
            Some(token_info) => {
                actual_token = token_info.token.to_string();
            },
            None => {},
        }
        Err(ParserError::UnexpectedToken(buffer, actual_token))
    }

    fn eat_exact(&mut self, token: &Token) -> (r: ParserResult)
        requires
            old(self).wf(),
        ensures
            final(self).wf(),
            agrees(r, final(self).upcoming(), eat_exact(old(self).upcoming(), token@)),
    {
        let token_info = match self.lexer.next() {
            Ok(token_info) => token_info,
            Err(error) => {
                return Err(ParserError::LexerError(error));
            },
        };
        if token_info.token == *token {
            Ok(Self::leaf_of(&token_info))
        } else {
            Err(ParserError::UnexpectedToken(token.to_string(), token_info.token.to_string()))
        }
    }

    fn is_next_exact_any_of(&mut self, tokens: &[Token]) -> (r: bool)
        requires
            old(self).wf(),
        ensures
            final(self).wf(),
            final(self).upcoming() == old(self).upcoming(),
            r == next_is_exact_any_of(old(self).upcoming(), tokens@.map_values(|t: Token| t@)),
    {
        let ghost choices = tokens@.map_values(|t: Token| t@);
        let mut i: usize = 0;
        while i < tokens.len()
            invariant
                i <= tokens@.len(),
                self.wf(),
                self.upcoming() == old(self).upcoming(),
                choices == tokens@.map_values(|t: Token| t@),
                forall|j: int|
                    0 <= j < i ==> !next_is_exact(old(self).upcoming(), #[trigger] choices[j]),
            decreases tokens@.len() - i,
        {
            if self.is_next_exact(&tokens[i]) {
                assert(next_is_exact(old(self).upcoming(), choices[i as int]));
                return true;
            }
            i = i + 1;
        }
        false
    }

    #[allow(dead_code)]
    fn is_next_any_of(&mut self, tokens: &[TokenClass]) -> (r: bool)
        requires
            old(self).wf(),
        ensures
            final(self).wf(),
            final(self).upcoming() == old(self).upcoming(),
            r == next_is_any_of(old(self).upcoming(), tokens@),
    {
        let mut i: usize = 0;
        while i < tokens.len()
            invariant
                i <= tokens@.len(),
                self.wf(),
                self.upcoming() == old(self).upcoming(),
                forall|j: int| 0 <= j < i ==> !next_is(old(self).upcoming(), #[trigger] tokens@[j]),
            decreases tokens@.len() - i,
        {
            if self.is_next(&tokens[i]) {
                return true;
            }
            i = i + 1;
        }
        false
    }

    /// A node of kind `kind` without text or children.
    fn fresh_node(kind: NodeKind) -> (node: ParseNode)
        ensures
            node@ == fresh(kind),
    {
        let node = ParseNode {
            loc: Loc { line: 1, column: 1 },
            kind,
            value: None,
            children: Vec::new(),
        };
        assert(node@.children =~= Seq::<NodeModel>::empty());
        node
    }

    fn parse_expression(&mut self) -> (r: ParserResult)
        requires
            old(self).wf(),
        ensures
            final(self).wf(),
            agrees(r, final(self).upcoming(), expression(old(self).upcoming())),
        decreases old(self).upcoming().len(),
    {
        let mut expression = Self::fresh_node(NodeKind::Expression);
        if self.is_next(&TokenClass::Lparen) {
            let l_paren = self.eat(&TokenClass::Lparen)?;
            expression.loc = l_paren.loc;
            expression.add_child(l_paren);
            expression.add_child(self.parse_expression()?);
            expression.add_child(self.eat(&TokenClass::Rparen)?);
        } else {
            let operands = [
                TokenClass::Identifier,
                TokenClass::Boolean,
                TokenClass::Number,
                TokenClass::Literal,
            ];
            assert(operands@ =~= operand_classes());
            expression.add_child(self.eat_any_of(operands.as_slice())?);
        }
        proof {
            lemma_expression_consumes(old(self).upcoming().drop_first());
        }
        if self.is_next_exact(&Token::Operator(Operator::Increment)) {
            expression.add_child(self.eat(&TokenClass::Operator)?);
        } else if self.is_next(&TokenClass::Operator) {
            expression.add_child(self.eat(&TokenClass::Operator)?);
            expression.add_child(self.parse_expression()?);
        }
        Ok(expression)
    }

    fn parse_block(&mut self) -> (r: ParserResult)
        requires
            old(self).wf(),
        ensures
            final(self).wf(),
            agrees(r, final(self).upcoming(), block(old(self).upcoming())),
        decreases old(self).upcoming().len(), 1nat,
    {
        let mut node = Self::fresh_node(NodeKind::Block);
        node.add_child(self.eat(&TokenClass::LCurly)?);
        let ghost start = state(node@, self.upcoming());
        loop
            invariant_except_break
                block_items(state(node@, self.upcoming())) == block_items(start),
            invariant
                self.wf(),
                block(old(self).upcoming()) == and_eat(block_items(start), TokenClass::RCurly),
                self.upcoming().len() < old(self).upcoming().len(),
            ensures
                self.wf(),
                block_items(start) == Ok::<Build, ParserErrorModel>(state(node@, self.upcoming())),
            decreases self.upcoming().len(),
        {
            if self.is_next(&TokenClass::RCurly) {
                break ;
            }
            proof {
                lemma_statement_consumes(self.upcoming());
            }
            node.add_child(self.parse_statement()?);
        }
        node.add_child(self.eat(&TokenClass::RCurly)?);
        Ok(node)
    }

    fn parse_control_flow_block(&mut self) -> (r: ParserResult)
        requires
            old(self).wf(),
        ensures
            final(self).wf(),
            agrees(r, final(self).upcoming(), control_flow_block(old(self).upcoming())),
        decreases old(self).upcoming().len(), 2nat,
    {
        let mut block = Self::fresh_node(NodeKind::ControlFlowBlock);
        block.add_child(self.eat(&TokenClass::Lparen)?);
        proof {
            lemma_expression_consumes(self.upcoming());
        }
        block.add_child(self.parse_expression()?);
        block.add_child(self.eat(&TokenClass::Rparen)?);
        block.add_child(self.parse_block()?);
        Ok(block)
    }

    fn parse_for_loop_statement(&mut self) -> (r: ParserResult)
        requires
            old(self).wf(),
        ensures
            final(self).wf(),
            agrees(r, final(self).upcoming(), for_loop_statement(old(self).upcoming())),
        decreases old(self).upcoming().len(), 3nat,
    {
        let mut statement = Self::fresh_node(NodeKind::ForLoopStatement);
        statement.add_child(self.eat(&TokenClass::Keyword)?);
        statement.add_child(self.eat(&TokenClass::Lparen)?);
        proof {
            lemma_assignment_sound(self.upcoming());
        }
        statement.add_child(self.parse_assignment_statement()?);
        proof {
            lemma_expression_consumes(self.upcoming());
        }
        statement.add_child(self.parse_expression()?);
        statement.add_child(self.eat(&TokenClass::Semi)?);
        proof {
            lemma_expression_consumes(self.upcoming());
        }
        statement.add_child(self.parse_expression()?);
        statement.add_child(self.eat(&TokenClass::Rparen)?);
        statement.add_child(self.parse_block()?);
        Ok(statement)
    }

    fn parse_condition_statement(&mut self) -> (r: ParserResult)
        requires
            old(self).wf(),
        ensures
            final(self).wf(),
            agrees(r, final(self).upcoming(), condition_statement(old(self).upcoming())),
        decreases old(self).upcoming().len(), 3nat,
    {
        let mut statement = Self::fresh_node(NodeKind::ConditionStatement);
        statement.add_child(self.eat(&TokenClass::Keyword)?);
        statement.add_child(self.parse_control_flow_block()?);
        Ok(statement)
    }

    fn parse_assignment_statement(&mut self) -> (r: ParserResult)
        requires
            old(self).wf(),
        ensures
            final(self).wf(),
            agrees(r, final(self).upcoming(), assignment_statement(old(self).upcoming())),
    {
        let mut statement = Self::fresh_node(NodeKind::AssignmentStatement);
        statement.add_child(self.eat(&TokenClass::Keyword)?);
        statement.add_child(self.eat(&TokenClass::Identifier)?);
        statement.add_child(self.eat(&TokenClass::Assignment)?);
        let ghost start = state(statement@, self.upcoming());
        loop
            invariant_except_break
                expressions(state(statement@, self.upcoming())) == expressions(start),
            invariant
                self.wf(),
                assignment_statement(old(self).upcoming()) == and_eat(
                    expressions(start),
                    TokenClass::Semi,
                ),
                self.upcoming().len() < old(self).upcoming().len(),
            ensures
                self.wf(),
                expressions(start) == Ok::<Build, ParserErrorModel>(
                    state(statement@, self.upcoming()),
                ),
            decreases self.upcoming().len(),
        {
            if self.is_next(&TokenClass::Semi) {
                break ;
            }
            proof {
                lemma_expression_consumes(self.upcoming());
            }
            statement.add_child(self.parse_expression()?);
        }
        statement.add_child(self.eat(&TokenClass::Semi)?);
        Ok(statement)
    }

    fn parse_argument(&mut self) -> (r: ParserResult)
        requires
            old(self).wf(),
        ensures
            final(self).wf(),
            agrees(r, final(self).upcoming(), argument(old(self).upcoming())),
    {
        let mut statement = Self::fresh_node(NodeKind::Argument);
        statement.add_child(self.eat(&TokenClass::Keyword)?);
        statement.add_child(self.eat(&TokenClass::Identifier)?);
        Ok(statement)
    }

    fn parse_arguments(&mut self) -> (r: ParserResult)
        requires
            old(self).wf(),
        ensures
            final(self).wf(),
            agrees(r, final(self).upcoming(), arguments(old(self).upcoming())),
    {
        let mut statement = Self::fresh_node(NodeKind::Arguments);
        statement.add_child(self.eat(&TokenClass::Lparen)?);
        let ghost start = state(statement@, self.upcoming());
        loop
            invariant_except_break
                argument_list(state(statement@, self.upcoming())) == argument_list(start),
            invariant
                self.wf(),
                arguments(old(self).upcoming()) == and_eat(
                    argument_list(start),
                    TokenClass::Rparen,
                ),
                self.upcoming().len() < old(self).upcoming().len(),
            ensures
                self.wf(),
                argument_list(start) == Ok::<Build, ParserErrorModel>(
                    state(statement@, self.upcoming()),
                ),
            decreases self.upcoming().len(),
        {
            if self.is_next(&TokenClass::Rparen) {
                break ;
            }
            statement.add_child(self.parse_argument()?);
        }
        statement.add_child(self.eat(&TokenClass::Rparen)?);
        Ok(statement)
    }

    fn parse_function_definition(&mut self) -> (r: ParserResult)
        requires
            old(self).wf(),
        ensures
            final(self).wf(),
            agrees(r, final(self).upcoming(), function_definition(old(self).upcoming())),
        decreases old(self).upcoming().len(), 3nat,
    {
        let mut statement = Self::fresh_node(NodeKind::FunctionDefinition);
        statement.add_child(self.eat_exact(&Token::Keyword("fn".to_owned()))?);
        statement.add_child(self.eat(&TokenClass::Identifier)?);
        proof {
            lemma_arguments_sound(self.upcoming());
        }
        statement.add_child(self.parse_arguments()?);
        statement.add_child(self.eat_exact(&Token::Operator(Operator::Pointer))?);
        statement.add_child(self.eat(&TokenClass::Keyword)?);
        statement.add_child(self.parse_block()?);
        Ok(statement)
    }

    fn parse_return_statement(&mut self) -> (r: ParserResult)
        requires
            old(self).wf(),
        ensures
            final(self).wf(),
            agrees(r, final(self).upcoming(), return_statement(old(self).upcoming())),
    {
        let mut statement = Self::fresh_node(NodeKind::ReturnStatement);
        statement.add_child(self.eat_exact(&Token::Keyword("return".to_owned()))?);
        let ghost start = state(statement@, self.upcoming());
        loop
            invariant_except_break
                expressions(state(statement@, self.upcoming())) == expressions(start),
            invariant
                self.wf(),
                return_statement(old(self).upcoming()) == and_eat(
                    expressions(start),
                    TokenClass::Semi,
                ),
                self.upcoming().len() < old(self).upcoming().len(),
            ensures
                self.wf(),
                expressions(start) == Ok::<Build, ParserErrorModel>(
                    state(statement@, self.upcoming()),
                ),
            decreases self.upcoming().len(),
        {
            if self.is_next(&TokenClass::Semi) {
                break ;
            }
            proof {
                lemma_expression_consumes(self.upcoming());
            }
            statement.add_child(self.parse_expression()?);
        }
        statement.add_child(self.eat(&TokenClass::Semi)?);
        Ok(statement)
    }

    fn parse_function_call_statement(&mut self) -> (r: ParserResult)
        requires
            old(self).wf(),
        ensures
            final(self).wf(),
            agrees(r, final(self).upcoming(), function_call_statement(old(self).upcoming())),
    {
        let mut statement = Self::fresh_node(NodeKind::FunctionCall);
        statement.add_child(self.eat(&TokenClass::Identifier)?);
        statement.add_child(self.eat(&TokenClass::Lparen)?);
        statement.add_child(self.parse_expression()?);
        statement.add_child(self.eat(&TokenClass::Rparen)?);
        statement.add_child(self.eat(&TokenClass::Semi)?);
        Ok(statement)
    }

    fn parse_keyword_statement(&mut self) -> (r: ParserResult)
        requires
            old(self).wf(),
        ensures
            final(self).wf(),
            agrees(r, final(self).upcoming(), keyword_statement(old(self).upcoming())),
        decreases old(self).upcoming().len(), 4nat,
    {
        let conditional_statements = [
            Token::Keyword("if".to_owned()),
            Token::Keyword("while".to_owned()),
        ];
        proof {
            let choices = conditional_statements@.map_values(|t: Token| t@);
            assert(choices[0] == keyword("if"@));
            assert(choices[1] == keyword("while"@));
        }
        if self.is_next_exact_any_of(conditional_statements.as_slice()) {
            self.parse_condition_statement()
        } else if self.is_next_exact(&Token::Keyword("for".to_owned())) {
            self.parse_for_loop_statement()
        } else if self.is_next_exact(&Token::Keyword("fn".to_owned())) {
            self.parse_function_definition()
        } else if self.is_next_exact(&Token::Keyword("return".to_owned())) {
            self.parse_return_statement()
        } else {
            self.parse_assignment_statement()
        }
    }

    fn parse_statement(&mut self) -> (r: ParserResult)
        requires
            old(self).wf(),
        ensures
            final(self).wf(),
            agrees(r, final(self).upcoming(), statement(old(self).upcoming())),
        decreases old(self).upcoming().len(), 5nat,
    {
        if self.is_next(&TokenClass::Keyword) {
            self.parse_keyword_statement()
        } else {
            self.parse_function_call_statement()
        }
    }

    fn parse_program(&mut self) -> (r: ParserResult)
        requires
            old(self).wf(),
        ensures
            final(self).wf(),
            agrees(r, final(self).upcoming(), program(old(self).upcoming())),
    {
        let mut root = Self::fresh_node(NodeKind::Program);
        let ghost start = state(root@, self.upcoming());
        loop
            invariant_except_break
                program_items(state(root@, self.upcoming())) == program_items(start),
            invariant
                self.wf(),
                program(old(self).upcoming()) == program_items(start),
            ensures
                self.wf(),
                program_items(start) == Ok::<Build, ParserErrorModel>(
                    state(root@, self.upcoming()),
                ),
            decreases self.upcoming().len(),
        {
            if self.lexer.peek().is_none() {
                break ;
            }
            proof {
                lemma_statement_consumes(self.upcoming());
            }
            root.add_child(self.parse_statement()?);
        }
        Ok(root)
    }

    /// Parses the whole input: the tree of the program, whose leaves are the
    /// tokens of the input in source order, or the first error.
    pub fn parse(&mut self) -> (r: ParserResult)
        requires
            old(self).wf(),
        ensures
            final(self).wf(),
            agrees(r, final(self).upcoming(), program(old(self).upcoming())),
            r matches Ok(tree) ==> {
                &&& final(self).upcoming().len() == 0
                &&& leaves(tree@) == token_leaves(old(self).upcoming())
                &&& is_placed(tree@)
            },
    {
        proof {
            lemma_leaves_are_tokens(self.upcoming());
        }
        self.parse_program()
    }
}

} // verus!