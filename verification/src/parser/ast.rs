//! The program tree and the parser that builds it.

use crate::parser::token::{lexeme_at, text_of, token_of, Lexeme, Token, TokenStream};
use crate::utils::{
    check_num, checked, identifier_of, mismatch, name_of, num_of, reg_of, string_of,
    token_to_identifier, token_to_name, token_to_reg, token_to_string,
};
use vstd::hash_map::StringHashMap;
use vstd::prelude::*;
use vstd::string::StrSliceExecFns;

verus! {

/// Whether a symbol is seen outside its own object file.
#[derive(Clone, Copy, Debug, PartialEq, Eq, Structural)]
pub enum Visibility {
    Global,
    Local,
}

/// What the directives have said about one symbol.
#[derive(Clone, Copy, Debug, PartialEq, Eq, Structural)]
pub struct SymbolInfo {
    pub visibility: Visibility,
    pub weak: bool,
}

impl SymbolInfo {
    /// The attributes of a symbol that no directive has named: local and not
    /// weak.
    pub open spec fn initial() -> SymbolInfo {
        SymbolInfo { visibility: Visibility::Local, weak: false }
    }
}

impl Default for SymbolInfo {
    fn default() -> (info: Self)
        ensures
            info == SymbolInfo::initial(),
    {
        Self { visibility: Visibility::Local, weak: false }
    }
}

/// One node of the program tree: an instruction, a byte literal, or a
/// section or label with the nodes below it.
#[derive(Debug, PartialEq, Eq)]
pub enum AstNode {
    Addi { rd: u32, rs1: u32, imm: u64 },
    Sub { rd: u32, rs1: u32, rs2: u32 },
    Add { rd: u32, rs1: u32, rs2: u32 },
    Xor { rd: u32, rs1: u32, rs2: u32 },
    Sll { rd: u32, rs1: u32, rs2: u32 },
    Srl { rd: u32, rs1: u32, rs2: u32 },
    Sra { rd: u32, rs1: u32, rs2: u32 },
    Slt { rd: u32, rs1: u32, rs2: u32 },
    Sltu { rd: u32, rs1: u32, rs2: u32 },
    La { rd: u32, symbol: String },
    Lui { rd: u32, imm: u64 },
    Auipc { rd: u32, imm: u64 },
    Sb { rs2: u32, imm: u64, rs1: u32 },
    Ecall,
    Section { name: String, content: Vec<AstNode> },
    Label { name: String, content: Vec<AstNode> },
    Assci { seq: Vec<u8> },
}

/// The mathematical value of an [`AstNode`].
pub ghost enum Node {
    Addi { rd: u32, rs1: u32, imm: u64 },
    Sub { rd: u32, rs1: u32, rs2: u32 },
    Add { rd: u32, rs1: u32, rs2: u32 },
    Xor { rd: u32, rs1: u32, rs2: u32 },
    Sll { rd: u32, rs1: u32, rs2: u32 },
    Srl { rd: u32, rs1: u32, rs2: u32 },
    Sra { rd: u32, rs1: u32, rs2: u32 },
    Slt { rd: u32, rs1: u32, rs2: u32 },
    Sltu { rd: u32, rs1: u32, rs2: u32 },
    La { rd: u32, symbol: Seq<char> },
    Lui { rd: u32, imm: u64 },
    Auipc { rd: u32, imm: u64 },
    Sb { rs2: u32, imm: u64, rs1: u32 },
    Ecall,
    Section { name: Seq<char>, content: Seq<Node> },
    Label { name: Seq<char>, content: Seq<Node> },
    Assci { seq: Seq<u8> },
}

/// The values of a sequence of nodes, in order.
pub open spec fn nodes_view(nodes: Seq<AstNode>) -> Seq<Node>
    decreases nodes,
{
    if nodes.len() == 0 {
        Seq::empty()
    } else {
        nodes_view(nodes.drop_last()).push(nodes.last().view())
    }
}

impl View for AstNode {
    type V = Node;

    open spec fn view(&self) -> Node
        decreases self,
    {
        match self {
            AstNode::Addi { rd, rs1, imm } => Node::Addi { rd: *rd, rs1: *rs1, imm: *imm },
            AstNode::Sub { rd, rs1, rs2 } => Node::Sub { rd: *rd, rs1: *rs1, rs2: *rs2 },
            AstNode::Add { rd, rs1, rs2 } => Node::Add { rd: *rd, rs1: *rs1, rs2: *rs2 },
            AstNode::Xor { rd, rs1, rs2 } => Node::Xor { rd: *rd, rs1: *rs1, rs2: *rs2 },
            AstNode::Sll { rd, rs1, rs2 } => Node::Sll { rd: *rd, rs1: *rs1, rs2: *rs2 },
            AstNode::Srl { rd, rs1, rs2 } => Node::Srl { rd: *rd, rs1: *rs1, rs2: *rs2 },
            AstNode::Sra { rd, rs1, rs2 } => Node::Sra { rd: *rd, rs1: *rs1, rs2: *rs2 },
            AstNode::Slt { rd, rs1, rs2 } => Node::Slt { rd: *rd, rs1: *rs1, rs2: *rs2 },
            AstNode::Sltu { rd, rs1, rs2 } => Node::Sltu { rd: *rd, rs1: *rs1, rs2: *rs2 },
            AstNode::La { rd, symbol } => Node::La { rd: *rd, symbol: symbol@ },
            AstNode::Lui { rd, imm } => Node::Lui { rd: *rd, imm: *imm },
            AstNode::Auipc { rd, imm } => Node::Auipc { rd: *rd, imm: *imm },
            AstNode::Sb { rs2, imm, rs1 } => Node::Sb { rs2: *rs2, imm: *imm, rs1: *rs1 },
            AstNode::Ecall => Node::Ecall,
            AstNode::Section { name, content } => Node::Section {
                name: name@,
                content: nodes_view(content@),
            },
            AstNode::Label { name, content } => Node::Label {
                name: name@,
                content: nodes_view(content@),
            },
            AstNode::Assci { seq } => Node::Assci { seq: seq@ },
        }
    }
}

/// The values of a sequence of nodes stand at the places of the nodes.
pub proof fn lemma_nodes_view(nodes: Seq<AstNode>)
    ensures
        nodes_view(nodes).len() == nodes.len(),
        forall|i: int| 0 <= i < nodes.len() ==> (#[trigger] nodes_view(nodes)[i]) == nodes[i]@,
    decreases nodes.len(),
{
    if nodes.len() > 0 {
        lemma_nodes_view(nodes.drop_last());
        assert(nodes_view(nodes) == nodes_view(nodes.drop_last()).push(nodes.last().view()));
    } else {
        assert(nodes_view(nodes) == Seq::<Node>::empty());
    }
}

/// The values of a sequence of nodes with one more node are the values
/// with one more value.
pub proof fn lemma_nodes_view_push(nodes: Seq<AstNode>, node: AstNode)
    ensures
        nodes_view(nodes.push(node)) == nodes_view(nodes).push(node@),
{
    assert(nodes.push(node).drop_last() =~= nodes);
    assert(nodes_view(nodes.push(node)) == nodes_view(nodes.push(node).drop_last()).push(
        nodes.push(node).last().view(),
    ));
}

/// A copy of `nodes`, node by node.
pub fn clone_nodes(nodes: &Vec<AstNode>) -> (copy: Vec<AstNode>)
    ensures
        nodes_view(copy@) == nodes_view(nodes@),
    decreases nodes,
{
    let mut copy: Vec<AstNode> = Vec::new();
    let mut i: usize = 0;
    assert(nodes@.take(0) =~= Seq::<AstNode>::empty());
    while i < nodes.len()
        invariant
            i <= nodes.len(),
            nodes_view(copy@) == nodes_view(nodes@.take(i as int)),
        decreases nodes.len() - i,
    {
        let node = nodes[i].clone();
        proof {
            lemma_nodes_view_push(copy@, node);
            lemma_nodes_view_push(nodes@.take(i as int), nodes@[i as int]);
            assert(nodes@.take(i as int).push(nodes@[i as int]) =~= nodes@.take(i + 1));
        }
        copy.push(node);
        i += 1;
    }
    assert(nodes@.take(i as int) =~= nodes@);
    copy
}

impl Clone for AstNode {
    /// A copy of this node with copies of all nodes below it.
    fn clone(&self) -> (copy: Self)
        ensures
            copy@ == self@,
        decreases self,
    {
        match self {
            AstNode::Addi { rd, rs1, imm } => AstNode::Addi { rd: *rd, rs1: *rs1, imm: *imm },
            AstNode::Sub { rd, rs1, rs2 } => AstNode::Sub { rd: *rd, rs1: *rs1, rs2: *rs2 },
            AstNode::Add { rd, rs1, rs2 } => AstNode::Add { rd: *rd, rs1: *rs1, rs2: *rs2 },
            AstNode::Xor { rd, rs1, rs2 } => AstNode::Xor { rd: *rd, rs1: *rs1, rs2: *rs2 },
            AstNode::Sll { rd, rs1, rs2 } => AstNode::Sll { rd: *rd, rs1: *rs1, rs2: *rs2 },
            AstNode::Srl { rd, rs1, rs2 } => AstNode::Srl { rd: *rd, rs1: *rs1, rs2: *rs2 },
            AstNode::Sra { rd, rs1, rs2 } => AstNode::Sra { rd: *rd, rs1: *rs1, rs2: *rs2 },
            AstNode::Slt { rd, rs1, rs2 } => AstNode::Slt { rd: *rd, rs1: *rs1, rs2: *rs2 },
            AstNode::Sltu { rd, rs1, rs2 } => AstNode::Sltu { rd: *rd, rs1: *rs1, rs2: *rs2 },
            AstNode::La { rd, symbol } => AstNode::La { rd: *rd, symbol: symbol.clone() },
            AstNode::Lui { rd, imm } => AstNode::Lui { rd: *rd, imm: *imm },
            AstNode::Auipc { rd, imm } => AstNode::Auipc { rd: *rd, imm: *imm },
            AstNode::Sb { rs2, imm, rs1 } => AstNode::Sb { rs2: *rs2, imm: *imm, rs1: *rs1 },
            AstNode::Ecall => AstNode::Ecall,
            AstNode::Section { name, content } => AstNode::Section {
                name: name.clone(),
                content: clone_nodes(content),
            },
            AstNode::Label { name, content } => AstNode::Label {
                name: name.clone(),
                content: clone_nodes(content),
            },
            AstNode::Assci { seq } => AstNode::Assci { seq: seq.clone() },
        }
    }
}

/// What an operand can be.
#[derive(Clone, Copy, Debug, PartialEq, Eq, Structural)]
pub enum OperandClass {
    Register,
    Number,
    Name,
    Identifier,
    String,
    ParenthesisStart,
    ParenthesisEnd,
}

/// What is wrong with the source.
#[derive(Debug, Clone, PartialEq, Eq)]
pub enum AstError {
    /// The scanner did not recognise this text.
    Lexical { found: String, line: u64 },
    /// No statement begins with this lexeme.
    Unexpected { found: String, line: u64 },
    /// An operand of class `expected` was due, and this lexeme is none.
    Mismatch { expected: OperandClass, found: String, line: u64 },
}

/// The mathematical value of an [`AstError`].
pub ghost enum Complaint {
    Lexical { found: Seq<char>, line: u64 },
    Unexpected { found: Seq<char>, line: u64 },
    Mismatch { expected: OperandClass, found: Seq<char>, line: u64 },
}

impl View for AstError {
    type V = Complaint;

    open spec fn view(&self) -> Complaint {
        match self {
            AstError::Lexical { found, line } => Complaint::Lexical { found: found@, line: *line },
            AstError::Unexpected { found, line } => Complaint::Unexpected {
                found: found@,
                line: *line,
            },
            AstError::Mismatch { expected, found, line } => Complaint::Mismatch {
                expected: *expected,
                found: found@,
                line: *line,
            },
        }
    }
}

/// The values of a sequence of errors, in order.
pub open spec fn complaints(errors: Seq<AstError>) -> Seq<Complaint> {
    Seq::new(errors.len(), |i: int| errors[i]@)
}

/// The value of a section or label that is still open: its name and the
/// values of the nodes gathered in it so far.
pub open spec fn open_view(open: Option<(String, Vec<AstNode>)>) -> Option<(Seq<char>, Seq<Node>)> {
    match open {
        Some((name, content)) => Some((name@, nodes_view(content@))),
        None => None,
    }
}

/// What the parser has gathered so far.
pub struct ParserCtx {
    /// The finished nodes at the root of the program.
    pub nodes: Vec<AstNode>,
    /// The section that is open, with the nodes gathered in it.
    pub current_section: Option<(String, Vec<AstNode>)>,
    /// The label that is open, with the nodes gathered in it.
    pub current_label: Option<(String, Vec<AstNode>)>,
    /// What the directives have said about each symbol.
    pub functions_info: StringHashMap<SymbolInfo>,
    /// The line of the statement that is being read.
    pub line: u64,
    /// What was found wrong with the source so far.
    pub errors: Vec<AstError>,
}

/// The mathematical value of a [`ParserCtx`].
pub ghost struct ParserState {
    pub nodes: Seq<Node>,
    pub current_section: Option<(Seq<char>, Seq<Node>)>,
    pub current_label: Option<(Seq<char>, Seq<Node>)>,
    pub functions_info: Map<Seq<char>, SymbolInfo>,
    pub line: u64,
    pub errors: Seq<Complaint>,
}

impl View for ParserCtx {
    type V = ParserState;

    open spec fn view(&self) -> ParserState {
        ParserState {
            nodes: nodes_view(self.nodes@),
            current_section: open_view(self.current_section),
            current_label: open_view(self.current_label),
            functions_info: self.functions_info@,
            line: self.line,
            errors: complaints(self.errors@),
        }
    }
}

impl ParserState {
    /// The state before the first lexeme: nothing gathered, nothing open,
    /// nothing wrong.
    pub open spec fn initial() -> ParserState {
        ParserState {
            nodes: Seq::empty(),
            current_section: None,
            current_label: None,
            functions_info: Map::empty(),
            line: 0,
            errors: Seq::empty(),
        }
    }

    /// What the directives have said about `name` so far: local and not
    /// weak where they have said nothing.
    pub open spec fn info(self, name: Seq<char>) -> SymbolInfo {
        if self.functions_info.contains_key(name) {
            self.functions_info[name]
        } else {
            SymbolInfo::initial()
        }
    }

    /// This state with the visibility of `name` set, and its weakness as
    /// it was.
    pub open spec fn set_visibility(self, name: Seq<char>, visibility: Visibility) -> ParserState {
        ParserState {
            functions_info: self.functions_info.insert(
                name,
                SymbolInfo { visibility, weak: self.info(name).weak },
            ),
            ..self
        }
    }

    /// This state with the weakness of `name` set, and its visibility as
    /// it was.
    pub open spec fn set_weakness(self, name: Seq<char>, weak: bool) -> ParserState {
        ParserState {
            functions_info: self.functions_info.insert(
                name,
                SymbolInfo { visibility: self.info(name).visibility, weak },
            ),
            ..self
        }
    }

    /// This state with `node` added to the innermost thing that is open:
    /// the label, else the section, else the root of the program.
    pub open spec fn push(self, node: Node) -> ParserState {
        match self.current_label {
            Some((name, content)) => ParserState {
                current_label: Some((name, content.push(node))),
                ..self
            },
            None => match self.current_section {
                Some((name, content)) => ParserState {
                    current_section: Some((name, content.push(node))),
                    ..self
                },
                None => ParserState { nodes: self.nodes.push(node), ..self },
            },
        }
    }

    /// This state with the open label closed: the label is added as a node
    /// to the section that is open, else to the root of the program.
    pub open spec fn push_label(self) -> ParserState {
        match self.current_label {
            Some((name, content)) => (ParserState { current_label: None, ..self }).push(
                Node::Label { name, content },
            ),
            None => self,
        }
    }

    /// This state with the open section sealed: the section is added as a
    /// node to the root of the program.
    pub open spec fn seal_section(self) -> ParserState {
        match self.current_section {
            Some((name, content)) => ParserState {
                nodes: self.nodes.push(Node::Section { name, content }),
                current_section: None,
                ..self
            },
            None => self,
        }
    }

    /// The program and the attributes of its symbols, once the open section
    /// is sealed.
    pub open spec fn get(self) -> (Seq<Node>, Map<Seq<char>, SymbolInfo>) {
        (self.seal_section().nodes, self.functions_info)
    }

    /// This state with one more thing found wrong.
    pub open spec fn complain(self, complaint: Complaint) -> ParserState {
        ParserState { errors: self.errors.push(complaint), ..self }
    }
}

impl ParserCtx {
    /// A context that has gathered nothing.
    pub fn new() -> (ctx: Self)
        ensures
            ctx@ == ParserState::initial(),
    {
        let ctx = Self {
            nodes: Vec::new(),
            current_section: None,
            current_label: None,
            functions_info: StringHashMap::new(),
            line: 0,
            errors: Vec::new(),
        };
        assert(nodes_view(ctx.nodes@) =~= Seq::<Node>::empty());
        assert(complaints(ctx.errors@) =~= Seq::<Complaint>::empty());
        ctx
    }

    /// Sets the visibility of the symbol called `name`, and leaves its
    /// weakness as it was.
    pub fn set_visibility(&mut self, name: String, visibility: Visibility)
        ensures
            final(self)@ == old(self)@.set_visibility(name@, visibility),
    {
        let weak = match self.functions_info.get(name.as_str()) {
            Some(info) => info.weak,
            None => false,
        };
        self.functions_info.insert(name, SymbolInfo { visibility, weak });
    }

    /// Sets the weakness of the symbol called `name`, and leaves its
    /// visibility as it was.
    pub fn set_weakness(&mut self, name: String, weak: bool)
        ensures
            final(self)@ == old(self)@.set_weakness(name@, weak),
    {
        let visibility = match self.functions_info.get(name.as_str()) {
            Some(info) => info.visibility,
            None => Visibility::Local,
        };
        self.functions_info.insert(name, SymbolInfo { visibility, weak });
    }

    /// Adds `node` to the innermost thing that is open: the label, else the
    /// section, else the root of the program.
    pub fn push(&mut self, node: AstNode)
        ensures
            final(self)@ == old(self)@.push(node@),
    {
        match self.current_label.take() {
            Some((name, mut content)) => {
                proof {
                    lemma_nodes_view_push(content@, node);
                }
                content.push(node);
                self.current_label = Some((name, content));
            },
            None => match self.current_section.take() {
                Some((name, mut content)) => {
                    proof {
                        lemma_nodes_view_push(content@, node);
                    }
                    content.push(node);
                    self.current_section = Some((name, content));
                },
                None => {
                    proof {
                        lemma_nodes_view_push(self.nodes@, node);
                    }
                    self.nodes.push(node);
                },
            },
        }
    }

    /// Closes the open label, if there is one: the label is added as a node
    /// to the section that is open, else to the root of the program.
    pub fn push_label(&mut self)
        ensures
            final(self)@ == old(self)@.push_label(),
    {
        match self.current_label.take() {
            Some((name, content)) => {
                self.push(AstNode::Label { name, content });
            },
            None => {},
        }
    }

    /// Seals the open section, if there is one: the section is added as a
    /// node to the root of the program.
    pub fn seal_section(&mut self)
        ensures
            final(self)@ == old(self)@.seal_section(),
    {
        match self.current_section.take() {
            Some((name, content)) => {
                proof {
                    lemma_nodes_view_push(self.nodes@, AstNode::Section { name, content });
                }
                self.nodes.push(AstNode::Section { name, content });
            },
            None => {},
        }
    }

    /// The program and the attributes of its symbols, after the open
    /// section was sealed.
    pub fn get(self) -> (gathered: (Vec<AstNode>, StringHashMap<SymbolInfo>))
        ensures
            nodes_view(gathered.0@) == self@.get().0,
            gathered.1@ == self@.get().1,
    {
        let mut ctx = self;
        ctx.seal_section();
        (ctx.nodes, ctx.functions_info)
    }

    /// Notes one more thing that is wrong with the source.
    pub fn complain(&mut self, error: AstError)
        ensures
            final(self)@ == old(self)@.complain(error@),
    {
        self.errors.push(error);
        assert(complaints(self.errors@) =~= complaints(old(self).errors@).push(error@));
    }
}

/// Whether cursor `after` is cursor `before` after `by` reads: reads
/// beyond the last lexeme leave the cursor at the end.
pub open spec fn moved(before: TokenStream<'_>, after: TokenStream<'_>, by: nat) -> bool {
    &&& after.wf()
    &&& after.lexemes == before.lexemes
    &&& after.next == if before.next + by <= before.lexemes@.len() {
        before.next + by
    } else {
        before.lexemes@.len() as int
    }
}

/// A register was due and `read` was read: the register's index, or 0 with
/// a mismatch noted.
pub open spec fn reg_read(read: Option<Lexeme>, state: ParserState) -> (u32, ParserState) {
    (
        match reg_of(token_of(read)) {
            Some(reg) => reg,
            None => 0,
        },
        checked(state, reg_of(token_of(read)) is Some, OperandClass::Register, text_of(read)),
    )
}

/// A number was due and `read` was read: the number, or 0 with a mismatch
/// noted.
pub open spec fn num_read(read: Option<Lexeme>, state: ParserState) -> (u64, ParserState) {
    (
        match num_of(token_of(read)) {
            Some(n) => n,
            None => 0,
        },
        checked(state, num_of(token_of(read)) is Some, OperandClass::Number, text_of(read)),
    )
}

/// A name with a dot was due and `read` was read: the name, or no name
/// with a mismatch noted.
pub open spec fn name_read(read: Option<Lexeme>, state: ParserState) -> (Seq<char>, ParserState) {
    (
        match name_of(token_of(read)) {
            Some(name) => name,
            None => Seq::empty(),
        },
        checked(state, name_of(token_of(read)) is Some, OperandClass::Name, text_of(read)),
    )
}

/// An identifier was due and `read` was read: the identifier, or none with
/// a mismatch noted.
pub open spec fn identifier_read(read: Option<Lexeme>, state: ParserState) -> (
    Seq<char>,
    ParserState,
) {
    (
        match identifier_of(token_of(read)) {
            Some(name) => name,
            None => Seq::empty(),
        },
        checked(
            state,
            identifier_of(token_of(read)) is Some,
            OperandClass::Identifier,
            text_of(read),
        ),
    )
}

/// A string literal was due and `read` was read: its text, or no text with
/// a mismatch noted.
pub open spec fn string_read(read: Option<Lexeme>, state: ParserState) -> (Seq<char>, ParserState) {
    (
        match string_of(token_of(read)) {
            Some(text) => text,
            None => Seq::empty(),
        },
        checked(state, string_of(token_of(read)) is Some, OperandClass::String, text_of(read)),
    )
}

/// Whether `token` is the parenthesis of class `expected`.
pub open spec fn is_parenthesis(token: Token, expected: OperandClass) -> bool {
    match expected {
        OperandClass::ParenthesisStart => token is ParenthesisStart,
        OperandClass::ParenthesisEnd => token is ParenthesisEnd,
        _ => false,
    }
}

/// A parenthesis of class `expected` was due and `read` was read.
pub open spec fn parenthesis_read(
    read: Option<Lexeme>,
    expected: OperandClass,
    state: ParserState,
) -> ParserState {
    checked(state, is_parenthesis(token_of(read), expected), expected, text_of(read))
}

/// A register in parentheses was due, and the lexemes from place `at` on
/// were read.
pub open spec fn in_paren_read(lexemes: Seq<Lexeme>, at: int, state: ParserState) -> (
    u32,
    ParserState,
) {
    let opened = parenthesis_read(lexeme_at(lexemes, at), OperandClass::ParenthesisStart, state);
    let (reg, read) = reg_read(lexeme_at(lexemes, at + 1), opened);
    (reg, parenthesis_read(lexeme_at(lexemes, at + 2), OperandClass::ParenthesisEnd, read))
}

/// Reads the next lexeme as a string literal.
pub fn next_string(lex: &mut TokenStream<'_>, ctx: &mut ParserCtx) -> (text: String)
    requires
        old(lex).wf(),
    ensures
        moved(*old(lex), *final(lex), 1),
        (text@, final(ctx)@) == string_read(old(lex).peek(), old(ctx)@),
{
    lex.advance();
    match lex.token() {
        Some(token) => token_to_string(token, lex, ctx),
        None => token_to_string(&Token::Empty, lex, ctx),
    }
}

/// Reads an opening parenthesis, a register and a closing parenthesis.
pub fn next_in_paren(lex: &mut TokenStream<'_>, ctx: &mut ParserCtx) -> (reg: u32)
    requires
        old(lex).wf(),
    ensures
        moved(*old(lex), *final(lex), 3),
        reg < 32,
        (reg, final(ctx)@) == in_paren_read(old(lex).lexemes@, old(lex).next as int, old(ctx)@),
{
    expect_token(lex, OperandClass::ParenthesisStart, ctx);
    let reg = next_reg(lex, ctx);
    expect_token(lex, OperandClass::ParenthesisEnd, ctx);
    reg
}

/// Reads the next lexeme and notes a mismatch where it is not the
/// parenthesis of class `expected`.
pub fn expect_token(lex: &mut TokenStream<'_>, expected: OperandClass, ctx: &mut ParserCtx)
    requires
        old(lex).wf(),
    ensures
        moved(*old(lex), *final(lex), 1),
        final(ctx)@ == parenthesis_read(old(lex).peek(), expected, old(ctx)@),
{
    lex.advance();
    let fits = match (lex.token(), expected) {
        (Some(Token::ParenthesisStart), OperandClass::ParenthesisStart) => true,
        (Some(Token::ParenthesisEnd), OperandClass::ParenthesisEnd) => true,
        _ => false,
    };
    if !fits {
        mismatch(expected, lex, ctx);
    }
}

/// Reads the next lexeme as a register.
pub fn next_reg(lex: &mut TokenStream<'_>, ctx: &mut ParserCtx) -> (reg: u32)
    requires
        old(lex).wf(),
    ensures
        moved(*old(lex), *final(lex), 1),
        reg < 32,
        (reg, final(ctx)@) == reg_read(old(lex).peek(), old(ctx)@),
{
    lex.advance();
    match lex.token() {
        Some(token) => token_to_reg(token, lex, ctx),
        None => token_to_reg(&Token::Empty, lex, ctx),
    }
}

/// Reads the next lexeme as a name with a dot.
pub fn next_name(lex: &mut TokenStream<'_>, ctx: &mut ParserCtx) -> (name: String)
    requires
        old(lex).wf(),
    ensures
        moved(*old(lex), *final(lex), 1),
        (name@, final(ctx)@) == name_read(old(lex).peek(), old(ctx)@),
{
    lex.advance();
    match lex.token() {
        Some(token) => token_to_name(token, lex, ctx),
        None => token_to_name(&Token::Empty, lex, ctx),
    }
}

/// Reads the next lexeme as an identifier.
pub fn next_identifier(lex: &mut TokenStream<'_>, ctx: &mut ParserCtx) -> (name: String)
    requires
        old(lex).wf(),
    ensures
        moved(*old(lex), *final(lex), 1),
        (name@, final(ctx)@) == identifier_read(old(lex).peek(), old(ctx)@),
{
    lex.advance();
    match lex.token() {
        Some(token) => token_to_identifier(token, lex, ctx),
        None => token_to_identifier(&Token::Empty, lex, ctx),
    }
}

/// Reads the next lexeme as a number.
pub fn next_num(lex: &mut TokenStream<'_>, ctx: &mut ParserCtx) -> (value: u64)
    requires
        old(lex).wf(),
    ensures
        moved(*old(lex), *final(lex), 1),
        (value, final(ctx)@) == num_read(old(lex).peek(), old(ctx)@),
{
    lex.advance();
    match lex.token() {
        Some(token) => check_num(token, lex, ctx),
        None => check_num(&Token::Empty, lex, ctx),
    }
}

/// How many operands a statement reads that begins with `token`.
pub open spec fn operand_count(token: Option<Token>) -> nat {
    match token {
        Some(Token::Addi) => 3,
        Some(Token::Sub) | Some(Token::Add) | Some(Token::Xor) | Some(Token::Sll) | Some(
            Token::Srl,
        ) | Some(Token::Sra) | Some(Token::Slt) | Some(Token::Sltu) => 3,
        Some(Token::La) | Some(Token::Lui) | Some(Token::Auipc) => 2,
        Some(Token::Sb) => 5,
        Some(Token::Global) | Some(Token::Globl) | Some(Token::Weak) | Some(Token::Section) | Some(
            Token::Assci,
        ) => 1,
        _ => 0,
    }
}

/// Three registers were due, and the lexemes from place `at` on were read.
pub open spec fn three_regs_read(lexemes: Seq<Lexeme>, at: int, state: ParserState) -> (
    (u32, u32, u32),
    ParserState,
) {
    let (first, one) = reg_read(lexeme_at(lexemes, at), state);
    let (second, two) = reg_read(lexeme_at(lexemes, at + 1), one);
    let (third, three) = reg_read(lexeme_at(lexemes, at + 2), two);
    ((first, second, third), three)
}

/// A register and a number were due, and the lexemes from place `at` on
/// were read.
pub open spec fn reg_num_read(lexemes: Seq<Lexeme>, at: int, state: ParserState) -> (
    (u32, u64),
    ParserState,
) {
    let (reg, one) = reg_read(lexeme_at(lexemes, at), state);
    let (imm, two) = num_read(lexeme_at(lexemes, at + 1), one);
    ((reg, imm), two)
}

/// The state after the statement that begins at place `at` of `lexemes`
/// was read in state `state`.
///
/// The line of the statement is the line of its first lexeme. An
/// instruction reads the operands of its shape and is added to the
/// innermost thing that is open. A visibility or weakness directive reads
/// an identifier and sets that attribute of the symbol. A label closes the
/// label that is open and opens itself. A section directive closes the
/// label and seals the section that are open, reads a name and opens the
/// section of that name. A byte literal reads a string and adds its bytes.
/// A comment changes nothing. A lexeme that the scanner did not recognise,
/// and any other token, is noted as wrong.
pub open spec fn statement_spec(lexemes: Seq<Lexeme>, at: int, state: ParserState) -> ParserState {
    let lexeme = lexemes[at];
    let state = ParserState { line: lexeme.line, ..state };
    match lexeme.token {
        None => state.complain(Complaint::Lexical { found: lexeme.text@, line: lexeme.line }),
        Some(token) => match token {
            Token::Addi => {
                let (regs, read) = reg_read(lexeme_at(lexemes, at + 1), state);
                let (more, done) = reg_num_read(lexemes, at + 2, read);
                done.push(Node::Addi { rd: regs, rs1: more.0, imm: more.1 })
            },
            Token::Sub => {
                let (regs, read) = three_regs_read(lexemes, at + 1, state);
                read.push(Node::Sub { rd: regs.0, rs1: regs.1, rs2: regs.2 })
            },
            Token::Add => {
                let (regs, read) = three_regs_read(lexemes, at + 1, state);
                read.push(Node::Add { rd: regs.0, rs1: regs.1, rs2: regs.2 })
            },
            Token::Xor => {
                let (regs, read) = three_regs_read(lexemes, at + 1, state);
                read.push(Node::Xor { rd: regs.0, rs1: regs.1, rs2: regs.2 })
            },
            Token::Sll => {
                let (regs, read) = three_regs_read(lexemes, at + 1, state);
                read.push(Node::Sll { rd: regs.0, rs1: regs.1, rs2: regs.2 })
            },
            Token::Srl => {
                let (regs, read) = three_regs_read(lexemes, at + 1, state);
                read.push(Node::Srl { rd: regs.0, rs1: regs.1, rs2: regs.2 })
            },
            Token::Sra => {
                let (regs, read) = three_regs_read(lexemes, at + 1, state);
                read.push(Node::Sra { rd: regs.0, rs1: regs.1, rs2: regs.2 })
            },
            Token::Slt => {
                let (regs, read) = three_regs_read(lexemes, at + 1, state);
                read.push(Node::Slt { rd: regs.0, rs1: regs.1, rs2: regs.2 })
            },
            Token::Sltu => {
                let (regs, read) = three_regs_read(lexemes, at + 1, state);
                read.push(Node::Sltu { rd: regs.0, rs1: regs.1, rs2: regs.2 })
            },
            Token::La => {
                let (rd, read) = reg_read(lexeme_at(lexemes, at + 1), state);
                let (symbol, done) = identifier_read(lexeme_at(lexemes, at + 2), read);
                done.push(Node::La { rd, symbol })
            },
            Token::Lui => {
                let (operands, done) = reg_num_read(lexemes, at + 1, state);
                done.push(Node::Lui { rd: operands.0, imm: operands.1 })
            },
            Token::Auipc => {
                let (operands, done) = reg_num_read(lexemes, at + 1, state);
                done.push(Node::Auipc { rd: operands.0, imm: operands.1 })
            },
            Token::Sb => {
                let (operands, read) = reg_num_read(lexemes, at + 1, state);
                let (rs1, done) = in_paren_read(lexemes, at + 3, read);
                done.push(Node::Sb { rs2: operands.0, imm: operands.1, rs1 })
            },
            Token::Ecall => state.push(Node::Ecall),
            Token::Nop => state.push(Node::Addi { rd: 0, rs1: 0, imm: 0 }),
            Token::Global | Token::Globl => {
                let (name, done) = identifier_read(lexeme_at(lexemes, at + 1), state);
                done.set_visibility(name, Visibility::Global)
            },
            Token::Weak => {
                let (name, done) = identifier_read(lexeme_at(lexemes, at + 1), state);
                done.set_weakness(name, true)
            },
            Token::Label(name) => ParserState {
                current_label: Some((name@, Seq::empty())),
                ..state.push_label()
            },
            Token::Section => {
                let (name, done) = name_read(
                    lexeme_at(lexemes, at + 1),
                    state.push_label().seal_section(),
                );
                ParserState { current_section: Some((name, Seq::empty())), ..done }
            },
            Token::Assci => {
                let (text, done) = string_read(lexeme_at(lexemes, at + 1), state);
                done.push(Node::Assci { seq: vstd::utf8::encode_utf8(text) })
            },
            Token::Comment => state,
            _ => state.complain(
                Complaint::Unexpected { found: lexeme.text@, line: lexeme.line },
            ),
        },
    }
}

/// The state after the statements from place `at` of `lexemes` on were
/// read, one after the other, in state `state`.
pub open spec fn parse_from(lexemes: Seq<Lexeme>, at: int, state: ParserState) -> ParserState
    decreases
        (if at < lexemes.len() {
            lexemes.len() - at
        } else {
            0
        }),
{
    if 0 <= at < lexemes.len() {
        parse_from(
            lexemes,
            at + 1 + operand_count(lexemes[at].token),
            statement_spec(lexemes, at, state),
        )
    } else {
        state
    }
}

/// The state after all of `lexemes` were read and the last label was
/// closed.
pub open spec fn parse_spec(lexemes: Seq<Lexeme>) -> ParserState {
    parse_from(lexemes, 0, ParserState::initial()).push_label()
}

/// Whether `parsed` is what parsing `lexemes` gives: the tree and the
/// attribute table where nothing was found wrong, and else everything that
/// was found wrong, in the order of the source.
pub open spec fn is_parse_of(
    lexemes: Seq<Lexeme>,
    parsed: Result<(Seq<Node>, Map<Seq<char>, SymbolInfo>), Seq<Complaint>>,
) -> bool {
    match parsed {
        Ok((nodes, attributes)) => {
            &&& parse_spec(lexemes).errors.len() == 0
            &&& nodes == parse_spec(lexemes).get().0
            &&& attributes == parse_spec(lexemes).get().1
        },
        Err(errors) => errors.len() > 0 && errors == parse_spec(lexemes).errors,
    }
}

/// The mathematical value of what the parser gives.
pub open spec fn parsed_view(
    parsed: Result<(Vec<AstNode>, StringHashMap<SymbolInfo>), Vec<AstError>>,
) -> Result<(Seq<Node>, Map<Seq<char>, SymbolInfo>), Seq<Complaint>> {
    match parsed {
        Ok((nodes, attributes)) => Ok((nodes_view(nodes@), attributes@)),
        Err(errors) => Err(complaints(errors@)),
    }
}

/// Reads three registers.
pub fn next_three_regs(lex: &mut TokenStream<'_>, ctx: &mut ParserCtx) -> (regs: (u32, u32, u32))
    requires
        old(lex).wf(),
    ensures
        moved(*old(lex), *final(lex), 3),
        (regs, final(ctx)@) == three_regs_read(
            old(lex).lexemes@,
            old(lex).next as int,
            old(ctx)@,
        ),
{
    let first = next_reg(lex, ctx);
    let second = next_reg(lex, ctx);
    let third = next_reg(lex, ctx);
    (first, second, third)
}

/// Reads a register and a number.
pub fn next_reg_num(lex: &mut TokenStream<'_>, ctx: &mut ParserCtx) -> (operands: (u32, u64))
    requires
        old(lex).wf(),
    ensures
        moved(*old(lex), *final(lex), 2),
        (operands, final(ctx)@) == reg_num_read(old(lex).lexemes@, old(lex).next as int, old(ctx)@),
{
    let reg = next_reg(lex, ctx);
    let imm = next_num(lex, ctx);
    (reg, imm)
}

/// Reads the operands of the statement whose first lexeme `lex` has just
/// read, and does what the statement says: see [`statement_spec`].
pub fn parse_statement(lex: &mut TokenStream<'_>, ctx: &mut ParserCtx)
    requires
        old(lex).wf(),
        old(lex).current == Some((old(lex).next - 1) as usize),
        old(lex).next >= 1,
    ensures
        moved(
            *old(lex),
            *final(lex),
            operand_count(old(lex).lexemes@[old(lex).next - 1].token),
        ),
        final(ctx)@ == statement_spec(old(lex).lexemes@, old(lex).next - 1, old(ctx)@),
{
    ctx.line = lex.line();
    match lex.token() {
        None => {
            let line = ctx.line;
            ctx.complain(AstError::Lexical { found: lex.slice(), line });
        },
        Some(token) => match token {
            Token::Addi => {
                let rd = next_reg(lex, ctx);
                let (rs1, imm) = next_reg_num(lex, ctx);
                ctx.push(AstNode::Addi { rd, rs1, imm });
            },
            Token::Sub => {
                let (rd, rs1, rs2) = next_three_regs(lex, ctx);
                ctx.push(AstNode::Sub { rd, rs1, rs2 });
            },
            Token::Add => {
                let (rd, rs1, rs2) = next_three_regs(lex, ctx);
                ctx.push(AstNode::Add { rd, rs1, rs2 });
            },
            Token::Xor => {
                let (rd, rs1, rs2) = next_three_regs(lex, ctx);
                ctx.push(AstNode::Xor { rd, rs1, rs2 });
            },
            Token::Sll => {
                let (rd, rs1, rs2) = next_three_regs(lex, ctx);
                ctx.push(AstNode::Sll { rd, rs1, rs2 });
            },
            Token::Srl => {
                let (rd, rs1, rs2) = next_three_regs(lex, ctx);
                ctx.push(AstNode::Srl { rd, rs1, rs2 });
            },
            Token::Sra => {
                let (rd, rs1, rs2) = next_three_regs(lex, ctx);
                ctx.push(AstNode::Sra { rd, rs1, rs2 });
            },
            Token::Slt => {
                let (rd, rs1, rs2) = next_three_regs(lex, ctx);
                ctx.push(AstNode::Slt { rd, rs1, rs2 });
            },
            Token::Sltu => {
                let (rd, rs1, rs2) = next_three_regs(lex, ctx);
                ctx.push(AstNode::Sltu { rd, rs1, rs2 });
            },
            Token::La => {
                let rd = next_reg(lex, ctx);
                let symbol = next_identifier(lex, ctx);
                ctx.push(AstNode::La { rd, symbol });
            },
            Token::Lui => {
                let (rd, imm) = next_reg_num(lex, ctx);
                ctx.push(AstNode::Lui { rd, imm });
            },
            Token::Auipc => {
                let (rd, imm) = next_reg_num(lex, ctx);
                ctx.push(AstNode::Auipc { rd, imm });
            },
            Token::Sb => {
                let (rs2, imm) = next_reg_num(lex, ctx);
                let rs1 = next_in_paren(lex, ctx);
                ctx.push(AstNode::Sb { rs2, imm, rs1 });
            },
            Token::Ecall => {
                ctx.push(AstNode::Ecall);
            },
            Token::Nop => {
                ctx.push(AstNode::Addi { rd: 0, rs1: 0, imm: 0 });
            },
            Token::Global | Token::Globl => {
                let name = next_identifier(lex, ctx);
                ctx.set_visibility(name, Visibility::Global);
            },
            Token::Weak => {
                let name = next_identifier(lex, ctx);
                ctx.set_weakness(name, true);
            },
            Token::Label(name) => {
                ctx.push_label();
                ctx.current_label = Some((name.clone(), Vec::new()));
            },
            Token::Section => {
                ctx.push_label();
                ctx.seal_section();
                let name = next_name(lex, ctx);
                ctx.current_section = Some((name, Vec::new()));
            },
            Token::Assci => {
                let text = next_string(lex, ctx);
                ctx.push(AstNode::Assci { seq: text.as_str().as_bytes_vec() });
            },
            Token::Comment => {},
            _ => {
                let line = ctx.line;
                ctx.complain(AstError::Unexpected { found: lex.slice(), line });
            },
        },
    }
}

/// Builds the program tree and the attribute table from the lexemes of
/// `lex`, which must stand before its first lexeme.
///
/// The lexemes are read statement by statement: see [`statement_spec`]. At
/// the end the label that is open is closed and the section that is open is
/// sealed. Where anything was found wrong, the result is everything that
/// was found wrong, in the order of the source, and no tree.
pub fn nodes_from_tokens(lex: &mut TokenStream<'_>) -> (parsed: Result<
    (Vec<AstNode>, StringHashMap<SymbolInfo>),
    Vec<AstError>,
>)
    requires
        old(lex).wf(),
        old(lex).next == 0,
    ensures
        is_parse_of(old(lex).lexemes@, parsed_view(parsed)),
{
    let mut ctx = ParserCtx::new();
    let ghost lexemes = lex.lexemes@;
    let ghost mut at: int = 0;
    loop
        invariant
            lex.wf(),
            lex.lexemes@ == lexemes,
            lexemes == old(lex).lexemes@,
            0 <= at,
            lex.next == if at <= lexemes.len() {
                at
            } else {
                lexemes.len() as int
            },
            parse_from(lexemes, 0, ParserState::initial()) == parse_from(lexemes, at, ctx@),
        ensures
            ctx@ == parse_from(lexemes, 0, ParserState::initial()),
        decreases lexemes.len() - lex.next,
    {
        if !lex.advance() {
            break;
        }
        parse_statement(lex, &mut ctx);
        proof {
            at = at + 1 + operand_count(lexemes[at].token);
        }
    }
    ctx.push_label();
    if ctx.errors.len() > 0 {
        Err(ctx.errors)
    } else {
        Ok(ctx.get())
    }
}

} // verus!
