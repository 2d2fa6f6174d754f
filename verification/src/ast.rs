use vstd::prelude::*;
use crate::text::push_str;
use crate::tokens::Token;
use crate::tokens::WindSpan;

verus! {

/// A type written in the source.
#[derive(Debug, PartialEq)]
pub enum WindType {
    Named(String),
    Generic { base: String, args: Vec<WindType> },
    Fn { params: Vec<WindType>, ret: Box<WindType> },
    SelfType,
}

/// An assignment operator.
#[derive(Debug, Clone, Copy, PartialEq, Eq, Structural)]
pub enum WindAssignOp {
    Direct,
    LeftAbs,
    RightAbs,
    SumEq,
    DiffEq,
    ProdEq,
    QuotEq,
}

/// A prefix or postfix operator.
#[derive(Debug, Clone, Copy, PartialEq, Eq, Structural)]
pub enum WindUnaryOp {
    Neg,
    Not,
    Inc,
    Dec,
    IncPost,
    DecPost,
}

/// The name the unary operator has beside its `from_token`.
pub type UnaryOp = WindUnaryOp;

/// An infix operator.
#[derive(Debug, Clone, Copy, PartialEq, Eq, Structural)]
pub enum WindBinaryOp {
    Add,
    Sub,
    Mul,
    Div,
    IntDiv,
    Mod,
    And,
    Or,
    BitAnd,
    BitOr,
    BitXor,
    Shl,
    Shr,
    Eq,
    Neq,
    Lt,
    Gt,
    Le,
    Ge,
    NotLt,
    NotGt,
    In,
    AddrEq,
}

/// An expression. A float literal keeps its source text.
#[derive(Debug, PartialEq)]
pub enum WindExpr {
    IntLiteral(i64),
    FloatLiteral(String),
    StringLiteral(String),
    CharLiteral(String),
    BoolLiteral(bool),
    NoneLiteral,
    Identifier(String),
    Binary { left: Box<WindExpr>, op: WindBinaryOp, right: Box<WindExpr> },
    Unary { op: WindUnaryOp, expr: Box<WindExpr> },
    Call { callee: Box<WindExpr>, args: Vec<WindExpr> },
    FieldAccess { object: Box<WindExpr>, field: String },
    Index { expr: Box<WindExpr>, index: Box<WindExpr> },
    ScopeRef { object: Box<WindExpr>, member: String },
    TypeExpr { expr: Box<WindExpr>, ty: WindType },
    Group(Box<WindExpr>),
    MapLiteral(Vec<(WindExpr, WindExpr)>),
    ArrayLiteral(Vec<WindExpr>),
    IfExpr { condition: Box<WindExpr>, then_branch: Box<WindExpr>, else_branch: Option<Box<WindExpr>> },
    TagExpr { name: String, body: Vec<WindStmt> },
    Unpack(Box<WindExpr>),
    StructLiteral { name: String, fields: Vec<(String, WindExpr)> },
}

/// A parameter of a function.
#[derive(Debug, PartialEq)]
pub struct WindFnParam {
    pub name: String,
    pub ty: Option<WindType>,
}

/// The name the parameter type has in its own file.
pub type FnParam = WindFnParam;

/// A `which` clause: the methods that a function must run after.
#[derive(Debug, PartialEq)]
pub struct WindWhichClause {
    pub method: String,
    pub after: Vec<String>,
}

/// The name the clause type has in its own file.
pub type WhichClause = WindWhichClause;

/// A function signature inside a trait.
#[derive(Debug, PartialEq)]
pub struct WindFnSignature {
    pub public: bool,
    pub name: String,
    pub params: Vec<WindFnParam>,
    pub return_type: Option<WindType>,
    pub which: Option<Vec<WindWhichClause>>,
}

/// The name the signature type has in its own file.
pub type FnSignature = WindFnSignature;

/// A field of a struct definition.
#[derive(Debug, PartialEq)]
pub struct WindStructField {
    pub public: bool,
    pub is_static: bool,
    pub name: String,
    pub ty: WindType,
    pub which: Option<Vec<WindWhichClause>>,
    pub conditions: Option<WindExpr>,
    pub default_value: Option<Box<WindExpr>>,
}

/// A rule of a group definition.
#[derive(Debug, PartialEq)]
pub enum WindGroupRule {
    Simple { field: String, ty: WindType },
    SelfField { field: String, ty: WindType },
}

/// The name the rule type has in its own file.
pub type GroupRule = WindGroupRule;

/// A statement or a top-level definition.
#[derive(Debug, PartialEq)]
pub enum WindStmt {
    Let { name: String, ty: Option<WindType>, value: Box<WindExpr> },
    Assignment { target: Box<WindExpr>, op: WindAssignOp, value: Box<WindExpr> },
    Expr(Box<WindExpr>),
    Block(Vec<WindStmt>),
    If {
        condition: Box<WindExpr>,
        then_branch: Box<WindStmt>,
        elif_branches: Vec<(WindExpr, WindStmt)>,
        else_branch: Option<Box<WindStmt>>,
    },
    For {
        init: Option<Box<WindExpr>>,
        condition: Option<Box<WindExpr>>,
        update: Option<Box<WindExpr>>,
        body: Box<WindStmt>,
    },
    ForIn { var: String, iterable: Box<WindExpr>, body: Box<WindStmt> },
    While { condition: Box<WindExpr>, body: Box<WindStmt> },
    Return(Option<Box<WindExpr>>),
    FnDef {
        public: bool,
        name: String,
        params: Vec<WindFnParam>,
        return_type: Option<WindType>,
        which: Option<Vec<WindWhichClause>>,
        body: Box<WindStmt>,
    },
    StructDef { public: bool, name: String, fields: Vec<WindStructField> },
    EnumDef { public: bool, name: String, variants: Vec<(String, Option<WindType>)> },
    TypeDef { public: bool, name: String, base_type: WindType, conditions: Vec<WindExpr> },
    ExtraDef { public: bool, name: Option<String>, target: String, functions: Vec<WindStmt> },
    ImplDef { public: bool, trait_name: String, target: String, functions: Vec<WindStmt> },
    TraitDef { public: bool, name: String, functions: Vec<WindFnSignature> },
    GroupDef {
        public: bool,
        name: String,
        target: Option<String>,
        params: Option<Vec<WindFnParam>>,
        rules: Vec<WindGroupRule>,
    },
    ConstDef { name: String, ty: WindType, value: Box<WindExpr> },
    ConstaticDef { name: String, ty: WindType, value: Box<WindExpr> },
    ExplainDef { name: String, ty: WindType, value: Box<WindExpr> },
    Apply { group: String, target: String, fields: Vec<String> },
}

/// A whole program: its top-level items in source order.
#[derive(Debug, PartialEq)]
pub struct WindProgram {
    pub items: Vec<WindStmt>,
}

/// A syntax error with the token found and the tokens expected there.
#[derive(Debug)]
pub struct WindParseError {
    pub message: String,
    pub span: WindSpan,
    pub found: Option<Token>,
    pub expected: Vec<String>,
}

/// The infix operator a token stands for.
pub open spec fn binary_op_of(t: Token) -> Option<WindBinaryOp> {
    match t {
        Token::Plus => Some(WindBinaryOp::Add),
        Token::Minus => Some(WindBinaryOp::Sub),
        Token::Star => Some(WindBinaryOp::Mul),
        Token::Slash => Some(WindBinaryOp::Div),
        Token::DoubleSlash => Some(WindBinaryOp::IntDiv),
        Token::Percent => Some(WindBinaryOp::Mod),
        Token::AndAnd => Some(WindBinaryOp::And),
        Token::OrOr => Some(WindBinaryOp::Or),
        Token::Amp => Some(WindBinaryOp::BitAnd),
        Token::Pipe => Some(WindBinaryOp::BitOr),
        Token::Caret => Some(WindBinaryOp::BitXor),
        Token::LeftShift => Some(WindBinaryOp::Shl),
        Token::RightShift => Some(WindBinaryOp::Shr),
        Token::EqualEqual => Some(WindBinaryOp::Eq),
        Token::NotEqual => Some(WindBinaryOp::Neq),
        Token::Less => Some(WindBinaryOp::Lt),
        Token::Greater => Some(WindBinaryOp::Gt),
        Token::LessEqual => Some(WindBinaryOp::Le),
        Token::GreaterEqual => Some(WindBinaryOp::Ge),
        Token::NotLess => Some(WindBinaryOp::NotLt),
        Token::NotGreater => Some(WindBinaryOp::NotGt),
        Token::In => Some(WindBinaryOp::In),
        _ => None,
    }
}

impl WindBinaryOp {
    /// The infix operator that `tok` stands for, if any.
    pub fn from_token(tok: &Token) -> (r: Option<Self>)
        ensures
            r == binary_op_of(*tok),
    {
        match tok {
            Token::Plus => Some(WindBinaryOp::Add),
            Token::Minus => Some(WindBinaryOp::Sub),
            Token::Star => Some(WindBinaryOp::Mul),
            Token::Slash => Some(WindBinaryOp::Div),
            Token::DoubleSlash => Some(WindBinaryOp::IntDiv),
            Token::Percent => Some(WindBinaryOp::Mod),
            Token::AndAnd => Some(WindBinaryOp::And),
            Token::OrOr => Some(WindBinaryOp::Or),
            Token::Amp => Some(WindBinaryOp::BitAnd),
            Token::Pipe => Some(WindBinaryOp::BitOr),
            Token::Caret => Some(WindBinaryOp::BitXor),
            Token::LeftShift => Some(WindBinaryOp::Shl),
            Token::RightShift => Some(WindBinaryOp::Shr),
            Token::EqualEqual => Some(WindBinaryOp::Eq),
            Token::NotEqual => Some(WindBinaryOp::Neq),
            Token::Less => Some(WindBinaryOp::Lt),
            Token::Greater => Some(WindBinaryOp::Gt),
            Token::LessEqual => Some(WindBinaryOp::Le),
            Token::GreaterEqual => Some(WindBinaryOp::Ge),
            Token::NotLess => Some(WindBinaryOp::NotLt),
            Token::NotGreater => Some(WindBinaryOp::NotGt),
            Token::In => Some(WindBinaryOp::In),
            _ => None,
        }
    }
}

impl UnaryOp {
    /// The prefix operator that `tok` stands for: `-` negates, `!` inverts.
    pub fn from_token(tok: &Token) -> (r: Option<Self>)
        ensures
            r == (match *tok {
                Token::Minus => Some(WindUnaryOp::Neg),
                Token::Bang => Some(WindUnaryOp::Not),
                _ => None,
            }),
    {
        match tok {
            Token::Minus => Some(WindUnaryOp::Neg),
            Token::Bang => Some(WindUnaryOp::Not),
            _ => None,
        }
    }
}

/// The text of a written type: `fn(a, b) -> r` for function types, `base<a, b>` for generic ones.
pub open spec fn type_text(t: WindType) -> Seq<char>
    decreases t,
{
    match t {
        WindType::Named(s) => s@,
        WindType::Generic { base, args } => base@ + seq!['<'] + types_text(args@) + seq!['>'],
        WindType::Fn { params, ret } => "fn("@ + types_text(params@) + ") -> "@ + type_text(*ret),
        WindType::SelfType => "Self"@,
    }
}

/// The texts of the types of a list, joined with ", ".
pub open spec fn types_text(ts: Seq<WindType>) -> Seq<char>
    decreases ts,
{
    if ts.len() == 0 {
        seq![]
    } else if ts.len() == 1 {
        type_text(ts[0])
    } else {
        types_text(ts.drop_last()) + ", "@ + type_text(ts.last())
    }
}

impl WindType {
    /// The text of the type, as it reads in the source.
    pub fn to_text(&self) -> (r: String)
        ensures
            r@ == type_text(*self),
        decreases self,
    {
        match self {
            WindType::Named(s) => {
                let r = crate::text::string_of(s.as_str());
                assert(*self == WindType::Named(*s));
                assert(type_text(WindType::Named(*s)) == s@);
                assert(r@ == s@);
                assert(r@ =~= type_text(*self));
                r
            },
            WindType::Generic { base, args } => {
                let inner = Self::join_types(args);
                let mut r = base.clone();
                push_str(&mut r, "<");
                push_str(&mut r, inner.as_str());
                push_str(&mut r, ">");
                proof {
                    reveal_strlit("<");
                    reveal_strlit(">");
                }
                assert(r@ =~= type_text(*self));
                r
            }
            WindType::Fn { params, ret } => {
                let inner = Self::join_types(params);
                let rt = ret.to_text();
                let mut r = String::new();
                push_str(&mut r, "fn(");
                push_str(&mut r, inner.as_str());
                push_str(&mut r, ") -> ");
                push_str(&mut r, rt.as_str());
                assert(r@ =~= type_text(*self));
                r
            }
            WindType::SelfType => {
                let r = crate::text::string_of("Self");
                assert(r@ =~= type_text(*self));
                r
            }
        }
    }

    fn join_types(ts: &Vec<WindType>) -> (r: String)
        ensures
            r@ == types_text(ts@),
        decreases ts,
    {
        let mut res = String::new();
        let mut i: usize = 0;
        #[verifier::loop_isolation(false)]
        while i < ts.len()
            invariant
                i <= ts.len(),
                res@ == types_text(ts@.take(i as int)),
            decreases ts.len() - i,
        {
            proof {
                assert(decreases_to!(*ts => ts@[i as int]));
            }
            let s = ts[i].to_text();
            if i > 0 {
                push_str(&mut res, ", ");
            }
            push_str(&mut res, s.as_str());
            proof {
                let t1 = ts@.take(i + 1);
                assert(t1.drop_last() =~= ts@.take(i as int));
                assert(t1.last() == ts@[i as int]);
                if i == 0 {
                    assert(ts@.take(0) =~= Seq::<WindType>::empty());
                    assert(res@ =~= type_text(t1[0]));
                }
            }
            i += 1;
        }
        assert(ts@.take(ts.len() as int) =~= ts@);
        res
    }
}

} // verus!
