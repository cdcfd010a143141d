use vstd::prelude::*;
use crate::common::span::Span;
use crate::common::types::{Type, Ty};
use crate::common::text::{trim, trim_str, lemma_trim_len, is_ws, trim_start, trim_end};

verus! {

/// Stable identity for an AST expression node.
///
/// Assigned once, after the last AST transformation and before semantic
/// analysis. `ExprId::unassigned()` is the construction-time sentinel.
#[derive(Clone, Copy, Debug, PartialEq, Eq, Structural, Hash, PartialOrd, Ord)]
pub struct ExprId(pub u32);

impl ExprId {
    /// Sentinel for a freshly constructed node that has not yet been
    /// numbered.
    pub fn unassigned() -> (r: ExprId)
        ensures
            r.0 == 0xffff_ffffu32,
    {
        ExprId(0xffff_ffffu32)
    }

    pub fn is_assigned(self) -> (r: bool)
        ensures
            r == (self.0 != 0xffff_ffffu32),
    {
        self.0 != 0xffff_ffffu32
    }
}


/// Unary operators.
#[derive(Clone, Copy, Debug, PartialEq, Eq, Structural)]
pub enum UnaryOp {
    Negate,
    Not,
}

/// Binary operators of the surface language.
#[derive(Clone, Copy, Debug, PartialEq, Eq, Structural)]
pub enum BinOp {
    Add,
    Subtract,
    Multiply,
    Divide,
    Greater,
    Less,
    GreaterEqual,
    LessEqual,
    Equal,
    NotEqual,
    And,
    Or,
}

/// An expression node: stable identity and structural kind.
#[derive(Debug)]
pub struct Expr {
    pub id: ExprId,
    pub kind: ExprKind,
}

/// The structural content of an expression, without its identity.
#[derive(Debug)]
pub enum ExprKind {
    /// A floating-point literal, as the bits of its `f64` value.
    Number(u64, Span),
    Int(i64, Span),
    String(String, Span),
    Bool(bool, Span),
    NullPtr(Span),
    PtrLiteral(usize, Span),
    Var(String, Span),
    /// Inline scoped block.
    Block { statements: Vec<Stmt>, trailing_expr: Option<Box<Expr>>, span: Span },
    If { condition: Box<Expr>, then_branch: Box<Expr>, else_branch: Option<Box<Expr>>, span: Span },
    Match { value: Box<Expr>, cases: Vec<MatchCaseExpr>, span: Span },
    Borrow { expr: Box<Expr>, span: Span },
    MutBorrow { expr: Box<Expr>, span: Span },
    Deref { expr: Box<Expr>, span: Span },
    AddrOf { expr: Box<Expr>, span: Span },
    List(Vec<Expr>, Span),
    ArrayAccess { array: Box<Expr>, index: Box<Expr>, span: Span },
    Binary { left: Box<Expr>, op: BinOp, right: Box<Expr>, span: Span },
    Unary { op: UnaryOp, expr: Box<Expr>, span: Span },
    FunctionCall { name: String, args: Vec<Expr>, span: Span },
    SomeValue { value: Box<Expr>, span: Span },
    NoneValue(Span),
    OkValue { value: Box<Expr>, span: Span },
    Error { value: Box<Expr>, span: Span },
    TryCatch {
        try_branch: Box<Expr>,
        catch_var: Option<String>,
        catch_branch: Box<Expr>,
        finally_body: Option<Vec<Stmt>>,
        span: Span,
    },
    For { var: String, iterable: Box<Expr>, body: Vec<Stmt>, trailing_expr: Option<Box<Expr>>, span: Span },
    While { condition: Box<Expr>, body: Vec<Stmt>, trailing_expr: Option<Box<Expr>>, span: Span },
    Range { start: Option<Box<Expr>>, end: Option<Box<Expr>>, inclusive: bool, span: Span },
    FieldAccess { object: Box<Expr>, field: String, span: Span },
    RecordLiteral { name: String, type_args: Vec<TypeSyntax>, fields: Vec<(String, Expr)>, span: Span },
}

/// A statement.
#[derive(Debug)]
pub enum Stmt {
    VarDecl { name: String, value: Expr, type_annotation: Option<TypeSyntax>, mutable: bool, span: Span },
    Import { path: String, span: Span },
    RegionBlock { name: String, body: Vec<Stmt>, span: Span },
    UnsafeBlock { body: Vec<Stmt>, span: Span },
    Assign { name: String, value: Expr, span: Span },
    ArrayAssign { array: String, index: Expr, value: Expr, span: Span },
    Return { value: Option<Expr>, span: Span },
    Print { expr: Expr, span: Span },
    Defer { stmt: Box<Stmt>, span: Span },
    Break(Span),
    Continue(Span),
    Spawn { body: Vec<Stmt>, span: Span },
    Parallel { blocks: Vec<Vec<Stmt>>, span: Span },
    ChannelDecl { name: String, span: Span },
    Send { channel: String, value: Expr, span: Span },
    Receive { channel: String, target: String, span: Span },
    /// Any expression in statement position; it carries its own span.
    Expression(Expr),
    FieldAssign { target: String, field: String, value: Expr, span: Span },
}

/// One arm of a `match` expression.
#[derive(Debug)]
pub struct MatchCaseExpr {
    pub pattern: Pattern,
    pub body: Expr,
}

/// A pattern of a `match` arm.
#[derive(Debug)]
pub enum Pattern {
    SomeValue(String),
    NoneValue,
    OkValue(String),
    Error(String),
    Wildcard,
    Binding(String),
    Literal(Expr),
    SomeNested(Box<Pattern>),
    OkNested(Box<Pattern>),
    ErrorNested(Box<Pattern>),
    Guarded { pattern: Box<Pattern>, condition: Box<Expr> },
    ListDestructure { first: Option<Box<Pattern>>, rest: Option<Box<Pattern>> },
    Range { start: Option<Box<Expr>>, end: Option<Box<Expr>> },
    Record { name: String, bindings: Vec<String> },
}

/// A function declaration.
#[derive(Debug)]
pub struct FunctionDecl {
    pub name: String,
    pub params: Vec<(String, Option<TypeSyntax>)>,
    pub return_type: Option<TypeSyntax>,
    pub body: Vec<Stmt>,
    pub is_extern: bool,
    pub ffi_info: Option<ExternDecl>,
    pub type_params: Vec<String>,
    pub where_clauses: Vec<WhereClause>,
}

/// An `impl Trait for Type` block.
#[derive(Debug)]
pub struct ImplBlock {
    pub trait_name: String,
    pub target_type: String,
    pub methods: Vec<FunctionDecl>,
}

/// A whole program.
#[derive(Debug, Default)]
pub struct Program {
    pub imports: Vec<String>,
    pub functions: Vec<FunctionDecl>,
    pub traits: Vec<TraitDecl>,
    pub impls: Vec<ImplBlock>,
    pub records: Vec<RecordDecl>,
}

/// The span of an expression kind.
pub open spec fn kind_span(k: ExprKind) -> Span {
    match k {
        ExprKind::Number(_, s) => s,
        ExprKind::Int(_, s) => s,
        ExprKind::String(_, s) => s,
        ExprKind::Bool(_, s) => s,
        ExprKind::NullPtr(s) => s,
        ExprKind::PtrLiteral(_, s) => s,
        ExprKind::Var(_, s) => s,
        ExprKind::Block { span, .. } => span,
        ExprKind::If { span, .. } => span,
        ExprKind::Match { span, .. } => span,
        ExprKind::Borrow { span, .. } => span,
        ExprKind::MutBorrow { span, .. } => span,
        ExprKind::Deref { span, .. } => span,
        ExprKind::AddrOf { span, .. } => span,
        ExprKind::List(_, s) => s,
        ExprKind::ArrayAccess { span, .. } => span,
        ExprKind::Binary { span, .. } => span,
        ExprKind::Unary { span, .. } => span,
        ExprKind::FunctionCall { span, .. } => span,
        ExprKind::SomeValue { span, .. } => span,
        ExprKind::NoneValue(s) => s,
        ExprKind::OkValue { span, .. } => span,
        ExprKind::Error { span, .. } => span,
        ExprKind::TryCatch { span, .. } => span,
        ExprKind::For { span, .. } => span,
        ExprKind::While { span, .. } => span,
        ExprKind::Range { span, .. } => span,
        ExprKind::FieldAccess { span, .. } => span,
        ExprKind::RecordLiteral { span, .. } => span,
    }
}

/// The span of a statement: its own, or that of its expression.
pub open spec fn stmt_span(s: Stmt) -> Span {
    match s {
        Stmt::VarDecl { span, .. } => span,
        Stmt::Import { span, .. } => span,
        Stmt::RegionBlock { span, .. } => span,
        Stmt::UnsafeBlock { span, .. } => span,
        Stmt::Assign { span, .. } => span,
        Stmt::ArrayAssign { span, .. } => span,
        Stmt::Return { span, .. } => span,
        Stmt::Print { span, .. } => span,
        Stmt::Defer { span, .. } => span,
        Stmt::Break(sp) => sp,
        Stmt::Continue(sp) => sp,
        Stmt::Spawn { span, .. } => span,
        Stmt::Parallel { span, .. } => span,
        Stmt::ChannelDecl { span, .. } => span,
        Stmt::Send { span, .. } => span,
        Stmt::Receive { span, .. } => span,
        Stmt::Expression(e) => kind_span(e.kind),
        Stmt::FieldAssign { span, .. } => span,
    }
}

impl Expr {
    /// A node with the unassigned id; the numbering pass gives it one.
    pub fn new(kind: ExprKind) -> (r: Expr)
        ensures
            r.id.0 == 0xffff_ffffu32,
            r.kind == kind,
    {
        Expr { id: ExprId::unassigned(), kind }
    }

    /// `Box::new(Expr::new(kind))`.
    pub fn boxed(kind: ExprKind) -> (r: Box<Expr>)
        ensures
            r.id.0 == 0xffff_ffffu32,
            r.kind == kind,
    {
        Box::new(Expr::new(kind))
    }

    /// The source span of this expression.
    pub fn span(&self) -> (r: Span)
        ensures
            r == kind_span(self.kind),
    {
        self.kind.span()
    }
}

impl ExprKind {
    /// The source span of this expression kind.
    pub fn span(&self) -> (r: Span)
        ensures
            r == kind_span(*self),
    {
        match self {
            ExprKind::Number(_, s) => *s,
            ExprKind::Int(_, s) => *s,
            ExprKind::String(_, s) => *s,
            ExprKind::Bool(_, s) => *s,
            ExprKind::NullPtr(s) => *s,
            ExprKind::PtrLiteral(_, s) => *s,
            ExprKind::Var(_, s) => *s,
            ExprKind::Block { span, .. } => *span,
            ExprKind::If { span, .. } => *span,
            ExprKind::Match { span, .. } => *span,
            ExprKind::Borrow { span, .. } => *span,
            ExprKind::MutBorrow { span, .. } => *span,
            ExprKind::Deref { span, .. } => *span,
            ExprKind::AddrOf { span, .. } => *span,
            ExprKind::List(_, s) => *s,
            ExprKind::ArrayAccess { span, .. } => *span,
            ExprKind::Binary { span, .. } => *span,
            ExprKind::Unary { span, .. } => *span,
            ExprKind::FunctionCall { span, .. } => *span,
            ExprKind::SomeValue { span, .. } => *span,
            ExprKind::NoneValue(s) => *s,
            ExprKind::OkValue { span, .. } => *span,
            ExprKind::Error { span, .. } => *span,
            ExprKind::TryCatch { span, .. } => *span,
            ExprKind::For { span, .. } => *span,
            ExprKind::While { span, .. } => *span,
            ExprKind::Range { span, .. } => *span,
            ExprKind::FieldAccess { span, .. } => *span,
            ExprKind::RecordLiteral { span, .. } => *span,
        }
    }
}

impl Stmt {
    /// The source span of this statement.
    pub fn span(&self) -> (r: Span)
        ensures
            r == stmt_span(*self),
    {
        match self {
            Stmt::VarDecl { span, .. } => *span,
            Stmt::Import { span, .. } => *span,
            Stmt::RegionBlock { span, .. } => *span,
            Stmt::UnsafeBlock { span, .. } => *span,
            Stmt::Assign { span, .. } => *span,
            Stmt::ArrayAssign { span, .. } => *span,
            Stmt::Return { span, .. } => *span,
            Stmt::Print { span, .. } => *span,
            Stmt::Defer { span, .. } => *span,
            Stmt::Break(s) => *s,
            Stmt::Continue(s) => *s,
            Stmt::Spawn { span, .. } => *span,
            Stmt::Parallel { span, .. } => *span,
            Stmt::ChannelDecl { span, .. } => *span,
            Stmt::Send { span, .. } => *span,
            Stmt::Receive { span, .. } => *span,
            Stmt::Expression(e) => e.span(),
            Stmt::FieldAssign { span, .. } => *span,
        }
    }
}

/// `where T: Trait` on a generic function.
#[derive(Clone, Debug)]
pub struct WhereClause {
    pub type_param: String,
    pub trait_name: String,
}

/// A record (struct) declaration.
#[derive(Clone, Debug)]
pub struct RecordDecl {
    pub name: String,
    pub type_params: Vec<String>,
    pub fields: Vec<(String, TypeSyntax)>,
    pub span: Span,
}

/// A trait declaration: its name and method signatures.
#[derive(Clone, Debug)]
pub struct TraitDecl {
    pub name: String,
    pub methods: Vec<TraitMethod>,
}

/// A method signature inside a trait.
#[derive(Clone, Debug)]
pub struct TraitMethod {
    pub name: String,
    pub params: Vec<(String, Option<TypeSyntax>)>,
    pub return_type: Option<TypeSyntax>,
}

/// Foreign-function details of an `extern` declaration.
#[derive(Clone, Debug, Default)]
pub struct ExternDecl {
    pub abi: Option<String>,
    pub library: Option<String>,
    pub symbol_name: Option<String>,
    pub variadic: bool,
}

/// A type as written in source: a name, a name with type arguments, or
/// nothing.
#[derive(Debug, PartialEq)]
pub enum TypeSyntax {
    Named(String),
    Generic { name: String, args: Vec<TypeSyntax> },
    Unknown,
}

/// The mathematical form of a `TypeSyntax`.
pub enum Syn {
    Named(Seq<char>),
    Generic(Seq<char>, Seq<Syn>),
    Unknown,
}

impl TypeSyntax {
    pub open spec fn model(&self) -> Syn
        decreases self,
    {
        match self {
            TypeSyntax::Named(n) => Syn::Named(n@),
            TypeSyntax::Generic { name, args } => Syn::Generic(name@, syn_models(args@)),
            TypeSyntax::Unknown => Syn::Unknown,
        }
    }
}

pub open spec fn syn_models(ts: Seq<TypeSyntax>) -> Seq<Syn>
    decreases ts,
{
    if ts.len() == 0 {
        Seq::empty()
    } else {
        seq![ts[0].model()] + syn_models(ts.drop_first())
    }
}

pub broadcast proof fn lemma_syn_models(ts: Seq<TypeSyntax>)
    ensures
        #[trigger] syn_models(ts).len() == ts.len(),
        forall|i: int| 0 <= i < ts.len() ==> #[trigger] syn_models(ts)[i] == ts[i].model(),
    decreases ts.len(),
{
    if ts.len() > 0 {
        lemma_syn_models(ts.drop_first());
        assert forall|i: int| 0 <= i < ts.len() implies #[trigger] syn_models(ts)[i] == ts[i].model() by {
            if i > 0 {
                assert(ts.drop_first()[i - 1] == ts[i]);
            }
        }
    }
}

impl View for TypeSyntax {
    type V = Syn;

    open spec fn view(&self) -> Syn {
        self.model()
    }
}

/// The written form of a type: `name`, or `name<arg, arg>`.
pub open spec fn syn_rep(t: Syn) -> Seq<char>
    decreases t,
{
    match t {
        Syn::Named(n) => n,
        Syn::Generic(name, args) => name + seq!['<'] + syn_join(args) + seq!['>'],
        Syn::Unknown => Seq::empty(),
    }
}

/// The written forms of `ts`, separated by `", "`.
pub open spec fn syn_join(ts: Seq<Syn>) -> Seq<char>
    decreases ts,
{
    if ts.len() == 0 {
        Seq::empty()
    } else if ts.len() == 1 {
        syn_rep(ts[0])
    } else {
        syn_rep(ts[0]) + seq![',', ' '] + syn_join(ts.drop_first())
    }
}

/// ASCII case-insensitive match of `c` against the lowercase `k`.
pub open spec fn lower_match(c: char, k: char) -> bool {
    c == k || ('A' <= c && c <= 'Z' && (c as u32) + 32 == (k as u32))
}

/// `s` lowercases to the all-lowercase ASCII word `k`.
///
/// Among characters outside ASCII only the Kelvin sign lowercases to an
/// ASCII letter (`k`), and no word compared here holds a `k`, so for
/// those words this is what comparing `str::to_lowercase` gives.
pub open spec fn lower_eq(s: Seq<char>, k: Seq<char>) -> bool {
    s.len() == k.len() && forall|i: int| 0 <= i < s.len() ==> lower_match(#[trigger] s[i], k[i])
}

/// The type a written type denotes.
pub open spec fn syn_ty(t: Syn) -> Ty
    decreases t,
{
    match t {
        Syn::Named(n) => {
            if n == "Int"@ || n == "int"@ {
                Ty::Int
            } else if n == "Float"@ || n == "float"@ {
                Ty::Float
            } else if n == "String"@ || n == "string"@ {
                Ty::Str
            } else if n == "Bool"@ || n == "bool"@ {
                Ty::Bool
            } else if n == "Void"@ || n == "void"@ {
                Ty::Void
            } else if n == "Self"@ {
                Ty::TypeVar("Self"@)
            } else if n.len() == 1 && 'A' <= n[0] && n[0] <= 'Z' {
                Ty::TypeVar(n)
            } else {
                Ty::Unknown
            }
        },
        Syn::Generic(name, args) => {
            if args.len() == 1 && lower_eq(name, "borrow"@) {
                Ty::Borrow(Box::new(syn_ty(args[0])))
            } else if args.len() == 1 && (lower_eq(name, "mutborrow"@) || lower_eq(name, "mut_borrow"@)) {
                Ty::MutBorrow(Box::new(syn_ty(args[0])))
            } else if args.len() == 1 && lower_eq(name, "list"@) {
                Ty::List(Box::new(syn_ty(args[0])))
            } else if args.len() == 1 && lower_eq(name, "option"@) {
                Ty::Opt(Box::new(syn_ty(args[0])))
            } else if args.len() == 1 && (lower_eq(name, "pointer"@) || lower_eq(name, "ptr"@)) {
                Ty::Pointer(Box::new(syn_ty(args[0])))
            } else if args.len() == 1 && lower_eq(name, "channel"@) {
                Ty::Channel(Box::new(syn_ty(args[0])))
            } else if args.len() == 2 && lower_eq(name, "result"@) {
                Ty::Res(Box::new(syn_ty(args[0])), Box::new(syn_ty(args[1])))
            } else {
                Ty::Unknown
            }
        },
        Syn::Unknown => Ty::Unknown,
    }
}

/// Whether `s` lowercases to the lowercase ASCII word `k`.
fn lower_equals(s: &str, k: &str) -> (r: bool)
    ensures
        r == lower_eq(s@, k@),
{
    let n = s.unicode_len();
    if n != k.unicode_len() {
        return false;
    }
    let mut i: usize = 0;
    while i < n
        invariant
            n == s@.len(),
            n == k@.len(),
            0 <= i <= n,
            forall|j: int| 0 <= j < i ==> lower_match(#[trigger] s@[j], k@[j]),
        decreases n - i,
    {
        let c = s.get_char(i);
        let d = k.get_char(i);
        if !(c == d || ('A' <= c && c <= 'Z' && (c as u32) + 32 == (d as u32))) {
            assert(!lower_match(s@[i as int], k@[i as int]));
            return false;
        }
        i = i + 1;
    }
    true
}

pub(crate) fn str_equals(s: &str, k: &str) -> (r: bool)
    ensures
        r == (s@ == k@),
{
    let n = s.unicode_len();
    if n != k.unicode_len() {
        return false;
    }
    let mut i: usize = 0;
    while i < n
        invariant
            n == s@.len(),
            n == k@.len(),
            0 <= i <= n,
            forall|j: int| 0 <= j < i ==> s@[j] == k@[j],
        decreases n - i,
    {
        if s.get_char(i) != k.get_char(i) {
            return false;
        }
        i = i + 1;
    }
    assert(s@ =~= k@);
    true
}

impl TypeSyntax {
    /// The name of the type as written, without arguments.
    pub fn as_str(&self) -> (r: &str)
        ensures
            r@ == match self@ {
                Syn::Named(n) => n,
                Syn::Generic(name, _) => name,
                Syn::Unknown => Seq::empty(),
            },
    {
        match self {
            TypeSyntax::Named(name) => name.as_str(),
            TypeSyntax::Generic { name, .. } => name.as_str(),
            TypeSyntax::Unknown => {
                proof { reveal_strlit(""); }
                ""
            },
        }
    }

    /// The written form: `name`, `name<arg, ...>`, or empty.
    pub fn to_string_rep(&self) -> (r: String)
        ensures
            r@ == syn_rep(self@),
        decreases self,
    {
        match self {
            TypeSyntax::Named(name) => name.clone(),
            TypeSyntax::Generic { name, args } => {
                proof {
                    reveal_strlit("<");
                    reveal_strlit(">");
                }
                let mut out = name.clone();
                out.append("<");
                let inner = Self::join_reps(args);
                out.append(inner.as_str());
                out.append(">");
                out
            },
            TypeSyntax::Unknown => String::new(),
        }
    }

    /// The written forms of `args`, separated by `", "`.
    fn join_reps(args: &Vec<TypeSyntax>) -> (r: String)
        ensures
            r@ == syn_join(syn_models(args@)),
        decreases args,
    {
        proof {
            lemma_syn_models(args@);
            reveal_strlit(", ");
        }
        let ghost ms = syn_models(args@);
        let mut out = String::new();
        let mut i: usize = 0;
        assert(ms.take(0) =~= Seq::<Syn>::empty());
        while i < args.len()
            invariant
                0 <= i <= args@.len(),
                ms == syn_models(args@),
                ms.len() == args@.len(),
                forall|j: int| 0 <= j < args@.len() ==> #[trigger] ms[j] == args@[j]@,
                out@ == syn_join(ms.take(i as int)),
            decreases args@.len() - i,
        {
            assert(decreases_to!(args => args@[i as int]));
            let piece = args[i].to_string_rep();
            proof { lemma_join_push(ms.take(i as int), ms[i as int]); }
            let ghost before = out@;
            proof { reveal_strlit(", "); }
            if i > 0 {
                out.append(", ");
            }
            out.append(piece.as_str());
            assert(piece@ == syn_rep(ms[i as int]));
            if i > 0 {
                assert(out@ =~= before + seq![',', ' '] + piece@);
            } else {
                assert(before =~= Seq::<char>::empty());
                assert(out@ =~= piece@);
            }
            assert(ms.take(i as int).push(ms[i as int]) =~= ms.take(i + 1));
            i = i + 1;
        }
        assert(ms.take(args@.len() as int) =~= ms);
        out
    }

    /// The type this written type denotes.
    pub fn to_type(&self) -> (r: Type)
        ensures
            r@ == syn_ty(self@),
        decreases self,
    {
        proof {
            reveal_strlit("Int"); reveal_strlit("int");
            reveal_strlit("Float"); reveal_strlit("float");
            reveal_strlit("String"); reveal_strlit("string");
            reveal_strlit("Bool"); reveal_strlit("bool");
            reveal_strlit("Void"); reveal_strlit("void");
            reveal_strlit("Self");
        }
        match self {
            TypeSyntax::Named(name) => {
                let n = name.as_str();
                if str_equals(n, "Int") || str_equals(n, "int") {
                    Type::Int
                } else if str_equals(n, "Float") || str_equals(n, "float") {
                    Type::Float
                } else if str_equals(n, "String") || str_equals(n, "string") {
                    Type::String
                } else if str_equals(n, "Bool") || str_equals(n, "bool") {
                    Type::Bool
                } else if str_equals(n, "Void") || str_equals(n, "void") {
                    Type::Void
                } else if str_equals(n, "Self") {
                    Type::TypeVar("Self".to_string())
                } else if n.unicode_len() == 1 && 'A' <= n.get_char(0) && n.get_char(0) <= 'Z' {
                    Type::TypeVar(name.clone())
                } else {
                    Type::Unknown
                }
            },
            TypeSyntax::Generic { name, args } => {
                proof { lemma_syn_models(args@); }
                let n = name.as_str();
                let k = args.len();
                if k == 1 {
                    if lower_equals(n, "borrow") {
                        return Type::borrow(args[0].to_type());
                    } else if lower_equals(n, "mutborrow") || lower_equals(n, "mut_borrow") {
                        return Type::mut_borrow(args[0].to_type());
                    } else if lower_equals(n, "list") {
                        return Type::list(args[0].to_type());
                    } else if lower_equals(n, "option") {
                        return Type::option(args[0].to_type());
                    } else if lower_equals(n, "pointer") || lower_equals(n, "ptr") {
                        return Type::pointer(args[0].to_type());
                    } else if lower_equals(n, "channel") {
                        return Type::channel(args[0].to_type());
                    }
                } else if k == 2 {
                    if lower_equals(n, "result") {
                        return Type::result(args[0].to_type(), args[1].to_type());
                    }
                }
                Type::Unknown
            },
            TypeSyntax::Unknown => Type::Unknown,
        }
    }
}

impl TypeSyntax {
    /// A structural copy.
    pub fn deep_clone(&self) -> (r: TypeSyntax)
        ensures
            r@ == self@,
        decreases self,
    {
        match self {
            TypeSyntax::Named(n) => TypeSyntax::Named(n.clone()),
            TypeSyntax::Generic { name, args } => TypeSyntax::Generic { name: name.clone(), args: Self::clone_all(args) },
            TypeSyntax::Unknown => TypeSyntax::Unknown,
        }
    }
}

impl TypeSyntax {
    /// A structural copy of a list of written types.
    pub fn clone_all(args: &Vec<TypeSyntax>) -> (r: Vec<TypeSyntax>)
        ensures
            syn_models(r@) == syn_models(args@),
        decreases args,
    {
        let mut out: Vec<TypeSyntax> = Vec::new();
        let mut i: usize = 0;
        while i < args.len()
            invariant
                0 <= i <= args@.len(),
                out@.len() == i,
                forall|j: int| 0 <= j < i ==> (#[trigger] out@[j])@ == args@[j]@,
            decreases args@.len() - i,
        {
            assert(decreases_to!(args => args@[i as int]));
            out.push(args[i].deep_clone());
            i = i + 1;
        }
        proof {
            lemma_syn_models(out@);
            lemma_syn_models(args@);
            assert(syn_models(out@) =~= syn_models(args@));
        }
        out
    }
}

impl Clone for TypeSyntax {
    fn clone(&self) -> (r: Self)
        ensures
            r@ == self@,
    {
        self.deep_clone()
    }
}

/// Appending one more written type to a joined list.
proof fn lemma_join_push(ts: Seq<Syn>, t: Syn)
    ensures
        syn_join(ts.push(t)) == if ts.len() == 0 { syn_rep(t) } else { syn_join(ts) + seq![',', ' '] + syn_rep(t) },
    decreases ts.len(),
{
    let p = ts.push(t);
    if ts.len() == 0 {
        assert(p =~= seq![t]);
        assert(p[0] == t);
    } else if ts.len() == 1 {
        assert(p.drop_first() =~= seq![t]);
        assert(p[0] == ts[0]);
        assert(syn_join(seq![t]) == syn_rep(t));
        assert(syn_join(p) == syn_rep(ts[0]) + seq![',', ' '] + syn_join(p.drop_first()));
    } else {
        lemma_join_push(ts.drop_first(), t);
        assert(p.drop_first() =~= ts.drop_first().push(t));
        assert(p[0] == ts[0]);
        assert(syn_join(p) == syn_rep(ts[0]) + seq![',', ' '] + syn_join(p.drop_first()));
        assert(syn_join(ts) == syn_rep(ts[0]) + seq![',', ' '] + syn_join(ts.drop_first()));
        assert(syn_join(p) =~= syn_join(ts) + seq![',', ' '] + syn_rep(t));
    }
}


// ─── Reading a written type back ────────────────────────────────────

/// The index of the first `c` in `s`, or `s.len()` when there is none.
pub open spec fn first_of(s: Seq<char>, c: char) -> int
    decreases s.len(),
{
    if s.len() == 0 {
        0
    } else if s[0] == c {
        0
    } else {
        1 + first_of(s.drop_first(), c)
    }
}

/// The index of the last `c` in `s`, if any.
pub open spec fn last_of(s: Seq<char>, c: char) -> Option<int>
    decreases s.len(),
{
    if s.len() == 0 {
        None
    } else if s.last() == c {
        Some(s.len() - 1)
    } else {
        last_of(s.drop_last(), c)
    }
}

/// The pieces of `s` between commas, as `str::split(',')` gives them.
pub open spec fn split_commas(s: Seq<char>) -> Seq<Seq<char>>
    decreases s.len(),
{
    if !s.contains(',') {
        seq![s]
    } else {
        let k = first_of(s, ',');
        if 0 <= k < s.len() {
            seq![s.subrange(0, k)] + split_commas(s.subrange(k + 1, s.len() as int))
        } else {
            seq![s]
        }
    }
}

/// The brackets that open and close the arguments of a written type:
/// angle brackets when there are any, else square ones.
pub open spec fn brackets(s: Seq<char>) -> (char, char) {
    if s.contains('<') { ('<', '>') } else { ('[', ']') }
}

/// Where the arguments of a written type start and end: after the first
/// opening bracket, up to the last closing one or the end.
pub open spec fn arg_bounds(s: Seq<char>) -> (int, int) {
    let (o, c) = brackets(s);
    (first_of(s, o) + 1, match last_of(s, c) { Some(k) => k, None => s.len() as int })
}

/// The written type that `s` reads as, as `TypeSyntax::from_string` does.
pub open spec fn parse_syn(s: Seq<char>) -> Syn
    decreases s.len(), 0nat,
{
    if s.len() == 0 {
        Syn::Unknown
    } else if s.contains('<') || s.contains('[') {
        let (lo, hi) = arg_bounds(s);
        Syn::Generic(s.subrange(0, lo - 1), parse_pieces(split_commas(s.subrange(lo, hi)), (s.len() - 1) as nat))
    } else {
        Syn::Named(s)
    }
}

/// Each piece, trimmed, read as a written type (pieces are at most `n`
/// long).
pub open spec fn parse_pieces(ps: Seq<Seq<char>>, n: nat) -> Seq<Syn>
    decreases n, ps.len(),
{
    if ps.len() == 0 {
        Seq::empty()
    } else {
        let t = trim(ps[0]);
        seq![if t.len() <= n { parse_syn(t) } else { Syn::Unknown }] + parse_pieces(ps.drop_first(), n)
    }
}

/// Reading `s` slices within bounds at every level: the last closing
/// bracket does not come before the first opening one.
pub open spec fn parse_ok(s: Seq<char>) -> bool
    decreases s.len(), 0nat,
{
    if s.len() == 0 {
        true
    } else if s.contains('<') || s.contains('[') {
        let (lo, hi) = arg_bounds(s);
        lo <= hi && pieces_ok(split_commas(s.subrange(lo, hi)), (s.len() - 1) as nat)
    } else {
        true
    }
}

pub open spec fn pieces_ok(ps: Seq<Seq<char>>, n: nat) -> bool
    decreases n, ps.len(),
{
    if ps.len() == 0 {
        true
    } else {
        let t = trim(ps[0]);
        (t.len() <= n ==> parse_ok(t)) && pieces_ok(ps.drop_first(), n)
    }
}

proof fn lemma_first_of(s: Seq<char>, c: char, k: int)
    requires
        0 <= k <= s.len(),
        forall|i: int| 0 <= i < k ==> s[i] != c,
        k < s.len() ==> s[k] == c,
    ensures
        first_of(s, c) == k,
    decreases s.len(),
{
    if s.len() > 0 && k > 0 {
        lemma_first_of(s.drop_first(), c, k - 1);
    }
}

proof fn lemma_first_of_range(s: Seq<char>, c: char)
    ensures
        0 <= first_of(s, c) <= s.len(),
        first_of(s, c) < s.len() <==> s.contains(c),
        first_of(s, c) < s.len() ==> s[first_of(s, c)] == c,
        forall|i: int| 0 <= i < first_of(s, c) ==> s[i] != c,
    decreases s.len(),
{
    if s.len() > 0 {
        lemma_first_of_range(s.drop_first(), c);
        if s[0] != c {
            if s.drop_first().contains(c) {
                let i = choose|i: int| 0 <= i < s.drop_first().len() && s.drop_first()[i] == c;
                assert(s[i + 1] == c);
            }
            if s.contains(c) {
                let i = choose|i: int| 0 <= i < s.len() && s[i] == c;
                assert(s.drop_first()[i - 1] == c);
            }
            assert forall|i: int| 0 <= i < first_of(s, c) implies s[i] != c by {
                if i > 0 {
                    assert(s[i] == s.drop_first()[i - 1]);
                }
            }
        }
    }
}

proof fn lemma_last_of_range(s: Seq<char>, c: char)
    ensures
        last_of(s, c) matches Some(k) ==> 0 <= k < s.len() && s[k] == c,
    decreases s.len(),
{
    if s.len() > 0 && s.last() != c {
        lemma_last_of_range(s.drop_last(), c);
    }
}

/// Every piece is no longer than the whole.
proof fn lemma_split_len(s: Seq<char>)
    ensures
        forall|i: int| 0 <= i < split_commas(s).len() ==> (#[trigger] split_commas(s)[i]).len() <= s.len(),
    decreases s.len(),
{
    if s.contains(',') {
        let k = first_of(s, ',');
        lemma_first_of_range(s, ',');
        let rest = s.subrange(k + 1, s.len() as int);
        lemma_split_len(rest);
        assert forall|i: int| 0 <= i < split_commas(s).len() implies (#[trigger] split_commas(s)[i]).len() <= s.len() by {
            if i > 0 {
                assert(split_commas(s)[i] == split_commas(rest)[i - 1]);
            }
        }
    }
}

/// Splitting at a first comma.
proof fn lemma_split_at(s: Seq<char>, k: int)
    requires
        0 <= k < s.len(),
        s[k] == ',',
        forall|i: int| 0 <= i < k ==> s[i] != ',',
    ensures
        split_commas(s) == seq![s.subrange(0, k)] + split_commas(s.subrange(k + 1, s.len() as int)),
{
    lemma_first_of(s, ',', k);
    assert(s.contains(','));
}

/// Splitting with no comma.
proof fn lemma_split_none(s: Seq<char>)
    requires
        forall|i: int| 0 <= i < s.len() ==> s[i] != ',',
    ensures
        split_commas(s) == seq![s],
{
}

proof fn lemma_pieces_cons(p: Seq<char>, rest: Seq<Seq<char>>, n: nat)
    ensures
        parse_pieces(seq![p] + rest, n) == seq![if trim(p).len() <= n { parse_syn(trim(p)) } else { Syn::Unknown }] + parse_pieces(rest, n),
        pieces_ok(seq![p] + rest, n) == ((trim(p).len() <= n ==> parse_ok(trim(p))) && pieces_ok(rest, n)),
{
    assert((seq![p] + rest).drop_first() =~= rest);
    assert((seq![p] + rest)[0] == p);
}

/// The first index of `c` in `s`, or its length.
fn find_first(s: &str, c: char) -> (r: usize)
    ensures
        r == first_of(s@, c),
        r <= s@.len(),
        r < s@.len() <==> s@.contains(c),
{
    proof { lemma_first_of_range(s@, c); }
    let n = s.unicode_len();
    let mut i: usize = 0;
    while i < n
        invariant
            n == s@.len(),
            0 <= i <= n,
            forall|j: int| 0 <= j < i ==> s@[j] != c,
        decreases n - i,
    {
        if s.get_char(i) == c {
            proof { lemma_first_of(s@, c, i as int); }
            return i;
        }
        i = i + 1;
    }
    proof { lemma_first_of(s@, c, n as int); }
    n
}

/// The last index of `c` in `s`, if any.
fn find_last(s: &str, c: char) -> (r: Option<usize>)
    ensures
        match r {
            Some(k) => last_of(s@, c) == Some(k as int),
            None => last_of(s@, c) is None,
        },
{
    let n = s.unicode_len();
    let mut i: usize = n;
    assert(s@.subrange(0, n as int) =~= s@);
    while i > 0
        invariant
            n == s@.len(),
            0 <= i <= n,
            last_of(s@, c) == last_of(s@.subrange(0, i as int), c),
        decreases i,
    {
        let ghost t = s@.subrange(0, i as int);
        if s.get_char(i - 1) == c {
            assert(t.last() == c);
            return Some(i - 1);
        }
        assert(t.drop_last() =~= s@.subrange(0, i - 1));
        i = i - 1;
    }
    None
}

impl TypeSyntax {
    /// Reads a written type: empty is `Unknown`; a name followed by
    /// `<...>` (or `[...]`) is a generic whose comma-separated arguments
    /// are read in turn, trimmed; anything else is a plain name.
    pub fn from_string(s: &str) -> (r: TypeSyntax)
        requires
            parse_ok(s@),
        ensures
            r@ == parse_syn(s@),
        decreases s@.len(), 0nat,
    {
        let n = s.unicode_len();
        if n == 0 {
            return TypeSyntax::Unknown;
        }
        let lt = find_first(s, '<');
        let br = find_first(s, '[');
        if lt < n || br < n {
            let (o, c) = if lt < n { ('<', '>') } else { ('[', ']') };
            let open = find_first(s, o);
            let close = match find_last(s, c) {
                Some(k) => k,
                None => n,
            };
            proof {
                lemma_first_of_range(s@, o);
                lemma_last_of_range(s@, c);
            }
            let name = s.substring_char(0, open).to_string();
            let args_str = s.substring_char(open + 1, close);
            let args = Self::parse_args(args_str, n - 1);
            TypeSyntax::Generic { name, args }
        } else {
            TypeSyntax::Named(s.to_string())
        }
    }

    /// Reads each comma-separated piece of `a`, trimmed.
    fn parse_args(a: &str, bound: usize) -> (r: Vec<TypeSyntax>)
        requires
            a@.len() <= bound,
            pieces_ok(split_commas(a@), bound as nat),
        ensures
            syn_models(r@) == parse_pieces(split_commas(a@), bound as nat),
        decreases bound, 1nat,
    {
        let n = a.unicode_len();
        let mut out: Vec<TypeSyntax> = Vec::new();
        let mut start: usize = 0;
        let mut j: usize = 0;
        assert(a@.subrange(0, n as int) =~= a@);
        proof { lemma_syn_models(out@); }
        while j < n
            invariant
                n == a@.len(),
                n <= bound,
                0 <= start <= j <= n,
                syn_models(out@) + parse_pieces(split_commas(a@.subrange(start as int, n as int)), bound as nat)
                    == parse_pieces(split_commas(a@), bound as nat),
                pieces_ok(split_commas(a@.subrange(start as int, n as int)), bound as nat),
                forall|i: int| start <= i < j ==> a@[i] != ',',
            decreases n - j,
        {
            if a.get_char(j) == ',' {
                let ghost rest = a@.subrange(start as int, n as int);
                proof {
                    assert forall|i: int| 0 <= i < j - start implies rest[i] != ',' by {
                        assert(rest[i] == a@[start + i]);
                    }
                    assert(rest[j - start] == ',');
                    lemma_split_at(rest, j - start);
                    assert(rest.subrange(0, j - start) =~= a@.subrange(start as int, j as int));
                    assert(rest.subrange(j - start + 1, rest.len() as int) =~= a@.subrange(j + 1, n as int));
                    lemma_pieces_cons(a@.subrange(start as int, j as int), split_commas(a@.subrange(j + 1, n as int)), bound as nat);
                }
                let piece = trim_str(a.substring_char(start, j));
                proof { lemma_trim_len(a@.subrange(start as int, j as int)); }
                let t = Self::from_string(piece);
                let ghost old = out@;
                out.push(t);
                proof {
                    lemma_syn_models(out@);
                    lemma_syn_models(old);
                    assert(syn_models(out@) =~= syn_models(old).push(out@[old.len() as int]@));
                }
                start = j + 1;
            }
            j = j + 1;
        }
        let ghost rest = a@.subrange(start as int, n as int);
        proof {
            assert forall|i: int| 0 <= i < rest.len() implies rest[i] != ',' by {
                assert(rest[i] == a@[start + i]);
            }
            lemma_split_none(rest);
            lemma_pieces_cons(rest, Seq::empty(), bound as nat);
            assert(seq![rest] + Seq::<Seq<char>>::empty() =~= seq![rest]);
            lemma_trim_len(rest);
        }
        let piece = trim_str(a.substring_char(start, n));
        let t = Self::from_string(piece);
        let ghost old = out@;
        out.push(t);
        proof {
            lemma_syn_models(out@);
            lemma_syn_models(old);
            assert(syn_models(out@) =~= syn_models(old).push(out@[old.len() as int]@));
        }
        out
    }
}


// ─── Writing a type and reading it back ─────────────────────────────

/// `s` holds no comma.
pub open spec fn comma_free(s: Seq<char>) -> bool {
    forall|i: int| 0 <= i < s.len() ==> s[i] != ','
}

/// A name with no brackets or commas in it.
pub open spec fn clean_name(n: Seq<char>) -> bool {
    forall|i: int| 0 <= i < n.len() ==> n[i] != '<' && n[i] != '>' && n[i] != '[' && n[i] != ']' && n[i] != ','
}

/// A written type whose written form reads back as itself: no `Unknown`,
/// clean names, plain names not empty, generics with at least one
/// argument. Among the arguments of a generic (`inner`), which are read
/// trimmed, no generic has more than one argument (the reading splits
/// arguments at every comma), no name starts with whitespace, and no plain
/// name ends with it.
pub open spec fn reads_back(t: Syn, inner: bool) -> bool
    decreases t,
{
    match t {
        Syn::Unknown => false,
        Syn::Named(n) => n.len() > 0 && clean_name(n) && (inner ==> !is_ws(n[0]) && !is_ws(n.last())),
        Syn::Generic(n, args) => clean_name(n) && (inner && n.len() > 0 ==> !is_ws(n[0]))
            && args.len() >= 1 && (inner ==> args.len() == 1)
            && forall|i: int| 0 <= i < args.len() ==> reads_back(#[trigger] args[i], true),
    }
}

/// The pieces that the written arguments `ts` split into at their commas:
/// the first after `p`, each other after the space of its separator.
pub open spec fn spaced(p: Seq<char>, ts: Seq<Syn>) -> Seq<Seq<char>> {
    Seq::new(ts.len(), |i: int| if i == 0 { p + syn_rep(ts[0]) } else { seq![' '] + syn_rep(ts[i]) })
}

proof fn lemma_trim_clean(r: Seq<char>)
    requires
        r.len() > 0,
        !is_ws(r[0]),
        !is_ws(r.last()),
    ensures
        trim(r) == r,
        trim(seq![' '] + r) == r,
{
    assert(trim_start(r) == r);
    assert(trim_end(r) == r);
    let sp = seq![' '] + r;
    assert(is_ws(sp[0]));
    assert(sp.drop_first() =~= r);
    assert(trim_start(sp) == trim_start(r));
}

proof fn lemma_split_join(p: Seq<char>, ts: Seq<Syn>)
    requires
        ts.len() >= 1,
        comma_free(p),
        forall|i: int| 0 <= i < ts.len() ==> comma_free(#[trigger] syn_rep(ts[i])),
    ensures
        split_commas(p + syn_join(ts)) == spaced(p, ts),
    decreases ts.len(),
{
    let r0 = syn_rep(ts[0]);
    assert(comma_free(syn_rep(ts[0])));
    if ts.len() == 1 {
        assert(p + syn_join(ts) == p + r0);
        lemma_split_none(p + r0);
        assert(spaced(p, ts) =~= seq![p + r0]);
    } else {
        let rest = ts.drop_first();
        let whole = p + syn_join(ts);
        assert(syn_join(ts) == r0 + seq![',', ' '] + syn_join(rest));
        assert(whole =~= (p + r0) + (seq![',', ' '] + syn_join(rest)));
        let k = (p + r0).len() as int;
        assert(whole[k] == ',');
        assert forall|i: int| 0 <= i < k implies whole[i] != ',' by {
            if i < p.len() {
                assert(whole[i] == p[i]);
            } else {
                assert(whole[i] == r0[i - p.len()]);
            }
        }
        lemma_split_at(whole, k);
        assert(whole.subrange(0, k) =~= p + r0);
        assert(whole.subrange(k + 1, whole.len() as int) =~= seq![' '] + syn_join(rest));
        assert(comma_free(seq![' '])) by {
            assert(seq![' '][0] == ' ');
        }
        assert forall|i: int| 0 <= i < rest.len() implies comma_free(#[trigger] syn_rep(rest[i])) by {
            assert(rest[i] == ts[i + 1]);
            assert(comma_free(syn_rep(ts[i + 1])));
        }
        lemma_split_join(seq![' '], rest);
        assert(spaced(p, ts) =~= seq![p + r0] + spaced(seq![' '], rest)) by {
            assert forall|i: int| 0 <= i < spaced(p, ts).len() implies #[trigger] spaced(p, ts)[i] == (seq![p + r0] + spaced(seq![' '], rest))[i] by {
                if i > 0 {
                    assert(rest[i - 1] == ts[i]);
                }
            }
        }
    }
}

proof fn lemma_parse_spaced(p: Seq<char>, ts: Seq<Syn>, n: nat)
    requires
        p.len() == 0 || p == seq![' '],
        forall|i: int| 0 <= i < ts.len() ==> {
            &&& (#[trigger] syn_rep(ts[i])).len() > 0
            &&& !is_ws(syn_rep(ts[i])[0])
            &&& !is_ws(syn_rep(ts[i]).last())
            &&& syn_rep(ts[i]).len() <= n
            &&& parse_syn(syn_rep(ts[i])) == ts[i]
            &&& parse_ok(syn_rep(ts[i]))
        },
    ensures
        parse_pieces(spaced(p, ts), n) == ts,
        pieces_ok(spaced(p, ts), n),
    decreases ts.len(),
{
    if ts.len() == 0 {
        assert(spaced(p, ts) =~= Seq::<Seq<char>>::empty());
    } else {
        let r0 = syn_rep(ts[0]);
        assert(syn_rep(ts[0]).len() > 0);
        let rest = ts.drop_first();
        lemma_trim_clean(r0);
        if p.len() == 0 {
            assert(p + r0 =~= r0);
        }
        assert(trim(p + r0) == r0);
        assert(spaced(p, ts) =~= seq![p + r0] + spaced(seq![' '], rest)) by {
            assert forall|i: int| 0 <= i < spaced(p, ts).len() implies #[trigger] spaced(p, ts)[i] == (seq![p + r0] + spaced(seq![' '], rest))[i] by {
                if i > 0 {
                    assert(rest[i - 1] == ts[i]);
                }
            }
        }
        assert forall|i: int| 0 <= i < rest.len() implies {
            &&& (#[trigger] syn_rep(rest[i])).len() > 0
            &&& !is_ws(syn_rep(rest[i])[0])
            &&& !is_ws(syn_rep(rest[i]).last())
            &&& syn_rep(rest[i]).len() <= n
            &&& parse_syn(syn_rep(rest[i])) == rest[i]
            &&& parse_ok(syn_rep(rest[i]))
        } by {
            assert(rest[i] == ts[i + 1]);
            assert(syn_rep(ts[i + 1]).len() > 0);
        }
        lemma_parse_spaced(seq![' '], rest, n);
        lemma_pieces_cons(p + r0, spaced(seq![' '], rest), n);
        assert(ts =~= seq![ts[0]] + rest);
    }
}

/// Writing a type and reading the text back gives the type again,
/// for every type that `reads_back` describes.
pub proof fn lemma_round_trip(t: Syn, inner: bool)
    requires
        reads_back(t, inner),
    ensures
        parse_ok(syn_rep(t)),
        parse_syn(syn_rep(t)) == t,
        syn_rep(t).len() > 0,
        inner ==> !is_ws(syn_rep(t)[0]),
        inner ==> !is_ws(syn_rep(t).last()),
        inner ==> comma_free(syn_rep(t)),
    decreases t,
{
    match t {
        Syn::Named(n) => {
            assert(!n.contains('<'));
            assert(!n.contains('['));
        },
        Syn::Generic(n, args) => {
            let j = syn_join(args);
            let s = syn_rep(t);
            assert(s == n + seq!['<'] + j + seq!['>']);
            assert forall|i: int| 0 <= i < args.len() implies {
                &&& parse_ok(syn_rep(#[trigger] args[i]))
                &&& parse_syn(syn_rep(args[i])) == args[i]
                &&& syn_rep(args[i]).len() > 0
                &&& !is_ws(syn_rep(args[i])[0])
                &&& !is_ws(syn_rep(args[i]).last())
                &&& comma_free(syn_rep(args[i]))
            } by {
                assert(reads_back(args[i], true));
                lemma_round_trip(args[i], true);
            }
            let nl = n.len() as int;
            assert(s[nl] == '<');
            assert(s.contains('<'));
            assert forall|i: int| 0 <= i < nl implies s[i] != '<' by {
                assert(s[i] == n[i]);
            }
            lemma_first_of(s, '<', nl);
            assert(s.last() == '>');
            assert(last_of(s, '>') == Some(s.len() - 1));
            assert(s.subrange(nl + 1, s.len() - 1) =~= j);
            assert(s.subrange(0, nl) =~= n);
            assert(comma_free(Seq::<char>::empty()));
            lemma_split_join(Seq::<char>::empty(), args);
            assert(Seq::<char>::empty() + j =~= j);
            lemma_split_len(j);
            let m = (s.len() - 1) as nat;
            assert forall|i: int| 0 <= i < args.len() implies {
                &&& (#[trigger] syn_rep(args[i])).len() > 0
                &&& !is_ws(syn_rep(args[i])[0])
                &&& !is_ws(syn_rep(args[i]).last())
                &&& syn_rep(args[i]).len() <= m
                &&& parse_syn(syn_rep(args[i])) == args[i]
                &&& parse_ok(syn_rep(args[i]))
            } by {
                assert(split_commas(j)[i] == spaced(Seq::<char>::empty(), args)[i]);
                assert(split_commas(j)[i].len() <= j.len());
                if i == 0 {
                    assert(spaced(Seq::<char>::empty(), args)[i] =~= syn_rep(args[0]));
                }
            }
            lemma_parse_spaced(Seq::<char>::empty(), args, m);
            if n.len() > 0 {
                assert(s[0] == n[0]);
            } else {
                assert(s[0] == '<');
            }
            if inner {
                assert(args.len() == 1);
                assert(j == syn_rep(args[0]));
                assert forall|i: int| 0 <= i < s.len() implies s[i] != ',' by {
                    if i < nl {
                        assert(s[i] == n[i]);
                    } else if nl < i < s.len() - 1 {
                        assert(s[i] == j[i - nl - 1]);
                    }
                }
            }
        },
        Syn::Unknown => {},
    }
}

} // verus!
