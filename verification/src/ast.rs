use vstd::prelude::*;

use crate::types::BType;

verus! {

/// A node of the syntax tree.
#[derive(Debug)]
pub enum ASTNode {
    Program(Program),
    ExprStmt(Box<ExprStmt>),
    CallExpr(Box<CallExpr>),
    StringLit(Box<StringLit>),
    NumLit(Box<NumLit>),
    BoolLit(Box<BoolLit>),
    Ident(Box<Ident>),
    BlockStmt(Box<BlockStmt>),
    IfStmt(Box<IfStmt>),
    WhileStmt(Box<WhileStmt>),
    ForStmt(Box<ForStmt>),
    VarDecl(Box<VarDecl>),
    IdbDecl(Box<IdbDecl>),
    Assign(Box<Assign>),
    FnDecl(Box<FnDecl>),
    ReturnStmt(Box<ReturnStmt>),
    BreakStmt,
    ContinueStmt,
    BinExpr(Box<BinExpr>),
    UnaryExpr(Box<UnaryExpr>),
    DotExpr(Box<DotExpr>),
    IndexExpr(Box<IndexExpr>),
    ArrayLit(Box<ArrayLit>),
}

#[derive(Debug)]
pub struct Program {
    pub stmts: Vec<ASTNode>,
}

#[derive(Debug)]
pub struct ExprStmt {
    pub expr: Box<ASTNode>,
}

#[derive(Debug)]
pub struct CallExpr {
    pub name: String,
    pub args: Vec<ASTNode>,
}

#[derive(Debug)]
pub struct StringLit {
    pub value: String,
}

#[derive(Debug)]
pub struct NumLit {
    pub value: String,
}

#[derive(Debug)]
pub struct BoolLit {
    pub value: bool,
}

#[derive(Debug)]
pub struct Ident {
    pub name: String,
}

#[derive(Debug)]
pub struct BlockStmt {
    pub body: Vec<ASTNode>,
}

#[derive(Debug)]
pub struct IfStmt {
    pub cond: Box<ASTNode>,
    pub body: Box<ASTNode>,
    pub else_body: Option<Box<ASTNode>>,
}

#[derive(Debug)]
pub struct WhileStmt {
    pub cond: Box<ASTNode>,
    pub body: Box<ASTNode>,
}

#[derive(Debug)]
pub struct ForStmt {
    pub var: String,
    pub iter: Box<ASTNode>,
    pub body: Box<ASTNode>,
}

#[derive(Debug)]
pub struct VarDecl {
    pub name: String,
    pub var_type: BType,
    pub value: Box<ASTNode>,
    pub has_type: bool,
    pub is_bel: bool,
    pub is_ster: bool,
}

#[derive(Debug)]
pub struct IdbDecl {
    pub id: i64,
    pub value: Box<ASTNode>,
}

#[derive(Debug)]
pub struct Assign {
    pub target: Box<ASTNode>,
    pub value: Box<ASTNode>,
}

#[derive(Debug, Clone)]
pub struct TypedParam {
    pub name: String,
    pub param_type: BType,
}

#[derive(Debug)]
pub struct FnDecl {
    pub name: String,
    pub params: Vec<TypedParam>,
    pub return_type: BType,
    pub has_ret_type: bool,
    pub body: Box<ASTNode>,
}

#[derive(Debug)]
pub struct ReturnStmt {
    pub value: Option<Box<ASTNode>>,
}

#[derive(Debug)]
pub struct BinExpr {
    pub op: String,
    pub left: Box<ASTNode>,
    pub right: Box<ASTNode>,
}

#[derive(Debug)]
pub struct UnaryExpr {
    pub op: String,
    pub expr: Box<ASTNode>,
}

#[derive(Debug)]
pub struct DotExpr {
    pub left: Box<ASTNode>,
    pub right: String,
}

#[derive(Debug)]
pub struct IndexExpr {
    pub obj: Box<ASTNode>,
    pub index: Box<ASTNode>,
}

#[derive(Debug)]
pub struct ArrayLit {
    pub elems: Vec<ASTNode>,
}

/// The tree a node stands for, with names and texts as character sequences.
pub enum Tree {
    Program(Seq<Tree>),
    ExprStmt(Box<Tree>),
    CallExpr { name: Seq<char>, args: Seq<Tree> },
    StringLit(Seq<char>),
    NumLit(Seq<char>),
    BoolLit(bool),
    Ident(Seq<char>),
    BlockStmt(Seq<Tree>),
    IfStmt { cond: Box<Tree>, body: Box<Tree>, else_body: Option<Box<Tree>> },
    WhileStmt { cond: Box<Tree>, body: Box<Tree> },
    ForStmt { var: Seq<char>, iter: Box<Tree>, body: Box<Tree> },
    VarDecl {
        name: Seq<char>,
        var_type: BType,
        value: Box<Tree>,
        has_type: bool,
        is_bel: bool,
        is_ster: bool,
    },
    IdbDecl { id: i64, value: Box<Tree> },
    Assign { target: Box<Tree>, value: Box<Tree> },
    FnDecl {
        name: Seq<char>,
        params: Seq<(Seq<char>, BType)>,
        return_type: BType,
        has_ret_type: bool,
        body: Box<Tree>,
    },
    ReturnStmt { value: Option<Box<Tree>> },
    BreakStmt,
    ContinueStmt,
    BinExpr { op: Seq<char>, left: Box<Tree>, right: Box<Tree> },
    UnaryExpr { op: Seq<char>, expr: Box<Tree> },
    DotExpr { left: Box<Tree>, right: Seq<char> },
    IndexExpr { obj: Box<Tree>, index: Box<Tree> },
    ArrayLit(Seq<Tree>),
}

/// The name and type of a parameter.
pub open spec fn param_view(p: TypedParam) -> (Seq<char>, BType) {
    (p.name@, p.param_type)
}

pub open spec fn params_view(ps: Seq<TypedParam>) -> Seq<(Seq<char>, BType)> {
    ps.map_values(|p: TypedParam| param_view(p))
}

/// The tree of a node.
pub open spec fn tree_of(n: ASTNode) -> Tree
    decreases n,
{
    match n {
        ASTNode::Program(p) => Tree::Program(trees_of(p.stmts@)),
        ASTNode::ExprStmt(e) => Tree::ExprStmt(Box::new(tree_of(*e.expr))),
        ASTNode::CallExpr(c) => Tree::CallExpr { name: c.name@, args: trees_of(c.args@) },
        ASTNode::StringLit(l) => Tree::StringLit(l.value@),
        ASTNode::NumLit(l) => Tree::NumLit(l.value@),
        ASTNode::BoolLit(l) => Tree::BoolLit(l.value),
        ASTNode::Ident(i) => Tree::Ident(i.name@),
        ASTNode::BlockStmt(b) => Tree::BlockStmt(trees_of(b.body@)),
        ASTNode::IfStmt(i) => Tree::IfStmt {
            cond: Box::new(tree_of(*i.cond)),
            body: Box::new(tree_of(*i.body)),
            else_body: match i.else_body {
                Some(e) => Some(Box::new(tree_of(*e))),
                None => None,
            },
        },
        ASTNode::WhileStmt(w) => Tree::WhileStmt {
            cond: Box::new(tree_of(*w.cond)),
            body: Box::new(tree_of(*w.body)),
        },
        ASTNode::ForStmt(f) => Tree::ForStmt {
            var: f.var@,
            iter: Box::new(tree_of(*f.iter)),
            body: Box::new(tree_of(*f.body)),
        },
        ASTNode::VarDecl(v) => Tree::VarDecl {
            name: v.name@,
            var_type: v.var_type,
            value: Box::new(tree_of(*v.value)),
            has_type: v.has_type,
            is_bel: v.is_bel,
            is_ster: v.is_ster,
        },
        ASTNode::IdbDecl(d) => Tree::IdbDecl { id: d.id, value: Box::new(tree_of(*d.value)) },
        ASTNode::Assign(a) => Tree::Assign {
            target: Box::new(tree_of(*a.target)),
            value: Box::new(tree_of(*a.value)),
        },
        ASTNode::FnDecl(f) => Tree::FnDecl {
            name: f.name@,
            params: params_view(f.params@),
            return_type: f.return_type,
            has_ret_type: f.has_ret_type,
            body: Box::new(tree_of(*f.body)),
        },
        ASTNode::ReturnStmt(r) => Tree::ReturnStmt {
            value: match r.value {
                Some(v) => Some(Box::new(tree_of(*v))),
                None => None,
            },
        },
        ASTNode::BreakStmt => Tree::BreakStmt,
        ASTNode::ContinueStmt => Tree::ContinueStmt,
        ASTNode::BinExpr(b) => Tree::BinExpr {
            op: b.op@,
            left: Box::new(tree_of(*b.left)),
            right: Box::new(tree_of(*b.right)),
        },
        ASTNode::UnaryExpr(u) => Tree::UnaryExpr { op: u.op@, expr: Box::new(tree_of(*u.expr)) },
        ASTNode::DotExpr(d) => Tree::DotExpr { left: Box::new(tree_of(*d.left)), right: d.right@ },
        ASTNode::IndexExpr(i) => Tree::IndexExpr {
            obj: Box::new(tree_of(*i.obj)),
            index: Box::new(tree_of(*i.index)),
        },
        ASTNode::ArrayLit(a) => Tree::ArrayLit(trees_of(a.elems@)),
    }
}

/// The trees of a sequence of nodes.
pub open spec fn trees_of(s: Seq<ASTNode>) -> Seq<Tree>
    decreases s,
{
    if s.len() == 0 {
        Seq::empty()
    } else {
        trees_of(s.subrange(0, s.len() - 1)).push(tree_of(s[s.len() - 1]))
    }
}

/// The trees of a sequence of nodes are the trees of its elements.
pub proof fn lemma_trees_of(s: Seq<ASTNode>)
    ensures
        trees_of(s).len() == s.len(),
        forall|i: int| 0 <= i < s.len() ==> #[trigger] trees_of(s)[i] == tree_of(s[i]),
    decreases s.len(),
{
    if s.len() > 0 {
        lemma_trees_of(s.subrange(0, s.len() - 1));
    }
}

/// Appending a node appends its tree.
pub proof fn lemma_trees_of_push(s: Seq<ASTNode>, n: ASTNode)
    ensures
        trees_of(s.push(n)) == trees_of(s).push(tree_of(n)),
{
    assert(s.push(n).subrange(0, s.len() as int) =~= s);
}

/// Two sequences of nodes with the same trees, element by element, have the
/// same trees.
pub proof fn lemma_trees_of_pointwise(a: Seq<ASTNode>, b: Seq<ASTNode>)
    requires
        a.len() == b.len(),
        forall|i: int| 0 <= i < a.len() ==> tree_of(#[trigger] a[i]) == tree_of(b[i]),
    ensures
        trees_of(a) == trees_of(b),
{
    lemma_trees_of(a);
    lemma_trees_of(b);
    assert(trees_of(a) =~= trees_of(b));
}

impl View for ASTNode {
    type V = Tree;

    open spec fn view(&self) -> Tree {
        tree_of(*self)
    }
}

impl View for Program {
    type V = Seq<Tree>;

    open spec fn view(&self) -> Seq<Tree> {
        trees_of(self.stmts@)
    }
}

impl ASTNode {
    /// A copy of this node and everything below it.
    pub fn deep_copy(&self) -> (r: ASTNode)
        ensures
            r@ == self@,
        decreases self,
    {
        match self {
            ASTNode::Program(p) => ASTNode::Program(Program { stmts: copy_nodes(&p.stmts) }),
            ASTNode::ExprStmt(e) => ASTNode::ExprStmt(
                Box::new(ExprStmt { expr: Box::new(e.expr.deep_copy()) }),
            ),
            ASTNode::CallExpr(c) => ASTNode::CallExpr(
                Box::new(CallExpr { name: c.name.clone(), args: copy_nodes(&c.args) }),
            ),
            ASTNode::StringLit(l) => ASTNode::StringLit(
                Box::new(StringLit { value: l.value.clone() }),
            ),
            ASTNode::NumLit(l) => ASTNode::NumLit(Box::new(NumLit { value: l.value.clone() })),
            ASTNode::BoolLit(l) => ASTNode::BoolLit(Box::new(BoolLit { value: l.value })),
            ASTNode::Ident(i) => ASTNode::Ident(Box::new(Ident { name: i.name.clone() })),
            ASTNode::BlockStmt(b) => ASTNode::BlockStmt(
                Box::new(BlockStmt { body: copy_nodes(&b.body) }),
            ),
            ASTNode::IfStmt(i) => {
                let else_body = match &i.else_body {
                    Some(e) => Some(Box::new(e.deep_copy())),
                    None => None,
                };
                ASTNode::IfStmt(
                    Box::new(
                        IfStmt {
                            cond: Box::new(i.cond.deep_copy()),
                            body: Box::new(i.body.deep_copy()),
                            else_body,
                        },
                    ),
                )
            },
            ASTNode::WhileStmt(w) => ASTNode::WhileStmt(
                Box::new(
                    WhileStmt {
                        cond: Box::new(w.cond.deep_copy()),
                        body: Box::new(w.body.deep_copy()),
                    },
                ),
            ),
            ASTNode::ForStmt(f) => ASTNode::ForStmt(
                Box::new(
                    ForStmt {
                        var: f.var.clone(),
                        iter: Box::new(f.iter.deep_copy()),
                        body: Box::new(f.body.deep_copy()),
                    },
                ),
            ),
            ASTNode::VarDecl(v) => ASTNode::VarDecl(
                Box::new(
                    VarDecl {
                        name: v.name.clone(),
                        var_type: v.var_type,
                        value: Box::new(v.value.deep_copy()),
                        has_type: v.has_type,
                        is_bel: v.is_bel,
                        is_ster: v.is_ster,
                    },
                ),
            ),
            ASTNode::IdbDecl(d) => ASTNode::IdbDecl(
                Box::new(IdbDecl { id: d.id, value: Box::new(d.value.deep_copy()) }),
            ),
            ASTNode::Assign(a) => ASTNode::Assign(
                Box::new(
                    Assign {
                        target: Box::new(a.target.deep_copy()),
                        value: Box::new(a.value.deep_copy()),
                    },
                ),
            ),
            ASTNode::FnDecl(f) => ASTNode::FnDecl(
                Box::new(
                    FnDecl {
                        name: f.name.clone(),
                        params: copy_params(&f.params),
                        return_type: f.return_type,
                        has_ret_type: f.has_ret_type,
                        body: Box::new(f.body.deep_copy()),
                    },
                ),
            ),
            ASTNode::ReturnStmt(r) => {
                let value = match &r.value {
                    Some(v) => Some(Box::new(v.deep_copy())),
                    None => None,
                };
                ASTNode::ReturnStmt(Box::new(ReturnStmt { value }))
            },
            ASTNode::BreakStmt => ASTNode::BreakStmt,
            ASTNode::ContinueStmt => ASTNode::ContinueStmt,
            ASTNode::BinExpr(b) => ASTNode::BinExpr(
                Box::new(
                    BinExpr {
                        op: b.op.clone(),
                        left: Box::new(b.left.deep_copy()),
                        right: Box::new(b.right.deep_copy()),
                    },
                ),
            ),
            ASTNode::UnaryExpr(u) => ASTNode::UnaryExpr(
                Box::new(UnaryExpr { op: u.op.clone(), expr: Box::new(u.expr.deep_copy()) }),
            ),
            ASTNode::DotExpr(d) => ASTNode::DotExpr(
                Box::new(DotExpr { left: Box::new(d.left.deep_copy()), right: d.right.clone() }),
            ),
            ASTNode::IndexExpr(i) => ASTNode::IndexExpr(
                Box::new(
                    IndexExpr {
                        obj: Box::new(i.obj.deep_copy()),
                        index: Box::new(i.index.deep_copy()),
                    },
                ),
            ),
            ASTNode::ArrayLit(a) => ASTNode::ArrayLit(
                Box::new(ArrayLit { elems: copy_nodes(&a.elems) }),
            ),
        }
    }
}

/// Copies of the nodes of a sequence, in order.
fn copy_nodes(v: &Vec<ASTNode>) -> (r: Vec<ASTNode>)
    ensures
        trees_of(r@) == trees_of(v@),
    decreases v,
{
    let mut r: Vec<ASTNode> = Vec::new();
    let mut i: usize = 0;
    while i < v.len()
        invariant
            i <= v.len(),
            r@.len() == i,
            forall|j: int| 0 <= j < i ==> tree_of(#[trigger] r@[j]) == tree_of(v@[j]),
        decreases v.len() - i,
    {
        assert(decreases_to!(v => v@[i as int]));
        r.push(v[i].deep_copy());
        i += 1;
    }
    proof {
        lemma_trees_of_pointwise(r@, v@);
    }
    r
}

/// Copies of a list of parameters.
fn copy_params(v: &Vec<TypedParam>) -> (r: Vec<TypedParam>)
    ensures
        params_view(r@) == params_view(v@),
{
    let mut r: Vec<TypedParam> = Vec::new();
    let mut i: usize = 0;
    while i < v.len()
        invariant
            i <= v.len(),
            r@.len() == i,
            forall|j: int| 0 <= j < i ==> param_view(#[trigger] r@[j]) == param_view(v@[j]),
        decreases v.len() - i,
    {
        r.push(TypedParam { name: v[i].name.clone(), param_type: v[i].param_type });
        i += 1;
    }
    assert(params_view(r@) =~= params_view(v@));
    r
}

impl Clone for ASTNode {
    /// A copy of this node and everything below it.
    fn clone(&self) -> (r: Self)
        ensures
            r@ == self@,
    {
        self.deep_copy()
    }
}

impl Clone for Program {
    /// A copy of this node and everything below it.
    fn clone(&self) -> (r: Self)
        ensures
            r@ == self@,
    {
        Program { stmts: copy_nodes(&self.stmts) }
    }
}

impl Clone for ExprStmt {
    /// A copy of this node and everything below it.
    fn clone(&self) -> (r: Self)
        ensures
            ASTNode::ExprStmt(Box::new(r))@ == ASTNode::ExprStmt(Box::new(*self))@,
    {
        ExprStmt { expr: Box::new(self.expr.deep_copy()) }
    }
}

impl Clone for CallExpr {
    /// A copy of this node and everything below it.
    fn clone(&self) -> (r: Self)
        ensures
            ASTNode::CallExpr(Box::new(r))@ == ASTNode::CallExpr(Box::new(*self))@,
    {
        CallExpr { name: self.name.clone(), args: copy_nodes(&self.args) }
    }
}

impl Clone for StringLit {
    /// A copy of this node and everything below it.
    fn clone(&self) -> (r: Self)
        ensures
            ASTNode::StringLit(Box::new(r))@ == ASTNode::StringLit(Box::new(*self))@,
    {
        StringLit { value: self.value.clone() }
    }
}

impl Clone for NumLit {
    /// A copy of this node and everything below it.
    fn clone(&self) -> (r: Self)
        ensures
            ASTNode::NumLit(Box::new(r))@ == ASTNode::NumLit(Box::new(*self))@,
    {
        NumLit { value: self.value.clone() }
    }
}

impl Clone for BoolLit {
    /// A copy of this node and everything below it.
    fn clone(&self) -> (r: Self)
        ensures
            ASTNode::BoolLit(Box::new(r))@ == ASTNode::BoolLit(Box::new(*self))@,
    {
        BoolLit { value: self.value }
    }
}

impl Clone for Ident {
    /// A copy of this node and everything below it.
    fn clone(&self) -> (r: Self)
        ensures
            ASTNode::Ident(Box::new(r))@ == ASTNode::Ident(Box::new(*self))@,
    {
        Ident { name: self.name.clone() }
    }
}

impl Clone for BlockStmt {
    /// A copy of this node and everything below it.
    fn clone(&self) -> (r: Self)
        ensures
            ASTNode::BlockStmt(Box::new(r))@ == ASTNode::BlockStmt(Box::new(*self))@,
    {
        BlockStmt { body: copy_nodes(&self.body) }
    }
}

impl Clone for IfStmt {
    /// A copy of this node and everything below it.
    fn clone(&self) -> (r: Self)
        ensures
            ASTNode::IfStmt(Box::new(r))@ == ASTNode::IfStmt(Box::new(*self))@,
    {
        let else_body = match &self.else_body {
            Some(e) => Some(Box::new(e.deep_copy())),
            None => None,
        };
        IfStmt { cond: Box::new(self.cond.deep_copy()), body: Box::new(self.body.deep_copy()), else_body }
    }
}

impl Clone for WhileStmt {
    /// A copy of this node and everything below it.
    fn clone(&self) -> (r: Self)
        ensures
            ASTNode::WhileStmt(Box::new(r))@ == ASTNode::WhileStmt(Box::new(*self))@,
    {
        WhileStmt { cond: Box::new(self.cond.deep_copy()), body: Box::new(self.body.deep_copy()) }
    }
}

impl Clone for ForStmt {
    /// A copy of this node and everything below it.
    fn clone(&self) -> (r: Self)
        ensures
            ASTNode::ForStmt(Box::new(r))@ == ASTNode::ForStmt(Box::new(*self))@,
    {
        ForStmt { var: self.var.clone(), iter: Box::new(self.iter.deep_copy()), body: Box::new(self.body.deep_copy()) }
    }
}

impl Clone for VarDecl {
    /// A copy of this node and everything below it.
    fn clone(&self) -> (r: Self)
        ensures
            ASTNode::VarDecl(Box::new(r))@ == ASTNode::VarDecl(Box::new(*self))@,
    {
        VarDecl { name: self.name.clone(), var_type: self.var_type, value: Box::new(self.value.deep_copy()), has_type: self.has_type, is_bel: self.is_bel, is_ster: self.is_ster }
    }
}

impl Clone for IdbDecl {
    /// A copy of this node and everything below it.
    fn clone(&self) -> (r: Self)
        ensures
            ASTNode::IdbDecl(Box::new(r))@ == ASTNode::IdbDecl(Box::new(*self))@,
    {
        IdbDecl { id: self.id, value: Box::new(self.value.deep_copy()) }
    }
}

impl Clone for Assign {
    /// A copy of this node and everything below it.
    fn clone(&self) -> (r: Self)
        ensures
            ASTNode::Assign(Box::new(r))@ == ASTNode::Assign(Box::new(*self))@,
    {
        Assign { target: Box::new(self.target.deep_copy()), value: Box::new(self.value.deep_copy()) }
    }
}

impl Clone for FnDecl {
    /// A copy of this node and everything below it.
    fn clone(&self) -> (r: Self)
        ensures
            ASTNode::FnDecl(Box::new(r))@ == ASTNode::FnDecl(Box::new(*self))@,
    {
        FnDecl { name: self.name.clone(), params: copy_params(&self.params), return_type: self.return_type, has_ret_type: self.has_ret_type, body: Box::new(self.body.deep_copy()) }
    }
}

impl Clone for ReturnStmt {
    /// A copy of this node and everything below it.
    fn clone(&self) -> (r: Self)
        ensures
            ASTNode::ReturnStmt(Box::new(r))@ == ASTNode::ReturnStmt(Box::new(*self))@,
    {
        let value = match &self.value {
            Some(e) => Some(Box::new(e.deep_copy())),
            None => None,
        };
        ReturnStmt { value }
    }
}

impl Clone for BinExpr {
    /// A copy of this node and everything below it.
    fn clone(&self) -> (r: Self)
        ensures
            ASTNode::BinExpr(Box::new(r))@ == ASTNode::BinExpr(Box::new(*self))@,
    {
        BinExpr { op: self.op.clone(), left: Box::new(self.left.deep_copy()), right: Box::new(self.right.deep_copy()) }
    }
}

impl Clone for UnaryExpr {
    /// A copy of this node and everything below it.
    fn clone(&self) -> (r: Self)
        ensures
            ASTNode::UnaryExpr(Box::new(r))@ == ASTNode::UnaryExpr(Box::new(*self))@,
    {
        UnaryExpr { op: self.op.clone(), expr: Box::new(self.expr.deep_copy()) }
    }
}

impl Clone for DotExpr {
    /// A copy of this node and everything below it.
    fn clone(&self) -> (r: Self)
        ensures
            ASTNode::DotExpr(Box::new(r))@ == ASTNode::DotExpr(Box::new(*self))@,
    {
        DotExpr { left: Box::new(self.left.deep_copy()), right: self.right.clone() }
    }
}

impl Clone for IndexExpr {
    /// A copy of this node and everything below it.
    fn clone(&self) -> (r: Self)
        ensures
            ASTNode::IndexExpr(Box::new(r))@ == ASTNode::IndexExpr(Box::new(*self))@,
    {
        IndexExpr { obj: Box::new(self.obj.deep_copy()), index: Box::new(self.index.deep_copy()) }
    }
}

impl Clone for ArrayLit {
    /// A copy of this node and everything below it.
    fn clone(&self) -> (r: Self)
        ensures
            ASTNode::ArrayLit(Box::new(r))@ == ASTNode::ArrayLit(Box::new(*self))@,
    {
        ArrayLit { elems: copy_nodes(&self.elems) }
    }
}

} // verus!
