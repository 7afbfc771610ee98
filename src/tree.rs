use vstd::prelude::*;
use vstd::string::StringExecFns;

use crate::lex::is_var_name;
use crate::parse::{gate_name, Id};

verus! {

broadcast use vstd::std_specs::vec::group_vec_axioms;

/// The mathematical value of a syntax tree.
pub enum SpecTree {
    Func(Id, Seq<SpecTree>),
    Var(Seq<char>),
}

/// A node of the syntax tree of a circuit expression.
#[derive(Debug, PartialEq, Eq)]
#[allow(inconsistent_fields)]
pub enum Node {
    Func { id: Id, args: Vec<Node> },
    Var { id: String },
}

/// The values of a sequence of nodes, element by element.
pub open spec fn views(s: Seq<Node>) -> Seq<SpecTree>
    decreases s,
{
    if s.len() == 0 {
        Seq::empty()
    } else {
        seq![s[0]@] + views(s.subrange(1, s.len() as int))
    }
}

pub proof fn lemma_views(s: Seq<Node>)
    ensures
        views(s).len() == s.len(),
        forall|i: int| 0 <= i < s.len() ==> #[trigger] views(s)[i] == s[i]@,
    decreases s.len(),
{
    if s.len() > 0 {
        let rest = s.subrange(1, s.len() as int);
        lemma_views(rest);
        assert(views(s) == seq![s[0]@] + views(rest));
        assert forall|i: int| 0 <= i < s.len() implies #[trigger] views(s)[i] == s[i]@ by {
            assert(views(s) == seq![s[0]@] + views(rest));
            if i > 0 {
                assert(rest[i - 1] == s[i]);
                assert(views(s)[i] == views(rest)[i - 1]);
            }
        }
    }
}

impl View for Node {
    type V = SpecTree;

    open spec fn view(&self) -> SpecTree
        decreases self,
    {
        match self {
            Node::Func { id, args } => SpecTree::Func(*id, views(args@)),
            Node::Var { id } => SpecTree::Var(id@),
        }
    }
}

impl SpecTree {
    /// Every gate of the tree has exactly two arguments.
    pub open spec fn wf(self) -> bool
        decreases self,
    {
        match self {
            SpecTree::Func(_, args) => args.len() == 2 && args[0].wf() && args[1].wf(),
            SpecTree::Var(_) => true,
        }
    }

    /// Every gate of the tree is a `Nand` with two arguments.
    pub open spec fn nand_only(self) -> bool
        decreases self,
    {
        match self {
            SpecTree::Func(id, args) => id == Id::Nand && args.len() == 2 && args[0].nand_only()
                && args[1].nand_only(),
            SpecTree::Var(_) => true,
        }
    }
}

/// `Nand(x, y)`.
pub open spec fn nand2(x: SpecTree, y: SpecTree) -> SpecTree {
    SpecTree::Func(Id::Nand, seq![x, y])
}

/// The tree with every gate rewritten, children first, into `Nand` gates:
/// `And(x, y)` becomes `Nand(Nand(x, y), Nand(x, y))` and `Or(x, y)` becomes
/// `Nand(Nand(x, x), Nand(y, y))`. A gate without exactly two arguments has
/// no rewrite and is left as it is.
pub open spec fn nand_of(t: SpecTree) -> SpecTree
    decreases t,
{
    match t {
        SpecTree::Func(id, args) => if args.len() == 2 {
            let x = nand_of(args[0]);
            let y = nand_of(args[1]);
            match id {
                Id::And => nand2(nand2(x, y), nand2(x, y)),
                Id::Or => nand2(nand2(x, x), nand2(y, y)),
                Id::Nand => nand2(x, y),
            }
        } else {
            t
        },
        SpecTree::Var(_) => t,
    }
}

/// The canonical text of a tree: `Name(arg1, arg2, ...)` for a gate, the
/// name for a variable.
pub open spec fn text_of(t: SpecTree) -> Seq<char>
    decreases t,
{
    match t {
        SpecTree::Func(id, args) => gate_name(id) + seq!['('] + args_text(args) + seq![')'],
        SpecTree::Var(x) => x,
    }
}

/// The texts of `args`, separated by `", "`.
pub open spec fn args_text(args: Seq<SpecTree>) -> Seq<char>
    decreases args,
{
    if args.len() == 0 {
        Seq::empty()
    } else if args.len() == 1 {
        text_of(args[0])
    } else {
        args_text(args.subrange(0, args.len() - 1)) + seq![',', ' '] + text_of(
            args[args.len() - 1],
        )
    }
}

impl Clone for Node {
    fn clone(&self) -> (r: Node)
        ensures
            r@ == self@,
        decreases self,
    {
        match self {
            Node::Var { id } => Node::Var { id: id.clone() },
            Node::Func { id, args } => {
                let mut copy: Vec<Node> = Vec::new();
                let mut i: usize = 0;
                while i < args.len()
                    invariant
                        self is Func,
                        self->args == *args,
                        i <= args.len(),
                        copy.len() == i,
                        forall|j: int| 0 <= j < i ==> #[trigger] copy@[j]@ == args@[j]@,
                    decreases args.len() - i,
                {
                    proof {
                        assert(decreases_to!(self => self->args));
                        assert(decreases_to!(*args => args[i as int]));
                    }
                    let c = args[i].clone();
                    copy.push(c);
                    i += 1;
                }
                proof {
                    lemma_views(copy@);
                    lemma_views(args@);
                    assert(views(copy@) =~= views(args@));
                }
                Node::Func { id: *id, args: copy }
            },
        }
    }
}

/// `Nand(x, y)` as a node.
fn nand_node(x: Node, y: Node) -> (r: Node)
    ensures
        r@ == nand2(x@, y@),
{
    let mut args: Vec<Node> = Vec::new();
    args.push(x);
    args.push(y);
    proof {
        lemma_views(args@);
        assert(views(args@) =~= seq![x@, y@]);
    }
    Node::Func { id: Id::Nand, args }
}

impl Node {
    /// The canonical text of the tree, see `text_of`.
    pub fn to_string(&self) -> (r: String)
        ensures
            r@ == text_of(self@),
        decreases self,
    {
        match self {
            Node::Var { id } => id.clone(),
            Node::Func { id, args } => {
                let ghost vs = views(args@);
                proof {
                    lemma_views(args@);
                }
                let mut s = id.to_string();
                s.append("(");
                let ghost head = s@;
                let mut i: usize = 0;
                while i < args.len()
                    invariant
                        self is Func,
                        self->args == *args,
                        vs == views(args@),
                        vs.len() == args.len(),
                        forall|k: int| 0 <= k < args.len() ==> #[trigger] vs[k] == args@[k]@,
                        i <= args.len(),
                        s@ == head + args_text(vs.take(i as int)),
                    decreases args.len() - i,
                {
                    proof {
                        assert(decreases_to!(self => self->args));
                        assert(decreases_to!(*args => args[i as int]));
                        assert(vs.take(i + 1).subrange(0, i as int) =~= vs.take(i as int));
                    }
                    if i > 0 {
                        s.append(", ");
                    }
                    let a = args[i].to_string();
                    s.append(a.as_str());
                    proof {
                        reveal_strlit(", ");
                        if i == 0 {
                            assert(vs.take(0) =~= Seq::<SpecTree>::empty());
                        }
                        assert(s@ =~= head + args_text(vs.take(i + 1)));
                    }
                    i += 1;
                }
                s.append(")");
                proof {
                    reveal_strlit("(");
                    reveal_strlit(")");
                    assert(vs.take(args.len() as int) =~= vs);
                    assert(s@ =~= text_of(self@));
                }
                s
            },
        }
    }

    /// Rewrites the tree in place into its `Nand`-only form.
    pub fn to_nand(&mut self)
        requires
            old(self)@.wf(),
        ensures
            final(self)@ == nand_of(old(self)@),
    {
        let mut t = Node::Var { id: String::new() };
        std::mem::swap(self, &mut t);
        *self = t.into_nand();
    }

    /// The `Nand`-only form of the tree.
    fn into_nand(self) -> (r: Node)
        requires
            self@.wf(),
        ensures
            r@ == nand_of(self@),
        decreases self,
    {
        match self {
            Node::Var { id } => Node::Var { id },
            Node::Func { id, args } => {
                let ghost old_args = args@;
                proof {
                    lemma_views(args@);
                }
                let mut args = args;
                let b = args.pop().unwrap();
                let a = args.pop().unwrap();
                proof {
                    assert(a == old_args[0]);
                    assert(b == old_args[1]);
                }
                let x = a.into_nand();
                let y = b.into_nand();
                match id {
                    Id::And => {
                        let inner = nand_node(x.clone(), y.clone());
                        nand_node(inner, nand_node(x, y))
                    },
                    Id::Or => {
                        let left = nand_node(x.clone(), x);
                        let right = nand_node(y.clone(), y);
                        nand_node(left, right)
                    },
                    Id::Nand => nand_node(x, y),
                }
            },
        }
    }
}

impl SpecTree {
    /// Every gate has two arguments and every variable a well-formed name.
    pub open spec fn valid(self) -> bool
        decreases self,
    {
        match self {
            SpecTree::Func(_, args) => args.len() == 2 && args[0].valid() && args[1].valid(),
            SpecTree::Var(x) => is_var_name(x),
        }
    }
}

/// A valid tree is well formed.
pub proof fn lemma_valid_wf(t: SpecTree)
    requires
        t.valid(),
    ensures
        t.wf(),
    decreases t,
{
    if let SpecTree::Func(_, args) = t {
        lemma_valid_wf(args[0]);
        lemma_valid_wf(args[1]);
    }
}

/// The rewrite keeps every gate binary and every variable as it was, and
/// leaves only `Nand` gates.
pub proof fn lemma_nand_of_shape(t: SpecTree)
    requires
        t.wf(),
    ensures
        nand_of(t).wf(),
        nand_of(t).nand_only(),
        t.valid() ==> nand_of(t).valid(),
        t is Func <==> nand_of(t) is Func,
    decreases t,
{
    if let SpecTree::Func(_, args) = t {
        lemma_nand_of_shape(args[0]);
        lemma_nand_of_shape(args[1]);
        let x = nand_of(args[0]);
        let y = nand_of(args[1]);
        lemma_nand2_shape(x, y);
        lemma_nand2_shape(x, x);
        lemma_nand2_shape(y, y);
        lemma_nand2_shape(nand2(x, y), nand2(x, y));
        lemma_nand2_shape(nand2(x, x), nand2(y, y));
    }
}

proof fn lemma_nand2_shape(x: SpecTree, y: SpecTree)
    ensures
        x.wf() && y.wf() ==> nand2(x, y).wf(),
        x.valid() && y.valid() ==> nand2(x, y).valid(),
        x.nand_only() && y.nand_only() ==> nand2(x, y).nand_only(),
{
    let args = seq![x, y];
    assert(args[0] == x && args[1] == y);
}

/// A tree whose gates are all binary `Nand` gates is its own `Nand`-only form.
pub proof fn lemma_nand_only_fixed(t: SpecTree)
    requires
        t.nand_only(),
    ensures
        nand_of(t) == t,
    decreases t,
{
    if let SpecTree::Func(id, args) = t {
        lemma_nand_only_fixed(args[0]);
        lemma_nand_only_fixed(args[1]);
        assert(seq![args[0], args[1]] =~= args);
    }
}

/// Rewriting twice gives what rewriting once gives.
pub proof fn lemma_to_nand_idempotent(t: SpecTree)
    requires
        t.wf(),
    ensures
        nand_of(nand_of(t)) == nand_of(t),
{
    lemma_nand_of_shape(t);
    lemma_nand_only_fixed(nand_of(t));
}

/// A variable is its own `Nand`-only form.
pub proof fn lemma_var_unchanged(x: Seq<char>)
    ensures
        nand_of(SpecTree::Var(x)) == SpecTree::Var(x),
{
}

} // verus!
