//! The untyped parse tree.
//!
//! The grammar layer recognizes constructs and yields a tree of tagged
//! nodes; the builders then turn nodes into the typed tree.  A leaf node
//! carries the matched token text, an interior node carries child nodes.

use vstd::prelude::*;

verus! {

/// The construct a parse node is tagged with.
#[derive(Debug, Clone, Copy, PartialEq, Eq, Structural)]
pub enum Rule {
    /// A whole document: preamble plus two top-level regions.
    Document,
    /// The version declaration.
    Preamble,
    /// A plan line.
    Plan,
    /// A top-level run of statements.
    Body,
    /// One statement of any kind; used to pick a rule when parsing, never
    /// as the tag of a yielded node.
    Statement,
    /// A test point with its attached YAML blocks.
    Test,
    /// A directive within a test line.
    Directive,
    /// A bail-out line.
    BailOut,
    /// A pragma line.
    Pragma,
    /// A nested stream.
    Subtest,
    /// One YAML diagnostic block.
    YamlBlock,
    /// A line no other construct claims.
    Anything,
    /// Token: the version of a preamble.
    Version,
    /// Token: the first bound of a plan.
    First,
    /// Token: the last bound of a plan.
    Last,
    /// Token: a reason (of a plan, a directive, or a bail-out).
    Reason,
    /// Token: a test's result word.
    ResultWord,
    /// Token: a test's number.
    Number,
    /// Token: a test's description.
    Description,
    /// Token: a directive's key.
    Key,
    /// Token: a pragma's `+` or `-` flag.
    Flag,
    /// Token: a pragma's option identifier.
    OptionName,
    /// Token: a subtest's name.
    Name,
    /// Token: one captured line of a YAML block.
    YamlLine,
}

/// One node of the untyped parse tree.
#[derive(Debug, PartialEq, Eq)]
pub struct Node {
    /// The construct this node stands for.
    pub rule: Rule,
    /// The matched token text; empty on interior nodes.
    pub text: String,
    /// The child nodes; empty on token nodes.
    pub children: Vec<Node>,
}

/// Model of a [`Node`].
#[verifier::ext_equal]
pub struct NodeV {
    pub rule: Rule,
    pub text: Seq<char>,
    pub children: Seq<NodeV>,
}

/// Model of one node.
pub open spec fn node_view(n: Node) -> NodeV
    decreases n,
{
    NodeV { rule: n.rule, text: n.text@, children: nodes_view(n.children@) }
}

/// Model of a sequence of nodes, elementwise.
pub open spec fn nodes_view(s: Seq<Node>) -> Seq<NodeV>
    decreases s,
{
    if s.len() == 0 {
        Seq::empty()
    } else {
        seq![node_view(s[0])] + nodes_view(s.drop_first())
    }
}

impl View for Node {
    type V = NodeV;

    open spec fn view(&self) -> NodeV {
        node_view(*self)
    }
}

/// A token node's model: the tag and its text, no children.
pub open spec fn tok_v(rule: Rule, text: Seq<char>) -> NodeV {
    NodeV { rule, text, children: Seq::empty() }
}

/// An interior node's model: the tag and its children, no text.
pub open spec fn par_v(rule: Rule, children: Seq<NodeV>) -> NodeV {
    NodeV { rule, text: Seq::empty(), children }
}

pub proof fn lemma_nodes_view_len(s: Seq<Node>)
    ensures
        nodes_view(s).len() == s.len(),
    decreases s,
{
    if s.len() > 0 {
        lemma_nodes_view_len(s.drop_first());
    }
}

pub proof fn lemma_nodes_view_index(s: Seq<Node>, i: int)
    requires
        0 <= i < s.len(),
    ensures
        nodes_view(s).len() == s.len(),
        nodes_view(s)[i] == node_view(s[i]),
    decreases s,
{
    lemma_nodes_view_len(s);
    if i > 0 {
        lemma_nodes_view_index(s.drop_first(), i - 1);
    }
}

pub proof fn lemma_nodes_view_push(s: Seq<Node>, x: Node)
    ensures
        nodes_view(s.push(x)) == nodes_view(s).push(node_view(x)),
    decreases s,
{
    lemma_nodes_view_len(s);
    let spx = s.push(x);
    if s.len() == 0 {
        assert(spx[0] == x);
        assert(spx.drop_first() =~= Seq::<Node>::empty());
        assert(nodes_view(Seq::<Node>::empty()) =~= Seq::<NodeV>::empty());
        assert(nodes_view(spx) == seq![node_view(x)] + nodes_view(Seq::<Node>::empty()));
        assert(nodes_view(spx) =~= nodes_view(s).push(node_view(x)));
    } else {
        lemma_nodes_view_push(s.drop_first(), x);
        assert(spx.drop_first() =~= s.drop_first().push(x));
        assert(spx[0] == s[0]);
        assert(nodes_view(spx) == seq![node_view(s[0])] + nodes_view(s.drop_first()).push(
            node_view(x),
        ));
        assert(nodes_view(s) == seq![node_view(s[0])] + nodes_view(s.drop_first()));
        assert(nodes_view(spx) =~= nodes_view(s).push(node_view(x)));
    }
}

/// Prepending a node to a sequence prepends its model.
pub proof fn lemma_nodes_view_insert_front(s: Seq<Node>, x: Node)
    ensures
        nodes_view(s.insert(0, x)) == seq![node_view(x)] + nodes_view(s),
{
    let t = s.insert(0, x);
    assert(t.len() == s.len() + 1);
    assert(t[0] == x);
    assert(t.drop_first() =~= s);
    assert(nodes_view(t) == seq![node_view(t[0])] + nodes_view(t.drop_first()));
}

/// Builds a token node.
pub fn token(rule: Rule, text: String) -> (n: Node)
    ensures
        n@ == tok_v(rule, text@),
{
    let n = Node { rule, text, children: Vec::new() };
    proof {
        assert(nodes_view(Seq::<Node>::empty()) =~= Seq::<NodeV>::empty());
        assert(n@ =~= tok_v(rule, n.text@));
    }
    n
}

/// Builds an interior node.
pub fn parent(rule: Rule, children: Vec<Node>) -> (n: Node)
    ensures
        n@ == par_v(rule, nodes_view(children@)),
{
    let n = Node { rule, text: String::new(), children };
    proof {
        assert(n@ =~= par_v(rule, nodes_view(n.children@)));
    }
    n
}

} // verus!

verus! {

/// A fresh, empty child list.
pub fn no_children() -> (v: Vec<Node>)
    ensures
        nodes_view(v@) == Seq::<NodeV>::empty(),
{
    let v: Vec<Node> = Vec::new();
    proof {
        assert(nodes_view(v@) =~= Seq::<NodeV>::empty());
    }
    v
}

/// Appends a child node, extending the model by its view.
pub fn push_child(v: &mut Vec<Node>, n: Node)
    ensures
        nodes_view(final(v)@) == nodes_view(old(v)@).push(n@),
{
    let ghost o = v@;
    let ghost nv = n@;
    v.push(n);
    proof {
        lemma_nodes_view_push(o, v@.last());
        assert(v@ == o.push(v@.last()));
    }
}

} // verus!

verus! {

/// Concatenating node sequences concatenates their models.
pub proof fn lemma_nodes_view_concat(a: Seq<Node>, b: Seq<Node>)
    ensures
        nodes_view(a + b) == nodes_view(a) + nodes_view(b),
    decreases a,
{
    if a.len() == 0 {
        assert(a + b =~= b);
        assert(nodes_view(a) =~= Seq::<NodeV>::empty());
        assert(nodes_view(a + b) =~= nodes_view(a) + nodes_view(b));
    } else {
        lemma_nodes_view_concat(a.drop_first(), b);
        assert((a + b).len() == a.len() + b.len());
        assert((a + b)[0] == a[0]);
        assert((a + b).drop_first() =~= a.drop_first() + b);
        assert(nodes_view(a + b) == seq![node_view(a[0])] + (nodes_view(a.drop_first())
            + nodes_view(b)));
        assert(nodes_view(a) == seq![node_view(a[0])] + nodes_view(a.drop_first()));
        assert(nodes_view(a + b) =~= nodes_view(a) + nodes_view(b));
    }
}

} // verus!
