use vstd::prelude::*;

verus! {

/// The index that stands for "no node" or "no value".
pub const ABSENT: usize = usize::MAX;

/// A handle into the node arena; the default handle refers to no node.
#[derive(Clone, Copy, Debug, PartialEq, Eq, Structural)]
pub struct NodeRef(pub usize);

/// A handle into the value arena; the default handle refers to no value.
#[derive(Clone, Copy, Debug, PartialEq, Eq, Structural)]
pub struct ValueRef(pub usize);

impl Default for NodeRef {
    fn default() -> (r: NodeRef)
        ensures
            r.0 == ABSENT,
    {
        NodeRef(ABSENT)
    }
}

impl Default for ValueRef {
    fn default() -> (r: ValueRef)
        ensures
            r.0 == ABSENT,
    {
        ValueRef(ABSENT)
    }
}

impl NodeRef {
    pub fn new(index: usize) -> (r: NodeRef)
        requires
            index != ABSENT,
        ensures
            r.0 == index,
    {
        NodeRef(index)
    }

    pub fn is_valid(&self) -> (r: bool)
        ensures
            r == (self.0 != ABSENT),
    {
        self.0 != ABSENT
    }
}

impl ValueRef {
    pub fn new(index: usize) -> (r: ValueRef)
        requires
            index != ABSENT,
        ensures
            r.0 == index,
    {
        ValueRef(index)
    }

    pub fn is_valid(&self) -> (r: bool)
        ensures
            r == (self.0 != ABSENT),
    {
        self.0 != ABSENT
    }
}

/// Where the caller of an insertion binds the new value.
#[derive(Clone, Copy, Debug, PartialEq, Eq, Structural)]
pub enum InsertAction {
    /// Store the value anew and bind it to the node at this handle.
    Insert(NodeRef),
    /// Store the value anew and bind it to the node that the insertion returned.
    InsertSelf,
    /// Overwrite the value stored at this handle.
    Replace(ValueRef),
}

impl InsertAction {
    pub open spec fn quantized(self, self_ref: NodeRef) -> InsertAction {
        match self {
            InsertAction::InsertSelf => InsertAction::Insert(self_ref),
            _ => self,
        }
    }

    /// Makes `InsertSelf` concrete once the node it meant is stored at `self_ref`.
    pub fn quantize_self(self, self_ref: NodeRef) -> (r: InsertAction)
        ensures
            r == self.quantized(self_ref),
    {
        match self {
            InsertAction::InsertSelf => InsertAction::Insert(self_ref),
            _ => self,
        }
    }
}

/// A node's cached hash reference; `None` when it is dirty.
#[derive(Debug)]
pub struct NodeHash {
    pub cached: Option<Vec<u8>>,
}

impl NodeHash {
    pub fn new() -> (r: NodeHash)
        ensures
            r.cached is None,
    {
        NodeHash { cached: None }
    }

    pub fn mark_as_dirty(&mut self)
        ensures
            final(self).cached is None,
    {
        self.cached = None;
    }

    /// The cached bytes, unless dirty.
    pub fn extract_ref(&self) -> (r: Option<Vec<u8>>)
        ensures
            r is None <==> self.cached is None,
            r is Some ==> r->0@ == self.cached->0@,
    {
        match &self.cached {
            Some(h) => Some(copy_bytes(h)),
            None => None,
        }
    }

    pub fn set(&mut self, h: &Vec<u8>)
        ensures
            final(self).cached is Some,
            final(self).cached->0@ == h@,
    {
        self.cached = Some(copy_bytes(h));
    }
}

/// A fresh copy of a byte string.
pub fn copy_bytes(b: &Vec<u8>) -> (r: Vec<u8>)
    ensures
        r@ == b@,
{
    let mut r: Vec<u8> = Vec::new();
    let mut i: usize = 0;
    while i < b.len()
        invariant
            i <= b@.len(),
            r@ == b@.take(i as int),
        decreases b@.len() - i,
    {
        r.push(b[i]);
        i = i + 1;
        assert(r@ =~= b@.take(i as int));
    }
    assert(b@.take(b@.len() as int) =~= b@);
    r
}

/// A terminal node: the full key and the value live in the value arena.
#[derive(Debug)]
pub struct LeafNode {
    pub value_ref: ValueRef,
    pub hash: NodeHash,
}

/// A run of nibbles shared by every key below, leading to a single branch.
#[derive(Debug)]
pub struct ExtensionNode {
    /// The nibbles of the run, one per byte.
    pub prefix: Vec<u8>,
    pub child: NodeRef,
    pub hash: NodeHash,
}

/// Sixteen slots, one per nibble, and the value of the key that ends here, if any.
#[derive(Debug)]
pub struct BranchNode {
    pub choices: Vec<NodeRef>,
    pub value_ref: ValueRef,
    pub hash: NodeHash,
}

#[derive(Debug)]
pub enum Node {
    Leaf(LeafNode),
    Extension(ExtensionNode),
    Branch(BranchNode),
}

/// The shape of a node without its cached hash, handles as indices.
pub enum NodeModel {
    Leaf { value_ref: usize },
    Extension { prefix: Seq<u8>, child: usize },
    Branch { choices: Seq<usize>, value_ref: usize },
}

impl Node {
    pub open spec fn model(self) -> NodeModel {
        match self {
            Node::Leaf(l) => NodeModel::Leaf { value_ref: l.value_ref.0 },
            Node::Extension(e) => NodeModel::Extension { prefix: e.prefix@, child: e.child.0 },
            Node::Branch(b) => NodeModel::Branch {
                choices: b.choices@.map_values(|c: NodeRef| c.0),
                value_ref: b.value_ref.0,
            },
        }
    }

    pub open spec fn is_dirty(self) -> bool {
        match self {
            Node::Leaf(l) => l.hash.cached is None,
            Node::Extension(e) => e.hash.cached is None,
            Node::Branch(b) => b.hash.cached is None,
        }
    }
}

/// Sixteen slots, each absent but slot `a`, which holds `ra`, and slot `b`, which holds `rb`
/// (an index outside the sixteen leaves a slot unused).
pub open spec fn slots(a: int, ra: usize, b: int, rb: usize) -> Seq<usize> {
    Seq::new(
        16,
        |i: int|
            if i == a {
                ra
            } else if i == b {
                rb
            } else {
                ABSENT
            },
    )
}

impl BranchNode {
    /// A clean-slate branch with the given slots and no value.
    pub fn new(choices: Vec<NodeRef>) -> (r: BranchNode)
        ensures
            r.choices == choices,
            r.value_ref.0 == ABSENT,
            r.hash.cached is None,
    {
        BranchNode { choices, value_ref: ValueRef::default(), hash: NodeHash::new() }
    }

    pub fn update_value_ref(&mut self, new_value_ref: ValueRef)
        ensures
            final(self).choices == old(self).choices,
            final(self).hash == old(self).hash,
            final(self).value_ref == new_value_ref,
    {
        self.value_ref = new_value_ref;
    }
}

impl ExtensionNode {
    pub fn new(prefix: Vec<u8>, child: NodeRef) -> (r: ExtensionNode)
        ensures
            r.prefix == prefix,
            r.child == child,
            r.hash.cached is None,
    {
        ExtensionNode { prefix, child, hash: NodeHash::new() }
    }
}

/// Sixteen slots, each absent but slot `a`, which holds `ra`, and slot `b`, which holds `rb`.
pub fn make_slots(a: u8, ra: usize, b: u8, rb: usize) -> (r: Vec<NodeRef>)
    ensures
        r@.map_values(|c: NodeRef| c.0) == slots(a as int, ra, b as int, rb),
        r@.len() == 16,
{
    let mut r: Vec<NodeRef> = Vec::new();
    let mut i: u8 = 0;
    while i < 16
        invariant
            i <= 16,
            r@.len() == i,
            forall|j: int| 0 <= j < i ==> r@[j].0 == slots(a as int, ra, b as int, rb)[j],
        decreases 16 - i,
    {
        if i == a {
            r.push(NodeRef(ra));
        } else if i == b {
            r.push(NodeRef(rb));
        } else {
            r.push(NodeRef(ABSENT));
        }
        i = i + 1;
    }
    assert(r@.map_values(|c: NodeRef| c.0) =~= slots(a as int, ra, b as int, rb));
    r
}

/// The node arena.
pub struct NodesStorage {
    pub nodes: Vec<Node>,
}

/// The value arena: each entry holds the full key and its value.
pub struct ValuesStorage {
    pub entries: Vec<(Vec<u8>, Vec<u8>)>,
}

impl NodesStorage {
    pub open spec fn model(&self) -> Seq<NodeModel> {
        self.nodes@.map_values(|n: Node| n.model())
    }

    pub fn new() -> (r: NodesStorage)
        ensures
            r.nodes@.len() == 0,
    {
        NodesStorage { nodes: Vec::new() }
    }

    /// Appends a node and returns its index.
    pub fn insert(&mut self, node: Node) -> (r: usize)
        ensures
            r == old(self).nodes@.len(),
            final(self).nodes@ == old(self).nodes@.push(node),
    {
        let r = self.nodes.len();
        self.nodes.push(node);
        r
    }
}

impl ValuesStorage {
    pub fn new() -> (r: ValuesStorage)
        ensures
            r.entries@.len() == 0,
    {
        ValuesStorage { entries: Vec::new() }
    }

    /// Appends a key and its value and returns their index.
    pub fn insert(&mut self, path: Vec<u8>, value: Vec<u8>) -> (r: usize)
        ensures
            r == old(self).entries@.len(),
            final(self).entries@ == old(self).entries@.push((path, value)),
    {
        let r = self.entries.len();
        self.entries.push((path, value));
        r
    }
}

} // verus!
