use vstd::prelude::*;

use crate::nibble::{nib, nibble_at, nibbles, same_rest, NibbleSlice};
use crate::node::{Node, NodeModel, NodesStorage, ValuesStorage};

verus! {

/// The index of the value that the path `p`, read from nibble `off` on, reaches from the node
/// `n`, in the arenas `nodes` and `values`.
pub open spec fn lookup(
    nodes: Seq<NodeModel>,
    values: Seq<(Vec<u8>, Vec<u8>)>,
    n: NodeModel,
    p: Seq<u8>,
    off: int,
) -> Option<usize>
    decreases 2 * p.len() - off,
        if n is Extension {
            1int
        } else {
            0int
        },
{
    if !(0 <= off <= 2 * p.len()) {
        None
    } else {
        match n {
            NodeModel::Leaf { value_ref } => {
                if value_ref < values.len() && same_rest(p, off, values[value_ref as int].0@) {
                    Some(value_ref)
                } else {
                    None
                }
            },
            NodeModel::Branch { choices, value_ref } => {
                if off == 2 * p.len() {
                    if value_ref < values.len() {
                        Some(value_ref)
                    } else {
                        None
                    }
                } else if choices.len() == 16 && choices[nib(p, off) as int] < nodes.len() {
                    lookup(nodes, values, nodes[choices[nib(p, off) as int] as int], p, off + 1)
                } else {
                    None
                }
            },
            NodeModel::Extension { prefix, child } => {
                if off + prefix.len() <= 2 * p.len() && nibbles(p).subrange(off, off + prefix.len())
                    == prefix && child < nodes.len() && (prefix.len() > 0
                    || nodes[child as int] is Branch) {
                    lookup(nodes, values, nodes[child as int], p, off + prefix.len())
                } else {
                    None
                }
            },
        }
    }
}

/// `r` is the value at index `found`, or nothing when `found` is nothing.
pub open spec fn is_found(r: Option<&Vec<u8>>, values: &ValuesStorage, found: Option<usize>) -> bool {
    match found {
        Some(i) => r == Some(&values.entries@[i as int].1),
        None => r is None,
    }
}

impl Node {
    /// The value that the remaining path reaches from this node.
    pub fn get<'a>(&self, nodes: &'a NodesStorage, values: &'a ValuesStorage, path: NibbleSlice) -> (r:
        Option<&'a Vec<u8>>)
        requires
            path.wf(),
        ensures
            is_found(
                r,
                values,
                lookup(nodes.model(), values.entries@, self.model(), path.data@, path.offset as int),
            ),
        decreases 2 * path.data@.len() - path.offset,
            if self is Extension {
                1int
            } else {
                0int
            },
    {
        match self {
            Node::Leaf(leaf) => {
                if leaf.value_ref.0 < values.entries.len() {
                    leaf.get(nodes, values, path)
                } else {
                    None
                }
            },
            Node::Branch(branch) => {
                let mut path = path;
                if path.offset == 2 * path.data.len() {
                    if branch.value_ref.0 < values.entries.len() {
                        Some(&values.entries[branch.value_ref.0].1)
                    } else {
                        None
                    }
                } else if branch.choices.len() == 16 {
                    let ghost before = path;
                    let n = path.next();
                    let c = branch.choices[n.unwrap() as usize].0;
                    assert(branch.choices@.map_values(|c: crate::node::NodeRef| c.0)[nib(
                        before.data@,
                        before.offset as int,
                    ) as int] == c);
                    if c < nodes.nodes.len() {
                        nodes.nodes[c].get(nodes, values, path)
                    } else {
                        None
                    }
                } else {
                    None
                }
            },
            Node::Extension(ext) => {
                let len = ext.prefix.len();
                if len > 2 * path.data.len() - path.offset {
                    return None;
                }
                let mut i: usize = 0;
                while i < len
                    invariant
                        path.wf(),
                        self.model() == (NodeModel::Extension {
                            prefix: ext.prefix@,
                            child: ext.child.0,
                        }),
                        i <= len == ext.prefix@.len(),
                        path.offset + len <= 2 * path.data@.len(),
                        forall|j: int|
                            0 <= j < i ==> nib(path.data@, path.offset + j) == ext.prefix@[j],
                    decreases len - i,
                {
                    if nibble_at(path.data.as_slice(), path.offset + i) != ext.prefix[i] {
                        assert(nibbles(path.data@).subrange(
                            path.offset as int,
                            path.offset + len,
                        )[i as int] != ext.prefix@[i as int]);
                        assert(nibbles(path.data@).subrange(
                            path.offset as int,
                            path.offset + len,
                        ) != ext.prefix@);
                        return None;
                    }
                    i = i + 1;
                }
                assert(nibbles(path.data@).subrange(path.offset as int, path.offset + len)
                    =~= ext.prefix@);
                let c = ext.child.0;
                if c >= nodes.nodes.len() {
                    return None;
                }
                let child = &nodes.nodes[c];
                if len == 0 {
                    match child {
                        Node::Branch(_) => {},
                        _ => {
                            return None;
                        },
                    }
                }
                let mut path = path;
                path.offset_add(len);
                child.get(nodes, values, path)
            },
        }
    }
}

} // verus!
