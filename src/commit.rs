use vstd::prelude::*;

use crate::leaf::leaf_insert_outcome;
use crate::lookup::lookup;
use crate::nibble::{common_prefix_len, lemma_common_prefix_len, lemma_nibbles_eq, nib, nibbles, same_rest};
use crate::node::{
    copy_bytes, BranchNode, InsertAction, LeafNode, Node, NodeModel, NodeRef,
    NodesStorage, ValueRef, ValuesStorage, ABSENT,
};

verus! {

/// A leaf or a branch with its value handle replaced.
pub open spec fn with_value(n: NodeModel, vr: usize) -> NodeModel {
    match n {
        NodeModel::Leaf { .. } => NodeModel::Leaf { value_ref: vr },
        NodeModel::Branch { choices, .. } => NodeModel::Branch { choices, value_ref: vr },
        _ => n,
    }
}

/// The node arena and the node after `act` binds the value stored at `vr`.
pub open spec fn bind_nodes(nodes: Seq<NodeModel>, node: NodeModel, act: InsertAction, vr: usize) -> (
    Seq<NodeModel>,
    NodeModel,
) {
    match act {
        InsertAction::Replace(_) => (nodes, node),
        InsertAction::Insert(r) => (nodes.update(r.0 as int, with_value(nodes[r.0 as int], vr)), node),
        InsertAction::InsertSelf => (nodes, with_value(node, vr)),
    }
}

/// The value arena after `act` stores `entry`.
pub open spec fn bind_values(
    values: Seq<(Vec<u8>, Vec<u8>)>,
    act: InsertAction,
    entry: (Vec<u8>, Vec<u8>),
) -> Seq<(Vec<u8>, Vec<u8>)> {
    match act {
        InsertAction::Replace(r) => values.update(r.0 as int, entry),
        _ => values.push(entry),
    }
}

/// `n` can hold a value.
pub open spec fn holds_value(n: NodeModel) -> bool {
    n is Leaf || n is Branch
}

/// A copy of a leaf or a branch with its value handle replaced and its hash dirty.
fn rebind(n: &Node, vr: ValueRef) -> (r: Node)
    requires
        holds_value(n.model()),
    ensures
        r.model() == with_value(n.model(), vr.0),
        r.is_dirty(),
{
    match n {
        Node::Leaf(_) => Node::Leaf(LeafNode::new(vr)),
        Node::Branch(b) => {
            let mut choices: Vec<NodeRef> = Vec::new();
            let mut i: usize = 0;
            while i < b.choices.len()
                invariant
                    i <= b.choices@.len(),
                    choices@ == b.choices@.take(i as int),
                decreases b.choices@.len() - i,
            {
                choices.push(b.choices[i]);
                i = i + 1;
                assert(choices@ =~= b.choices@.take(i as int));
            }
            assert(b.choices@.take(b.choices@.len() as int) =~= b.choices@);
            let mut branch = BranchNode::new(choices);
            branch.update_value_ref(vr);
            Node::Branch(branch)
        },
        Node::Extension(_) => {
            proof {
                assert(false);
            }
            Node::Leaf(LeafNode::new(vr))
        },
    }
}

/// Stores `value` under `path` as `action` says, binding it to the node that the action names.
/// Returns the node, with its value bound where the action meant it, and the value that was
/// replaced, if any.
pub fn commit(
    nodes: &mut NodesStorage,
    values: &mut ValuesStorage,
    node: Node,
    action: InsertAction,
    path: Vec<u8>,
    value: Vec<u8>,
) -> (r: (Node, Option<Vec<u8>>))
    requires
        old(values).entries@.len() < ABSENT,
        match action {
            InsertAction::Replace(v) => v.0 < old(values).entries@.len(),
            InsertAction::Insert(n) => n.0 < old(nodes).nodes@.len() && holds_value(
                old(nodes).nodes@[n.0 as int].model(),
            ),
            InsertAction::InsertSelf => holds_value(node.model()),
        },
    ensures
        ({
            let b = bind_nodes(
                old(nodes).model(),
                node.model(),
                action,
                old(values).entries@.len() as usize,
            );
            &&& final(nodes).model() == b.0
            &&& r.0.model() == b.1
        }),
        final(values).entries@ == bind_values(old(values).entries@, action, (path, value)),
        match action {
            InsertAction::Replace(v) => r.1 is Some && r.1->0@ == old(values).entries@[v.0 as int].1@,
            _ => r.1 is None,
        },
{
    match action {
        InsertAction::Replace(v) => {
            let previous = copy_bytes(&values.entries[v.0].1);
            values.entries.set(v.0, (path, value));
            (node, Some(previous))
        },
        InsertAction::Insert(n) => {
            let vr = ValueRef::new(values.insert(path, value));
            let rebound = rebind(&nodes.nodes[n.0], vr);
            nodes.nodes.set(n.0, rebound);
            assert(nodes.model() =~= old(nodes).model().update(
                n.0 as int,
                with_value(old(nodes).model()[n.0 as int], vr.0),
            ));
            (node, None)
        },
        InsertAction::InsertSelf => {
            let vr = ValueRef::new(values.insert(path, value));
            let rebound = rebind(&node, vr);
            (rebound, None)
        },
    }
}

/// Inserting a key into a leaf and committing its value makes the key reach the new value
/// (the replaced one when the key was the leaf's own), and leaves the leaf's own key reaching
/// its old value.
pub proof fn lemma_leaf_insert_then_get(
    nodes: Seq<NodeModel>,
    values: Seq<(Vec<u8>, Vec<u8>)>,
    vr: usize,
    off: int,
    entry: (Vec<u8>, Vec<u8>),
)
    requires
        vr < values.len(),
        values.len() < ABSENT,
        nodes.len() + 3 < ABSENT,
        0 <= off <= 2 * entry.0@.len(),
        off <= 2 * values[vr as int].0@.len(),
        forall|i: int| 0 <= i < off ==> nib(entry.0@, i) == nib(values[vr as int].0@, i),
    ensures
        ({
            let key = values[vr as int].0@;
            let p = entry.0@;
            let out = leaf_insert_outcome(vr, key, p, off, nodes.len() as int);
            let b = bind_nodes(nodes + out.0, out.1, out.2, values.len() as usize);
            let vals = bind_values(values, out.2, entry);
            &&& lookup(b.0, vals, b.1, p, off) == Some(
                if p == key {
                    vr
                } else {
                    values.len() as usize
                },
            )
            &&& p != key ==> lookup(b.0, vals, b.1, key, off) == Some(vr)
        }),
{
    reveal_with_fuel(lookup, 4);
    let key = values[vr as int].0@;
    let p = entry.0@;
    let n0 = nodes.len() as int;
    let out = leaf_insert_outcome(vr, key, p, off, n0);
    let vals = bind_values(values, out.2, entry);
    let b = bind_nodes(nodes + out.0, out.1, out.2, values.len() as usize);
    let nv = values.len() as usize;
    if p == key {
        return;
    }
    let common = common_prefix_len(nibbles(p).skip(off), nibbles(key).skip(off));
    lemma_common_prefix_len(nibbles(p).skip(off), nibbles(key).skip(off));
    let abs = off + common;
    if common == 2 * p.len() - off && p.len() == key.len() {
        assert forall|i: int| 0 <= i < 2 * p.len() implies nib(p, i) == nib(key, i) by {
            if i >= off {
                assert(nibbles(p).skip(off)[i - off] == nibbles(key).skip(off)[i - off]);
            }
        }
        lemma_nibbles_eq(p, key);
    }
    assert(vals[vr as int] == values[vr as int]);
    assert(vals[nv as int] == entry);
    assert(same_rest(p, abs + 1, p));
    assert(same_rest(key, abs + 1, key));
    if common > 0 {
        assert(nibbles(key).subrange(off, abs) =~= nibbles(p).subrange(off, abs)) by {
            assert forall|j: int| 0 <= j < common implies nibbles(key).subrange(off, abs)[j]
                == nibbles(p).subrange(off, abs)[j] by {
                assert(nibbles(p).skip(off)[j] == nibbles(key).skip(off)[j]);
            }
        }
    }
    if abs == 2 * p.len() {
        let kn = nib(key, abs) as int;
        assert(0 <= kn < 16);
    } else if abs == 2 * key.len() {
        let pn = nib(p, abs) as int;
        assert(0 <= pn < 16);
    } else {
        assert(nibbles(p).skip(off)[common as int] != nibbles(key).skip(off)[common as int]);
        let kn = nib(key, abs) as int;
        let pn = nib(p, abs) as int;
        assert(0 <= kn < 16 && 0 <= pn < 16 && kn != pn);
    }
}

} // verus!
