use vstd::prelude::*;

use crate::hashing::{
    encode_list, hash_ref, hex_prefix, hex_prefix_of, node_hash_ref, rlp_bytes, rlp_list,
    write_bytes,
};
use crate::nibble::{
    common_prefix_len, lemma_common_prefix_len, lemma_nibbles_eq, nib, nibble_at, nibbles,
    same_rest, NibbleSlice,
};
use crate::node::{
    copy_bytes, make_slots, slots, BranchNode, ExtensionNode, InsertAction, LeafNode, Node,
    NodeHash, NodeModel, NodeRef, NodesStorage, ValueRef, ValuesStorage, ABSENT,
};

verus! {

/// The encoding of a leaf that holds `value` under `key`, reached `off` nibbles deep.
pub open spec fn leaf_encoding(key: Seq<u8>, value: Seq<u8>, off: int) -> Seq<u8> {
    rlp_list(rlp_bytes(hex_prefix(nibbles(key).skip(off), true)) + rlp_bytes(value))
}

/// What inserting the path `p` into a leaf that holds value `vr` under `key`, `off` nibbles
/// deep, makes of it, the node arena holding `n0` nodes: the nodes appended to the arena, the
/// node that takes the leaf's place, and where the new value is to be bound.
pub open spec fn leaf_insert_outcome(vr: usize, key: Seq<u8>, p: Seq<u8>, off: int, n0: int) -> (
    Seq<NodeModel>,
    NodeModel,
    InsertAction,
) {
    if p == key {
        (Seq::empty(), NodeModel::Leaf { value_ref: vr }, InsertAction::Replace(ValueRef(vr)))
    } else {
        let common = common_prefix_len(nibbles(p).skip(off), nibbles(key).skip(off));
        let abs = off + common;
        let (added, branch, act) = if abs == 2 * p.len() {
            // The new path ends inside the stored key: the branch takes the new value.
            (
                seq![NodeModel::Leaf { value_ref: vr }],
                NodeModel::Branch {
                    choices: slots(nib(key, abs) as int, n0 as usize, 16, ABSENT),
                    value_ref: ABSENT,
                },
                InsertAction::InsertSelf,
            )
        } else if abs == 2 * key.len() {
            // The stored key ends inside the new path: the branch takes the stored value.
            (
                seq![NodeModel::Leaf { value_ref: ABSENT }],
                NodeModel::Branch {
                    choices: slots(nib(p, abs) as int, n0 as usize, 16, ABSENT),
                    value_ref: vr,
                },
                InsertAction::Insert(NodeRef(n0 as usize)),
            )
        } else {
            // The two keys part at a nibble that both hold.
            (
                seq![NodeModel::Leaf { value_ref: ABSENT }, NodeModel::Leaf { value_ref: vr }],
                NodeModel::Branch {
                    choices: slots(
                        nib(key, abs) as int,
                        (n0 + 1) as usize,
                        nib(p, abs) as int,
                        n0 as usize,
                    ),
                    value_ref: ABSENT,
                },
                InsertAction::Insert(NodeRef(n0 as usize)),
            )
        };
        if common == 0 {
            (added, branch, act)
        } else {
            let br = n0 + added.len();
            (
                added.push(branch),
                NodeModel::Extension { prefix: nibbles(p).subrange(off, abs), child: br as usize },
                act.quantized(NodeRef(br as usize)),
            )
        }
    }
}

/// The branch that a leaf insertion makes: the node returned, or the one under the extension
/// returned.
pub open spec fn made_branch(added: Seq<NodeModel>, node: NodeModel) -> NodeModel {
    if node is Extension {
        added.last()
    } else {
        node
    }
}

/// Inserting a key other than the leaf's own keeps the trie's shape: an extension that it makes
/// leads to the branch appended last, and the branch that it makes has two live slots, or one
/// live slot and a value, held already or bound to it by the returned action.
pub proof fn lemma_leaf_insert_shape(vr: usize, key: Seq<u8>, p: Seq<u8>, off: int, n0: int)
    requires
        p != key,
        vr != ABSENT,
        0 <= off <= 2 * p.len(),
        off <= 2 * key.len(),
        forall|i: int| 0 <= i < off ==> nib(p, i) == nib(key, i),
        0 <= n0,
        n0 + 3 < ABSENT,
    ensures
        ({
            let (added, node, act) = leaf_insert_outcome(vr, key, p, off, n0);
            let branch = made_branch(added, node);
            let branch_ref = if node is Extension {
                n0 + added.len() - 1
            } else {
                n0 + added.len()
            };
            &&& node is Branch || node is Extension
            &&& node is Extension ==> added.last() is Branch && node->child == branch_ref
            &&& branch is Branch
            &&& branch->choices.len() == 16
            &&& {
                ||| exists|i: int, j: int|
                    0 <= i < 16 && 0 <= j < 16 && i != j && branch->choices[i] != ABSENT
                        && branch->choices[j] != ABSENT
                ||| exists|i: int|
                    0 <= i < 16 && branch->choices[i] != ABSENT && (branch->Branch_value_ref
                        != ABSENT || act == InsertAction::InsertSelf || act
                        == InsertAction::Insert(NodeRef(branch_ref as usize)))
            }
        }),
{
    let common = common_prefix_len(nibbles(p).skip(off), nibbles(key).skip(off));
    lemma_common_prefix_len(nibbles(p).skip(off), nibbles(key).skip(off));
    let abs = off + common;
    if common == 2 * p.len() - off && p.len() == key.len() {
        assert forall|i: int| 0 <= i < 2 * p.len() implies nib(p, i) == nib(key, i) by {
            if i >= off {
                assert(nibbles(p).skip(off)[i - off] == nibbles(key).skip(off)[i - off]);
            }
        }
        lemma_nibbles_eq(p, key);
    }
    let (added, node, act) = leaf_insert_outcome(vr, key, p, off, n0);
    let branch = made_branch(added, node);
    if abs == 2 * p.len() {
        let k = nib(key, abs) as int;
        assert(branch->choices[k] != ABSENT);
    } else if abs == 2 * key.len() {
        let k = nib(p, abs) as int;
        assert(branch->choices[k] != ABSENT);
    } else {
        assert(nibbles(p).skip(off)[common as int] != nibbles(key).skip(off)[common as int]);
        let k = nib(key, abs) as int;
        let q = nib(p, abs) as int;
        assert(branch->choices[k] != ABSENT && branch->choices[q] != ABSENT);
    }
}

impl LeafNode {
    pub fn new(value_ref: ValueRef) -> (r: LeafNode)
        ensures
            r.value_ref == value_ref,
            r.hash.cached is None,
    {
        LeafNode { value_ref, hash: NodeHash::new() }
    }

    pub fn update_value_ref(&mut self, new_value_ref: ValueRef)
        ensures
            final(self).value_ref == new_value_ref,
            final(self).hash == old(self).hash,
    {
        self.value_ref = new_value_ref;
    }

    /// The stored value, if the path's remaining nibbles are those of the stored key.
    pub fn get<'a>(&self, _nodes: &NodesStorage, values: &'a ValuesStorage, path: NibbleSlice) -> (r:
        Option<&'a Vec<u8>>)
        requires
            self.value_ref.0 < values.entries@.len(),
            path.wf(),
        ensures
            same_rest(path.data@, path.offset as int, values.entries@[self.value_ref.0 as int].0@)
                ==> r == Some(&values.entries@[self.value_ref.0 as int].1),
            !same_rest(path.data@, path.offset as int, values.entries@[self.value_ref.0 as int].0@)
                ==> r is None,
    {
        let entry = &values.entries[self.value_ref.0];
        if path.cmp_rest(entry.0.as_slice()) {
            Some(&entry.1)
        } else {
            None
        }
    }

    /// Inserts the path, `path.offset` nibbles deep; see `leaf_insert_outcome`. Every node
    /// that it returns or appends has a dirty hash.
    pub fn insert(self, nodes: &mut NodesStorage, values: &ValuesStorage, path: NibbleSlice) -> (r: (
        Node,
        InsertAction,
    ))
        requires
            self.value_ref.0 < values.entries@.len(),
            path.wf(),
            old(nodes).nodes@.len() + 3 < ABSENT,
            2 * values.entries@[self.value_ref.0 as int].0@.len() <= usize::MAX,
            path.offset <= 2 * values.entries@[self.value_ref.0 as int].0@.len(),
            forall|i: int|
                0 <= i < path.offset ==> nib(path.data@, i) == nib(
                    values.entries@[self.value_ref.0 as int].0@,
                    i,
                ),
        ensures
            ({
                let out = leaf_insert_outcome(
                    self.value_ref.0,
                    values.entries@[self.value_ref.0 as int].0@,
                    path.data@,
                    path.offset as int,
                    old(nodes).nodes@.len() as int,
                );
                &&& final(nodes).model() == old(nodes).model() + out.0
                &&& r.0.model() == out.1
                &&& r.1 == out.2
            }),
            r.0.is_dirty(),
            forall|i: int|
                old(nodes).nodes@.len() <= i < final(nodes).nodes@.len() ==> (
                #[trigger] final(nodes).nodes@[i]).is_dirty(),
    {
        let ghost n0 = old(nodes).nodes@.len() as int;
        let ghost old_nodes = old(nodes).model();
        let mut this = self;
        this.hash.mark_as_dirty();
        let vr = this.value_ref;
        let value_path = &values.entries[vr.0].0;
        let ghost key = value_path@;
        let ghost p = path.data@;
        let ghost off = path.offset as int;
        if path.cmp_rest(value_path.as_slice()) {
            proof {
                lemma_nibbles_eq(p, key);
            }
            return (Node::Leaf(this), InsertAction::Replace(vr));
        }
        let mut key_slice = NibbleSlice::new(value_path.as_slice());
        key_slice.offset_add(path.offset());
        let offset = path.count_prefix_slice(&key_slice);
        proof {
            lemma_common_prefix_len(nibbles(p).skip(off), nibbles(key).skip(off));
            if offset as int == 2 * p.len() - off && p.len() == key.len() {
                assert forall|i: int| 0 <= i < 2 * p.len() implies nib(p, i) == nib(key, i) by {
                    if i >= off {
                        assert(nibbles(p).skip(off)[i - off] == nibbles(key).skip(off)[i - off]);
                    }
                }
                lemma_nibbles_eq(p, key);
            }
        }
        let abs = path.offset + offset;
        let mut branch_node;
        let mut insert_action;
        if abs == 2 * path.data.len() {
            let key_nibble = nibble_at(value_path.as_slice(), abs);
            let self_ref = nodes.insert(Node::Leaf(this));
            branch_node = BranchNode::new(make_slots(key_nibble, self_ref, 16, ABSENT));
            insert_action = InsertAction::InsertSelf;
        } else if abs == 2 * value_path.len() {
            let path_nibble = nibble_at(path.data.as_slice(), abs);
            let child_ref = nodes.insert(Node::Leaf(LeafNode::new(ValueRef::default())));
            branch_node = BranchNode::new(make_slots(path_nibble, child_ref, 16, ABSENT));
            branch_node.update_value_ref(vr);
            insert_action = InsertAction::Insert(NodeRef::new(child_ref));
        } else {
            let key_nibble = nibble_at(value_path.as_slice(), abs);
            let path_nibble = nibble_at(path.data.as_slice(), abs);
            let child_ref = nodes.insert(Node::Leaf(LeafNode::new(ValueRef::default())));
            let self_ref = nodes.insert(Node::Leaf(this));
            branch_node = BranchNode::new(make_slots(key_nibble, self_ref, path_nibble, child_ref));
            insert_action = InsertAction::Insert(NodeRef::new(child_ref));
        }
        let ghost out = leaf_insert_outcome(vr.0, key, p, off, n0);
        if offset != 0 {
            let branch_ref = nodes.insert(Node::Branch(branch_node));
            insert_action = insert_action.quantize_self(NodeRef::new(branch_ref));
            let prefix = path.split_to_vec(offset);
            assert(prefix@ =~= nibbles(p).subrange(off, abs as int));
            assert(nodes.model() =~= old_nodes + out.0);
            (Node::Extension(ExtensionNode::new(prefix, NodeRef::new(branch_ref))), insert_action)
        } else {
            assert(nodes.model() =~= old_nodes + out.0);
            (Node::Branch(branch_node), insert_action)
        }
    }

    /// The leaf's hash reference, `key_offset` nibbles deep, from the cache when it is clean;
    /// the cache holds it afterwards.
    pub fn compute_hash(&mut self, _nodes: &NodesStorage, values: &ValuesStorage, key_offset: usize) -> (r:
        Vec<u8>)
        requires
            old(self).value_ref.0 < values.entries@.len(),
            2 * values.entries@[old(self).value_ref.0 as int].0@.len() <= usize::MAX,
            key_offset <= 2 * values.entries@[old(self).value_ref.0 as int].0@.len(),
            old(self).hash.cached is Some ==> old(self).hash.cached->0@ == hash_ref(
                leaf_encoding(
                    values.entries@[old(self).value_ref.0 as int].0@,
                    values.entries@[old(self).value_ref.0 as int].1@,
                    key_offset as int,
                ),
            ),
        ensures
            r@ == hash_ref(
                leaf_encoding(
                    values.entries@[old(self).value_ref.0 as int].0@,
                    values.entries@[old(self).value_ref.0 as int].1@,
                    key_offset as int,
                ),
            ),
            final(self).value_ref == old(self).value_ref,
            final(self).hash.cached is Some,
            final(self).hash.cached->0@ == r@,
    {
        match self.hash.extract_ref() {
            Some(h) => h,
            None => {
                let entry = &values.entries[self.value_ref.0];
                let key_slice = NibbleSlice { data: copy_bytes(&entry.0), offset: key_offset };
                let nibs = key_slice.split_to_vec(key_slice.len());
                assert(nibs@ =~= nibbles(entry.0@).skip(key_offset as int));
                let path = hex_prefix_of(nibs.as_slice(), true);
                let mut payload: Vec<u8> = Vec::new();
                write_bytes(&mut payload, path.as_slice());
                write_bytes(&mut payload, entry.1.as_slice());
                assert(payload@ =~= rlp_bytes(path@) + rlp_bytes(entry.1@));
                let r = node_hash_ref(encode_list(&payload));
                self.hash.set(&r);
                r
            },
        }
    }
}

} // verus!
