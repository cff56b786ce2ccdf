use vstd::prelude::*;

verus! {

/// The minimal big-endian bytes of `n` (none for zero).
pub open spec fn be_bytes(n: nat) -> Seq<u8>
    decreases n,
{
    if n == 0 {
        Seq::empty()
    } else {
        be_bytes(n / 256) + seq![(n % 256) as u8]
    }
}

/// The length-prefix encoding of a byte string.
pub open spec fn rlp_bytes(b: Seq<u8>) -> Seq<u8> {
    if b.len() == 1 && b[0] < 0x80 {
        b
    } else if b.len() <= 55 {
        seq![(0x80 + b.len()) as u8] + b
    } else {
        seq![(0xb7 + be_bytes(b.len()).len()) as u8] + be_bytes(b.len()) + b
    }
}

/// The length-prefix encoding of a list whose encoded items, joined, are `payload`.
pub open spec fn rlp_list(payload: Seq<u8>) -> Seq<u8> {
    if payload.len() <= 55 {
        seq![(0xc0 + payload.len()) as u8] + payload
    } else {
        seq![(0xf7 + be_bytes(payload.len()).len()) as u8] + be_bytes(payload.len()) + payload
    }
}

/// Nibbles packed two to a byte (an odd last nibble is dropped).
pub open spec fn pack_nibbles(n: Seq<u8>) -> Seq<u8> {
    Seq::new(n.len() / 2, |i: int| (n[2 * i] * 16 + n[2 * i + 1]) as u8)
}

/// The hex-prefix encoding of a nibble path, flagged as a leaf's or an extension's.
pub open spec fn hex_prefix(n: Seq<u8>, leaf: bool) -> Seq<u8> {
    let flag: u8 = if leaf {
        2
    } else {
        0
    };
    if n.len() % 2 == 1 {
        seq![((flag + 1) * 16 + n[0]) as u8] + pack_nibbles(n.drop_first())
    } else {
        seq![(flag * 16) as u8] + pack_nibbles(n)
    }
}

/// What a parent holds of a child node: the encoding itself when it is short, else its digest.
pub open spec fn hash_ref(enc: Seq<u8>) -> Seq<u8> {
    if enc.len() < 32 {
        enc
    } else {
        keccak_of(enc)
    }
}

/// How a parent's encoding holds a child's hash reference: an empty string for no child, the
/// child's encoding itself when short, else the digest as a byte string.
pub open spec fn child_item(r: Seq<u8>) -> Seq<u8> {
    if 0 < r.len() < 32 {
        r
    } else {
        rlp_bytes(r)
    }
}

/// The items of the children's hash references, joined in order.
pub open spec fn join_children(children: Seq<Seq<u8>>) -> Seq<u8>
    decreases children.len(),
{
    if children.len() == 0 {
        Seq::empty()
    } else {
        join_children(children.drop_last()) + child_item(children.last())
    }
}

/// The encoding of a branch: its sixteen children's items, then its value (empty when it has
/// none).
pub open spec fn branch_encoding(children: Seq<Seq<u8>>, value: Seq<u8>) -> Seq<u8> {
    rlp_list(join_children(children) + rlp_bytes(value))
}

/// The encoding of an extension over the nibbles `prefix` whose child has hash reference
/// `child`.
pub open spec fn extension_encoding(prefix: Seq<u8>, child: Seq<u8>) -> Seq<u8> {
    rlp_list(rlp_bytes(hex_prefix(prefix, false)) + child_item(child))
}

/// The Keccak-256 digest of a byte string.
pub uninterp spec fn keccak_of(b: Seq<u8>) -> Seq<u8>;

/// Relies on `digest::Digest::digest` for `sha3::Keccak256`: the Keccak-256 digest of the
/// input, whose output size is 32 bytes.
#[verifier::external_body]
fn keccak256(b: &[u8]) -> (r: Vec<u8>)
    ensures
        r@ == keccak_of(b@),
        r@.len() == 32,
{
    <sha3::Keccak256 as digest::Digest>::digest(b).to_vec()
}

pub open spec fn pow256(k: nat) -> nat
    decreases k,
{
    if k == 0 {
        1
    } else {
        256 * pow256((k - 1) as nat)
    }
}

proof fn lemma_be_bytes_len(n: nat, k: nat)
    requires
        n < pow256(k),
    ensures
        be_bytes(n).len() <= k,
    decreases n,
{
    if n > 0 {
        let p = pow256((k - 1) as nat);
        assert(k > 0);
        assert(n / 256 < p) by (nonlinear_arith)
            requires
                n < 256 * p,
        ;
        lemma_be_bytes_len(n / 256, (k - 1) as nat);
    }
}

proof fn lemma_be_bytes_len_usize(n: usize)
    ensures
        be_bytes(n as nat).len() <= 8,
{
    reveal_with_fuel(pow256, 9);
    assert(pow256(8) == 0x1_0000_0000_0000_0000nat);
    lemma_be_bytes_len(n as nat, 8);
}

/// Appends the minimal big-endian bytes of `n`.
fn push_be(out: &mut Vec<u8>, n: usize)
    ensures
        final(out)@ == old(out)@ + be_bytes(n as nat),
    decreases n,
{
    if n != 0 {
        push_be(out, n / 256);
        out.push((n % 256) as u8);
        assert(out@ =~= old(out)@ + be_bytes(n as nat));
    }
}

/// The number of minimal big-endian bytes of `n`.
fn be_len(n: usize) -> (r: usize)
    ensures
        r == be_bytes(n as nat).len(),
        r <= 8,
    decreases n,
{
    proof {
        lemma_be_bytes_len_usize(n);
    }
    if n == 0 {
        0
    } else {
        1 + be_len(n / 256)
    }
}

/// Appends the length-prefix encoding of `b`.
pub fn write_bytes(out: &mut Vec<u8>, b: &[u8])
    ensures
        final(out)@ == old(out)@ + rlp_bytes(b@),
{
    if b.len() == 1 && b[0] < 0x80 {
        out.push(b[0]);
        assert(out@ =~= old(out)@ + rlp_bytes(b@));
    } else {
        write_header(out, 0x80, b.len());
        let mut i: usize = 0;
        let ghost mid = out@;
        while i < b.len()
            invariant
                i <= b@.len(),
                out@ == mid + b@.take(i as int),
            decreases b@.len() - i,
        {
            out.push(b[i]);
            i = i + 1;
            assert(out@ =~= mid + b@.take(i as int));
        }
        assert(b@.take(b@.len() as int) =~= b@);
        assert(out@ =~= old(out)@ + rlp_bytes(b@));
    }
}

/// Appends a length-prefix header with base `base` (0x80 for strings, 0xc0 for lists).
fn write_header(out: &mut Vec<u8>, base: u8, len: usize)
    requires
        base == 0x80 || base == 0xc0,
    ensures
        len <= 55 ==> final(out)@ == old(out)@ + seq![(base + len) as u8],
        len > 55 ==> final(out)@ == old(out)@ + seq![(base + 55 + be_bytes(len as nat).len()) as u8]
            + be_bytes(len as nat),
{
    if len <= 55 {
        out.push(base + len as u8);
        assert(out@ =~= old(out)@ + seq![(base + len) as u8]);
    } else {
        let k = be_len(len);
        out.push(base + 55 + k as u8);
        push_be(out, len);
        assert(out@ =~= old(out)@ + seq![(base + 55 + be_bytes(len as nat).len()) as u8]
            + be_bytes(len as nat));
    }
}

/// The length-prefix encoding of a list whose encoded items, joined, are `payload`.
pub fn encode_list(payload: &Vec<u8>) -> (r: Vec<u8>)
    ensures
        r@ == rlp_list(payload@),
{
    let mut out: Vec<u8> = Vec::new();
    write_header(&mut out, 0xc0, payload.len());
    let ghost mid = out@;
    let mut i: usize = 0;
    while i < payload.len()
        invariant
            i <= payload@.len(),
            out@ == mid + payload@.take(i as int),
        decreases payload@.len() - i,
    {
        out.push(payload[i]);
        i = i + 1;
        assert(out@ =~= mid + payload@.take(i as int));
    }
    assert(payload@.take(payload@.len() as int) =~= payload@);
    assert(out@ =~= rlp_list(payload@));
    out
}

/// The hex-prefix encoding of the nibbles `n` (each below 16), flagged as a leaf's or an
/// extension's.
pub fn hex_prefix_of(n: &[u8], leaf: bool) -> (r: Vec<u8>)
    requires
        forall|i: int| 0 <= i < n@.len() ==> n@[i] < 16,
    ensures
        r@ == hex_prefix(n@, leaf),
{
    let flag: u8 = if leaf {
        2
    } else {
        0
    };
    let mut out: Vec<u8> = Vec::new();
    let start: usize;
    if n.len() % 2 == 1 {
        out.push((flag + 1) * 16 + n[0]);
        start = 1;
    } else {
        out.push(flag * 16);
        start = 0;
    }
    let ghost rest = n@.skip(start as int);
    let mut i: usize = start;
    while n.len() - i >= 2
        invariant
            start <= i <= n@.len(),
            (i - start) % 2 == 0,
            (n@.len() - start) % 2 == 0,
            rest == n@.skip(start as int),
            forall|j: int| 0 <= j < n@.len() ==> n@[j] < 16,
            out@.len() == 1 + (i - start) / 2,
            out@[0] == hex_prefix(n@, leaf)[0],
            forall|j: int| 0 <= j < (i - start) / 2 ==> out@[1 + j] == pack_nibbles(rest)[j],
        decreases n@.len() - i,
    {
        let hi = n[i];
        let lo = n[i + 1];
        out.push(hi * 16 + lo);
        proof {
            let j = (i - start) / 2;
            assert(rest[2 * j] == n@[i as int]);
            assert(rest[2 * j + 1] == n@[i + 1]);
        }
        i = i + 2;
    }
    assert(out@ =~= hex_prefix(n@, leaf)) by {
        if n@.len() % 2 == 1 {
            assert(rest =~= n@.drop_first());
        } else {
            assert(rest =~= n@);
        }
    }
    out
}

/// Appends the item by which a parent holds the child hash reference `r`.
fn write_child(out: &mut Vec<u8>, r: &Vec<u8>)
    ensures
        final(out)@ == old(out)@ + child_item(r@),
{
    if 0 < r.len() && r.len() < 32 {
        let mut i: usize = 0;
        let ghost mid = out@;
        while i < r.len()
            invariant
                i <= r@.len(),
                out@ == mid + r@.take(i as int),
            decreases r@.len() - i,
        {
            out.push(r[i]);
            i = i + 1;
            assert(out@ =~= mid + r@.take(i as int));
        }
        assert(r@.take(r@.len() as int) =~= r@);
    } else {
        write_bytes(out, r.as_slice());
    }
}

/// The encoding of a branch whose children have the hash references `children` (empty for no
/// child) and whose value is `value` (empty for none).
pub fn encode_branch(children: &Vec<Vec<u8>>, value: &Vec<u8>) -> (r: Vec<u8>)
    ensures
        r@ == branch_encoding(children@.map_values(|c: Vec<u8>| c@), value@),
{
    let ghost views = children@.map_values(|c: Vec<u8>| c@);
    let mut payload: Vec<u8> = Vec::new();
    let mut i: usize = 0;
    while i < children.len()
        invariant
            i <= children@.len(),
            views == children@.map_values(|c: Vec<u8>| c@),
            payload@ == join_children(views.take(i as int)),
        decreases children@.len() - i,
    {
        write_child(&mut payload, &children[i]);
        proof {
            assert(views.take(i + 1).drop_last() =~= views.take(i as int));
        }
        i = i + 1;
    }
    assert(views.take(children@.len() as int) =~= views);
    write_bytes(&mut payload, value.as_slice());
    encode_list(&payload)
}

/// The encoding of an extension over the nibbles `prefix` (each below 16) whose child has hash
/// reference `child`.
pub fn encode_extension(prefix: &[u8], child: &Vec<u8>) -> (r: Vec<u8>)
    requires
        forall|i: int| 0 <= i < prefix@.len() ==> prefix@[i] < 16,
    ensures
        r@ == extension_encoding(prefix@, child@),
{
    let path = hex_prefix_of(prefix, false);
    let mut payload: Vec<u8> = Vec::new();
    write_bytes(&mut payload, path.as_slice());
    write_child(&mut payload, child);
    assert(payload@ =~= rlp_bytes(path@) + child_item(child@));
    encode_list(&payload)
}

/// What a parent holds of a node with encoding `enc`.
pub fn node_hash_ref(enc: Vec<u8>) -> (r: Vec<u8>)
    ensures
        r@ == hash_ref(enc@),
        r@.len() <= 32,
{
    if enc.len() < 32 {
        enc
    } else {
        keccak256(enc.as_slice())
    }
}

} // verus!
