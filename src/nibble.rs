use vstd::prelude::*;

verus! {

/// The `i`-th nibble of `b`: the high half of each byte comes first.
pub open spec fn nib(b: Seq<u8>, i: int) -> u8 {
    if i % 2 == 0 {
        b[i / 2] / 16
    } else {
        b[i / 2] % 16
    }
}

/// All the nibbles of a byte string, two per byte.
pub open spec fn nibbles(b: Seq<u8>) -> Seq<u8> {
    Seq::new(2 * b.len(), |i: int| nib(b, i))
}

/// `a` and `b` are of one length and agree on every nibble from `off` on.
pub open spec fn same_rest(a: Seq<u8>, off: int, b: Seq<u8>) -> bool {
    a.len() == b.len() && forall|i: int| off <= i < 2 * a.len() ==> nib(a, i) == nib(b, i)
}

/// Byte strings of one length whose nibbles all agree are equal.
pub proof fn lemma_nibbles_eq(a: Seq<u8>, b: Seq<u8>)
    requires
        a.len() == b.len(),
        forall|i: int| 0 <= i < 2 * a.len() ==> nib(a, i) == nib(b, i),
    ensures
        a == b,
{
    assert forall|j: int| 0 <= j < a.len() implies a[j] == b[j] by {
        assert(nib(a, 2 * j) == nib(b, 2 * j));
        assert(nib(a, 2 * j + 1) == nib(b, 2 * j + 1));
        assert((2 * j) % 2 == 0 && (2 * j) / 2 == j);
        assert((2 * j + 1) % 2 == 1 && (2 * j + 1) / 2 == j);
    }
    assert(a =~= b);
}

/// The length of the longest common prefix of two nibble strings.
pub open spec fn common_prefix_len(a: Seq<u8>, b: Seq<u8>) -> nat
    decreases a.len(),
{
    if a.len() == 0 || b.len() == 0 || a[0] != b[0] {
        0
    } else {
        1 + common_prefix_len(a.drop_first(), b.drop_first())
    }
}

pub proof fn lemma_common_prefix_len(a: Seq<u8>, b: Seq<u8>)
    ensures
        common_prefix_len(a, b) <= a.len(),
        common_prefix_len(a, b) <= b.len(),
        forall|j: int| 0 <= j < common_prefix_len(a, b) ==> a[j] == b[j],
        common_prefix_len(a, b) < a.len() && common_prefix_len(a, b) < b.len() ==> a[
            common_prefix_len(a, b) as int] != b[common_prefix_len(a, b) as int],
    decreases a.len(),
{
    if a.len() == 0 || b.len() == 0 || a[0] != b[0] {
    } else {
        lemma_common_prefix_len(a.drop_first(), b.drop_first());
        assert forall|j: int| 0 <= j < common_prefix_len(a, b) implies a[j] == b[j] by {
            if j > 0 {
                assert(a[j] == a.drop_first()[j - 1]);
                assert(b[j] == b.drop_first()[j - 1]);
            }
        }
    }
}

/// Any `c` that is a common prefix length and stops at a difference or an end is the longest.
pub proof fn lemma_common_prefix_len_unique(a: Seq<u8>, b: Seq<u8>, c: nat)
    requires
        c <= a.len(),
        c <= b.len(),
        forall|j: int| 0 <= j < c ==> a[j] == b[j],
        c == a.len() || c == b.len() || a[c as int] != b[c as int],
    ensures
        common_prefix_len(a, b) == c,
    decreases a.len(),
{
    if a.len() == 0 || b.len() == 0 || a[0] != b[0] {
    } else {
        assert forall|j: int| 0 <= j < c - 1 implies a.drop_first()[j] == b.drop_first()[j] by {
            assert(a[j + 1] == b[j + 1]);
        }
        lemma_common_prefix_len_unique(a.drop_first(), b.drop_first(), (c - 1) as nat);
    }
}

/// A view over a byte string as nibbles, with a head offset counted in nibbles.
pub struct NibbleSlice {
    pub data: Vec<u8>,
    pub offset: usize,
}

/// The nibble at index `i` of `data`.
pub fn nibble_at(data: &[u8], i: usize) -> (r: u8)
    requires
        i < 2 * data@.len(),
    ensures
        r == nib(data@, i as int),
        r < 16,
{
    let b = data[i / 2];
    if i % 2 == 0 {
        b / 16
    } else {
        b % 16
    }
}

impl NibbleSlice {
    /// The offset lies within the data, and every nibble index fits in a `usize`.
    pub open spec fn wf(&self) -> bool {
        &&& 2 * self.data@.len() <= usize::MAX
        &&& self.offset <= 2 * self.data@.len()
    }

    /// The nibbles that remain after the head.
    pub open spec fn rest(&self) -> Seq<u8> {
        nibbles(self.data@).skip(self.offset as int)
    }

    pub fn new(data: &[u8]) -> (r: NibbleSlice)
        ensures
            r.data@ == data@,
            r.offset == 0,
    {
        NibbleSlice { data: vstd::slice::slice_to_vec(data), offset: 0 }
    }

    pub fn offset(&self) -> (r: usize)
        ensures
            r == self.offset,
    {
        self.offset
    }

    /// The number of nibbles that remain.
    pub fn len(&self) -> (r: usize)
        requires
            self.wf(),
        ensures
            r == self.rest().len(),
    {
        2 * self.data.len() - self.offset
    }

    /// Moves the head `n` nibbles further.
    pub fn offset_add(&mut self, n: usize)
        requires
            old(self).wf(),
            old(self).offset + n <= 2 * old(self).data@.len(),
        ensures
            final(self).wf(),
            final(self).data == old(self).data,
            final(self).offset == old(self).offset + n,
    {
        self.offset = self.offset + n;
    }

    /// The nibble `i` places after the head, if there is one.
    pub fn nth(&self, i: usize) -> (r: Option<u8>)
        requires
            self.wf(),
        ensures
            self.offset + i < 2 * self.data@.len() ==> r == Some(
                nib(self.data@, self.offset + i),
            ),
            self.offset + i >= 2 * self.data@.len() ==> r is None,
    {
        if i < 2 * self.data.len() - self.offset {
            Some(nibble_at(self.data.as_slice(), self.offset + i))
        } else {
            None
        }
    }

    /// Takes the nibble at the head and moves past it.
    pub fn next(&mut self) -> (r: Option<u8>)
        requires
            old(self).wf(),
        ensures
            final(self).data == old(self).data,
            final(self).wf(),
            old(self).offset < 2 * old(self).data@.len() ==> r == Some(
                nib(old(self).data@, old(self).offset as int),
            ) && final(self).offset == old(self).offset + 1,
            old(self).offset >= 2 * old(self).data@.len() ==> r is None && final(self).offset
                == old(self).offset,
    {
        if self.offset < 2 * self.data.len() {
            let n = nibble_at(self.data.as_slice(), self.offset);
            self.offset = self.offset + 1;
            Some(n)
        } else {
            None
        }
    }

    /// Whether the nibbles after the head equal those of `other` from the same offset on,
    /// the two byte strings being of one length.
    pub fn cmp_rest(&self, other: &[u8]) -> (r: bool)
        requires
            self.wf(),
        ensures
            r == same_rest(self.data@, self.offset as int, other@),
    {
        if self.data.len() != other.len() {
            return false;
        }
        let mut i: usize = self.offset;
        while i < 2 * self.data.len()
            invariant
                self.wf(),
                self.data@.len() == other@.len(),
                self.offset <= i <= 2 * self.data@.len(),
                forall|j: int| self.offset <= j < i ==> nib(self.data@, j) == nib(other@, j),
            decreases 2 * self.data@.len() - i,
        {
            if nibble_at(self.data.as_slice(), i) != nibble_at(other, i) {
                return false;
            }
            i = i + 1;
        }
        true
    }

    /// The length of the longest common run of nibbles after the two heads.
    pub fn count_prefix_slice(&self, other: &NibbleSlice) -> (r: usize)
        requires
            self.wf(),
            other.wf(),
        ensures
            r == common_prefix_len(self.rest(), other.rest()),
    {
        let ghost a = self.rest();
        let ghost b = other.rest();
        let la = 2 * self.data.len() - self.offset;
        let lb = 2 * other.data.len() - other.offset;
        let mut c: usize = 0;
        while c < la && c < lb && nibble_at(self.data.as_slice(), self.offset + c) == nibble_at(
            other.data.as_slice(),
            other.offset + c,
        )
            invariant
                self.wf(),
                other.wf(),
                a == self.rest(),
                b == other.rest(),
                la == a.len(),
                lb == b.len(),
                c <= la,
                c <= lb,
                forall|j: int| 0 <= j < c ==> a[j] == b[j],
            decreases la - c,
        {
            c = c + 1;
        }
        proof {
            lemma_common_prefix_len_unique(a, b, c as nat);
        }
        c
    }

    /// The next `n` nibbles, one per byte.
    pub fn split_to_vec(&self, n: usize) -> (r: Vec<u8>)
        requires
            self.wf(),
            self.offset + n <= 2 * self.data@.len(),
        ensures
            r@ == self.rest().take(n as int),
    {
        let mut r: Vec<u8> = Vec::new();
        let mut i: usize = 0;
        while i < n
            invariant
                self.wf(),
                self.offset + n <= 2 * self.data@.len(),
                i <= n,
                r@ == self.rest().take(i as int),
            decreases n - i,
        {
            r.push(nibble_at(self.data.as_slice(), self.offset + i));
            i = i + 1;
            assert(r@ =~= self.rest().take(i as int));
        }
        r
    }
}

} // verus!
