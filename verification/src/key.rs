//! Keys of the storage engine: user keys, their encoding as full keys with
//! an epoch, and the byte order that keys are compared in.
use vstd::prelude::*;
use crate::vec_copy::copy_vec;

verus! {

/// The identifier of a table.
#[derive(Clone, Copy, Debug, PartialEq, Eq, Structural)]
pub struct TableId {
    pub table_id: u32,
}

/// An epoch: a point in the order of committed writes.
pub type HummockEpoch = u64;

/// The largest epoch. The engine orders full keys of one user key by
/// descending epoch, so a full key with this epoch comes first among them;
/// the byte order of encoded keys (`bytes_le`) does not give that order.
pub const MAX_EPOCH: u64 = 0xffff_ffff_ffff_ffffu64;

/// A key of a table: the table and the key within it.
#[derive(Debug)]
pub struct UserKey {
    pub table_id: TableId,
    pub table_key: Vec<u8>,
}

/// A user key as the table id and the bytes of the table key.
pub type UserKeyView = (u32, Seq<u8>);

impl View for UserKey {
    type V = UserKeyView;

    open spec fn view(&self) -> UserKeyView {
        (self.table_id.table_id, self.table_key@)
    }
}

impl UserKey {
    /// The key of table 0 with an empty table key.
    pub fn default_key() -> (key: UserKey)
        ensures
            key@ == (0u32, Seq::<u8>::empty()),
    {
        UserKey { table_id: TableId { table_id: 0 }, table_key: Vec::new() }
    }

    /// A copy of the key.
    pub fn duplicate(&self) -> (copy: UserKey)
        ensures
            copy@ == self@,
    {
        UserKey { table_id: self.table_id, table_key: copy_vec(&self.table_key) }
    }

    /// Whether two keys are the same key.
    pub fn same_key(&self, other: &UserKey) -> (b: bool)
        ensures
            b == (self@ == other@),
    {
        self.table_id.table_id == other.table_id.table_id && bytes_equal(&self.table_key, &other.table_key)
    }
}

/// Whether two byte strings are equal.
pub fn bytes_equal(a: &Vec<u8>, b: &Vec<u8>) -> (eq: bool)
    ensures
        eq == (a@ == b@),
{
    if a.len() != b.len() {
        return false;
    }
    let mut i: usize = 0;
    while i < a.len()
        invariant
            i <= a@.len(),
            a@.len() == b@.len(),
            forall|k: int| 0 <= k < i ==> a@[k] == b@[k],
        decreases a@.len() - i,
    {
        if a[i] != b[i] {
            return false;
        }
        i = i + 1;
    }
    proof {
        assert(a@ =~= b@);
    }
    true
}

/// `a` comes before `b`, or is `b`, in byte-wise lexicographic order.
pub open spec fn bytes_le(a: Seq<u8>, b: Seq<u8>) -> bool
    decreases a.len(),
{
    if a.len() == 0 {
        true
    } else if b.len() == 0 {
        false
    } else if a[0] != b[0] {
        a[0] < b[0]
    } else {
        bytes_le(a.drop_first(), b.drop_first())
    }
}

/// Whether `a` comes before `b`, or is `b`, in byte-wise lexicographic order.
pub fn bytes_le_exec(a: &Vec<u8>, b: &Vec<u8>) -> (le: bool)
    ensures
        le == bytes_le(a@, b@),
{
    let mut i: usize = 0;
    proof {
        assert(a@.skip(0) == a@);
        assert(b@.skip(0) == b@);
    }
    while i < a.len() && i < b.len()
        invariant
            i <= a@.len(),
            i <= b@.len(),
            bytes_le(a@, b@) == bytes_le(a@.skip(i as int), b@.skip(i as int)),
        decreases a@.len() - i,
    {
        if a[i] != b[i] {
            return a[i] < b[i];
        }
        proof {
            assert(a@.skip(i as int).drop_first() == a@.skip(i + 1));
            assert(b@.skip(i as int).drop_first() == b@.skip(i + 1));
        }
        i = i + 1;
    }
    i == a.len()
}

/// The big-endian bytes of a 32-bit value.
pub open spec fn u32_be(x: u32) -> Seq<u8> {
    seq![
        (x / 0x100_0000) as u8,
        (x / 0x1_0000 % 0x100) as u8,
        (x / 0x100 % 0x100) as u8,
        (x % 0x100) as u8,
    ]
}

/// The big-endian bytes of a 64-bit value.
pub open spec fn u64_be(x: u64) -> Seq<u8> {
    seq![
        (x / 0x100_0000_0000_0000) as u8,
        (x / 0x1_0000_0000_0000 % 0x100) as u8,
        (x / 0x100_0000_0000 % 0x100) as u8,
        (x / 0x1_0000_0000 % 0x100) as u8,
        (x / 0x100_0000 % 0x100) as u8,
        (x / 0x1_0000 % 0x100) as u8,
        (x / 0x100 % 0x100) as u8,
        (x % 0x100) as u8,
    ]
}

/// The value of four big-endian bytes.
pub open spec fn be_u32(b: Seq<u8>) -> u32 {
    (b[0] * 0x100_0000 + b[1] * 0x1_0000 + b[2] * 0x100 + b[3]) as u32
}

/// The encoding of a full key: the table id in big-endian order, the table
/// key, then the epoch in big-endian order.
pub open spec fn encode_full_key(key: UserKeyView, epoch: u64) -> Seq<u8> {
    u32_be(key.0) + key.1 + u64_be(epoch)
}

/// The user key of an encoded full key: the table id from the first four
/// bytes, and the bytes before the trailing eight-byte epoch as table key.
pub open spec fn decode_user_key(encoded: Seq<u8>) -> UserKeyView
    recommends
        encoded.len() >= 12,
{
    (be_u32(encoded.take(4)), encoded.subrange(4, encoded.len() - 8))
}

/// Encodes the full key of `user_key` at `epoch`.
pub fn encode_full_key_exec(user_key: &UserKey, epoch: HummockEpoch) -> (encoded: Vec<u8>)
    ensures
        encoded@ == encode_full_key(user_key@, epoch),
{
    let mut buf: Vec<u8> = Vec::new();
    let t = user_key.table_id.table_id;
    buf.push((t / 0x100_0000) as u8);
    buf.push((t / 0x1_0000 % 0x100) as u8);
    buf.push((t / 0x100 % 0x100) as u8);
    buf.push((t % 0x100) as u8);
    let ghost head = buf@;
    let mut i: usize = 0;
    while i < user_key.table_key.len()
        invariant
            i <= user_key.table_key@.len(),
            buf@ == head + user_key.table_key@.take(i as int),
        decreases user_key.table_key@.len() - i,
    {
        buf.push(user_key.table_key[i]);
        proof {
            assert(user_key.table_key@.take(i + 1) == user_key.table_key@.take(i as int).push(
                user_key.table_key@[i as int],
            ));
        }
        i = i + 1;
    }
    proof {
        assert(user_key.table_key@.take(user_key.table_key@.len() as int) == user_key.table_key@);
    }
    let ghost mid = buf@;
    buf.push((epoch / 0x100_0000_0000_0000) as u8);
    buf.push((epoch / 0x1_0000_0000_0000 % 0x100) as u8);
    buf.push((epoch / 0x100_0000_0000 % 0x100) as u8);
    buf.push((epoch / 0x1_0000_0000 % 0x100) as u8);
    buf.push((epoch / 0x100_0000 % 0x100) as u8);
    buf.push((epoch / 0x1_0000 % 0x100) as u8);
    buf.push((epoch / 0x100 % 0x100) as u8);
    buf.push((epoch % 0x100) as u8);
    proof {
        assert(head =~= u32_be(t));
        assert(buf@ =~= encode_full_key(user_key@, epoch));
    }
    buf
}

/// Decodes the user key of an encoded full key.
pub fn decode_user_key_exec(encoded: &Vec<u8>) -> (key: UserKey)
    requires
        encoded@.len() >= 12,
    ensures
        key@ == decode_user_key(encoded@),
{
    let t: u32 = (encoded[0] as u32) * 0x100_0000 + (encoded[1] as u32) * 0x1_0000
        + (encoded[2] as u32) * 0x100 + (encoded[3] as u32);
    let end = encoded.len() - 8;
    let mut table_key: Vec<u8> = Vec::new();
    let mut i: usize = 4;
    while i < end
        invariant
            4 <= i <= end,
            end == encoded@.len() - 8,
            table_key@ == encoded@.subrange(4, i as int),
        decreases end - i,
    {
        table_key.push(encoded[i]);
        proof {
            assert(encoded@.subrange(4, i + 1) == encoded@.subrange(4, i as int).push(encoded@[i as int]));
        }
        i = i + 1;
    }
    UserKey { table_id: TableId { table_id: t }, table_key }
}

/// Byte-wise lexicographic order is total.
pub proof fn lemma_bytes_le_total(a: Seq<u8>, b: Seq<u8>)
    ensures
        bytes_le(a, b) || bytes_le(b, a),
    decreases a.len(),
{
    if a.len() > 0 && b.len() > 0 && a[0] == b[0] {
        lemma_bytes_le_total(a.drop_first(), b.drop_first());
    }
}

/// Byte-wise lexicographic order is antisymmetric.
pub proof fn lemma_bytes_le_antisymmetric(a: Seq<u8>, b: Seq<u8>)
    requires
        bytes_le(a, b),
        bytes_le(b, a),
    ensures
        a == b,
    decreases a.len(),
{
    if a.len() > 0 && b.len() > 0 {
        lemma_bytes_le_antisymmetric(a.drop_first(), b.drop_first());
        assert(a =~= seq![a[0]] + a.drop_first());
        assert(b =~= seq![b[0]] + b.drop_first());
    }
}

/// Byte-wise lexicographic order is transitive.
pub proof fn lemma_bytes_le_transitive(a: Seq<u8>, b: Seq<u8>, c: Seq<u8>)
    requires
        bytes_le(a, b),
        bytes_le(b, c),
    ensures
        bytes_le(a, c),
    decreases a.len(),
{
    if a.len() > 0 && b.len() > 0 && c.len() > 0 && a[0] == b[0] && b[0] == c[0] {
        lemma_bytes_le_transitive(a.drop_first(), b.drop_first(), c.drop_first());
    }
}

/// Four big-endian bytes read back give the value they were written from.
pub proof fn lemma_be_u32_roundtrip(x: u32)
    ensures
        be_u32(u32_be(x)) == x,
{
    let xi = x as int;
    assert(xi / 0x100_0000 < 0x100);
    assert(xi == (xi / 0x100_0000) * 0x100_0000 + (xi / 0x1_0000 % 0x100) * 0x1_0000 + (xi / 0x100 % 0x100) * 0x100
        + xi % 0x100) by (nonlinear_arith)
        requires
            0 <= xi < 0x1_0000_0000,
    ;
}

/// Decoding an encoded full key gives back its user key, whatever the epoch.
pub proof fn lemma_decode_encode(key: UserKeyView, epoch: u64)
    ensures
        decode_user_key(encode_full_key(key, epoch)) == key,
{
    let e = encode_full_key(key, epoch);
    lemma_be_u32_roundtrip(key.0);
    assert(e.take(4) =~= u32_be(key.0));
    assert(e.subrange(4, e.len() - 8) =~= key.1);
}

} // verus!
