//! A small fixed-bucket open-hashing map over a byte-polynomial hasher.

use vstd::prelude::*;

verus! {

use vstd::std_specs::cmp::PartialEqSpec;
use vstd::utf8::encode_utf8;

/// Number of buckets every map is born with.
pub const BUCKETS: usize = 256;

/// One wrapping step of the polynomial hash: shift by the base and add a
/// byte, modulo two to the sixty-fourth.
pub open spec fn poly_step(h: u64, b: u8) -> u64 {
    ((h * 131 + b) % 0x1_0000_0000_0000_0000) as u64
}

/// The polynomial hash of a byte string, folded left to right from zero.
pub open spec fn poly_hash(s: Seq<u8>) -> u64
    decreases s.len(),
{
    if s.len() == 0 {
        0u64
    } else {
        poly_step(poly_hash(s.drop_last()), s.last())
    }
}

/// Consumes bytes and boils them down to one 64-bit value.
pub trait Hasher {
    /// The bytes written so far.
    spec fn written(&self) -> Seq<u8>;

    /// What `finish` returns for the bytes written so far.
    spec fn hash_value(&self) -> u64;

    fn write_u8(&mut self, value: u8)
        ensures
            final(self).written() == old(self).written().push(value),
    ;

    fn finish(&self) -> (r: u64)
        ensures
            r == self.hash_value(),
    ;
}

/// A type whose values can be fed to a [`Hasher`].
pub trait Hash {
    /// The byte image a value feeds to the hasher.
    spec fn bytes(&self) -> Seq<u8>;

    fn hash<H: Hasher>(&self, hasher: &mut H)
        ensures
            final(hasher).written() == old(hasher).written() + self.bytes(),
    ;
}

/// The default hasher: buffers the written bytes and folds them with the
/// wrapping polynomial when finished.
pub struct DefaultHasher {
    pub buf: Vec<u8>,
}

impl DefaultHasher {
    pub fn new() -> (r: Self)
        ensures
            r.buf@ == Seq::<u8>::empty(),
    {
        Self { buf: Vec::new() }
    }
}

impl Hasher for DefaultHasher {
    open spec fn written(&self) -> Seq<u8> {
        self.buf@
    }

    open spec fn hash_value(&self) -> u64 {
        poly_hash(self.buf@)
    }

    fn write_u8(&mut self, value: u8)
        ensures
            final(self).written() == old(self).written().push(value),
    {
        self.buf.push(value);
    }

    fn finish(&self) -> (r: u64)
        ensures
            r == self.hash_value(),
    {
        let ghost s = self.buf@;
        let mut hash: u64 = 0;
        let n = self.buf.len();
        for i in 0..n
            invariant
                s == self.buf@,
                n == s.len(),
                hash == poly_hash(s.take(i as int)),
        {
            proof {
                assert(s.take(i + 1).drop_last() =~= s.take(i as int));
                assert(s.take(i + 1).last() == s[i as int]);
            }
            let prod: u128 = (hash as u128) * 131 + (self.buf[i] as u128);
            hash = (prod % 0x1_0000_0000_0000_0000u128) as u64;
        }
        proof {
            assert(s.take(n as int) =~= s);
        }
        hash
    }
}

impl Hash for String {
    /// A string hashes as its UTF-8 bytes.
    open spec fn bytes(&self) -> Seq<u8> {
        encode_utf8(self@)
    }

    fn hash<H: Hasher>(&self, hasher: &mut H)
        ensures
            final(hasher).written() == old(hasher).written() + self.bytes(),
    {
        let bs = self.as_str().as_bytes();
        let ghost w0 = hasher.written();
        let n = bs.len();
        for i in 0..n
            invariant
                n == bs@.len(),
                bs@ == self.bytes(),
                hasher.written() == w0 + bs@.take(i as int),
        {
            proof {
                assert(w0 + bs@.take(i + 1) =~= (w0 + bs@.take(i as int)).push(bs@[i as int]));
            }
            hasher.write_u8(bs[i]);
        }
        proof {
            assert(w0 + bs@.take(n as int) =~= w0 + bs@);
        }
    }
}

/// All pairs the buckets hold, bucket after bucket.
pub open spec fn pairs_of<K, V>(bs: Seq<Seq<(K, V)>>) -> Seq<(K, V)>
    decreases bs.len(),
{
    if bs.len() == 0 {
        Seq::empty()
    } else {
        pairs_of(bs.drop_last()) + bs.last()
    }
}

/// An open-hashing map with a fixed number of buckets: a key's hash picks
/// the bucket, and the bucket is a plain list of pairs.
pub struct HashMap<K, V> {
    pub table: Vec<Vec<(K, V)>>,
}

impl<K, V> HashMap<K, V> where K: Hash + Eq {
    /// Well-formedness: the table always holds exactly [`BUCKETS`] buckets.
    pub open spec fn wf(self) -> bool {
        self.table@.len() == BUCKETS
    }

    /// The buckets' contents.
    pub open spec fn buckets(self) -> Seq<Seq<(K, V)>> {
        Seq::new(self.table@.len() as nat, |i: int| self.table@[i]@)
    }

    /// The bucket a byte image lands in.
    pub open spec fn bucket_of(bytes: Seq<u8>) -> int {
        poly_hash(bytes) as int % (BUCKETS as int)
    }

    /// Some pair in bucket `h` carries the value `v`.
    pub open spec fn value_in_bucket(self, h: int, v: V) -> bool {
        exists|j: int| 0 <= j < self.buckets()[h].len() && self.buckets()[h][j].1 == v
    }

    /// Some pair in bucket `h` has a key equal to `key`, by the key type's
    /// own equality.
    pub open spec fn key_in_bucket(self, h: int, key: K) -> bool {
        exists|j: int|
            0 <= j < self.buckets()[h].len() && (#[trigger] self.buckets()[h][j]).0.eq_spec(&key)
    }

    /// The pair at index `j` of bucket `h` is the first whose key equals
    /// `key`, and it carries the value `v`.
    pub open spec fn found_at(self, h: int, key: K, j: int, v: V) -> bool {
        &&& 0 <= j < self.buckets()[h].len()
        &&& self.buckets()[h][j].0.eq_spec(&key)
        &&& (forall|m: int|
            0 <= m < j ==> !(#[trigger] self.buckets()[h][m]).0.eq_spec(&key))
        &&& v == self.buckets()[h][j].1
    }

    /// Looking `key` up finds `v`: the first matching pair carries it.
    pub open spec fn finds(self, key: K, v: V) -> bool {
        exists|j: int| self.found_at(Self::bucket_of(key.bytes()), key, j, v)
    }

    pub fn new() -> (r: Self)
        ensures
            r.wf(),
            forall|i: int| 0 <= i < BUCKETS ==> r.buckets()[i].len() == 0,
    {
        let mut table: Vec<Vec<(K, V)>> = Vec::new();
        for i in 0..BUCKETS
            invariant
                table@.len() == i,
                forall|j: int| 0 <= j < i ==> (#[trigger] table@[j])@.len() == 0,
        {
            table.push(Vec::new());
        }
        HashMap { table }
    }

    /// Map a key to its bucket index by hashing its byte image.
    fn hash(&self, key: &K) -> (r: usize)
        ensures
            0 <= r < BUCKETS,
            r as int == Self::bucket_of(key.bytes()),
    {
        let mut hasher = DefaultHasher::new();
        key.hash(&mut hasher);
        proof {
            assert(hasher.written() =~= key.bytes());
        }
        let h = hasher.finish();
        (h % 256) as usize
    }

    /// Append the pair to the key's bucket; every other bucket is untouched.
    pub fn insert(&mut self, key: K, value: V)
        requires
            old(self).wf(),
        ensures
            final(self).wf(),
            final(self).buckets() =~= old(self).buckets().update(
                Self::bucket_of(key.bytes()),
                old(self).buckets()[Self::bucket_of(key.bytes())].push((key, value)),
            ),
    {
        let h = self.hash(&key);
        let mut bucket = self.table.remove(h);
        bucket.push((key, value));
        self.table.insert(h, bucket);
    }

    /// Look the key up in its bucket: any returned value was stored there.
    pub fn get(&self, key: &K) -> (r: Option<&V>)
        requires
            self.wf(),
        ensures
            r matches Some(v) ==> self.value_in_bucket(Self::bucket_of(key.bytes()), *v),
            K::obeys_eq_spec() ==> (r matches Some(v) ==> self.finds(*key, *v)),
            K::obeys_eq_spec() && r is None ==> !self.key_in_bucket(
                Self::bucket_of(key.bytes()),
                *key,
            ),
    {
        let h = self.hash(key);
        let bucket = &self.table[h];
        let n = bucket.len();
        let mut j: usize = 0;
        while j < n
            invariant
                j <= n,
                n == bucket@.len(),
                bucket@ == self.buckets()[h as int],
                0 <= h < BUCKETS,
                h as int == Self::bucket_of(key.bytes()),
                self.wf(),
                K::obeys_eq_spec() ==> forall|m: int|
                    0 <= m < j ==> !(#[trigger] bucket@[m]).0.eq_spec(key),
            decreases n - j,
        {
            if bucket[j].0 == *key {
                let found = &bucket[j].1;
                proof {
                    assert(*found == bucket@[j as int].1);
                    let ghost hb = Self::bucket_of(key.bytes());
                    assert((j as int) < self.buckets()[hb].len());
                    assert(self.buckets()[hb][j as int].1 == *found);
                    assert(self.value_in_bucket(hb, *found));
                    if K::obeys_eq_spec() {
                        assert(self.found_at(hb, *key, j as int, *found));
                        assert(self.finds(*key, *found));
                    }
                }
                return Some(found);
            }
            j = j + 1;
        }
        proof {
            if K::obeys_eq_spec() {
                let ghost hb = h as int;
                assert(forall|m: int|
                    0 <= m < self.buckets()[hb].len() ==> !(#[trigger] self.buckets()[hb][m]).0.eq_spec(key));
            }
        }
        None
    }

    /// Every pair held, bucket after bucket.
    pub fn iter(&self) -> (r: Vec<&(K, V)>)
        requires
            self.wf(),
        ensures
            r@.len() == pairs_of(self.buckets()).len(),
            forall|m: int| 0 <= m < r@.len() ==> *(#[trigger] r@[m]) == pairs_of(self.buckets())[m],
    {
        let ghost bt = self.buckets();
        let mut out: Vec<&(K, V)> = Vec::new();
        let n = self.table.len();
        for i in 0..n
            invariant
                n == self.table@.len(),
                bt == self.buckets(),
                out@.len() == pairs_of(bt.take(i as int)).len(),
                forall|m: int|
                    0 <= m < out@.len() ==> *(#[trigger] out@[m]) == pairs_of(bt.take(i as int))[m],
        {
            let bucket = &self.table[i];
            let ghost done = pairs_of(bt.take(i as int));
            let k = bucket.len();
            let mut j: usize = 0;
            while j < k
                invariant
                    j <= k,
                    k == bucket@.len(),
                    bucket@ == bt[i as int],
                    0 <= i < bt.len(),
                    out@.len() == done.len() + j,
                    forall|m: int| 0 <= m < done.len() ==> *(#[trigger] out@[m]) == done[m],
                    forall|m: int|
                        done.len() <= m < out@.len() ==> *(#[trigger] out@[m]) == bucket@[
                            m - done.len()
                        ],
                decreases k - j,
            {
                out.push(&bucket[j]);
                j = j + 1;
            }
            proof {
                assert(bt.take(i + 1).drop_last() =~= bt.take(i as int));
                assert(bt.take(i + 1).last() == bt[i as int]);
                assert(pairs_of(bt.take(i + 1)) == done + bt[i as int]);
            }
        }
        proof {
            assert(bt.take(n as int) =~= bt);
        }
        out
    }
}

} // verus!
