use vstd::prelude::*;

verus! {

/// Width of a neighborhood: a key lives at most this far past its home bucket.
pub const HOP_RANGE: usize = 32;

/// How far past its home bucket an insert looks for a free bucket.
pub const ADD_RANGE: usize = 256;

/// Capacity of a table made by `new`.
pub const MAX_SEGMENTS: usize = 1048576;


/// Whether bit `d` of `x` is set.
pub open spec fn bit(x: u64, d: int) -> bool {
    (x >> (d as u64)) & 1u64 == 1u64
}

proof fn lemma_bit_zero(d: u64)
    requires
        d < 64,
    ensures
        !bit(0u64, d as int),
{
    assert((0u64 >> d) & 1u64 != 1u64) by (bit_vector);
}

proof fn lemma_bit_set(x: u64, d: u64, e: u64)
    requires
        d < 64,
        e < 64,
    ensures
        bit(x | (1u64 << d), e as int) == (e == d || bit(x, e as int)),
{
    assert((((x | (1u64 << d)) >> e) & 1u64 == 1u64) == (e == d || (x >> e) & 1u64 == 1u64))
        by (bit_vector)
        requires
            d < 64,
            e < 64,
    ;
}

proof fn lemma_bit_clear(x: u64, d: u64, e: u64)
    requires
        d < 64,
        e < 64,
    ensures
        bit(x & !(1u64 << d), e as int) == (e != d && bit(x, e as int)),
{
    assert((((x & !(1u64 << d)) >> e) & 1u64 == 1u64) == (e != d && (x >> e) & 1u64 == 1u64))
        by (bit_vector)
        requires
            d < 64,
            e < 64,
    ;
}


/// FNV-1a offset basis.
pub const FNV_OFFSET: u64 = 0xcbf2_9ce4_8422_2325;

/// FNV-1a prime.
pub const FNV_PRIME: u64 = 0x0000_0100_0000_01b3;

/// FNV-1a hash of `bytes`.
pub open spec fn fnv1a(bytes: Seq<u8>) -> u64
    decreases bytes.len(),
{
    if bytes.len() == 0 {
        FNV_OFFSET
    } else {
        (fnv1a(bytes.drop_last()) ^ (bytes.last() as u64)).wrapping_mul(FNV_PRIME)
    }
}

/// The eight bytes of `x`, least significant first.
pub open spec fn le_bytes(x: u64) -> Seq<u8> {
    Seq::new(8, |i: int| ((x >> (8 * i) as u64) & 0xffu64) as u8)
}

/// FNV-1a hash of a byte slice.
pub fn fnv1a_bytes(b: &[u8]) -> (r: u64)
    ensures
        r == fnv1a(b@),
{
    let mut h = FNV_OFFSET;
    let mut i: usize = 0;
    while i < b.len()
        invariant
            i <= b@.len(),
            h == fnv1a(b@.subrange(0, i as int)),
        decreases b@.len() - i,
    {
        proof {
            assert(b@.subrange(0, i + 1).drop_last() =~= b@.subrange(0, i as int));
        }
        h = (h ^ (b[i] as u64)).wrapping_mul(FNV_PRIME);
        i = i + 1;
    }
    assert(b@.subrange(0, b@.len() as int) =~= b@);
    h
}

/// FNV-1a hash of the eight bytes of `x`, least significant first.
pub fn fnv1a_u64(x: u64) -> (r: u64)
    ensures
        r == fnv1a(le_bytes(x)),
{
    let mut h = FNV_OFFSET;
    let mut i: u64 = 0;
    while i < 8
        invariant
            i <= 8,
            h == fnv1a(le_bytes(x).subrange(0, i as int)),
        decreases 8 - i,
    {
        proof {
            assert(le_bytes(x).subrange(0, i + 1).drop_last() =~= le_bytes(x).subrange(0, i as int));
        }
        let byte = ((x >> (8 * i)) & 0xff) as u8;
        h = (h ^ (byte as u64)).wrapping_mul(FNV_PRIME);
        i = i + 1;
    }
    assert(le_bytes(x).subrange(0, 8) =~= le_bytes(x));
    h
}

/// A key of a `HOPTable`: keys are told apart by their model, and equal models hash alike.
pub trait TableKey: Sized {
    type Model;

    spec fn model(&self) -> Self::Model;

    spec fn hash_model(m: Self::Model) -> u64;

    fn same_key(&self, other: &Self) -> (r: bool)
        ensures
            r == (self.model() == other.model()),
    ;

    fn hash_code(&self) -> (r: u64)
        ensures
            r == Self::hash_model(self.model()),
    ;

    fn duplicate_key(&self) -> (r: Self)
        ensures
            r.model() == self.model(),
    ;
}

impl TableKey for u64 {
    type Model = u64;

    open spec fn model(&self) -> u64 {
        *self
    }

    open spec fn hash_model(m: u64) -> u64 {
        fnv1a(le_bytes(m))
    }

    fn same_key(&self, other: &u64) -> (r: bool) {
        *self == *other
    }

    fn hash_code(&self) -> (r: u64) {
        fnv1a_u64(*self)
    }

    fn duplicate_key(&self) -> (r: u64) {
        *self
    }
}

impl TableKey for String {
    type Model = Seq<char>;

    open spec fn model(&self) -> Seq<char> {
        self@
    }

    open spec fn hash_model(m: Seq<char>) -> u64 {
        fnv1a(vstd::utf8::encode_utf8(m))
    }

    fn same_key(&self, other: &String) -> (r: bool) {
        *self == *other
    }

    fn hash_code(&self) -> (r: u64) {
        fnv1a_bytes(self.as_str().as_bytes())
    }

    fn duplicate_key(&self) -> (r: String) {
        self.clone()
    }
}

/// One slot of the table: the bitmap of the neighborhood it is home to, and the entry it holds.
pub struct Bucket<K, V> {
    hop_info: u64,
    key: Option<K>,
    data: Option<V>,
}

impl<K, V> Bucket<K, V> {
    /// An empty bucket that is home to no entry.
    fn empty() -> (r: Bucket<K, V>)
        ensures
            r.hop_info == 0,
            r.key is None,
            r.data is None,
    {
        Bucket { hop_info: 0, key: None, data: None }
    }

    /// The bucket itself, by value.
    #[inline]
    pub fn consume(self) -> (r: Bucket<K, V>)
        ensures
            r == self,
    {
        self
    }
}

/// What went wrong in a table operation.
#[derive(PartialEq, Eq, Structural, Debug, Clone, Copy)]
pub enum TableError {
    /// No free bucket within reach of the key's home, and none could be freed by displacement.
    Capacity,
}

/// Hopscotch hash table: every key sits within `HOP_RANGE` buckets of its home bucket, and the
/// home bucket's bitmap marks exactly the buckets that hold its keys.
pub struct HOPTable<K: TableKey, V> {
    segments: Vec<Bucket<K, V>>,
    max_segments: usize,
    contents: Ghost<Map<K::Model, V>>,
    loc: Ghost<Map<K::Model, int>>,
}

impl<K: TableKey, V> HOPTable<K, V> {
    /// The entries of the table.
    pub closed spec fn view(&self) -> Map<K::Model, V> {
        self.contents@
    }

    /// Number of home buckets.
    pub closed spec fn capacity(&self) -> nat {
        self.max_segments as nat
    }

    /// Number of buckets, home buckets and overflow together.
    pub closed spec fn span(&self) -> int {
        self.segments@.len() as int
    }

    /// The home bucket of a key with model `m`.
    pub closed spec fn home(&self, m: K::Model) -> int {
        (K::hash_model(m) % (self.max_segments as u64)) as int
    }

    /// The model of the key that bucket `i` holds, if any.
    pub closed spec fn resident(&self, i: int) -> Option<K::Model> {
        match self.segments@[i].key {
            Some(k) => Some(k.model()),
            None => None,
        }
    }

    /// Whether bit `d` of bucket `h`'s neighborhood bitmap is set.
    pub closed spec fn hop_bit(&self, h: int, d: int) -> bool {
        bit(self.segments@[h].hop_info, d)
    }

    /// The table's invariant.
    pub closed spec fn wf(&self) -> bool {
        &&& 0 < self.max_segments
        &&& self.max_segments + ADD_RANGE <= isize::MAX
        &&& self.contents@.dom().finite()
        &&& self.segments@.len() == self.max_segments + ADD_RANGE
        &&& forall|i: int|
            0 <= i < self.segments@.len() ==> (#[trigger] self.segments@[i]).key is Some
                == self.segments@[i].data is Some
        &&& forall|i: int|
            #![trigger self.resident(i)]
            0 <= i < self.segments@.len() && self.resident(i) is Some ==> {
                let m = self.resident(i)->0;
                &&& self.home(m) <= i < self.home(m) + HOP_RANGE
                &&& self.loc@.contains_key(m)
                &&& self.loc@[m] == i
                &&& self.contents@.contains_key(m)
                &&& self.segments@[i].data == Some(self.contents@[m])
            }
        &&& forall|m: K::Model|
            #![trigger self.contents@.contains_key(m)]
            self.contents@.contains_key(m) ==> {
                &&& self.loc@.contains_key(m)
                &&& 0 <= self.loc@[m] < self.segments@.len()
                &&& self.resident(self.loc@[m]) == Some(m)
            }
        &&& forall|h: int, d: int|
            #![trigger self.hop_bit(h, d)]
            0 <= h < self.segments@.len() && 0 <= d < 64 ==> (self.hop_bit(h, d) <==> {
                &&& d < HOP_RANGE
                &&& h + d < self.segments@.len()
                &&& self.resident(h + d) is Some
                &&& self.home(self.resident(h + d)->0) == h
            })
    }

    /// A resident key sits in exactly one bucket of its neighborhood, and of the bits of its
    /// home's bitmap exactly one marks that bucket.
    pub proof fn lemma_placement(&self, m: K::Model)
        requires
            self.wf(),
            self@.contains_key(m),
        ensures
            exists|d: int|
                0 <= d < HOP_RANGE && self.hop_bit(self.home(m), d) && forall|e: int|
                    0 <= e < HOP_RANGE ==> (#[trigger] self.resident(self.home(m) + e) == Some(m)
                        <==> e == d),
    {
        let h = self.home(m);
        let j = self.loc@[m];
        let d = j - h;
        assert(self.resident(j) == Some(m));
        assert(self.hop_bit(h, d));
        assert forall|e: int| 0 <= e < HOP_RANGE implies (#[trigger] self.resident(h + e) == Some(m)
            <==> e == d) by {
            if self.resident(h + e) == Some(m) {
                assert(self.loc@[m] == h + e);
            }
        }
    }

    /// A table holding fewer than `HOP_RANGE` keys has a free bucket in every neighborhood, so
    /// an insert into it succeeds.
    pub proof fn lemma_room_in_neighborhood(&self, m: K::Model)
        requires
            self.wf(),
            self@.len() < HOP_RANGE,
        ensures
            exists|d: int| 0 <= d < HOP_RANGE && #[trigger] self.resident(self.home(m) + d) is None,
    {
        let h = self.home(m);
        if forall|d: int| 0 <= d < HOP_RANGE ==> #[trigger] self.resident(h + d) is Some {
            let held = Seq::new(HOP_RANGE as nat, |d: int| self.resident(h + d)->0);
            assert forall|a: int, b: int| 0 <= a < b < held.len() implies held[a] != held[b] by {
                assert(self.resident(h + a) is Some);
                assert(self.resident(h + b) is Some);
                assert(self.loc@[held[a]] == h + a);
                assert(self.loc@[held[b]] == h + b);
            }
            held.unique_seq_to_set();
            assert(held.to_set().subset_of(self@.dom())) by {
                assert forall|x: K::Model| held.to_set().contains(x) implies self@.dom().contains(x) by {
                    let a = choose|a: int| 0 <= a < held.len() && held[a] == x;
                    assert(self.resident(h + a) is Some);
                }
            }
            vstd::set_lib::lemma_len_subset(held.to_set(), self@.dom());
            assert(false);
        }
    }

    proof fn lemma_home_bound(&self, m: K::Model)
        requires
            self.wf(),
        ensures
            0 <= self.home(m) < self.max_segments,
            self.home(m) + ADD_RANGE <= self.segments@.len(),
    {
    }
}

impl<K: TableKey, V: Clone> HOPTable<K, V> {
    /// An empty table with `MAX_SEGMENTS` home buckets.
    pub fn new() -> (r: HOPTable<K, V>)
        ensures
            r.wf(),
            r@ == Map::<K::Model, V>::empty(),
            r.capacity() == MAX_SEGMENTS,
    {
        assert(1048576usize & 1048575usize == 0) by (bit_vector);
        Self::with_capacity(MAX_SEGMENTS)
    }

    /// An empty table with `cap` home buckets; `cap` is a power of two.
    pub fn with_capacity(cap: usize) -> (r: HOPTable<K, V>)
        requires
            cap > 0,
            cap + ADD_RANGE <= isize::MAX,
            cap & ((cap - 1) as usize) == 0,
        ensures
            r.wf(),
            r@ == Map::<K::Model, V>::empty(),
            r.capacity() == cap,
    {
        let total = cap + ADD_RANGE;
        let mut segments: Vec<Bucket<K, V>> = Vec::new();
        while segments.len() < total
            invariant
                total == cap + ADD_RANGE,
                segments@.len() <= total,
                forall|i: int|
                    0 <= i < segments@.len() ==> (#[trigger] segments@[i]).hop_info == 0
                        && segments@[i].key is None && segments@[i].data is None,
            decreases total - segments@.len(),
        {
            segments.push(Bucket::empty());
        }
        let r = HOPTable {
            segments,
            max_segments: cap,
            contents: Ghost(Map::empty()),
            loc: Ghost(Map::empty()),
        };
        assert forall|h: int, d: int| 0 <= h < r.segments@.len() && 0 <= d < 64 implies !r.hop_bit(h, d) by {
            lemma_bit_zero(d as u64);
        }
        r
    }

    fn home_of(&self, k: &K) -> (r: usize)
        requires
            self.wf(),
        ensures
            r as int == self.home(k.model()),
            r < self.max_segments,
    {
        let hc = k.hash_code();
        (hc % (self.max_segments as u64)) as usize
    }

    /// Index of the bucket holding `k`, if the table holds it.
    fn find_index(&self, k: &K) -> (r: Option<usize>)
        requires
            self.wf(),
        ensures
            match r {
                Some(i) => i < self.segments@.len() && self.resident(i as int) == Some(k.model()),
                None => !self@.contains_key(k.model()),
            },
    {
        let h = self.home_of(k);
        let info = self.segments[h].hop_info;
        let mut i: usize = 0;
        while i < HOP_RANGE
            invariant
                self.wf(),
                h as int == self.home(k.model()),
                h < self.max_segments,
                info == self.segments@[h as int].hop_info,
                i <= HOP_RANGE,
                forall|d: int|
                    0 <= d < i && #[trigger] bit(info, d) ==> self.resident(h + d) != Some(k.model()),
            decreases HOP_RANGE - i,
        {
            if (info >> (i as u64)) & 1u64 == 1u64 {
                match &self.segments[h + i].key {
                    Some(x) => {
                        if x.same_key(k) {
                            return Some(h + i);
                        }
                    },
                    None => {},
                }
            }
            i = i + 1;
        }
        proof {
            let m = k.model();
            if self@.contains_key(m) {
                let j = self.loc@[m];
                assert(self.resident(j) == Some(m));
                assert(self.hop_bit(h as int, j - h));
            }
        }
        None
    }

    /// Index of the bucket holding `k`, or -1 when the table does not hold it.
    pub fn key_index(&self, k: &K) -> (r: isize)
        requires
            self.wf(),
        ensures
            r == -1 <==> !self@.contains_key(k.model()),
            r != -1 ==> 0 <= r < self.span() && self.resident(r as int) == Some(k.model()),
    {
        match self.find_index(k) {
            Some(i) => i as isize,
            None => -1,
        }
    }

    /// Puts `b` into bucket `i` and hands back what was there.
    fn swap_bucket(&mut self, i: usize, b: Bucket<K, V>) -> (prev: Bucket<K, V>)
        requires
            i < old(self).segments@.len(),
        ensures
            prev == old(self).segments@[i as int],
            final(self).segments@ == old(self).segments@.update(i as int, b),
            final(self).max_segments == old(self).max_segments,
            final(self).contents == old(self).contents,
            final(self).loc == old(self).loc,
    {
        let mut b = b;
        std::mem::swap(&mut self.segments[i], &mut b);
        b
    }

    /// Sets the bitmap of bucket `h`.
    fn set_hop_info(&mut self, h: usize, info: u64)
        requires
            h < old(self).segments@.len(),
        ensures
            final(self).segments@ == old(self).segments@.update(
                h as int,
                Bucket { hop_info: info, ..old(self).segments@[h as int] },
            ),
            final(self).max_segments == old(self).max_segments,
            final(self).contents == old(self).contents,
            final(self).loc == old(self).loc,
    {
        self.segments[h].hop_info = info;
    }

    /// Removes `k`, handing back the value it had.
    pub fn remove(&mut self, k: &K) -> (r: Result<Option<V>, TableError>)
        requires
            old(self).wf(),
        ensures
            final(self).wf(),
            final(self).capacity() == old(self).capacity(),
            final(self)@ == old(self)@.remove(k.model()),
            final(self).span() == old(self).span(),
            forall|i: int|
                0 <= i < old(self).span() ==> #[trigger] final(self).resident(i) == if old(
                    self,
                ).resident(i) == Some(k.model()) {
                    None
                } else {
                    old(self).resident(i)
                },
            forall|x: int, e: int|
                0 <= x < old(self).span() && 0 <= e < 64 ==> #[trigger] final(self).hop_bit(x, e)
                    == (old(self).hop_bit(x, e) && !(x == old(self).home(k.model()) && old(
                    self,
                ).resident(x + e) == Some(k.model()))),
            r == Ok::<Option<V>, TableError>(
                if old(self)@.contains_key(k.model()) {
                    Some(old(self)@[k.model()])
                } else {
                    None
                },
            ),
    {
        match self.find_index(k) {
            None => {
                assert(self@.remove(k.model()) =~= self@);
                assert forall|i: int| 0 <= i < self.span() implies self.resident(i) != Some(
                    k.model(),
                ) by {
                    if self.resident(i) == Some(k.model()) {
                        assert(self.contents@.contains_key(k.model()));
                    }
                }
                Ok(None)
            },
            Some(i) => {
                let ghost m = k.model();
                let ghost pre = *self;
                let h = self.home_of(k);
                proof {
                    assert(pre.loc@[m] == i);
                }
                let d = i - h;
                let info_i = self.segments[i].hop_info;
                let taken = self.swap_bucket(i, Bucket { hop_info: info_i, key: None, data: None });
                let info_h = self.segments[h].hop_info;
                self.set_hop_info(h, info_h & !(1u64 << (d as u64)));
                self.contents = Ghost(self.contents@.remove(m));
                self.loc = Ghost(self.loc@.remove(m));
                proof {
                    assert forall|a: int|
                        #![trigger self.resident(a)]
                        0 <= a < self.segments@.len() && a != i implies self.resident(a)
                        == pre.resident(a) by {}
                    assert forall|a: int|
                        #![trigger pre.resident(a)]
                        0 <= a < pre.segments@.len() && pre.resident(a) == Some(m) implies a
                        == i by {
                        assert(pre.loc@[m] == a);
                    }
                    assert forall|a: int|
                        0 <= a < self.segments@.len() && a != i implies self.segments@[a].data
                        == pre.segments@[a].data by {}
                    assert forall|x: int, e: int|
                        0 <= x < self.segments@.len() && 0 <= e < 64 implies (self.hop_bit(x, e)
                        <==> {
                        &&& e < HOP_RANGE
                        &&& x + e < self.segments@.len()
                        &&& self.resident(x + e) is Some
                        &&& self.home(self.resident(x + e)->0) == x
                    }) by {
                        assert(pre.hop_bit(x, e) == bit(pre.segments@[x].hop_info, e));
                        if x == h {
                            lemma_bit_clear(info_h, d as u64, e as u64);
                        } else {
                            assert(self.segments@[x].hop_info == pre.segments@[x].hop_info);
                        }
                    }
                    assert forall|x: int, e: int|
                        0 <= x < pre.span() && 0 <= e < 64 implies #[trigger] self.hop_bit(x, e)
                        == (pre.hop_bit(x, e) && !(x == pre.home(m) && pre.resident(x + e) == Some(m))) by {
                        if x == h {
                            lemma_bit_clear(info_h, d as u64, e as u64);
                            if x + e < pre.span() && pre.resident(x + e) == Some(m) {
                                assert(pre.loc@[m] == x + e);
                            }
                        } else {
                            assert(self.segments@[x].hop_info == pre.segments@[x].hop_info);
                        }
                    }
                    assert forall|mm: K::Model|
                        #![trigger self.contents@.contains_key(mm)]
                        self.contents@.contains_key(mm) implies {
                        &&& self.loc@.contains_key(mm)
                        &&& 0 <= self.loc@[mm] < self.segments@.len()
                        &&& self.resident(self.loc@[mm]) == Some(mm)
                    } by {
                        assert(pre.contents@.contains_key(mm));
                        assert(pre.resident(pre.loc@[mm]) == Some(mm));
                    }
                }
                Ok(taken.data)
            },
        }
    }

    /// Moves the entry at `m + j`, whose home is `m`, to the free bucket `m + fd`.
    fn relocate(&mut self, m: usize, j: usize, fd: usize)
        requires
            old(self).wf(),
            j < fd < HOP_RANGE,
            m + fd < old(self).segments@.len(),
            old(self).hop_bit(m as int, j as int),
            old(self).resident(m + fd) is None,
        ensures
            final(self).wf(),
            final(self)@ == old(self)@,
            final(self).capacity() == old(self).capacity(),
            final(self).resident(m + j) is None,
            final(self).resident(m + fd) == old(self).resident(m + j),
            forall|a: int|
                0 <= a < old(self).span() && a != m + j && a != m + fd ==> #[trigger] final(self).resident(a) == old(self).resident(a),
    {
        let ghost pre = *self;
        let src = m + j;
        let dst = m + fd;
        proof {
            assert(pre.hop_bit(m as int, j as int));
        }
        let ghost mk = pre.resident(src as int)->0;
        let info_src = self.segments[src].hop_info;
        let moved = self.swap_bucket(src, Bucket { hop_info: info_src, key: None, data: None });
        let info_dst = self.segments[dst].hop_info;
        self.swap_bucket(dst, Bucket { hop_info: info_dst, key: moved.key, data: moved.data });
        let info_m = self.segments[m].hop_info;
        let set = info_m | (1u64 << (fd as u64));
        self.set_hop_info(m, set & !(1u64 << (j as u64)));
        self.loc = Ghost(self.loc@.insert(mk, dst as int));
        proof {
            assert forall|a: int|
                #![trigger self.resident(a)]
                0 <= a < self.segments@.len() && a != src && a != dst implies self.resident(a)
                == pre.resident(a) && self.segments@[a].data == pre.segments@[a].data by {}
            assert(self.resident(dst as int) == Some(mk));
            assert(self.resident(src as int) is None);
            assert forall|x: int, e: int|
                0 <= x < self.segments@.len() && 0 <= e < 64 implies (self.hop_bit(x, e) <==> {
                &&& e < HOP_RANGE
                &&& x + e < self.segments@.len()
                &&& self.resident(x + e) is Some
                &&& self.home(self.resident(x + e)->0) == x
            }) by {
                assert(pre.hop_bit(x, e) == bit(pre.segments@[x].hop_info, e));
                if x == m {
                    lemma_bit_clear(set, j as u64, e as u64);
                    lemma_bit_set(info_m, fd as u64, e as u64);
                } else {
                    assert(self.segments@[x].hop_info == pre.segments@[x].hop_info);
                    if x + e == src {
                        assert(pre.resident(src as int) == Some(mk));
                    }
                }
            }
            assert forall|a: int|
                #![trigger self.resident(a)]
                0 <= a < self.segments@.len() && self.resident(a) is Some implies {
                let mm = self.resident(a)->0;
                &&& self.home(mm) <= a < self.home(mm) + HOP_RANGE
                &&& self.loc@.contains_key(mm)
                &&& self.loc@[mm] == a
                &&& self.contents@.contains_key(mm)
                &&& self.segments@[a].data == Some(self.contents@[mm])
            } by {
                if a != dst {
                    assert(pre.resident(a) is Some);
                    assert(pre.loc@[pre.resident(a)->0] == a);
                }
            }
            assert forall|mm: K::Model|
                #![trigger self.contents@.contains_key(mm)]
                self.contents@.contains_key(mm) implies {
                &&& self.loc@.contains_key(mm)
                &&& 0 <= self.loc@[mm] < self.segments@.len()
                &&& self.resident(self.loc@[mm]) == Some(mm)
            } by {
                assert(pre.resident(pre.loc@[mm]) == Some(mm));
                if mm != mk {
                    assert(pre.loc@[mm] != src);
                }
            }
        }
    }

    /// Frees a bucket closer to the front than the free bucket `free`: scans the buckets that
    /// have `free` in their neighborhood, starting with the one farthest from `free`, for one
    /// that owns an entry before `free`, and moves the first such entry it owns into `free`.
    /// Hands back the bucket freed, if any.
    fn find_closer_bucket(&mut self, free: usize) -> (r: Option<usize>)
        requires
            old(self).wf(),
            HOP_RANGE <= free < old(self).segments@.len(),
            old(self).resident(free as int) is None,
        ensures
            final(self).wf(),
            final(self)@ == old(self)@,
            final(self).capacity() == old(self).capacity(),
            match r {
                Some(nf) => {
                    &&& free - HOP_RANGE < nf < free
                    &&& final(self).resident(nf as int) is None
                    &&& final(self).resident(free as int) == old(self).resident(nf as int)
                    &&& old(self).resident(nf as int) is Some
                    &&& forall|a: int|
                        0 <= a < old(self).span() && a != nf && a != free ==> #[trigger] final(self).resident(a) == old(self).resident(a)
                },
                None => {
                    &&& *final(self) == *old(self)
                    &&& forall|fd: int, j: int|
                        0 < fd < HOP_RANGE && 0 <= j < fd ==> !#[trigger] old(self).hop_bit(
                            free - fd,
                            j,
                        )
                },
            },
    {
        let mut fd: usize = HOP_RANGE - 1;
        while fd >= 1
            invariant
                fd < HOP_RANGE,
                HOP_RANGE <= free < self.segments@.len(),
                self.wf(),
                self.resident(free as int) is None,
                *self == *old(self),
                forall|f: int, j: int|
                    fd < f < HOP_RANGE && 0 <= j < f ==> !#[trigger] self.hop_bit(free - f, j),
            decreases fd,
        {
            let m = free - fd;
            let info = self.segments[m].hop_info;
            let mut j: usize = 0;
            while j < fd && (info >> (j as u64)) & 1u64 != 1u64
                invariant
                    j <= fd,
                    fd < HOP_RANGE,
                    forall|x: int| 0 <= x < j ==> !#[trigger] bit(info, x),
                decreases fd - j,
            {
                j = j + 1;
            }
            if j < fd {
                proof {
                    assert(self.hop_bit(m as int, j as int));
                    assert(self.resident(m + j) is Some);
                }
                self.relocate(m, j, fd);
                return Some(m + j);
            }
            proof {
                assert forall|f: int, x: int|
                    fd - 1 < f < HOP_RANGE && 0 <= x < f implies !#[trigger] self.hop_bit(free - f, x) by {
                    if f == fd {
                        assert(self.segments@[free - f].hop_info == info);
                    }
                }
            }
            fd = fd - 1;
        }
        None
    }

    /// Stores `v` under `k`, replacing and handing back any value `k` had. Fails with
    /// `Capacity`, leaving the table as it was, when no bucket within `ADD_RANGE` of the key's
    /// home is free, or when none can be brought within `HOP_RANGE` of it by displacement.
    pub fn insert(&mut self, k: K, v: V) -> (r: Result<Option<V>, TableError>)
        requires
            old(self).wf(),
        ensures
            final(self).wf(),
            final(self).capacity() == old(self).capacity(),
            old(self)@.contains_key(k.model()) ==> r is Ok,
            (exists|d: int|
                0 <= d < HOP_RANGE && #[trigger] old(self).resident(old(self).home(k.model()) + d)
                    is None) ==> r is Ok,
            !old(self)@.contains_key(k.model()) && (forall|d: int|
                0 <= d < ADD_RANGE ==> #[trigger] old(self).resident(old(self).home(k.model()) + d)
                    is Some) ==> r is Err,
            match r {
                Ok(prev) => {
                    &&& final(self)@ == old(self)@.insert(k.model(), v)
                    &&& prev == if old(self)@.contains_key(k.model()) {
                        Some(old(self)@[k.model()])
                    } else {
                        None
                    }
                },
                Err(e) => {
                    &&& e == TableError::Capacity
                    &&& !old(self)@.contains_key(k.model())
                    &&& final(self)@ == old(self)@
                    &&& ((forall|d: int|
                        0 <= d < ADD_RANGE ==> #[trigger] old(self).resident(
                            old(self).home(k.model()) + d,
                        ) is Some) || exists|f: int|
                        {
                            &&& old(self).home(k.model()) + HOP_RANGE <= f < old(self).home(
                                k.model(),
                            ) + ADD_RANGE
                            &&& final(self).resident(f) is None
                            &&& forall|e: int|
                                old(self).home(k.model()) <= e < f ==> #[trigger] final(self).resident(e)
                                    is Some
                            &&& forall|fd: int, j: int|
                                0 < fd < HOP_RANGE && 0 <= j < fd
                                    ==> !#[trigger] final(self).hop_bit(f - fd, j)
                        })
                },
            },
    {
        let ghost m = k.model();
        let ghost pre = *self;
        let prev = match self.remove(&k) {
            Ok(p) => p,
            Err(e) => {
                return Err(e);
            },
        };
        let h = self.home_of(&k);
        let ghost slot: int = if pre@.contains_key(m) {
            pre.loc@[m]
        } else {
            0
        };
        proof {
            self.lemma_home_bound(m);
            if pre@.contains_key(m) {
                assert(pre.resident(slot) == Some(m));
                assert(self.resident(slot) is None);
                assert(h <= slot < h + HOP_RANGE);
            }
        }
        let mut dist: usize = 0;
        while dist < ADD_RANGE && self.segments[h + dist].key.is_some()
            invariant
                self.wf(),
                h as int == self.home(m),
                h + ADD_RANGE <= self.segments@.len(),
                dist <= ADD_RANGE,
                forall|e: int| 0 <= e < dist ==> (#[trigger] self.resident(h + e)) is Some,
            decreases ADD_RANGE - dist,
        {
            dist = dist + 1;
        }
        proof {
            if !pre@.contains_key(m) && dist < ADD_RANGE {
                assert(pre.home(m) == h);
                assert(self.resident(h + dist) is None);
                assert(pre.resident(pre.home(m) + dist) is None);
            }
            if pre@.contains_key(m) && slot - h < dist {
                assert(self.resident(h + (slot - h)) is Some);
            }
            if exists|d: int| 0 <= d < HOP_RANGE && #[trigger] pre.resident(pre.home(m) + d) is None {
                let d = choose|d: int| 0 <= d < HOP_RANGE && #[trigger] pre.resident(pre.home(m) + d) is None;
                assert(pre.home(m) == h);
                assert(self.resident(h + d) is None);
                if d < dist {
                    assert(self.resident(h + d) is Some);
                }
                assert(dist <= d);
            }
        }
        if dist == ADD_RANGE {
            proof {
                assert(self@ =~= pre@);
                assert forall|d: int| 0 <= d < ADD_RANGE implies #[trigger] pre.resident(pre.home(m) + d) is Some by {
                    assert(self.resident(h + d) is Some);
                }
            }
            return Err(TableError::Capacity);
        }
        let mut free = h + dist;
        proof {
            assert forall|e: int| h <= e < free implies #[trigger] self.resident(e) is Some by {
                assert(self.resident(h + (e - h)) is Some);
            }
        }
        while free - h >= HOP_RANGE
            invariant
                self.wf(),
                self.capacity() == pre.capacity(),
                pre == *old(self),
                m == k.model(),
                self@ == pre@.remove(m),
                h as int == self.home(m),
                h <= free < h + ADD_RANGE,
                h + ADD_RANGE <= self.segments@.len(),
                forall|e: int| h <= e < free ==> #[trigger] self.resident(e) is Some,
                self.resident(free as int) is None,
                pre@.contains_key(m) ==> free - h < HOP_RANGE,
                (exists|d: int| 0 <= d < HOP_RANGE && #[trigger] pre.resident(pre.home(m) + d) is None)
                    ==> free - h < HOP_RANGE,
            decreases free,
        {
            match self.find_closer_bucket(free) {
                Some(nf) => {
                    free = nf;
                },
                None => {
                    proof {
                        assert(self@ =~= pre@);
                    }
                    return Err(TableError::Capacity);
                },
            }
        }
        let d = free - h;
        let ghost mid = *self;
        let info_free = self.segments[free].hop_info;
        self.swap_bucket(free, Bucket { hop_info: info_free, key: Some(k), data: Some(v) });
        let info_h = self.segments[h].hop_info;
        self.set_hop_info(h, info_h | (1u64 << (d as u64)));
        self.contents = Ghost(self.contents@.insert(m, v));
        self.loc = Ghost(self.loc@.insert(m, free as int));
        proof {
            assert forall|a: int|
                #![trigger self.resident(a)]
                0 <= a < self.segments@.len() && a != free implies self.resident(a)
                == mid.resident(a) && self.segments@[a].data == mid.segments@[a].data by {}
            assert(self.resident(free as int) == Some(m));
            assert forall|x: int, e: int|
                0 <= x < self.segments@.len() && 0 <= e < 64 implies (self.hop_bit(x, e) <==> {
                &&& e < HOP_RANGE
                &&& x + e < self.segments@.len()
                &&& self.resident(x + e) is Some
                &&& self.home(self.resident(x + e)->0) == x
            }) by {
                assert(mid.hop_bit(x, e) == bit(mid.segments@[x].hop_info, e));
                if x == h {
                    lemma_bit_set(info_h, d as u64, e as u64);
                } else {
                    assert(self.segments@[x].hop_info == mid.segments@[x].hop_info);
                }
            }
            assert forall|a: int|
                #![trigger self.resident(a)]
                0 <= a < self.segments@.len() && self.resident(a) is Some implies {
                let mm = self.resident(a)->0;
                &&& self.home(mm) <= a < self.home(mm) + HOP_RANGE
                &&& self.loc@.contains_key(mm)
                &&& self.loc@[mm] == a
                &&& self.contents@.contains_key(mm)
                &&& self.segments@[a].data == Some(self.contents@[mm])
            } by {
                if a != free {
                    assert(mid.resident(a) is Some);
                    assert(mid.loc@[mid.resident(a)->0] == a);
                }
            }
            assert forall|mm: K::Model|
                #![trigger self.contents@.contains_key(mm)]
                self.contents@.contains_key(mm) implies {
                &&& self.loc@.contains_key(mm)
                &&& 0 <= self.loc@[mm] < self.segments@.len()
                &&& self.resident(self.loc@[mm]) == Some(mm)
            } by {
                if mm != m {
                    assert(mid.contents@.contains_key(mm));
                    assert(mid.resident(mid.loc@[mm]) == Some(mm));
                }
            }
            assert(self@ =~= pre@.insert(m, v));
        }
        Ok(prev)
    }

    /// The value stored under `k`, cloned.
    pub fn get(&self, k: &K) -> (r: Option<V>)
        requires
            self.wf(),
        ensures
            match r {
                Some(v) => self@.contains_key(k.model()) && cloned(self@[k.model()], v),
                None => !self@.contains_key(k.model()),
            },
    {
        match self.find_index(k) {
            Some(i) => {
                match &self.segments[i].data {
                    Some(v) => Some(v.clone()),
                    None => None,
                }
            },
            None => None,
        }
    }
}

/// Removing a key after inserting it leaves the key absent: a later `get` finds nothing.
pub proof fn lemma_insert_then_remove<M, V>(m: Map<M, V>, k: M, v: V)
    ensures
        !m.insert(k, v).remove(k).contains_key(k),
{
}

/// A second insert under the same key wins: a later `get` finds the second value.
pub proof fn lemma_insert_twice<M, V>(m: Map<M, V>, k: M, v: V, w: V)
    ensures
        m.insert(k, v).insert(k, w).contains_key(k),
        m.insert(k, v).insert(k, w)[k] == w,
        m.insert(k, v).insert(k, w) == m.insert(k, w),
{
    assert(m.insert(k, v).insert(k, w) =~= m.insert(k, w));
}

} // verus!
