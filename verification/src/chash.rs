//! A hash table from byte strings to byte strings, with chained buckets.

use vstd::prelude::*;

verus! {

/// A byte string, as a key or a value of the table.
#[allow(non_camel_case_types)]
pub struct chashdatum {
    pub data: Vec<u8>,
}

impl View for chashdatum {
    type V = Seq<u8>;

    open spec fn view(&self) -> Seq<u8> {
        self.data@
    }
}

impl chashdatum {
    /// The number of bytes.
    pub fn len(&self) -> (n: usize)
        ensures
            n == self@.len(),
    {
        self.data.len()
    }
}

/// An entry of the table, with the hash of its key.
#[allow(non_camel_case_types)]
pub struct chashcell {
    pub func: u32,
    pub key: Vec<u8>,
    pub value: Vec<u8>,
}

/// One step of the hash of a key: the hash so far times 33, plus the byte
/// taken as a signed char.
pub open spec fn spec_hash_step(c: u32, b: u8) -> u32 {
    let add: int = if b < 128 { b as int } else { b as int + 4294967040 };
    ((c as int * 33 + add) % 4294967296) as u32
}

/// The hash of a key (djb2, over signed chars, modulo 2^32).
pub open spec fn spec_chash_func(k: Seq<u8>) -> u32
    decreases k.len(),
{
    if k.len() == 0 {
        5381
    } else {
        spec_hash_step(spec_chash_func(k.drop_last()), k.last())
    }
}

pub fn chash_func(key: &[u8]) -> (h: u32)
    ensures
        h == spec_chash_func(key@),
{
    let mut c: u32 = 5381;
    let mut i: usize = 0;
    assert(key@.subrange(0, 0) =~= Seq::<u8>::empty());
    while i < key.len()
        invariant
            0 <= i <= key@.len(),
            c == spec_chash_func(key@.subrange(0, i as int)),
        decreases key@.len() - i,
    {
        let b = key[i];
        let add: u64 = if b < 128 { b as u64 } else { b as u64 + 4294967040 };
        c = ((c as u64 * 33 + add) % 4294967296) as u32;
        assert(key@.subrange(0, i + 1).drop_last() =~= key@.subrange(0, i as int));
        i = i + 1;
    }
    assert(key@.subrange(0, key@.len() as int) =~= key@);
    c
}

fn bytes_eq(a: &[u8], b: &[u8]) -> (r: bool)
    ensures
        r == (a@ == b@),
{
    if a.len() != b.len() {
        return false;
    }
    let mut i: usize = 0;
    while i < a.len()
        invariant
            a@.len() == b@.len(),
            0 <= i <= a@.len(),
            forall|k: int| 0 <= k < i ==> a@[k] == b@[k],
        decreases a@.len() - i,
    {
        if a[i] != b[i] {
            return false;
        }
        i = i + 1;
    }
    assert(a@ =~= b@);
    true
}

/// The entries of a bucket as (key, value) pairs.
pub open spec fn cells_entries(v: Seq<chashcell>) -> Seq<(Seq<u8>, Seq<u8>)> {
    v.map_values(|c: chashcell| (c.key@, c.value@))
}

/// The entries of each bucket as (key, value) pairs.
pub open spec fn layout_of(cells: Seq<Vec<chashcell>>) -> Seq<Seq<(Seq<u8>, Seq<u8>)>> {
    cells.map_values(|bk: Vec<chashcell>| cells_entries(bk@))
}

/// `n` empty buckets.
pub open spec fn empty_layout(n: int) -> Seq<Seq<(Seq<u8>, Seq<u8>)>> {
    Seq::new(n as nat, |i: int| Seq::<(Seq<u8>, Seq<u8>)>::empty())
}

/// The bucket of key `k` among `n` buckets.
pub open spec fn bucket_of(k: Seq<u8>, n: int) -> int {
    spec_chash_func(k) as int % n
}

/// The first position from `j` on of key `k` in a bucket.
pub open spec fn key_pos_from(bk: Seq<(Seq<u8>, Seq<u8>)>, k: Seq<u8>, j: int) -> Option<int>
    decreases bk.len() - j,
{
    if j < 0 || j >= bk.len() {
        None
    } else if bk[j].0 == k {
        Some(j)
    } else {
        key_pos_from(bk, k, j + 1)
    }
}

/// The buckets after `k` is set to `v`: an entry for `k` in its bucket takes
/// the new value in place; otherwise the new entry goes to the front.
pub open spec fn layout_set(l: Seq<Seq<(Seq<u8>, Seq<u8>)>>, k: Seq<u8>, v: Seq<u8>) -> Seq<Seq<(Seq<u8>, Seq<u8>)>> {
    let b = bucket_of(k, l.len() as int);
    match key_pos_from(l[b], k, 0) {
        Some(j) => l.update(b, l[b].update(j, (k, v))),
        None => l.update(b, l[b].insert(0, (k, v))),
    }
}

/// The buckets after `k` is deleted: its entry leaves its bucket.
pub open spec fn layout_delete(l: Seq<Seq<(Seq<u8>, Seq<u8>)>>, k: Seq<u8>) -> Seq<Seq<(Seq<u8>, Seq<u8>)>> {
    let b = bucket_of(k, l.len() as int);
    match key_pos_from(l[b], k, 0) {
        Some(j) => l.update(b, l[b].remove(j)),
        None => l,
    }
}

/// Moving the entries of `l` from bucket `b`, position `j` on, into `acc`
/// of `n` buckets: each goes to the front of the bucket of its key.
pub open spec fn rehash_from(l: Seq<Seq<(Seq<u8>, Seq<u8>)>>, n: int, b: int, j: int, acc: Seq<Seq<(Seq<u8>, Seq<u8>)>>) -> Seq<Seq<(Seq<u8>, Seq<u8>)>>
    decreases l.len() - b, (if 0 <= b < l.len() { l[b].len() - j } else { 0 }),
{
    if b < 0 || b >= l.len() {
        acc
    } else if j < 0 || j >= l[b].len() {
        rehash_from(l, n, b + 1, 0, acc)
    } else {
        let e = l[b][j];
        let nb = bucket_of(e.0, n);
        rehash_from(l, n, b, j + 1, acc.update(nb, acc[nb].insert(0, e)))
    }
}

/// The buckets after the table is given `n` buckets: unchanged when it
/// already has `n`; otherwise the old buckets, in order, are moved to new ones.
pub open spec fn layout_resize(l: Seq<Seq<(Seq<u8>, Seq<u8>)>>, n: int) -> Seq<Seq<(Seq<u8>, Seq<u8>)>> {
    if n == l.len() {
        l
    } else {
        rehash_from(l, n, 0, 0, empty_layout(n))
    }
}

proof fn lemma_key_pos_found(bk: Seq<(Seq<u8>, Seq<u8>)>, k: Seq<u8>, i: int, j: int)
    requires
        0 <= i <= j < bk.len(),
        bk[j].0 == k,
        forall|m: int| i <= m < j ==> #[trigger] bk[m].0 != k,
    ensures
        key_pos_from(bk, k, i) == Some(j),
    decreases j - i,
{
    if i < j {
        lemma_key_pos_found(bk, k, i + 1, j);
    }
}

proof fn lemma_key_pos_none(bk: Seq<(Seq<u8>, Seq<u8>)>, k: Seq<u8>, i: int)
    requires
        0 <= i,
        forall|m: int| i <= m < bk.len() ==> #[trigger] bk[m].0 != k,
    ensures
        key_pos_from(bk, k, i) is None,
    decreases bk.len() - i,
{
    if i < bk.len() {
        lemma_key_pos_none(bk, k, i + 1);
    }
}

proof fn lemma_layout_update(cells: Seq<Vec<chashcell>>, b: int, nv: Vec<chashcell>)
    requires
        0 <= b < cells.len(),
    ensures
        layout_of(cells.update(b, nv)) == layout_of(cells).update(b, cells_entries(nv@)),
{
    assert(layout_of(cells.update(b, nv)) =~= layout_of(cells).update(b, cells_entries(nv@)));
}

proof fn lemma_entries_edit(v: Seq<chashcell>, j: int, c: chashcell)
    ensures
        0 <= j < v.len() ==> cells_entries(v.remove(j)) == cells_entries(v).remove(j),
        0 <= j < v.len() ==> cells_entries(v.update(j, c)) == cells_entries(v).update(j, (c.key@, c.value@)),
        cells_entries(v.insert(0, c)) == cells_entries(v).insert(0, (c.key@, c.value@)),
{
    if 0 <= j < v.len() {
        assert(cells_entries(v.remove(j)) =~= cells_entries(v).remove(j));
        assert(cells_entries(v.update(j, c)) =~= cells_entries(v).update(j, (c.key@, c.value@)));
    }
    assert(cells_entries(v.insert(0, c)) =~= cells_entries(v).insert(0, (c.key@, c.value@)));
}

/// A hash table; its size is its number of buckets.
#[allow(non_camel_case_types)]
pub struct chash {
    size: u32,
    count: u32,
    copyvalue: i32,
    copykey: i32,
    cells: Vec<Vec<chashcell>>,
    contents: Ghost<Map<Seq<u8>, Seq<u8>>>,
}

impl View for chash {
    type V = Map<Seq<u8>, Seq<u8>>;

    closed spec fn view(&self) -> Map<Seq<u8>, Seq<u8>> {
        self.contents@
    }
}

impl chash {
    /// The entry at position `j` of bucket `b`.
    pub closed spec fn cell(&self, b: int, j: int) -> chashcell {
        self.cells@[b]@[j]
    }

    /// The entries of each bucket, in order, as (key, value) pairs.
    pub closed spec fn layout(&self) -> Seq<Seq<(Seq<u8>, Seq<u8>)>> {
        layout_of(self.cells@)
    }

    /// The number of entries in bucket `b`.
    pub open spec fn bucket_len(&self, b: int) -> int {
        self.layout()[b].len() as int
    }

    pub closed spec fn spec_size(&self) -> u32 {
        self.size
    }

    pub closed spec fn spec_count(&self) -> u32 {
        self.count
    }

    pub closed spec fn cell_ok(&self, b: int, j: int) -> bool {
        let c = self.cells@[b]@[j];
        &&& c.func == spec_chash_func(c.key@)
        &&& c.func as int % self.size as int == b
        &&& self.contents@.contains_key(c.key@)
        &&& self.contents@[c.key@] == c.value@
    }

    /// The invariant of the table: every entry is in the bucket of its hash,
    /// no key is there twice, the entries are what the table holds, and
    /// `count` counts them.
    pub closed spec fn wf(&self) -> bool {
        &&& self.size > 0
        &&& self.cells@.len() == self.size as int
        &&& forall|b: int, j: int| 0 <= b < self.cells@.len() && 0 <= j < self.cells@[b]@.len() ==> #[trigger] self.cell_ok(b, j)
        &&& forall|b: int, j1: int, j2: int|
            0 <= b < self.cells@.len() && 0 <= j1 < self.cells@[b]@.len() && 0 <= j2 < self.cells@[b]@.len() && j1 != j2
                ==> #[trigger] self.cells@[b]@[j1].key@ != #[trigger] self.cells@[b]@[j2].key@
        &&& forall|k: Seq<u8>| #[trigger] self.contents@.contains_key(k) ==> self.in_bucket(k)
        &&& self.contents@.dom().finite()
        &&& self.count as int == self.contents@.len()
    }

    /// `k` is a key of an entry of the bucket of its hash.
    pub closed spec fn in_bucket(&self, k: Seq<u8>) -> bool {
        let b = spec_chash_func(k) as int % self.size as int;
        exists|j: int| 0 <= j < self.cells@[b]@.len() && #[trigger] self.cells@[b]@[j].key@ == k
    }

    /// The number of buckets.
    pub fn size(&self) -> (n: u32)
        ensures
            n == self.spec_size(),
    {
        self.size
    }

    /// The number of entries.
    pub fn count(&self) -> (n: u32)
        requires
            self.wf(),
        ensures
            n == self@.len(),
    {
        self.count
    }
}

/// A new, empty table with `size` buckets (13 at least); bit 1 of `flags`
/// asks for keys to be copied, bit 2 for values. Keys and values are always
/// held as copies here, so the flags are only recorded.
pub fn chash_new(size: u32, flags: i32) -> (h: chash)
    ensures
        h.wf(),
        h@ == Map::<Seq<u8>, Seq<u8>>::empty(),
        h.spec_size() == (if size < 13 { 13 } else { size }),
        h.layout() == empty_layout(h.spec_size() as int),
{
    let n: u32 = if size < 13 { 13 } else { size };
    let cells = empty_buckets(n);
    let h = chash {
        size: n,
        count: 0,
        copyvalue: flags & 2,
        copykey: flags & 1,
        cells,
        contents: Ghost(Map::empty()),
    };
    assert(h@.dom() =~= Set::<Seq<u8>>::empty());
    assert forall|i: int| 0 <= i < n implies #[trigger] h.layout()[i] == empty_layout(n as int)[i] by {
        assert(h.layout()[i] =~= Seq::<(Seq<u8>, Seq<u8>)>::empty());
    }
    assert(h.layout() =~= empty_layout(n as int));
    h
}

fn empty_buckets(n: u32) -> (v: Vec<Vec<chashcell>>)
    ensures
        v@.len() == n,
        forall|b: int| 0 <= b < n ==> #[trigger] v@[b]@.len() == 0,
{
    let mut v: Vec<Vec<chashcell>> = Vec::new();
    let mut i: u32 = 0;
    while i < n
        invariant
            0 <= i <= n,
            v@.len() == i,
            forall|b: int| 0 <= b < i ==> #[trigger] v@[b]@.len() == 0,
        decreases n - i,
    {
        v.push(Vec::new());
        i = i + 1;
    }
    v
}

/// Empties the table; it keeps its size.
pub fn chash_clear(hash: &mut chash)
    requires
        old(hash).wf(),
    ensures
        final(hash).wf(),
        final(hash)@ == Map::<Seq<u8>, Seq<u8>>::empty(),
        final(hash).spec_size() == old(hash).spec_size(),
        final(hash).layout() == empty_layout(old(hash).spec_size() as int),
{
    hash.cells = empty_buckets(hash.size);
    hash.count = 0;
    hash.contents = Ghost(Map::empty());
    assert(hash@.dom() =~= Set::<Seq<u8>>::empty());
    assert forall|i: int| 0 <= i < hash.size implies #[trigger] hash.layout()[i] == empty_layout(hash.size as int)[i] by {
        assert(hash.layout()[i] =~= Seq::<(Seq<u8>, Seq<u8>)>::empty());
    }
    assert(hash.layout() =~= empty_layout(hash.size as int));
}

/// Where `key` stands in bucket `b`, if it is there.
fn find_in_bucket(bucket: &Vec<chashcell>, key: &[u8], func: u32) -> (r: Option<usize>)
    requires
        forall|j: int| 0 <= j < bucket@.len() ==> #[trigger] bucket@[j].func == spec_chash_func(bucket@[j].key@),
        func == spec_chash_func(key@),
    ensures
        match r {
            Some(j) => j < bucket@.len() && bucket@[j as int].key@ == key@,
            None => forall|j: int| 0 <= j < bucket@.len() ==> #[trigger] bucket@[j].key@ != key@,
        },
{
    let n = bucket.len();
    let mut j: usize = 0;
    while j < n
        invariant
            n == bucket@.len(),
            0 <= j <= n,
            forall|m: int| 0 <= m < bucket@.len() ==> #[trigger] bucket@[m].func == spec_chash_func(bucket@[m].key@),
            func == spec_chash_func(key@),
            forall|m: int| 0 <= m < j ==> #[trigger] bucket@[m].key@ != key@,
        decreases n - j,
    {
        let c = &bucket[j];
        if c.key.len() == key.len() && c.func == func && bytes_eq(c.key.as_slice(), key) {
            return Some(j);
        }
        j = j + 1;
    }
    None
}

/// The value that the table holds for `key`, if any.
pub fn chash_get(hash: &chash, key: &chashdatum) -> (r: Option<chashdatum>)
    requires
        hash.wf(),
    ensures
        match r {
            Some(v) => hash@.contains_key(key@) && v@ == hash@[key@],
            None => !hash@.contains_key(key@),
        },
{
    let func = chash_func(key.data.as_slice());
    let b = (func % hash.size) as usize;
    let bucket = &hash.cells[b];
    assert forall|j: int| 0 <= j < bucket@.len() implies #[trigger] bucket@[j].func == spec_chash_func(bucket@[j].key@) by {
        assert(hash.cell_ok(b as int, j));
    }
    match find_in_bucket(bucket, key.data.as_slice(), func) {
        Some(j) => {
            assert(hash.cell_ok(b as int, j as int));
            Some(chashdatum { data: vstd::slice::slice_to_vec(bucket[j].value.as_slice()) })
        },
        None => {
            proof {
                if hash@.contains_key(key@) {
                    assert(hash.in_bucket(key@));
                    assert(false);
                }
            }
            None
        },
    }
}

fn copy_bytes(v: &Vec<u8>) -> (r: Vec<u8>)
    ensures
        r@ == v@,
{
    vstd::slice::slice_to_vec(v.as_slice())
}

/// Takes the entry for `key` out of the table; gives its value, if there was one.
pub fn chash_delete(hash: &mut chash, key: &chashdatum) -> (r: Option<chashdatum>)
    requires
        old(hash).wf(),
    ensures
        final(hash).wf(),
        final(hash)@ == old(hash)@.remove(key@),
        final(hash).spec_size() == old(hash).spec_size(),
        final(hash).layout() == layout_delete(old(hash).layout(), key@),
        match r {
            Some(v) => old(hash)@.contains_key(key@) && v@ == old(hash)@[key@],
            None => !old(hash)@.contains_key(key@),
        },
{
    let func = chash_func(key.data.as_slice());
    let b = (func % hash.size) as usize;
    let ghost h0 = *hash;
    assert forall|j: int| 0 <= j < hash.cells@[b as int]@.len() implies #[trigger] hash.cells@[b as int]@[j].func == spec_chash_func(hash.cells@[b as int]@[j].key@) by {
        assert(hash.cell_ok(b as int, j));
    }
    match find_in_bucket(&hash.cells[b], key.data.as_slice(), func) {
        Some(j) => {
            assert(h0.cell_ok(b as int, j as int));
            let mut bucket = hash.cells.remove(b);
            let cell = bucket.remove(j);
            let ghost nbk = bucket;
            hash.cells.insert(b, bucket);
            hash.count = hash.count - 1;
            hash.contents = Ghost(hash.contents@.remove(key@));
            proof {
                let ob = h0.cells@[b as int]@;
                assert(hash.cells@ =~= h0.cells@.update(b as int, nbk));
                lemma_layout_update(h0.cells@, b as int, nbk);
                lemma_entries_edit(ob, j as int, cell);
                let lb = h0.layout()[b as int];
                assert forall|m: int| 0 <= m < j implies #[trigger] lb[m].0 != key@ by {
                    assert(h0.cells@[b as int]@[m].key@ != h0.cells@[b as int]@[j as int].key@);
                }
                lemma_key_pos_found(lb, key@, 0, j as int);
                assert(bucket_of(key@, h0.layout().len() as int) == b as int);
                assert(hash.cells@.len() == h0.cells@.len());
                assert(hash.cells@[b as int]@ =~= ob.remove(j as int));
                assert(forall|bb: int| 0 <= bb < hash.cells@.len() && bb != b as int ==> #[trigger] hash.cells@[bb] == h0.cells@[bb]);
                assert forall|bb: int, jj: int| 0 <= bb < hash.cells@.len() && 0 <= jj < hash.cells@[bb]@.len() implies #[trigger] hash.cell_ok(bb, jj) by {
                    if bb == b as int {
                        let oj = if jj < j { jj } else { jj + 1 };
                        assert(hash.cells@[bb]@[jj] == ob[oj]);
                        assert(h0.cell_ok(bb, oj));
                    } else {
                        assert(h0.cell_ok(bb, jj));
                        assert(hash.cells@[bb]@[jj] == h0.cells@[bb]@[jj]);
                    }
                }
                assert forall|bb: int, j1: int, j2: int|
                    0 <= bb < hash.cells@.len() && 0 <= j1 < hash.cells@[bb]@.len() && 0 <= j2 < hash.cells@[bb]@.len() && j1 != j2
                        implies #[trigger] hash.cells@[bb]@[j1].key@ != #[trigger] hash.cells@[bb]@[j2].key@ by {
                    if bb == b as int {
                        let o1 = if j1 < j { j1 } else { j1 + 1 };
                        let o2 = if j2 < j { j2 } else { j2 + 1 };
                        assert(hash.cells@[bb]@[j1] == ob[o1]);
                        assert(hash.cells@[bb]@[j2] == ob[o2]);
                    }
                }
                assert forall|k: Seq<u8>| #[trigger] hash.contents@.contains_key(k) implies hash.in_bucket(k) by {
                    assert(h0.in_bucket(k));
                    let kb = spec_chash_func(k) as int % hash.size as int;
                    let j0 = choose|j0: int| 0 <= j0 < h0.cells@[kb]@.len() && #[trigger] h0.cells@[kb]@[j0].key@ == k;
                    if kb == b as int {
                        let nj = if j0 < j { j0 } else { j0 - 1 };
                        assert(hash.cells@[kb]@[nj].key@ == k);
                    } else {
                        assert(hash.cells@[kb]@[j0].key@ == k);
                    }
                }
            }
            Some(chashdatum { data: cell.value })
        },
        None => {
            proof {
                if hash@.contains_key(key@) {
                    assert(hash.in_bucket(key@));
                    assert(false);
                }
                assert(hash@ =~= h0@.remove(key@));
                let lb = h0.layout()[b as int];
                assert forall|m: int| 0 <= m < lb.len() implies #[trigger] lb[m].0 != key@ by {
                    assert(lb[m].0 == h0.cells@[b as int]@[m].key@);
                }
                lemma_key_pos_none(lb, key@, 0);
                assert(bucket_of(key@, h0.layout().len() as int) == b as int);
            }
            None
        },
    }
}

/// Gives the table `size` buckets (at least one), moving each entry to the
/// bucket of its hash; the entries of each old bucket, taken in order, go to
/// the front of their new buckets.
pub fn chash_resize(hash: &mut chash, size: u32) -> (r: i32)
    requires
        old(hash).wf(),
        size > 0,
    ensures
        r == 0,
        final(hash).wf(),
        final(hash)@ == old(hash)@,
        final(hash).spec_size() == size,
        final(hash).layout() == layout_resize(old(hash).layout(), size as int),
{
    proof {
        lemma_chash_entries(*hash);
    }
    if hash.size == size {
        return 0;
    }
    let ghost h0 = *hash;
    let ghost target = rehash_from(h0.layout(), size as int, 0, 0, empty_layout(size as int));
    let osize = hash.size as usize;
    let mut newcells = empty_buckets(size);
    proof {
        assert forall|i: int| 0 <= i < size implies #[trigger] layout_of(newcells@)[i] == empty_layout(size as int)[i] by {
            assert(layout_of(newcells@)[i] =~= Seq::<(Seq<u8>, Seq<u8>)>::empty());
        }
        assert(layout_of(newcells@) =~= empty_layout(size as int));
    }
    let mut b: usize = 0;
    while b < osize
        invariant
            h0.layout().len() == osize,
            target == rehash_from(h0.layout(), size as int, 0, 0, empty_layout(size as int)),
            rehash_from(h0.layout(), size as int, b as int, 0, layout_of(newcells@)) == target,
            h0 == *hash,
            h0.wf(),
            osize == h0.size,
            size > 0,
            0 <= b <= osize,
            newcells@.len() == size,
            forall|nb: int, x: int| 0 <= nb < size && 0 <= x < newcells@[nb]@.len() ==>
                h0.moved(#[trigger] newcells@[nb]@[x], size, nb) && h0.done_before(newcells@[nb]@[x], b as int, 0),
            forall|nb: int, x1: int, x2: int|
                0 <= nb < size && 0 <= x1 < newcells@[nb]@.len() && 0 <= x2 < newcells@[nb]@.len() && x1 != x2
                    ==> #[trigger] newcells@[nb]@[x1].key@ != #[trigger] newcells@[nb]@[x2].key@,
            forall|ob: int, oj: int| 0 <= ob < b && 0 <= oj < h0.cells@[ob]@.len() ==>
                #[trigger] h0.in_new(newcells@, size, h0.cells@[ob]@[oj].key@),
        decreases osize - b,
    {
        let blen = hash.cells[b].len();
        let mut j: usize = 0;
        while j < blen
            invariant
                h0.layout().len() == osize,
                target == rehash_from(h0.layout(), size as int, 0, 0, empty_layout(size as int)),
                rehash_from(h0.layout(), size as int, b as int, j as int, layout_of(newcells@)) == target,
                h0 == *hash,
                h0.wf(),
                osize == h0.size,
                size > 0,
                0 <= b < osize,
                blen == h0.cells@[b as int]@.len(),
                0 <= j <= blen,
                newcells@.len() == size,
                forall|nb: int, x: int| 0 <= nb < size && 0 <= x < newcells@[nb]@.len() ==>
                    h0.moved(#[trigger] newcells@[nb]@[x], size, nb) && h0.done_before(newcells@[nb]@[x], b as int, j as int),
                forall|nb: int, x1: int, x2: int|
                    0 <= nb < size && 0 <= x1 < newcells@[nb]@.len() && 0 <= x2 < newcells@[nb]@.len() && x1 != x2
                        ==> #[trigger] newcells@[nb]@[x1].key@ != #[trigger] newcells@[nb]@[x2].key@,
                forall|ob: int, oj: int| ((0 <= ob < b && 0 <= oj < h0.cells@[ob]@.len()) || (ob == b && 0 <= oj < j)) ==>
                    #[trigger] h0.in_new(newcells@, size, h0.cells@[ob]@[oj].key@),
            decreases blen - j,
        {
            let c = &hash.cells[b][j];
            assert(h0.cell_ok(b as int, j as int));
            proof {
                h0.lemma_pos_in_bucket(b as int, j as int);
            }
            let nb = (c.func % size) as usize;
            let cell = chashcell { func: c.func, key: copy_bytes(&c.key), value: copy_bytes(&c.value) };
            let ghost n0 = newcells@;
            let mut bucket = newcells.remove(nb);
            bucket.insert(0, cell);
            let ghost nbv = bucket;
            newcells.insert(nb, bucket);
            proof {
                let nbk = n0[nb as int]@;
                assert(newcells@ =~= n0.update(nb as int, nbv));
                lemma_layout_update(n0, nb as int, nbv);
                lemma_entries_edit(nbk, 0, cell);
                assert(h0.layout()[b as int][j as int] == (cell.key@, cell.value@));
                assert(nb as int == bucket_of(cell.key@, size as int));
                assert(layout_of(newcells@) == layout_of(n0).update(nb as int, layout_of(n0)[nb as int].insert(0, (cell.key@, cell.value@))));
                assert(newcells@.len() == n0.len());
                assert(newcells@[nb as int]@ =~= nbk.insert(0, cell));
                assert(forall|mb: int| 0 <= mb < newcells@.len() && mb != nb as int ==> #[trigger] newcells@[mb] == n0[mb]);
                assert forall|mb: int, x: int| 0 <= mb < size && 0 <= x < newcells@[mb]@.len() implies
                    h0.moved(#[trigger] newcells@[mb]@[x], size, mb) && h0.done_before(newcells@[mb]@[x], b as int, j + 1) by {
                    if mb == nb as int && x > 0 {
                        assert(newcells@[mb]@[x] == n0[mb]@[x - 1]);
                    } else if mb != nb as int {
                        assert(newcells@[mb]@[x] == n0[mb]@[x]);
                    }
                }
                assert forall|mb: int, x1: int, x2: int|
                    0 <= mb < size && 0 <= x1 < newcells@[mb]@.len() && 0 <= x2 < newcells@[mb]@.len() && x1 != x2
                        implies #[trigger] newcells@[mb]@[x1].key@ != #[trigger] newcells@[mb]@[x2].key@ by {
                    if mb == nb as int {
                        if x1 == 0 || x2 == 0 {
                            let x = if x1 == 0 { x2 } else { x1 };
                            let d = n0[mb]@[x - 1];
                            assert(newcells@[mb]@[x] == d);
                            if d.key@ == cell.key@ {
                                assert(d.func as int % osize as int == b);
                                assert(h0.pos_in_bucket(b as int, d.key@) < j);
                            }
                        } else {
                            assert(newcells@[mb]@[x1] == n0[mb]@[x1 - 1]);
                            assert(newcells@[mb]@[x2] == n0[mb]@[x2 - 1]);
                        }
                    } else {
                        assert(newcells@[mb]@[x1] == n0[mb]@[x1]);
                        assert(newcells@[mb]@[x2] == n0[mb]@[x2]);
                    }
                }
                assert forall|ob: int, oj: int| ((0 <= ob < b && 0 <= oj < h0.cells@[ob]@.len()) || (ob == b && 0 <= oj < j + 1)) implies
                    #[trigger] h0.in_new(newcells@, size, h0.cells@[ob]@[oj].key@) by {
                    let k = h0.cells@[ob]@[oj].key@;
                    if ob == b && oj == j {
                        assert(newcells@[nb as int]@[0].key@ == k);
                    } else {
                        assert(h0.in_new(n0, size, k));
                        let kb = spec_chash_func(k) as int % size as int;
                        let x0 = choose|x0: int| 0 <= x0 < n0[kb]@.len() && #[trigger] n0[kb]@[x0].key@ == k;
                        if kb == nb as int {
                            assert(newcells@[kb]@[x0 + 1].key@ == k);
                        } else {
                            assert(newcells@[kb]@[x0].key@ == k);
                        }
                    }
                }
            }
            j = j + 1;
        }
        proof {
            assert forall|nb: int, x: int| 0 <= nb < size && 0 <= x < newcells@[nb]@.len() implies
                h0.done_before(#[trigger] newcells@[nb]@[x], b + 1, 0) by {
                let d = newcells@[nb]@[x];
                assert(h0.done_before(d, b as int, blen as int));
            }
        }
        b = b + 1;
    }
    hash.cells = newcells;
    hash.size = size;
    proof {
        assert forall|bb: int, jj: int| 0 <= bb < hash.cells@.len() && 0 <= jj < hash.cells@[bb]@.len() implies #[trigger] hash.cell_ok(bb, jj) by {
            assert(h0.moved(hash.cells@[bb]@[jj], size, bb));
        }
        assert forall|k: Seq<u8>| #[trigger] hash.contents@.contains_key(k) implies hash.in_bucket(k) by {
            assert(h0.in_bucket(k));
            let ob = spec_chash_func(k) as int % osize as int;
            let oj = choose|oj: int| 0 <= oj < h0.cells@[ob]@.len() && #[trigger] h0.cells@[ob]@[oj].key@ == k;
            assert(h0.in_new(hash.cells@, size, h0.cells@[ob]@[oj].key@));
            let nb = spec_chash_func(k) as int % size as int;
            let x = choose|x: int| 0 <= x < hash.cells@[nb]@.len() && #[trigger] hash.cells@[nb]@[x].key@ == k;
            assert(0 <= x < hash.cells@[nb]@.len() && hash.cells@[nb]@[x].key@ == k);
            assert(hash.size == size);
            assert(nb == spec_chash_func(k) as int % hash.size as int);
        }
    }
    0
}

impl chash {
    /// `c` is an entry of the table, with its hash, fit for bucket `nb` of
    /// `size` buckets.
    pub closed spec fn moved(&self, c: chashcell, size: u32, nb: int) -> bool {
        &&& c.func == spec_chash_func(c.key@)
        &&& c.func as int % size as int == nb
        &&& self.contents@.contains_key(c.key@)
        &&& self.contents@[c.key@] == c.value@
    }

    /// The entry `c` comes before position `j` of bucket `b`, in the order
    /// in which the entries are moved.
    pub closed spec fn done_before(&self, c: chashcell, b: int, j: int) -> bool {
        let ob = c.func as int % self.size as int;
        ob < b || (ob == b && self.pos_in_bucket(b, c.key@) < j)
    }

    /// `k` is the key of an entry of the bucket of its hash in `cells`, a
    /// table of `size` buckets.
    pub closed spec fn in_new(&self, cells: Seq<Vec<chashcell>>, size: u32, k: Seq<u8>) -> bool {
        let nb = spec_chash_func(k) as int % size as int;
        exists|x: int| 0 <= x < cells[nb]@.len() && #[trigger] cells[nb]@[x].key@ == k
    }

    /// Where the entry for `k` stands in bucket `b`.
    pub closed spec fn pos_in_bucket(&self, b: int, k: Seq<u8>) -> int {
        choose|j: int| 0 <= j < self.cells@[b]@.len() && #[trigger] self.cells@[b]@[j].key@ == k
    }

    proof fn lemma_pos_in_bucket(&self, b: int, j: int)
        requires
            self.wf(),
            0 <= b < self.cells@.len(),
            0 <= j < self.cells@[b]@.len(),
        ensures
            self.pos_in_bucket(b, self.cells@[b]@[j].key@) == j,
    {
        let k = self.cells@[b]@[j].key@;
        let p = self.pos_in_bucket(b, k);
        assert(0 <= p < self.cells@[b]@.len() && self.cells@[b]@[p].key@ == k);
    }
}

/// Sets the value for `key`; gives the value that it replaces, if any.
/// A table that holds more than three entries per bucket first grows to
/// two buckets for every three entries. An entry already there takes the new
/// value in place; a new entry goes to the front of its bucket.
#[verifier::spinoff_prover]
#[verifier::rlimit(80)]
pub fn chash_set(hash: &mut chash, key: &chashdatum, value: &chashdatum) -> (r: Option<chashdatum>)
    requires
        old(hash).wf(),
        old(hash)@.len() < u32::MAX,
    ensures
        final(hash).wf(),
        final(hash)@ == old(hash)@.insert(key@, value@),
        match r {
            Some(v) => old(hash)@.contains_key(key@) && v@ == old(hash)@[key@],
            None => !old(hash)@.contains_key(key@),
        },
        final(hash).spec_size() == (if old(hash).spec_count() > ((old(hash).spec_size() as int * 3) % 4294967296) {
            (old(hash).spec_count() / 3 * 2 + 1) as u32
        } else {
            old(hash).spec_size()
        }),
        final(hash).layout() == layout_set(
            if old(hash).spec_count() > ((old(hash).spec_size() as int * 3) % 4294967296) {
                layout_resize(old(hash).layout(), old(hash).spec_count() / 3 * 2 + 1)
            } else {
                old(hash).layout()
            },
            key@,
            value@,
        ),
{
    let lim = ((hash.size as u64 * 3) % 4294967296) as u32;
    if hash.count > lim {
        chash_resize(hash, hash.count / 3 * 2 + 1);
    }
    let func = chash_func(key.data.as_slice());
    let b = (func % hash.size) as usize;
    let ghost h0 = *hash;
    assert forall|j: int| 0 <= j < hash.cells@[b as int]@.len() implies #[trigger] hash.cells@[b as int]@[j].func == spec_chash_func(hash.cells@[b as int]@[j].key@) by {
        assert(hash.cell_ok(b as int, j));
    }
    let cell = chashcell { func, key: copy_bytes(&key.data), value: copy_bytes(&value.data) };
    match find_in_bucket(&hash.cells[b], key.data.as_slice(), func) {
        Some(j) => {
            assert(h0.cell_ok(b as int, j as int));
            let mut bucket = hash.cells.remove(b);
            let oldc = bucket.remove(j);
            bucket.insert(j, cell);
            let ghost nbk = bucket;
            hash.cells.insert(b, bucket);
            hash.contents = Ghost(hash.contents@.insert(key@, value@));
            proof {
                let ob = h0.cells@[b as int]@;
                assert(nbk@ =~= ob.update(j as int, cell));
                assert(hash.cells@ =~= h0.cells@.update(b as int, nbk));
                lemma_layout_update(h0.cells@, b as int, nbk);
                lemma_entries_edit(ob, j as int, cell);
                lemma_chash_entries(h0);
                let lb = h0.layout()[b as int];
                assert forall|m: int| 0 <= m < j implies #[trigger] lb[m].0 != key@ by {
                    assert(h0.cells@[b as int]@[m].key@ != h0.cells@[b as int]@[j as int].key@);
                }
                lemma_key_pos_found(lb, key@, 0, j as int);
                assert(bucket_of(key@, h0.layout().len() as int) == b as int);
                assert(hash.cells@.len() == h0.cells@.len());
                assert(hash.cells@[b as int]@ =~= ob.update(j as int, cell));
                assert(forall|bb: int| 0 <= bb < hash.cells@.len() && bb != b as int ==> #[trigger] hash.cells@[bb] == h0.cells@[bb]);
                assert forall|bb: int, jj: int| 0 <= bb < hash.cells@.len() && 0 <= jj < hash.cells@[bb]@.len() implies #[trigger] hash.cell_ok(bb, jj) by {
                    assert(h0.cell_ok(bb, jj));
                    if bb == b as int && jj != j as int {
                        assert(hash.cells@[bb]@[jj] == ob[jj]);
                    } else if bb != b as int {
                        assert(hash.cells@[bb]@[jj] == h0.cells@[bb]@[jj]);
                    }
                }
                assert forall|bb: int, j1: int, j2: int|
                    0 <= bb < hash.cells@.len() && 0 <= j1 < hash.cells@[bb]@.len() && 0 <= j2 < hash.cells@[bb]@.len() && j1 != j2
                        implies #[trigger] hash.cells@[bb]@[j1].key@ != #[trigger] hash.cells@[bb]@[j2].key@ by {
                    if bb == b as int {
                        assert(hash.cells@[bb]@[j1].key@ == ob[j1].key@);
                        assert(hash.cells@[bb]@[j2].key@ == ob[j2].key@);
                    }
                }
                assert forall|k: Seq<u8>| #[trigger] hash.contents@.contains_key(k) implies hash.in_bucket(k) by {
                    if k == key@ {
                        assert(hash.cells@[b as int]@[j as int].key@ == k);
                    } else {
                        assert(h0.in_bucket(k));
                        let kb = spec_chash_func(k) as int % hash.size as int;
                        let j0 = choose|j0: int| 0 <= j0 < h0.cells@[kb]@.len() && #[trigger] h0.cells@[kb]@[j0].key@ == k;
                        assert(hash.cells@[kb]@[j0].key@ == k);
                    }
                }
                assert(hash.contents@.dom() =~= h0.contents@.dom());
            }
            Some(chashdatum { data: oldc.value })
        },
        None => {
            proof {
                if h0@.contains_key(key@) {
                    assert(h0.in_bucket(key@));
                    assert(false);
                }
            }
            let mut bucket = hash.cells.remove(b);
            bucket.insert(0, cell);
            let ghost nbk = bucket;
            hash.cells.insert(b, bucket);
            hash.count = hash.count + 1;
            hash.contents = Ghost(hash.contents@.insert(key@, value@));
            proof {
                assert(hash.cells@ =~= h0.cells@.update(b as int, nbk));
                lemma_layout_update(h0.cells@, b as int, nbk);
                lemma_entries_edit(h0.cells@[b as int]@, 0, cell);
                lemma_chash_entries(h0);
                let lb = h0.layout()[b as int];
                assert forall|m: int| 0 <= m < lb.len() implies #[trigger] lb[m].0 != key@ by {
                    assert(lb[m].0 == h0.cells@[b as int]@[m].key@);
                }
                lemma_key_pos_none(lb, key@, 0);
                assert(bucket_of(key@, h0.layout().len() as int) == b as int);
                assert(b as int == spec_chash_func(key@) as int % hash.size as int);
                let ob = h0.cells@[b as int]@;
                assert(hash.cells@.len() == h0.cells@.len());
                assert(hash.cells@[b as int]@ =~= ob.insert(0, cell));
                assert(forall|bb: int| 0 <= bb < hash.cells@.len() && bb != b as int ==> #[trigger] hash.cells@[bb] == h0.cells@[bb]);
                assert forall|bb: int, jj: int| 0 <= bb < hash.cells@.len() && 0 <= jj < hash.cells@[bb]@.len() implies #[trigger] hash.cell_ok(bb, jj) by {
                    if bb == b as int && jj > 0 {
                        assert(hash.cells@[bb]@[jj] == ob[jj - 1]);
                        assert(h0.cell_ok(bb, jj - 1));
                    } else if bb != b as int {
                        assert(hash.cells@[bb]@[jj] == h0.cells@[bb]@[jj]);
                        assert(h0.cell_ok(bb, jj));
                    }
                }
                assert forall|bb: int, j1: int, j2: int|
                    0 <= bb < hash.cells@.len() && 0 <= j1 < hash.cells@[bb]@.len() && 0 <= j2 < hash.cells@[bb]@.len() && j1 != j2
                        implies #[trigger] hash.cells@[bb]@[j1].key@ != #[trigger] hash.cells@[bb]@[j2].key@ by {
                    if bb == b as int {
                        if j1 > 0 {
                            assert(hash.cells@[bb]@[j1] == ob[j1 - 1]);
                        }
                        if j2 > 0 {
                            assert(hash.cells@[bb]@[j2] == ob[j2 - 1]);
                        }
                    }
                }
                assert forall|k: Seq<u8>| #[trigger] hash.contents@.contains_key(k) implies hash.in_bucket(k) by {
                    if k == key@ {
                        assert(hash.cells@[b as int]@[0].key@ == k);
                    } else {
                        assert(h0.in_bucket(k));
                        let kb = spec_chash_func(k) as int % hash.size as int;
                        let j0 = choose|j0: int| 0 <= j0 < h0.cells@[kb]@.len() && #[trigger] h0.cells@[kb]@[j0].key@ == k;
                        if kb == b as int {
                            assert(hash.cells@[kb]@[j0 + 1].key@ == k);
                        } else {
                            assert(hash.cells@[kb]@[j0].key@ == k);
                        }
                    }
                }
            }
            None
        },
    }
}

/// The first entry, from bucket `b` on, as (bucket, position).
pub open spec fn spec_first_from(h: chash, b: int) -> Option<(usize, usize)>
    decreases h.spec_size() - b,
{
    if b < 0 || b >= h.spec_size() {
        None
    } else if h.bucket_len(b) > 0 {
        Some((b as usize, 0usize))
    } else {
        spec_first_from(h, b + 1)
    }
}

/// The entry after `it`: the next in its bucket, else the first of a later
/// bucket.
pub open spec fn spec_next(h: chash, it: (usize, usize)) -> Option<(usize, usize)> {
    if it.1 + 1 < h.bucket_len(it.0 as int) {
        Some((it.0, (it.1 + 1) as usize))
    } else {
        spec_first_from(h, it.0 + 1)
    }
}

/// Where a walk that starts at `chash_begin` stands after `i` steps of
/// `chash_next`; `None` once it has ended.
pub open spec fn spec_walk(h: chash, i: nat) -> Option<(usize, usize)>
    decreases i,
{
    if i == 0 {
        spec_first_from(h, 0)
    } else {
        match spec_walk(h, (i - 1) as nat) {
            Some(it) => spec_next(h, it),
            None => None,
        }
    }
}

/// The entry that a walk meets at its step `i`.
pub open spec fn spec_walk_entry(h: chash, i: nat) -> (Seq<u8>, Seq<u8>) {
    let p = spec_walk(h, i).unwrap();
    h.layout()[p.0 as int][p.1 as int]
}

/// The number of entries in the buckets before bucket `b`.
pub open spec fn cells_before(h: chash, b: int) -> int
    decreases b,
{
    if b <= 0 {
        0
    } else {
        cells_before(h, b - 1) + h.bucket_len(b - 1)
    }
}

proof fn lemma_cells_before_mono(h: chash, a: int, b: int)
    requires
        0 <= a <= b,
    ensures
        cells_before(h, a) <= cells_before(h, b),
    decreases b,
{
    if a < b {
        lemma_cells_before_mono(h, a, b - 1);
    }
}

proof fn lemma_first_from(h: chash, b: int)
    requires
        h.wf(),
        0 <= b <= h.spec_size(),
    ensures
        match spec_first_from(h, b) {
            Some(p) => b <= p.0 < h.spec_size() && p.1 == 0 && h.bucket_len(p.0 as int) > 0
                && cells_before(h, p.0 as int) == cells_before(h, b),
            None => cells_before(h, h.spec_size() as int) == cells_before(h, b),
        },
    decreases h.spec_size() - b,
{
    if b < h.spec_size() && h.bucket_len(b) == 0 {
        lemma_first_from(h, b + 1);
    }
}

proof fn lemma_bucket_len_bound(h: chash, b: int)
    requires
        h.wf(),
        0 <= b < h.spec_size(),
    ensures
        h.bucket_len(b) <= h.spec_count(),
{
    let bk = h.cells@[b]@;
    let ks = Seq::new(bk.len(), |j: int| bk[j].key@);
    assert(h.bucket_len(b) == bk.len());
    assert(ks.no_duplicates());
    assert(ks.to_set().subset_of(h@.dom())) by {
        assert forall|k: Seq<u8>| ks.to_set().contains(k) implies h@.dom().contains(k) by {
            let j = choose|j: int| 0 <= j < ks.len() && ks[j] == k;
            assert(h.cell_ok(b, j));
        }
    }
    ks.unique_seq_to_set();
    vstd::set_lib::lemma_len_subset(ks.to_set(), h@.dom());
}

proof fn lemma_walk_rank(h: chash, i: nat)
    requires
        h.wf(),
    ensures
        i < cells_before(h, h.spec_size() as int) ==> match spec_walk(h, i) {
            Some(p) => p.0 < h.spec_size() && p.1 < h.bucket_len(p.0 as int)
                && cells_before(h, p.0 as int) + p.1 == i,
            None => false,
        },
        i >= cells_before(h, h.spec_size() as int) ==> spec_walk(h, i) is None,
    decreases i,
{
    let total = cells_before(h, h.spec_size() as int);
    if i == 0 {
        lemma_first_from(h, 0);
        assert(cells_before(h, 0) == 0);
        if let Some(p) = spec_first_from(h, 0) {
            assert(cells_before(h, p.0 as int + 1) == cells_before(h, p.0 as int) + h.bucket_len(p.0 as int));
            lemma_cells_before_mono(h, p.0 as int + 1, h.spec_size() as int);
        }
    } else {
        lemma_walk_rank(h, (i - 1) as nat);
        if let Some(q) = spec_walk(h, (i - 1) as nat) {
            lemma_bucket_len_bound(h, q.0 as int);
            assert(cells_before(h, q.0 as int + 1) == cells_before(h, q.0 as int) + h.bucket_len(q.0 as int));
            lemma_cells_before_mono(h, q.0 as int + 1, h.spec_size() as int);
            if q.1 + 1 >= h.bucket_len(q.0 as int) {
                lemma_first_from(h, q.0 + 1);
                if let Some(p) = spec_first_from(h, q.0 + 1) {
                    assert(cells_before(h, p.0 as int + 1) == cells_before(h, p.0 as int) + h.bucket_len(p.0 as int));
                    lemma_cells_before_mono(h, p.0 as int + 1, h.spec_size() as int);
                }
            }
        }
    }
}

proof fn lemma_rank_unique(h: chash, b1: int, j1: int, b2: int, j2: int)
    requires
        0 <= b1 && 0 <= j1 < h.bucket_len(b1),
        0 <= b2 && 0 <= j2 < h.bucket_len(b2),
        cells_before(h, b1) + j1 == cells_before(h, b2) + j2,
    ensures
        b1 == b2 && j1 == j2,
{
    if b1 < b2 {
        lemma_cells_before_mono(h, b1 + 1, b2);
    } else if b2 < b1 {
        lemma_cells_before_mono(h, b2 + 1, b1);
    }
}

/// A walk that starts at `chash_begin` and goes on with `chash_next` meets
/// exactly `count` entries, each at a valid position, and then ends: it
/// meets each key of the table once, with the value that the table holds
/// for it.
pub proof fn law_chash_walk_visits_each_entry_once(h: chash)
    requires
        h.wf(),
    ensures
        spec_walk(h, h.spec_count() as nat) is None,
        forall|i: nat| i < h.spec_count() ==> match #[trigger] spec_walk(h, i) {
            Some(p) => p.0 < h.spec_size() && p.1 < h.bucket_len(p.0 as int),
            None => false,
        },
        forall|i: nat, k: nat| i < k < h.spec_count() ==> #[trigger] spec_walk_entry(h, i).0 != #[trigger] spec_walk_entry(h, k).0,
        forall|i: nat| i < h.spec_count() ==> h@.contains_key(#[trigger] spec_walk_entry(h, i).0)
            && h@[spec_walk_entry(h, i).0] == spec_walk_entry(h, i).1,
        forall|key: Seq<u8>| #[trigger] h@.contains_key(key) ==> exists|i: nat| i < h.spec_count() && #[trigger] spec_walk_entry(h, i).0 == key,
{
    let total = cells_before(h, h.spec_size() as int);
    lemma_cells_before_mono(h, 0, h.spec_size() as int);
    lemma_chash_entries(h);
    assert forall|i: nat| i < total implies match #[trigger] spec_walk(h, i) {
        Some(p) => p.0 < h.spec_size() && p.1 < h.bucket_len(p.0 as int),
        None => false,
    } by {
        lemma_walk_rank(h, i);
    }
    assert forall|i: nat| i < total implies h@.contains_key(#[trigger] spec_walk_entry(h, i).0)
        && h@[spec_walk_entry(h, i).0] == spec_walk_entry(h, i).1 by {
        lemma_walk_rank(h, i);
    }
    assert forall|i: nat, k: nat| i < k < total implies #[trigger] spec_walk_entry(h, i).0 != #[trigger] spec_walk_entry(h, k).0 by {
        lemma_walk_rank(h, i);
        lemma_walk_rank(h, k);
        let p = spec_walk(h, i).unwrap();
        let q = spec_walk(h, k).unwrap();
        assert(h.cell_ok(p.0 as int, p.1 as int));
        assert(h.cell_ok(q.0 as int, q.1 as int));
        assert(spec_walk_entry(h, i).0 == h.cells@[p.0 as int]@[p.1 as int].key@);
        assert(spec_walk_entry(h, k).0 == h.cells@[q.0 as int]@[q.1 as int].key@);
        if p.0 == q.0 && p.1 == q.1 {
            assert(false);
        }
    }
    assert forall|key: Seq<u8>| #[trigger] h@.contains_key(key) implies exists|i: nat| i < total && #[trigger] spec_walk_entry(h, i).0 == key by {
        let (b, j) = choose|b: int, j: int| 0 <= b < h.spec_size() && 0 <= j < h.bucket_len(b) && #[trigger] h.layout()[b][j].0 == key;
        let r = cells_before(h, b) + j;
        lemma_cells_before_mono(h, 0, b);
        assert(cells_before(h, b + 1) == cells_before(h, b) + h.bucket_len(b));
        lemma_cells_before_mono(h, b + 1, h.spec_size() as int);
        lemma_walk_rank(h, r as nat);
        let p = spec_walk(h, r as nat).unwrap();
        lemma_rank_unique(h, b, j, p.0 as int, p.1 as int);
        assert(spec_walk_entry(h, r as nat).0 == key);
    }
    let ks = Seq::new(total as nat, |i: int| spec_walk_entry(h, i as nat).0);
    assert(ks.no_duplicates()) by {
        assert forall|a: int, c: int| 0 <= a < ks.len() && 0 <= c < ks.len() && a != c implies ks[a] != ks[c] by {
            if a < c {
                assert(spec_walk_entry(h, a as nat).0 != spec_walk_entry(h, c as nat).0);
            } else {
                assert(spec_walk_entry(h, c as nat).0 != spec_walk_entry(h, a as nat).0);
            }
        }
    }
    assert(ks.to_set() =~= h@.dom()) by {
        assert forall|key: Seq<u8>| ks.to_set().contains(key) implies h@.dom().contains(key) by {
            let a = choose|a: int| 0 <= a < ks.len() && ks[a] == key;
            assert(h@.contains_key(spec_walk_entry(h, a as nat).0));
        }
        assert forall|key: Seq<u8>| h@.dom().contains(key) implies ks.to_set().contains(key) by {
            assert(h@.contains_key(key));
            let i = choose|i: nat| i < total && #[trigger] spec_walk_entry(h, i).0 == key;
            assert(ks[i as int] == key);
        }
    }
    ks.unique_seq_to_set();
    assert(total == h.spec_count());
    lemma_walk_rank(h, h.spec_count() as nat);
}

/// The first entry of the table, by bucket then position.
pub fn chash_begin(hash: &chash) -> (r: Option<(usize, usize)>)
    requires
        hash.wf(),
    ensures
        r == spec_first_from(*hash, 0),
{
    let n = hash.cells.len();
    let mut b: usize = 0;
    while b < n
        invariant
            hash.wf(),
            n == hash.spec_size(),
            0 <= b <= n,
            spec_first_from(*hash, 0) == spec_first_from(*hash, b as int),
        decreases n - b,
    {
        if hash.cells[b].len() > 0 {
            return Some((b, 0));
        }
        b = b + 1;
    }
    None
}

/// The entry after the one at `it`: the next in its bucket, else the first
/// of a later bucket.
pub fn chash_next(hash: &chash, it: (usize, usize)) -> (r: Option<(usize, usize)>)
    requires
        hash.wf(),
        it.0 < hash.spec_size(),
        it.1 < hash.bucket_len(it.0 as int),
    ensures
        r == spec_next(*hash, it),
{
    let (b0, j) = it;
    let blen = hash.cells[b0].len();
    if j < blen - 1 {
        return Some((b0, j + 1));
    }
    let n = hash.cells.len();
    let mut b: usize = b0 + 1;
    while b < n
        invariant
            hash.wf(),
            n == hash.spec_size(),
            !(it.1 + 1 < hash.bucket_len(it.0 as int)),
            b0 == it.0,
            b0 + 1 <= b <= n,
            spec_first_from(*hash, b0 + 1) == spec_first_from(*hash, b as int),
        decreases n - b,
    {
        if hash.cells[b].len() > 0 {
            assert(hash.bucket_len(b as int) > 0);
            return Some((b, 0));
        }
        b = b + 1;
    }
    None
}

/// The key and the value of the entry at `it`.
pub fn chash_entry(hash: &chash, it: (usize, usize)) -> (r: (&[u8], &[u8]))
    requires
        hash.wf(),
        it.0 < hash.spec_size(),
        it.1 < hash.bucket_len(it.0 as int),
    ensures
        (r.0@, r.1@) == hash.layout()[it.0 as int][it.1 as int],
        hash@.contains_key(r.0@),
        hash@[r.0@] == r.1@,
{
    assert(hash.cell_ok(it.0 as int, it.1 as int));
    let c = &hash.cells[it.0][it.1];
    (c.key.as_slice(), c.value.as_slice())
}

/// Each entry that the positions of the table hold is what the table
/// holds for its key, and each key that it holds is at a position.
pub proof fn lemma_chash_entries(h: chash)
    requires
        h.wf(),
    ensures
        h.layout().len() == h.spec_size(),
        forall|b: int, j: int| 0 <= b < h.spec_size() && 0 <= j < h.bucket_len(b) ==>
            h@.contains_key(#[trigger] h.layout()[b][j].0) && h@[h.layout()[b][j].0] == h.layout()[b][j].1,
        forall|k: Seq<u8>| #[trigger] h@.contains_key(k) ==> exists|b: int, j: int| 0 <= b < h.spec_size() && 0 <= j < h.bucket_len(b) && #[trigger] h.layout()[b][j].0 == k,
{
    assert forall|b: int, j: int| 0 <= b < h.spec_size() && 0 <= j < h.bucket_len(b) implies
        h@.contains_key(#[trigger] h.layout()[b][j].0) && h@[h.layout()[b][j].0] == h.layout()[b][j].1 by {
        assert(h.cell_ok(b, j));
        assert(h.layout()[b][j] == (h.cells@[b]@[j].key@, h.cells@[b]@[j].value@));
    }
    assert forall|k: Seq<u8>| #[trigger] h@.contains_key(k) implies exists|b: int, j: int| 0 <= b < h.spec_size() && 0 <= j < h.bucket_len(b) && #[trigger] h.layout()[b][j].0 == k by {
        assert(h.in_bucket(k));
        let kb = spec_chash_func(k) as int % h.spec_size() as int;
        let j0 = choose|j0: int| 0 <= j0 < h.cells@[kb]@.len() && #[trigger] h.cells@[kb]@[j0].key@ == k;
        assert(h.layout()[kb][j0].0 == k);
    }
}

/// A table holds finitely many entries, and `count` is their number.
pub proof fn law_chash_count_is_len(h: chash)
    requires
        h.wf(),
    ensures
        h@.dom().finite(),
        h.spec_count() as int == h@.len(),
{
}

/// After a value is set for a key, a lookup of that key gives the value back,
/// and a lookup of any other key gives what it gave before.
pub proof fn law_chash_get_after_set(before: Map<Seq<u8>, Seq<u8>>, key: Seq<u8>, value: Seq<u8>, other: Seq<u8>)
    requires
        other != key,
    ensures
        before.insert(key, value).contains_key(key),
        before.insert(key, value)[key] == value,
        before.insert(key, value).contains_key(other) == before.contains_key(other),
        before.contains_key(other) ==> before.insert(key, value)[other] == before[other],
{
}

/// After a key is deleted, a lookup of it finds nothing, and a lookup of any
/// other key gives what it gave before.
pub proof fn law_chash_get_after_delete(before: Map<Seq<u8>, Seq<u8>>, key: Seq<u8>, other: Seq<u8>)
    requires
        other != key,
    ensures
        !before.remove(key).contains_key(key),
        before.remove(key).contains_key(other) == before.contains_key(other),
        before.contains_key(other) ==> before.remove(key)[other] == before[other],
{
}

/// Setting a new key adds one entry to a table; setting a key that it holds
/// keeps the number of entries. Deleting a key that it holds takes one away.
pub proof fn law_chash_count(h: chash, key: Seq<u8>, value: Seq<u8>)
    requires
        h.wf(),
    ensures
        h@.insert(key, value).len() == h@.len() + (if h@.contains_key(key) { 0int } else { 1int }),
        h@.remove(key).len() == h@.len() - (if h@.contains_key(key) { 1int } else { 0int }),
{
    if h@.contains_key(key) {
        assert(h@.insert(key, value).dom() =~= h@.dom());
    }
}

/// Setting a key and then deleting it leaves a table that did not hold the
/// key as it was.
pub proof fn law_chash_delete_undoes_set(before: Map<Seq<u8>, Seq<u8>>, key: Seq<u8>, value: Seq<u8>)
    requires
        !before.contains_key(key),
    ensures
        before.insert(key, value).remove(key) == before,
{
    assert(before.insert(key, value).remove(key) =~= before);
}

} // verus!
