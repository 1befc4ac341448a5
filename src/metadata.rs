//! The metadata (TEXT) segment: a delimiter byte, then alternating keys and values.
use vstd::prelude::*;
use vstd::utf8::valid_utf8;
use crate::error::FcsError;
use crate::text::{trim_ws, trim_spec};

verus! {

/// Relies on std::str::from_utf8: it succeeds exactly on well-formed UTF-8.
#[verifier::external_body]
pub(crate) fn is_utf8(b: &[u8]) -> (r: bool)
    ensures
        r == valid_utf8(b@),
{
    std::str::from_utf8(b).is_ok()
}

/// Whether two byte strings are equal.
pub fn bytes_equal(a: &[u8], b: &[u8]) -> (r: bool)
    ensures
        r == (a@ == b@),
{
    if a.len() != b.len() {
        return false;
    }
    let mut i: usize = 0;
    while i < a.len()
        invariant
            a@.len() == b@.len(),
            i <= a@.len(),
            a@.subrange(0, i as int) == b@.subrange(0, i as int),
        decreases a@.len() - i,
    {
        if a[i] != b[i] {
            assert(a@[i as int] != b@[i as int]);
            return false;
        }
        i = i + 1;
        assert(a@.subrange(0, i as int) =~= a@.subrange(0, i - 1).push(a@[i - 1]));
        assert(b@.subrange(0, i as int) =~= b@.subrange(0, i - 1).push(b@[i - 1]));
    }
    assert(a@ =~= a@.subrange(0, i as int));
    assert(b@ =~= b@.subrange(0, i as int));
    true
}

/// The pieces of `s` between occurrences of `d`, as `str::split` yields them.
pub open spec fn split_spec(s: Seq<u8>, d: u8) -> Seq<Seq<u8>>
    decreases s.len(),
{
    if s.len() == 0 {
        seq![Seq::<u8>::empty()]
    } else {
        let r = split_spec(s.drop_last(), d);
        if s.last() == d {
            r.push(Seq::<u8>::empty())
        } else {
            r.update(r.len() - 1, r.last().push(s.last()))
        }
    }
}

pub proof fn lemma_split_nonempty(s: Seq<u8>, d: u8)
    ensures
        split_spec(s, d).len() >= 1,
    decreases s.len(),
{
    if s.len() > 0 {
        lemma_split_nonempty(s.drop_last(), d);
    }
}

/// The map built from the first `n` key/value token pairs: keys and values
/// trimmed, pairs with an empty key skipped, a later key replacing an earlier one.
pub open spec fn pairs_map(toks: Seq<Seq<u8>>, n: nat) -> Map<Seq<u8>, Seq<u8>>
    decreases n,
{
    if n == 0 {
        Map::empty()
    } else {
        let m = pairs_map(toks, (n - 1) as nat);
        let k = trim_spec(toks[2 * (n - 1)]);
        if k.len() == 0 {
            m
        } else {
            m.insert(k, trim_spec(toks[2 * (n - 1) + 1]))
        }
    }
}

/// The key/value map that a metadata segment spells; its first byte is the delimiter.
pub open spec fn segment_map(seg: Seq<u8>) -> Map<Seq<u8>, Seq<u8>> {
    let toks = split_spec(seg.drop_first(), seg[0]);
    pairs_map(toks, toks.len() / 2)
}

/// When a metadata segment can be read: well-formed text whose delimiter is one byte.
pub open spec fn segment_ok(seg: Seq<u8>) -> bool {
    seg.len() > 0 && valid_utf8(seg) && seg[0] < 0x80u8
}

/// Metadata keys mapped to values, each key at most once.
pub struct MetadataMap {
    entries: Vec<(Vec<u8>, Vec<u8>)>,
    model: Ghost<Map<Seq<u8>, Seq<u8>>>,
}

impl View for MetadataMap {
    type V = Map<Seq<u8>, Seq<u8>>;

    closed spec fn view(&self) -> Map<Seq<u8>, Seq<u8>> {
        self.model@
    }
}

impl MetadataMap {
    /// Each stored pair is in the map, keys are distinct, and every key of the map is stored.
    pub closed spec fn wf(&self) -> bool {
        &&& forall|i: int|
            0 <= i < self.entries@.len() ==> {
                &&& self.model@.contains_key(#[trigger] self.entries@[i].0@)
                &&& self.model@[self.entries@[i].0@] == self.entries@[i].1@
            }
        &&& forall|i: int, j: int|
            0 <= i < self.entries@.len() && 0 <= j < self.entries@.len() && i != j
                ==> #[trigger] self.entries@[i].0@ != #[trigger] self.entries@[j].0@
        &&& forall|k: Seq<u8>|
            #[trigger] self.model@.contains_key(k) ==> exists|i: int|
                0 <= i < self.entries@.len() && #[trigger] self.entries@[i].0@ == k
    }

    /// An empty map.
    pub fn new() -> (r: MetadataMap)
        ensures
            r.wf(),
            r@ == Map::<Seq<u8>, Seq<u8>>::empty(),
    {
        MetadataMap { entries: Vec::new(), model: Ghost(Map::empty()) }
    }

    /// Position of `key` among the stored pairs.
    fn position(&self, key: &[u8]) -> (r: Option<usize>)
        requires
            self.wf(),
        ensures
            match r {
                Some(i) => i < self.entries@.len() && self.entries@[i as int].0@ == key@,
                None => !self@.contains_key(key@),
            },
    {
        let mut i: usize = 0;
        while i < self.entries.len()
            invariant
                self.wf(),
                i <= self.entries@.len(),
                forall|j: int| 0 <= j < i ==> #[trigger] self.entries@[j].0@ != key@,
            decreases self.entries@.len() - i,
        {
            if bytes_equal(self.entries[i].0.as_slice(), key) {
                return Some(i);
            }
            i = i + 1;
        }
        None
    }

    /// The value stored under `key`.
    pub fn get(&self, key: &[u8]) -> (r: Option<&Vec<u8>>)
        requires
            self.wf(),
        ensures
            match r {
                Some(v) => self@.contains_key(key@) && v@ == self@[key@],
                None => !self@.contains_key(key@),
            },
    {
        match self.position(key) {
            Some(i) => Some(&self.entries[i].1),
            None => None,
        }
    }

    /// Stores `value` under `key`, replacing what was there.
    pub fn insert(&mut self, key: Vec<u8>, value: Vec<u8>)
        requires
            old(self).wf(),
        ensures
            final(self).wf(),
            final(self)@ == old(self)@.insert(key@, value@),
    {
        let ghost k = key@;
        let ghost v = value@;
        let ghost pos: int;
        match self.position(key.as_slice()) {
            Some(i) => {
                self.entries.set(i, (key, value));
                proof { pos = i as int; }
            },
            None => {
                self.entries.push((key, value));
                proof { pos = self.entries@.len() - 1; }
            },
        }
        self.model = Ghost(self.model@.insert(k, v));
        assert(self.entries@[pos].0@ == k);
        assert(self.entries@[pos].1@ == v);
        assert forall|i: int| 0 <= i < self.entries@.len() && i != pos implies
            #[trigger] self.entries@[i] == old(self).entries@[i] && self.entries@[i].0@ != k by {
            if old(self)@.contains_key(k) {
                assert(old(self).entries@[pos].0@ == k);
            } else {
                assert(old(self).model@.contains_key(old(self).entries@[i].0@));
            }
        }
        assert forall|i: int| 0 <= i < self.entries@.len() implies {
            &&& self.model@.contains_key(#[trigger] self.entries@[i].0@)
            &&& self.model@[self.entries@[i].0@] == self.entries@[i].1@
        } by {
            if i != pos {
                assert(self.entries@[i] == old(self).entries@[i]);
                assert(old(self).model@.contains_key(old(self).entries@[i].0@));
                assert(self.entries@[i].0@ != k);
            }
        }
        assert forall|q: Seq<u8>| #[trigger] self.model@.contains_key(q) implies exists|i: int|
            0 <= i < self.entries@.len() && #[trigger] self.entries@[i].0@ == q by {
            if q == k {
                assert(self.entries@[pos].0@ == q);
            } else {
                assert(old(self).model@.contains_key(q));
                let w = choose|i: int|
                    0 <= i < old(self).entries@.len() && #[trigger] old(self).entries@[i].0@ == q;
                assert(self.entries@[w].0@ == q);
            }
        }
    }

    /// The stored pairs, each key once, in no particular order.
    pub fn entries(&self) -> (r: &Vec<(Vec<u8>, Vec<u8>)>)
        requires
            self.wf(),
        ensures
            forall|i: int| 0 <= i < r@.len() ==> {
                &&& self@.contains_key(#[trigger] r@[i].0@)
                &&& self@[r@[i].0@] == r@[i].1@
            },
            forall|i: int, j: int| 0 <= i < r@.len() && 0 <= j < r@.len() && i != j
                ==> #[trigger] r@[i].0@ != #[trigger] r@[j].0@,
            forall|k: Seq<u8>| #[trigger] self@.contains_key(k) ==> exists|i: int|
                0 <= i < r@.len() && #[trigger] r@[i].0@ == k,
    {
        &self.entries
    }
}

/// The bytes of `b` from `lo` up to, not including, `hi`.
pub fn copy_range(b: &[u8], lo: usize, hi: usize) -> (r: Vec<u8>)
    requires
        lo <= hi <= b@.len(),
    ensures
        r@ == b@.subrange(lo as int, hi as int),
{
    let mut r: Vec<u8> = Vec::new();
    let mut k: usize = lo;
    while k < hi
        invariant
            lo <= k <= hi <= b@.len(),
            r@ == b@.subrange(lo as int, k as int),
        decreases hi - k,
    {
        r.push(b[k]);
        k = k + 1;
        assert(r@ =~= b@.subrange(lo as int, k as int));
    }
    r
}

pub open spec fn views(v: Seq<Vec<u8>>) -> Seq<Seq<u8>> {
    v.map_values(|t: Vec<u8>| t@)
}

/// Splits `s[from..]` at every byte equal to `d`.
fn split_on(s: &[u8], from: usize, d: u8) -> (r: Vec<Vec<u8>>)
    requires
        from <= s@.len(),
    ensures
        views(r@) == split_spec(s@.subrange(from as int, s@.len() as int), d),
{
    let n = s.len();
    let mut toks: Vec<Vec<u8>> = Vec::new();
    let mut cur: Vec<u8> = Vec::new();
    assert(views(toks@).push(cur@) =~= split_spec(s@.subrange(from as int, from as int), d));
    let mut i: usize = from;
    while i < n
        invariant
            from <= i <= n,
            n == s@.len(),
            views(toks@).push(cur@) == split_spec(s@.subrange(from as int, i as int), d),
        decreases n - i,
    {
        let ghost pre = s@.subrange(from as int, i as int);
        let ghost next = s@.subrange(from as int, i + 1);
        assert(next.drop_last() =~= pre);
        assert(next.last() == s@[i as int]);
        proof { lemma_split_nonempty(pre, d); }
        if s[i] == d {
            toks.push(cur);
            cur = Vec::new();
            assert(views(toks@).push(cur@) =~= split_spec(next, d));
        } else {
            let ghost before = views(toks@);
            cur.push(s[i]);
            assert(views(toks@).push(cur@) =~= split_spec(next, d));
        }
        i = i + 1;
    }
    toks.push(cur);
    assert(views(toks@) =~= split_spec(s@.subrange(from as int, n as int), d));
    toks
}

/// Reads the metadata segment `file[start..=end]` into a map.
pub fn parse_metadata(file: &[u8], start: usize, end: usize) -> (r: Result<MetadataMap, FcsError>)
    ensures
        r is Ok <==> (start <= end && end < file@.len() && segment_ok(
            file@.subrange(start as int, end + 1),
        )),
        r matches Ok(m) ==> m.wf() && m@ == segment_map(file@.subrange(start as int, end + 1)),
        r matches Err(e) ==> e == FcsError::MalformedMetadata,
{
    if start > end || end >= file.len() {
        return Err(FcsError::MalformedMetadata);
    }
    let seg = copy_range(file, start, end + 1);
    if !is_utf8(seg.as_slice()) || seg[0] >= 0x80u8 {
        return Err(FcsError::MalformedMetadata);
    }
    let toks = split_on(seg.as_slice(), 1, seg[0]);
    let ghost tv = views(toks@);
    assert(seg@.subrange(1, seg@.len() as int) =~= seg@.drop_first());
    let mut m = MetadataMap::new();
    let ntoks = toks.len();
    let npairs = ntoks / 2;
    let mut p: usize = 0;
    while p < npairs
        invariant
            p <= npairs,
            npairs == ntoks / 2,
            ntoks == toks@.len(),
            tv == views(toks@),
            m.wf(),
            m@ == pairs_map(tv, p as nat),
        decreases npairs - p,
    {
        assert(2 * p + 1 < toks@.len()) by (nonlinear_arith)
            requires p < npairs, npairs == ntoks / 2, ntoks == toks@.len();
        let key = trim_ws(toks[2 * p].as_slice());
        if key.len() > 0 {
            let value = trim_ws(toks[2 * p + 1].as_slice());
            m.insert(key, value);
        }
        p = p + 1;
    }
    Ok(m)
}

} // verus!
