use vstd::prelude::*;
use vstd::utf8::encode_utf8_decode_utf8;

verus! {

/// Whether the two byte strings are the same.
pub fn bytes_eq(a: &[u8], b: &[u8]) -> (r: bool)
    ensures
        r == (a@ == b@),
{
    if a.len() != b.len() {
        return false;
    }
    let n = a.len();
    let mut i: usize = 0;
    while i < n
        invariant
            i <= n,
            n == a@.len(),
            n == b@.len(),
            a@.take(i as int) == b@.take(i as int),
        decreases n - i,
    {
        if a[i] != b[i] {
            assert(a@[i as int] != b@[i as int]);
            return false;
        }
        assert(a@.take(i + 1) == a@.take(i as int).push(a@[i as int]));
        assert(b@.take(i + 1) == b@.take(i as int).push(b@[i as int]));
        i += 1;
    }
    assert(a@.take(n as int) == a@);
    assert(b@.take(n as int) == b@);
    true
}

/// Whether the two texts are the same.
pub fn str_eq(a: &str, b: &str) -> (r: bool)
    ensures
        r == (a@ == b@),
{
    proof {
        encode_utf8_decode_utf8(a@);
        encode_utf8_decode_utf8(b@);
    }
    bytes_eq(a.as_bytes(), b.as_bytes())
}

/// Whether `i` is the first position of `pairs` whose name is `key`.
pub open spec fn is_first(pairs: Seq<(Seq<char>, Seq<char>)>, key: Seq<char>, i: int) -> bool {
    &&& 0 <= i < pairs.len()
    &&& pairs[i].0 == key
    &&& forall|j: int| 0 <= j < i ==> (#[trigger] pairs[j]).0 != key
}

/// Whether no two entries of `pairs` have the same name.
pub open spec fn distinct(pairs: Seq<(Seq<char>, Seq<char>)>) -> bool {
    forall|a: int, b: int| 0 <= a < b < pairs.len() ==> (#[trigger] pairs[a]).0 != (#[trigger] pairs[b]).0
}

/// Whether some entry of `pairs` has the name `key`.
pub open spec fn has_name(pairs: Seq<(Seq<char>, Seq<char>)>, key: Seq<char>) -> bool {
    exists|i: int| is_first(pairs, key, i)
}

/// The first position of `pairs` whose name is `key`.
pub open spec fn first_of(pairs: Seq<(Seq<char>, Seq<char>)>, key: Seq<char>) -> int {
    choose|i: int| is_first(pairs, key, i)
}

/// The mapping that a list of entries stands for: each name with the
/// value of its first entry.
pub open spec fn mapping(pairs: Seq<(Seq<char>, Seq<char>)>) -> Map<Seq<char>, Seq<char>> {
    Map::new(|k: Seq<char>| has_name(pairs, k), |k: Seq<char>| pairs[first_of(pairs, k)].1)
}

/// A name has only one first position.
pub proof fn lemma_first_unique(pairs: Seq<(Seq<char>, Seq<char>)>, key: Seq<char>, i: int)
    requires
        is_first(pairs, key, i),
    ensures
        has_name(pairs, key),
        first_of(pairs, key) == i,
{
    let c = first_of(pairs, key);
    assert(is_first(pairs, key, c));
    if c < i {
        assert(pairs[c].0 != key);
    }
    if i < c {
        assert(pairs[i].0 != key);
    }
}

/// A name that no entry has is not in the mapping.
pub proof fn lemma_absent(pairs: Seq<(Seq<char>, Seq<char>)>, key: Seq<char>)
    requires
        forall|j: int| 0 <= j < pairs.len() ==> (#[trigger] pairs[j]).0 != key,
    ensures
        !has_name(pairs, key),
{
    if has_name(pairs, key) {
        let c = first_of(pairs, key);
        assert(pairs[c].0 != key);
    }
}

/// Replacing the value at a name's first position is an insertion into the mapping.
pub proof fn lemma_update(pairs: Seq<(Seq<char>, Seq<char>)>, key: Seq<char>, value: Seq<char>, i: int)
    requires
        is_first(pairs, key, i),
    ensures
        mapping(pairs.update(i, (key, value))) == mapping(pairs).insert(key, value),
{
    let after = pairs.update(i, (key, value));
    let m1 = mapping(after);
    let m2 = mapping(pairs).insert(key, value);
    assert forall|k: Seq<char>| m1.dom().contains(k) <==> m2.dom().contains(k) by {
        if has_name(after, k) {
            let c = first_of(after, k);
            assert(is_first(after, k, c));
            if k != key {
                assert(c != i);
                assert forall|j: int| 0 <= j < c implies (#[trigger] pairs[j]).0 != k by {
                    assert(after[j].0 != k);
                }
                assert(is_first(pairs, k, c));
            }
        }
        if k == key {
            assert forall|j: int| 0 <= j < i implies (#[trigger] after[j]).0 != key by {
                assert(pairs[j].0 != key);
            }
            assert(is_first(after, key, i));
        } else if has_name(pairs, k) {
            let c = first_of(pairs, k);
            assert(is_first(pairs, k, c));
            assert(c != i);
            assert forall|j: int| 0 <= j < c implies (#[trigger] after[j]).0 != k by {
                assert(pairs[j].0 != k);
            }
            assert(is_first(after, k, c));
        }
    }
    assert forall|k: Seq<char>| m1.dom().contains(k) implies m1[k] == m2[k] by {
        if k == key {
            assert forall|j: int| 0 <= j < i implies (#[trigger] after[j]).0 != key by {
                assert(pairs[j].0 != key);
            }
            assert(is_first(after, key, i));
            lemma_first_unique(after, key, i);
        } else {
            let c = first_of(pairs, k);
            assert(is_first(pairs, k, c));
            assert forall|j: int| 0 <= j < c implies (#[trigger] after[j]).0 != k by {
                assert(pairs[j].0 != k);
            }
            assert(is_first(after, k, c));
            lemma_first_unique(after, k, c);
        }
    }
    assert(m1 =~= m2);
}

/// Appending an entry under a name that no entry has is an insertion into the mapping.
pub proof fn lemma_push(pairs: Seq<(Seq<char>, Seq<char>)>, key: Seq<char>, value: Seq<char>)
    requires
        forall|j: int| 0 <= j < pairs.len() ==> (#[trigger] pairs[j]).0 != key,
    ensures
        mapping(pairs.push((key, value))) == mapping(pairs).insert(key, value),
{
    let after = pairs.push((key, value));
    let n = pairs.len() as int;
    let m1 = mapping(after);
    let m2 = mapping(pairs).insert(key, value);
    assert forall|j: int| 0 <= j < n implies (#[trigger] after[j]).0 != key by {
        assert(pairs[j].0 != key);
    }
    assert(is_first(after, key, n));
    lemma_first_unique(after, key, n);
    assert forall|k: Seq<char>| m1.dom().contains(k) <==> m2.dom().contains(k) by {
        if k != key {
            if has_name(after, k) {
                let c = first_of(after, k);
                assert(is_first(after, k, c));
                assert forall|j: int| 0 <= j < c implies (#[trigger] pairs[j]).0 != k by {
                    assert(after[j].0 != k);
                }
                assert(is_first(pairs, k, c));
            }
            if has_name(pairs, k) {
                let c = first_of(pairs, k);
                assert(is_first(pairs, k, c));
                assert forall|j: int| 0 <= j < c implies (#[trigger] after[j]).0 != k by {
                    assert(pairs[j].0 != k);
                }
                assert(is_first(after, k, c));
            }
        }
    }
    assert forall|k: Seq<char>| m1.dom().contains(k) implies m1[k] == m2[k] by {
        if k != key {
            let c = first_of(pairs, k);
            assert(is_first(pairs, k, c));
            assert forall|j: int| 0 <= j < c implies (#[trigger] after[j]).0 != k by {
                assert(pairs[j].0 != k);
            }
            assert(is_first(after, k, c));
            lemma_first_unique(after, k, c);
        }
    }
    assert(m1 =~= m2);
}

/// A mapping from names to values, kept as a list of entries in the
/// order in which their names first came.
#[derive(Debug)]
pub struct Fields {
    pub entries: Vec<(String, String)>,
}

impl Fields {
    /// The entries in their order, as plain text.
    pub open spec fn pairs(&self) -> Seq<(Seq<char>, Seq<char>)> {
        Seq::new(self.entries@.len(), |i: int| (self.entries@[i].0@, self.entries@[i].1@))
    }

    /// The invariant of a mapping that was built by `new` and `insert`:
    /// each name has one entry.
    pub open spec fn wf(&self) -> bool {
        distinct(self.pairs())
    }

    /// An empty mapping.
    pub fn new() -> (f: Fields)
        ensures
            f.wf(),
            f.pairs() == Seq::<(Seq<char>, Seq<char>)>::empty(),
            f@ == Map::<Seq<char>, Seq<char>>::empty(),
    {
        let f = Fields { entries: Vec::new() };
        assert(f.pairs() =~= Seq::<(Seq<char>, Seq<char>)>::empty());
        assert(f@ =~= Map::<Seq<char>, Seq<char>>::empty()) by {
            assert forall|k: Seq<char>| !has_name(f.pairs(), k) by {
                lemma_absent(f.pairs(), k);
            }
        }
        f
    }

    /// The number of entries.
    pub fn len(&self) -> (n: usize)
        ensures
            n == self.pairs().len(),
    {
        self.entries.len()
    }

    /// The first position whose name is `key`, if there is one.
    pub fn position(&self, key: &str) -> (r: Option<usize>)
        ensures
            match r {
                Some(i) => is_first(self.pairs(), key@, i as int),
                None => forall|j: int| 0 <= j < self.pairs().len() ==> (#[trigger] self.pairs()[j]).0 != key@,
            },
    {
        let n = self.entries.len();
        let mut i: usize = 0;
        while i < n
            invariant
                i <= n,
                n == self.entries@.len(),
                forall|j: int| 0 <= j < i ==> (#[trigger] self.pairs()[j]).0 != key@,
            decreases n - i,
        {
            if str_eq(self.entries[i].0.as_str(), key) {
                assert(self.pairs()[i as int].0 == key@);
                return Some(i);
            }
            assert(self.pairs()[i as int].0 != key@);
            i += 1;
        }
        None
    }

    /// Whether `key` has a value.
    pub fn contains_key(&self, key: &str) -> (r: bool)
        ensures
            r == self@.dom().contains(key@),
    {
        match self.position(key) {
            Some(i) => {
                proof {
                    lemma_first_unique(self.pairs(), key@, i as int);
                }
                true
            },
            None => {
                proof {
                    lemma_absent(self.pairs(), key@);
                }
                false
            },
        }
    }

    /// The value of `key`, if it has one.
    pub fn get(&self, key: &str) -> (r: Option<&String>)
        ensures
            match r {
                Some(v) => self@.dom().contains(key@) && self@[key@] == v@,
                None => !self@.dom().contains(key@),
            },
    {
        match self.position(key) {
            Some(i) => {
                proof {
                    lemma_first_unique(self.pairs(), key@, i as int);
                }
                Some(&self.entries[i].1)
            },
            None => {
                proof {
                    lemma_absent(self.pairs(), key@);
                }
                None
            },
        }
    }

    /// Gives `key` the value `value`. A name that is already there keeps
    /// its place and loses its earlier value; a new one goes to the end.
    pub fn insert(&mut self, key: String, value: String)
        ensures
            final(self)@ == old(self)@.insert(key@, value@),
            old(self).wf() ==> final(self).wf(),
            match old(self).spec_position(key@) {
                Some(i) => final(self).pairs() == old(self).pairs().update(i, (key@, value@)),
                None => final(self).pairs() == old(self).pairs().push((key@, value@)),
            },
    {
        let ghost before = self.pairs();
        match self.position(key.as_str()) {
            Some(i) => {
                proof {
                    lemma_first_unique(before, key@, i as int);
                    lemma_update(before, key@, value@, i as int);
                }
                self.entries.remove(i);
                self.entries.insert(i, (key, value));
                assert(self.pairs() =~= before.update(i as int, (key@, value@)));
                assert(distinct(before) ==> distinct(self.pairs())) by {
                    if distinct(before) {
                        assert forall|a: int, b: int| 0 <= a < b < self.pairs().len() implies (
                        #[trigger] self.pairs()[a]).0 != (#[trigger] self.pairs()[b]).0 by {
                            assert(before[a].0 != before[b].0);
                        }
                    }
                }
            },
            None => {
                proof {
                    lemma_absent(before, key@);
                    lemma_push(before, key@, value@);
                }
                self.entries.push((key, value));
                assert(self.pairs() =~= before.push((key@, value@)));
                assert(distinct(before) ==> distinct(self.pairs())) by {
                    if distinct(before) {
                        assert forall|a: int, b: int| 0 <= a < b < self.pairs().len() implies (
                        #[trigger] self.pairs()[a]).0 != (#[trigger] self.pairs()[b]).0 by {
                            if b < before.len() {
                                assert(before[a].0 != before[b].0);
                            } else {
                                assert(before[a].0 != key@);
                            }
                        }
                    }
                }
            },
        }
    }

    /// The first position of `key` among the entries, if it has one.
    pub open spec fn spec_position(&self, key: Seq<char>) -> Option<int> {
        if has_name(self.pairs(), key) {
            Some(first_of(self.pairs(), key))
        } else {
            None
        }
    }
}

impl View for Fields {
    type V = Map<Seq<char>, Seq<char>>;

    open spec fn view(&self) -> Map<Seq<char>, Seq<char>> {
        mapping(self.pairs())
    }
}

} // verus!
