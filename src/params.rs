use vstd::prelude::*;

verus! {

/// A sequence of (key, value) pairs read as a map.
pub type Pairs = Seq<(Seq<char>, Seq<char>)>;

/// The character sequences of a sequence of string pairs.
pub open spec fn pairs_view(v: Seq<(String, String)>) -> Pairs {
    v.map_values(|e: (String, String)| (e.0@, e.1@))
}

/// The position of the last pair whose key is `k`, or -1 where there is none.
pub open spec fn index_of(s: Pairs, k: Seq<char>) -> int
    decreases s.len(),
{
    if s.len() == 0 {
        -1
    } else if s.last().0 == k {
        s.len() - 1
    } else {
        index_of(s.drop_last(), k)
    }
}

/// `index_of` gives a position whose key is `k`, or -1 exactly where no key is `k`.
pub proof fn lemma_index_of(s: Pairs, k: Seq<char>)
    ensures
        -1 <= index_of(s, k) < s.len(),
        index_of(s, k) >= 0 ==> s[index_of(s, k)].0 == k,
        index_of(s, k) == -1 <==> (forall|i: int| 0 <= i < s.len() ==> s[i].0 != k),
    decreases s.len(),
{
    if s.len() > 0 {
        lemma_index_of(s.drop_last(), k);
        if s.last().0 != k {
            assert forall|i: int| 0 <= i < s.len() - 1 implies s[i] == s.drop_last()[i] by {}
        }
    }
}

proof fn lemma_index_after_update(s: Pairs, i: int, k: Seq<char>, x: (Seq<char>, Seq<char>))
    requires
        index_of(s, k) == i,
        i >= 0,
        x.0 == k,
    ensures
        index_of(s.update(i, x), k) == i,
    decreases s.len(),
{
    lemma_index_of(s, k);
    let t = s.update(i, x);
    if i < s.len() - 1 {
        assert(t.drop_last() =~= s.drop_last().update(i, x));
        lemma_index_after_update(s.drop_last(), i, k, x);
    }
}

/// After `k` is bound to `v`, looking `k` up gives `v`, and binding it to `v` again changes
/// nothing.
pub proof fn lemma_insert_then_lookup(s: Pairs, k: Seq<char>, v: Seq<char>)
    ensures
        lookup(insert_pair(s, k, v), k) == Some(v),
        insert_pair(insert_pair(s, k, v), k, v) == insert_pair(s, k, v),
{
    lemma_index_of(s, k);
    let t = insert_pair(s, k, v);
    if index_of(s, k) >= 0 {
        lemma_index_after_update(s, index_of(s, k), k, (k, v));
    } else {
        assert(t.drop_last() =~= s);
    }
    assert(index_of(t, k) >= 0);
    lemma_index_of(t, k);
    assert(t[index_of(t, k)] == (k, v));
    assert(insert_pair(t, k, v) =~= t);
}

/// The value bound to `k`, if any.
pub open spec fn lookup(s: Pairs, k: Seq<char>) -> Option<Seq<char>> {
    if index_of(s, k) >= 0 {
        Some(s[index_of(s, k)].1)
    } else {
        None
    }
}

/// `s` with `k` bound to `v`: an existing binding keeps its place, a new one goes last.
pub open spec fn insert_pair(s: Pairs, k: Seq<char>, v: Seq<char>) -> Pairs {
    if index_of(s, k) >= 0 {
        s.update(index_of(s, k), (k, v))
    } else {
        s.push((k, v))
    }
}

/// `s` without the binding of `k`; the other pairs keep their order.
pub open spec fn remove_pair(s: Pairs, k: Seq<char>) -> Pairs {
    if index_of(s, k) >= 0 {
        s.remove(index_of(s, k))
    } else {
        s
    }
}

/// Keys are unique.
pub open spec fn keys_unique(s: Pairs) -> bool {
    forall|i: int, j: int| 0 <= i < s.len() && 0 <= j < s.len() && s[i].0 == s[j].0 ==> i == j
}

pub proof fn lemma_insert_keeps_unique(s: Pairs, k: Seq<char>, v: Seq<char>)
    requires
        keys_unique(s),
    ensures
        keys_unique(insert_pair(s, k, v)),
{
    lemma_index_of(s, k);
}

pub proof fn lemma_remove_keeps_unique(s: Pairs, k: Seq<char>)
    requires
        keys_unique(s),
    ensures
        keys_unique(remove_pair(s, k)),
{
    lemma_index_of(s, k);
    if index_of(s, k) >= 0 {
        let t = remove_pair(s, k);
        let x = index_of(s, k);
        assert forall|i: int, j: int|
            0 <= i < t.len() && 0 <= j < t.len() && t[i].0 == t[j].0 implies i == j by {
            let i2 = if i < x { i } else { i + 1 };
            let j2 = if j < x { j } else { j + 1 };
            assert(t[i] == s[i2]);
            assert(t[j] == s[j2]);
        }
    }
}

fn find_index(v: &Vec<(String, String)>, k: &str) -> (r: Option<usize>)
    ensures
        match r {
            Some(i) => i == index_of(pairs_view(v@), k@),
            None => index_of(pairs_view(v@), k@) == -1,
        },
{
    let ghost s = pairs_view(v@);
    let key = k.to_owned();
    let mut j: usize = v.len();
    proof {
        assert(s.subrange(0, j as int) =~= s);
    }
    while j > 0
        invariant
            j <= v.len(),
            s == pairs_view(v@),
            key@ == k@,
            index_of(s, k@) == index_of(s.subrange(0, j as int), k@),
        decreases j,
    {
        let ghost t = s.subrange(0, j as int);
        proof {
            assert(t.last() == s[j - 1]);
            assert(t.drop_last() =~= s.subrange(0, j - 1));
        }
        if v[j - 1].0 == key {
            return Some(j - 1);
        }
        j = j - 1;
    }
    proof {
        assert(s.subrange(0, 0).len() == 0);
    }
    None
}

/// Named values in insertion order; each key appears at most once.
pub struct ParamMap {
    entries: Vec<(String, String)>,
}

impl View for ParamMap {
    type V = Pairs;

    closed spec fn view(&self) -> Pairs {
        pairs_view(self.entries@)
    }
}

impl ParamMap {
    pub open spec fn wf(&self) -> bool {
        keys_unique(self@)
    }

    pub fn new() -> (r: ParamMap)
        ensures
            r@ == Seq::<(Seq<char>, Seq<char>)>::empty(),
            r.wf(),
    {
        let r = ParamMap { entries: Vec::new() };
        proof {
            assert(r@ =~= Seq::<(Seq<char>, Seq<char>)>::empty());
        }
        r
    }

    /// Binds `key` to `value`, replacing an earlier value in its place.
    pub fn insert(&mut self, key: String, value: String)
        ensures
            final(self)@ == insert_pair(old(self)@, key@, value@),
            old(self).wf() ==> final(self).wf(),
    {
        let ghost s = self@;
        let ghost kv = key@;
        let ghost vv = value@;
        proof {
            lemma_index_of(s, kv);
        }
        match find_index(&self.entries, key.as_str()) {
            Some(i) => {
                self.entries.set(i, (key, value));
                proof {
                    assert(self@ =~= s.update(i as int, (kv, vv)));
                }
            },
            None => {
                self.entries.push((key, value));
                proof {
                    assert(self@ =~= s.push((kv, vv)));
                }
            },
        }
        proof {
            if keys_unique(s) {
                lemma_insert_keeps_unique(s, kv, vv);
            }
        }
    }

    /// The value bound to `key`.
    pub fn find(&self, key: &str) -> (r: Option<String>)
        ensures
            match r {
                Some(v) => lookup(self@, key@) == Some(v@),
                None => lookup(self@, key@).is_none(),
            },
    {
        proof {
            lemma_index_of(self@, key@);
        }
        match find_index(&self.entries, key) {
            Some(i) => {
                let v = self.entries[i].1.clone();
                Some(v)
            },
            None => None,
        }
    }

    /// Removes the binding of `key` and returns its value.
    pub fn remove(&mut self, key: &str) -> (r: Option<String>)
        ensures
            final(self)@ == remove_pair(old(self)@, key@),
            match r {
                Some(v) => lookup(old(self)@, key@) == Some(v@),
                None => lookup(old(self)@, key@).is_none(),
            },
            old(self).wf() ==> final(self).wf(),
    {
        let ghost s = self@;
        proof {
            lemma_index_of(s, key@);
            if keys_unique(s) {
                lemma_remove_keeps_unique(s, key@);
            }
        }
        match find_index(&self.entries, key) {
            Some(i) => {
                let e = self.entries.remove(i);
                proof {
                    assert(self@ =~= s.remove(i as int));
                }
                Some(e.1)
            },
            None => None,
        }
    }

    /// The map that holds exactly the given pairs, in their order.
    pub fn from_vec(entries: Vec<(String, String)>) -> (r: ParamMap)
        ensures
            r@ == pairs_view(entries@),
    {
        ParamMap { entries }
    }

    pub fn len(&self) -> (r: usize)
        ensures
            r == self@.len(),
    {
        self.entries.len()
    }

    pub fn is_empty(&self) -> (r: bool)
        ensures
            r == (self@.len() == 0),
    {
        self.entries.len() == 0
    }

    /// The pairs, in order.
    pub fn to_vec(&self) -> (r: Vec<(String, String)>)
        ensures
            pairs_view(r@) == self@,
    {
        let mut r: Vec<(String, String)> = Vec::new();
        let mut i: usize = 0;
        while i < self.entries.len()
            invariant
                i <= self.entries.len(),
                pairs_view(r@) == self@.subrange(0, i as int),
            decreases self.entries.len() - i,
        {
            let k = self.entries[i].0.clone();
            let v = self.entries[i].1.clone();
            let ghost r0 = r@;
            r.push((k, v));
            proof {
                assert(pairs_view(r@) =~= pairs_view(r0).push(self@[i as int]));
                assert(self@.subrange(0, i + 1) =~= self@.subrange(0, i as int).push(
                    self@[i as int],
                ));
            }
            i = i + 1;
        }
        proof {
            assert(self@.subrange(0, i as int) =~= self@);
        }
        r
    }
}

/// The registry that binds each route id to the pattern it was registered with.
pub struct RouteMap {
    ids: ParamMap,
}

impl View for RouteMap {
    type V = Pairs;

    closed spec fn view(&self) -> Pairs {
        self.ids@
    }
}

impl RouteMap {
    pub open spec fn wf(&self) -> bool {
        keys_unique(self@)
    }

    pub fn new() -> (r: RouteMap)
        ensures
            r@ == Seq::<(Seq<char>, Seq<char>)>::empty(),
            r.wf(),
    {
        RouteMap { ids: ParamMap::new() }
    }

    /// The pattern bound to `route_id`.
    pub fn get(&self, route_id: &str) -> (r: Option<String>)
        ensures
            match r {
                Some(v) => lookup(self@, route_id@) == Some(v@),
                None => lookup(self@, route_id@).is_none(),
            },
    {
        self.ids.find(route_id)
    }

    pub fn insert(&mut self, route_id: String, pattern: String)
        ensures
            final(self)@ == insert_pair(old(self)@, route_id@, pattern@),
            old(self).wf() ==> final(self).wf(),
    {
        self.ids.insert(route_id, pattern);
    }

    /// The (route id, pattern) pairs, in order of registration.
    pub fn to_vec(&self) -> (r: Vec<(String, String)>)
        ensures
            pairs_view(r@) == self@,
    {
        self.ids.to_vec()
    }
}

} // verus!
