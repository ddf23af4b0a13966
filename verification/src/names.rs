use vstd::prelude::*;
use vstd::seq_lib::seq_to_set_is_finite;
use vstd::string::StringSliceAdditionalSpecFns;
use vstd::utf8::encode_utf8_decode_utf8;

verus! {

/// The map that pairs `names[i]` with `values[i]`.
///
/// Meaningful where `names` holds no name twice and both sequences have one length.
pub open spec fn paired<V>(names: Seq<Seq<char>>, values: Seq<V>) -> Map<Seq<char>, V> {
    Map::new(|k: Seq<char>| names.contains(k), |k: Seq<char>| values[names.index_of(k)])
}

/// In a sequence without duplicates, `index_of` finds the one place of an element.
pub proof fn lemma_index_of_unique(names: Seq<Seq<char>>, i: int)
    requires
        names.no_duplicates(),
        0 <= i < names.len(),
    ensures
        names.contains(names[i]),
        names.index_of(names[i]) == i,
{
    let j = names.index_of(names[i]);
    assert(0 <= j < names.len() && names[j] == names[i]);
}

/// Every listed name is a key of the paired map, and maps to the value at its place.
pub proof fn lemma_paired_at<V>(names: Seq<Seq<char>>, values: Seq<V>, i: int)
    requires
        names.no_duplicates(),
        names.len() == values.len(),
        0 <= i < names.len(),
    ensures
        paired(names, values).contains_key(names[i]),
        paired(names, values)[names[i]] == values[i],
{
    lemma_index_of_unique(names, i);
}

/// The paired map has as many keys as there are names.
pub proof fn lemma_paired_len<V>(names: Seq<Seq<char>>, values: Seq<V>)
    requires
        names.no_duplicates(),
    ensures
        paired(names, values).dom().finite(),
        paired(names, values).len() == names.len(),
{
    assert(paired(names, values).dom() =~= names.to_set());
    seq_to_set_is_finite(names);
    names.unique_seq_to_set();
}

/// Appending a name that is not yet listed inserts it into the paired map.
pub proof fn lemma_paired_push<V>(names: Seq<Seq<char>>, values: Seq<V>, name: Seq<char>, value: V)
    requires
        names.no_duplicates(),
        names.len() == values.len(),
        !names.contains(name),
    ensures
        names.push(name).no_duplicates(),
        paired(names.push(name), values.push(value)) == paired(names, values).insert(name, value),
{
    let names2 = names.push(name);
    let values2 = values.push(value);
    assert forall|i: int, j: int|
        0 <= i < names2.len() && 0 <= j < names2.len() && i != j implies names2[i] != names2[j] by {
        if i < names.len() && j < names.len() {
            assert(names[i] != names[j]);
        } else if i < names.len() {
            assert(names[i] == names2[i]);
        } else {
            assert(names[j] == names2[j]);
        }
    }
    let lhs = paired(names2, values2);
    let rhs = paired(names, values).insert(name, value);
    assert forall|k: Seq<char>| lhs.contains_key(k) <==> rhs.contains_key(k) by {
        if names2.contains(k) {
            let i = choose|i: int| 0 <= i < names2.len() && names2[i] == k;
            if i < names.len() {
                assert(names[i] == k);
            }
        }
        if names.contains(k) {
            let i = choose|i: int| 0 <= i < names.len() && names[i] == k;
            assert(names2[i] == k);
        }
        if k == name {
            assert(names2[names.len() as int] == k);
        }
    }
    assert forall|k: Seq<char>| lhs.contains_key(k) implies lhs[k] == rhs[k] by {
        let i = names2.index_of(k);
        assert(0 <= i < names2.len() && names2[i] == k);
        if k == name {
            if i < names.len() {
                assert(names[i] == name);
            }
        } else {
            assert(i < names.len());
            assert(names[i] == k);
            lemma_index_of_unique(names, i);
        }
    }
    assert(lhs =~= rhs);
}

/// Replacing the value at the place of a listed name overwrites it in the paired map.
pub proof fn lemma_paired_update<V>(names: Seq<Seq<char>>, values: Seq<V>, i: int, value: V)
    requires
        names.no_duplicates(),
        names.len() == values.len(),
        0 <= i < names.len(),
    ensures
        paired(names, values.update(i, value)) == paired(names, values).insert(names[i], value),
{
    let lhs = paired(names, values.update(i, value));
    let rhs = paired(names, values).insert(names[i], value);
    assert forall|k: Seq<char>| lhs.contains_key(k) <==> rhs.contains_key(k) by {
        if k == names[i] {
            lemma_index_of_unique(names, i);
        }
    }
    assert forall|k: Seq<char>| lhs.contains_key(k) implies lhs[k] == rhs[k] by {
        let j = names.index_of(k);
        assert(0 <= j < names.len() && names[j] == k);
        if k == names[i] {
            lemma_index_of_unique(names, i);
        } else {
            assert(j != i);
        }
    }
    assert(lhs =~= rhs);
}

/// Dropping a place drops its name from the paired map and leaves the others as they were.
pub proof fn lemma_paired_remove<V>(names: Seq<Seq<char>>, values: Seq<V>, i: int)
    requires
        names.no_duplicates(),
        names.len() == values.len(),
        0 <= i < names.len(),
    ensures
        names.remove(i).no_duplicates(),
        !names.remove(i).contains(names[i]),
        paired(names.remove(i), values.remove(i)) == paired(names, values).remove(names[i]),
{
    let names2 = names.remove(i);
    let values2 = values.remove(i);
    assert(names2.len() == names.len() - 1);
    assert(values2.len() == values.len() - 1);
    assert forall|j: int| 0 <= j < names2.len() implies names2[j] == names[if j < i {
        j
    } else {
        j + 1
    }] && values2[j] == values[if j < i {
        j
    } else {
        j + 1
    }] by {}
    assert forall|a: int, b: int|
        0 <= a < names2.len() && 0 <= b < names2.len() && a != b implies names2[a] != names2[b] by {
        let a1 = if a < i { a } else { a + 1 };
        let b1 = if b < i { b } else { b + 1 };
        assert(names[a1] != names[b1]);
    }
    if names2.contains(names[i]) {
        let j = choose|j: int| 0 <= j < names2.len() && names2[j] == names[i];
        let j1 = if j < i { j } else { j + 1 };
        assert(names[j1] == names[i]);
        assert(false);
    }
    let lhs = paired(names2, values2);
    let rhs = paired(names, values).remove(names[i]);
    assert forall|k: Seq<char>| lhs.contains_key(k) <==> rhs.contains_key(k) by {
        if names2.contains(k) {
            let j = choose|j: int| 0 <= j < names2.len() && names2[j] == k;
            let j1 = if j < i { j } else { j + 1 };
            assert(names[j1] == k);
        }
        if names.contains(k) && k != names[i] {
            let j = choose|j: int| 0 <= j < names.len() && names[j] == k;
            let j2 = if j < i { j } else { j - 1 };
            assert(names2[j2] == k);
        }
    }
    assert forall|k: Seq<char>| lhs.contains_key(k) implies lhs[k] == rhs[k] by {
        let j = names2.index_of(k);
        assert(0 <= j < names2.len() && names2[j] == k);
        let j1 = if j < i { j } else { j + 1 };
        assert(names[j1] == k);
        lemma_index_of_unique(names, j1);
    }
    assert(lhs =~= rhs);
}

/// `names` with `name` taken out, the others in their order.
pub open spec fn without(names: Seq<Seq<char>>, name: Seq<char>) -> Seq<Seq<char>> {
    if names.contains(name) {
        names.remove(names.index_of(name))
    } else {
        names
    }
}

/// Whether two string slices hold the same characters in the same order. They do exactly
/// when their bytes are the same, for the bytes of a string encode its characters and
/// can be decoded again.
fn same_text(a: &str, b: &str) -> (r: bool)
    ensures
        r == (a@ == b@),
{
    let x = a.as_bytes();
    let y = b.as_bytes();
    proof {
        encode_utf8_decode_utf8(a@);
        encode_utf8_decode_utf8(b@);
    }
    if x.len() != y.len() {
        return false;
    }
    let mut i: usize = 0;
    while i < x.len()
        invariant
            i <= x.len(),
            x.len() == y.len(),
            x@ == a.spec_bytes(),
            y@ == b.spec_bytes(),
            forall|j: int| 0 <= j < i ==> x@[j] == y@[j],
        decreases x.len() - i,
    {
        if x[i] != y[i] {
            return false;
        }
        i += 1;
    }
    proof {
        assert(x@ =~= y@);
    }
    true
}

/// A map from names to values that keeps its names in the order in which they first came
/// in. No name is held twice.
pub struct NameMap<V> {
    entries: Vec<(String, V)>,
}

impl<V> View for NameMap<V> {
    type V = Map<Seq<char>, V>;

    open spec fn view(&self) -> Map<Seq<char>, V> {
        paired(self.names(), self.values())
    }
}

impl<V> NameMap<V> {
    /// The names held, in the order of their first insertion.
    pub closed spec fn names(&self) -> Seq<Seq<char>> {
        Seq::new(self.entries@.len(), |i: int| self.entries@[i].0@)
    }

    /// The values held; `values()[i]` belongs to `names()[i]`.
    pub closed spec fn values(&self) -> Seq<V> {
        Seq::new(self.entries@.len(), |i: int| self.entries@[i].1)
    }

    /// No name occurs twice, and every name has its value. This holds of every `NameMap`
    /// that a program can get hold of.
    #[verifier::type_invariant]
    pub open spec fn wf(&self) -> bool {
        &&& self.names().no_duplicates()
        &&& self.names().len() == self.values().len()
    }

    /// What `wf` gives about the view: its keys are the listed names, each with the value
    /// at its place.
    pub proof fn lemma_view(&self)
        requires
            self.wf(),
        ensures
            forall|k: Seq<char>| self@.contains_key(k) <==> self.names().contains(k),
            forall|i: int|
                0 <= i < self.names().len() ==> self@.contains_key(#[trigger] self.names()[i])
                    && self@[self.names()[i]] == self.values()[i],
    {
        assert forall|i: int| 0 <= i < self.names().len() implies self@.contains_key(
            #[trigger] self.names()[i],
        ) && self@[self.names()[i]] == self.values()[i] by {
            lemma_paired_at(self.names(), self.values(), i);
        }
    }

    /// An empty map.
    pub fn new() -> (r: Self)
        ensures
            r.wf(),
            r.names() == Seq::<Seq<char>>::empty(),
            r.values() == Seq::<V>::empty(),
            r@ == Map::<Seq<char>, V>::empty(),
    {
        let r = NameMap { entries: Vec::new() };
        assert(r.names() =~= Seq::<Seq<char>>::empty());
        assert(r.values() =~= Seq::<V>::empty());
        assert(r@ =~= Map::<Seq<char>, V>::empty());
        r
    }

    /// How many names are held.
    pub fn len(&self) -> (n: usize)
        ensures
            self.wf(),
            n == self.names().len(),
            self@.dom().finite(),
            n == self@.len(),
    {
        proof {
            use_type_invariant(self);
            lemma_paired_len(self.names(), self.values());
        }
        self.entries.len()
    }

    /// Whether no name is held.
    pub fn is_empty(&self) -> (b: bool)
        ensures
            self.wf(),
            b == (self.names().len() == 0),
            b == (self@ == Map::<Seq<char>, V>::empty()),
    {
        proof {
            use_type_invariant(self);
            if self.names().len() == 0 {
                assert(self@ =~= Map::<Seq<char>, V>::empty());
            } else {
                lemma_paired_at(self.names(), self.values(), 0);
            }
        }
        self.entries.len() == 0
    }

    /// The name at place `i`.
    pub fn name_at(&self, i: usize) -> (name: &str)
        requires
            i < self.names().len(),
        ensures
            self.wf(),
            name@ == self.names()[i as int],
            self@.contains_key(name@),
    {
        proof {
            use_type_invariant(self);
            lemma_paired_at(self.names(), self.values(), i as int);
        }
        self.entries[i].0.as_str()
    }

    /// The value at place `i`.
    pub fn value_at(&self, i: usize) -> (value: &V)
        requires
            i < self.names().len(),
        ensures
            self.wf(),
            *value == self.values()[i as int],
            *value == self@[self.names()[i as int]],
    {
        proof {
            use_type_invariant(self);
            lemma_paired_at(self.names(), self.values(), i as int);
        }
        &self.entries[i].1
    }

    /// The place of `name`, or `None` where it is not held.
    pub fn position(&self, name: &str) -> (r: Option<usize>)
        ensures
            self.wf(),
            match r {
                Some(i) => i < self.names().len() && self.names()[i as int] == name@,
                None => !self.names().contains(name@),
            },
            r.is_some() == self@.contains_key(name@),
    {
        proof {
            use_type_invariant(self);
        }
        let mut i: usize = 0;
        while i < self.entries.len()
            invariant
                i <= self.entries.len(),
                self.wf(),
                self.names().len() == self.entries.len(),
                forall|j: int| 0 <= j < i ==> self.names()[j] != name@,
            decreases self.entries.len() - i,
        {
            if same_text(self.entries[i].0.as_str(), name) {
                assert(self.names()[i as int] == name@);
                return Some(i);
            }
            i += 1;
        }
        None
    }

    /// Whether `name` is held.
    pub fn contains_key(&self, name: &str) -> (b: bool)
        ensures
            b == self@.contains_key(name@),
    {
        self.position(name).is_some()
    }

    /// The value held under `name`.
    pub fn get(&self, name: &str) -> (r: Option<&V>)
        ensures
            match r {
                Some(v) => self@.contains_key(name@) && *v == self@[name@],
                None => !self@.contains_key(name@),
            },
    {
        match self.position(name) {
            Some(i) => {
                proof {
                    lemma_paired_at(self.names(), self.values(), i as int);
                }
                Some(&self.entries[i].1)
            },
            None => None,
        }
    }

    /// Puts `value` under `name`. A name already held keeps its place and gets the new
    /// value; a new name goes to the end.
    pub fn insert(&mut self, name: String, value: V)
        ensures
            final(self).wf(),
            final(self)@ == old(self)@.insert(name@, value),
            old(self).names().contains(name@) ==> final(self).names() == old(self).names(),
            !old(self).names().contains(name@) ==> final(self).names() == old(self).names().push(
                name@,
            ),
    {
        proof {
            use_type_invariant(&*self);
        }
        let found = self.position(name.as_str());
        let mut entries: Vec<(String, V)> = Vec::new();
        std::mem::swap(&mut entries, &mut self.entries);
        let ghost names0 = old(self).names();
        let ghost values0 = old(self).values();
        match found {
            Some(i) => {
                entries.set(i, (name, value));
                proof {
                    assert(Seq::new(entries@.len(), |j: int| entries@[j].0@) =~= names0);
                }
                self.entries = entries;
                proof {
                    assert(self.names() =~= names0);
                    assert(self.values() =~= values0.update(i as int, value));
                    lemma_paired_update(names0, values0, i as int, value);
                }
            },
            None => {
                entries.push((name, value));
                proof {
                    lemma_paired_push(names0, values0, name@, value);
                    assert(Seq::new(entries@.len(), |i: int| entries@[i].0@) =~= names0.push(name@));
                }
                self.entries = entries;
                proof {
                    assert(self.names() =~= names0.push(name@));
                    assert(self.values() =~= values0.push(value));
                }
            },
        }
    }

    /// Takes `name` out, with its value. The names that stay keep their order.
    pub fn remove(&mut self, name: &str) -> (r: Option<V>)
        ensures
            final(self).wf(),
            final(self)@ == old(self)@.remove(name@),
            match r {
                Some(v) => old(self)@.contains_key(name@) && v == old(self)@[name@],
                None => !old(self)@.contains_key(name@),
            },
            !final(self).names().contains(name@),
            final(self).names() == without(old(self).names(), name@),
    {
        proof {
            use_type_invariant(&*self);
        }
        let ghost names0 = old(self).names();
        let ghost values0 = old(self).values();
        match self.position(name) {
            Some(i) => {
                let mut entries: Vec<(String, V)> = Vec::new();
                std::mem::swap(&mut entries, &mut self.entries);
                let entry = entries.remove(i);
                proof {
                    lemma_paired_remove(names0, values0, i as int);
                    lemma_paired_at(names0, values0, i as int);
                    assert(Seq::new(entries@.len(), |j: int| entries@[j].0@) =~= names0.remove(
                        i as int,
                    ));
                    lemma_index_of_unique(names0, i as int);
                }
                self.entries = entries;
                proof {
                    assert(self.names() =~= names0.remove(i as int));
                    assert(self.values() =~= values0.remove(i as int));
                }
                Some(entry.1)
            },
            None => {
                proof {
                    assert(self@ =~= old(self)@.remove(name@));
                }
                None
            },
        }
    }
}

} // verus!
