use vstd::prelude::*;

verus! {

/// The map that a list of entries stands for: each name maps to the value of
/// its last entry.
pub open spec fn entries_map<V>(s: Seq<(Seq<char>, V)>) -> Map<Seq<char>, V>
    decreases s.len(),
{
    if s.len() == 0 {
        Map::empty()
    } else {
        entries_map(s.drop_last()).insert(s.last().0, s.last().1)
    }
}

/// An entry for `k` that no later entry overrides gives the map's value for `k`.
proof fn lemma_entries_map_last<V>(s: Seq<(Seq<char>, V)>, k: Seq<char>, i: int)
    requires
        0 <= i < s.len(),
        s[i].0 == k,
        forall|j: int| i < j < s.len() ==> s[j].0 != k,
    ensures
        entries_map(s).contains_key(k),
        entries_map(s)[k] == s[i].1,
    decreases s.len(),
{
    if i < s.len() - 1 {
        lemma_entries_map_last(s.drop_last(), k, i);
    }
}

/// A name with no entry is not in the map.
proof fn lemma_entries_map_absent<V>(s: Seq<(Seq<char>, V)>, k: Seq<char>)
    requires
        forall|j: int| 0 <= j < s.len() ==> s[j].0 != k,
    ensures
        !entries_map(s).contains_key(k),
    decreases s.len(),
{
    if s.len() > 0 {
        lemma_entries_map_absent(s.drop_last(), k);
    }
}

/// Resolves the names that a file uses: names it imports map to the full
/// names they stand for, and names of generic parameters to the type they
/// stand for (of type `T`). Each list holds entries in the order they were
/// recorded; a later entry for a name overrides an earlier one.
///
/// A lookup scans a list from its end, so it finds the latest entry for a
/// name; recording an entry never removes an earlier one.
#[derive(Clone)]
pub struct ImportNameResolver<T> {
    pub imports: Vec<(String, String)>,
    pub generics: Vec<(String, T)>,
    pub parent: Option<String>,
    pub last_id: u32,
}

impl<T> ImportNameResolver<T> {
    /// The imports: each imported name and the name it stands for.
    pub open spec fn imports_map(&self) -> Map<Seq<char>, Seq<char>> {
        entries_map(self.imports@.map_values(|e: (String, String)| (e.0@, e.1@)))
    }

    /// The generic parameters: each name and the type it stands for.
    pub open spec fn generics_map(&self) -> Map<Seq<char>, T> {
        entries_map(self.generics@.map_values(|e: (String, T)| (e.0@, e.1)))
    }

    /// What `name` resolves to: the name it was imported as standing for,
    /// and the name itself where it was not imported.
    pub open spec fn resolved(&self, name: Seq<char>) -> Seq<char> {
        if self.imports_map().contains_key(name) {
            self.imports_map()[name]
        } else {
            name
        }
    }

    /// A resolver that knows no import and no generic parameter, has no
    /// parent, and has handed out no id.
    pub fn new() -> (r: Self)
        ensures
            r.imports_map() == Map::<Seq<char>, Seq<char>>::empty(),
            r.generics_map() == Map::<Seq<char>, T>::empty(),
            r.parent.is_none(),
            r.last_id == 0,
            forall|name: Seq<char>| #[trigger] r.resolved(name) == name,
    {
        let r = ImportNameResolver {
            imports: Vec::new(),
            generics: Vec::new(),
            parent: None,
            last_id: 0,
        };
        proof {
            assert(r.imports@.map_values(|e: (String, String)| (e.0@, e.1@)).len() == 0);
            assert(r.generics@.map_values(|e: (String, T)| (e.0@, e.1)).len() == 0);
        }
        r
    }

    /// Records that `name` is imported and stands for `target`.
    pub fn add_import(&mut self, name: String, target: String)
        ensures
            final(self).imports_map() == old(self).imports_map().insert(name@, target@),
            final(self).generics_map() == old(self).generics_map(),
            final(self).parent == old(self).parent,
            final(self).last_id == old(self).last_id,
    {
        let ghost before = self.imports@;
        let ghost k = name@;
        let ghost v = target@;
        self.imports.push((name, target));
        proof {
            let f = |e: (String, String)| (e.0@, e.1@);
            assert(self.imports@.map_values(f).drop_last() =~= before.map_values(f));
            assert(self.imports@.map_values(f).last() == (k, v));
        }
    }

    /// Records that the generic parameter `name` stands for `value`.
    pub fn add_generic(&mut self, name: String, value: T)
        ensures
            final(self).generics_map() == old(self).generics_map().insert(name@, value),
            final(self).imports_map() == old(self).imports_map(),
            final(self).parent == old(self).parent,
            final(self).last_id == old(self).last_id,
    {
        let ghost before = self.generics@;
        let ghost k = name@;
        let ghost v = value;
        self.generics.push((name, value));
        proof {
            let f = |e: (String, T)| (e.0@, e.1);
            assert(self.generics@.map_values(f).drop_last() =~= before.map_values(f));
            assert(self.generics@.map_values(f).last() == (k, v));
        }
    }

    /// What `name` resolves to; see `resolved`.
    pub fn resolve<'a>(&'a self, name: &'a String) -> (r: &'a String)
        ensures
            r@ == self.resolved(name@),
    {
        let ghost f = |e: (String, String)| (e.0@, e.1@);
        let ghost s = self.imports@.map_values(f);
        let mut i = self.imports.len();
        while i > 0
            invariant
                i <= self.imports.len(),
                s == self.imports@.map_values(f),
                f == (|e: (String, String)| (e.0@, e.1@)),
                forall|j: int| i <= j < s.len() ==> s[j].0 != name@,
            decreases i,
        {
            i = i - 1;
            if self.imports[i].0 == *name {
                proof {
                    lemma_entries_map_last(s, name@, i as int);
                }
                return &self.imports[i].1;
            }
        }
        proof {
            lemma_entries_map_absent(s, name@);
        }
        name
    }
}

impl<T: Clone> ImportNameResolver<T> {
    /// The type that the generic parameter `name` stands for, cloned, where
    /// there is such a parameter.
    pub fn generic(&self, name: &String) -> (r: Option<T>)
        ensures
            r is Some <==> self.generics_map().contains_key(name@),
            r matches Some(t) ==> cloned(self.generics_map()[name@], t),
    {
        let ghost f = |e: (String, T)| (e.0@, e.1);
        let ghost s = self.generics@.map_values(f);
        let mut i = self.generics.len();
        while i > 0
            invariant
                i <= self.generics.len(),
                s == self.generics@.map_values(f),
                f == (|e: (String, T)| (e.0@, e.1)),
                forall|j: int| i <= j < s.len() ==> s[j].0 != name@,
            decreases i,
        {
            i = i - 1;
            if self.generics[i].0 == *name {
                proof {
                    lemma_entries_map_last(s, name@, i as int);
                }
                return Some(self.generics[i].1.clone());
            }
        }
        proof {
            lemma_entries_map_absent(s, name@);
        }
        None
    }
}

/// What a resolver gives back of what was recorded in it: once `name` is
/// imported as standing for `target`, `name` resolves to `target`, and every
/// other name resolves as it did before.
pub proof fn lemma_resolve_after_import<T>(
    before: ImportNameResolver<T>,
    after: ImportNameResolver<T>,
    name: Seq<char>,
    target: Seq<char>,
    other: Seq<char>,
)
    requires
        after.imports_map() == before.imports_map().insert(name, target),
    ensures
        after.resolved(name) == target,
        other != name ==> after.resolved(other) == before.resolved(other),
{
}

/// Once the generic parameter `name` stands for `value`, that is what the
/// resolver knows of `name`, and it knows the same as before of every other
/// name.
pub proof fn lemma_generic_after_add<T>(
    before: ImportNameResolver<T>,
    after: ImportNameResolver<T>,
    name: Seq<char>,
    value: T,
    other: Seq<char>,
)
    requires
        after.generics_map() == before.generics_map().insert(name, value),
    ensures
        after.generics_map().contains_key(name),
        after.generics_map()[name] == value,
        other != name ==> (after.generics_map().contains_key(other)
            == before.generics_map().contains_key(other)),
        other != name && before.generics_map().contains_key(other) ==> after.generics_map()[other]
            == before.generics_map()[other],
{
}

} // verus!
