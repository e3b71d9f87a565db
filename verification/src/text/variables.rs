use vstd::prelude::*;

verus! {

/// The name of an editor variable.
#[derive(Debug, Clone, PartialEq, Eq, Hash)]
pub struct Variable(pub String);

/// The value bound to `name` in `entries`: the last entry with that name.
pub open spec fn lookup(entries: Seq<(Seq<char>, Seq<char>)>, name: Seq<char>) -> Option<Seq<char>>
    decreases entries.len(),
{
    if entries.len() == 0 {
        None
    } else if entries.last().0 == name {
        Some(entries.last().1)
    } else {
        lookup(entries.drop_last(), name)
    }
}

/// Editor variables: names bound to string values.
pub struct Variables {
    vars: Vec<(String, String)>,
}

impl Variables {
    pub closed spec fn entries(&self) -> Seq<(Seq<char>, Seq<char>)> {
        self.vars@.map_values(|e: (String, String)| (e.0@, e.1@))
    }

    /// The variables as a map from names to values.
    pub closed spec fn spec_map(&self) -> Map<Seq<char>, Seq<char>> {
        Map::new(
            |name: Seq<char>| lookup(self.entries(), name) is Some,
            |name: Seq<char>| lookup(self.entries(), name)->0,
        )
    }
}

impl View for Variables {
    type V = Map<Seq<char>, Seq<char>>;

    open spec fn view(&self) -> Map<Seq<char>, Seq<char>> {
        self.spec_map()
    }
}

impl Default for Variables {
    fn default() -> (v: Self)
        ensures
            v@ == Map::<Seq<char>, Seq<char>>::empty(),
    {
        let v = Self { vars: Vec::new() };
        assert(v.spec_map() =~= Map::<Seq<char>, Seq<char>>::empty());
        v
    }
}

proof fn lemma_lookup_update(
    entries: Seq<(Seq<char>, Seq<char>)>,
    i: int,
    name: Seq<char>,
    value: Seq<char>,
    q: Seq<char>,
)
    requires
        0 <= i < entries.len(),
        entries[i].0 == name,
        forall|j: int| i < j < entries.len() ==> entries[j].0 != name,
    ensures
        lookup(entries.update(i, (name, value)), q) == if q == name {
            Some(value)
        } else {
            lookup(entries, q)
        },
    decreases entries.len(),
{
    let u = entries.update(i, (name, value));
    if i < entries.len() - 1 {
        assert(u.drop_last() =~= entries.drop_last().update(i, (name, value)));
        lemma_lookup_update(entries.drop_last(), i, name, value, q);
    } else {
        assert(u.drop_last() =~= entries.drop_last());
    }
}

proof fn lemma_lookup_absent(entries: Seq<(Seq<char>, Seq<char>)>, name: Seq<char>)
    requires
        forall|j: int| 0 <= j < entries.len() ==> entries[j].0 != name,
    ensures
        lookup(entries, name) is None,
    decreases entries.len(),
{
    if entries.len() > 0 {
        lemma_lookup_absent(entries.drop_last(), name);
    }
}

impl Variables {
    /// Binds `r` to `s`.
    pub fn update(&mut self, r: &Variable, s: &String)
        ensures
            final(self)@ == old(self)@.insert(r.0@, s@),
    {
        let ghost old_entries = self.entries();
        let mut i = self.vars.len();
        while i > 0
            invariant
                i <= self.vars@.len(),
                self.entries() == old_entries,
                old(self).entries() == old_entries,
                forall|j: int| i <= j < self.vars@.len() ==> self.vars@[j].0@ != r.0@,
            decreases i,
        {
            if self.vars[i - 1].0 == r.0 {
                let e = (r.0.clone(), s.clone());
                self.vars.set(i - 1, e);
                proof {
                    assert(self.entries() =~= old_entries.update(i - 1, (r.0@, s@)));
                    assert forall|q: Seq<char>| #[trigger] lookup(self.entries(), q) == if q
                        == r.0@ {
                        Some(s@)
                    } else {
                        lookup(old_entries, q)
                    } by {
                        lemma_lookup_update(old_entries, i - 1, r.0@, s@, q);
                    }
                    assert(old(self).entries() == old_entries);
                    assert(self.spec_map().dom() =~= old(self).spec_map().insert(r.0@, s@).dom());
                    assert forall|q: Seq<char>| #[trigger] self.spec_map().contains_key(q) implies
                        self.spec_map()[q] == old(self).spec_map().insert(r.0@, s@)[q] by {
                        assert(lookup(self.entries(), q) == if q == r.0@ { Some(s@) } else { lookup(old_entries, q) });
                    }
                    assert(self.spec_map() =~= old(self).spec_map().insert(r.0@, s@));
                }
                return;
            }
            i = i - 1;
        }
        let e = (r.0.clone(), s.clone());
        self.vars.push(e);
        proof {
            assert(self.entries() =~= old_entries.push((r.0@, s@)));
            assert(self.entries().drop_last() =~= old_entries);
            assert(self@ =~= old(self)@.insert(r.0@, s@));
        }
    }

    /// The value bound to `r`, or the empty string when `r` is unbound.
    pub fn get(&self, r: &Variable) -> (v: String)
        ensures
            v@ == if self@.contains_key(r.0@) {
                self@[r.0@]
            } else {
                Seq::<char>::empty()
            },
    {
        let mut i = self.vars.len();
        assert(self.entries().take(i as int) =~= self.entries());
        while i > 0
            invariant
                i <= self.vars@.len(),
                forall|j: int| i <= j < self.vars@.len() ==> self.vars@[j].0@ != r.0@,
                lookup(self.entries(), r.0@) == lookup(self.entries().take(i as int), r.0@),
            decreases i,
        {
            assert(self.entries().take(i as int).drop_last() =~= self.entries().take(i - 1));
            if self.vars[i - 1].0 == r.0 {
                return self.vars[i - 1].1.clone();
            }
            i = i - 1;
        }
        proof {
            lemma_lookup_absent(self.entries().take(0), r.0@);
        }
        String::new()
    }
}

/// After a variable is set, reading it gives the value that was set.
pub proof fn lemma_get_after_update(
    vars: Map<Seq<char>, Seq<char>>,
    name: Seq<char>,
    value: Seq<char>,
)
    ensures
        vars.insert(name, value).contains_key(name),
        vars.insert(name, value)[name] == value,
{
}

/// Setting one variable leaves every other variable as it was.
pub proof fn lemma_update_other(
    vars: Map<Seq<char>, Seq<char>>,
    name: Seq<char>,
    value: Seq<char>,
    other: Seq<char>,
)
    requires
        other != name,
    ensures
        vars.insert(name, value).contains_key(other) == vars.contains_key(other),
        vars.contains_key(other) ==> vars.insert(name, value)[other] == vars[other],
{
}

} // verus!
