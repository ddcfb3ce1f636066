//! The header map: one value per field name, names compared without
//! regard to case and listed in ascending order.

use crate::text::{
    lemma_name_lt_asym, lemma_name_lt_trans, lowercase_of, name_lt, rank, to_lowercase, Rank,
};
use vstd::prelude::*;

verus! {

/// A field as the map lists it: lower-case name, then value.
pub type Entry = (Seq<char>, Seq<char>);

/// The names stand in strictly ascending order, so none occurs twice.
pub open spec fn ascending(s: Seq<Entry>) -> bool {
    forall|i: int, j: int| 0 <= i < j < s.len() ==> name_lt(#[trigger] s[i].0, #[trigger] s[j].0)
}

/// The name is the lower-case form of some text.
pub open spec fn is_lowercase_form(name: Seq<char>) -> bool {
    exists|text: Seq<char>| lowercase_of(text) == name
}

/// Every name of the listing is a lower-case form.
pub open spec fn normalized(s: Seq<Entry>) -> bool {
    forall|i: int| 0 <= i < s.len() ==> is_lowercase_form((#[trigger] s[i]).0)
}

/// Some entry of the listing carries the name.
pub open spec fn has_name(s: Seq<Entry>, name: Seq<char>) -> bool {
    exists|i: int| 0 <= i < s.len() && (#[trigger] s[i]).0 == name
}

/// The place of an entry that carries the name.
pub open spec fn index_of(s: Seq<Entry>, name: Seq<char>) -> int {
    choose|i: int| 0 <= i < s.len() && (#[trigger] s[i]).0 == name
}

/// The mapping from names to values that a listing stands for.
pub open spec fn entries_map(s: Seq<Entry>) -> Map<Seq<char>, Seq<char>> {
    Map::new(|name: Seq<char>| has_name(s, name), |name: Seq<char>| s[index_of(s, name)].1)
}

/// The listing that a vector of fields stands for.
pub open spec fn fields_view(fields: Seq<(String, String)>) -> Seq<Entry> {
    Seq::new(fields.len(), |i: int| (fields[i].0@, fields[i].1@))
}

/// In an ascending listing each entry is the one that its name finds.
pub proof fn lemma_entry_found(s: Seq<Entry>, i: int)
    requires
        ascending(s),
        0 <= i < s.len(),
    ensures
        has_name(s, s[i].0),
        index_of(s, s[i].0) == i,
        entries_map(s).contains_key(s[i].0),
        entries_map(s)[s[i].0] == s[i].1,
{
    let j = index_of(s, s[i].0);
    if j < i {
        lemma_name_lt_asym(s[j].0, s[i].0);
    } else if i < j {
        lemma_name_lt_asym(s[i].0, s[j].0);
    }
}

/// An ascending listing is determined by the mapping it stands for.
pub proof fn lemma_listing_unique(a: Seq<Entry>, b: Seq<Entry>)
    requires
        ascending(a),
        ascending(b),
        entries_map(a) == entries_map(b),
    ensures
        a == b,
    decreases a.len(),
{
    if a.len() == 0 {
        if b.len() > 0 {
            lemma_entry_found(b, 0);
        }
    } else if b.len() == 0 {
        lemma_entry_found(a, 0);
    } else {
        let n = a.len() - 1;
        let m = b.len() - 1;
        lemma_entry_found(a, n);
        lemma_entry_found(b, m);
        let i = index_of(b, a[n].0);
        let j = index_of(a, b[m].0);
        // The last names are the largest of either listing, hence equal.
        if i < m {
            if j < n {
                lemma_name_lt_trans(a[j].0, a[n].0, b[m].0);
                lemma_name_lt_asym(a[j].0, b[m].0);
            }
            lemma_name_lt_asym(b[i].0, b[m].0);
        }
        assert(a[n].0 == b[m].0);
        let a0 = a.drop_last();
        let b0 = b.drop_last();
        assert(entries_map(a0) =~= entries_map(b0)) by {
            assert forall|k: Seq<char>| has_name(a0, k) <==> has_name(b0, k) by {
                lemma_drop_last_names(a, k);
                lemma_drop_last_names(b, k);
            }
            assert forall|k: Seq<char>| has_name(a0, k) implies entries_map(a0)[k] == entries_map(
                b0,
            )[k] by {
                lemma_drop_last_names(a, k);
                lemma_drop_last_names(b, k);
            }
        }
        lemma_listing_unique(a0, b0);
        assert(a =~= a0.push(a[n]));
    }
}

/// What a listing without its last entry holds: all but the last name,
/// with the same values.
proof fn lemma_drop_last_names(s: Seq<Entry>, k: Seq<char>)
    requires
        ascending(s),
        s.len() > 0,
    ensures
        ascending(s.drop_last()),
        has_name(s.drop_last(), k) <==> has_name(s, k) && k != s.last().0,
        has_name(s.drop_last(), k) ==> entries_map(s.drop_last())[k] == entries_map(s)[k],
{
    let t = s.drop_last();
    assert(ascending(t));
    if has_name(t, k) {
        let i = index_of(t, k);
        lemma_name_lt_asym(s[i].0, s.last().0);
        lemma_entry_found(s, i);
        lemma_entry_found(t, i);
    }
    if has_name(s, k) && k != s.last().0 {
        let i = index_of(s, k);
        assert(t[i] == s[i]);
    }
}

/// The ascending listing of a mapping: the order in which its fields are
/// sent.
pub open spec fn listing_of(fields: Map<Seq<char>, Seq<char>>) -> Seq<Entry> {
    choose|s: Seq<Entry>| ascending(s) && entries_map(s) == fields
}

/// An ascending listing is the listing of its mapping.
pub proof fn lemma_listing_of(s: Seq<Entry>)
    requires
        ascending(s),
    ensures
        listing_of(entries_map(s)) == s,
{
    lemma_listing_unique(listing_of(entries_map(s)), s);
}

/// A case-insensitive store of header fields, one value per name.
pub struct Headers {
    fields: Vec<(String, String)>,
}

impl View for Headers {
    type V = Map<Seq<char>, Seq<char>>;

    /// The mapping from lower-case names to values.
    closed spec fn view(&self) -> Map<Seq<char>, Seq<char>> {
        entries_map(self.entries())
    }
}

impl Headers {
    /// The fields in the order in which they are listed and sent.
    pub closed spec fn entries(&self) -> Seq<Entry> {
        fields_view(self.fields@)
    }

    /// The listing is ascending and its names are lower-case forms. Every
    /// value that executable code holds is well formed.
    #[verifier::type_invariant]
    pub closed spec fn wf(&self) -> bool {
        ascending(fields_view(self.fields@)) && normalized(fields_view(self.fields@))
    }

    /// A well-formed map is the mapping of its ascending listing.
    pub proof fn lemma_view(self)
        requires
            self.wf(),
        ensures
            ascending(self.entries()),
            normalized(self.entries()),
            self@ == entries_map(self.entries()),
            self.entries() == listing_of(self@),
            forall|name: Seq<char>| #[trigger] self@.contains_key(name) ==> is_lowercase_form(name),
    {
        lemma_listing_of(self.entries());
        assert forall|name: Seq<char>| #[trigger]
            self@.contains_key(name) implies is_lowercase_form(name) by {
            let i = index_of(self.entries(), name);
        }
    }

    /// The place where `name` stands or would be put, and whether it is there.
    fn position(&self, name: &str) -> (r: (usize, bool))
        ensures
            self.wf(),
            r.0 <= self.entries().len(),
            forall|j: int| 0 <= j < r.0 ==> name_lt(#[trigger] self.entries()[j].0, name@),
            r.1 ==> r.0 < self.entries().len() && self.entries()[r.0 as int].0 == name@,
            !r.1 ==> !has_name(self.entries(), name@),
            !r.1 && r.0 < self.entries().len() ==> name_lt(name@, self.entries()[r.0 as int].0),
    {
        proof {
            use_type_invariant(self);
        }
        let ghost s = self.entries();
        let mut i: usize = 0;
        while i < self.fields.len()
            invariant
                i <= self.fields.len(),
                self.wf(),
                s == fields_view(self.fields@),
                ascending(s),
                forall|j: int| 0 <= j < i ==> name_lt(#[trigger] s[j].0, name@),
            decreases self.fields.len() - i,
        {
            match rank(self.fields[i].0.as_str(), name) {
                Rank::Before => {},
                Rank::Same => {
                    return (i, true);
                },
                Rank::After => {
                    proof {
                        lemma_absent(s, name@, i as int);
                    }
                    return (i, false);
                },
            }
            i = i + 1;
        }
        proof {
            lemma_absent(s, name@, i as int);
        }
        (i, false)
    }

    /// Stores `val` under the lower-case form of `key`, in place of any
    /// value that stood there.
    pub fn insert(&mut self, key: &str, val: &str)
        ensures
            final(self).wf(),
            final(self)@ == old(self)@.insert(lowercase_of(key@), val@),
    {
        let name = to_lowercase(key);
        let (i, found) = self.position(name.as_str());
        let ghost s = self.entries();
        let value = val.to_owned();
        proof {
            lemma_put(s, i as int, found, name@, value@);
        }
        let mut fields: Vec<(String, String)> = Vec::new();
        core::mem::swap(&mut self.fields, &mut fields);
        if found {
            fields.set(i, (name, value));
            assert(fields_view(fields@) =~= s.update(i as int, (name@, value@)));
        } else {
            fields.insert(i, (name, value));
            assert(fields_view(fields@) =~= s.insert(i as int, (name@, value@)));
        }
        assert(normalized(fields_view(fields@)));
        self.fields = fields;
    }

    /// The value stored under the lower-case form of `key`, if there is one.
    pub fn get(&self, key: &str) -> (value: Option<&String>)
        ensures
            value is Some <==> self@.contains_key(lowercase_of(key@)),
            value matches Some(v) ==> v@ == self@[lowercase_of(key@)],
    {
        let name = to_lowercase(key);
        let (i, found) = self.position(name.as_str());
        if found {
            proof {
                lemma_entry_found(self.entries(), i as int);
            }
            Some(&self.fields[i].1)
        } else {
            None
        }
    }

    /// Whether a value is stored under the lower-case form of `key`.
    pub fn contains(&self, key: &str) -> (found: bool)
        ensures
            found == self@.contains_key(lowercase_of(key@)),
    {
        let name = to_lowercase(key);
        let (i, found) = self.position(name.as_str());
        proof {
            if found {
                lemma_entry_found(self.entries(), i as int);
            }
        }
        found
    }

    /// Takes out the value stored under the lower-case form of `key`, if
    /// there is one.
    pub fn remove(&mut self, key: &str)
        ensures
            final(self).wf(),
            final(self)@ == old(self)@.remove(lowercase_of(key@)),
    {
        let name = to_lowercase(key);
        let (i, found) = self.position(name.as_str());
        let ghost s = self.entries();
        if found {
            proof {
                lemma_take_out(s, i as int);
            }
            let mut fields: Vec<(String, String)> = Vec::new();
            core::mem::swap(&mut self.fields, &mut fields);
            fields.remove(i);
            assert(fields_view(fields@) =~= s.remove(i as int));
            assert(normalized(fields_view(fields@)));
            self.fields = fields;
        }
    }

    /// The fields, each a lower-case name with its value, in ascending
    /// order of the names.
    pub fn iter(&self) -> (fields: &[(String, String)])
        ensures
            self.wf(),
            fields_view(fields@) == self.entries(),
    {
        proof {
            use_type_invariant(self);
        }
        self.fields.as_slice()
    }
}

impl Default for Headers {
    /// The empty map.
    fn default() -> (h: Headers)
        ensures
            h.wf(),
            h@ == Map::<Seq<char>, Seq<char>>::empty(),
            h.entries() == Seq::<Entry>::empty(),
    {
        let h = Headers { fields: Vec::new() };
        h
    }
}

impl Clone for Headers {
    /// A map with the same fields.
    fn clone(&self) -> (h: Headers)
        ensures
            h.wf(),
            h@ == self@,
            h.entries() == self.entries(),
    {
        proof {
            use_type_invariant(self);
        }
        let mut fields: Vec<(String, String)> = Vec::new();
        let mut i: usize = 0;
        while i < self.fields.len()
            invariant
                i <= self.fields.len(),
                fields@.len() == i,
                forall|j: int|
                    0 <= j < i ==> fields@[j].0@ == self.fields@[j].0@ && fields@[j].1@
                        == self.fields@[j].1@,
            decreases self.fields.len() - i,
        {
            fields.push((self.fields[i].0.clone(), self.fields[i].1.clone()));
            i = i + 1;
        }
        assert(fields_view(fields@) =~= fields_view(self.fields@));
        Headers { fields }
    }
}

/// A value stored under a name is found under every name that has the
/// same lower-case form, whatever the case of either.
pub proof fn lemma_get_after_insert(
    before: Headers,
    after: Headers,
    stored: Seq<char>,
    asked: Seq<char>,
    value: Seq<char>,
)
    requires
        after@ == before@.insert(lowercase_of(stored), value),
        lowercase_of(stored) == lowercase_of(asked),
    ensures
        after@.contains_key(lowercase_of(asked)),
        after@[lowercase_of(asked)] == value,
{
}

/// A name that is larger than all before a place and smaller than the
/// entry at the place, if there is one, is not in the listing.
proof fn lemma_absent(s: Seq<Entry>, name: Seq<char>, i: int)
    requires
        ascending(s),
        0 <= i <= s.len(),
        forall|j: int| 0 <= j < i ==> name_lt(#[trigger] s[j].0, name),
        i < s.len() ==> name_lt(name, s[i].0),
    ensures
        !has_name(s, name),
{
    if has_name(s, name) {
        let j = index_of(s, name);
        if j < i {
            lemma_name_lt_asym(s[j].0, name);
        } else {
            if i < j {
                lemma_name_lt_trans(name, s[i].0, s[j].0);
            }
            lemma_name_lt_asym(name, s[j].0);
        }
    }
}

/// Putting a field at its place, over an entry of the same name or
/// between its neighbours, keeps the listing ascending and sets the name
/// to the value in the mapping.
proof fn lemma_put(s: Seq<Entry>, i: int, found: bool, name: Seq<char>, value: Seq<char>)
    requires
        ascending(s),
        0 <= i <= s.len(),
        forall|j: int| 0 <= j < i ==> name_lt(#[trigger] s[j].0, name),
        found ==> i < s.len() && s[i].0 == name,
        !found && i < s.len() ==> name_lt(name, s[i].0),
    ensures
        ({
            let t = if found {
                s.update(i, (name, value))
            } else {
                s.insert(i, (name, value))
            };
            ascending(t) && entries_map(t) == entries_map(s).insert(name, value)
        }),
{
    let t = if found {
        s.update(i, (name, value))
    } else {
        s.insert(i, (name, value))
    };
    let d: int = if found {
        0
    } else {
        1
    };
    assert forall|a: int, b: int| 0 <= a < b < t.len() implies name_lt(
        #[trigger] t[a].0,
        #[trigger] t[b].0,
    ) by {
        if a == i && !found && i < b - 1 {
            lemma_name_lt_trans(name, s[i].0, s[b - 1].0);
        }
    }
    lemma_entry_found(t, i);
    assert forall|k: Seq<char>| has_name(t, k) <==> (k == name || has_name(s, k)) by {
        if has_name(s, k) && k != name {
            let j = index_of(s, k);
            if j < i {
                assert(t[j] == s[j]);
            } else {
                assert(t[j + d] == s[j]);
            }
        }
    }
    assert forall|k: Seq<char>| has_name(s, k) && k != name implies entries_map(t)[k]
        == entries_map(s)[k] by {
        let j = index_of(s, k);
        lemma_entry_found(s, j);
        if j < i {
            lemma_entry_found(t, j);
        } else {
            lemma_entry_found(t, j + d);
        }
    }
}

/// Taking an entry out keeps the listing ascending and removes its name
/// from the mapping.
proof fn lemma_take_out(s: Seq<Entry>, i: int)
    requires
        ascending(s),
        0 <= i < s.len(),
    ensures
        ascending(s.remove(i)),
        entries_map(s.remove(i)) == entries_map(s).remove(s[i].0),
{
    let t = s.remove(i);
    let name = s[i].0;
    assert(ascending(t));
    lemma_entry_found(s, i);
    assert forall|k: Seq<char>| has_name(t, k) <==> (k != name && has_name(s, k)) by {
        if has_name(t, k) {
            let j = index_of(t, k);
            let j0 = if j < i { j } else { j + 1 };
            lemma_entry_found(s, j0);
        }
        if has_name(s, k) && k != name {
            let j = index_of(s, k);
            let j1 = if j < i { j } else { j - 1 };
            assert(t[j1] == s[j]);
        }
    }
    assert forall|k: Seq<char>| has_name(t, k) implies entries_map(t)[k] == entries_map(s)[k] by {
        let j = index_of(t, k);
        let j0 = if j < i { j } else { j + 1 };
        lemma_entry_found(t, j);
        lemma_entry_found(s, j0);
    }
}

} // verus!
