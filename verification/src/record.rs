//! A prediction record: the named scores stored for one client.
//!
//! The service reads records and hands them on; it never computes with a
//! score. A score is therefore held as the 32 bits of its IEEE 754
//! single-precision encoding, which stands for the number exactly.

use vstd::prelude::*;

verus! {

/// One named score of a record.
#[derive(Debug)]
pub struct Field {
    /// The name of the field.
    pub name: String,
    /// The bits of the score.
    pub score: u32,
}

/// The names of a run of fields, in order.
pub open spec fn names_of(fields: Seq<Field>) -> Seq<Seq<char>> {
    Seq::new(fields.len(), |i: int| fields[i].name@)
}

/// The mapping that a run of fields with distinct names stands for.
pub open spec fn fields_map(fields: Seq<Field>) -> Map<Seq<char>, u32> {
    Map::new(
        |name: Seq<char>| names_of(fields).contains(name),
        |name: Seq<char>| fields[names_of(fields).index_of(name)].score,
    )
}

/// Each field of a run with distinct names is found under its name.
proof fn lemma_field_found(fields: Seq<Field>, at: int)
    requires
        names_of(fields).no_duplicates(),
        0 <= at < fields.len(),
    ensures
        fields_map(fields).contains_key(fields[at].name@),
        fields_map(fields)[fields[at].name@] == fields[at].score,
{
    let names = names_of(fields);
    assert(names[at] == fields[at].name@);
    let found = names.index_of(names[at]);
    assert(0 <= found < names.len() && names[found] == names[at]);
}

/// A name that a run of fields lacks is no key of its mapping.
proof fn lemma_field_missing(fields: Seq<Field>, name: Seq<char>)
    requires
        forall|i: int| 0 <= i < fields.len() ==> fields[i].name@ != name,
    ensures
        !fields_map(fields).contains_key(name),
        !names_of(fields).contains(name),
{
    let names = names_of(fields);
    if names.contains(name) {
        let i = choose|i: int| 0 <= i < names.len() && names[i] == name;
        assert(fields[i].name@ == name);
    }
}

/// A run of fields with distinct names stands for a finite mapping with as
/// many keys as the run has fields.
proof fn lemma_fields_count(fields: Seq<Field>)
    requires
        names_of(fields).no_duplicates(),
    ensures
        fields_map(fields).dom().finite(),
        fields_map(fields).dom().len() == fields.len(),
{
    let names = names_of(fields);
    names.unique_seq_to_set();
    assert(fields_map(fields).dom() =~= names.to_set());
}

/// Appending a field under a new name adds that entry to the mapping.
proof fn lemma_field_pushed(fields: Seq<Field>, field: Field)
    requires
        names_of(fields).no_duplicates(),
        !names_of(fields).contains(field.name@),
    ensures
        names_of(fields.push(field)).no_duplicates(),
        fields_map(fields.push(field)) == fields_map(fields).insert(field.name@, field.score),
{
    let grown = fields.push(field);
    let names = names_of(fields);
    let grown_names = names_of(grown);
    assert(grown_names =~= names.push(field.name@));
    assert forall|i: int, j: int| 0 <= i < grown_names.len() && 0 <= j < grown_names.len() && i != j
        implies grown_names[i] != grown_names[j] by {
        if i < names.len() {
            assert(names[i] == grown_names[i]);
        }
        if j < names.len() {
            assert(names[j] == grown_names[j]);
        }
    }
    let wanted = fields_map(fields).insert(field.name@, field.score);
    assert forall|name: Seq<char>| fields_map(grown).contains_key(name) == wanted.contains_key(name) by {
        if grown_names.contains(name) {
            let i = choose|i: int| 0 <= i < grown_names.len() && grown_names[i] == name;
            if i < names.len() {
                assert(names[i] == name);
            }
        }
        if names.contains(name) {
            let i = choose|i: int| 0 <= i < names.len() && names[i] == name;
            assert(grown_names[i] == name);
        }
        assert(grown_names[fields.len() as int] == field.name@);
    }
    assert forall|name: Seq<char>| fields_map(grown).contains_key(name) implies fields_map(grown)[name]
        == wanted[name] by {
        let i = choose|i: int| 0 <= i < grown_names.len() && grown_names[i] == name;
        assert(grown[i].name@ == name);
        lemma_field_found(grown, i);
        if i < fields.len() {
            assert(grown[i] == fields[i]);
            lemma_field_found(fields, i);
        }
    }
    assert(fields_map(grown) =~= wanted);
}

/// Putting a field in the place of one with the same name sets that entry
/// of the mapping.
proof fn lemma_field_replaced(fields: Seq<Field>, at: int, field: Field)
    requires
        names_of(fields).no_duplicates(),
        0 <= at < fields.len(),
        fields[at].name@ == field.name@,
    ensures
        names_of(fields.update(at, field)).no_duplicates(),
        names_of(fields.update(at, field)) == names_of(fields),
        fields_map(fields.update(at, field)) == fields_map(fields).insert(field.name@, field.score),
{
    let changed = fields.update(at, field);
    assert(names_of(changed) =~= names_of(fields));
    let wanted = fields_map(fields).insert(field.name@, field.score);
    lemma_field_found(fields, at);
    assert forall|name: Seq<char>| fields_map(changed).contains_key(name) implies fields_map(changed)[name]
        == wanted[name] by {
        let names = names_of(fields);
        let i = choose|i: int| 0 <= i < names.len() && names[i] == name;
        assert(changed[i].name@ == name);
        assert(names_of(changed).no_duplicates());
        lemma_field_found(changed, i);
        assert(names[at] == field.name@);
        if i != at {
            assert(names[i] != names[at]);
            assert(changed[i] == fields[i]);
            lemma_field_found(fields, i);
        }
    }
    assert forall|name: Seq<char>| fields_map(changed).contains_key(name) == wanted.contains_key(name) by {
        assert(names_of(fields)[at] == field.name@);
    }
    assert(fields_map(changed) =~= wanted);
}

/// The scores stored for one client, each under its own name. The order in
/// which fields were put in is of no account.
#[derive(Debug)]
pub struct PredictionRecord {
    fields: Vec<Field>,
}

impl View for PredictionRecord {
    type V = Map<Seq<char>, u32>;

    closed spec fn view(&self) -> Map<Seq<char>, u32> {
        fields_map(self.fields@)
    }
}

impl PredictionRecord {
    #[verifier::type_invariant]
    spec fn inv(self) -> bool {
        names_of(self.fields@).no_duplicates()
    }

    /// The record without fields.
    pub fn new() -> (record: PredictionRecord)
        ensures
            record@ == Map::<Seq<char>, u32>::empty(),
    {
        let record = PredictionRecord { fields: Vec::new() };
        assert(record@ =~= Map::<Seq<char>, u32>::empty()) by {
            lemma_field_missing_all(record.fields@);
        }
        record
    }

    /// The fields in the order in which the record holds them.
    pub closed spec fn entries(self) -> Seq<Field> {
        self.fields@
    }

    /// Sets the score of the field `name`, which the record gains if it
    /// lacks it, and returns the score that the field had.
    pub fn insert(&mut self, name: String, score: u32) -> (previous: Option<u32>)
        ensures
            final(self)@ == old(self)@.insert(name@, score),
            previous == if old(self)@.contains_key(name@) {
                Some(old(self)@[name@])
            } else {
                None::<u32>
            },
    {
        proof {
            use_type_invariant(&*self);
        }
        let mut fields: Vec<Field> = Vec::new();
        std::mem::swap(&mut fields, &mut self.fields);
        let previous = match find(&fields, &name) {
            Some(at) => {
                let previous = fields[at].score;
                let field = Field { name, score };
                proof {
                    lemma_field_found(fields@, at as int);
                    lemma_field_replaced(fields@, at as int, field);
                }
                fields.set(at, field);
                Some(previous)
            },
            None => {
                let field = Field { name, score };
                proof {
                    lemma_field_missing(fields@, field.name@);
                    lemma_field_pushed(fields@, field);
                }
                fields.push(field);
                None
            },
        };
        self.fields = fields;
        previous
    }

    /// The score of the field `name`, if the record has that field.
    pub fn get(&self, name: &str) -> (score: Option<u32>)
        ensures
            score == if self@.contains_key(name@) {
                Some(self@[name@])
            } else {
                None::<u32>
            },
    {
        proof {
            use_type_invariant(self);
        }
        let wanted = String::from_str(name);
        match find(&self.fields, &wanted) {
            Some(at) => {
                proof {
                    lemma_field_found(self.fields@, at as int);
                }
                Some(self.fields[at].score)
            },
            None => {
                proof {
                    lemma_field_missing(self.fields@, name@);
                }
                None
            },
        }
    }

    /// The number of fields.
    pub fn len(&self) -> (count: usize)
        ensures
            self@.dom().finite(),
            count == self@.len(),
            count == self.entries().len(),
    {
        proof {
            use_type_invariant(self);
            lemma_fields_count(self.fields@);
        }
        self.fields.len()
    }

    /// Whether the record has no field. A key that the store never held
    /// reads as such a record.
    pub fn is_empty(&self) -> (empty: bool)
        ensures
            empty == (self@ == Map::<Seq<char>, u32>::empty()),
    {
        proof {
            use_type_invariant(self);
            lemma_fields_count(self.fields@);
            if self.fields@.len() == 0 {
                lemma_field_missing_all(self.fields@);
            }
        }
        self.fields.len() == 0
    }

    /// The field at one place of the record, for walking through all of
    /// them: the places `0..len()` hold each field once.
    pub fn field(&self, at: usize) -> (field: Option<&Field>)
        ensures
            match field {
                Some(found) => at < self.entries().len() && *found == self.entries()[at as int],
                None => at >= self.entries().len(),
            },
            names_of(self.entries()).no_duplicates(),
            self@ == fields_map(self.entries()),
    {
        proof {
            use_type_invariant(self);
        }
        if at < self.fields.len() {
            Some(&self.fields[at])
        } else {
            None
        }
    }
}

/// Two records are equal where they hold the same scores under the same
/// names, in whatever order.
impl PartialEq for PredictionRecord {
    fn eq(&self, other: &PredictionRecord) -> (equal: bool) {
        proof {
            use_type_invariant(self);
            use_type_invariant(other);
            lemma_fields_count(self.fields@);
            lemma_fields_count(other.fields@);
        }
        if self.fields.len() != other.fields.len() {
            return false;
        }
        let mut at: usize = 0;
        while at < self.fields.len()
            invariant
                at <= self.fields.len(),
                names_of(self.fields@).no_duplicates(),
                names_of(other.fields@).no_duplicates(),
                forall|i: int|
                    0 <= i < at ==> fields_map(other.fields@).contains_key(#[trigger] self.fields[i].name@)
                        && fields_map(other.fields@)[self.fields[i].name@] == self.fields[i].score,
            decreases self.fields.len() - at,
        {
            proof {
                lemma_field_found(self.fields@, at as int);
            }
            match find(&other.fields, &self.fields[at].name) {
                Some(there) => {
                    proof {
                        lemma_field_found(other.fields@, there as int);
                    }
                    if other.fields[there].score != self.fields[at].score {
                        return false;
                    }
                },
                None => {
                    proof {
                        lemma_field_missing(other.fields@, self.fields[at as int].name@);
                    }
                    return false;
                },
            }
            at += 1;
        }
        proof {
            lemma_same_fields(self.fields@, other.fields@);
        }
        true
    }
}

impl vstd::std_specs::cmp::PartialEqSpecImpl for PredictionRecord {
    open spec fn obeys_eq_spec() -> bool {
        true
    }

    open spec fn eq_spec(&self, other: &PredictionRecord) -> bool {
        self@ == other@
    }
}

/// Two runs of equal length with distinct names stand for the same mapping
/// where the second holds each field of the first.
proof fn lemma_same_fields(ours: Seq<Field>, theirs: Seq<Field>)
    requires
        names_of(ours).no_duplicates(),
        names_of(theirs).no_duplicates(),
        ours.len() == theirs.len(),
        forall|i: int|
            0 <= i < ours.len() ==> fields_map(theirs).contains_key(#[trigger] ours[i].name@) && fields_map(
                theirs,
            )[ours[i].name@] == ours[i].score,
    ensures
        fields_map(ours) == fields_map(theirs),
{
    lemma_fields_count(ours);
    lemma_fields_count(theirs);
    let names = names_of(ours);
    assert forall|name: Seq<char>| fields_map(ours).contains_key(name) implies fields_map(
        theirs,
    ).contains_key(name) && fields_map(ours)[name] == fields_map(theirs)[name] by {
        let i = choose|i: int| 0 <= i < names.len() && names[i] == name;
        assert(ours[i].name@ == name);
        lemma_field_found(ours, i);
    }
    assert(fields_map(ours).dom().subset_of(fields_map(theirs).dom()));
    vstd::set_lib::lemma_subset_equality(fields_map(ours).dom(), fields_map(theirs).dom());
    assert(fields_map(ours) =~= fields_map(theirs));
}

/// Where the field `name` stands in `fields`, if there is one.
fn find(fields: &Vec<Field>, name: &String) -> (found: Option<usize>)
    ensures
        match found {
            Some(at) => at < fields.len() && fields[at as int].name@ == name@,
            None => forall|i: int| 0 <= i < fields.len() ==> fields[i].name@ != name@,
        },
{
    let mut at: usize = 0;
    while at < fields.len()
        invariant
            at <= fields.len(),
            forall|i: int| 0 <= i < at ==> fields[i].name@ != name@,
        decreases fields.len() - at,
    {
        if fields[at].name == *name {
            return Some(at);
        }
        at += 1;
    }
    None
}

/// A run without fields stands for the mapping without keys.
proof fn lemma_field_missing_all(fields: Seq<Field>)
    requires
        fields.len() == 0,
    ensures
        fields_map(fields) =~= Map::<Seq<char>, u32>::empty(),
{
    assert forall|name: Seq<char>| !fields_map(fields).contains_key(name) by {
        lemma_field_missing(fields, name);
    }
}

} // verus!
