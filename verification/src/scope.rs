//! The structured fields that a scope accumulates.
//!
//! A scope maps field names to values. Names are unique; recording a name a
//! second time replaces the value and keeps the position of the first write.

use vstd::prelude::*;

verus! {

/// What a field can hold: free text or a whole number.
#[derive(Clone, Debug, PartialEq, Eq)]
pub enum FieldValue {
    Text(String),
    Integer(i64),
}

/// The mathematical value of a [`FieldValue`].
pub enum FieldValueView {
    Text(Seq<char>),
    Integer(i64),
}

impl View for FieldValue {
    type V = FieldValueView;

    open spec fn view(&self) -> FieldValueView {
        match self {
            FieldValue::Text(s) => FieldValueView::Text(s@),
            FieldValue::Integer(i) => FieldValueView::Integer(*i),
        }
    }
}

/// One named value.
#[derive(Clone, Debug, PartialEq, Eq)]
pub struct Field {
    pub key: String,
    pub value: FieldValue,
}

/// The mathematical value of a [`Field`].
pub struct FieldView {
    pub key: Seq<char>,
    pub value: FieldValueView,
}

impl View for Field {
    type V = FieldView;

    open spec fn view(&self) -> FieldView {
        FieldView { key: self.key@, value: self.value@ }
    }
}

/// The fields of a list, each by its view, in the list's order.
pub open spec fn fields_view(fields: Seq<Field>) -> Seq<FieldView> {
    fields.map_values(|f: Field| f@)
}

/// Some field of the list has this name.
pub open spec fn has_key(fields: Seq<FieldView>, key: Seq<char>) -> bool {
    exists|i: int| 0 <= i < fields.len() && (#[trigger] fields[i]).key == key
}

/// No name occurs twice.
pub open spec fn unique_keys(fields: Seq<FieldView>) -> bool {
    forall|i: int, j: int|
        0 <= i < j < fields.len() ==> (#[trigger] fields[i]).key != (#[trigger] fields[j]).key
}

/// The value recorded under a name, if there is one.
pub open spec fn lookup(fields: Seq<FieldView>, key: Seq<char>) -> Option<FieldValueView> {
    if has_key(fields, key) {
        let i = choose|i: int| 0 <= i < fields.len() && (#[trigger] fields[i]).key == key;
        Some(fields[i].value)
    } else {
        None
    }
}

/// What a field becomes when `key` is written: the fields of that name take
/// the new value, the others stay.
pub open spec fn overwritten(f: FieldView, key: Seq<char>, value: FieldValueView) -> FieldView {
    if f.key == key {
        FieldView { key, value }
    } else {
        f
    }
}

/// The list after `key` is written: an existing name keeps its place and
/// takes the new value, a new name goes to the end.
pub open spec fn upsert(fields: Seq<FieldView>, key: Seq<char>, value: FieldValueView) -> Seq<
    FieldView,
> {
    if has_key(fields, key) {
        fields.map_values(|f: FieldView| overwritten(f, key, value))
    } else {
        fields.push(FieldView { key, value })
    }
}

/// The list after each field of `more` is written to it in turn.
pub open spec fn upsert_all(fields: Seq<FieldView>, more: Seq<FieldView>) -> Seq<FieldView>
    decreases more.len(),
{
    if more.len() == 0 {
        fields
    } else {
        upsert(upsert_all(fields, more.drop_last()), more.last().key, more.last().value)
    }
}

/// Writing a name keeps names unique.
pub proof fn lemma_upsert_unique(fields: Seq<FieldView>, key: Seq<char>, value: FieldValueView)
    requires
        unique_keys(fields),
    ensures
        unique_keys(upsert(fields, key, value)),
{
    let after = upsert(fields, key, value);
    if has_key(fields, key) {
        assert forall|i: int, j: int| 0 <= i < j < after.len() implies (#[trigger] after[i]).key != (
        #[trigger] after[j]).key by {
            assert(after[i].key == fields[i].key);
            assert(after[j].key == fields[j].key);
        }
    } else {
        assert forall|i: int, j: int| 0 <= i < j < after.len() implies (#[trigger] after[i]).key != (
        #[trigger] after[j]).key by {
            if j < fields.len() {
                assert(after[i] == fields[i]);
                assert(after[j] == fields[j]);
            } else {
                assert(after[i] == fields[i]);
                assert(after[j].key == key);
            }
        }
    }
}

/// Writing several names in turn keeps names unique.
pub proof fn lemma_upsert_all_unique(fields: Seq<FieldView>, more: Seq<FieldView>)
    requires
        unique_keys(fields),
    ensures
        unique_keys(upsert_all(fields, more)),
    decreases more.len(),
{
    if more.len() > 0 {
        lemma_upsert_all_unique(fields, more.drop_last());
        lemma_upsert_unique(
            upsert_all(fields, more.drop_last()),
            more.last().key,
            more.last().value,
        );
    }
}

/// The last write wins: after `key` is written, reading `key` gives the value
/// written, and reading any other name gives what it gave before.
pub proof fn lemma_upsert_lookup(
    fields: Seq<FieldView>,
    key: Seq<char>,
    value: FieldValueView,
    other: Seq<char>,
)
    requires
        unique_keys(fields),
    ensures
        lookup(upsert(fields, key, value), key) == Some(value),
        other != key ==> lookup(upsert(fields, key, value), other) == lookup(fields, other),
{
    let after = upsert(fields, key, value);
    lemma_upsert_unique(fields, key, value);
    if has_key(fields, key) {
        let w = choose|i: int| 0 <= i < fields.len() && (#[trigger] fields[i]).key == key;
        assert(after[w].key == key);
        assert(has_key(after, key));
        let c = choose|i: int| 0 <= i < after.len() && (#[trigger] after[i]).key == key;
        assert(after[c].value == value);
    } else {
        assert(after[fields.len() as int].key == key);
        assert(has_key(after, key));
        let c = choose|i: int| 0 <= i < after.len() && (#[trigger] after[i]).key == key;
        if c < fields.len() {
            assert(after[c] == fields[c]);
            assert(false);
        }
        assert(after[c].value == value);
    }
    if other != key {
        if has_key(fields, other) {
            let w = choose|i: int| 0 <= i < fields.len() && (#[trigger] fields[i]).key == other;
            assert(after[w] == fields[w]);
            assert(has_key(after, other));
            let c = choose|i: int| 0 <= i < after.len() && (#[trigger] after[i]).key == other;
            assert(c < fields.len()) by {
                if c >= fields.len() {
                    assert(!has_key(fields, key));
                    assert(after[c].key == key);
                }
            }
            assert(after[c] == fields[c]);
            if c != w {
                if c < w {
                    assert(fields[c].key != fields[w].key);
                } else {
                    assert(fields[w].key != fields[c].key);
                }
            }
        } else {
            if has_key(after, other) {
                let c = choose|i: int| 0 <= i < after.len() && (#[trigger] after[i]).key == other;
                if c < fields.len() {
                    assert(after[c].key == fields[c].key);
                    assert(fields[c].key == other);
                } else {
                    assert(after[c].key == key);
                }
                assert(false);
            }
        }
    }
}

/// Writing several names leaves the other names as they were, and the name
/// written last reads as it was written.
pub proof fn lemma_upsert_all_lookup(fields: Seq<FieldView>, more: Seq<FieldView>, key: Seq<char>)
    requires
        unique_keys(fields),
    ensures
        !has_key(more, key) ==> lookup(upsert_all(fields, more), key) == lookup(fields, key),
        more.len() > 0 ==> lookup(upsert_all(fields, more), more.last().key) == Some(
            more.last().value,
        ),
    decreases more.len(),
{
    if more.len() > 0 {
        let front = more.drop_last();
        let last = more.last();
        lemma_upsert_all_unique(fields, front);
        lemma_upsert_lookup(upsert_all(fields, front), last.key, last.value, key);
        if !has_key(more, key) {
            assert(more[more.len() - 1].key != key);
            assert(!has_key(front, key)) by {
                if has_key(front, key) {
                    let i = choose|i: int| 0 <= i < front.len() && (#[trigger] front[i]).key == key;
                    assert(more[i].key == key);
                }
            }
            lemma_upsert_all_lookup(fields, front, key);
        }
    }
}

/// A copy of a value.
pub fn clone_value(value: &FieldValue) -> (copy: FieldValue)
    ensures
        copy@ == value@,
{
    match value {
        FieldValue::Text(s) => FieldValue::Text(s.clone()),
        FieldValue::Integer(i) => FieldValue::Integer(*i),
    }
}

/// A copy of a list of fields.
pub fn clone_fields(fields: &Vec<Field>) -> (copy: Vec<Field>)
    ensures
        fields_view(copy@) == fields_view(fields@),
{
    let mut copy: Vec<Field> = Vec::new();
    let mut i: usize = 0;
    while i < fields.len()
        invariant
            i <= fields.len(),
            copy.len() == i,
            fields_view(copy@) == fields_view(fields@).take(i as int),
        decreases fields.len() - i,
    {
        let ghost done = copy@;
        let field = Field { key: fields[i].key.clone(), value: clone_value(&fields[i].value) };
        proof {
            assert(field@ == fields@[i as int]@);
        }
        copy.push(field);
        proof {
            assert forall|j: int| 0 <= j < i implies (#[trigger] fields_view(copy@)[j]) == fields_view(
                fields@,
            )[j] by {
                assert(fields_view(done)[j] == fields_view(fields@).take(i as int)[j]);
            }
            assert(fields_view(copy@)[i as int] == fields_view(fields@)[i as int]);
            assert(fields_view(copy@) =~= fields_view(fields@).take(i + 1));
        }
        i = i + 1;
    }
    proof {
        assert(fields_view(fields@).take(fields.len() as int) == fields_view(fields@));
    }
    copy
}

/// Writes `key` into the list: replaces the value where the name is there,
/// appends the field where it is not.
pub fn upsert_field(fields: &mut Vec<Field>, key: String, value: FieldValue)
    ensures
        fields_view(final(fields)@) == upsert(fields_view(old(fields)@), key@, value@),
{
    let ghost before = fields_view(fields@);
    let mut found = false;
    let mut i: usize = 0;
    while i < fields.len()
        invariant
            i <= fields.len(),
            fields.len() == before.len(),
            found == has_key(before.take(i as int), key@),
            forall|j: int|
                0 <= j < i ==> (#[trigger] fields_view(fields@)[j]) == overwritten(
                    before[j],
                    key@,
                    value@,
                ),
            forall|j: int| i <= j < fields.len() ==> (#[trigger] fields_view(fields@)[j]) == before[j],
        decreases fields.len() - i,
    {
        let ghost prefix = before.take(i as int);
        let ghost longer = before.take(i + 1);
        let ghost current = fields_view(fields@);
        proof {
            assert(current[i as int] == before[i as int]);
            assert(current[i as int].key == fields@[i as int].key@);
        }
        if fields[i].key == key {
            let copy = clone_value(&value);
            fields[i].value = copy;
            found = true;
            proof {
                assert(longer[i as int].key == key@);
                assert forall|j: int| 0 <= j < fields.len() && j != i implies (#[trigger] fields_view(
                    fields@,
                )[j]) == current[j] by {}
                assert(fields_view(fields@)[i as int] == overwritten(before[i as int], key@, value@));
            }
        } else {
            proof {
                assert(longer[i as int].key != key@);
                assert(fields_view(fields@)[i as int] == overwritten(before[i as int], key@, value@));
                if has_key(longer, key@) {
                    let w = choose|w: int| 0 <= w < longer.len() && (#[trigger] longer[w]).key == key@;
                    assert(w < i);
                    assert(prefix[w].key == key@);
                }
                if has_key(prefix, key@) {
                    let w = choose|w: int| 0 <= w < prefix.len() && (#[trigger] prefix[w]).key == key@;
                    assert(longer[w].key == key@);
                }
            }
        }
        i = i + 1;
    }
    proof {
        assert(before.take(fields.len() as int) == before);
    }
    let ghost scanned = fields@;
    if !found {
        fields.push(Field { key, value });
        proof {
            assert forall|j: int| 0 <= j < before.len() implies (#[trigger] fields_view(
                fields@,
            )[j]) == before[j] by {
                assert(fields_view(scanned)[j] == overwritten(before[j], key@, value@));
                assert(before[j].key != key@);
            }
            assert(fields_view(fields@) =~= upsert(before, key@, value@));
        }
    } else {
        proof {
            assert(fields_view(fields@) =~= upsert(before, key@, value@));
        }
    }
}

/// Writes each field of `more` into the list in turn.
pub fn upsert_fields(fields: &mut Vec<Field>, more: Vec<Field>)
    ensures
        fields_view(final(fields)@) == upsert_all(fields_view(old(fields)@), fields_view(more@)),
{
    let ghost before = fields_view(fields@);
    let ghost all = fields_view(more@);
    let mut i: usize = 0;
    while i < more.len()
        invariant
            i <= more.len(),
            all == fields_view(more@),
            fields_view(fields@) == upsert_all(before, all.take(i as int)),
        decreases more.len() - i,
    {
        let key = more[i].key.clone();
        let value = clone_value(&more[i].value);
        proof {
            assert(all.take(i + 1).drop_last() == all.take(i as int));
        }
        upsert_field(fields, key, value);
        i = i + 1;
    }
    proof {
        assert(all.take(more.len() as int) == all);
    }
}

} // verus!
