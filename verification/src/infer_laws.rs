//! What holds of every inferred schema: how widening behaves, that no
//! two fields share a name, that fields come in first-seen order, when a
//! field is nullable, and that the schema is well formed.

use vstd::prelude::*;
use crate::codec::member_keys;
use crate::error::SchemaError;
use crate::infer::{
    element_type, inferred, join_fields, join_left, join_one, join_right, late, object_fields,
    observe, rank, sample_fields, type_of, widen,
};
use crate::json::{JsonSpec, MemberSpec};
use crate::merge::{absent_from, lemma_added_fields, lemma_merge_precedence, merged_fields};
use crate::model::{
    field_named, field_names, fields_wf, lemma_position_by_names, lemma_position_of, position_of,
    schema_wf, type_wf, FieldSpec, TypeSpec,
};

verus! {

/// Widening climbs the order: the widened type stands where the higher
/// of the two stands.
pub proof fn lemma_widen_rank(a: TypeSpec, b: TypeSpec)
    ensures
        rank(widen(a, b)) == if rank(a) >= rank(b) {
            rank(a)
        } else {
            rank(b)
        },
        rank(a) != rank(b) || rank(a) < 5 ==> widen(a, b) == if rank(a) >= rank(b) {
            a
        } else {
            b
        },
{
}

/// `Null` widens to anything: it is the bottom of the order.
pub proof fn lemma_widen_null(t: TypeSpec)
    ensures
        widen(TypeSpec::Null, t) == t,
        widen(t, TypeSpec::Null) == t,
{
}

/// `Utf8` takes in every scalar: it is the top of the scalar order.
pub proof fn lemma_widen_utf8(t: TypeSpec)
    requires
        rank(t) <= 4,
    ensures
        widen(TypeSpec::Utf8, t) == TypeSpec::Utf8,
        widen(t, TypeSpec::Utf8) == TypeSpec::Utf8,
{
}

/// Widening a well-formed type with itself changes nothing.
pub proof fn lemma_widen_same(t: TypeSpec)
    requires
        type_wf(t),
    ensures
        widen(t, t) == t,
    decreases t, 0nat,
{
    match t {
        TypeSpec::Struct(fields) => {
            lemma_join_same(fields);
        },
        TypeSpec::List(inner) => {
            lemma_widen_same(*inner);
        },
        _ => {},
    }
}

/// Joining a well-formed field list with itself changes nothing.
pub proof fn lemma_join_same(fields: Seq<FieldSpec>)
    requires
        fields_wf(fields),
    ensures
        join_fields(fields, fields) == fields,
    decreases fields, 1nat,
{
    let keep = absent_from(fields);
    assert forall|i: int| 0 <= i < fields.len() implies join_one(#[trigger] fields[i], fields)
        == fields[i] by {
        lemma_position_of(fields, fields[i].name);
        let p = position_of(fields, fields[i].name).unwrap();
        if p != i {
            assert(field_names(fields)[p] == field_names(fields)[i]);
        }
        lemma_widen_same(fields[i].data_type);
    }
    assert(join_left(fields, fields) =~= fields);
    assert(fields.filter(keep).len() == 0) by {
        lemma_added_fields(fields, fields);
        let added = field_names(fields.filter(keep));
        if added.len() > 0 {
            assert(added.contains(added[0]));
            assert(added.to_set().contains(added[0]));
        }
    }
    assert(join_right(fields, fields) =~= Seq::<FieldSpec>::empty());
    assert(join_fields(fields, fields) =~= fields);
}

/// Joining with an empty list changes nothing: a list without fields
/// stands for no sample with keys.
pub proof fn lemma_join_empty(fields: Seq<FieldSpec>)
    ensures
        join_fields(Seq::empty(), fields) == fields,
        join_fields(fields, Seq::empty()) == fields,
    decreases fields.len(),
{
    let none = Seq::<FieldSpec>::empty();
    let keep = absent_from(none);
    reveal(Seq::filter);
    assert(fields.filter(keep) =~= fields) by {
        lemma_keep_all(fields);
    }
    assert(join_right(none, fields) =~= fields);
    assert(join_left(none, fields) =~= none);
    assert(join_fields(none, fields) =~= fields);
    assert forall|i: int| 0 <= i < fields.len() implies join_one(#[trigger] fields[i], none)
        == fields[i] by {
        lemma_position_of(none, fields[i].name);
    }
    assert(join_left(fields, none) =~= fields);
    assert(join_right(fields, none) =~= none);
    assert(join_fields(fields, none) =~= fields);
}

/// Every field is absent from the empty list.
proof fn lemma_keep_all(fields: Seq<FieldSpec>)
    ensures
        fields.filter(absent_from(Seq::empty())) == fields,
    decreases fields.len(),
{
    let keep = absent_from(Seq::<FieldSpec>::empty());
    reveal(Seq::filter);
    if fields.len() > 0 {
        lemma_keep_all(fields.drop_last());
        assert(keep(fields.last()));
        assert(fields.drop_last().push(fields.last()) =~= fields);
    }
}

/// The fields inferred from a single object are the fields of the object.
pub proof fn lemma_single_sample(members: Seq<MemberSpec>)
    ensures
        sample_fields(seq![JsonSpec::Object(members)]) == Ok::<Seq<FieldSpec>, SchemaError>(
            object_fields(members),
        ),
{
    let samples = seq![JsonSpec::Object(members)];
    reveal_with_fuel(sample_fields, 2);
    assert(samples.drop_last() =~= Seq::<JsonSpec>::empty());
    assert(samples.last() == JsonSpec::Object(members));
    lemma_join_empty(object_fields(members));
}

/// Every key in a value, at any depth, is a non-empty string.
pub open spec fn keys_named(v: JsonSpec) -> bool
    decreases v,
{
    match v {
        JsonSpec::Array(items) => forall|i: int|
            0 <= i < items.len() ==> keys_named(#[trigger] items[i]),
        JsonSpec::Object(members) => forall|i: int|
            0 <= i < members.len() ==> (#[trigger] members[i]).key.len() > 0 && keys_named(
                members[i].value,
            ),
        _ => true,
    }
}

/// A join has the names of its first list, then those names of the
/// second that the first lacks. Pairwise different names stay so.
pub proof fn lemma_join_names(a: Seq<FieldSpec>, b: Seq<FieldSpec>)
    ensures
        field_names(join_fields(a, b)) == field_names(a) + field_names(
            b.filter(absent_from(a)),
        ),
        field_names(a).no_duplicates() && field_names(b).no_duplicates() ==> field_names(
            join_fields(a, b),
        ).no_duplicates(),
{
    let keep = absent_from(a);
    let extra = b.filter(keep);
    let all = join_fields(a, b);
    assert(field_names(all) =~= field_names(a) + field_names(extra));
    if field_names(a).no_duplicates() && field_names(b).no_duplicates() {
        lemma_added_fields(a, b);
        assert forall|i: int, j: int|
            0 <= i < all.len() && 0 <= j < all.len() && i != j implies field_names(all)[i]
            != field_names(all)[j] by {
            let n = a.len();
            if i < n && j < n {
                assert(field_names(a)[i] != field_names(a)[j]);
            } else if i >= n && j >= n {
                assert(field_names(extra)[i - n] != field_names(extra)[j - n]);
            } else if i < n {
                b.lemma_filter_pred(keep, j - n);
                assert(keep(extra[j - n]));
                assert(field_names(a)[i] == all[i].name);
            } else {
                b.lemma_filter_pred(keep, i - n);
                assert(keep(extra[i - n]));
                assert(field_names(a)[j] == all[j].name);
            }
        }
    }
}

/// Seeing one more member keeps the names and adds the member's key at
/// the end if it is new. Pairwise different names stay so.
pub proof fn lemma_observe_names(acc: Seq<FieldSpec>, m: MemberSpec)
    ensures
        field_names(observe(acc, m)) == if field_names(acc).contains(m.key) {
            field_names(acc)
        } else {
            field_names(acc).push(m.key)
        },
        field_names(acc).no_duplicates() ==> field_names(observe(acc, m)).no_duplicates(),
{
    lemma_position_of(acc, m.key);
    let next = observe(acc, m);
    match position_of(acc, m.key) {
        Some(i) => {
            assert(field_names(next) =~= field_names(acc));
        },
        None => {
            assert(field_names(next) =~= field_names(acc).push(m.key));
            if field_names(acc).no_duplicates() {
                assert forall|i: int, j: int|
                    0 <= i < next.len() && 0 <= j < next.len() && i != j implies field_names(
                    next,
                )[i] != field_names(next)[j] by {
                    if i < acc.len() && j < acc.len() {
                        assert(field_names(acc)[i] != field_names(acc)[j]);
                    } else if i < acc.len() {
                        assert(field_names(acc)[i] == acc[i].name);
                    } else {
                        assert(field_names(acc)[j] == acc[j].name);
                    }
                }
            }
        },
    }
}

/// The fields of an object have pairwise different names.
pub proof fn lemma_object_names_differ(members: Seq<MemberSpec>)
    ensures
        field_names(object_fields(members)).no_duplicates(),
    decreases members.len(),
{
    if members.len() > 0 {
        lemma_object_names_differ(members.drop_last());
        lemma_observe_names(object_fields(members.drop_last()), members.last());
    }
}

/// Whatever the samples, no two inferred fields share a name.
pub proof fn lemma_inferred_names_differ(samples: Seq<JsonSpec>)
    ensures
        sample_fields(samples) matches Ok(fields) ==> field_names(fields).no_duplicates(),
    decreases samples.len(),
{
    if samples.len() > 0 {
        lemma_inferred_names_differ(samples.drop_last());
        match (sample_fields(samples.drop_last()), samples.last()) {
            (Ok(fields), JsonSpec::Object(members)) => {
                lemma_object_names_differ(members);
                lemma_join_names(fields, object_fields(members));
            },
            _ => {},
        }
    }
}

/// A sequence of names without its repeats: each name stays where it
/// first stood.
pub open spec fn distinct(names: Seq<Seq<char>>) -> Seq<Seq<char>>
    decreases names.len(),
{
    if names.len() == 0 {
        names
    } else {
        let front = distinct(names.drop_last());
        if front.contains(names.last()) {
            front
        } else {
            front.push(names.last())
        }
    }
}

/// The keys of the sample objects, sample after sample, each sample's
/// keys in document order.
pub open spec fn sample_keys(samples: Seq<JsonSpec>) -> Seq<Seq<char>>
    decreases samples.len(),
{
    if samples.len() == 0 {
        Seq::empty()
    } else {
        sample_keys(samples.drop_last()) + match samples.last() {
            JsonSpec::Object(members) => member_keys(members),
            _ => Seq::empty(),
        }
    }
}

/// Dropping repeats keeps exactly the names that occur, each once.
pub proof fn lemma_distinct(names: Seq<Seq<char>>)
    ensures
        distinct(names).no_duplicates(),
        forall|n: Seq<char>| #[trigger] distinct(names).contains(n) ==> names.contains(n),
        forall|n: Seq<char>| #[trigger] names.contains(n) ==> distinct(names).contains(n),
    decreases names.len(),
{
    if names.len() > 0 {
        let front = names.drop_last();
        lemma_distinct(front);
        let d = distinct(front);
        let all = distinct(names);
        assert forall|n: Seq<char>| all.contains(n) <==> names.contains(n) by {
            if all.contains(n) {
                let k = choose|k: int| 0 <= k < all.len() && all[k] == n;
                if k < d.len() {
                    assert(d.contains(n));
                    let j = choose|j: int| 0 <= j < front.len() && front[j] == n;
                    assert(names[j] == n);
                } else {
                    assert(names[names.len() - 1] == n);
                }
            }
            if names.contains(n) {
                let j = choose|j: int| 0 <= j < names.len() && names[j] == n;
                if j < front.len() {
                    assert(front[j] == n);
                    assert(front.contains(n));
                    assert(d.contains(n));
                    let k = choose|k: int| 0 <= k < d.len() && d[k] == n;
                    assert(all[k] == n);
                } else {
                    if !d.contains(n) {
                        assert(all[all.len() - 1] == n);
                    } else {
                        let k = choose|k: int| 0 <= k < d.len() && d[k] == n;
                        assert(all[k] == n);
                    }
                }
            }
        }
    }
}

/// The names of a join are the names behind its first list, followed by
/// the names of its second list, without their repeats.
proof fn lemma_join_distinct(a: Seq<FieldSpec>, b: Seq<FieldSpec>, x: Seq<Seq<char>>)
    requires
        field_names(a) == distinct(x),
        field_names(b).no_duplicates(),
    ensures
        field_names(a) + field_names(b.filter(absent_from(a))) == distinct(x + field_names(b)),
    decreases b.len(),
{
    let keep = absent_from(a);
    reveal(Seq::filter);
    lemma_distinct(x);
    if b.len() == 0 {
        assert(x + field_names(b) =~= x);
        assert(field_names(a) + field_names(b.filter(keep)) =~= field_names(a));
    } else {
        let short = b.drop_last();
        let n = b.last().name;
        assert(field_names(b).drop_last() =~= field_names(short));
        assert forall|i: int, j: int|
            0 <= i < short.len() && 0 <= j < short.len() && i != j implies field_names(short)[i]
            != field_names(short)[j] by {
            assert(field_names(b)[i] != field_names(b)[j]);
        }
        lemma_join_distinct(a, short, x);
        let whole = x + field_names(b);
        let front = x + field_names(short);
        assert(whole.drop_last() =~= front);
        assert(whole.last() == n);
        lemma_distinct(front);
        lemma_concat_contains(x, field_names(short), n);
        if field_names(short).contains(n) {
            let j = choose|j: int| 0 <= j < short.len() && field_names(short)[j] == n;
            assert(field_names(b)[j] == field_names(b)[b.len() - 1]);
        }
        assert(distinct(front).contains(n) <==> x.contains(n));
        assert(keep(b.last()) <==> !x.contains(n));
        assert(b =~= short.push(b.last()));
        short.lemma_filter_push(b.last(), keep);
        if keep(b.last()) {
            assert(field_names(short.filter(keep).push(b.last())) =~= field_names(
                short.filter(keep),
            ).push(n));
            assert(field_names(a) + field_names(short.filter(keep)).push(n) =~= (field_names(a)
                + field_names(short.filter(keep))).push(n));
        }
    }
}

/// The names of an object's fields are its keys without their repeats.
pub proof fn lemma_object_field_names(members: Seq<MemberSpec>)
    ensures
        field_names(object_fields(members)) == distinct(member_keys(members)),
    decreases members.len(),
{
    if members.len() > 0 {
        let front = members.drop_last();
        lemma_object_field_names(front);
        lemma_observe_names(object_fields(front), members.last());
        assert(member_keys(members).drop_last() =~= member_keys(front));
    } else {
        assert(field_names(object_fields(members)) =~= member_keys(members));
    }
}

/// Fields come in first-seen order: the names of the inferred fields are
/// the keys of the samples, sample after sample, without their repeats.
pub proof fn lemma_inferred_field_names(samples: Seq<JsonSpec>)
    ensures
        sample_fields(samples) matches Ok(fields) ==> field_names(fields) == distinct(
            sample_keys(samples),
        ),
    decreases samples.len(),
{
    if samples.len() > 0 {
        let front = samples.drop_last();
        lemma_inferred_field_names(front);
        match (sample_fields(front), samples.last()) {
            (Ok(fields), JsonSpec::Object(members)) => {
                let b = object_fields(members);
                lemma_object_field_names(members);
                lemma_join_names(fields, b);
                lemma_distinct(member_keys(members));
                lemma_join_distinct(fields, b, sample_keys(front));
                lemma_distinct_twice(sample_keys(front), member_keys(members));
            },
            _ => {},
        }
    } else {
        assert(field_names(Seq::<FieldSpec>::empty()) =~= Seq::<Seq<char>>::empty());
    }
}

/// Repeats may be dropped from the end of a sequence before they are
/// dropped from the whole.
proof fn lemma_distinct_twice(x: Seq<Seq<char>>, y: Seq<Seq<char>>)
    ensures
        distinct(x + distinct(y)) == distinct(x + y),
    decreases y.len(),
{
    if y.len() == 0 {
        assert(x + distinct(y) =~= x + y);
    } else {
        let front = y.drop_last();
        let last = y.last();
        lemma_distinct_twice(x, front);
        lemma_distinct(front);
        lemma_distinct(x + front);
        assert((x + y).drop_last() =~= x + front);
        assert((x + y).last() == last);
        if distinct(front).contains(last) {
            lemma_concat_contains(x, front, last);
            assert(distinct(x + front).contains(last));
        } else {
            assert(distinct(y) == distinct(front).push(last));
            assert((x + distinct(y)).drop_last() =~= x + distinct(front));
            assert((x + distinct(y)).last() == last);
        }
    }
}

/// A name occurs in a concatenation where it occurs in either part.
proof fn lemma_concat_contains(x: Seq<Seq<char>>, y: Seq<Seq<char>>, n: Seq<char>)
    ensures
        (x + y).contains(n) <==> x.contains(n) || y.contains(n),
{
    if (x + y).contains(n) {
        let k = choose|k: int| 0 <= k < (x + y).len() && (x + y)[k] == n;
        if k < x.len() {
            assert(x[k] == n);
        } else {
            assert(y[k - x.len()] == n);
        }
    }
    if x.contains(n) {
        let k = choose|k: int| 0 <= k < x.len() && x[k] == n;
        assert((x + y)[k] == n);
    }
    if y.contains(n) {
        let k = choose|k: int| 0 <= k < y.len() && y[k] == n;
        assert((x + y)[x.len() + k] == n);
    }
}

/// The member at `j` has the key and holds a null.
pub open spec fn null_at(members: Seq<MemberSpec>, j: int, key: Seq<char>) -> bool {
    0 <= j < members.len() && members[j].key == key && members[j].value is Null
}

/// The sample is an object with a member under the key.
pub open spec fn has_key(sample: JsonSpec, key: Seq<char>) -> bool {
    sample matches JsonSpec::Object(members) && member_keys(members).contains(key)
}

/// The sample is an object with at least one member.
pub open spec fn filled(sample: JsonSpec) -> bool {
    sample matches JsonSpec::Object(members) && members.len() > 0
}

/// The sample is an object with a null under the key.
pub open spec fn holds_null(sample: JsonSpec, key: Seq<char>) -> bool {
    sample matches JsonSpec::Object(members) && exists|j: int| null_at(members, j, key)
}

/// The sample makes the key's field nullable: it has other keys but not
/// this one, or it has a null under it.
pub open spec fn marks_nullable(sample: JsonSpec, key: Seq<char>) -> bool {
    (filled(sample) && !has_key(sample, key)) || holds_null(sample, key)
}

/// Dropping repeats leaves nothing only of nothing.
proof fn lemma_distinct_empty(names: Seq<Seq<char>>)
    ensures
        distinct(names).len() == 0 <==> names.len() == 0,
{
    lemma_distinct(names);
    if names.len() > 0 {
        assert(names.contains(names[0]));
        assert(distinct(names).contains(names[0]));
    }
    if distinct(names).len() > 0 {
        assert(distinct(names).contains(distinct(names)[0]));
        assert(names.contains(distinct(names)[0]));
    }
}

/// A key is among the keys of the samples where some sample has it, and
/// the samples have keys where some sample has members.
proof fn lemma_sample_keys(samples: Seq<JsonSpec>, key: Seq<char>)
    ensures
        sample_keys(samples).contains(key) <==> exists|i: int|
            0 <= i < samples.len() && has_key(#[trigger] samples[i], key),
        sample_keys(samples).len() > 0 <==> exists|i: int|
            0 <= i < samples.len() && filled(#[trigger] samples[i]),
    decreases samples.len(),
{
    if samples.len() > 0 {
        let front = samples.drop_last();
        let last = samples.last();
        lemma_sample_keys(front, key);
        assert(forall|i: int| 0 <= i < front.len() ==> front[i] == samples[i]);
        let tail = match last {
            JsonSpec::Object(members) => member_keys(members),
            _ => Seq::empty(),
        };
        lemma_concat_contains(sample_keys(front), tail, key);
        assert(tail.contains(key) <==> has_key(last, key));
        assert(tail.len() > 0 <==> filled(last));
        if sample_keys(samples).contains(key) {
            if tail.contains(key) {
                assert(has_key(samples[samples.len() - 1], key));
            } else {
                let i = choose|i: int| 0 <= i < front.len() && has_key(#[trigger] front[i], key);
                assert(has_key(samples[i], key));
            }
        }
        if exists|i: int| 0 <= i < samples.len() && has_key(#[trigger] samples[i], key) {
            let i = choose|i: int| 0 <= i < samples.len() && has_key(#[trigger] samples[i], key);
            if i < front.len() {
                assert(has_key(front[i], key));
            }
        }
        if sample_keys(samples).len() > 0 {
            if tail.len() > 0 {
                assert(filled(samples[samples.len() - 1]));
            } else {
                let i = choose|i: int| 0 <= i < front.len() && filled(#[trigger] front[i]);
                assert(filled(samples[i]));
            }
        }
        if exists|i: int| 0 <= i < samples.len() && filled(#[trigger] samples[i]) {
            let i = choose|i: int| 0 <= i < samples.len() && filled(#[trigger] samples[i]);
            if i < front.len() {
                assert(filled(front[i]));
            }
        }
    }
}

/// An object's field under a key is nullable exactly if the object holds
/// a null under the key; it has no such field exactly if it has no such
/// key.
pub proof fn lemma_object_nullable(members: Seq<MemberSpec>, key: Seq<char>)
    ensures
        match field_named(object_fields(members), key) {
            Some(f) => f.name == key && member_keys(members).contains(key) && (f.nullable
                <==> exists|j: int| null_at(members, j, key)),
            None => !member_keys(members).contains(key),
        },
    decreases members.len(),
{
    if members.len() > 0 {
        let front = members.drop_last();
        let m = members.last();
        let acc = object_fields(front);
        let next = observe(acc, m);
        lemma_object_nullable(front, key);
        lemma_observe_names(acc, m);
        lemma_position_of(acc, m.key);
        lemma_position_of(acc, key);
        lemma_position_of(next, key);
        assert(forall|j: int| 0 <= j < front.len() ==> front[j] == members[j]);
        assert(member_keys(members).drop_last() =~= member_keys(front));
        assert(member_keys(members)[members.len() - 1] == m.key);
        lemma_concat_contains(member_keys(front), seq![m.key], key);
        assert(member_keys(members) =~= member_keys(front) + seq![m.key]);
        assert(seq![m.key].contains(key) <==> m.key == key) by {
            if m.key == key {
                assert(seq![m.key][0] == key);
            }
        }
        assert((exists|j: int| null_at(members, j, key)) <==> ((exists|j: int|
            null_at(front, j, key)) || (m.key == key && m.value is Null))) by {
            if exists|j: int| null_at(members, j, key) {
                let j = choose|j: int| null_at(members, j, key);
                if j < front.len() {
                    assert(null_at(front, j, key));
                }
            }
            if exists|j: int| null_at(front, j, key) {
                let j = choose|j: int| null_at(front, j, key);
                assert(null_at(members, j, key));
            }
            if m.key == key && m.value is Null {
                assert(null_at(members, members.len() - 1, key));
            }
        }
        match position_of(acc, m.key) {
            Some(p) => {
                assert(field_names(next) == field_names(acc));
                lemma_position_by_names(next, acc, key);
                if m.key != key {
                    match position_of(acc, key) {
                        Some(q) => {
                            assert(next[q] == acc[q]);
                        },
                        None => {},
                    }
                }
            },
            None => {
                assert(next.drop_last() =~= acc);
                assert(next.last().name == m.key);
                match position_of(acc, key) {
                    Some(q) => {
                        assert(next[q] == acc[q]);
                    },
                    None => {
                        if m.key == key {
                            assert(!(exists|j: int| null_at(front, j, key))) by {
                                if exists|j: int| null_at(front, j, key) {
                                    let j = choose|j: int| null_at(front, j, key);
                                    assert(member_keys(front)[j] == key);
                                }
                            }
                        }
                    },
                }
            },
        }
    } else {
        assert(!(exists|j: int| null_at(members, j, key)));
    }
}

/// What a join holds under a name: the first list's field joined with the
/// second list, or else the second list's field, marked as a late one.
pub proof fn lemma_join_field(a: Seq<FieldSpec>, b: Seq<FieldSpec>, name: Seq<char>)
    ensures
        field_named(join_fields(a, b), name) == match field_named(a, name) {
            Some(f) => Some(join_one(f, b)),
            None => match field_named(b, name) {
                Some(g) => Some(late(g, a)),
                None => None,
            },
        },
{
    let keep = absent_from(a);
    let extra = b.filter(keep);
    let joined = join_fields(a, b);
    let plain = merged_fields(a, b);
    lemma_join_names(a, b);
    assert(field_names(plain) =~= field_names(a) + field_names(extra));
    lemma_position_by_names(joined, plain, name);
    lemma_merge_precedence(a, b, name);
    lemma_position_of(plain, name);
    lemma_position_of(a, name);
    lemma_position_of(b, name);
    match position_of(plain, name) {
        Some(p) => {
            if field_names(a).contains(name) {
                let q = position_of(a, name).unwrap();
                assert(plain[q] == a[q]);
                if p < q {
                    assert(plain[p] == a[p]);
                }
                assert(p == q);
                assert(joined[p] == join_one(a[p], b));
            } else {
                if p < a.len() {
                    assert(plain[p] == a[p]);
                    assert(field_names(a)[p] == name);
                }
                assert(joined[p] == late(extra[p - a.len()], a));
                assert(plain[p] == extra[p - a.len()]);
            }
        },
        None => {},
    }
}

/// A field is nullable exactly if some sample has other keys but not its
/// key, or has a null under its key. There is no field for a key that no
/// sample has.
pub proof fn lemma_inferred_nullable(samples: Seq<JsonSpec>, key: Seq<char>)
    ensures
        sample_fields(samples) matches Ok(fields) ==> match field_named(fields, key) {
            Some(f) => f.name == key && sample_keys(samples).contains(key) && (f.nullable
                <==> exists|i: int|
                0 <= i < samples.len() && marks_nullable(#[trigger] samples[i], key)),
            None => !sample_keys(samples).contains(key),
        },
    decreases samples.len(),
{
    if samples.len() == 0 {
        lemma_position_of(Seq::<FieldSpec>::empty(), key);
    } else {
        let front = samples.drop_last();
        let last = samples.last();
        lemma_inferred_nullable(front, key);
        assert(forall|i: int| 0 <= i < front.len() ==> front[i] == samples[i]);
        match (sample_fields(front), last) {
            (Ok(a), JsonSpec::Object(members)) => {
                let b = object_fields(members);
                lemma_join_field(a, b, key);
                lemma_object_nullable(members, key);
                lemma_inferred_field_names(front);
                lemma_distinct_empty(sample_keys(front));
                lemma_object_field_names(members);
                lemma_distinct_empty(member_keys(members));
                lemma_sample_keys(front, key);
                lemma_sample_keys(samples, key);
                lemma_concat_contains(sample_keys(front), member_keys(members), key);
                assert(a.len() == field_names(a).len());
                assert(b.len() == field_names(b).len());
                assert(has_key(last, key) <==> member_keys(members).contains(key));
                assert(holds_null(last, key) ==> has_key(last, key)) by {
                    if holds_null(last, key) {
                        let j = choose|j: int| null_at(members, j, key);
                        assert(member_keys(members)[j] == key);
                    }
                }
                let before = exists|i: int|
                    0 <= i < front.len() && marks_nullable(#[trigger] front[i], key);
                let now = exists|i: int|
                    0 <= i < samples.len() && marks_nullable(#[trigger] samples[i], key);
                assert(now <==> before || marks_nullable(last, key)) by {
                    if now {
                        let i = choose|i: int|
                            0 <= i < samples.len() && marks_nullable(#[trigger] samples[i], key);
                        if i < front.len() {
                            assert(marks_nullable(front[i], key));
                        }
                    }
                    if before {
                        let i = choose|i: int|
                            0 <= i < front.len() && marks_nullable(#[trigger] front[i], key);
                        assert(marks_nullable(samples[i], key));
                    }
                    if marks_nullable(last, key) {
                        assert(marks_nullable(samples[samples.len() - 1], key));
                    }
                }
                if field_named(a, key) is None {
                    assert(before <==> a.len() > 0) by {
                        if before {
                            let i = choose|i: int|
                                0 <= i < front.len() && marks_nullable(#[trigger] front[i], key);
                            if holds_null(front[i], key) {
                                let ms = front[i]->Object_0;
                                let j = choose|j: int| null_at(ms, j, key);
                                assert(member_keys(ms)[j] == key);
                                assert(has_key(front[i], key));
                            }
                            assert(filled(front[i]));
                        }
                        if a.len() > 0 {
                            let i = choose|i: int|
                                0 <= i < front.len() && filled(#[trigger] front[i]);
                            assert(!has_key(front[i], key));
                            assert(marks_nullable(front[i], key));
                        }
                    }
                }
            },
            _ => {},
        }
    }
}

/// The place in the widening order of the value that a sample holds at
/// member `j`, if that member is there and has the key.
pub open spec fn seen_rank(sample: JsonSpec, j: int, key: Seq<char>) -> Option<int> {
    match sample {
        JsonSpec::Object(members) => if 0 <= j < members.len() && members[j].key == key {
            Some(rank(type_of(members[j].value)))
        } else {
            None
        },
        _ => None,
    }
}

/// A place in the order is no higher than `top`, where it is a place.
pub open spec fn at_most(seen: Option<int>, top: int) -> bool {
    match seen {
        Some(r) => r <= top,
        None => true,
    }
}

/// A scalar type is known by its place in the order.
pub proof fn lemma_scalar_by_rank(a: TypeSpec, b: TypeSpec)
    requires
        rank(a) == rank(b),
        rank(a) <= 4,
    ensures
        a == b,
{
}

/// The type of an object's field stands as high in the order as the
/// highest of the object's values under the field's key, and no higher.
pub proof fn lemma_object_rank(members: Seq<MemberSpec>, key: Seq<char>)
    ensures
        field_named(object_fields(members), key) matches Some(f) ==> (forall|j: int|
            at_most(#[trigger] seen_rank(JsonSpec::Object(members), j, key), rank(f.data_type)))
            && (exists|j: int|
            #[trigger] seen_rank(JsonSpec::Object(members), j, key) == Some(rank(f.data_type))),
    decreases members.len(),
{
    if members.len() > 0 {
        let front = members.drop_last();
        let m = members.last();
        let acc = object_fields(front);
        let next = observe(acc, m);
        let whole = JsonSpec::Object(members);
        let part = JsonSpec::Object(front);
        lemma_object_rank(front, key);
        lemma_object_nullable(front, key);
        lemma_observe_names(acc, m);
        lemma_position_of(acc, m.key);
        lemma_position_of(acc, key);
        lemma_position_of(next, key);
        assert(forall|j: int| 0 <= j < front.len() ==> front[j] == members[j]);
        assert forall|j: int| j != members.len() - 1 implies #[trigger] seen_rank(whole, j, key)
            == seen_rank(part, j, key) by {}
        let last = members.len() - 1;
        assert(seen_rank(whole, last, key) == if m.key == key {
            Some(rank(type_of(m.value)))
        } else {
            None
        });
        if field_named(acc, key) is None {
            assert forall|j: int| #[trigger] seen_rank(part, j, key) is None by {
                if seen_rank(part, j, key) is Some {
                    assert(member_keys(front)[j] == key);
                }
            }
        }
        match position_of(acc, m.key) {
            Some(p) => {
                assert(field_names(next) == field_names(acc));
                lemma_position_by_names(next, acc, key);
                if m.key == key {
                    lemma_widen_rank(acc[p].data_type, type_of(m.value));
                    let top = rank(next[p].data_type);
                    if top == rank(acc[p].data_type) {
                        let j = choose|j: int|
                            #[trigger] seen_rank(part, j, key) == Some(rank(acc[p].data_type));
                        assert(seen_rank(whole, j, key) == Some(top));
                    } else {
                        assert(seen_rank(whole, last, key) == Some(top));
                    }
                    assert forall|j: int| at_most(#[trigger] seen_rank(whole, j, key), top) by {
                        if j != last {
                            assert(at_most(seen_rank(part, j, key), rank(acc[p].data_type)));
                        }
                    }
                } else {
                    match position_of(acc, key) {
                        Some(q) => {
                            assert(next[q] == acc[q]);
                            let j = choose|j: int|
                                #[trigger] seen_rank(part, j, key) == Some(rank(acc[q].data_type));
                            assert(seen_rank(whole, j, key) == Some(rank(acc[q].data_type)));
                            assert forall|j: int|
                                at_most(
                                    #[trigger] seen_rank(whole, j, key),
                                    rank(acc[q].data_type),
                                ) by {
                                if j != last {
                                    assert(at_most(
                                        seen_rank(part, j, key),
                                        rank(acc[q].data_type),
                                    ));
                                }
                            }
                        },
                        None => {},
                    }
                }
            },
            None => {
                assert(next.drop_last() =~= acc);
                assert(next.last().name == m.key);
                match position_of(acc, key) {
                    Some(q) => {
                        assert(next[q] == acc[q]);
                        let j = choose|j: int|
                            #[trigger] seen_rank(part, j, key) == Some(rank(acc[q].data_type));
                        assert(seen_rank(whole, j, key) == Some(rank(acc[q].data_type)));
                        assert forall|j: int|
                            at_most(
                                #[trigger] seen_rank(whole, j, key),
                                rank(acc[q].data_type),
                            ) by {
                            if j != last {
                                assert(at_most(seen_rank(part, j, key), rank(acc[q].data_type)));
                            }
                        }
                    },
                    None => {
                        if m.key == key {
                            let top = rank(type_of(m.value));
                            assert(seen_rank(whole, last, key) == Some(top));
                            assert forall|j: int|
                                at_most(#[trigger] seen_rank(whole, j, key), top) by {
                                if j != last {
                                    assert(seen_rank(part, j, key) is None);
                                }
                            }
                        }
                    },
                }
            },
        }
    } else {
        lemma_position_of(object_fields(members), key);
    }
}

/// The type of an inferred field is the narrowest that takes in what
/// was seen: it stands as high in the widening order as the highest of
/// the values that the samples hold under the field's key, and no higher.
pub proof fn lemma_inferred_rank(samples: Seq<JsonSpec>, key: Seq<char>)
    ensures
        sample_fields(samples) matches Ok(fields) ==> (field_named(fields, key) matches Some(f)
            ==> (forall|i: int, j: int|
            0 <= i < samples.len() ==> at_most(
                #[trigger] seen_rank(samples[i], j, key),
                rank(f.data_type),
            )) && (exists|i: int, j: int|
            0 <= i < samples.len() && #[trigger] seen_rank(samples[i], j, key) == Some(
                rank(f.data_type),
            ))),
    decreases samples.len(),
{
    if samples.len() == 0 {
        lemma_position_of(Seq::<FieldSpec>::empty(), key);
    } else {
        let front = samples.drop_last();
        let last = samples.last();
        let n = samples.len() - 1;
        lemma_inferred_rank(front, key);
        lemma_inferred_nullable(front, key);
        lemma_sample_keys(front, key);
        assert(forall|i: int| 0 <= i < front.len() ==> front[i] == samples[i]);
        match (sample_fields(front), last) {
            (Ok(a), JsonSpec::Object(members)) => {
                let b = object_fields(members);
                lemma_join_field(a, b, key);
                lemma_object_rank(members, key);
                lemma_object_nullable(members, key);
                if field_named(a, key) is None {
                    assert forall|i: int, j: int| 0 <= i < front.len() implies #[trigger] seen_rank(
                        front[i],
                        j,
                        key,
                    ) is None by {
                        if seen_rank(front[i], j, key) is Some {
                            let ms = front[i]->Object_0;
                            assert(member_keys(ms)[j] == key);
                            assert(has_key(front[i], key));
                        }
                    }
                }
                if field_named(b, key) is None {
                    assert forall|j: int| #[trigger] seen_rank(last, j, key) is None by {
                        if seen_rank(last, j, key) is Some {
                            assert(member_keys(members)[j] == key);
                        }
                    }
                }
                match (field_named(a, key), field_named(b, key)) {
                    (Some(f), Some(g)) => {
                        lemma_widen_rank(f.data_type, g.data_type);
                        let top = rank(widen(f.data_type, g.data_type));
                        if top == rank(f.data_type) {
                            let (i, j) = choose|i: int, j: int|
                                0 <= i < front.len() && #[trigger] seen_rank(front[i], j, key)
                                    == Some(rank(f.data_type));
                            assert(seen_rank(samples[i], j, key) == Some(top));
                        } else {
                            let j = choose|j: int|
                                #[trigger] seen_rank(last, j, key) == Some(rank(g.data_type));
                            assert(seen_rank(samples[n], j, key) == Some(top));
                        }
                        assert forall|i: int, j: int| 0 <= i < samples.len() implies at_most(
                            #[trigger] seen_rank(samples[i], j, key),
                            top,
                        ) by {
                            if i < n {
                                assert(at_most(seen_rank(front[i], j, key), rank(f.data_type)));
                            } else {
                                assert(at_most(seen_rank(last, j, key), rank(g.data_type)));
                            }
                        }
                    },
                    (Some(f), None) => {
                        let top = rank(f.data_type);
                        let (i, j) = choose|i: int, j: int|
                            0 <= i < front.len() && #[trigger] seen_rank(front[i], j, key) == Some(
                                top,
                            );
                        assert(seen_rank(samples[i], j, key) == Some(top));
                        assert forall|i: int, j: int| 0 <= i < samples.len() implies at_most(
                            #[trigger] seen_rank(samples[i], j, key),
                            top,
                        ) by {
                            if i < n {
                                assert(at_most(seen_rank(front[i], j, key), top));
                            } else {
                                assert(seen_rank(last, j, key) is None);
                            }
                        }
                    },
                    (None, Some(g)) => {
                        let top = rank(g.data_type);
                        let j = choose|j: int| #[trigger] seen_rank(last, j, key) == Some(top);
                        assert(seen_rank(samples[n], j, key) == Some(top));
                        assert forall|i: int, j: int| 0 <= i < samples.len() implies at_most(
                            #[trigger] seen_rank(samples[i], j, key),
                            top,
                        ) by {
                            if i < n {
                                assert(seen_rank(front[i], j, key) is None);
                            } else {
                                assert(at_most(seen_rank(last, j, key), top));
                            }
                        }
                    },
                    (None, None) => {},
                }
            },
            _ => {},
        }
    }
}

/// Widening two well-formed types gives a well-formed type.
pub proof fn lemma_widen_wf(a: TypeSpec, b: TypeSpec)
    requires
        type_wf(a),
        type_wf(b),
    ensures
        type_wf(widen(a, b)),
    decreases a, 0nat,
{
    match (a, b) {
        (TypeSpec::Struct(x), TypeSpec::Struct(y)) => {
            lemma_join_wf(x, y);
        },
        (TypeSpec::List(x), TypeSpec::List(y)) => {
            lemma_widen_wf(*x, *y);
        },
        _ => {},
    }
}

/// Joining two well-formed field lists gives a well-formed field list.
pub proof fn lemma_join_wf(a: Seq<FieldSpec>, b: Seq<FieldSpec>)
    requires
        fields_wf(a),
        fields_wf(b),
    ensures
        fields_wf(join_fields(a, b)),
    decreases a, 1nat,
{
    let keep = absent_from(a);
    let extra = b.filter(keep);
    let all = join_fields(a, b);
    lemma_join_names(a, b);
    lemma_added_fields(a, b);
    assert forall|i: int| 0 <= i < all.len() implies (#[trigger] all[i]).name.len() > 0 && type_wf(
        all[i].data_type,
    ) by {
        if i < a.len() {
            assert(all[i] == join_one(a[i], b));
            lemma_position_of(b, a[i].name);
            match position_of(b, a[i].name) {
                Some(p) => {
                    lemma_widen_wf(a[i].data_type, b[p].data_type);
                },
                None => {},
            }
        } else {
            let k = i - a.len();
            assert(all[i] == late(extra[k], a));
            assert(b.contains(extra[k]));
            let p = choose|p: int| 0 <= p < b.len() && b[p] == extra[k];
            assert(type_wf(b[p].data_type));
        }
    }
}

/// The type of a value whose keys are non-empty is well formed.
pub proof fn lemma_type_of_wf(v: JsonSpec)
    requires
        keys_named(v),
    ensures
        type_wf(type_of(v)),
    decreases v,
{
    match v {
        JsonSpec::Array(items) => {
            lemma_element_type_wf(items);
        },
        JsonSpec::Object(members) => {
            lemma_object_fields_wf(members);
        },
        _ => {},
    }
}

/// The element type of values whose keys are non-empty is well formed.
pub proof fn lemma_element_type_wf(items: Seq<JsonSpec>)
    requires
        forall|i: int| 0 <= i < items.len() ==> keys_named(#[trigger] items[i]),
    ensures
        type_wf(element_type(items)),
    decreases items,
{
    if items.len() > 0 {
        let front = items.drop_last();
        assert(forall|i: int| 0 <= i < front.len() ==> front[i] == items[i]);
        lemma_element_type_wf(front);
        lemma_type_of_wf(items.last());
        lemma_widen_wf(element_type(front), type_of(items.last()));
    }
}

/// The fields of an object whose keys are non-empty, at any depth, are
/// well formed.
pub proof fn lemma_object_fields_wf(members: Seq<MemberSpec>)
    requires
        forall|i: int|
            0 <= i < members.len() ==> (#[trigger] members[i]).key.len() > 0 && keys_named(
                members[i].value,
            ),
    ensures
        fields_wf(object_fields(members)),
    decreases members,
{
    if members.len() > 0 {
        let front = members.drop_last();
        let m = members.last();
        assert(forall|i: int| 0 <= i < front.len() ==> front[i] == members[i]);
        lemma_object_fields_wf(front);
        lemma_type_of_wf(m.value);
        let acc = object_fields(front);
        let next = observe(acc, m);
        lemma_observe_names(acc, m);
        lemma_position_of(acc, m.key);
        match position_of(acc, m.key) {
            Some(p) => {
                lemma_widen_wf(acc[p].data_type, type_of(m.value));
                assert forall|i: int| 0 <= i < next.len() implies (#[trigger] next[i]).name.len()
                    > 0 && type_wf(next[i].data_type) by {
                    if i != p {
                        assert(next[i] == acc[i]);
                    }
                }
            },
            None => {
                assert forall|i: int| 0 <= i < next.len() implies (#[trigger] next[i]).name.len()
                    > 0 && type_wf(next[i].data_type) by {
                    if i < acc.len() {
                        assert(next[i] == acc[i]);
                    }
                }
            },
        }
    }
}

/// The schema inferred from samples whose keys are non-empty, at any
/// depth, is well formed.
pub proof fn lemma_inferred_wf(samples: Seq<JsonSpec>)
    requires
        forall|i: int| 0 <= i < samples.len() ==> keys_named(#[trigger] samples[i]),
    ensures
        sample_fields(samples) matches Ok(fields) ==> fields_wf(fields),
        inferred(samples) matches Ok(schema) ==> schema_wf(schema),
    decreases samples.len(),
{
    if samples.len() > 0 {
        let front = samples.drop_last();
        assert(forall|i: int| 0 <= i < front.len() ==> front[i] == samples[i]);
        lemma_inferred_wf(front);
        match (sample_fields(front), samples.last()) {
            (Ok(fields), JsonSpec::Object(members)) => {
                assert(keys_named(samples[samples.len() - 1]));
                lemma_object_fields_wf(members);
                lemma_join_wf(fields, object_fields(members));
            },
            _ => {},
        }
    }
}

} // verus!
