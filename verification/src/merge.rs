//! Merging a declared schema with an inferred one: the declared schema
//! always wins, and the inferred one only adds the fields it lacks.

use vstd::prelude::*;
use crate::model::{
    field_named, field_names, field_value, fields_value, has_field, lemma_position_of, position_of,
    schema_wf, type_wf, Field, FieldSpec, Fields, Schema, SchemaSpec,
};

verus! {

/// Whether a field's name is missing from `defined`.
pub open spec fn absent_from(defined: Seq<FieldSpec>) -> spec_fn(FieldSpec) -> bool {
    |f: FieldSpec| !field_names(defined).contains(f.name)
}

/// The declared fields in their order, followed by the inferred fields
/// whose names the declared ones lack, in the inferred order.
pub open spec fn merged_fields(defined: Seq<FieldSpec>, inferred: Seq<FieldSpec>) -> Seq<
    FieldSpec,
> {
    defined + inferred.filter(absent_from(defined))
}

/// The merge of two schemas: the merged fields with the declared metadata.
/// The inferred metadata is dropped.
pub open spec fn merged(defined: SchemaSpec, inferred: SchemaSpec) -> SchemaSpec {
    SchemaSpec {
        fields: merged_fields(defined.fields, inferred.fields),
        metadata: defined.metadata,
    }
}

/// What the added fields are: fields of `inferred` that `defined` lacks,
/// with pairwise different names where `inferred` has such names.
pub proof fn lemma_added_fields(defined: Seq<FieldSpec>, inferred: Seq<FieldSpec>)
    requires
        field_names(inferred).no_duplicates(),
    ensures
        field_names(inferred.filter(absent_from(defined))).no_duplicates(),
        field_names(inferred.filter(absent_from(defined))).to_set() =~= field_names(
            inferred,
        ).to_set().difference(field_names(defined).to_set()),
        forall|k: int|
            0 <= k < inferred.filter(absent_from(defined)).len() ==> inferred.contains(
                #[trigger] inferred.filter(absent_from(defined))[k],
            ),
    decreases inferred.len(),
{
    let keep = absent_from(defined);
    reveal(Seq::filter);
    if inferred.len() > 0 {
        let front = inferred.drop_last();
        let last = inferred.last();
        assert(forall|j: int| 0 <= j < front.len() ==> front[j] == inferred[j]);
        assert forall|a: int, b: int|
            0 <= a < front.len() && 0 <= b < front.len() && a != b implies field_names(front)[a]
            != field_names(front)[b] by {
            assert(field_names(inferred)[a] != field_names(inferred)[b]);
        }
        lemma_added_fields(defined, front);
        let sub = front.filter(keep);
        let all = inferred.filter(keep);
        assert forall|k: int| 0 <= k < sub.len() implies (#[trigger] sub[k]).name
            != last.name by {
            let j = choose|j: int| 0 <= j < front.len() && front[j] == sub[k];
            assert(field_names(inferred)[j] != field_names(inferred)[inferred.len() - 1]);
        }
        assert forall|a: int, b: int|
            0 <= a < all.len() && 0 <= b < all.len() && a != b implies field_names(all)[a]
            != field_names(all)[b] by {
            if a < sub.len() && b < sub.len() {
                assert(field_names(sub)[a] != field_names(sub)[b]);
            }
        }
        assert forall|k: int| 0 <= k < all.len() implies inferred.contains(#[trigger] all[k]) by {
            if k < sub.len() {
                let j = choose|j: int| 0 <= j < front.len() && front[j] == sub[k];
                assert(inferred[j] == all[k]);
            } else {
                assert(inferred[inferred.len() - 1] == all[k]);
            }
        }
        assert forall|n: Seq<char>|
            field_names(all).to_set().contains(n) <==> field_names(inferred).to_set().difference(
                field_names(defined).to_set(),
            ).contains(n) by {
            if field_names(all).contains(n) {
                let k = choose|k: int| 0 <= k < all.len() && field_names(all)[k] == n;
                if k < sub.len() {
                    assert(field_names(sub)[k] == n);
                    assert(field_names(sub).contains(n));
                    assert(field_names(sub).to_set().contains(n));
                    assert(field_names(front).to_set().contains(n));
                    assert(field_names(front).contains(n));
                    let j = choose|j: int| 0 <= j < front.len() && field_names(front)[j] == n;
                    assert(field_names(inferred)[j] == n);
                } else {
                    assert(field_names(inferred)[inferred.len() - 1] == n);
                }
            }
            if field_names(inferred).contains(n) && !field_names(defined).contains(n) {
                let j = choose|j: int| 0 <= j < inferred.len() && field_names(inferred)[j] == n;
                if j < front.len() {
                    assert(field_names(front)[j] == n);
                    assert(field_names(front).contains(n));
                    assert(field_names(front).to_set().contains(n));
                    assert(field_names(sub).to_set().contains(n));
                    assert(field_names(sub).contains(n));
                    let k = choose|k: int| 0 <= k < sub.len() && field_names(sub)[k] == n;
                    assert(field_names(all)[k] == n);
                } else {
                    assert(keep(last));
                    assert(field_names(all)[all.len() - 1] == n);
                }
            }
        }
    }
}

/// The merge has as many fields as the declared schema, plus one for each
/// name that only the inferred schema has.
pub proof fn lemma_merge_field_count(defined: Seq<FieldSpec>, inferred: Seq<FieldSpec>)
    requires
        field_names(inferred).no_duplicates(),
    ensures
        merged_fields(defined, inferred).len() == defined.len() + field_names(
            inferred,
        ).to_set().difference(field_names(defined).to_set()).len(),
{
    lemma_added_fields(defined, inferred);
    let added = field_names(inferred.filter(absent_from(defined)));
    added.unique_seq_to_set();
}

/// The merge of two well-formed schemas is well formed: in particular no
/// two of its fields share a name.
pub proof fn lemma_merge_wf(defined: SchemaSpec, inferred: SchemaSpec)
    requires
        schema_wf(defined),
        schema_wf(inferred),
    ensures
        schema_wf(merged(defined, inferred)),
{
    lemma_added_fields(defined.fields, inferred.fields);
    let keep = absent_from(defined.fields);
    let added = inferred.fields.filter(keep);
    let all = merged_fields(defined.fields, inferred.fields);
    assert forall|k: int| 0 <= k < added.len() implies keep(#[trigger] added[k])
        && added[k].name.len() > 0 && type_wf(added[k].data_type) by {
        inferred.fields.lemma_filter_pred(keep, k);
        let j = choose|j: int| 0 <= j < inferred.fields.len() && inferred.fields[j] == added[k];
    }
    assert forall|a: int, b: int|
        0 <= a < all.len() && 0 <= b < all.len() && a != b implies field_names(all)[a]
        != field_names(all)[b] by {
        let n = defined.fields.len();
        if a < n && b < n {
            assert(field_names(defined.fields)[a] != field_names(defined.fields)[b]);
        } else if a >= n && b >= n {
            assert(field_names(added)[a - n] != field_names(added)[b - n]);
        } else if a < n {
            assert(keep(added[b - n]));
            assert(field_names(defined.fields)[a] == all[a].name);
        } else {
            assert(keep(added[a - n]));
            assert(field_names(defined.fields)[b] == all[b].name);
        }
    }
}

/// For a name that the declared schema has, the merge holds the declared
/// field, whatever the inferred schema says of that name; for any other
/// name it holds what the inferred schema holds.
pub proof fn lemma_merge_precedence(
    defined: Seq<FieldSpec>,
    inferred: Seq<FieldSpec>,
    name: Seq<char>,
)
    ensures
        field_named(merged_fields(defined, inferred), name) == if field_names(defined).contains(
            name,
        ) {
            field_named(defined, name)
        } else {
            field_named(inferred, name)
        },
    decreases inferred.len(),
{
    let keep = absent_from(defined);
    reveal(Seq::filter);
    lemma_position_of(defined, name);
    if inferred.len() == 0 {
        assert(merged_fields(defined, inferred) =~= defined);
    } else {
        let front = inferred.drop_last();
        let last = inferred.last();
        lemma_merge_precedence(defined, front, name);
        lemma_position_of(merged_fields(defined, front), name);
        lemma_position_of(front, name);
        if keep(last) {
            assert(merged_fields(defined, inferred).drop_last() =~= merged_fields(defined, front));
            assert(merged_fields(defined, inferred).last() == last);
            assert(merged_fields(defined, front).len() >= defined.len());
            if field_names(defined).contains(name) {
                let p = position_of(defined, name).unwrap();
                assert(merged_fields(defined, front)[p] == defined[p]);
            } else {
                if position_of(front, name) is Some {
                    let p = position_of(merged_fields(defined, front), name).unwrap();
                    assert(merged_fields(defined, inferred)[p] == merged_fields(defined, front)[p]);
                }
            }
        } else {
            assert(merged_fields(defined, inferred) =~= merged_fields(defined, front));
            assert(field_names(defined).contains(last.name));
        }
    }
}

/// Merges a declared schema with an inferred one. Fields are matched by
/// name, whatever their order. A declared field is kept as it is, even
/// where the inferred field of that name has another type or nullability.
pub fn merge_schema_unordered(defined: Schema, inf: Schema) -> (r: Schema)
    ensures
        r@ == merged(defined@, inf@),
        r@.metadata == defined@.metadata,
        r@.fields.len() >= defined@.fields.len(),
        forall|k: int| 0 <= k < defined@.fields.len() ==> r@.fields[k] == defined@.fields[k],
        schema_wf(defined@) && schema_wf(inf@) ==> schema_wf(r@),
        field_names(inf@.fields).no_duplicates() ==> r@.fields.len() == defined@.fields.len()
            + field_names(inf@.fields).to_set().difference(
            field_names(defined@.fields).to_set(),
        ).len(),
{
    proof {
        if schema_wf(defined@) && schema_wf(inf@) {
            lemma_merge_wf(defined@, inf@);
        }
        if field_names(inf@.fields).no_duplicates() {
            lemma_merge_field_count(defined@.fields, inf@.fields);
        }
    }
    let Schema { fields, metadata } = defined;
    let mut extra: Vec<Field> = Vec::new();
    let mut i: usize = 0;
    proof {
        reveal(Seq::filter);
        assert(fields_value(extra@) =~= inf.fields@.take(0).filter(absent_from(fields@)));
    }
    while i < inf.fields.list.len()
        invariant
            i <= inf.fields.list.len(),
            fields_value(extra@) == inf.fields@.take(i as int).filter(absent_from(fields@)),
        decreases inf.fields.list.len() - i,
    {
        let ghost before = fields_value(extra@);
        let f = &inf.fields.list[i];
        proof {
            let seen = inf.fields@.take(i as int);
            assert(inf.fields@.take(i + 1) =~= seen.push(field_value(*f)));
            seen.lemma_filter_push(field_value(*f), absent_from(fields@));
        }
        if !has_field(&fields.list, &f.name) {
            extra.push(f.duplicate());
            assert(fields_value(extra@) =~= before.push(field_value(*f)));
        }
        i = i + 1;
    }
    assert(inf.fields@.take(i as int) =~= inf.fields@);
    let mut list = fields.list;
    let ghost head = fields_value(list@);
    let ghost tail = fields_value(extra@);
    list.append(&mut extra);
    assert(fields_value(list@) =~= head + tail);
    Schema { fields: Fields { list }, metadata }
}

} // verus!
