//! Hash-style equi-join of two datasets: inner, left, right, full and cross
//! semantics.
//!
//! The model: each left row is matched against every right row whose join
//! key equals the left row's join key (structural value equality).  A cross
//! join is the same computation with empty key lists, under which every
//! right row matches every left row.

use vstd::prelude::*;

use crate::data::DataSet;
use crate::data::Field;
use crate::data::FieldV;
use crate::data::Row;
use crate::data::Schema;
use crate::data::Value;
use crate::data::ValueV;
use crate::data::lemma_col_index;
use crate::data::spec_col_index;
use crate::data::spec_value_eq;
use crate::data::value_eq;
use crate::processing::ProcessingError;
use crate::processing::project_row;
use crate::text::concat2;
use crate::text::concat3;
use crate::text::spec_nat_digits;
use crate::text::u64_to_string;

verus! {

/// The join semantics.
#[derive(Debug, PartialEq, Eq, Structural, Clone, Copy)]
pub enum JoinType {
    Inner,
    Left,
    Right,
    Full,
    Cross,
}

/// The tuple of values of `row` at the given positions.
pub open spec fn spec_key(row: Seq<ValueV>, idxs: Seq<int>) -> Seq<ValueV> {
    Seq::new(idxs.len(), |k: int| row[idxs[k]])
}

/// Structural equality of two key tuples.
pub open spec fn spec_key_eq(a: Seq<ValueV>, b: Seq<ValueV>) -> bool {
    a.len() == b.len() && (forall|k: int| 0 <= k < a.len() ==> spec_value_eq(#[trigger] a[k], b[k]))
}

/// The positions in `0..n` that are not key positions, in order.
pub open spec fn spec_nonkey_from(n: int, keys: Seq<int>, j: int) -> Seq<int>
    decreases n - j,
{
    if j < 0 || j >= n {
        Seq::empty()
    } else if keys.contains(j) {
        spec_nonkey_from(n, keys, j + 1)
    } else {
        seq![j].add(spec_nonkey_from(n, keys, j + 1))
    }
}

/// The positions in `0..n` that are not key positions.
pub open spec fn spec_nonkey(n: int, keys: Seq<int>) -> Seq<int> {
    spec_nonkey_from(n, keys, 0)
}

/// A combined output row: the left row, then the right row's non-key values.
pub open spec fn spec_combined(lrow: Seq<ValueV>, rrow: Seq<ValueV>, nonkey: Seq<int>) -> Seq<
    ValueV,
> {
    lrow.add(Seq::new(nonkey.len(), |k: int| rrow[nonkey[k]]))
}

/// A sequence of `n` nulls.
pub open spec fn spec_nulls(n: int) -> Seq<ValueV> {
    Seq::new(if n < 0 { 0 } else { n as nat }, |k: int| ValueV::Null)
}

/// The combined rows for one left row: one output row per matching right
/// row, in right order.
pub open spec fn spec_matched_rows(
    lrow: Seq<ValueV>,
    right_rows: Seq<Seq<ValueV>>,
    li: Seq<int>,
    ri: Seq<int>,
    nonkey: Seq<int>,
) -> Seq<Seq<ValueV>>
    decreases right_rows.len(),
{
    if right_rows.len() == 0 {
        Seq::empty()
    } else {
        let rest = spec_matched_rows(lrow, right_rows.drop_last(), li, ri, nonkey);
        if spec_key_eq(spec_key(lrow, li), spec_key(right_rows.last(), ri)) {
            rest.push(spec_combined(lrow, right_rows.last(), nonkey))
        } else {
            rest
        }
    }
}

/// The left-driven pass: for each left row in order, its combined rows; for
/// a left or full join additionally one null-padded row when there is no
/// match.
pub open spec fn spec_left_pass(
    jt: JoinType,
    left_rows: Seq<Seq<ValueV>>,
    right_rows: Seq<Seq<ValueV>>,
    li: Seq<int>,
    ri: Seq<int>,
    nonkey: Seq<int>,
) -> Seq<Seq<ValueV>>
    decreases left_rows.len(),
{
    if left_rows.len() == 0 {
        Seq::empty()
    } else {
        let rest = spec_left_pass(jt, left_rows.drop_last(), right_rows, li, ri, nonkey);
        let lrow = left_rows.last();
        let matched = spec_matched_rows(lrow, right_rows, li, ri, nonkey);
        if matched.len() > 0 {
            rest.add(matched)
        } else if jt is Left || jt is Full {
            rest.push(lrow.add(spec_nulls(nonkey.len() as int)))
        } else {
            rest
        }
    }
}

/// The right-driven pass of a right or full join: for each right row in
/// order whose key no left row matches, one output row of nulls followed by
/// the right row's non-key values.
pub open spec fn spec_right_pass(
    left_rows: Seq<Seq<ValueV>>,
    right_rows: Seq<Seq<ValueV>>,
    li: Seq<int>,
    ri: Seq<int>,
    nonkey: Seq<int>,
    nleft: int,
) -> Seq<Seq<ValueV>>
    decreases right_rows.len(),
{
    if right_rows.len() == 0 {
        Seq::empty()
    } else {
        let rest = spec_right_pass(left_rows, right_rows.drop_last(), li, ri, nonkey, nleft);
        let rrow = right_rows.last();
        if exists|i: int|
            0 <= i < left_rows.len() && spec_key_eq(
                spec_key(#[trigger] left_rows[i], li),
                spec_key(rrow, ri),
            ) {
            rest
        } else {
            rest.push(spec_nulls(nleft).add(Seq::new(nonkey.len(), |k: int| rrow[nonkey[k]])))
        }
    }
}

/// The rows a join produces.
pub open spec fn spec_join_rows(
    jt: JoinType,
    left_rows: Seq<Seq<ValueV>>,
    right_rows: Seq<Seq<ValueV>>,
    li: Seq<int>,
    ri: Seq<int>,
    nonkey: Seq<int>,
    nleft: int,
) -> Seq<Seq<ValueV>> {
    if jt is Right || jt is Full {
        spec_left_pass(jt, left_rows, right_rows, li, ri, nonkey).add(
            spec_right_pass(left_rows, right_rows, li, ri, nonkey, nleft),
        )
    } else {
        spec_left_pass(jt, left_rows, right_rows, li, ri, nonkey)
    }
}

// ---------------------------------------------------------------------------
// Collision-free naming
// ---------------------------------------------------------------------------

/// Whether `name` is among `names`.
pub open spec fn spec_name_taken(names: Seq<Seq<char>>, name: Seq<char>) -> bool {
    exists|k: int| 0 <= k < names.len() && names[k] == name
}

/// The candidate name for counter `n`: the base itself for 0, else
/// `base_n`.
pub open spec fn spec_name_candidate(base: Seq<char>, n: int) -> Seq<char> {
    if n == 0 {
        base
    } else {
        base.add(seq!['_']).add(spec_nat_digits(n))
    }
}

/// The first candidate (smallest counter) not among `names`, trying at most
/// `fuel` counters; with fuel beyond the number of taken names a free
/// candidate is always reached.
pub open spec fn spec_fresh_name(names: Seq<Seq<char>>, base: Seq<char>, n: int, fuel: nat) -> Seq<
    char,
>
    decreases fuel,
{
    if fuel == 0 {
        spec_name_candidate(base, n)
    } else if !spec_name_taken(names, spec_name_candidate(base, n)) {
        spec_name_candidate(base, n)
    } else {
        spec_fresh_name(names, base, n + 1, (fuel - 1) as nat)
    }
}

/// Whether `name` equals one of the field names of `fields`.
fn field_name_taken(fields: &Vec<Field>, name: &str) -> (r: bool)
    ensures
        r == spec_name_taken(
            Seq::new(fields@.len(), |k: int| fields@[k].name@),
            name@,
        ),
{
    let ghost names = Seq::new(fields@.len(), |k: int| fields@[k].name@);
    let mut k: usize = 0;
    while k < fields.len()
        invariant
            k <= fields.len(),
            names == Seq::new(fields@.len(), |j: int| fields@[j].name@),
            forall|j: int| 0 <= j < k ==> names[j] != name@,
        decreases fields.len() - k,
    {
        if crate::data::str_eq(fields[k].name.as_str(), name) {
            proof {
                assert(names[k as int] == name@);
            }
            return true;
        }
        k = k + 1;
    }
    false
}

/// The first free candidate name for `base` against the field names of
/// `fields`; agrees with [`spec_fresh_name`] at the same fuel.
fn fresh_field_name(fields: &Vec<Field>, base: &str, fuel: usize) -> (r: String)
    ensures
        r@ == spec_fresh_name(
            Seq::new(fields@.len(), |k: int| fields@[k].name@),
            base@,
            0,
            fuel as nat,
        ),
{
    let ghost names = Seq::new(fields@.len(), |k: int| fields@[k].name@);
    let mut n: usize = 0;
    let mut cand: String = base.to_owned();
    while n < fuel
        invariant
            n <= fuel,
            names == Seq::new(fields@.len(), |k: int| fields@[k].name@),
            cand@ == spec_name_candidate(base@, n as int),
            spec_fresh_name(names, base@, 0, fuel as nat) == spec_fresh_name(
                names,
                base@,
                n as int,
                (fuel - n) as nat,
            ),
        decreases fuel - n,
    {
        if !field_name_taken(fields, cand.as_str()) {
            return cand;
        }
        n = n + 1;
        let prefix = concat2(base, "_");
        let digits = u64_to_string(n as u64);
        cand = concat2(prefix.as_str(), digits.as_str());
        proof {
            reveal_strlit("_");
            assert("_"@ =~= seq!['_']);
            assert(cand@ =~= base@.add(seq!['_']).add(spec_nat_digits(n as int)));
        }
    }
    cand
}


/// The counter-search bound for collision renaming: one more candidate than
/// there are names to collide with, capped.
pub open spec fn spec_name_fuel(n: int) -> nat {
    if 0 <= n < 100000 {
        (n + 1) as nat
    } else {
        100000
    }
}

/// The output schema: the accumulated fields extended, for each non-key
/// right field in order, by that field under a collision-free name.
pub open spec fn spec_extend_fields(
    acc: Seq<FieldV>,
    right_schema: Seq<FieldV>,
    nonkey: Seq<int>,
    k: int,
) -> Seq<FieldV>
    decreases nonkey.len() - k,
{
    if k < 0 || k >= nonkey.len() {
        acc
    } else {
        let f = right_schema[nonkey[k]];
        let nm = spec_fresh_name(
            Seq::new(acc.len(), |j: int| acc[j].name),
            f.name,
            0,
            spec_name_fuel(acc.len() as int),
        );
        spec_extend_fields(
            acc.push(FieldV { name: nm, data_type: f.data_type, nullable: f.nullable }),
            right_schema,
            nonkey,
            k + 1,
        )
    }
}

/// The merged metadata: the left properties, then each right property in
/// order under a collision-free key.
pub open spec fn spec_merge_meta_from(
    acc: Seq<(Seq<char>, Seq<char>)>,
    right: Seq<(Seq<char>, Seq<char>)>,
    k: int,
) -> Seq<(Seq<char>, Seq<char>)>
    decreases right.len() - k,
{
    if k < 0 || k >= right.len() {
        acc
    } else {
        let key = spec_fresh_name(
            Seq::new(acc.len(), |j: int| acc[j].0),
            right[k].0,
            0,
            spec_name_fuel(acc.len() as int),
        );
        spec_merge_meta_from(acc.push((key, right[k].1)), right, k + 1)
    }
}

/// The merged metadata of the two sides.
pub open spec fn spec_merge_meta(
    left: Seq<(Seq<char>, Seq<char>)>,
    right: Seq<(Seq<char>, Seq<char>)>,
) -> Seq<(Seq<char>, Seq<char>)> {
    spec_merge_meta_from(left, right, 0)
}

/// Whether `key` equals one of the metadata keys.
fn meta_key_taken(meta: &crate::data::Metadata, key: &str) -> (r: bool)
    ensures
        r == spec_name_taken(Seq::new(meta@.len(), |k: int| meta@[k].0), key@),
{
    let ghost names = Seq::new(meta@.len(), |k: int| meta@[k].0);
    let mut k: usize = 0;
    while k < meta.properties.len()
        invariant
            k <= meta.properties.len(),
            names == Seq::new(meta@.len(), |j: int| meta@[j].0),
            forall|j: int| 0 <= j < k ==> names[j] != key@,
        decreases meta.properties.len() - k,
    {
        if crate::data::str_eq(meta.properties[k].0.as_str(), key) {
            proof {
                assert(names[k as int] == key@);
            }
            return true;
        }
        proof {
            assert(names[k as int] == meta@[k as int].0);
        }
        k = k + 1;
    }
    false
}

/// The first free candidate key for `base` against the metadata keys;
/// agrees with [`spec_fresh_name`] at the same fuel.
fn fresh_meta_key(meta: &crate::data::Metadata, base: &str, fuel: usize) -> (r: String)
    ensures
        r@ == spec_fresh_name(
            Seq::new(meta@.len(), |k: int| meta@[k].0),
            base@,
            0,
            fuel as nat,
        ),
{
    let ghost names = Seq::new(meta@.len(), |k: int| meta@[k].0);
    let mut n: usize = 0;
    let mut cand: String = base.to_owned();
    while n < fuel
        invariant
            n <= fuel,
            names == Seq::new(meta@.len(), |k: int| meta@[k].0),
            cand@ == spec_name_candidate(base@, n as int),
            spec_fresh_name(names, base@, 0, fuel as nat) == spec_fresh_name(
                names,
                base@,
                n as int,
                (fuel - n) as nat,
            ),
        decreases fuel - n,
    {
        if !meta_key_taken(meta, cand.as_str()) {
            return cand;
        }
        n = n + 1;
        let prefix = concat2(base, "_");
        let digits = u64_to_string(n as u64);
        cand = concat2(prefix.as_str(), digits.as_str());
        proof {
            reveal_strlit("_");
            assert("_"@ =~= seq!['_']);
            assert(cand@ =~= base@.add(seq!['_']).add(spec_nat_digits(n as int)));
        }
    }
    cand
}

/// Copies `left`'s metadata and merges `right`'s in under collision-free
/// keys; agrees with [`spec_merge_meta`].
fn merge_metadata(left: &crate::data::Metadata, right: &crate::data::Metadata) -> (r:
    crate::data::Metadata)
    ensures
        r@ == spec_merge_meta(left@, right@),
{
    let mut out = left.clone();
    let mut k: usize = 0;
    while k < right.properties.len()
        invariant
            k <= right.properties.len(),
            spec_merge_meta(left@, right@) == spec_merge_meta_from(out@, right@, k as int),
        decreases right.properties.len() - k,
    {
        let base = &right.properties[k].0;
        let fuel = if out.properties.len() < 100000 {
            out.properties.len() + 1
        } else {
            100000
        };
        let key = fresh_meta_key(&out, base.as_str(), fuel);
        let ghost before = out@;
        proof {
            assert(right@[k as int].0 == base@);
        }
        let value = right.properties[k].1.clone();
        out.properties.push((key, value));
        proof {
            assert(out@ =~= before.push(
                (
                    spec_fresh_name(
                        Seq::new(before.len(), |j: int| before[j].0),
                        right@[k as int].0,
                        0,
                        spec_name_fuel(before.len() as int),
                    ),
                    right@[k as int].1,
                ),
            ));
        }
        k = k + 1;
    }
    out
}

/// Join two datasets on equal key tuples.
pub struct JoinProcessor {
    pub join_type: JoinType,
    pub left_columns: Vec<String>,
    pub right_columns: Vec<String>,
}

/// The views of a vector of strings.
pub open spec fn spec_strings_view(s: Seq<String>) -> Seq<Seq<char>> {
    Seq::new(s.len(), |i: int| s[i]@)
}

/// The first-match indices of the named columns in a schema.
pub open spec fn spec_col_indices(schema: Seq<FieldV>, cols: Seq<Seq<char>>) -> Seq<int> {
    Seq::new(cols.len(), |k: int| spec_col_index(schema, cols[k]))
}

impl JoinProcessor {
    /// Create a new join processor.
    pub fn new(join_type: JoinType, left_columns: Vec<String>, right_columns: Vec<String>) -> (r:
        JoinProcessor)
        ensures
            r.join_type == join_type,
            r.left_columns == left_columns,
            r.right_columns == right_columns,
    {
        JoinProcessor { join_type, left_columns, right_columns }
    }

    /// Create a new inner join processor.
    pub fn inner(left_columns: Vec<String>, right_columns: Vec<String>) -> (r: JoinProcessor)
        ensures
            r.join_type == JoinType::Inner,
            r.left_columns == left_columns,
            r.right_columns == right_columns,
    {
        JoinProcessor::new(JoinType::Inner, left_columns, right_columns)
    }

    /// Create a new left join processor.
    pub fn left(left_columns: Vec<String>, right_columns: Vec<String>) -> (r: JoinProcessor)
        ensures
            r.join_type == JoinType::Left,
            r.left_columns == left_columns,
            r.right_columns == right_columns,
    {
        JoinProcessor::new(JoinType::Left, left_columns, right_columns)
    }

    /// Create a new right join processor.
    pub fn right(left_columns: Vec<String>, right_columns: Vec<String>) -> (r: JoinProcessor)
        ensures
            r.join_type == JoinType::Right,
            r.left_columns == left_columns,
            r.right_columns == right_columns,
    {
        JoinProcessor::new(JoinType::Right, left_columns, right_columns)
    }

    /// Create a new full join processor.
    pub fn full(left_columns: Vec<String>, right_columns: Vec<String>) -> (r: JoinProcessor)
        ensures
            r.join_type == JoinType::Full,
            r.left_columns == left_columns,
            r.right_columns == right_columns,
    {
        JoinProcessor::new(JoinType::Full, left_columns, right_columns)
    }

    /// Create a new cross join processor.
    pub fn cross() -> (r: JoinProcessor)
        ensures
            r.join_type == JoinType::Cross,
            r.left_columns@.len() == 0,
            r.right_columns@.len() == 0,
    {
        JoinProcessor::new(JoinType::Cross, Vec::new(), Vec::new())
    }
}


// ---------------------------------------------------------------------------
// Arity of the join output
// ---------------------------------------------------------------------------

/// Every combined row of one left row has the left row's arity plus one
/// value per non-key position.
pub proof fn lemma_matched_rows_arity(
    lrow: Seq<ValueV>,
    right_rows: Seq<Seq<ValueV>>,
    li: Seq<int>,
    ri: Seq<int>,
    nonkey: Seq<int>,
)
    ensures
        forall|k: int|
            0 <= k < spec_matched_rows(lrow, right_rows, li, ri, nonkey).len()
                ==> (#[trigger] spec_matched_rows(lrow, right_rows, li, ri, nonkey)[k]).len()
                == lrow.len() + nonkey.len(),
    decreases right_rows.len(),
{
    if right_rows.len() > 0 {
        lemma_matched_rows_arity(lrow, right_rows.drop_last(), li, ri, nonkey);
        let f = spec_matched_rows(lrow, right_rows, li, ri, nonkey);
        let rest = spec_matched_rows(lrow, right_rows.drop_last(), li, ri, nonkey);
        assert forall|k: int|
            0 <= k < f.len() implies (#[trigger] f[k]).len() == lrow.len() + nonkey.len() by {
            if spec_key_eq(spec_key(lrow, li), spec_key(right_rows.last(), ri)) && k
                == rest.len() {
                assert(f[k] == spec_combined(lrow, right_rows.last(), nonkey));
            } else {
                assert(f[k] == rest[k]);
            }
        }
    }
}

/// Every row of the left pass has the left arity plus one value per non-key
/// position.
pub proof fn lemma_left_pass_arity(
    jt: JoinType,
    left_rows: Seq<Seq<ValueV>>,
    right_rows: Seq<Seq<ValueV>>,
    li: Seq<int>,
    ri: Seq<int>,
    nonkey: Seq<int>,
    nleft: int,
)
    requires
        forall|i: int| 0 <= i < left_rows.len() ==> (#[trigger] left_rows[i]).len() == nleft,
    ensures
        forall|k: int|
            0 <= k < spec_left_pass(jt, left_rows, right_rows, li, ri, nonkey).len()
                ==> (#[trigger] spec_left_pass(jt, left_rows, right_rows, li, ri, nonkey)[k]).len()
                == nleft + nonkey.len(),
    decreases left_rows.len(),
{
    if left_rows.len() > 0 {
        assert forall|i: int|
            0 <= i < left_rows.drop_last().len() implies (#[trigger] left_rows.drop_last()[i]).len()
            == nleft by {
            assert(left_rows.drop_last()[i] == left_rows[i]);
        }
        lemma_left_pass_arity(jt, left_rows.drop_last(), right_rows, li, ri, nonkey, nleft);
        let lrow = left_rows.last();
        assert(lrow == left_rows[left_rows.len() - 1]);
        lemma_matched_rows_arity(lrow, right_rows, li, ri, nonkey);
        let f = spec_left_pass(jt, left_rows, right_rows, li, ri, nonkey);
        let rest = spec_left_pass(jt, left_rows.drop_last(), right_rows, li, ri, nonkey);
        let matched = spec_matched_rows(lrow, right_rows, li, ri, nonkey);
        assert forall|k: int|
            0 <= k < f.len() implies (#[trigger] f[k]).len() == nleft + nonkey.len() by {
            if k < rest.len() {
                assert(f[k] == rest[k]);
            } else if matched.len() > 0 {
                assert(f[k] == matched[k - rest.len()]);
            } else {
                assert(f[k] == lrow.add(spec_nulls(nonkey.len() as int)));
            }
        }
    }
}

/// Every row of the right pass has the left arity plus one value per
/// non-key position.
pub proof fn lemma_right_pass_arity(
    left_rows: Seq<Seq<ValueV>>,
    right_rows: Seq<Seq<ValueV>>,
    li: Seq<int>,
    ri: Seq<int>,
    nonkey: Seq<int>,
    nleft: int,
)
    requires
        nleft >= 0,
    ensures
        forall|k: int|
            0 <= k < spec_right_pass(left_rows, right_rows, li, ri, nonkey, nleft).len()
                ==> (#[trigger] spec_right_pass(left_rows, right_rows, li, ri, nonkey, nleft)[k]).len()
                == nleft + nonkey.len(),
    decreases right_rows.len(),
{
    if right_rows.len() > 0 {
        lemma_right_pass_arity(left_rows, right_rows.drop_last(), li, ri, nonkey, nleft);
        let f = spec_right_pass(left_rows, right_rows, li, ri, nonkey, nleft);
        let rest = spec_right_pass(left_rows, right_rows.drop_last(), li, ri, nonkey, nleft);
        assert forall|k: int|
            0 <= k < f.len() implies (#[trigger] f[k]).len() == nleft + nonkey.len() by {
            if k < rest.len() {
                assert(f[k] == rest[k]);
            } else {
                assert(f[k] == spec_nulls(nleft).add(
                    Seq::new(nonkey.len(), |k2: int| right_rows.last()[nonkey[k2]]),
                ));
            }
        }
    }
}

/// The extended schema is the accumulator plus one field per remaining
/// non-key position.
pub proof fn lemma_extend_fields_len(
    acc: Seq<FieldV>,
    right_schema: Seq<FieldV>,
    nonkey: Seq<int>,
    k: int,
)
    requires
        0 <= k <= nonkey.len(),
    ensures
        spec_extend_fields(acc, right_schema, nonkey, k).len() == acc.len() + nonkey.len() - k,
    decreases nonkey.len() - k,
{
    if k < nonkey.len() {
        let f = right_schema[nonkey[k]];
        let nm = spec_fresh_name(
            Seq::new(acc.len(), |j: int| acc[j].name),
            f.name,
            0,
            spec_name_fuel(acc.len() as int),
        );
        lemma_extend_fields_len(
            acc.push(FieldV { name: nm, data_type: f.data_type, nullable: f.nullable }),
            right_schema,
            nonkey,
            k + 1,
        );
    }
}

// ---------------------------------------------------------------------------
// Executable helpers
// ---------------------------------------------------------------------------

/// Structural equality of two key rows.
pub fn key_eq_rows(a: &Row, b: &Row) -> (r: bool)
    ensures
        r == spec_key_eq(a@, b@),
{
    if a.values.len() != b.values.len() {
        return false;
    }
    let mut k: usize = 0;
    while k < a.values.len()
        invariant
            k <= a.values.len(),
            a.values@.len() == b.values@.len(),
            forall|j: int| 0 <= j < k ==> spec_value_eq(#[trigger] a@[j], b@[j]),
        decreases a.values.len() - k,
    {
        if !value_eq(&a.values[k], &b.values[k]) {
            proof {
                assert(a@[k as int] == a.values@[k as int]@);
                assert(b@[k as int] == b.values@[k as int]@);
            }
            return false;
        }
        proof {
            assert(a@[k as int] == a.values@[k as int]@);
            assert(b@[k as int] == b.values@[k as int]@);
        }
        k = k + 1;
    }
    true
}

/// Whether the index vector holds `j`.
fn idx_contains(v: &Vec<usize>, j: usize) -> (r: bool)
    ensures
        r == Seq::new(v@.len(), |k: int| v@[k] as int).contains(j as int),
{
    let ghost iv = Seq::new(v@.len(), |k: int| v@[k] as int);
    let mut k: usize = 0;
    while k < v.len()
        invariant
            k <= v.len(),
            iv == Seq::new(v@.len(), |j2: int| v@[j2] as int),
            forall|j2: int| 0 <= j2 < k ==> iv[j2] != j as int,
        decreases v.len() - k,
    {
        if v[k] == j {
            proof {
                assert(iv[k as int] == j as int);
            }
            return true;
        }
        k = k + 1;
    }
    proof {
        if iv.contains(j as int) {
            let w = choose|w: int| 0 <= w < iv.len() && iv[w] == j as int;
            assert(iv[w] != j as int);
        }
    }
    false
}

/// A vector of `n` null values.
fn null_values(n: usize) -> (r: Vec<Value>)
    ensures
        r@.len() == n,
        forall|k: int| 0 <= k < n ==> (#[trigger] r@[k])@ == ValueV::Null,
{
    let mut out: Vec<Value> = Vec::new();
    let mut k: usize = 0;
    while k < n
        invariant
            k <= n,
            out@.len() == k,
            forall|j: int| 0 <= j < k ==> (#[trigger] out@[j])@ == ValueV::Null,
        decreases n - k,
    {
        out.push(Value::Null);
        k = k + 1;
    }
    out
}


impl JoinProcessor {
    /// Whether a left row with this key has a match among the left rows.
    fn any_left_match(left: &DataSet, lidx: &Vec<usize>, rkey: &Row) -> (r: bool)
        requires
            left.wf(),
            forall|k: int| 0 <= k < lidx@.len() ==> (#[trigger] lidx@[k]) < left@.schema.len(),
        ensures
            r == (exists|i: int|
                0 <= i < left@.data.len() && spec_key_eq(
                    spec_key(
                        #[trigger] left@.data[i],
                        Seq::new(lidx@.len(), |k: int| lidx@[k] as int),
                    ),
                    rkey@,
                )),
    {
        let ghost li = Seq::new(lidx@.len(), |k: int| lidx@[k] as int);
        let mut i: usize = 0;
        while i < left.data.len()
            invariant
                i <= left.data.len(),
                left.wf(),
                li == Seq::new(lidx@.len(), |k: int| lidx@[k] as int),
                forall|k: int| 0 <= k < lidx@.len() ==> (#[trigger] lidx@[k]) < left@.schema.len(),
                forall|i2: int|
                    0 <= i2 < i ==> !spec_key_eq(spec_key(#[trigger] left@.data[i2], li), rkey@),
            decreases left.data.len() - i,
        {
            proof {
                assert(left@.data[i as int] == left.data@[i as int]@);
                assert(left@.data[i as int].len() == left@.schema.len());
            }
            let lkey = project_row(&left.data[i], lidx);
            proof {
                assert(lkey@ =~= spec_key(left@.data[i as int], li));
            }
            if key_eq_rows(&lkey, rkey) {
                return true;
            }
            i = i + 1;
        }
        false
    }

    /// Join the two datasets.
    ///
    /// For a non-cross join the two key-column lists must have equal length
    /// and every name must resolve; otherwise the join is an
    /// `InvalidArgument` error.  On success the output rows are exactly the
    /// model's join rows: for each left row in order one combined row per
    /// key-matching right row (the left values, then the right non-key
    /// values), a null-padded row for unmatched left rows under left and
    /// full semantics, and, under right and full semantics, one null-padded
    /// row for each right row in order whose key no left row bears.  A cross
    /// join is the same computation with empty key lists.  The output schema
    /// is the left schema followed by the right non-key fields under
    /// collision-free names; the two sides' metadata is merged the same way.
    pub fn process_join(&self, left: &DataSet, right: &DataSet) -> (r: Result<
        DataSet,
        ProcessingError,
    >)
        requires
            left.wf(),
            right.wf(),
        ensures
            match r {
                Ok(out) => {
                    let lcols = spec_strings_view(self.left_columns@);
                    let rcols = spec_strings_view(self.right_columns@);
                    let li = if self.join_type is Cross {
                        Seq::<int>::empty()
                    } else {
                        spec_col_indices(left@.schema, lcols)
                    };
                    let ri = if self.join_type is Cross {
                        Seq::<int>::empty()
                    } else {
                        spec_col_indices(right@.schema, rcols)
                    };
                    let nk = spec_nonkey(right@.schema.len() as int, ri);
                    (self.join_type is Cross || (lcols.len() == rcols.len() && (forall|k: int|
                        0 <= k < lcols.len() ==> spec_col_index(left@.schema, #[trigger] lcols[k])
                            >= 0) && (forall|k: int|
                        0 <= k < rcols.len() ==> spec_col_index(right@.schema, #[trigger] rcols[k])
                            >= 0))) && out@.schema == spec_extend_fields(
                        left@.schema,
                        right@.schema,
                        nk,
                        0,
                    ) && out@.data == spec_join_rows(
                        self.join_type,
                        left@.data,
                        right@.data,
                        li,
                        ri,
                        nk,
                        left@.schema.len() as int,
                    ) && out@.metadata == spec_merge_meta(left@.metadata, right@.metadata)
                        && out.wf()
                },
                Err(e) => {
                    let lcols = spec_strings_view(self.left_columns@);
                    let rcols = spec_strings_view(self.right_columns@);
                    e is InvalidArgument && !(self.join_type is Cross) && (lcols.len()
                        != rcols.len() || (exists|k: int|
                        0 <= k < lcols.len() && spec_col_index(left@.schema, #[trigger] lcols[k])
                            == -1) || (exists|k: int|
                        0 <= k < rcols.len() && spec_col_index(right@.schema, #[trigger] rcols[k])
                            == -1))
                },
            },
    {
        let ghost lschema = left@.schema;
        let ghost rschema = right@.schema;
        let ghost lcols = spec_strings_view(self.left_columns@);
        let ghost rcols = spec_strings_view(self.right_columns@);
        let is_cross = match self.join_type {
            JoinType::Cross => true,
            _ => false,
        };
        proof {
            assert(is_cross == (self.join_type is Cross));
        }
        let mut lidx: Vec<usize> = Vec::new();
        let mut ridx: Vec<usize> = Vec::new();
        if !is_cross {
            if self.left_columns.len() != self.right_columns.len() {
                return Err(
                    ProcessingError::InvalidArgument(
                        String::from_str("Join key column counts differ"),
                    ),
                );
            }
            let mut c: usize = 0;
            while c < self.left_columns.len()
                invariant
                    c <= self.left_columns.len(),
                    !(self.join_type is Cross),
                    lschema == left@.schema,
                    lcols == spec_strings_view(self.left_columns@),
                    lidx@.len() == c,
                    forall|k: int|
                        0 <= k < c ==> spec_col_index(lschema, lcols[k]) == (
                        #[trigger] lidx@[k]) as int,
                    forall|k: int| 0 <= k < c ==> (#[trigger] lidx@[k]) < lschema.len(),
                decreases self.left_columns.len() - c,
            {
                let col = &self.left_columns[c];
                proof {
                    assert(lcols[c as int] == col@);
                }
                match left.schema.col_index(col.as_str()) {
                    Some(i) => {
                        proof {
                            lemma_col_index(lschema, col@);
                        }
                        lidx.push(i);
                    },
                    None => {
                        proof {
                            assert(spec_col_index(lschema, lcols[c as int]) == -1);
                            assert(!(self.join_type is Cross));
                        }
                        return Err(
                            ProcessingError::InvalidArgument(
                                concat3("Left join column '", col.as_str(), "' not found"),
                            ),
                        );
                    },
                }
                c = c + 1;
            }
            let mut c2: usize = 0;
            while c2 < self.right_columns.len()
                invariant
                    c2 <= self.right_columns.len(),
                    !(self.join_type is Cross),
                    rschema == right@.schema,
                    rcols == spec_strings_view(self.right_columns@),
                    ridx@.len() == c2,
                    forall|k: int|
                        0 <= k < c2 ==> spec_col_index(rschema, rcols[k]) == (
                        #[trigger] ridx@[k]) as int,
                    forall|k: int| 0 <= k < c2 ==> (#[trigger] ridx@[k]) < rschema.len(),
                decreases self.right_columns.len() - c2,
            {
                let col = &self.right_columns[c2];
                proof {
                    assert(rcols[c2 as int] == col@);
                }
                match right.schema.col_index(col.as_str()) {
                    Some(i) => {
                        proof {
                            lemma_col_index(rschema, col@);
                        }
                        ridx.push(i);
                    },
                    None => {
                        proof {
                            assert(spec_col_index(rschema, rcols[c2 as int]) == -1);
                            assert(!(self.join_type is Cross));
                        }
                        return Err(
                            ProcessingError::InvalidArgument(
                                concat3("Right join column '", col.as_str(), "' not found"),
                            ),
                        );
                    },
                }
                c2 = c2 + 1;
            }
        }
        let ghost li = Seq::new(lidx@.len(), |k: int| lidx@[k] as int);
        let ghost ri = Seq::new(ridx@.len(), |k: int| ridx@[k] as int);
        proof {
            if is_cross {
                assert(li =~= Seq::<int>::empty());
                assert(ri =~= Seq::<int>::empty());
            } else {
                assert(li =~= spec_col_indices(lschema, lcols));
                assert(ri =~= spec_col_indices(rschema, rcols));
            }
        }
        // The non-key positions of the right schema.
        let ghost nk = spec_nonkey(rschema.len() as int, ri);
        let rlen = right.schema.fields.len();
        let mut nonkey: Vec<usize> = Vec::new();
        let mut j: usize = 0;
        proof {
            assert(nk =~= Seq::new(nonkey@.len(), |k: int| nonkey@[k] as int).add(
                spec_nonkey_from(rschema.len() as int, ri, 0),
            ));
        }
        while j < rlen
            invariant
                j <= rlen,
                rlen == rschema.len(),
                ri == Seq::new(ridx@.len(), |k: int| ridx@[k] as int),
                nk == spec_nonkey(rschema.len() as int, ri),
                nk == Seq::new(nonkey@.len(), |k: int| nonkey@[k] as int).add(
                    spec_nonkey_from(rschema.len() as int, ri, j as int),
                ),
                forall|k: int| 0 <= k < nonkey@.len() ==> (#[trigger] nonkey@[k]) < rschema.len(),
            decreases rlen - j,
        {
            let ghost before = Seq::new(nonkey@.len(), |k: int| nonkey@[k] as int);
            if !idx_contains(&ridx, j) {
                nonkey.push(j);
                proof {
                    assert(Seq::new(nonkey@.len(), |k: int| nonkey@[k] as int) =~= before.push(
                        j as int,
                    ));
                    assert(spec_nonkey_from(rschema.len() as int, ri, j as int) == seq![
                        j as int,
                    ].add(spec_nonkey_from(rschema.len() as int, ri, j + 1)));
                    assert(before.push(j as int).add(
                        spec_nonkey_from(rschema.len() as int, ri, j + 1),
                    ) =~= before.add(
                        seq![j as int].add(spec_nonkey_from(rschema.len() as int, ri, j + 1)),
                    ));
                }
            } else {
                proof {
                    assert(spec_nonkey_from(rschema.len() as int, ri, j as int)
                        == spec_nonkey_from(rschema.len() as int, ri, j + 1));
                }
            }
            j = j + 1;
        }
        proof {
            assert(spec_nonkey_from(rschema.len() as int, ri, j as int) =~= Seq::<int>::empty());
            assert(nk =~= Seq::new(nonkey@.len(), |k: int| nonkey@[k] as int));
        }
        // The output schema: left fields, then renamed right non-key fields.
        let mut fields: Vec<Field> = Vec::new();
        let mut i: usize = 0;
        while i < left.schema.fields.len()
            invariant
                i <= left.schema.fields.len(),
                lschema == left@.schema,
                fields@.len() == i,
                forall|k: int| 0 <= k < i ==> (#[trigger] fields@[k])@ == lschema[k],
            decreases left.schema.fields.len() - i,
        {
            fields.push(left.schema.fields[i].clone());
            i = i + 1;
        }
        proof {
            assert(spec_fields_view_join(fields@) =~= lschema);
        }
        let mut k: usize = 0;
        while k < nonkey.len()
            invariant
                k <= nonkey.len(),
                rschema == right@.schema,
                nk == Seq::new(nonkey@.len(), |k2: int| nonkey@[k2] as int),
                forall|k2: int| 0 <= k2 < nonkey@.len() ==> (#[trigger] nonkey@[k2]) < rschema.len(),
                spec_extend_fields(lschema, rschema, nk, 0) == spec_extend_fields(
                    spec_fields_view_join(fields@),
                    rschema,
                    nk,
                    k as int,
                ),
            decreases nonkey.len() - k,
        {
            let ghost acc = spec_fields_view_join(fields@);
            let src = &right.schema.fields[nonkey[k]];
            proof {
                assert(nk[k as int] == nonkey@[k as int] as int);
                assert(rschema[nk[k as int]] == right.schema.fields@[nonkey@[k as int] as int]@);
            }
            let fuel = if fields.len() < 100000 {
                fields.len() + 1
            } else {
                100000
            };
            let nm = fresh_field_name(&fields, src.name.as_str(), fuel);
            proof {
                assert(Seq::new(fields@.len(), |j2: int| fields@[j2].name@) =~= Seq::new(
                    acc.len(),
                    |j2: int| acc[j2].name,
                ));
                assert(fuel as nat == spec_name_fuel(acc.len() as int));
            }
            let dt = src.data_type.clone();
            let nb = src.nullable;
            fields.push(Field { name: nm, data_type: dt, nullable: nb });
            proof {
                let f = rschema[nk[k as int]];
                let nm2 = spec_fresh_name(
                    Seq::new(acc.len(), |j2: int| acc[j2].name),
                    f.name,
                    0,
                    spec_name_fuel(acc.len() as int),
                );
                assert(spec_fields_view_join(fields@) =~= acc.push(
                    FieldV { name: nm2, data_type: f.data_type, nullable: f.nullable },
                ));
            }
            k = k + 1;
        }
        let out_schema = Schema { fields };
        proof {
            assert(out_schema@ =~= spec_fields_view_join(out_schema.fields@));
        }
        // The rows.
        let ghost lrows = left@.data;
        let ghost rrows = right@.data;
        let ghost nleft = lschema.len() as int;
        let mut data: Vec<Row> = Vec::new();
        let mut i2: usize = 0;
        proof {
            assert(lrows.take(0) =~= Seq::<Seq<ValueV>>::empty());
        }
        while i2 < left.data.len()
            invariant
                i2 <= left.data.len(),
                left.wf(),
                right.wf(),
                lschema == left@.schema,
                rschema == right@.schema,
                lrows == left@.data,
                rrows == right@.data,
                li == Seq::new(lidx@.len(), |k2: int| lidx@[k2] as int),
                ri == Seq::new(ridx@.len(), |k2: int| ridx@[k2] as int),
                nk == Seq::new(nonkey@.len(), |k2: int| nonkey@[k2] as int),
                forall|k2: int| 0 <= k2 < lidx@.len() ==> (#[trigger] lidx@[k2]) < lschema.len(),
                forall|k2: int| 0 <= k2 < ridx@.len() ==> (#[trigger] ridx@[k2]) < rschema.len(),
                forall|k2: int| 0 <= k2 < nonkey@.len() ==> (#[trigger] nonkey@[k2]) < rschema.len(),
                Seq::new(data@.len(), |d: int| data@[d]@) == spec_left_pass(
                    self.join_type,
                    lrows.take(i2 as int),
                    rrows,
                    li,
                    ri,
                    nk,
                ),
            decreases left.data.len() - i2,
        {
            let ghost out_before = Seq::new(data@.len(), |d: int| data@[d]@);
            let ghost lrow = lrows[i2 as int];
            proof {
                assert(left@.data[i2 as int] == left.data@[i2 as int]@);
                assert(lrow.len() == lschema.len());
            }
            let lkey = project_row(&left.data[i2], &lidx);
            proof {
                assert(lkey@ =~= spec_key(lrow, li));
            }
            let before_len = data.len();
            let mut j2: usize = 0;
            proof {
                assert(rrows.take(0) =~= Seq::<Seq<ValueV>>::empty());
            }
            while j2 < right.data.len()
                invariant
                    j2 <= right.data.len(),
                    left.wf(),
                    right.wf(),
                    i2 < left.data.len(),
                    lschema == left@.schema,
                    rschema == right@.schema,
                    lrows == left@.data,
                    rrows == right@.data,
                    lrow == lrows[i2 as int],
                    lkey@ == spec_key(lrow, li),
                    before_len == out_before.len(),
                    li == Seq::new(lidx@.len(), |k2: int| lidx@[k2] as int),
                    ri == Seq::new(ridx@.len(), |k2: int| ridx@[k2] as int),
                    nk == Seq::new(nonkey@.len(), |k2: int| nonkey@[k2] as int),
                    forall|k2: int| 0 <= k2 < ridx@.len() ==> (#[trigger] ridx@[k2]) < rschema.len(),
                    forall|k2: int|
                        0 <= k2 < nonkey@.len() ==> (#[trigger] nonkey@[k2]) < rschema.len(),
                    forall|k2: int| 0 <= k2 < lidx@.len() ==> (#[trigger] lidx@[k2]) < lschema.len(),
                    Seq::new(data@.len(), |d: int| data@[d]@) == out_before.add(
                        spec_matched_rows(lrow, rrows.take(j2 as int), li, ri, nk),
                    ),
                decreases right.data.len() - j2,
            {
                let ghost emitted = spec_matched_rows(lrow, rrows.take(j2 as int), li, ri, nk);
                proof {
                    assert(right@.data[j2 as int] == right.data@[j2 as int]@);
                    assert(rrows[j2 as int].len() == rschema.len());
                    assert(rrows.take(j2 + 1).drop_last() =~= rrows.take(j2 as int));
                    assert(rrows.take(j2 + 1).last() == rrows[j2 as int]);
                }
                let rkey = project_row(&right.data[j2], &ridx);
                proof {
                    assert(rkey@ =~= spec_key(rrows[j2 as int], ri));
                }
                if key_eq_rows(&lkey, &rkey) {
                    let mut values = crate::data::clone_values(&left.data[i2].values);
                    let proj = project_row(&right.data[j2], &nonkey);
                    let mut pv = proj.values;
                    values.append(&mut pv);
                    let row = Row { values };
                    proof {
                        assert(row@ =~= spec_combined(lrow, rrows[j2 as int], nk));
                        assert(Seq::new(data@.len() + 1, |d: int| data@.push(row)[d]@) =~= Seq::new(
                            data@.len(),
                            |d: int| data@[d]@,
                        ).push(row@));
                    }
                    data.push(row);
                    proof {
                        assert(Seq::new(data@.len(), |d: int| data@[d]@) =~= out_before.add(
                            emitted.push(spec_combined(lrow, rrows[j2 as int], nk)),
                        ));
                    }
                }
                j2 = j2 + 1;
            }
            proof {
                assert(rrows.take(j2 as int) =~= rrows);
            }
            let emitted_here = data.len() - before_len;
            let keep_unmatched = match self.join_type {
                JoinType::Left => true,
                JoinType::Full => true,
                _ => false,
            };
            if emitted_here == 0 && keep_unmatched {
                let mut values = crate::data::clone_values(&left.data[i2].values);
                let mut nulls = null_values(nonkey.len());
                values.append(&mut nulls);
                let row = Row { values };
                proof {
                    assert(row@ =~= lrow.add(spec_nulls(nk.len() as int)));
                }
                data.push(row);
            }
            proof {
                assert(lrows.take(i2 + 1).drop_last() =~= lrows.take(i2 as int));
                assert(lrows.take(i2 + 1).last() == lrow);
                let matched = spec_matched_rows(lrow, rrows, li, ri, nk);
                if matched.len() > 0 {
                    assert(Seq::new(data@.len(), |d: int| data@[d]@) =~= out_before.add(matched));
                    assert(Seq::new(data@.len(), |d: int| data@[d]@) =~= spec_left_pass(
                        self.join_type,
                        lrows.take(i2 + 1),
                        rrows,
                        li,
                        ri,
                        nk,
                    ));
                } else {
                    assert(Seq::new(data@.len(), |d: int| data@[d]@) =~= spec_left_pass(
                        self.join_type,
                        lrows.take(i2 + 1),
                        rrows,
                        li,
                        ri,
                        nk,
                    ));
                }
            }
            i2 = i2 + 1;
        }
        proof {
            assert(lrows.take(i2 as int) =~= lrows);
        }
        // The right-driven pass for right and full joins.
        let right_driven = match self.join_type {
            JoinType::Right => true,
            JoinType::Full => true,
            _ => false,
        };
        if right_driven {
            let ghost lp = spec_left_pass(self.join_type, lrows, rrows, li, ri, nk);
            let mut j3: usize = 0;
            proof {
                assert(rrows.take(0) =~= Seq::<Seq<ValueV>>::empty());
                assert(Seq::new(data@.len(), |d: int| data@[d]@) =~= lp.add(
                    spec_right_pass(lrows, rrows.take(0), li, ri, nk, nleft),
                ));
            }
            while j3 < right.data.len()
                invariant
                    j3 <= right.data.len(),
                    left.wf(),
                    right.wf(),
                    lschema == left@.schema,
                    rschema == right@.schema,
                    lrows == left@.data,
                    rrows == right@.data,
                    nleft == lschema.len() as int,
                    lp == spec_left_pass(self.join_type, lrows, rrows, li, ri, nk),
                    li == Seq::new(lidx@.len(), |k2: int| lidx@[k2] as int),
                    ri == Seq::new(ridx@.len(), |k2: int| ridx@[k2] as int),
                    nk == Seq::new(nonkey@.len(), |k2: int| nonkey@[k2] as int),
                    forall|k2: int| 0 <= k2 < ridx@.len() ==> (#[trigger] ridx@[k2]) < rschema.len(),
                    forall|k2: int|
                        0 <= k2 < nonkey@.len() ==> (#[trigger] nonkey@[k2]) < rschema.len(),
                    forall|k2: int| 0 <= k2 < lidx@.len() ==> (#[trigger] lidx@[k2]) < lschema.len(),
                    Seq::new(data@.len(), |d: int| data@[d]@) == lp.add(
                        spec_right_pass(lrows, rrows.take(j3 as int), li, ri, nk, nleft),
                    ),
                decreases right.data.len() - j3,
            {
                let ghost emitted = spec_right_pass(lrows, rrows.take(j3 as int), li, ri, nk, nleft);
                proof {
                    assert(right@.data[j3 as int] == right.data@[j3 as int]@);
                    assert(rrows[j3 as int].len() == rschema.len());
                    assert(rrows.take(j3 + 1).drop_last() =~= rrows.take(j3 as int));
                    assert(rrows.take(j3 + 1).last() == rrows[j3 as int]);
                }
                let rkey = project_row(&right.data[j3], &ridx);
                proof {
                    assert(rkey@ =~= spec_key(rrows[j3 as int], ri));
                }
                if !JoinProcessor::any_left_match(left, &lidx, &rkey) {
                    let mut values = null_values(left.schema.fields.len());
                    let proj = project_row(&right.data[j3], &nonkey);
                    let mut pv = proj.values;
                    values.append(&mut pv);
                    let row = Row { values };
                    proof {
                        assert(row@ =~= spec_nulls(nleft).add(
                            Seq::new(nk.len(), |k2: int| rrows[j3 as int][nk[k2]]),
                        ));
                    }
                    let ghost rv = row@;
                    data.push(row);
                    proof {
                        assert(Seq::new(data@.len(), |d: int| data@[d]@) =~= (lp.add(
                            emitted,
                        )).push(rv));
                        assert((lp.add(emitted)).push(rv) =~= lp.add(emitted.push(rv)));
                    }
                }
                j3 = j3 + 1;
            }
            proof {
                assert(rrows.take(j3 as int) =~= rrows);
            }
        }
        // Metadata and assembly.
        let metadata = merge_metadata(&left.metadata, &right.metadata);
        let out = DataSet { schema: out_schema, data, metadata };
        proof {
            assert(out@.data =~= Seq::new(out.data@.len(), |d: int| out.data@[d]@));
            assert(spec_extend_fields(spec_fields_view_join(out_schema.fields@), rschema, nk, nonkey@.len() as int)
                == spec_fields_view_join(out_schema.fields@));
            assert(out@.schema == spec_extend_fields(lschema, rschema, nk, 0));
            if !is_cross {
                assert forall|k2: int|
                    0 <= k2 < lcols.len() implies spec_col_index(lschema, #[trigger] lcols[k2])
                    >= 0 by {
                    let w = lidx@[k2];
                }
                assert forall|k2: int|
                    0 <= k2 < rcols.len() implies spec_col_index(rschema, #[trigger] rcols[k2])
                    >= 0 by {
                    let w = ridx@[k2];
                }
            }
            let lp2 = spec_left_pass(self.join_type, lrows, rrows, li, ri, nk);
            let rp2 = spec_right_pass(lrows, rrows, li, ri, nk, nleft);
            if right_driven {
                assert(out@.data == lp2.add(rp2));
                assert(out@.data == spec_join_rows(self.join_type, lrows, rrows, li, ri, nk, nleft));
            } else {
                assert(out@.data == lp2);
                assert(out@.data == spec_join_rows(self.join_type, lrows, rrows, li, ri, nk, nleft));
            }
            lemma_left_pass_arity(self.join_type, lrows, rrows, li, ri, nk, nleft);
            lemma_right_pass_arity(lrows, rrows, li, ri, nk, nleft);
            lemma_extend_fields_len(lschema, rschema, nk, 0);
            assert forall|d: int|
                0 <= d < out@.data.len() implies (#[trigger] out@.data[d]).len()
                == out@.schema.len() by {
                if d < lp2.len() {
                    assert(out@.data[d] == lp2[d]);
                } else {
                    assert(out@.data[d] == rp2[d - lp2.len()]);
                }
            }
        }
        Ok(out)
    }

    /// The operator's name, after its join type.
    pub fn name(&self) -> (r: &'static str)
        ensures
            self.join_type is Inner ==> r@ == "inner_join"@,
            self.join_type is Left ==> r@ == "left_join"@,
            self.join_type is Right ==> r@ == "right_join"@,
            self.join_type is Full ==> r@ == "full_join"@,
            self.join_type is Cross ==> r@ == "cross_join"@,
    {
        match self.join_type {
            JoinType::Inner => "inner_join",
            JoinType::Left => "left_join",
            JoinType::Right => "right_join",
            JoinType::Full => "full_join",
            JoinType::Cross => "cross_join",
        }
    }

    /// A join needs a second dataset; the uniform single-input entry point
    /// always refuses.
    pub fn process(&self, input: &DataSet) -> (r: Result<DataSet, ProcessingError>)
        ensures
            r is Err,
            match r {
                Ok(_) => false,
                Err(e) => e is InvalidOperation,
            },
    {
        Err(
            ProcessingError::InvalidOperation(
                String::from_str("JoinProcessor requires a second dataset"),
            ),
        )
    }
}

/// The view of a field vector.
pub open spec fn spec_fields_view_join(fields: Seq<Field>) -> Seq<FieldV> {
    Seq::new(fields.len(), |i: int| fields[i]@)
}


// ---------------------------------------------------------------------------
// Cardinality laws
// ---------------------------------------------------------------------------

/// The left pass emits the same rows for left and full semantics.
pub proof fn lemma_left_pass_left_eq_full(
    left_rows: Seq<Seq<ValueV>>,
    right_rows: Seq<Seq<ValueV>>,
    li: Seq<int>,
    ri: Seq<int>,
    nonkey: Seq<int>,
)
    ensures
        spec_left_pass(JoinType::Left, left_rows, right_rows, li, ri, nonkey) == spec_left_pass(
            JoinType::Full,
            left_rows,
            right_rows,
            li,
            ri,
            nonkey,
        ),
    decreases left_rows.len(),
{
    if left_rows.len() > 0 {
        lemma_left_pass_left_eq_full(left_rows.drop_last(), right_rows, li, ri, nonkey);
    }
}

/// The join cardinality laws: an inner join emits no more rows than a left
/// join, a left join no more than a full join, and a left join at least one
/// row per left row.
pub proof fn lemma_join_cardinality(
    left_rows: Seq<Seq<ValueV>>,
    right_rows: Seq<Seq<ValueV>>,
    li: Seq<int>,
    ri: Seq<int>,
    nonkey: Seq<int>,
    nleft: int,
)
    ensures
        spec_left_pass(JoinType::Inner, left_rows, right_rows, li, ri, nonkey).len()
            <= spec_left_pass(JoinType::Left, left_rows, right_rows, li, ri, nonkey).len(),
        spec_left_pass(JoinType::Left, left_rows, right_rows, li, ri, nonkey).len()
            <= spec_join_rows(JoinType::Full, left_rows, right_rows, li, ri, nonkey, nleft).len(),
        spec_left_pass(JoinType::Left, left_rows, right_rows, li, ri, nonkey).len()
            >= left_rows.len(),
    decreases left_rows.len(),
{
    lemma_left_pass_left_eq_full(left_rows, right_rows, li, ri, nonkey);
    if left_rows.len() > 0 {
        lemma_join_cardinality(left_rows.drop_last(), right_rows, li, ri, nonkey, nleft);
    }
}

/// A left join has exactly one output row per left row when every left row
/// matches exactly one right row.  (With several matching right rows a left
/// row contributes one output row per match, so the bound is not an
/// equality in general.)
pub proof fn lemma_left_join_exact(
    left_rows: Seq<Seq<ValueV>>,
    right_rows: Seq<Seq<ValueV>>,
    li: Seq<int>,
    ri: Seq<int>,
    nonkey: Seq<int>,
)
    requires
        forall|i: int|
            0 <= i < left_rows.len() ==> spec_matched_rows(
                #[trigger] left_rows[i],
                right_rows,
                li,
                ri,
                nonkey,
            ).len() == 1,
    ensures
        spec_left_pass(JoinType::Left, left_rows, right_rows, li, ri, nonkey).len()
            == left_rows.len(),
    decreases left_rows.len(),
{
    if left_rows.len() > 0 {
        assert forall|i: int|
            0 <= i < left_rows.drop_last().len() implies spec_matched_rows(
            #[trigger] left_rows.drop_last()[i],
            right_rows,
            li,
            ri,
            nonkey,
        ).len() == 1 by {
            assert(left_rows.drop_last()[i] == left_rows[i]);
        }
        lemma_left_join_exact(left_rows.drop_last(), right_rows, li, ri, nonkey);
        assert(left_rows.last() == left_rows[left_rows.len() - 1]);
    }
}

/// With empty key lists every right row matches every left row, so one left
/// row contributes one combined row per right row.
pub proof fn lemma_matched_rows_empty_keys(
    lrow: Seq<ValueV>,
    right_rows: Seq<Seq<ValueV>>,
    nonkey: Seq<int>,
)
    ensures
        spec_matched_rows(lrow, right_rows, Seq::empty(), Seq::empty(), nonkey).len()
            == right_rows.len(),
    decreases right_rows.len(),
{
    if right_rows.len() > 0 {
        lemma_matched_rows_empty_keys(lrow, right_rows.drop_last(), nonkey);
        assert(spec_key(lrow, Seq::empty()) =~= Seq::<ValueV>::empty());
        assert(spec_key(right_rows.last(), Seq::empty()) =~= Seq::<ValueV>::empty());
    }
}

/// A cross join emits exactly one row per pair of input rows.
pub proof fn lemma_cross_cardinality(
    left_rows: Seq<Seq<ValueV>>,
    right_rows: Seq<Seq<ValueV>>,
    nonkey: Seq<int>,
)
    ensures
        spec_left_pass(JoinType::Cross, left_rows, right_rows, Seq::empty(), Seq::empty(), nonkey).len()
            == left_rows.len() * right_rows.len(),
    decreases left_rows.len(),
{
    let m = right_rows.len() as int;
    if left_rows.len() == 0 {
        assert(left_rows.len() * right_rows.len() == 0) by (nonlinear_arith)
            requires left_rows.len() == 0;
    } else {
        lemma_cross_cardinality(left_rows.drop_last(), right_rows, nonkey);
        lemma_matched_rows_empty_keys(left_rows.last(), right_rows, nonkey);
        let n1 = left_rows.drop_last().len() as int;
        assert((n1 + 1) * m == n1 * m + m) by (nonlinear_arith);
    }
}

} // verus!
