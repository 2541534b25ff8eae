//! Transform operators: column projection, renaming, constant column
//! addition, type casting and column removal.

use vstd::prelude::*;

use crate::data::DataSet;
use crate::data::DataType;
use crate::data::Value;
use crate::data::Field;
use crate::data::FieldV;
use crate::data::Row;
use crate::data::Schema;
use crate::data::lemma_col_index;
use crate::data::spec_col_index;
use crate::processing::FloatOps;
use crate::processing::ProcessingError;
use crate::processing::project_row;
use crate::text::concat3;
use crate::text::eq_ignore_ascii_case;
use crate::text::i64_to_string;
use crate::text::parse_i64;
use crate::text::spec_parse_i64;
use crate::text::spec_eq_ignore_ascii_case;
use crate::text::spec_int_string;
use crate::data::ValueV;
use vstd::string::StringExecFns;

verus! {

/// Select an explicit, ordered list of columns.
pub struct SelectTransform {
    columns: Vec<String>,
}

impl View for SelectTransform {
    type V = Seq<Seq<char>>;

    closed spec fn view(&self) -> Seq<Seq<char>> {
        Seq::new(self.columns@.len(), |i: int| self.columns@[i]@)
    }
}

/// The schema a selection produces: the first-match field of each requested
/// name, in request order.
pub open spec fn spec_select_schema(schema: Seq<FieldV>, cols: Seq<Seq<char>>) -> Seq<FieldV> {
    Seq::new(cols.len(), |k: int| schema[spec_col_index(schema, cols[k])])
}

/// The row a selection produces from `row`.
pub open spec fn spec_select_row(
    schema: Seq<FieldV>,
    cols: Seq<Seq<char>>,
    row: Seq<crate::data::ValueV>,
) -> Seq<crate::data::ValueV> {
    Seq::new(cols.len(), |k: int| row[spec_col_index(schema, cols[k])])
}

/// What a successful selection guarantees: every requested name resolves,
/// and the output is the projected schema and rows with the metadata
/// carried over.
pub open spec fn spec_select_ok(
    cols: Seq<Seq<char>>,
    input: crate::data::DataSetV,
    out: crate::data::DataSetV,
) -> bool {
    &&& forall|k: int| 0 <= k < cols.len() ==> spec_col_index(input.schema, #[trigger] cols[k]) >= 0
    &&& out.schema == spec_select_schema(input.schema, cols)
    &&& out.data.len() == input.data.len()
    &&& forall|i: int|
        0 <= i < input.data.len() ==> #[trigger] out.data[i] == spec_select_row(
            input.schema,
            cols,
            input.data[i],
        )
    &&& out.metadata == input.metadata
}

/// When a selection fails: some requested name does not resolve.
pub open spec fn spec_select_err(
    cols: Seq<Seq<char>>,
    input: crate::data::DataSetV,
    e: ProcessingError,
) -> bool {
    e is InvalidArgument && (exists|k: int|
        0 <= k < cols.len() && spec_col_index(input.schema, #[trigger] cols[k]) == -1)
}

impl SelectTransform {
    /// Create a new select transform with the given column names.
    pub fn new(columns: Vec<String>) -> (r: SelectTransform)
        ensures
            r@.len() == columns@.len(),
            forall|i: int| 0 <= i < columns@.len() ==> r@[i] == (#[trigger] columns@[i])@,
    {
        SelectTransform { columns }
    }

    /// Project the selected columns, in order.  Succeeds exactly when every
    /// requested name resolves to a field; an unknown name is an
    /// `InvalidArgument` error.  Each output row holds copies of the
    /// first-match column values of the corresponding input row; metadata is
    /// carried over.
    pub fn process(&self, input: &DataSet) -> (r: Result<DataSet, ProcessingError>)
        requires
            input.wf(),
        ensures
            match r {
                Ok(out) => spec_select_ok(self@, input@, out@) && out.wf(),
                Err(e) => spec_select_err(self@, input@, e),
            },
    {
        let ghost schema = input@.schema;
        let mut indices: Vec<usize> = Vec::new();
        let mut selected_fields: Vec<Field> = Vec::new();
        let mut c: usize = 0;
        while c < self.columns.len()
            invariant
                c <= self.columns.len(),
                indices@.len() == c,
                selected_fields@.len() == c,
                schema == input@.schema,
                forall|k: int|
                    0 <= k < c ==> spec_col_index(schema, self@[k]) == (
                    #[trigger] indices@[k]) as int,
                forall|k: int|
                    0 <= k < c ==> (#[trigger] selected_fields@[k])@ == schema[indices@[k] as int],
                forall|k: int| 0 <= k < c ==> (#[trigger] indices@[k]) < schema.len(),
            decreases self.columns.len() - c,
        {
            let col = &self.columns[c];
            match input.schema.col_index(col.as_str()) {
                Some(i) => {
                    proof {
                        assert(self@[c as int] == col@);
                        lemma_col_index(schema, col@);
                    }
                    indices.push(i);
                    selected_fields.push(input.schema.fields[i].clone());
                },
                None => {
                    proof {
                        assert(self@[c as int] == col@);
                    }
                    return Err(
                        ProcessingError::InvalidArgument(
                            concat3("Column '", col.as_str(), "' not found"),
                        ),
                    );
                },
            }
            c = c + 1;
        }
        let out_schema = Schema { fields: selected_fields };
        proof {
            assert(out_schema@ =~= spec_select_schema(schema, self@));
        }
        let mut data: Vec<Row> = Vec::new();
        let mut i: usize = 0;
        while i < input.data.len()
            invariant
                i <= input.data.len(),
                input.wf(),
                schema == input@.schema,
                indices@.len() == self@.len(),
                forall|k: int|
                    0 <= k < indices@.len() ==> spec_col_index(schema, self@[k]) == (
                    #[trigger] indices@[k]) as int,
                forall|k: int| 0 <= k < indices@.len() ==> (#[trigger] indices@[k]) < schema.len(),
                data@.len() == i,
                forall|j: int|
                    0 <= j < i ==> (#[trigger] data@[j])@ == spec_select_row(
                        schema,
                        self@,
                        input@.data[j],
                    ),
            decreases input.data.len() - i,
        {
            proof {
                assert(input@.data[i as int].len() == schema.len());
                assert(input@.data[i as int] == input.data@[i as int]@);
            }
            let row = project_row(&input.data[i], &indices);
            proof {
                assert forall|k: int|
                    0 <= k < row@.len() implies row@[k] == spec_select_row(
                    schema,
                    self@,
                    input@.data[i as int],
                )[k] by {
                    let idx = indices@[k];
                    assert(row@[k] == input@.data[i as int][idx as int]);
                }
                assert(row@ =~= spec_select_row(schema, self@, input@.data[i as int]));
            }
            data.push(row);
            i = i + 1;
        }
        let out = DataSet { schema: out_schema, data, metadata: input.metadata.clone() };
        proof {
            assert forall|k: int|
                0 <= k < self@.len() implies spec_col_index(input@.schema, #[trigger] self@[k])
                >= 0 by {
                let idx = indices@[k];
            }
            assert(out@.data =~= Seq::new(
                input@.data.len(),
                |j: int| spec_select_row(schema, self@, input@.data[j]),
            ));
        }
        Ok(out)
    }
}


// ---------------------------------------------------------------------------
// Drop columns
// ---------------------------------------------------------------------------

/// Whether `name` occurs in `cols`.
pub open spec fn spec_name_in(cols: Seq<Seq<char>>, name: Seq<char>) -> bool {
    exists|k: int| 0 <= k < cols.len() && cols[k] == name
}

/// The indices of the fields from position `i` on that are kept when the
/// named columns are dropped, in order.
pub open spec fn spec_kept_from(schema: Seq<FieldV>, cols: Seq<Seq<char>>, i: int) -> Seq<int>
    decreases schema.len() - i,
{
    if i < 0 || i >= schema.len() {
        Seq::empty()
    } else if spec_name_in(cols, schema[i].name) {
        spec_kept_from(schema, cols, i + 1)
    } else {
        seq![i].add(spec_kept_from(schema, cols, i + 1))
    }
}

/// The indices of the fields that are kept when the named columns are
/// dropped.
pub open spec fn spec_kept(schema: Seq<FieldV>, cols: Seq<Seq<char>>) -> Seq<int> {
    spec_kept_from(schema, cols, 0)
}

/// Every kept index is a position of `schema` that does not bear a dropped
/// name.
pub proof fn lemma_kept_from(schema: Seq<FieldV>, cols: Seq<Seq<char>>, i: int)
    ensures
        forall|k: int|
            0 <= k < spec_kept_from(schema, cols, i).len() ==> i <= #[trigger] spec_kept_from(
                schema,
                cols,
                i,
            )[k] < schema.len(),
    decreases schema.len() - i,
{
    if 0 <= i < schema.len() {
        lemma_kept_from(schema, cols, i + 1);
        if !spec_name_in(cols, schema[i].name) {
            assert forall|k: int|
                0 <= k < spec_kept_from(schema, cols, i).len() implies i
                <= #[trigger] spec_kept_from(schema, cols, i)[k] < schema.len() by {
                if k > 0 {
                    assert(spec_kept_from(schema, cols, i)[k] == spec_kept_from(
                        schema,
                        cols,
                        i + 1,
                    )[k - 1]);
                }
            }
        }
    }
}

/// Whether `cols` contains a string equal to `name`.
pub fn name_in_cols(cols: &Vec<String>, name: &str) -> (r: bool)
    ensures
        r == spec_name_in(Seq::new(cols@.len(), |k: int| cols@[k]@), name@),
{
    let ghost cv = Seq::new(cols@.len(), |k: int| cols@[k]@);
    let mut k: usize = 0;
    while k < cols.len()
        invariant
            k <= cols.len(),
            cv == Seq::new(cols@.len(), |j: int| cols@[j]@),
            forall|j: int| 0 <= j < k ==> cv[j] != name@,
        decreases cols.len() - k,
    {
        if crate::data::str_eq(cols[k].as_str(), name) {
            proof {
                assert(cv[k as int] == name@);
            }
            return true;
        }
        k = k + 1;
    }
    false
}

/// Remove named columns; unknown names are silently ignored, and the result
/// keeps the relative order of the retained columns.
pub struct DropColumnsTransform {
    columns: Vec<String>,
}

impl View for DropColumnsTransform {
    type V = Seq<Seq<char>>;

    closed spec fn view(&self) -> Seq<Seq<char>> {
        Seq::new(self.columns@.len(), |i: int| self.columns@[i]@)
    }
}

/// What a column drop guarantees (it never fails): the kept columns'
/// schema and rows, metadata carried over.
pub open spec fn spec_drop_ok(
    cols: Seq<Seq<char>>,
    input: crate::data::DataSetV,
    out: crate::data::DataSetV,
) -> bool {
    let kept = spec_kept(input.schema, cols);
    &&& out.schema == Seq::new(kept.len(), |k: int| input.schema[kept[k]])
    &&& out.data.len() == input.data.len()
    &&& forall|i: int|
        0 <= i < input.data.len() ==> #[trigger] out.data[i] == Seq::new(
            kept.len(),
            |k: int| input.data[i][kept[k]],
        )
    &&& out.metadata == input.metadata
}

impl DropColumnsTransform {
    /// Create a new drop columns transform.
    pub fn new(columns: Vec<String>) -> (r: DropColumnsTransform)
        ensures
            r@.len() == columns@.len(),
            forall|i: int| 0 <= i < columns@.len() ==> r@[i] == (#[trigger] columns@[i])@,
    {
        DropColumnsTransform { columns }
    }

    /// Keep every column whose name is not listed, in order.  Never fails:
    /// unknown names are ignored.  Each output row holds copies of the kept
    /// column values of the corresponding input row; metadata is carried
    /// over.
    pub fn process(&self, input: &DataSet) -> (r: Result<DataSet, ProcessingError>)
        requires
            input.wf(),
        ensures
            r is Ok,
            match r {
                Ok(out) => spec_drop_ok(self@, input@, out@) && out.wf(),
                Err(e) => false,
            },
    {
        let ghost schema = input@.schema;
        let ghost kept = spec_kept(schema, self@);
        let mut indices: Vec<usize> = Vec::new();
        let mut kept_fields: Vec<Field> = Vec::new();
        let mut i: usize = 0;
        while i < input.schema.fields.len()
            invariant
                i <= input.schema.fields.len(),
                schema == input@.schema,
                kept == spec_kept(schema, self@),
                self@ == Seq::new(self.columns@.len(), |k: int| self.columns@[k]@),
                indices@.len() == kept_fields@.len(),
                kept == Seq::new(indices@.len(), |k: int| (indices@[k]) as int).add(
                    spec_kept_from(schema, self@, i as int),
                ),
                forall|k: int| 0 <= k < indices@.len() ==> (#[trigger] indices@[k]) < schema.len(),
                forall|k: int|
                    0 <= k < kept_fields@.len() ==> (#[trigger] kept_fields@[k])@ == schema[indices@[k] as int],
            decreases input.schema.fields.len() - i,
        {
            let ghost before = Seq::new(indices@.len(), |k: int| (indices@[k]) as int);
            let keep = !name_in_cols(&self.columns, input.schema.fields[i].name.as_str());
            proof {
                assert(schema[i as int].name == input.schema.fields@[i as int].name@);
            }
            if keep {
                indices.push(i);
                kept_fields.push(input.schema.fields[i].clone());
                proof {
                    assert(Seq::new(indices@.len(), |k: int| (indices@[k]) as int) =~= before.push(
                        i as int,
                    ));
                    assert(spec_kept_from(schema, self@, i as int) == seq![i as int].add(
                        spec_kept_from(schema, self@, i + 1),
                    ));
                    assert(before.push(i as int).add(spec_kept_from(schema, self@, i + 1)) =~= before.add(
                        seq![i as int].add(spec_kept_from(schema, self@, i + 1)),
                    ));
                }
            } else {
                proof {
                    assert(spec_kept_from(schema, self@, i as int) == spec_kept_from(
                        schema,
                        self@,
                        i + 1,
                    ));
                }
            }
            i = i + 1;
        }
        proof {
            assert(spec_kept_from(schema, self@, i as int) =~= Seq::<int>::empty());
            assert(kept =~= Seq::new(indices@.len(), |k: int| (indices@[k]) as int));
            lemma_kept_from(schema, self@, 0);
        }
        let out_schema = Schema { fields: kept_fields };
        proof {
            assert forall|k: int|
                0 <= k < kept.len() implies out_schema@[k] == schema[kept[k]] by {
                assert(kept[k] == indices@[k] as int);
            }
            assert(out_schema@ =~= Seq::new(kept.len(), |k: int| schema[kept[k]]));
        }
        let mut data: Vec<Row> = Vec::new();
        let mut r: usize = 0;
        while r < input.data.len()
            invariant
                r <= input.data.len(),
                input.wf(),
                schema == input@.schema,
                kept == spec_kept(schema, self@),
                kept.len() == indices@.len(),
                forall|k: int| 0 <= k < indices@.len() ==> (#[trigger] indices@[k]) < schema.len(),
                forall|k: int| 0 <= k < kept.len() ==> #[trigger] kept[k] == indices@[k] as int,
                data@.len() == r,
                forall|j: int|
                    0 <= j < r ==> (#[trigger] data@[j])@ == Seq::new(
                        kept.len(),
                        |k: int| input@.data[j][kept[k]],
                    ),
            decreases input.data.len() - r,
        {
            proof {
                assert(input@.data[r as int].len() == schema.len());
                assert(input@.data[r as int] == input.data@[r as int]@);
            }
            let row = project_row(&input.data[r], &indices);
            proof {
                assert forall|k: int|
                    0 <= k < row@.len() implies row@[k] == Seq::new(
                    kept.len(),
                    |k2: int| input@.data[r as int][kept[k2]],
                )[k] by {
                    let idx = indices@[k];
                    assert(row@[k] == input@.data[r as int][idx as int]);
                }
                assert(row@ =~= Seq::new(kept.len(), |k: int| input@.data[r as int][kept[k]]));
            }
            data.push(row);
            r = r + 1;
        }
        let out = DataSet { schema: out_schema, data, metadata: input.metadata.clone() };
        proof {
            assert(out@.data =~= Seq::new(
                input@.data.len(),
                |j: int| Seq::new(kept.len(), |k: int| input@.data[j][kept[k]]),
            ));
        }
        Ok(out)
    }
}

// ---------------------------------------------------------------------------
// Add a constant column
// ---------------------------------------------------------------------------

/// Append a new column holding a constant value in every row.
pub struct AddColumnTransform {
    pub name: String,
    pub data_type: DataType,
    pub nullable: bool,
    pub value: Value,
}

impl AddColumnTransform {
    /// Create a new add column transform with a constant value.
    pub fn new(name: &str, data_type: DataType, nullable: bool, value: Value) -> (r:
        AddColumnTransform)
        ensures
            r.name@ == name@,
            r.data_type == data_type,
            r.nullable == nullable,
            r.value@ == value@,
    {
        AddColumnTransform { name: name.to_owned(), data_type, nullable, value }
    }

    /// Create a new add column transform with a constant value.
    pub fn with_constant(name: &str, data_type: DataType, nullable: bool, value: Value) -> (r:
        AddColumnTransform)
        ensures
            r.name@ == name@,
            r.data_type == data_type,
            r.nullable == nullable,
            r.value@ == value@,
    {
        AddColumnTransform::new(name, data_type, nullable, value)
    }

    /// What a successful constant-column addition guarantees.
    pub open spec fn spec_ok(&self, input: crate::data::DataSetV, out: crate::data::DataSetV) -> bool {
        &&& spec_col_index(input.schema, self.name@) == -1
        &&& out.schema == input.schema.push(
            FieldV { name: self.name@, data_type: self.data_type, nullable: self.nullable },
        )
        &&& out.data.len() == input.data.len()
        &&& forall|i: int|
            0 <= i < input.data.len() ==> #[trigger] out.data[i] == input.data[i].push(self.value@)
        &&& out.metadata == input.metadata
    }

    /// When a constant-column addition fails: the name is already taken.
    pub open spec fn spec_err(&self, input: crate::data::DataSetV, e: ProcessingError) -> bool {
        e is InvalidArgument && spec_col_index(input.schema, self.name@) >= 0
    }

    /// Append the column.  Succeeds exactly when no field already bears the
    /// new column's name; a duplicate name is an `InvalidArgument` error.
    /// Every output row is the input row with a copy of the constant value
    /// appended; metadata is carried over.
    pub fn process(&self, input: &DataSet) -> (r: Result<DataSet, ProcessingError>)
        requires
            input.wf(),
        ensures
            match r {
                Ok(out) => self.spec_ok(input@, out@) && out.wf(),
                Err(e) => self.spec_err(input@, e),
            },
    {
        let ghost schema = input@.schema;
        match input.schema.col_index(self.name.as_str()) {
            Some(_) => {
                proof {
                    lemma_col_index(schema, self.name@);
                }
                return Err(
                    ProcessingError::InvalidArgument(
                        concat3("Column '", self.name.as_str(), "' already exists"),
                    ),
                );
            },
            None => {},
        }
        let mut fields: Vec<Field> = Vec::new();
        let mut i: usize = 0;
        while i < input.schema.fields.len()
            invariant
                i <= input.schema.fields.len(),
                schema == input@.schema,
                fields@.len() == i,
                forall|j: int| 0 <= j < i ==> (#[trigger] fields@[j])@ == schema[j],
            decreases input.schema.fields.len() - i,
        {
            fields.push(input.schema.fields[i].clone());
            i = i + 1;
        }
        fields.push(
            Field {
                name: self.name.clone(),
                data_type: self.data_type.clone(),
                nullable: self.nullable,
            },
        );
        let out_schema = Schema { fields };
        proof {
            assert(out_schema@ =~= schema.push(
                FieldV { name: self.name@, data_type: self.data_type, nullable: self.nullable },
            ));
        }
        let mut data: Vec<Row> = Vec::new();
        let mut r: usize = 0;
        while r < input.data.len()
            invariant
                r <= input.data.len(),
                input.wf(),
                schema == input@.schema,
                data@.len() == r,
                forall|j: int|
                    0 <= j < r ==> (#[trigger] data@[j])@ == input@.data[j].push(self.value@),
            decreases input.data.len() - r,
        {
            let mut values = crate::data::clone_values(&input.data[r].values);
            values.push(self.value.clone());
            let row = Row { values };
            proof {
                assert(input@.data[r as int] == input.data@[r as int]@);
                assert(row@ =~= input@.data[r as int].push(self.value@));
            }
            data.push(row);
            r = r + 1;
        }
        let out = DataSet { schema: out_schema, data, metadata: input.metadata.clone() };
        proof {
            assert(out@.data =~= Seq::new(
                input@.data.len(),
                |j: int| input@.data[j].push(self.value@),
            ));
        }
        Ok(out)
    }
}


// ---------------------------------------------------------------------------
// Rename columns
// ---------------------------------------------------------------------------

/// One rename step: the first field named `old` takes the name `new`, or
/// `None` when no field is named `old`.
pub open spec fn spec_rename_one(schema: Seq<FieldV>, old_name: Seq<char>, new_name: Seq<char>) -> Option<
    Seq<FieldV>,
> {
    let i = spec_col_index(schema, old_name);
    if i < 0 {
        Option::None
    } else {
        Option::Some(
            schema.update(
                i,
                FieldV {
                    name: new_name,
                    data_type: schema[i].data_type,
                    nullable: schema[i].nullable,
                },
            ),
        )
    }
}

/// The schema after applying the rename pairs in order; `None` as soon as an
/// old name is missing.
pub open spec fn spec_apply_renames(
    schema: Seq<FieldV>,
    renames: Seq<(Seq<char>, Seq<char>)>,
) -> Option<Seq<FieldV>>
    decreases renames.len(),
{
    if renames.len() == 0 {
        Option::Some(schema)
    } else {
        match spec_rename_one(schema, renames[0].0, renames[0].1) {
            Option::Some(s2) => spec_apply_renames(s2, renames.drop_first()),
            Option::None => Option::None,
        }
    }
}

/// Appending one rename applies it after the earlier ones.
pub proof fn lemma_apply_renames_snoc(
    schema: Seq<FieldV>,
    renames: Seq<(Seq<char>, Seq<char>)>,
    r: (Seq<char>, Seq<char>),
)
    ensures
        spec_apply_renames(schema, renames.push(r)) == (match spec_apply_renames(schema, renames) {
            Option::Some(s2) => spec_rename_one(s2, r.0, r.1),
            Option::None => Option::None::<Seq<FieldV>>,
        }),
    decreases renames.len(),
{
    if renames.len() == 0 {
        assert(renames.push(r).drop_first() =~= renames);
        assert(renames.push(r)[0] == r);
        match spec_rename_one(schema, r.0, r.1) {
            Option::Some(s2) => {
                assert(spec_apply_renames(s2, renames) == Option::Some(s2));
            },
            Option::None => {},
        }
    } else {
        assert(renames.push(r)[0] == renames[0]);
        assert(renames.push(r).drop_first() =~= renames.drop_first().push(r));
        match spec_rename_one(schema, renames[0].0, renames[0].1) {
            Option::Some(s2) => {
                lemma_apply_renames_snoc(s2, renames.drop_first(), r);
            },
            Option::None => {},
        }
    }
}

/// Whether two fields share a name.
pub open spec fn spec_has_dup_names(schema: Seq<FieldV>) -> bool {
    exists|i: int, j: int|
        0 <= i < j < schema.len() && (#[trigger] schema[i]).name == (#[trigger] schema[j]).name
}

/// The view of a field vector.
pub open spec fn spec_fields_view(fields: Seq<Field>) -> Seq<FieldV> {
    Seq::new(fields.len(), |i: int| fields[i]@)
}

/// Whether any two fields share a name; agrees with [`spec_has_dup_names`].
pub fn has_dup_names(fields: &Vec<Field>) -> (r: bool)
    ensures
        r == spec_has_dup_names(spec_fields_view(fields@)),
{
    let ghost sv = spec_fields_view(fields@);
    let mut i: usize = 0;
    while i < fields.len()
        invariant
            i <= fields.len(),
            sv == spec_fields_view(fields@),
            forall|a: int, b: int| 0 <= a < b < sv.len() && a < i ==> (#[trigger] sv[a]).name != (
            #[trigger] sv[b]).name,
        decreases fields.len() - i,
    {
        let mut j: usize = i + 1;
        while j < fields.len()
            invariant
                i < j <= fields.len() || (i >= fields.len() && j == i + 1),
                i < fields.len(),
                sv == spec_fields_view(fields@),
                forall|b: int| i < b < j ==> (#[trigger] sv[b]).name != sv[i as int].name,
            decreases fields.len() - j,
        {
            if crate::data::str_eq(fields[i].name.as_str(), fields[j].name.as_str()) {
                proof {
                    assert(sv[i as int].name == sv[j as int].name);
                }
                return true;
            }
            j = j + 1;
        }
        i = i + 1;
    }
    false
}

/// The index of the first field of `fields` with this name, if any.
pub fn find_field(fields: &Vec<Field>, name: &str) -> (r: Option<usize>)
    ensures
        match r {
            Some(i) => spec_col_index(spec_fields_view(fields@), name@) == i as int,
            None => spec_col_index(spec_fields_view(fields@), name@) == -1,
        },
{
    let ghost sv = spec_fields_view(fields@);
    let mut i: usize = 0;
    while i < fields.len()
        invariant
            i <= fields.len(),
            sv == spec_fields_view(fields@),
            forall|j: int| 0 <= j < i ==> (#[trigger] sv[j]).name != name@,
        decreases fields.len() - i,
    {
        if crate::data::str_eq(fields[i].name.as_str(), name) {
            proof {
                assert(sv[i as int].name == name@);
                crate::data::lemma_col_index_is(sv, name@, i as int);
            }
            return Some(i);
        }
        proof {
            assert(sv[i as int].name != name@);
        }
        i = i + 1;
    }
    proof {
        crate::data::lemma_col_index_none(sv, name@);
    }
    None
}

/// Rename columns by (old, new) pairs, applied in order.
pub struct RenameTransform {
    renames: Vec<(String, String)>,
}

impl View for RenameTransform {
    type V = Seq<(Seq<char>, Seq<char>)>;

    closed spec fn view(&self) -> Seq<(Seq<char>, Seq<char>)> {
        Seq::new(self.renames@.len(), |i: int| (self.renames@[i].0@, self.renames@[i].1@))
    }
}

/// What a successful rename guarantees: the renames applied in order, no
/// duplicate names afterwards, rows and metadata carried over.
pub open spec fn spec_rename_ok(
    renames: Seq<(Seq<char>, Seq<char>)>,
    input: crate::data::DataSetV,
    out: crate::data::DataSetV,
) -> bool {
    &&& spec_apply_renames(input.schema, renames) == Option::Some(out.schema)
    &&& !spec_has_dup_names(out.schema)
    &&& out.data == input.data
    &&& out.metadata == input.metadata
}

/// When a rename fails: an old name is missing, or the renamed schema
/// bears a duplicate name.
pub open spec fn spec_rename_err(
    renames: Seq<(Seq<char>, Seq<char>)>,
    input: crate::data::DataSetV,
    e: ProcessingError,
) -> bool {
    e is InvalidArgument && (spec_apply_renames(input.schema, renames) is None
        || spec_has_dup_names(spec_apply_renames(input.schema, renames)->0))
}

impl RenameTransform {
    /// Create a new rename transform with the given (old, new) name pairs.
    pub fn new(renames: Vec<(String, String)>) -> (r: RenameTransform)
        ensures
            r@.len() == renames@.len(),
            forall|i: int|
                0 <= i < renames@.len() ==> r@[i] == ((#[trigger] renames@[i]).0@, renames@[i].1@),
    {
        RenameTransform { renames }
    }

    /// Apply the renames in order.  Succeeds exactly when every old name
    /// resolves (first match, against the schema as renamed so far) and the
    /// renamed schema has no duplicate names; both failures are
    /// `InvalidArgument` errors.  Rows are copied verbatim; metadata is
    /// carried over.
    pub fn process(&self, input: &DataSet) -> (r: Result<DataSet, ProcessingError>)
        requires
            input.wf(),
        ensures
            match r {
                Ok(out) => spec_rename_ok(self@, input@, out@) && out.wf(),
                Err(e) => spec_rename_err(self@, input@, e),
            },
    {
        let ghost schema = input@.schema;
        let mut fields: Vec<Field> = Vec::new();
        let mut i: usize = 0;
        while i < input.schema.fields.len()
            invariant
                i <= input.schema.fields.len(),
                schema == input@.schema,
                fields@.len() == i,
                forall|j: int| 0 <= j < i ==> (#[trigger] fields@[j])@ == schema[j],
            decreases input.schema.fields.len() - i,
        {
            fields.push(input.schema.fields[i].clone());
            i = i + 1;
        }
        proof {
            assert(spec_fields_view(fields@) =~= schema);
            assert(self@.take(0) =~= Seq::<(Seq<char>, Seq<char>)>::empty());
        }
        let mut k: usize = 0;
        while k < self.renames.len()
            invariant
                k <= self.renames.len(),
                schema == input@.schema,
                self@ == Seq::new(
                    self.renames@.len(),
                    |i: int| (self.renames@[i].0@, self.renames@[i].1@),
                ),
                spec_apply_renames(schema, self@.take(k as int)) == Option::Some(
                    spec_fields_view(fields@),
                ),
                fields@.len() == schema.len(),
            decreases self.renames.len() - k,
        {
            let ghost cur = spec_fields_view(fields@);
            let pair = &self.renames[k];
            let found = find_field(&fields, pair.0.as_str());
            let idx: usize;
            match found {
                Some(fi) => {
                    idx = fi;
                },
                None => {
                    proof {
                        assert(self@.take(k as int).push(self@[k as int]) =~= self@.take(k + 1));
                        lemma_apply_renames_snoc(schema, self@.take(k as int), self@[k as int]);
                        assert(spec_apply_renames(schema, self@.take(k + 1)) is None);
                        lemma_apply_renames_prefix_none(schema, self@, k + 1);
                    }
                    return Err(
                        ProcessingError::InvalidArgument(
                            concat3("Column '", pair.0.as_str(), "' not found"),
                        ),
                    );
                },
            }
            proof {
                crate::data::lemma_col_index(cur, pair.0@);
            }
            let dt = fields[idx].data_type.clone();
            let nb = fields[idx].nullable;
            fields[idx] = Field { name: pair.1.clone(), data_type: dt, nullable: nb };
            proof {
                assert(spec_fields_view(fields@) =~= cur.update(
                    idx as int,
                    FieldV {
                        name: self@[k as int].1,
                        data_type: cur[idx as int].data_type,
                        nullable: cur[idx as int].nullable,
                    },
                ));
                assert(self@.take(k as int).push(self@[k as int]) =~= self@.take(k + 1));
                lemma_apply_renames_snoc(schema, self@.take(k as int), self@[k as int]);
            }
            k = k + 1;
        }
        proof {
            assert(self@.take(k as int) =~= self@);
        }
        if has_dup_names(&fields) {
            return Err(
                ProcessingError::InvalidArgument(
                    String::from_str("Duplicate column name after rename"),
                ),
            );
        }
        let out_schema = Schema { fields };
        proof {
            assert(out_schema@ =~= spec_fields_view(out_schema.fields@));
        }
        let mut data: Vec<Row> = Vec::new();
        let mut rix: usize = 0;
        while rix < input.data.len()
            invariant
                rix <= input.data.len(),
                data@.len() == rix,
                forall|j: int| 0 <= j < rix ==> (#[trigger] data@[j])@ == input@.data[j],
            decreases input.data.len() - rix,
        {
            proof {
                assert(input@.data[rix as int] == input.data@[rix as int]@);
            }
            data.push(input.data[rix].clone());
            rix = rix + 1;
        }
        let out = DataSet { schema: out_schema, data, metadata: input.metadata.clone() };
        proof {
            assert(out@.data =~= input@.data);
        }
        Ok(out)
    }
}

/// Once a prefix of the renames fails, the whole list fails.
pub proof fn lemma_apply_renames_prefix_none(
    schema: Seq<FieldV>,
    renames: Seq<(Seq<char>, Seq<char>)>,
    k: int,
)
    requires
        0 <= k <= renames.len(),
        spec_apply_renames(schema, renames.take(k)) is None,
    ensures
        spec_apply_renames(schema, renames) is None,
    decreases renames.len(),
{
    if k > 0 && renames.len() > 0 {
        assert(renames.take(k)[0] == renames[0]);
        match spec_rename_one(schema, renames[0].0, renames[0].1) {
            Option::Some(s2) => {
                assert(renames.take(k).drop_first() =~= renames.drop_first().take(k - 1));
                lemma_apply_renames_prefix_none(s2, renames.drop_first(), k - 1);
            },
            Option::None => {},
        }
    }
}


// ---------------------------------------------------------------------------
// Cast a column
// ---------------------------------------------------------------------------

/// What the coercion table says about casting one value to a target type:
/// an exact result, a coercion failure, an unsupported type pair, or a
/// result computed by the floating-point unit.
pub enum CastOutcome {
    Exact(ValueV),
    Fails,
    Unsupported,
    Arithmetic,
}

/// Whether the text reads as true: `true`, `yes` or `1`, case-insensitive.
pub open spec fn spec_truthy(s: Seq<char>) -> bool {
    spec_eq_ignore_ascii_case(s, "true"@) || spec_eq_ignore_ascii_case(s, "yes"@)
        || spec_eq_ignore_ascii_case(s, "1"@)
}

/// Whether the text reads as false: `false`, `no` or `0`, case-insensitive.
pub open spec fn spec_falsy(s: Seq<char>) -> bool {
    spec_eq_ignore_ascii_case(s, "false"@) || spec_eq_ignore_ascii_case(s, "no"@)
        || spec_eq_ignore_ascii_case(s, "0"@)
}

/// The coercion table.  Null casts to null for every target; booleans,
/// integers and strings convert by the exact rules below; conversions in
/// and out of binary64 go through the floating-point unit (`Arithmetic`);
/// anything else is unsupported.
pub open spec fn spec_cast_outcome(v: ValueV, t: DataType) -> CastOutcome {
    match v {
        ValueV::Null => CastOutcome::Exact(ValueV::Null),
        ValueV::Boolean(b) => match t {
            DataType::Boolean => CastOutcome::Exact(ValueV::Boolean(b)),
            DataType::Integer => CastOutcome::Exact(
                ValueV::Integer(
                    if b {
                        1
                    } else {
                        0
                    },
                ),
            ),
            DataType::Float => CastOutcome::Exact(
                ValueV::Float(
                    if b {
                        crate::data::float_bits::F64_ONE_BITS
                    } else {
                        crate::data::float_bits::F64_ZERO_BITS
                    },
                ),
            ),
            DataType::String => CastOutcome::Exact(
                ValueV::String(
                    if b {
                        "true"@
                    } else {
                        "false"@
                    },
                ),
            ),
            _ => CastOutcome::Unsupported,
        },
        ValueV::Integer(i) => match t {
            DataType::Boolean => CastOutcome::Exact(ValueV::Boolean(i != 0)),
            DataType::Integer => CastOutcome::Exact(ValueV::Integer(i)),
            DataType::Float => CastOutcome::Arithmetic,
            DataType::String => CastOutcome::Exact(ValueV::String(spec_int_string(i as int))),
            _ => CastOutcome::Unsupported,
        },
        ValueV::Float(x) => match t {
            DataType::Boolean => CastOutcome::Exact(
                ValueV::Boolean(
                    !crate::data::float_bits::spec_float_eq_bits(
                        x,
                        crate::data::float_bits::F64_ZERO_BITS,
                    ),
                ),
            ),
            DataType::Integer => CastOutcome::Arithmetic,
            DataType::Float => CastOutcome::Exact(ValueV::Float(x)),
            DataType::String => CastOutcome::Arithmetic,
            _ => CastOutcome::Unsupported,
        },
        ValueV::String(s) => match t {
            DataType::Boolean => if spec_truthy(s) {
                CastOutcome::Exact(ValueV::Boolean(true))
            } else if spec_falsy(s) {
                CastOutcome::Exact(ValueV::Boolean(false))
            } else {
                CastOutcome::Fails
            },
            DataType::Integer => match spec_parse_i64(s) {
                Option::Some(i) => CastOutcome::Exact(ValueV::Integer(i)),
                Option::None => CastOutcome::Fails,
            },
            DataType::Float => CastOutcome::Arithmetic,
            DataType::String => CastOutcome::Exact(ValueV::String(s)),
            _ => CastOutcome::Unsupported,
        },
        _ => CastOutcome::Unsupported,
    }
}

/// The variant an `Arithmetic` cast must produce.
pub open spec fn spec_cast_shape(v: ValueV, t: DataType, w: ValueV) -> bool {
    match v {
        ValueV::Integer(_) => t is Float && w is Float,
        ValueV::Float(_) => (t is Integer && w is Integer) || (t is String && w is String),
        ValueV::String(_) => t is Float && w is Float,
        _ => false,
    }
}

/// Whether `w` is an acceptable result of casting `v` to `t`.
pub open spec fn spec_cast_ok_cell(v: ValueV, t: DataType, w: ValueV) -> bool {
    match spec_cast_outcome(v, t) {
        CastOutcome::Exact(u) => w == u,
        CastOutcome::Arithmetic => spec_cast_shape(v, t, w),
        _ => false,
    }
}

/// Whether casting `v` to `t` is allowed to fail: a coercion failure, an
/// unsupported pair, or a textual parse whose success the floating-point
/// unit decides.
pub open spec fn spec_cast_can_fail(v: ValueV, t: DataType) -> bool {
    match spec_cast_outcome(v, t) {
        CastOutcome::Fails => true,
        CastOutcome::Unsupported => true,
        CastOutcome::Arithmetic => v is String,
        CastOutcome::Exact(_) => false,
    }
}

/// Cast one value to the target type, following the coercion table.
pub fn cast_value<F: FloatOps>(v: &Value, target: &DataType, ops: &F) -> (r: Result<
    Value,
    ProcessingError,
>)
    ensures
        match r {
            Ok(w) => spec_cast_ok_cell(v@, *target, w@),
            Err(e) => spec_cast_can_fail(v@, *target) && (e is InvalidOperation
                || e is NotSupported),
        },
        !spec_cast_can_fail(v@, *target) ==> r is Ok,
{
    match (v, target) {
        (Value::Null, _) => Ok(Value::Null),
        (Value::Boolean(b), DataType::Boolean) => Ok(Value::Boolean(*b)),
        (Value::Boolean(b), DataType::Integer) => Ok(
            Value::Integer(
                if *b {
                    1
                } else {
                    0
                },
            ),
        ),
        (Value::Boolean(b), DataType::Float) => Ok(
            Value::Float(
                if *b {
                    crate::data::float_bits::F64_ONE_BITS
                } else {
                    crate::data::float_bits::F64_ZERO_BITS
                },
            ),
        ),
        (Value::Boolean(b), DataType::String) => Ok(
            Value::String(
                if *b {
                    String::from_str("true")
                } else {
                    String::from_str("false")
                },
            ),
        ),
        (Value::Integer(i), DataType::Boolean) => Ok(Value::Boolean(*i != 0)),
        (Value::Integer(i), DataType::Integer) => Ok(Value::Integer(*i)),
        (Value::Integer(i), DataType::Float) => Ok(Value::Float(ops.from_int(*i))),
        (Value::Integer(i), DataType::String) => Ok(Value::String(i64_to_string(*i))),
        (Value::Float(x), DataType::Boolean) => Ok(
            Value::Boolean(
                !crate::data::float_bits::float_eq_bits(
                    *x,
                    crate::data::float_bits::F64_ZERO_BITS,
                ),
            ),
        ),
        (Value::Float(x), DataType::Integer) => Ok(Value::Integer(ops.to_int(*x))),
        (Value::Float(x), DataType::Float) => Ok(Value::Float(*x)),
        (Value::Float(x), DataType::String) => Ok(Value::String(ops.format_float(*x))),
        (Value::String(s), DataType::Boolean) => {
            if eq_ignore_ascii_case(s.as_str(), "true") || eq_ignore_ascii_case(s.as_str(), "yes")
                || eq_ignore_ascii_case(s.as_str(), "1") {
                Ok(Value::Boolean(true))
            } else if eq_ignore_ascii_case(s.as_str(), "false") || eq_ignore_ascii_case(
                s.as_str(),
                "no",
            ) || eq_ignore_ascii_case(s.as_str(), "0") {
                Ok(Value::Boolean(false))
            } else {
                Err(
                    ProcessingError::InvalidOperation(
                        concat3("Cannot cast '", s.as_str(), "' to boolean"),
                    ),
                )
            }
        },
        (Value::String(s), DataType::Integer) => {
            match parse_i64(s.as_str()) {
                Some(i) => Ok(Value::Integer(i)),
                None => Err(
                    ProcessingError::InvalidOperation(
                        concat3("Cannot cast '", s.as_str(), "' to integer"),
                    ),
                ),
            }
        },
        (Value::String(s), DataType::Float) => {
            match ops.parse_float(s.as_str()) {
                Some(bits) => Ok(Value::Float(bits)),
                None => Err(
                    ProcessingError::InvalidOperation(
                        concat3("Cannot cast '", s.as_str(), "' to float"),
                    ),
                ),
            }
        },
        (Value::String(s), DataType::String) => Ok(Value::String(s.clone())),
        _ => Err(ProcessingError::NotSupported(String::from_str("Cast not supported"))),
    }
}

/// Convert one named column to a target type in every row.
pub struct CastTransform {
    pub column: String,
    pub target_type: DataType,
}

/// What a successful cast guarantees: the column resolves, its declared
/// type becomes the target, and every row's cell at that column is replaced
/// by an acceptable cast result.
pub open spec fn spec_cast_op_ok(
    column: Seq<char>,
    target: DataType,
    input: crate::data::DataSetV,
    out: crate::data::DataSetV,
) -> bool {
    let col = spec_col_index(input.schema, column);
    &&& col >= 0
    &&& out.schema == input.schema.update(
        col,
        FieldV {
            name: input.schema[col].name,
            data_type: target,
            nullable: input.schema[col].nullable,
        },
    )
    &&& out.data.len() == input.data.len()
    &&& forall|i: int|
        0 <= i < input.data.len() ==> #[trigger] out.data[i] == input.data[i].update(
            col,
            out.data[i][col],
        ) && spec_cast_ok_cell(input.data[i][col], target, out.data[i][col])
    &&& out.metadata == input.metadata
}

/// When a cast fails: the column is missing, or some cell of it is allowed
/// to fail for the target type.
pub open spec fn spec_cast_op_err(
    column: Seq<char>,
    target: DataType,
    input: crate::data::DataSetV,
    e: ProcessingError,
) -> bool {
    let col = spec_col_index(input.schema, column);
    (col == -1 && e is InvalidArgument) || (col >= 0 && (e is InvalidOperation
        || e is NotSupported) && (exists|i: int|
        0 <= i < input.data.len() && spec_cast_can_fail(#[trigger] input.data[i][col], target)))
}

impl CastTransform {
    /// Create a new cast transform.
    pub fn new(column: &str, target_type: DataType) -> (r: CastTransform)
        ensures
            r.column@ == column@,
            r.target_type == target_type,
    {
        CastTransform { column: column.to_owned(), target_type }
    }

    /// Cast the named column in every row.  Fails with `InvalidArgument`
    /// when the column is missing, and with the cast's own error when a cell
    /// cannot be coerced; otherwise every output row is the input row with
    /// that cell replaced by an acceptable cast result, under the schema
    /// with the column's declared type changed to the target.
    pub fn process<F: FloatOps>(&self, input: &DataSet, ops: &F) -> (r: Result<
        DataSet,
        ProcessingError,
    >)
        requires
            input.wf(),
        ensures
            match r {
                Ok(out) => spec_cast_op_ok(self.column@, self.target_type, input@, out@)
                    && out.wf(),
                Err(e) => spec_cast_op_err(self.column@, self.target_type, input@, e),
            },
    {
        let ghost schema = input@.schema;
        let col = match input.schema.col_index(self.column.as_str()) {
            Some(i) => i,
            None => {
                return Err(
                    ProcessingError::InvalidArgument(
                        concat3("Column '", self.column.as_str(), "' not found"),
                    ),
                );
            },
        };
        proof {
            lemma_col_index(schema, self.column@);
        }
        let mut fields: Vec<Field> = Vec::new();
        let mut i: usize = 0;
        while i < input.schema.fields.len()
            invariant
                i <= input.schema.fields.len(),
                schema == input@.schema,
                fields@.len() == i,
                forall|j: int| 0 <= j < i ==> (#[trigger] fields@[j])@ == schema[j],
            decreases input.schema.fields.len() - i,
        {
            fields.push(input.schema.fields[i].clone());
            i = i + 1;
        }
        let name = fields[col].name.clone();
        let nullable = fields[col].nullable;
        fields[col] = Field { name, data_type: self.target_type.clone(), nullable };
        let out_schema = Schema { fields };
        proof {
            assert(out_schema@ =~= schema.update(
                col as int,
                FieldV {
                    name: schema[col as int].name,
                    data_type: self.target_type,
                    nullable: schema[col as int].nullable,
                },
            ));
        }
        let mut data: Vec<Row> = Vec::new();
        let mut r: usize = 0;
        while r < input.data.len()
            invariant
                r <= input.data.len(),
                input.wf(),
                schema == input@.schema,
                spec_col_index(schema, self.column@) == col as int,
                (col as int) < schema.len(),
                data@.len() == r,
                forall|j: int|
                    0 <= j < r ==> #[trigger] data@[j]@ == input@.data[j].update(
                        col as int,
                        data@[j]@[col as int],
                    ) && spec_cast_ok_cell(
                        input@.data[j][col as int],
                        self.target_type,
                        data@[j]@[col as int],
                    ),
            decreases input.data.len() - r,
        {
            proof {
                assert(input@.data[r as int] == input.data@[r as int]@);
                assert(input@.data[r as int].len() == schema.len());
            }
            let cell = match cast_value(&input.data[r].values[col], &self.target_type, ops) {
                Ok(w) => w,
                Err(e) => {
                    proof {
                        assert(input@.data[r as int][col as int] == input.data@[r as int].values@[col as int]@);
                    }
                    return Err(e);
                },
            };
            let ghost cellv = cell@;
            let mut values = crate::data::clone_values(&input.data[r].values);
            values[col] = cell;
            let row = Row { values };
            proof {
                assert(input@.data[r as int][col as int] == input.data@[r as int].values@[col as int]@);
                assert(row@ =~= input@.data[r as int].update(col as int, cellv));
                assert(row@[col as int] == cellv);
            }
            data.push(row);
            r = r + 1;
        }
        let out = DataSet { schema: out_schema, data, metadata: input.metadata.clone() };
        proof {
            assert forall|i2: int|
                0 <= i2 < input@.data.len() implies #[trigger] out@.data[i2]
                == input@.data[i2].update(col as int, out@.data[i2][col as int])
                && spec_cast_ok_cell(
                input@.data[i2][col as int],
                self.target_type,
                out@.data[i2][col as int],
            ) by {
                assert(out@.data[i2] == data@[i2]@);
            }
        }
        Ok(out)
    }
}


/// Selecting twice composes: selecting `c2` from the result of selecting
/// `c1` equals selecting `c2` directly, whenever every name of `c1` resolves
/// in the schema and every name of `c2` occurs in `c1` (first-match
/// resolution on both sides).  Since select carries metadata over unchanged,
/// the two pipelines produce the same dataset.
pub proof fn lemma_select_compose(
    schema: Seq<FieldV>,
    c1: Seq<Seq<char>>,
    c2: Seq<Seq<char>>,
    row: Seq<crate::data::ValueV>,
)
    requires
        forall|k: int| 0 <= k < c1.len() ==> spec_col_index(schema, #[trigger] c1[k]) >= 0,
        forall|k2: int| 0 <= k2 < c2.len() ==> spec_name_in(c1, #[trigger] c2[k2]),
    ensures
        spec_select_schema(spec_select_schema(schema, c1), c2) == spec_select_schema(schema, c2),
        spec_select_row(spec_select_schema(schema, c1), c2, spec_select_row(schema, c1, row))
            == spec_select_row(schema, c2, row),
{
    let s1 = spec_select_schema(schema, c1);
    let r1 = spec_select_row(schema, c1, row);
    assert forall|k: int| 0 <= k < c1.len() implies (#[trigger] s1[k]).name == c1[k] by {
        lemma_col_index(schema, c1[k]);
    }
    assert forall|k2: int|
        0 <= k2 < c2.len() implies spec_col_index(s1, (#[trigger] c2[k2])) >= 0 && s1[spec_col_index(
        s1,
        c2[k2],
    )] == schema[spec_col_index(schema, c2[k2])] && r1[spec_col_index(s1, c2[k2])]
        == row[spec_col_index(schema, c2[k2])] by {
        lemma_col_index(s1, c2[k2]);
        assert(spec_name_in(c1, c2[k2]));
        let j = choose|j: int| 0 <= j < c1.len() && c1[j] == c2[k2];
        assert(s1[j].name == c2[k2]);
        let k0 = spec_col_index(s1, c2[k2]);
        assert(k0 >= 0);
        assert(s1[k0].name == c2[k2]);
        assert(c1[k0] == c2[k2]);
        assert(s1[k0] == schema[spec_col_index(schema, c1[k0])]);
        assert(r1[k0] == row[spec_col_index(schema, c1[k0])]);
    }
    assert(spec_select_schema(s1, c2) =~= spec_select_schema(schema, c2));
    assert(spec_select_row(s1, c2, r1) =~= spec_select_row(schema, c2, row));
}

} // verus!
