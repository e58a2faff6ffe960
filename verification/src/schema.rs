//! The schema validator.
//!
//! An existing datastore is opened only after its structure is held against
//! the fixed expected schema: the set of table names, the column name/type
//! sets of the data tables (the full-text index's internal tables are
//! checked by name only), the index names and the trigger names. Each
//! comparison is a sorted merge walk that reports the first divergence; any
//! divergence aborts the open with a `DB` error naming it.

use vstd::prelude::*;

use crate::error::{Error, ErrorKind};
use crate::strutil::{seq_char_lt, str_lt, str_eq};
use crate::utils::{
    EntryModel, ListEntry, ListCompareResult, compare_lists, compare_lists_spec,
    lemma_compare_identical,
};

verus! {

/// A column of a data table, as the catalog reports it: its name and its
/// declared type.
pub struct SchemaColumn {
    pub name: String,
    pub ctype: String,
}

/// Mathematical value of a column.
pub struct ColumnV {
    pub name: Seq<char>,
    pub ctype: Seq<char>,
}

impl View for SchemaColumn {
    type V = ColumnV;

    open spec fn view(&self) -> ColumnV {
        ColumnV { name: self.name@, ctype: self.ctype@ }
    }
}

impl EntryModel for String {
    open spec fn key(&self) -> Seq<char> {
        self@
    }

    open spec fn agrees(&self, other: &Self) -> bool {
        true
    }
}

impl ListEntry for String {
    fn key_lt(&self, other: &Self) -> (r: bool) {
        str_lt(self.as_str(), other.as_str())
    }

    fn check_agrees(&self, other: &Self) -> (r: bool) {
        true
    }
}

impl EntryModel for Seq<char> {
    open spec fn key(&self) -> Seq<char> {
        *self
    }

    open spec fn agrees(&self, other: &Self) -> bool {
        true
    }
}

impl EntryModel for SchemaColumn {
    open spec fn key(&self) -> Seq<char> {
        self.name@
    }

    open spec fn agrees(&self, other: &Self) -> bool {
        self.ctype@ == other.ctype@
    }
}

impl ListEntry for SchemaColumn {
    fn key_lt(&self, other: &Self) -> (r: bool) {
        str_lt(self.name.as_str(), other.name.as_str())
    }

    fn check_agrees(&self, other: &Self) -> (r: bool) {
        str_eq(self.ctype.as_str(), other.ctype.as_str())
    }
}

impl EntryModel for ColumnV {
    open spec fn key(&self) -> Seq<char> {
        self.name
    }

    open spec fn agrees(&self, other: &Self) -> bool {
        self.ctype == other.ctype
    }
}

/// A walk result over strings, seen through their views.
pub open spec fn name_result_view(r: ListCompareResult<String>) -> ListCompareResult<Seq<char>> {
    match r {
        ListCompareResult::Missing(x) => ListCompareResult::Missing(x@),
        ListCompareResult::Unexpected(x) => ListCompareResult::Unexpected(x@),
        ListCompareResult::Unequal(x) => ListCompareResult::Unequal(x@),
        ListCompareResult::Identical => ListCompareResult::Identical,
    }
}

/// A walk result over columns, seen through their views.
pub open spec fn column_result_view(r: ListCompareResult<SchemaColumn>) -> ListCompareResult<
    ColumnV,
> {
    match r {
        ListCompareResult::Missing(x) => ListCompareResult::Missing(x@),
        ListCompareResult::Unexpected(x) => ListCompareResult::Unexpected(x@),
        ListCompareResult::Unequal(x) => ListCompareResult::Unequal(x@),
        ListCompareResult::Identical => ListCompareResult::Identical,
    }
}

/// Walking string lists and walking their views agree.
pub proof fn lemma_name_walk(a: Seq<String>, b: Seq<String>)
    ensures
        compare_lists_spec(
            a.map_values(|s: String| s@),
            b.map_values(|s: String| s@),
        ) == name_result_view(compare_lists_spec(a, b)),
    decreases a.len(),
{
    let va = a.map_values(|s: String| s@);
    let vb = b.map_values(|s: String| s@);
    if a.len() != 0 && b.len() != 0 {
        assert(va[0] == a[0]@ && vb[0] == b[0]@);
        if !seq_char_lt(vb[0].key(), va[0].key()) && !seq_char_lt(va[0].key(), vb[0].key()) {
            lemma_name_walk(a.skip(1), b.skip(1));
            assert(va.skip(1) =~= a.skip(1).map_values(|s: String| s@));
            assert(vb.skip(1) =~= b.skip(1).map_values(|s: String| s@));
        }
    }
}

/// Walking column lists and walking their views agree.
pub proof fn lemma_column_walk(a: Seq<SchemaColumn>, b: Seq<SchemaColumn>)
    ensures
        compare_lists_spec(
            a.map_values(|c: SchemaColumn| c@),
            b.map_values(|c: SchemaColumn| c@),
        ) == column_result_view(compare_lists_spec(a, b)),
    decreases a.len(),
{
    let va = a.map_values(|c: SchemaColumn| c@);
    let vb = b.map_values(|c: SchemaColumn| c@);
    if a.len() != 0 && b.len() != 0 {
        assert(va[0] == a[0]@ && vb[0] == b[0]@);
        if !seq_char_lt(vb[0].key(), va[0].key()) && !seq_char_lt(va[0].key(), vb[0].key())
            && a[0].agrees(&b[0]) {
            lemma_column_walk(a.skip(1), b.skip(1));
            assert(va.skip(1) =~= a.skip(1).map_values(|c: SchemaColumn| c@));
            assert(vb.skip(1) =~= b.skip(1).map_values(|c: SchemaColumn| c@));
        }
    }
}

/// The expected table names, ascending: the four data tables and the
/// derived full-text index's internal tables.
pub open spec fn expected_tables_spec() -> Seq<Seq<char>> {
    seq![
        "collection_tag"@,
        "collections"@,
        "items"@,
        "tags"@,
        "title_fts"@,
        "title_fts_config"@,
        "title_fts_data"@,
        "title_fts_docsize"@,
        "title_fts_idx"@,
    ]
}

/// The expected index names, ascending: the unique indices on item hash and
/// tag name.
pub open spec fn expected_indices_spec() -> Seq<Seq<char>> {
    seq!["hash_index"@, "tag_index"@]
}

/// The expected trigger names, ascending: the three triggers that keep the
/// title full-text index synchronized.
pub open spec fn expected_triggers_spec() -> Seq<Seq<char>> {
    seq!["title_delete"@, "title_insert"@, "title_update"@]
}

/// The expected columns of `collection_tag`, ascending by name.
pub open spec fn expected_collection_tag_columns_spec() -> Seq<ColumnV> {
    seq![
        ColumnV { name: "collection_id"@, ctype: "INTEGER"@ },
        ColumnV { name: "tag_id"@, ctype: "INTEGER"@ },
    ]
}

/// The expected columns of `collections`, ascending by name.
pub open spec fn expected_collections_columns_spec() -> Seq<ColumnV> {
    seq![
        ColumnV { name: "collection_id"@, ctype: "INTEGER"@ },
        ColumnV { name: "title"@, ctype: "TEXT"@ },
    ]
}

/// The expected columns of `items`, ascending by name.
pub open spec fn expected_items_columns_spec() -> Seq<ColumnV> {
    seq![
        ColumnV { name: "collection_id"@, ctype: "INTEGER"@ },
        ColumnV { name: "ext"@, ctype: "TEXT"@ },
        ColumnV { name: "hash"@, ctype: "VARCHAR(64)"@ },
        ColumnV { name: "item_id"@, ctype: "INTEGER"@ },
    ]
}

/// The expected columns of `tags`, ascending by name.
pub open spec fn expected_tags_columns_spec() -> Seq<ColumnV> {
    seq![
        ColumnV { name: "name"@, ctype: "TEXT"@ },
        ColumnV { name: "tag_id"@, ctype: "INTEGER"@ },
    ]
}

/// Builds the expected table name list.
pub fn expected_table_names() -> (r: Vec<String>)
    ensures
        r@.map_values(|s: String| s@) == expected_tables_spec(),
{
    let mut v: Vec<String> = Vec::new();
    v.push(String::from_str("collection_tag"));
    v.push(String::from_str("collections"));
    v.push(String::from_str("items"));
    v.push(String::from_str("tags"));
    v.push(String::from_str("title_fts"));
    v.push(String::from_str("title_fts_config"));
    v.push(String::from_str("title_fts_data"));
    v.push(String::from_str("title_fts_docsize"));
    v.push(String::from_str("title_fts_idx"));
    proof {
        assert(v@.map_values(|s: String| s@) =~= expected_tables_spec());
    }
    v
}

/// Builds the expected index name list.
pub fn expected_index_names() -> (r: Vec<String>)
    ensures
        r@.map_values(|s: String| s@) == expected_indices_spec(),
{
    let mut v: Vec<String> = Vec::new();
    v.push(String::from_str("hash_index"));
    v.push(String::from_str("tag_index"));
    proof {
        assert(v@.map_values(|s: String| s@) =~= expected_indices_spec());
    }
    v
}

/// Builds the expected trigger name list.
pub fn expected_trigger_names() -> (r: Vec<String>)
    ensures
        r@.map_values(|s: String| s@) == expected_triggers_spec(),
{
    let mut v: Vec<String> = Vec::new();
    v.push(String::from_str("title_delete"));
    v.push(String::from_str("title_insert"));
    v.push(String::from_str("title_update"));
    proof {
        assert(v@.map_values(|s: String| s@) =~= expected_triggers_spec());
    }
    v
}

/// One expected column.
fn column(name: &str, ctype: &str) -> (r: SchemaColumn)
    ensures
        r@ == (ColumnV { name: name@, ctype: ctype@ }),
{
    SchemaColumn { name: String::from_str(name), ctype: String::from_str(ctype) }
}

/// Builds the expected column list of `collection_tag`.
pub fn expected_collection_tag_columns() -> (r: Vec<SchemaColumn>)
    ensures
        r@.map_values(|c: SchemaColumn| c@) == expected_collection_tag_columns_spec(),
{
    let mut v: Vec<SchemaColumn> = Vec::new();
    v.push(column("collection_id", "INTEGER"));
    v.push(column("tag_id", "INTEGER"));
    proof {
        assert(v@.map_values(|c: SchemaColumn| c@) =~= expected_collection_tag_columns_spec());
    }
    v
}

/// Builds the expected column list of `collections`.
pub fn expected_collections_columns() -> (r: Vec<SchemaColumn>)
    ensures
        r@.map_values(|c: SchemaColumn| c@) == expected_collections_columns_spec(),
{
    let mut v: Vec<SchemaColumn> = Vec::new();
    v.push(column("collection_id", "INTEGER"));
    v.push(column("title", "TEXT"));
    proof {
        assert(v@.map_values(|c: SchemaColumn| c@) =~= expected_collections_columns_spec());
    }
    v
}

/// Builds the expected column list of `items`.
pub fn expected_items_columns() -> (r: Vec<SchemaColumn>)
    ensures
        r@.map_values(|c: SchemaColumn| c@) == expected_items_columns_spec(),
{
    let mut v: Vec<SchemaColumn> = Vec::new();
    v.push(column("collection_id", "INTEGER"));
    v.push(column("ext", "TEXT"));
    v.push(column("hash", "VARCHAR(64)"));
    v.push(column("item_id", "INTEGER"));
    proof {
        assert(v@.map_values(|c: SchemaColumn| c@) =~= expected_items_columns_spec());
    }
    v
}

/// Builds the expected column list of `tags`.
pub fn expected_tags_columns() -> (r: Vec<SchemaColumn>)
    ensures
        r@.map_values(|c: SchemaColumn| c@) == expected_tags_columns_spec(),
{
    let mut v: Vec<SchemaColumn> = Vec::new();
    v.push(column("name", "TEXT"));
    v.push(column("tag_id", "INTEGER"));
    proof {
        assert(v@.map_values(|c: SchemaColumn| c@) =~= expected_tags_columns_spec());
    }
    v
}

/// What the datastore reports about its own structure: its table names, the
/// columns of each data table, its index names and its trigger names — each
/// list in ascending name order, as the catalog queries return them.
pub struct SchemaInfo {
    pub table_names: Vec<String>,
    pub collection_tag_columns: Vec<SchemaColumn>,
    pub collections_columns: Vec<SchemaColumn>,
    pub items_columns: Vec<SchemaColumn>,
    pub tags_columns: Vec<SchemaColumn>,
    pub index_names: Vec<String>,
    pub trigger_names: Vec<String>,
}

/// Mathematical value of a reported structure.
#[verifier::ext_equal]
pub struct SchemaInfoV {
    pub table_names: Seq<Seq<char>>,
    pub collection_tag_columns: Seq<ColumnV>,
    pub collections_columns: Seq<ColumnV>,
    pub items_columns: Seq<ColumnV>,
    pub tags_columns: Seq<ColumnV>,
    pub index_names: Seq<Seq<char>>,
    pub trigger_names: Seq<Seq<char>>,
}

impl View for SchemaInfo {
    type V = SchemaInfoV;

    open spec fn view(&self) -> SchemaInfoV {
        SchemaInfoV {
            table_names: self.table_names@.map_values(|s: String| s@),
            collection_tag_columns: self.collection_tag_columns@.map_values(
                |c: SchemaColumn| c@,
            ),
            collections_columns: self.collections_columns@.map_values(|c: SchemaColumn| c@),
            items_columns: self.items_columns@.map_values(|c: SchemaColumn| c@),
            tags_columns: self.tags_columns@.map_values(|c: SchemaColumn| c@),
            index_names: self.index_names@.map_values(|s: String| s@),
            trigger_names: self.trigger_names@.map_values(|s: String| s@),
        }
    }
}

/// The structure that a freshly created datastore reports.
pub open spec fn expected_schema_info() -> SchemaInfoV {
    SchemaInfoV {
        table_names: expected_tables_spec(),
        collection_tag_columns: expected_collection_tag_columns_spec(),
        collections_columns: expected_collections_columns_spec(),
        items_columns: expected_items_columns_spec(),
        tags_columns: expected_tags_columns_spec(),
        index_names: expected_indices_spec(),
        trigger_names: expected_triggers_spec(),
    }
}

/// The message for the first divergence of one table's column walk, if any.
pub open spec fn column_error(r: ListCompareResult<ColumnV>, table: Seq<char>) -> Option<
    Seq<char>,
> {
    match r {
        ListCompareResult::Missing(c) => Some(
            "Column \""@ + c.name + "\" is missing from table \""@ + table + "\"."@,
        ),
        ListCompareResult::Unexpected(c) => Some(
            "Unexpected column \""@ + c.name + "\" in table \""@ + table + "\"."@,
        ),
        ListCompareResult::Unequal(c) => Some(
            "Column \""@ + c.name + "\" in table \""@ + table + "\" should have type \""@
                + c.ctype + "\"."@,
        ),
        ListCompareResult::Identical => None,
    }
}

/// The message of the first divergence between a reported structure and the
/// expected schema, if any: table names first, then the columns of each data
/// table, then index names, then trigger names.
pub open spec fn schema_first_error(v: SchemaInfoV) -> Option<Seq<char>> {
    match compare_lists_spec(v.table_names, expected_tables_spec()) {
        ListCompareResult::Missing(name) => Some(
            "Table \""@ + name + "\" is missing from the database."@,
        ),
        ListCompareResult::Unexpected(name) => Some(
            "Unexpected table \""@ + name + "\" exists in the database."@,
        ),
        // Name entries always agree, so no walk over them reports Unequal.
        ListCompareResult::Unequal(name) => Some(Seq::empty()),
        ListCompareResult::Identical => {
            let e1 = column_error(
                compare_lists_spec(
                    v.collection_tag_columns,
                    expected_collection_tag_columns_spec(),
                ),
                "collection_tag"@,
            );
            let e2 = column_error(
                compare_lists_spec(v.collections_columns, expected_collections_columns_spec()),
                "collections"@,
            );
            let e3 = column_error(
                compare_lists_spec(v.items_columns, expected_items_columns_spec()),
                "items"@,
            );
            let e4 = column_error(
                compare_lists_spec(v.tags_columns, expected_tags_columns_spec()),
                "tags"@,
            );
            if e1 is Some {
                e1
            } else if e2 is Some {
                e2
            } else if e3 is Some {
                e3
            } else if e4 is Some {
                e4
            } else if !(compare_lists_spec(v.index_names, expected_indices_spec())
                matches ListCompareResult::Identical) {
                Some("Database has unexpected or missing indices."@)
            } else if !(compare_lists_spec(v.trigger_names, expected_triggers_spec())
                matches ListCompareResult::Identical) {
                Some("Database has unexpected or missing triggers."@)
            } else {
                None
            }
        },
    }
}

/// A walk over name lists never reports a value mismatch.
proof fn lemma_names_never_unequal(a: Seq<String>, b: Seq<String>)
    ensures
        !(compare_lists_spec(a, b) matches ListCompareResult::Unequal(_)),
    decreases a.len(),
{
    if a.len() != 0 && b.len() != 0 && !seq_char_lt(b[0].key(), a[0].key()) && !seq_char_lt(
        a[0].key(),
        b[0].key(),
    ) {
        lemma_names_never_unequal(a.skip(1), b.skip(1));
    }
}

/// Validates the columns of one data table against its expected columns.
/// Reports the first missing, unexpected or wrongly typed column.
fn validate_table(
    table_name: &str,
    actual: &Vec<SchemaColumn>,
    expected: &Vec<SchemaColumn>,
) -> (r: Result<(), Error>)
    ensures
        ({
            let err = column_error(
                compare_lists_spec(
                    actual@.map_values(|c: SchemaColumn| c@),
                    expected@.map_values(|c: SchemaColumn| c@),
                ),
                table_name@,
            );
            match r {
                Ok(()) => err is None,
                Err(e) => err == Some(e.msg@) && e.kind == ErrorKind::DB,
            }
        }),
{
    let cr = compare_lists(actual.as_slice(), expected.as_slice());
    proof {
        lemma_column_walk(actual@, expected@);
    }
    match cr {
        ListCompareResult::Missing(c) => {
            let mut msg = String::from_str("Column \"");
            msg.append(c.name.as_str());
            msg.append("\" is missing from table \"");
            msg.append(table_name);
            msg.append("\".");
            Err(Error { msg, kind: ErrorKind::DB })
        },
        ListCompareResult::Unexpected(c) => {
            let mut msg = String::from_str("Unexpected column \"");
            msg.append(c.name.as_str());
            msg.append("\" in table \"");
            msg.append(table_name);
            msg.append("\".");
            Err(Error { msg, kind: ErrorKind::DB })
        },
        ListCompareResult::Unequal(c) => {
            let mut msg = String::from_str("Column \"");
            msg.append(c.name.as_str());
            msg.append("\" in table \"");
            msg.append(table_name);
            msg.append("\" should have type \"");
            msg.append(c.ctype.as_str());
            msg.append("\".");
            Err(Error { msg, kind: ErrorKind::DB })
        },
        ListCompareResult::Identical => Ok(()),
    }
}

/// Validates a datastore's reported structure against the expected schema.
/// The first divergence found — a table, column, index or trigger that is
/// missing, unexpected or mistyped — aborts with a `DB` error naming it.
pub fn validate_db(info: &SchemaInfo) -> (r: Result<(), Error>)
    ensures
        match r {
            Ok(()) => schema_first_error(info@) is None,
            Err(e) => schema_first_error(info@) == Some(e.msg@) && e.kind == ErrorKind::DB,
        },
{
    let expected_tables = expected_table_names();
    let tr = compare_lists(info.table_names.as_slice(), expected_tables.as_slice());
    proof {
        lemma_name_walk(info.table_names@, expected_tables@);
        lemma_names_never_unequal(info.table_names@, expected_tables@);
    }
    match tr {
        ListCompareResult::Missing(name) => {
            let mut msg = String::from_str("Table \"");
            msg.append(name.as_str());
            msg.append("\" is missing from the database.");
            return Err(Error { msg, kind: ErrorKind::DB });
        },
        ListCompareResult::Unexpected(name) => {
            let mut msg = String::from_str("Unexpected table \"");
            msg.append(name.as_str());
            msg.append("\" exists in the database.");
            return Err(Error { msg, kind: ErrorKind::DB });
        },
        ListCompareResult::Unequal(_) => {
            proof {
                assert(false);
            }
            return Err(Error { msg: String::new(), kind: ErrorKind::DB });
        },
        ListCompareResult::Identical => {},
    }
    let expected_ct = expected_collection_tag_columns();
    if let Err(e) = validate_table("collection_tag", &info.collection_tag_columns, &expected_ct) {
        return Err(e);
    }
    let expected_c = expected_collections_columns();
    if let Err(e) = validate_table("collections", &info.collections_columns, &expected_c) {
        return Err(e);
    }
    let expected_i = expected_items_columns();
    if let Err(e) = validate_table("items", &info.items_columns, &expected_i) {
        return Err(e);
    }
    let expected_t = expected_tags_columns();
    if let Err(e) = validate_table("tags", &info.tags_columns, &expected_t) {
        return Err(e);
    }
    let expected_idx = expected_index_names();
    let ir = compare_lists(info.index_names.as_slice(), expected_idx.as_slice());
    proof {
        lemma_name_walk(info.index_names@, expected_idx@);
    }
    match ir {
        ListCompareResult::Identical => {},
        _ => {
            return Err(
                Error {
                    msg: String::from_str("Database has unexpected or missing indices."),
                    kind: ErrorKind::DB,
                },
            );
        },
    }
    let expected_trg = expected_trigger_names();
    let gr = compare_lists(info.trigger_names.as_slice(), expected_trg.as_slice());
    proof {
        lemma_name_walk(info.trigger_names@, expected_trg@);
    }
    match gr {
        ListCompareResult::Identical => {},
        _ => {
            return Err(
                Error {
                    msg: String::from_str("Database has unexpected or missing triggers."),
                    kind: ErrorKind::DB,
                },
            );
        },
    }
    Ok(())
}

/// Schema round-trip: a reported structure passes validation exactly when
/// it is the expected schema — so a freshly created datastore validates,
/// and any mutation of a table, column, index or trigger is reported.
pub proof fn lemma_schema_roundtrip(v: SchemaInfoV)
    ensures
        schema_first_error(v) is None <==> v =~= expected_schema_info(),
{
    let e = expected_schema_info();
    assert(e.table_names == expected_tables_spec());
    assert(e.collection_tag_columns == expected_collection_tag_columns_spec());
    assert(e.collections_columns == expected_collections_columns_spec());
    assert(e.items_columns == expected_items_columns_spec());
    assert(e.tags_columns == expected_tags_columns_spec());
    assert(e.index_names == expected_indices_spec());
    assert(e.trigger_names == expected_triggers_spec());
    lemma_compare_identical(v.table_names, expected_tables_spec());
    lemma_compare_identical(v.collection_tag_columns, expected_collection_tag_columns_spec());
    lemma_compare_identical(v.collections_columns, expected_collections_columns_spec());
    lemma_compare_identical(v.items_columns, expected_items_columns_spec());
    lemma_compare_identical(v.tags_columns, expected_tags_columns_spec());
    lemma_compare_identical(v.index_names, expected_indices_spec());
    lemma_compare_identical(v.trigger_names, expected_triggers_spec());
    if schema_first_error(v) is None {
        assert forall|i: int| 0 <= i < v.table_names.len() implies v.table_names[i] == e.table_names[i] by {
            assert(v.table_names[i].key() == e.table_names[i].key());
        }
        assert(v.table_names =~= e.table_names);
        assert forall|i: int| 0 <= i < v.collection_tag_columns.len() implies v
            .collection_tag_columns[i] == e.collection_tag_columns[i] by {
            assert(v.collection_tag_columns[i].key() == e.collection_tag_columns[i].key()
                && v.collection_tag_columns[i].agrees(&e.collection_tag_columns[i]));
        }
        assert(v.collection_tag_columns =~= e.collection_tag_columns);
        assert forall|i: int| 0 <= i < v.collections_columns.len() implies v
            .collections_columns[i] == e.collections_columns[i] by {
            assert(v.collections_columns[i].key() == e.collections_columns[i].key()
                && v.collections_columns[i].agrees(&e.collections_columns[i]));
        }
        assert(v.collections_columns =~= e.collections_columns);
        assert forall|i: int| 0 <= i < v.items_columns.len() implies v.items_columns[i]
            == e.items_columns[i] by {
            assert(v.items_columns[i].key() == e.items_columns[i].key()
                && v.items_columns[i].agrees(&e.items_columns[i]));
        }
        assert(v.items_columns =~= e.items_columns);
        assert forall|i: int| 0 <= i < v.tags_columns.len() implies v.tags_columns[i]
            == e.tags_columns[i] by {
            assert(v.tags_columns[i].key() == e.tags_columns[i].key() && v.tags_columns[i].agrees(
                &e.tags_columns[i],
            ));
        }
        assert(v.tags_columns =~= e.tags_columns);
        assert forall|i: int| 0 <= i < v.index_names.len() implies v.index_names[i] == e.index_names[i] by {
            assert(v.index_names[i].key() == e.index_names[i].key());
        }
        assert(v.index_names =~= e.index_names);
        assert forall|i: int| 0 <= i < v.trigger_names.len() implies v.trigger_names[i] == e.trigger_names[i] by {
            assert(v.trigger_names[i].key() == e.trigger_names[i].key());
        }
        assert(v.trigger_names =~= e.trigger_names);
    }
    if v =~= e {
        assert(compare_lists_spec(v.table_names, expected_tables_spec())
            == ListCompareResult::<Seq<char>>::Identical);
        assert(compare_lists_spec(v.collection_tag_columns, expected_collection_tag_columns_spec())
            == ListCompareResult::<ColumnV>::Identical);
        assert(compare_lists_spec(v.collections_columns, expected_collections_columns_spec())
            == ListCompareResult::<ColumnV>::Identical);
        assert(compare_lists_spec(v.items_columns, expected_items_columns_spec())
            == ListCompareResult::<ColumnV>::Identical);
        assert(compare_lists_spec(v.tags_columns, expected_tags_columns_spec())
            == ListCompareResult::<ColumnV>::Identical);
        assert(compare_lists_spec(v.index_names, expected_indices_spec())
            == ListCompareResult::<Seq<char>>::Identical);
        assert(compare_lists_spec(v.trigger_names, expected_triggers_spec())
            == ListCompareResult::<Seq<char>>::Identical);
    }
}

} // verus!
