//! Integrity reconciliation: the database's item list against the store's
//! walked file list.
//!
//! Both lists are put in ascending order and walked with two pointers. A
//! hash only the database knows is a file missing from the store; one only
//! the store knows is a redundant file; a hash known to both has its
//! extension checked. Hash mismatches found while walking the store are
//! appended at the end. The result is one report string, one finding per
//! line; an empty string means no divergence.

use vstd::prelude::*;
use vstd::relations::{sorted_by, total_ordering};
use vstd::seq_lib::lemma_sorted_unique;
use vstd::multiset::Multiset;

use crate::db::{db_wf, item_record, items_view, DbModel, Item, ItemV};
use crate::fstore::{StoreFile, StoreFileV};
use crate::strutil::{
    seq_char_lt, str_lt, str_eq, lemma_seq_char_lt_total, lemma_seq_char_lt_irreflexive,
    lemma_seq_char_lt_asymmetric, lemma_seq_char_lt_transitive,
};

verus! {

/// Store leaves are ordered by hash, then by extension.
pub open spec fn store_file_le(a: StoreFileV, b: StoreFileV) -> bool {
    seq_char_lt(a.hash, b.hash) || (a.hash == b.hash && (seq_char_lt(a.ext, b.ext) || a.ext
        == b.ext))
}

/// The store order as a relation value, for sorting.
pub open spec fn store_order() -> spec_fn(StoreFileV, StoreFileV) -> bool {
    |a: StoreFileV, b: StoreFileV| store_file_le(a, b)
}

/// The store order is a total order.
pub proof fn lemma_store_order_total()
    ensures
        total_ordering(store_order()),
{
    let leq = store_order();
    assert forall|a: StoreFileV| #[trigger] leq(a, a) by {}
    assert forall|a: StoreFileV, b: StoreFileV| #[trigger] leq(a, b) && #[trigger] leq(b, a)
        implies a == b by {
        lemma_seq_char_lt_asymmetric(a.hash, b.hash);
        lemma_seq_char_lt_asymmetric(a.ext, b.ext);
    }
    assert forall|a: StoreFileV, b: StoreFileV, c: StoreFileV|
        #[trigger] leq(a, b) && #[trigger] leq(b, c) implies leq(a, c) by {
        lemma_seq_char_lt_transitive(a.hash, b.hash, c.hash);
        lemma_seq_char_lt_transitive(a.ext, b.ext, c.ext);
    }
    assert forall|a: StoreFileV, b: StoreFileV| #[trigger] leq(a, b) || #[trigger] leq(b, a) by {
        lemma_seq_char_lt_total(a.hash, b.hash);
        lemma_seq_char_lt_total(a.ext, b.ext);
    }
}

/// One finding of the two-pointer walk.
pub enum ReportLine {
    /// The database references this hash but the store has no such file.
    MissingFromStore(Seq<char>),
    /// The store holds a file with this hash but the database has no record.
    RedundantInStore(Seq<char>),
    /// Hash known to both sides, extensions differing.
    ExtMismatch { db_ext: Seq<char>, store_ext: Seq<char> },
}

/// The findings of the two-pointer walk over the database list and the
/// store list, both in ascending hash order.
pub open spec fn merge_lines(db: Seq<ItemV>, store: Seq<StoreFileV>) -> Seq<ReportLine>
    decreases db.len() + store.len(),
{
    if db.len() == 0 && store.len() == 0 {
        Seq::empty()
    } else if store.len() == 0 {
        seq![ReportLine::MissingFromStore(db[0].hash)] + merge_lines(db.skip(1), store)
    } else if db.len() == 0 {
        seq![ReportLine::RedundantInStore(store[0].hash)] + merge_lines(db, store.skip(1))
    } else if db[0].hash == store[0].hash {
        (if db[0].ext != store[0].ext {
            seq![ReportLine::ExtMismatch { db_ext: db[0].ext, store_ext: store[0].ext }]
        } else {
            Seq::empty()
        }) + merge_lines(db.skip(1), store.skip(1))
    } else if seq_char_lt(db[0].hash, store[0].hash) {
        seq![ReportLine::MissingFromStore(db[0].hash)] + merge_lines(db.skip(1), store)
    } else {
        seq![ReportLine::RedundantInStore(store[0].hash)] + merge_lines(db, store.skip(1))
    }
}

/// A database list in strictly ascending hash order.
pub open spec fn db_sorted(db: Seq<ItemV>) -> bool {
    forall|i: int, j: int|
        0 <= i < j < db.len() ==> seq_char_lt((#[trigger] db[i]).hash, (#[trigger] db[j]).hash)
}

/// A store list in strictly ascending hash order.
pub open spec fn store_sorted(store: Seq<StoreFileV>) -> bool {
    forall|i: int, j: int|
        0 <= i < j < store.len() ==> seq_char_lt(
            (#[trigger] store[i]).hash,
            (#[trigger] store[j]).hash,
        )
}

/// The extension the database records for a hash, if any.
pub open spec fn db_lookup(db: Seq<ItemV>, h: Seq<char>) -> Option<Seq<char>>
    decreases db.len(),
{
    if db.len() == 0 {
        None
    } else if db[0].hash == h {
        Some(db[0].ext)
    } else {
        db_lookup(db.skip(1), h)
    }
}

/// The extension the store holds for a hash, if any.
pub open spec fn store_lookup(store: Seq<StoreFileV>, h: Seq<char>) -> Option<Seq<char>>
    decreases store.len(),
{
    if store.len() == 0 {
        None
    } else if store[0].hash == h {
        Some(store[0].ext)
    } else {
        store_lookup(store.skip(1), h)
    }
}

/// How many database items share their hash with the store while the two
/// sides record exactly this differing pair of extensions.
pub open spec fn ext_pair_count(
    db: Seq<ItemV>,
    store: Seq<StoreFileV>,
    de: Seq<char>,
    se: Seq<char>,
) -> nat
    decreases db.len(),
{
    if db.len() == 0 {
        0
    } else {
        (if db[0].ext == de && de != se && store_lookup(store, db[0].hash) == Some(se) {
            1nat
        } else {
            0nat
        }) + ext_pair_count(db.skip(1), store, de, se)
    }
}

/// The text of one finding.
pub open spec fn line_text(l: ReportLine) -> Seq<char> {
    match l {
        ReportLine::MissingFromStore(h) => "store: file not found in store: "@ + h + "\n"@,
        ReportLine::RedundantInStore(h) => "store: redundant file in store: "@ + h + "\n"@,
        ReportLine::ExtMismatch { db_ext, store_ext } => "ext: different extensions: "@ + db_ext
            + " in db but "@ + store_ext + " in store\n"@,
    }
}

/// The text of a list of findings.
pub open spec fn lines_text(ls: Seq<ReportLine>) -> Seq<char>
    decreases ls.len(),
{
    if ls.len() == 0 {
        Seq::empty()
    } else {
        line_text(ls[0]) + lines_text(ls.skip(1))
    }
}

/// The text of the hash mismatches found while walking the store.
pub open spec fn hash_lines_text(ws: Seq<Seq<char>>) -> Seq<char>
    decreases ws.len(),
{
    if ws.len() == 0 {
        Seq::empty()
    } else {
        "hash: "@ + ws[0] + "\n"@ + hash_lines_text(ws.skip(1))
    }
}

/// The whole report: the walk's findings over a store list that is already
/// sorted, then the hash mismatches.
pub open spec fn report_text(db: Seq<ItemV>, store_sorted: Seq<StoreFileV>, wrong: Seq<
    Seq<char>,
>) -> Seq<char> {
    lines_text(merge_lines(db, store_sorted)) + hash_lines_text(wrong)
}

/// Decides the store order.
fn store_le(a: &StoreFile, b: &StoreFile) -> (r: bool)
    ensures
        r == store_file_le(a@, b@),
{
    if str_lt(a.hash.as_str(), b.hash.as_str()) {
        true
    } else if str_eq(a.hash.as_str(), b.hash.as_str()) {
        if str_lt(a.ext.as_str(), b.ext.as_str()) {
            true
        } else {
            str_eq(a.ext.as_str(), b.ext.as_str())
        }
    } else {
        false
    }
}

/// Sorts the walked store list into ascending order.
fn sort_store_files(files: Vec<StoreFile>) -> (r: Vec<StoreFile>)
    ensures
        r@.map_values(|f: StoreFile| f@) == files@.map_values(|f: StoreFile| f@).sort_by(
            store_order(),
        ),
{
    broadcast use vstd::seq_lib::group_to_multiset_ensures;

    let ghost init = files@.map_values(|f: StoreFile| f@);
    let mut rest = files;
    let mut out: Vec<StoreFile> = Vec::new();
    proof {
        assert(out@.map_values(|f: StoreFile| f@) =~= Seq::<StoreFileV>::empty());
        assert(out@.map_values(|f: StoreFile| f@).to_multiset().add(
            rest@.map_values(|f: StoreFile| f@).to_multiset(),
        ) =~= init.to_multiset());
    }
    while rest.len() > 0
        invariant
            out@.map_values(|f: StoreFile| f@).to_multiset().add(
                rest@.map_values(|f: StoreFile| f@).to_multiset(),
            ) == init.to_multiset(),
            sorted_by(out@.map_values(|f: StoreFile| f@), store_order()),
            forall|x: StoreFileV, y: StoreFileV|
                out@.map_values(|f: StoreFile| f@).contains(x) && rest@.map_values(
                    |f: StoreFile| f@,
                ).contains(y) ==> #[trigger] store_file_le(x, y),
        decreases rest.len(),
    {
        let ghost rest_v = rest@.map_values(|f: StoreFile| f@);
        let ghost out_v = out@.map_values(|f: StoreFile| f@);
        // Find the least remaining leaf.
        let mut min_i: usize = 0;
        let mut j: usize = 1;
        while j < rest.len()
            invariant
                rest.len() > 0,
                min_i < j <= rest.len(),
                rest_v == rest@.map_values(|f: StoreFile| f@),
                forall|k: int|
                    0 <= k < j ==> store_file_le(rest_v[min_i as int], #[trigger] rest_v[k]),
            decreases rest.len() - j,
        {
            if store_le(&rest[j], &rest[min_i]) {
                proof {
                    assert forall|k: int| 0 <= k < j + 1 implies store_file_le(
                        rest_v[j as int],
                        #[trigger] rest_v[k],
                    ) by {
                        if k < j {
                            lemma_seq_char_lt_transitive(
                                rest_v[j as int].hash,
                                rest_v[min_i as int].hash,
                                rest_v[k].hash,
                            );
                            lemma_seq_char_lt_transitive(
                                rest_v[j as int].ext,
                                rest_v[min_i as int].ext,
                                rest_v[k].ext,
                            );
                        }
                    }
                }
                min_i = j;
            } else {
                proof {
                    lemma_seq_char_lt_total(rest_v[min_i as int].hash, rest_v[j as int].hash);
                    lemma_seq_char_lt_total(rest_v[min_i as int].ext, rest_v[j as int].ext);
                }
            }
            j = j + 1;
        }
        let x = rest.remove(min_i);
        let ghost xv = x@;
        out.push(x);
        proof {
            let out_v2 = out@.map_values(|f: StoreFile| f@);
            let rest_v2 = rest@.map_values(|f: StoreFile| f@);
            assert(out_v2 =~= out_v.push(xv));
            assert(rest_v2 =~= rest_v.remove(min_i as int));
            assert(rest_v.contains(rest_v[min_i as int]));
            assert(xv == rest_v[min_i as int]);
            out_v.to_multiset_ensures();
            rest_v.to_multiset_ensures();
            assert(out_v2.to_multiset() =~= out_v.to_multiset().insert(xv));
            assert(rest_v2.to_multiset() =~= rest_v.to_multiset().remove(xv));
            assert(rest_v.to_multiset().count(xv) >= 1);
            assert(out_v2.to_multiset().add(rest_v2.to_multiset()) =~= init.to_multiset());
            // The new last element follows everything already placed and
            // precedes everything left over.
            assert forall|i: int, k: int| 0 <= i < k < out_v2.len() implies store_order()(
                out_v2[i],
                out_v2[k],
            ) by {
                if k < out_v2.len() - 1 {
                    assert(out_v2[i] == out_v[i] && out_v2[k] == out_v[k]);
                } else {
                    assert(out_v2[k] == xv);
                    assert(out_v.contains(out_v[i]));
                }
            }
            assert forall|x0: StoreFileV, y0: StoreFileV|
                out_v2.contains(x0) && rest_v2.contains(y0) implies #[trigger] store_file_le(
                x0,
                y0,
            ) by {
                let iy = choose|iy: int| 0 <= iy < rest_v2.len() && rest_v2[iy] == y0;
                let orig: int = if iy < min_i {
                    iy
                } else {
                    iy + 1
                };
                assert(rest_v[orig] == y0);
                let ix = choose|ix: int| 0 <= ix < out_v2.len() && out_v2[ix] == x0;
                if ix < out_v2.len() - 1 {
                    assert(out_v.contains(x0));
                    assert(rest_v.contains(y0));
                } else {
                    assert(x0 == xv);
                    assert(store_file_le(rest_v[min_i as int], rest_v[orig]));
                }
            }
        }
    }
    proof {
        broadcast use vstd::multiset::group_multiset_axioms;

        let out_v = out@.map_values(|f: StoreFile| f@);
        let rest_v = rest@.map_values(|f: StoreFile| f@);
        rest_v.to_multiset_ensures();
        assert(rest_v =~= Seq::<StoreFileV>::empty());
        assert(rest_v.to_multiset() =~= Multiset::<StoreFileV>::empty());
        assert(out_v.to_multiset() =~= init.to_multiset());
        lemma_store_order_total();
        init.lemma_sort_by_ensures(store_order());
        lemma_sorted_unique(out_v, init.sort_by(store_order()), store_order());
        assert(out_v == init.sort_by(store_order()));
    }
    out
}

/// Appending one finding keeps the running text aligned with the spec.
proof fn lemma_lines_text_cons(l: ReportLine, rest: Seq<ReportLine>)
    ensures
        lines_text(seq![l] + rest) == line_text(l) + lines_text(rest),
{
    let s = seq![l] + rest;
    assert(s[0] == l);
    assert(s.skip(1) =~= rest);
}

/// The line reporting a database hash with no file behind it.
fn missing_line(hash: &str) -> (r: String)
    ensures
        r@ == "store: file not found in store: "@ + hash@ + "\n"@,
{
    let mut s = String::from_str("store: file not found in store: ");
    s.append(hash);
    s.append("\n");
    s
}

/// The line reporting a stored file with no database record.
fn redundant_line(hash: &str) -> (r: String)
    ensures
        r@ == "store: redundant file in store: "@ + hash@ + "\n"@,
{
    let mut s = String::from_str("store: redundant file in store: ");
    s.append(hash);
    s.append("\n");
    s
}

/// The line reporting differing extensions for a shared hash.
fn ext_line(db_ext: &str, store_ext: &str) -> (r: String)
    ensures
        r@ == "ext: different extensions: "@ + db_ext@ + " in db but "@ + store_ext@
            + " in store\n"@,
{
    let mut s = String::from_str("ext: different extensions: ");
    s.append(db_ext);
    s.append(" in db but ");
    s.append(store_ext);
    s.append(" in store\n");
    s
}

/// Reconciles the database's item list against the store's walked file
/// list. `db_items` must come in ascending hash order, as `get_items`
/// reports it; the store list is sorted here. `wrong_hash` holds the hash
/// mismatches found while walking. Returns the report, one finding per
/// line; an empty string means no divergence.
pub fn check_data_integrity(db_items: &Vec<Item>, store_files: Vec<StoreFile>, wrong_hash: &Vec<
    String,
>) -> (r: String)
    ensures
        r@ == report_text(
            db_items@.map_values(|it: Item| it@),
            store_files@.map_values(|f: StoreFile| f@).sort_by(store_order()),
            wrong_hash@.map_values(|s: String| s@),
        ),
{
    let sorted = sort_store_files(store_files);
    let ghost dbv = db_items@.map_values(|it: Item| it@);
    let ghost sv = sorted@.map_values(|f: StoreFile| f@);
    let ghost total = lines_text(merge_lines(dbv, sv));
    let mut result = String::new();
    let mut i: usize = 0;
    let mut j: usize = 0;
    proof {
        assert(dbv.skip(0) =~= dbv);
        assert(sv.skip(0) =~= sv);
    }
    while i < db_items.len() && j < sorted.len()
        invariant
            i <= db_items.len(),
            j <= sorted.len(),
            dbv == db_items@.map_values(|it: Item| it@),
            sv == sorted@.map_values(|f: StoreFile| f@),
            total == lines_text(merge_lines(dbv, sv)),
            result@ + lines_text(merge_lines(dbv.skip(i as int), sv.skip(j as int))) == total,
        decreases db_items.len() + sorted.len() - i - j,
    {
        let ghost dtail = dbv.skip(i as int);
        let ghost stail = sv.skip(j as int);
        proof {
            assert(dtail[0] == dbv[i as int]);
            assert(stail[0] == sv[j as int]);
            assert(dtail.skip(1) =~= dbv.skip(i as int + 1));
            assert(stail.skip(1) =~= sv.skip(j as int + 1));
        }
        let db_item = &db_items[i];
        let store_file = &sorted[j];
        proof {
            assert(db_item@ == dbv[i as int]);
            assert(store_file@ == sv[j as int]);
        }
        let ghost prev = result@;
        if str_eq(db_item.hash.as_str(), store_file.hash.as_str()) {
            if !str_eq(db_item.ext.as_str(), store_file.ext.as_str()) {
                let line = ext_line(db_item.ext.as_str(), store_file.ext.as_str());
                result.append(line.as_str());
                proof {
                    let l = ReportLine::ExtMismatch {
                        db_ext: dtail[0].ext,
                        store_ext: stail[0].ext,
                    };
                    assert(merge_lines(dtail, stail) == seq![l] + merge_lines(
                        dtail.skip(1),
                        stail.skip(1),
                    ));
                    lemma_lines_text_cons(l, merge_lines(dtail.skip(1), stail.skip(1)));
                    assert(result@ + lines_text(merge_lines(dtail.skip(1), stail.skip(1)))
                        =~= prev + lines_text(merge_lines(dtail, stail)));
                }
            } else {
                proof {
                    assert(Seq::<ReportLine>::empty() + merge_lines(
                        dtail.skip(1),
                        stail.skip(1),
                    ) =~= merge_lines(dtail.skip(1), stail.skip(1)));
                    assert(merge_lines(dtail, stail) == merge_lines(
                        dtail.skip(1),
                        stail.skip(1),
                    ));
                }
            }
            i = i + 1;
            j = j + 1;
        } else if str_lt(db_item.hash.as_str(), store_file.hash.as_str()) {
            let line = missing_line(db_item.hash.as_str());
            result.append(line.as_str());
            proof {
                let l = ReportLine::MissingFromStore(dtail[0].hash);
                assert(merge_lines(dtail, stail) == seq![l] + merge_lines(dtail.skip(1), stail));
                lemma_lines_text_cons(l, merge_lines(dtail.skip(1), stail));
                assert(result@ + lines_text(merge_lines(dtail.skip(1), stail)) =~= prev
                    + lines_text(merge_lines(dtail, stail)));
            }
            i = i + 1;
        } else {
            let line = redundant_line(store_file.hash.as_str());
            result.append(line.as_str());
            proof {
                let l = ReportLine::RedundantInStore(stail[0].hash);
                assert(merge_lines(dtail, stail) == seq![l] + merge_lines(dtail, stail.skip(1)));
                lemma_lines_text_cons(l, merge_lines(dtail, stail.skip(1)));
                assert(result@ + lines_text(merge_lines(dtail, stail.skip(1))) =~= prev
                    + lines_text(merge_lines(dtail, stail)));
            }
            j = j + 1;
        }
    }
    while i < db_items.len()
        invariant
            i <= db_items.len(),
            j <= sorted.len(),
            i < db_items.len() ==> j == sorted.len(),
            dbv == db_items@.map_values(|it: Item| it@),
            sv == sorted@.map_values(|f: StoreFile| f@),
            total == lines_text(merge_lines(dbv, sv)),
            result@ + lines_text(merge_lines(dbv.skip(i as int), sv.skip(j as int))) == total,
        decreases db_items.len() - i,
    {
        let ghost dtail = dbv.skip(i as int);
        let ghost stail = sv.skip(j as int);
        proof {
            assert(stail.len() == 0);
            assert(dtail[0] == dbv[i as int]);
            assert(dtail.skip(1) =~= dbv.skip(i as int + 1));
        }
        let db_item = &db_items[i];
        proof {
            assert(db_item@ == dbv[i as int]);
        }
        let ghost prev = result@;
        let line = missing_line(db_item.hash.as_str());
        result.append(line.as_str());
        proof {
            let l = ReportLine::MissingFromStore(dtail[0].hash);
            assert(merge_lines(dtail, stail) == seq![l] + merge_lines(dtail.skip(1), stail));
            lemma_lines_text_cons(l, merge_lines(dtail.skip(1), stail));
            assert(result@ + lines_text(merge_lines(dtail.skip(1), stail)) =~= prev
                + lines_text(merge_lines(dtail, stail)));
        }
        i = i + 1;
    }
    while j < sorted.len()
        invariant
            i == db_items.len(),
            j <= sorted.len(),
            dbv == db_items@.map_values(|it: Item| it@),
            sv == sorted@.map_values(|f: StoreFile| f@),
            total == lines_text(merge_lines(dbv, sv)),
            result@ + lines_text(merge_lines(dbv.skip(i as int), sv.skip(j as int))) == total,
        decreases sorted.len() - j,
    {
        let ghost dtail = dbv.skip(i as int);
        let ghost stail = sv.skip(j as int);
        proof {
            assert(dtail.len() == 0);
            assert(stail[0] == sv[j as int]);
            assert(stail.skip(1) =~= sv.skip(j as int + 1));
        }
        let store_file = &sorted[j];
        proof {
            assert(store_file@ == sv[j as int]);
        }
        let ghost prev = result@;
        let line = redundant_line(store_file.hash.as_str());
        result.append(line.as_str());
        proof {
            let l = ReportLine::RedundantInStore(stail[0].hash);
            assert(merge_lines(dtail, stail) == seq![l] + merge_lines(dtail, stail.skip(1)));
            lemma_lines_text_cons(l, merge_lines(dtail, stail.skip(1)));
            assert(result@ + lines_text(merge_lines(dtail, stail.skip(1))) =~= prev
                + lines_text(merge_lines(dtail, stail)));
        }
        j = j + 1;
    }
    proof {
        assert(dbv.skip(i as int).len() == 0 && sv.skip(j as int).len() == 0);
        assert(lines_text(merge_lines(dbv.skip(i as int), sv.skip(j as int)))
            =~= Seq::<char>::empty());
        assert(result@ =~= total);
    }
    let ghost wv = wrong_hash@.map_values(|s: String| s@);
    let mut k: usize = 0;
    proof {
        assert(wv.skip(0) =~= wv);
    }
    while k < wrong_hash.len()
        invariant
            k <= wrong_hash.len(),
            wv == wrong_hash@.map_values(|s: String| s@),
            total == lines_text(merge_lines(dbv, sv)),
            result@ + hash_lines_text(wv.skip(k as int)) == total + hash_lines_text(wv),
        decreases wrong_hash.len() - k,
    {
        let ghost wtail = wv.skip(k as int);
        proof {
            assert(wtail[0] == wv[k as int]);
            assert(wtail.skip(1) =~= wv.skip(k as int + 1));
        }
        let ghost prev = result@;
        result.append("hash: ");
        result.append(wrong_hash[k].as_str());
        result.append("\n");
        proof {
            assert(result@ =~= prev + ("hash: "@ + wtail[0] + "\n"@));
            assert(result@ + hash_lines_text(wtail.skip(1)) =~= prev + hash_lines_text(wtail));
        }
        k = k + 1;
    }
    proof {
        assert(hash_lines_text(wv.skip(k as int)) =~= Seq::<char>::empty());
        assert(result@ =~= total + hash_lines_text(wv));
        assert(result@ == report_text(dbv, sv, wv));
    }
    result
}

/// What a well-formed metadata store reports is ready for reconciliation:
/// `get_items` lists the items in strictly ascending hash order.
pub proof fn lemma_items_view_sorted(m: DbModel)
    requires
        db_wf(m),
    ensures
        db_sorted(items_view(m)),
{
    let v = items_view(m);
    assert forall|i: int, j: int| 0 <= i < j < v.len() implies seq_char_lt(
        (#[trigger] v[i]).hash,
        (#[trigger] v[j]).hash,
    ) by {
        assert(v[i] == item_record(m, m.items[i]));
        assert(v[j] == item_record(m, m.items[j]));
    }
}

/// Nothing below every store hash is found in the store.
proof fn lemma_store_lookup_below(store: Seq<StoreFileV>, h: Seq<char>)
    requires
        store_sorted(store),
        store.len() > 0 ==> seq_char_lt(h, store[0].hash),
    ensures
        store_lookup(store, h) is None,
    decreases store.len(),
{
    if store.len() > 0 {
        lemma_seq_char_lt_irreflexive(h);
        lemma_seq_char_lt_asymmetric(h, store[0].hash);
        let rest = store.skip(1);
        assert forall|i: int, j: int| 0 <= i < j < rest.len() implies seq_char_lt(
            (#[trigger] rest[i]).hash,
            (#[trigger] rest[j]).hash,
        ) by {
            assert(rest[i] == store[i + 1] && rest[j] == store[j + 1]);
        }
        if rest.len() > 0 {
            assert(rest[0] == store[1]);
            lemma_seq_char_lt_transitive(h, store[0].hash, store[1].hash);
        }
        lemma_store_lookup_below(rest, h);
    }
}

/// Nothing below every database hash is found in the database.
proof fn lemma_db_lookup_below(db: Seq<ItemV>, h: Seq<char>)
    requires
        db_sorted(db),
        db.len() > 0 ==> seq_char_lt(h, db[0].hash),
    ensures
        db_lookup(db, h) is None,
    decreases db.len(),
{
    if db.len() > 0 {
        lemma_seq_char_lt_irreflexive(h);
        let rest = db.skip(1);
        assert forall|i: int, j: int| 0 <= i < j < rest.len() implies seq_char_lt(
            (#[trigger] rest[i]).hash,
            (#[trigger] rest[j]).hash,
        ) by {
            assert(rest[i] == db[i + 1] && rest[j] == db[j + 1]);
        }
        if rest.len() > 0 {
            assert(rest[0] == db[1]);
            lemma_seq_char_lt_transitive(h, db[0].hash, db[1].hash);
        }
        lemma_db_lookup_below(rest, h);
    }
}

/// Dropping a store head that no listed database item's hash matches
/// leaves the pair count unchanged.
proof fn lemma_ext_pair_count_store_skip(
    db: Seq<ItemV>,
    store: Seq<StoreFileV>,
    de: Seq<char>,
    se: Seq<char>,
)
    requires
        store.len() > 0,
        forall|i: int| 0 <= i < db.len() ==> (#[trigger] db[i]).hash != store[0].hash,
    ensures
        ext_pair_count(db, store, de, se) == ext_pair_count(db, store.skip(1), de, se),
    decreases db.len(),
{
    if db.len() > 0 {
        assert(store_lookup(store, db[0].hash) == store_lookup(store.skip(1), db[0].hash));
        let rest = db.skip(1);
        assert forall|i: int| 0 <= i < rest.len() implies (#[trigger] rest[i]).hash
            != store[0].hash by {
            assert(rest[i] == db[i + 1]);
        }
        lemma_ext_pair_count_store_skip(rest, store, de, se);
    }
}

/// One more finding in front raises that finding's count by one.
proof fn lemma_cons_count(l: ReportLine, rest: Seq<ReportLine>, x: ReportLine)
    ensures
        (seq![l] + rest).to_multiset().count(x) == rest.to_multiset().count(x) + (if x == l {
            1nat
        } else {
            0nat
        }),
{
    broadcast use vstd::multiset::group_multiset_axioms;

    vstd::seq_lib::lemma_multiset_commutative(seq![l], rest);
    let single = seq![l];
    single.to_multiset_ensures();
    assert(single =~= Seq::<ReportLine>::empty().push(l));
    Seq::<ReportLine>::empty().to_multiset_ensures();
    assert(Seq::<ReportLine>::empty().push(l).to_multiset() =~= Seq::<
        ReportLine,
    >::empty().to_multiset().insert(l));
    assert(Seq::<ReportLine>::empty().to_multiset() =~= Multiset::<ReportLine>::empty());
}

/// Merge-compare correctness: over strictly ascending lists the walk
/// reports exactly one missing line for each hash the database records and
/// the store lacks, exactly one redundant line for each hash the store
/// holds and the database lacks, and exactly one extension-mismatch line
/// for each shared hash whose two extensions differ — and nothing else:
/// every possible line value has its multiplicity pinned.
pub proof fn lemma_merge_lines_exact(db: Seq<ItemV>, store: Seq<StoreFileV>)
    requires
        db_sorted(db),
        store_sorted(store),
    ensures
        forall|h: Seq<char>|
            #[trigger] merge_lines(db, store).to_multiset().count(
                ReportLine::MissingFromStore(h),
            ) == (if db_lookup(db, h) is Some && store_lookup(store, h) is None {
                1nat
            } else {
                0nat
            }),
        forall|h: Seq<char>|
            #[trigger] merge_lines(db, store).to_multiset().count(
                ReportLine::RedundantInStore(h),
            ) == (if store_lookup(store, h) is Some && db_lookup(db, h) is None {
                1nat
            } else {
                0nat
            }),
        forall|de: Seq<char>, se: Seq<char>|
            #[trigger] merge_lines(db, store).to_multiset().count(
                ReportLine::ExtMismatch { db_ext: de, store_ext: se },
            ) == ext_pair_count(db, store, de, se),
    decreases db.len() + store.len(),
{
    broadcast use vstd::multiset::group_multiset_axioms;

    let lines = merge_lines(db, store);
    let dtail = db.skip(1);
    let stail = store.skip(1);
    if db.len() > 0 {
        assert forall|i: int, j: int| 0 <= i < j < dtail.len() implies seq_char_lt(
            (#[trigger] dtail[i]).hash,
            (#[trigger] dtail[j]).hash,
        ) by {
            assert(dtail[i] == db[i + 1] && dtail[j] == db[j + 1]);
        }
    }
    if store.len() > 0 {
        assert forall|i: int, j: int| 0 <= i < j < stail.len() implies seq_char_lt(
            (#[trigger] stail[i]).hash,
            (#[trigger] stail[j]).hash,
        ) by {
            assert(stail[i] == store[i + 1] && stail[j] == store[j + 1]);
        }
    }
    if db.len() == 0 && store.len() == 0 {
        lines.to_multiset_ensures();
        assert(lines.to_multiset() =~= Multiset::<ReportLine>::empty());
    } else if store.len() == 0 {
        lemma_merge_lines_exact(dtail, store);
        let l = ReportLine::MissingFromStore(db[0].hash);
        let rest = merge_lines(dtail, store);
        assert forall|h: Seq<char>|
            #[trigger] lines.to_multiset().count(ReportLine::MissingFromStore(h)) == (
            if db_lookup(db, h) is Some && store_lookup(store, h) is None {
                1nat
            } else {
                0nat
            }) by {
            lemma_cons_count(l, rest, ReportLine::MissingFromStore(h));
            if h == db[0].hash {
                lemma_db_lookup_below(dtail, h);
            }
        }
        assert forall|h: Seq<char>|
            #[trigger] lines.to_multiset().count(ReportLine::RedundantInStore(h)) == (
            if store_lookup(store, h) is Some && db_lookup(db, h) is None {
                1nat
            } else {
                0nat
            }) by {
            lemma_cons_count(l, rest, ReportLine::RedundantInStore(h));
        }
        assert forall|de: Seq<char>, se: Seq<char>|
            #[trigger] lines.to_multiset().count(
                ReportLine::ExtMismatch { db_ext: de, store_ext: se },
            ) == ext_pair_count(db, store, de, se) by {
            lemma_cons_count(l, rest, ReportLine::ExtMismatch { db_ext: de, store_ext: se });
        }
    } else if db.len() == 0 {
        lemma_merge_lines_exact(db, stail);
        let l = ReportLine::RedundantInStore(store[0].hash);
        let rest = merge_lines(db, stail);
        assert forall|h: Seq<char>|
            #[trigger] lines.to_multiset().count(ReportLine::RedundantInStore(h)) == (
            if store_lookup(store, h) is Some && db_lookup(db, h) is None {
                1nat
            } else {
                0nat
            }) by {
            lemma_cons_count(l, rest, ReportLine::RedundantInStore(h));
            if h == store[0].hash {
                lemma_store_lookup_below(stail, h);
            }
        }
        assert forall|h: Seq<char>|
            #[trigger] lines.to_multiset().count(ReportLine::MissingFromStore(h)) == (
            if db_lookup(db, h) is Some && store_lookup(store, h) is None {
                1nat
            } else {
                0nat
            }) by {
            lemma_cons_count(l, rest, ReportLine::MissingFromStore(h));
        }
        assert forall|de: Seq<char>, se: Seq<char>|
            #[trigger] lines.to_multiset().count(
                ReportLine::ExtMismatch { db_ext: de, store_ext: se },
            ) == ext_pair_count(db, store, de, se) by {
            lemma_cons_count(l, rest, ReportLine::ExtMismatch { db_ext: de, store_ext: se });
        }
    } else if db[0].hash == store[0].hash {
        lemma_merge_lines_exact(dtail, stail);
        let rest = merge_lines(dtail, stail);
        lemma_seq_char_lt_irreflexive(db[0].hash);
        // Neither tail mentions the shared head hash again.
        assert forall|i: int| 0 <= i < dtail.len() implies (#[trigger] dtail[i]).hash
            != store[0].hash by {
            assert(dtail[i] == db[i + 1]);
        }
        assert forall|de: Seq<char>, se: Seq<char>| ext_pair_count(dtail, store, de, se)
            == ext_pair_count(dtail, stail, de, se) by {
            lemma_ext_pair_count_store_skip(dtail, store, de, se);
        }
        assert(store_lookup(store, db[0].hash) == Some(store[0].ext));
        let head_pair: nat = if db[0].ext != store[0].ext {
            1nat
        } else {
            0nat
        };
        assert forall|h: Seq<char>|
            #[trigger] lines.to_multiset().count(ReportLine::MissingFromStore(h)) == (
            if db_lookup(db, h) is Some && store_lookup(store, h) is None {
                1nat
            } else {
                0nat
            }) by {
            if db[0].ext != store[0].ext {
                let l = ReportLine::ExtMismatch { db_ext: db[0].ext, store_ext: store[0].ext };
                lemma_cons_count(l, rest, ReportLine::MissingFromStore(h));
            } else {
                assert(Seq::<ReportLine>::empty() + rest =~= rest);
            }
            if h == db[0].hash {
                lemma_db_lookup_below(dtail, h);
            }
        }
        assert forall|h: Seq<char>|
            #[trigger] lines.to_multiset().count(ReportLine::RedundantInStore(h)) == (
            if store_lookup(store, h) is Some && db_lookup(db, h) is None {
                1nat
            } else {
                0nat
            }) by {
            if db[0].ext != store[0].ext {
                let l = ReportLine::ExtMismatch { db_ext: db[0].ext, store_ext: store[0].ext };
                lemma_cons_count(l, rest, ReportLine::RedundantInStore(h));
            } else {
                assert(Seq::<ReportLine>::empty() + rest =~= rest);
            }
            if h == store[0].hash {
                lemma_store_lookup_below(stail, h);
            }
        }
        assert forall|de: Seq<char>, se: Seq<char>|
            #[trigger] lines.to_multiset().count(
                ReportLine::ExtMismatch { db_ext: de, store_ext: se },
            ) == ext_pair_count(db, store, de, se) by {
            let x = ReportLine::ExtMismatch { db_ext: de, store_ext: se };
            if db[0].ext != store[0].ext {
                let l = ReportLine::ExtMismatch { db_ext: db[0].ext, store_ext: store[0].ext };
                lemma_cons_count(l, rest, x);
            } else {
                assert(Seq::<ReportLine>::empty() + rest =~= rest);
            }
        }
    } else if seq_char_lt(db[0].hash, store[0].hash) {
        lemma_merge_lines_exact(dtail, store);
        let l = ReportLine::MissingFromStore(db[0].hash);
        let rest = merge_lines(dtail, store);
        lemma_store_lookup_below(store, db[0].hash);
        assert forall|h: Seq<char>|
            #[trigger] lines.to_multiset().count(ReportLine::MissingFromStore(h)) == (
            if db_lookup(db, h) is Some && store_lookup(store, h) is None {
                1nat
            } else {
                0nat
            }) by {
            lemma_cons_count(l, rest, ReportLine::MissingFromStore(h));
            if h == db[0].hash {
                lemma_db_lookup_below(dtail, h);
            }
        }
        assert forall|h: Seq<char>|
            #[trigger] lines.to_multiset().count(ReportLine::RedundantInStore(h)) == (
            if store_lookup(store, h) is Some && db_lookup(db, h) is None {
                1nat
            } else {
                0nat
            }) by {
            lemma_cons_count(l, rest, ReportLine::RedundantInStore(h));
            if h == db[0].hash {
                lemma_store_lookup_below(store, h);
            }
        }
        assert forall|de: Seq<char>, se: Seq<char>|
            #[trigger] lines.to_multiset().count(
                ReportLine::ExtMismatch { db_ext: de, store_ext: se },
            ) == ext_pair_count(db, store, de, se) by {
            lemma_cons_count(l, rest, ReportLine::ExtMismatch { db_ext: de, store_ext: se });
        }
    } else {
        lemma_merge_lines_exact(db, stail);
        let l = ReportLine::RedundantInStore(store[0].hash);
        let rest = merge_lines(db, stail);
        lemma_seq_char_lt_total(db[0].hash, store[0].hash);
        // Every database hash lies above the store head.
        assert forall|i: int| 0 <= i < db.len() implies seq_char_lt(
            store[0].hash,
            (#[trigger] db[i]).hash,
        ) by {
            if i > 0 {
                lemma_seq_char_lt_transitive(store[0].hash, db[0].hash, db[i].hash);
            }
        }
        assert forall|i: int| 0 <= i < db.len() implies (#[trigger] db[i]).hash
            != store[0].hash by {
            lemma_seq_char_lt_irreflexive(db[i].hash);
        }
        lemma_db_lookup_below(db, store[0].hash);
        assert forall|h: Seq<char>|
            #[trigger] lines.to_multiset().count(ReportLine::RedundantInStore(h)) == (
            if store_lookup(store, h) is Some && db_lookup(db, h) is None {
                1nat
            } else {
                0nat
            }) by {
            lemma_cons_count(l, rest, ReportLine::RedundantInStore(h));
            if h == store[0].hash {
                lemma_store_lookup_below(stail, h);
            }
        }
        assert forall|h: Seq<char>|
            #[trigger] lines.to_multiset().count(ReportLine::MissingFromStore(h)) == (
            if db_lookup(db, h) is Some && store_lookup(store, h) is None {
                1nat
            } else {
                0nat
            }) by {
            lemma_cons_count(l, rest, ReportLine::MissingFromStore(h));
        }
        assert forall|de: Seq<char>, se: Seq<char>|
            #[trigger] lines.to_multiset().count(
                ReportLine::ExtMismatch { db_ext: de, store_ext: se },
            ) == ext_pair_count(db, store, de, se) by {
            lemma_cons_count(l, rest, ReportLine::ExtMismatch { db_ext: de, store_ext: se });
            lemma_ext_pair_count_store_skip(db, store, de, se);
        }
    }
}

} // verus!
