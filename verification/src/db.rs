//! The relational metadata index, modelled in memory.
//!
//! The store owns four tables: collections (title), items (content hash and
//! extension, owned by a collection), tags (unique names), and the
//! many-to-many links between collections and tags. Import creates a
//! collection, its item and its `meta:Incomplete` tag link as one atomic
//! step; the content hash is the deduplication key and is kept unique.
//!
//! Items are kept in ascending hash order, which is also the order in which
//! `get_items` reports them.

use vstd::prelude::*;

use crate::error::{Error, ErrorKind};
use crate::strutil::{
    seq_char_lt, str_lt, str_eq, lemma_seq_char_lt_total, lemma_seq_char_lt_irreflexive,
    lemma_seq_char_lt_transitive,
};

verus! {

/// A collection row: the logical grouping that carries title and tags.
pub struct CollectionRow {
    pub collection_id: i64,
    pub title: String,
}

/// An item row: one physical file, identified by its content hash.
pub struct ItemRow {
    pub item_id: i64,
    pub collection_id: i64,
    pub hash: String,
    pub ext: String,
}

/// A tag row: a free-form label with a unique name.
pub struct TagRow {
    pub tag_id: i64,
    pub name: String,
}

/// A collection-to-tag link.
pub struct CollectionTagRow {
    pub collection_id: i64,
    pub tag_id: i64,
}

/// Mathematical value of a collection row.
pub struct CollectionV {
    pub collection_id: int,
    pub title: Seq<char>,
}

/// Mathematical value of an item row.
pub struct ItemRowV {
    pub item_id: int,
    pub collection_id: int,
    pub hash: Seq<char>,
    pub ext: Seq<char>,
}

/// Mathematical value of a tag row.
pub struct TagV {
    pub tag_id: int,
    pub name: Seq<char>,
}

/// Mathematical value of a collection-to-tag link.
pub struct LinkV {
    pub collection_id: int,
    pub tag_id: int,
}

impl View for CollectionRow {
    type V = CollectionV;

    open spec fn view(&self) -> CollectionV {
        CollectionV { collection_id: self.collection_id as int, title: self.title@ }
    }
}

impl View for ItemRow {
    type V = ItemRowV;

    open spec fn view(&self) -> ItemRowV {
        ItemRowV {
            item_id: self.item_id as int,
            collection_id: self.collection_id as int,
            hash: self.hash@,
            ext: self.ext@,
        }
    }
}

impl View for TagRow {
    type V = TagV;

    open spec fn view(&self) -> TagV {
        TagV { tag_id: self.tag_id as int, name: self.name@ }
    }
}

impl View for CollectionTagRow {
    type V = LinkV;

    open spec fn view(&self) -> LinkV {
        LinkV { collection_id: self.collection_id as int, tag_id: self.tag_id as int }
    }
}

/// The whole relational state, as mathematical sequences of rows.
pub struct DbModel {
    pub collections: Seq<CollectionV>,
    pub items: Seq<ItemRowV>,
    pub tags: Seq<TagV>,
    pub collection_tags: Seq<LinkV>,
    pub next_item_id: int,
}

/// Well-formedness of the relational state:
/// collection and tag ids are their one-based row positions; item hashes are
/// strictly ascending (hence unique, the deduplication invariant); tag names
/// are unique; item ids are unique and below the id counter; every item and
/// every link references an existing collection, and every link an existing
/// tag; links are unique (the composite primary key).
pub open spec fn db_wf(m: DbModel) -> bool {
    &&& forall|i: int|
        0 <= i < m.collections.len() ==> (#[trigger] m.collections[i]).collection_id == i + 1
    &&& forall|i: int| 0 <= i < m.tags.len() ==> (#[trigger] m.tags[i]).tag_id == i + 1
    &&& forall|i: int, j: int|
        0 <= i < j < m.tags.len() ==> (#[trigger] m.tags[i]).name != (#[trigger] m.tags[j]).name
    &&& forall|i: int, j: int|
        0 <= i < j < m.items.len() ==> seq_char_lt(
            (#[trigger] m.items[i]).hash,
            (#[trigger] m.items[j]).hash,
        )
    &&& forall|i: int|
        0 <= i < m.items.len() ==> 1 <= (#[trigger] m.items[i]).collection_id
            <= m.collections.len()
    &&& forall|i: int|
        0 <= i < m.items.len() ==> 1 <= (#[trigger] m.items[i]).item_id < m.next_item_id
    &&& forall|i: int, j: int|
        0 <= i < j < m.items.len() ==> (#[trigger] m.items[i]).item_id != (
        #[trigger] m.items[j]).item_id
    &&& forall|i: int|
        0 <= i < m.collection_tags.len() ==> 1 <= (
        #[trigger] m.collection_tags[i]).collection_id <= m.collections.len() && 1
            <= m.collection_tags[i].tag_id <= m.tags.len()
    &&& forall|i: int, j: int|
        0 <= i < j < m.collection_tags.len() ==> m.collection_tags[i] != m.collection_tags[j]
    &&& m.next_item_id >= 1
}

/// The reserved tag that marks a newly imported, not yet curated collection.
pub open spec fn incomplete_tag() -> Seq<char> {
    "meta:Incomplete"@
}

/// Whether some item row carries this hash.
pub open spec fn has_hash(items: Seq<ItemRowV>, hash: Seq<char>) -> bool {
    exists|i: int| 0 <= i < items.len() && (#[trigger] items[i]).hash == hash
}

/// The id of the tag with this name, if one exists.
pub open spec fn find_tag_id(tags: Seq<TagV>, name: Seq<char>) -> Option<int>
    decreases tags.len(),
{
    if tags.len() == 0 {
        None
    } else if tags[0].name == name {
        Some(tags[0].tag_id)
    } else {
        find_tag_id(tags.skip(1), name)
    }
}

/// Whether some tag row carries this name.
pub open spec fn has_tag(tags: Seq<TagV>, name: Seq<char>) -> bool {
    exists|i: int| 0 <= i < tags.len() && (#[trigger] tags[i]).name == name
}

/// What a successful or failed tag lookup means for the rows.
pub proof fn lemma_find_tag_id(tags: Seq<TagV>, name: Seq<char>)
    ensures
        match find_tag_id(tags, name) {
            Some(id) => exists|i: int|
                0 <= i < tags.len() && (#[trigger] tags[i]).tag_id == id && tags[i].name == name,
            None => forall|i: int| 0 <= i < tags.len() ==> (#[trigger] tags[i]).name != name,
        },
    decreases tags.len(),
{
    if tags.len() > 0 && tags[0].name != name {
        let rest = tags.skip(1);
        lemma_find_tag_id(rest, name);
        match find_tag_id(rest, name) {
            Some(id) => {
                let i = choose|i: int|
                    0 <= i < rest.len() && (#[trigger] rest[i]).tag_id == id && rest[i].name
                        == name;
                assert(tags[i + 1] == rest[i]);
            },
            None => {
                assert forall|i: int| 0 <= i < tags.len() implies (#[trigger] tags[i]).name
                    != name by {
                    if i >= 1 {
                        assert(rest[i - 1] == tags[i]);
                    }
                }
            },
        }
    }
}

/// The position at which a fresh hash belongs in the ascending item list:
/// the number of items whose hash precedes it.
pub open spec fn sorted_pos(items: Seq<ItemRowV>, hash: Seq<char>) -> int
    decreases items.len(),
{
    if items.len() == 0 {
        0
    } else if seq_char_lt(items[0].hash, hash) {
        1 + sorted_pos(items.skip(1), hash)
    } else {
        0
    }
}

/// In a list whose prefix up to `pos` is exactly the part below the hash,
/// `sorted_pos` is `pos`.
proof fn lemma_sorted_pos_at(items: Seq<ItemRowV>, hash: Seq<char>, pos: int)
    requires
        0 <= pos <= items.len(),
        forall|j: int| 0 <= j < pos ==> seq_char_lt((#[trigger] items[j]).hash, hash),
        pos < items.len() ==> !seq_char_lt(items[pos].hash, hash),
    ensures
        sorted_pos(items, hash) == pos,
    decreases items.len(),
{
    if items.len() > 0 && pos > 0 {
        let rest = items.skip(1);
        assert forall|j: int| 0 <= j < pos - 1 implies seq_char_lt(
            (#[trigger] rest[j]).hash,
            hash,
        ) by {
            assert(rest[j] == items[j + 1]);
        }
        assert(pos - 1 < rest.len() ==> rest[pos - 1] == items[pos]);
        lemma_sorted_pos_at(rest, hash, pos - 1);
    }
}

/// The state change of attaching a tag to a collection: the tag row is
/// created if absent (reused otherwise), then the link is added. The step
/// fails — with the possibly created tag row kept, mirroring the two
/// statements involved — when the collection does not exist or the link is
/// already present.
pub open spec fn add_tag_spec(m: DbModel, collection_id: int, tag: Seq<char>) -> (DbModel, bool) {
    if !(1 <= collection_id <= m.collections.len()) {
        (m, false)
    } else {
        let (tags1, tid) = match find_tag_id(m.tags, tag) {
            Some(t) => (m.tags, t),
            None => (
                m.tags.push(TagV { tag_id: m.tags.len() as int + 1, name: tag }),
                m.tags.len() as int + 1,
            ),
        };
        let link = LinkV { collection_id, tag_id: tid };
        if m.collection_tags.contains(link) {
            (DbModel { tags: tags1, ..m }, false)
        } else {
            (
                DbModel { tags: tags1, collection_tags: m.collection_tags.push(link), ..m },
                true,
            )
        }
    }
}

/// The state change of importing a file's metadata: a fresh hash adds one
/// collection, one item at its sorted position, and the `meta:Incomplete`
/// link; a known hash changes nothing.
pub open spec fn import_spec(m: DbModel, title: Seq<char>, hash: Seq<char>, ext: Seq<char>) -> (
    DbModel,
    bool,
) {
    if has_hash(m.items, hash) {
        (m, false)
    } else {
        let cid = m.collections.len() as int + 1;
        let row = ItemRowV { item_id: m.next_item_id, collection_id: cid, hash, ext };
        let m1 = DbModel {
            collections: m.collections.push(CollectionV { collection_id: cid, title }),
            items: m.items.insert(sorted_pos(m.items, hash), row),
            next_item_id: m.next_item_id + 1,
            ..m
        };
        (add_tag_spec(m1, cid, incomplete_tag()).0, true)
    }
}

/// The public record of one item, as `get_items` reports it: the content
/// hash and extension of the file, its owning collection's id and title, and
/// the collection's tag names.
pub struct Item {
    pub hash: String,
    pub title: String,
    pub ext: String,
    pub collection_id: i64,
    pub tags: Vec<String>,
}

/// Mathematical value of a reported item.
pub struct ItemV {
    pub hash: Seq<char>,
    pub title: Seq<char>,
    pub ext: Seq<char>,
    pub collection_id: int,
    pub tags: Seq<Seq<char>>,
}

impl View for Item {
    type V = ItemV;

    open spec fn view(&self) -> ItemV {
        ItemV {
            hash: self.hash@,
            title: self.title@,
            ext: self.ext@,
            collection_id: self.collection_id as int,
            tags: self.tags@.map_values(|s: String| s@),
        }
    }
}

/// The names of the tags that these links attach to the collection, in link
/// order.
pub open spec fn tag_names_for(links: Seq<LinkV>, tags: Seq<TagV>, cid: int) -> Seq<Seq<char>>
    decreases links.len(),
{
    if links.len() == 0 {
        Seq::empty()
    } else {
        let rest = tag_names_for(links.drop_last(), tags, cid);
        if links.last().collection_id == cid {
            rest.push(tags[links.last().tag_id - 1].name)
        } else {
            rest
        }
    }
}

/// The record that `get_items` reports for one item row.
pub open spec fn item_record(m: DbModel, row: ItemRowV) -> ItemV {
    ItemV {
        hash: row.hash,
        title: m.collections[row.collection_id - 1].title,
        ext: row.ext,
        collection_id: row.collection_id,
        tags: tag_names_for(m.collection_tags, m.tags, row.collection_id),
    }
}

/// Everything `get_items` reports: each item row joined with its collection
/// title and tag names, in ascending hash order (the order the rows are
/// kept in).
pub open spec fn items_view(m: DbModel) -> Seq<ItemV> {
    m.items.map_values(|row: ItemRowV| item_record(m, row))
}

/// Deduplication invariant: in a well-formed store, at most one item row
/// carries any given hash.
pub proof fn lemma_dedup_at_most_one(m: DbModel, hash: Seq<char>)
    requires
        db_wf(m),
    ensures
        forall|i: int, j: int|
            0 <= i < m.items.len() && 0 <= j < m.items.len() && (#[trigger] m.items[i]).hash
                == hash && (#[trigger] m.items[j]).hash == hash ==> i == j,
{
    assert forall|i: int, j: int|
        0 <= i < m.items.len() && 0 <= j < m.items.len() && (#[trigger] m.items[i]).hash == hash
            && (#[trigger] m.items[j]).hash == hash implies i == j by {
        if i < j {
            lemma_seq_char_lt_irreflexive(hash);
        }
        if j < i {
            lemma_seq_char_lt_irreflexive(hash);
        }
    }
}

/// Importing the same content twice: the import of a fresh hash succeeds,
/// and importing that hash again fails and leaves the whole state exactly
/// as it was — no additional collection, item, tag or link.
pub proof fn lemma_import_twice(
    m: DbModel,
    title1: Seq<char>,
    title2: Seq<char>,
    hash: Seq<char>,
    ext1: Seq<char>,
    ext2: Seq<char>,
)
    requires
        db_wf(m),
        !has_hash(m.items, hash),
    ensures
        ({
            let (m1, ok1) = import_spec(m, title1, hash, ext1);
            &&& ok1
            &&& import_spec(m1, title2, hash, ext2) == (m1, false)
        }),
{
    let (m1, ok1) = import_spec(m, title1, hash, ext1);
    let pos = sorted_pos(m.items, hash);
    let row = ItemRowV {
        item_id: m.next_item_id,
        collection_id: m.collections.len() as int + 1,
        hash,
        ext: ext1,
    };
    lemma_sorted_pos_in_range(m.items, hash);
    m.items.insert_ensures(pos, row);
    assert(m1.items == m.items.insert(pos, row));
    assert(m1.items[pos] == row);
    assert(has_hash(m1.items, hash));
}

/// The insertion position of a hash lies within the list.
proof fn lemma_sorted_pos_in_range(items: Seq<ItemRowV>, hash: Seq<char>)
    ensures
        0 <= sorted_pos(items, hash) <= items.len(),
    decreases items.len(),
{
    if items.len() > 0 && seq_char_lt(items[0].hash, hash) {
        lemma_sorted_pos_in_range(items.skip(1), hash);
    }
}

/// A fresh name pushed at the end is what a lookup finds, once nothing
/// before it matches.
proof fn lemma_find_tag_id_push_fresh(tags: Seq<TagV>, row: TagV)
    requires
        forall|i: int| 0 <= i < tags.len() ==> (#[trigger] tags[i]).name != row.name,
    ensures
        find_tag_id(tags.push(row), row.name) == Some(row.tag_id),
    decreases tags.len(),
{
    let t = tags.push(row);
    if tags.len() == 0 {
        assert(t[0] == row);
    } else {
        assert(t[0] == tags[0]);
        assert(t.skip(1) =~= tags.skip(1).push(row));
        assert forall|i: int| 0 <= i < tags.skip(1).len() implies (
        #[trigger] tags.skip(1)[i]).name != row.name by {
            assert(tags.skip(1)[i] == tags[i + 1]);
        }
        lemma_find_tag_id_push_fresh(tags.skip(1), row);
    }
}

/// Tag reuse: after two successful imports of different fresh hashes,
/// exactly one tag row named `meta:Incomplete` exists — created by the
/// first import if it was absent, reused afterwards — and it is linked to
/// both new collections.
pub proof fn lemma_tag_reuse(
    m: DbModel,
    title1: Seq<char>,
    title2: Seq<char>,
    h1: Seq<char>,
    h2: Seq<char>,
    e1: Seq<char>,
    e2: Seq<char>,
)
    requires
        db_wf(m),
        !has_hash(m.items, h1),
        !has_hash(m.items, h2),
        h1 != h2,
    ensures
        ({
            let (m1, ok1) = import_spec(m, title1, h1, e1);
            let (m2, ok2) = import_spec(m1, title2, h2, e2);
            let cid1 = m.collections.len() as int + 1;
            let cid2 = m.collections.len() as int + 2;
            &&& ok1
            &&& ok2
            &&& has_tag(m2.tags, incomplete_tag())
            &&& forall|i: int, j: int|
                0 <= i < m2.tags.len() && 0 <= j < m2.tags.len() && (#[trigger] m2.tags[i]).name
                    == incomplete_tag() && (#[trigger] m2.tags[j]).name == incomplete_tag() ==> i
                    == j
            &&& ({
                let tid = find_tag_id(m2.tags, incomplete_tag())->0;
                m2.collection_tags.contains(LinkV { collection_id: cid1, tag_id: tid })
                    && m2.collection_tags.contains(LinkV { collection_id: cid2, tag_id: tid })
            })
        }),
{
    let inc = incomplete_tag();
    let cid1 = m.collections.len() as int + 1;
    let cid2 = m.collections.len() as int + 2;
    let (m1, ok1) = import_spec(m, title1, h1, e1);
    // First import: state before tagging.
    let pos1 = sorted_pos(m.items, h1);
    let row1 = ItemRowV { item_id: m.next_item_id, collection_id: cid1, hash: h1, ext: e1 };
    lemma_sorted_pos_in_range(m.items, h1);
    m.items.insert_ensures(pos1, row1);
    let ma = DbModel {
        collections: m.collections.push(CollectionV { collection_id: cid1, title: title1 }),
        items: m.items.insert(pos1, row1),
        next_item_id: m.next_item_id + 1,
        ..m
    };
    lemma_find_tag_id(m.tags, inc);
    let tid1: int = match find_tag_id(m.tags, inc) {
        Some(t) => t,
        None => m.tags.len() as int + 1,
    };
    let tags1 = match find_tag_id(m.tags, inc) {
        Some(t) => m.tags,
        None => m.tags.push(TagV { tag_id: m.tags.len() as int + 1, name: inc }),
    };
    let link1 = LinkV { collection_id: cid1, tag_id: tid1 };
    // No existing link mentions the brand-new collection.
    if m.collection_tags.contains(link1) {
        let i = choose|i: int| 0 <= i < m.collection_tags.len() && m.collection_tags[i] == link1;
        assert(m.collection_tags[i].collection_id <= m.collections.len());
        assert(false);
    }
    assert(m1 == (DbModel {
        tags: tags1,
        collection_tags: m.collection_tags.push(link1),
        ..ma
    }));
    assert(ok1);
    // The second hash is still fresh: the inserted row carries the first.
    if has_hash(m1.items, h2) {
        let i = choose|i: int| 0 <= i < m1.items.len() && (#[trigger] m1.items[i]).hash == h2;
        if i < pos1 {
            assert(m1.items[i] == m.items[i]);
            assert(has_hash(m.items, h2));
        } else if i == pos1 {
            assert(m1.items[i] == row1);
        } else {
            assert(m1.items[i] == m.items[i - 1]);
            assert(has_hash(m.items, h2));
        }
        assert(false);
    }
    let (m2, ok2) = import_spec(m1, title2, h2, e2);
    assert(m1.collections.len() == m.collections.len() + 1);
    let pos2 = sorted_pos(m1.items, h2);
    let row2 = ItemRowV { item_id: m1.next_item_id, collection_id: cid2, hash: h2, ext: e2 };
    lemma_sorted_pos_in_range(m1.items, h2);
    m1.items.insert_ensures(pos2, row2);
    let mb = DbModel {
        collections: m1.collections.push(CollectionV { collection_id: cid2, title: title2 }),
        items: m1.items.insert(pos2, row2),
        next_item_id: m1.next_item_id + 1,
        ..m1
    };
    // The second lookup finds the tag the first import ensured.
    lemma_find_tag_id(tags1, inc);
    match find_tag_id(m.tags, inc) {
        Some(t) => {
            assert(tags1 == m.tags);
        },
        None => {
            lemma_find_tag_id_push_fresh(m.tags, TagV { tag_id: m.tags.len() as int + 1, name: inc });
        },
    }
    assert(find_tag_id(tags1, inc) == Some(tid1));
    let link2 = LinkV { collection_id: cid2, tag_id: tid1 };
    // The link for the second collection is new as well.
    if mb.collection_tags.contains(link2) {
        let i = choose|i: int|
            0 <= i < mb.collection_tags.len() && mb.collection_tags[i] == link2;
        assert(mb.collection_tags == m.collection_tags.push(link1));
        if i < m.collection_tags.len() {
            assert(m.collection_tags[i].collection_id <= m.collections.len());
        } else {
            assert(mb.collection_tags[i] == link1);
        }
        assert(false);
    }
    assert(m2 == (DbModel {
        tags: tags1,
        collection_tags: mb.collection_tags.push(link2),
        ..mb
    }));
    assert(ok2);
    // Exactly one `meta:Incomplete` tag row.
    assert(m2.tags == tags1);
    match find_tag_id(m.tags, inc) {
        Some(t) => {
            let i = choose|i: int|
                0 <= i < m.tags.len() && (#[trigger] m.tags[i]).tag_id == t && m.tags[i].name
                    == inc;
            assert(has_tag(m2.tags, inc));
        },
        None => {
            assert(tags1[tags1.len() - 1].name == inc);
            assert(has_tag(m2.tags, inc));
        },
    }
    assert forall|i: int, j: int|
        0 <= i < m2.tags.len() && 0 <= j < m2.tags.len() && (#[trigger] m2.tags[i]).name == inc
            && (#[trigger] m2.tags[j]).name == inc implies i == j by {
        match find_tag_id(m.tags, inc) {
            Some(t) => {},
            None => {
                if i != j {
                    let lo: int = if i < j {
                        i
                    } else {
                        j
                    };
                    let hi: int = if i < j {
                        j
                    } else {
                        i
                    };
                    if hi < m.tags.len() {
                    } else {
                        assert(m2.tags[lo] == m.tags[lo]);
                        lemma_find_tag_id(m.tags, inc);
                    }
                }
            },
        }
    }
    // Both links are present, through the one tag id.
    let tid = find_tag_id(m2.tags, inc)->0;
    assert(tid == tid1);
    assert(m2.collection_tags == m.collection_tags.push(link1).push(link2));
    assert(m2.collection_tags[m2.collection_tags.len() - 2] == link1);
    assert(m2.collection_tags[m2.collection_tags.len() - 1] == link2);
    assert(m2.collection_tags.contains(link1));
    assert(m2.collection_tags.contains(link2));
}

/// The in-memory metadata store.
pub struct MetadataStore {
    collections: Vec<CollectionRow>,
    items: Vec<ItemRow>,
    tags: Vec<TagRow>,
    collection_tags: Vec<CollectionTagRow>,
    next_item_id: i64,
}

impl View for MetadataStore {
    type V = DbModel;

    closed spec fn view(&self) -> DbModel {
        DbModel {
            collections: self.collections@.map_values(|c: CollectionRow| c@),
            items: self.items@.map_values(|r: ItemRow| r@),
            tags: self.tags@.map_values(|t: TagRow| t@),
            collection_tags: self.collection_tags@.map_values(|l: CollectionTagRow| l@),
            next_item_id: self.next_item_id as int,
        }
    }
}

impl MetadataStore {
    /// Well-formedness of this store's relational state.
    pub open spec fn wf(&self) -> bool {
        db_wf(self@)
    }

    /// A fresh, empty store with the fixed schema.
    pub fn new() -> (r: Self)
        ensures
            r.wf(),
            r@.collections =~= Seq::<CollectionV>::empty(),
            r@.items =~= Seq::<ItemRowV>::empty(),
            r@.tags =~= Seq::<TagV>::empty(),
            r@.collection_tags =~= Seq::<LinkV>::empty(),
    {
        MetadataStore {
            collections: Vec::new(),
            items: Vec::new(),
            tags: Vec::new(),
            collection_tags: Vec::new(),
            next_item_id: 1,
        }
    }

    /// Whether an item with this hash is already recorded.
    fn contains_hash(&self, hash: &str) -> (r: bool)
        ensures
            r == has_hash(self@.items, hash@),
    {
        let mut i: usize = 0;
        while i < self.items.len()
            invariant
                i <= self.items.len(),
                forall|j: int| 0 <= j < i ==> (#[trigger] self@.items[j]).hash != hash@,
            decreases self.items.len() - i,
        {
            if str_eq(self.items[i].hash.as_str(), hash) {
                assert(self@.items[i as int].hash == hash@);
                return true;
            }
            i = i + 1;
        }
        false
    }

    /// The id of the tag with this name, if present.
    fn find_tag(&self, name: &str) -> (r: Option<i64>)
        ensures
            match r {
                Some(id) => find_tag_id(self@.tags, name@) == Some(id as int),
                None => find_tag_id(self@.tags, name@) is None,
            },
    {
        proof {
            assert(self@.tags.skip(0) =~= self@.tags);
        }
        let mut i: usize = 0;
        while i < self.tags.len()
            invariant
                i <= self.tags.len(),
                find_tag_id(self@.tags, name@) == find_tag_id(
                    self@.tags.skip(i as int),
                    name@,
                ),
            decreases self.tags.len() - i,
        {
            let ghost st = self@.tags.skip(i as int);
            assert(st[0] == self@.tags[i as int]);
            if str_eq(self.tags[i].name.as_str(), name) {
                return Some(self.tags[i].tag_id);
            }
            proof {
                assert(st.skip(1) =~= self@.tags.skip(i + 1));
            }
            i = i + 1;
        }
        None
    }

    /// Adds a collection row with this title and returns its id.
    fn add_collection(&mut self, title: &str) -> (r: i64)
        requires
            old(self).wf(),
            old(self)@.collections.len() + 1 <= i64::MAX,
        ensures
            final(self).wf(),
            r as int == old(self)@.collections.len() + 1,
            final(self)@ == (DbModel {
                collections: old(self)@.collections.push(
                    CollectionV { collection_id: r as int, title: title@ },
                ),
                ..old(self)@
            }),
    {
        let id = (self.collections.len() as i64) + 1;
        self.collections.push(
            CollectionRow { collection_id: id, title: String::from_str(title) },
        );
        proof {
            assert(self@.collections =~= old(self)@.collections.push(
                CollectionV { collection_id: id as int, title: title@ },
            ));
            assert(self@.items =~= old(self)@.items);
            assert(self@.tags =~= old(self)@.tags);
            assert(self@.collection_tags =~= old(self)@.collection_tags);
            assert(self@ == (DbModel {
                collections: old(self)@.collections.push(
                    CollectionV { collection_id: id as int, title: title@ },
                ),
                ..old(self)@
            }));
        }
        id
    }

    /// Adds an item row for this collection at its sorted position, or
    /// refuses a hash that is already recorded, leaving the state unchanged.
    fn add_item_to_collection(&mut self, collection_id: i64, hash: &str, ext: &str) -> (r: Result<
        i64,
        Error,
    >)
        requires
            old(self).wf(),
            old(self)@.next_item_id + 1 <= i64::MAX,
            1 <= collection_id as int <= old(self)@.collections.len(),
        ensures
            final(self).wf(),
            match r {
                Ok(id) => !has_hash(old(self)@.items, hash@) && id as int
                    == old(self)@.next_item_id && final(self)@ == (DbModel {
                    items: old(self)@.items.insert(
                        sorted_pos(old(self)@.items, hash@),
                        ItemRowV {
                            item_id: id as int,
                            collection_id: collection_id as int,
                            hash: hash@,
                            ext: ext@,
                        },
                    ),
                    next_item_id: old(self)@.next_item_id + 1,
                    ..old(self)@
                }),
                Err(e) => has_hash(old(self)@.items, hash@) && e.kind == ErrorKind::DB
                    && final(self)@ == old(self)@,
            },
    {
        if self.contains_hash(hash) {
            return Err(
                Error {
                    msg: String::from_str("An item with this hash exists already."),
                    kind: ErrorKind::DB,
                },
            );
        }
        let ghost m0 = self@;
        let mut pos: usize = 0;
        loop
            invariant
                self == old(self),
                pos <= self.items.len(),
                forall|j: int| 0 <= j < pos ==> seq_char_lt((#[trigger] self@.items[j]).hash, hash@),
            ensures
                self == old(self),
                pos <= self.items.len(),
                forall|j: int| 0 <= j < pos ==> seq_char_lt((#[trigger] self@.items[j]).hash, hash@),
                pos < self.items.len() ==> !seq_char_lt(self@.items[pos as int].hash, hash@),
            decreases self.items.len() - pos,
        {
            if pos >= self.items.len() {
                break;
            }
            if !str_lt(self.items[pos].hash.as_str(), hash) {
                break;
            }
            assert(seq_char_lt(self@.items[pos as int].hash, hash@));
            pos = pos + 1;
        }
        proof {
            lemma_sorted_pos_at(m0.items, hash@, pos as int);
        }
        let item_id = self.next_item_id;
        let row = ItemRow {
            item_id,
            collection_id,
            hash: String::from_str(hash),
            ext: String::from_str(ext),
        };
        let ghost rowv = ItemRowV {
            item_id: item_id as int,
            collection_id: collection_id as int,
            hash: hash@,
            ext: ext@,
        };
        self.items.insert(pos, row);
        self.next_item_id = self.next_item_id + 1;
        proof {
            assert(self@.items =~= m0.items.insert(pos as int, rowv));
            assert(self@.collections =~= m0.collections);
            assert(self@.tags =~= m0.tags);
            assert(self@.collection_tags =~= m0.collection_tags);
            assert(self@ == (DbModel {
                items: m0.items.insert(sorted_pos(m0.items, hash@), rowv),
                next_item_id: m0.next_item_id + 1,
                ..m0
            }));
            // Everything at or after the insertion point lies strictly above
            // the fresh hash.
            m0.items.insert_ensures(pos as int, rowv);
            assert forall|j: int| pos <= j < m0.items.len() implies seq_char_lt(
                hash@,
                (#[trigger] m0.items[j]).hash,
            ) by {
                lemma_seq_char_lt_total(hash@, m0.items[pos as int].hash);
                if m0.items[pos as int].hash == hash@ {
                    assert(has_hash(m0.items, hash@));
                }
                if j > pos {
                    lemma_seq_char_lt_transitive(
                        hash@,
                        m0.items[pos as int].hash,
                        m0.items[j].hash,
                    );
                }
            }
            let items1 = self@.items;
            assert forall|i: int, j: int| 0 <= i < j < items1.len() implies seq_char_lt(
                (#[trigger] items1[i]).hash,
                (#[trigger] items1[j]).hash,
            ) by {
                if j < pos {
                } else if i < pos && j == pos {
                    assert(items1[i] == m0.items[i] && items1[j] == rowv);
                } else if i < pos && j > pos {
                    assert(items1[i] == m0.items[i] && items1[j] == m0.items[j - 1]);
                } else if i == pos {
                    assert(items1[i] == rowv && items1[j] == m0.items[j - 1]);
                } else {
                    assert(items1[i] == m0.items[i - 1] && items1[j] == m0.items[j - 1]);
                }
            }
            // The fresh id is above every recorded one, and old ids are
            // pairwise distinct.
            assert forall|i: int, j: int| 0 <= i < j < items1.len() implies (
            #[trigger] items1[i]).item_id != (#[trigger] items1[j]).item_id by {
                if i == pos {
                    assert(items1[j] == m0.items[j - 1]);
                } else if j == pos {
                    assert(items1[i] == m0.items[i]);
                } else {
                    let i0: int = if i < pos { i } else { i - 1 };
                    let j0: int = if j < pos { j } else { j - 1 };
                    assert(items1[i] == m0.items[i0] && items1[j] == m0.items[j0]);
                    assert(0 <= i0 < j0 < m0.items.len());
                }
            }
            assert(final(self).wf());
        }
        Ok(item_id)
    }

    /// Whether this collection-to-tag link is already recorded.
    fn contains_link(&self, collection_id: i64, tag_id: i64) -> (r: bool)
        ensures
            r == self@.collection_tags.contains(
                LinkV { collection_id: collection_id as int, tag_id: tag_id as int },
            ),
    {
        let ghost link = LinkV { collection_id: collection_id as int, tag_id: tag_id as int };
        let mut i: usize = 0;
        while i < self.collection_tags.len()
            invariant
                i <= self.collection_tags.len(),
                link == (LinkV { collection_id: collection_id as int, tag_id: tag_id as int }),
                forall|j: int| 0 <= j < i ==> #[trigger] self@.collection_tags[j] != link,
            decreases self.collection_tags.len() - i,
        {
            let row = &self.collection_tags[i];
            proof {
                assert(self@.collection_tags[i as int] == self.collection_tags@[i as int]@);
            }
            if row.collection_id == collection_id && row.tag_id == tag_id {
                assert(self@.collection_tags[i as int] == link);
                return true;
            }
            assert(self@.collection_tags[i as int] != link);
            i = i + 1;
        }
        false
    }

    /// Attaches a tag to a collection: the tag row is created if absent and
    /// reused otherwise, then the link is recorded. The call fails when the
    /// collection does not exist or the link is already present; a tag row
    /// created by a failing call is kept, one statement having completed.
    pub fn add_tag_to_collection(&mut self, collection_id: i64, tag: &str) -> (r: Result<
        (),
        Error,
    >)
        requires
            old(self).wf(),
            old(self)@.tags.len() + 1 <= i64::MAX,
            old(self)@.collections.len() <= i64::MAX,
        ensures
            final(self).wf(),
            final(self)@ == add_tag_spec(old(self)@, collection_id as int, tag@).0,
            r is Ok <==> add_tag_spec(old(self)@, collection_id as int, tag@).1,
            r matches Err(e) ==> e.kind == ErrorKind::DB,
    {
        if collection_id < 1 || collection_id > self.collections.len() as i64 {
            return Err(
                Error {
                    msg: String::from_str("The collection to tag does not exist."),
                    kind: ErrorKind::DB,
                },
            );
        }
        proof {
            lemma_find_tag_id(self@.tags, tag@);
        }
        let ghost m0 = self@;
        let tag_id = match self.find_tag(tag) {
            Some(id) => id,
            None => {
                let id = (self.tags.len() as i64) + 1;
                self.tags.push(TagRow { tag_id: id, name: String::from_str(tag) });
                proof {
                    assert(self@.tags =~= m0.tags.push(
                        TagV { tag_id: id as int, name: tag@ },
                    ));
                    assert(self@.collections =~= m0.collections);
                    assert(self@.items =~= m0.items);
                    assert(self@.collection_tags =~= m0.collection_tags);
                }
                id
            },
        };
        let ghost m1 = self@;
        if self.contains_link(collection_id, tag_id) {
            proof {
                assert(final(self)@ == add_tag_spec(m0, collection_id as int, tag@).0);
            }
            return Err(
                Error {
                    msg: String::from_str("The collection already carries this tag."),
                    kind: ErrorKind::DB,
                },
            );
        }
        self.collection_tags.push(CollectionTagRow { collection_id, tag_id });
        proof {
            let link = LinkV { collection_id: collection_id as int, tag_id: tag_id as int };
            assert(self@.collection_tags =~= m1.collection_tags.push(link));
            assert(self@.collections =~= m1.collections);
            assert(self@.items =~= m1.items);
            assert(self@.tags =~= m1.tags);
            assert(self@ == add_tag_spec(m0, collection_id as int, tag@).0);
            // The new link references an existing tag row.
            if find_tag_id(m0.tags, tag@) is Some {
                let i = choose|i: int|
                    0 <= i < m0.tags.len() && (#[trigger] m0.tags[i]).tag_id == tag_id as int
                        && m0.tags[i].name == tag@;
                assert(1 <= tag_id as int <= m1.tags.len());
            }
            assert(final(self).wf());
        }
        Ok(())
    }

    /// Imports a file's metadata as one atomic step: a new collection with
    /// this title, an item row with the hash and extension, and the
    /// `meta:Incomplete` tag linked to the new collection. A hash that is
    /// already recorded fails with `Duplicate` and changes nothing — no
    /// partial collection is left behind.
    pub fn import_file(&mut self, title: &str, hash: &str, ext: &str) -> (r: Result<(), Error>)
        requires
            old(self).wf(),
            old(self)@.collections.len() + 1 <= i64::MAX,
            old(self)@.next_item_id + 1 <= i64::MAX,
            old(self)@.tags.len() + 1 <= i64::MAX,
        ensures
            final(self).wf(),
            final(self)@ == import_spec(old(self)@, title@, hash@, ext@).0,
            r is Ok <==> !has_hash(old(self)@.items, hash@),
            r matches Err(e) ==> e.kind == ErrorKind::Duplicate && e.msg@
                == "The item to import already exists in the database."@ && final(self)@ == old(
                self,
            )@,
    {
        let ghost m0 = self@;
        if self.contains_hash(hash) {
            return Err(
                Error {
                    msg: String::from_str("The item to import already exists in the database."),
                    kind: ErrorKind::Duplicate,
                },
            );
        }
        let collection_id = self.add_collection(title);
        let item_result = self.add_item_to_collection(collection_id, hash, ext);
        proof {
            assert(item_result is Ok);
        }
        let ghost m2 = self@;
        let ghost spec_outcome = import_spec(m0, title@, hash@, ext@);
        proof {
            // The state so far is the one the import transition passes to the
            // tagging step.
            let cid = m0.collections.len() as int + 1;
            let row = ItemRowV {
                item_id: m0.next_item_id,
                collection_id: cid,
                hash: hash@,
                ext: ext@,
            };
            let m1 = DbModel {
                collections: m0.collections.push(CollectionV { collection_id: cid, title: title@ }),
                items: m0.items.insert(sorted_pos(m0.items, hash@), row),
                next_item_id: m0.next_item_id + 1,
                ..m0
            };
            assert(m2 == m1);
            // No link can mention the brand-new collection yet.
            assert forall|i: int| 0 <= i < m2.collection_tags.len() implies (
            #[trigger] m2.collection_tags[i]).collection_id != cid by {
                assert(m0.collection_tags[i].collection_id <= m0.collections.len());
            }
        }
        let tag_result = self.add_tag_to_collection(collection_id, "meta:Incomplete");
        proof {
            let cid = collection_id as int;
            let t = add_tag_spec(m2, cid, incomplete_tag());
            assert("meta:Incomplete"@ == incomplete_tag());
            if !t.1 {
                // The tagging step cannot fail: the collection exists and the
                // link is new, whatever the tag lookup found.
                assert(1 <= cid <= m2.collections.len());
                let tid = match find_tag_id(m2.tags, incomplete_tag()) {
                    Some(id) => id,
                    None => m2.tags.len() as int + 1,
                };
                let link = LinkV { collection_id: cid, tag_id: tid };
                if m2.collection_tags.contains(link) {
                    let i = choose|i: int|
                        0 <= i < m2.collection_tags.len() && m2.collection_tags[i] == link;
                    assert(m2.collection_tags[i].collection_id == cid);
                    assert(false);
                }
            }
            assert(tag_result is Ok);
            assert(final(self)@ == spec_outcome.0);
        }
        Ok(())
    }

    /// The names of the tags attached to this collection, in link order.
    fn tags_for(&self, collection_id: i64) -> (r: Vec<String>)
        requires
            self.wf(),
        ensures
            r@.map_values(|s: String| s@) == tag_names_for(
                self@.collection_tags,
                self@.tags,
                collection_id as int,
            ),
    {
        let mut r: Vec<String> = Vec::new();
        let mut i: usize = 0;
        proof {
            assert(self@.collection_tags.take(0) =~= Seq::<LinkV>::empty());
        }
        while i < self.collection_tags.len()
            invariant
                self.wf(),
                i <= self.collection_tags.len(),
                r@.map_values(|s: String| s@) =~= tag_names_for(
                    self@.collection_tags.take(i as int),
                    self@.tags,
                    collection_id as int,
                ),
            decreases self.collection_tags.len() - i,
        {
            let ghost taken = self@.collection_tags.take(i as int + 1);
            proof {
                assert(taken.drop_last() =~= self@.collection_tags.take(i as int));
                assert(taken.last() == self@.collection_tags[i as int]);
            }
            let link = &self.collection_tags[i];
            proof {
                assert(link@ == self@.collection_tags[i as int]);
            }
            if link.collection_id == collection_id {
                // The link references an existing tag row by position.
                assert(1 <= link.tag_id as int <= self@.tags.len());
                let tag_count = self.tags.len();
                assert(link.tag_id as int <= tag_count as int);
                let tag_row = &self.tags[(link.tag_id as usize) - 1];
                proof {
                    assert(tag_row@ == self@.tags[link.tag_id as int - 1]);
                }
                let name = tag_row.name.clone();
                assert(name@ == self@.tags[link.tag_id as int - 1].name);
                r.push(name);
                proof {
                    assert(r@.map_values(|s: String| s@) =~= tag_names_for(
                        taken,
                        self@.tags,
                        collection_id as int,
                    ));
                }
            } else {
                assert(taken.last().collection_id != collection_id as int);
            }
            i = i + 1;
        }
        proof {
            assert(self@.collection_tags.take(self.collection_tags.len() as int)
                =~= self@.collection_tags);
        }
        r
    }

    /// Reports every item joined with its collection's title and tag names,
    /// in ascending hash order.
    pub fn get_items(&self) -> (r: Vec<Item>)
        requires
            self.wf(),
        ensures
            r@.map_values(|it: Item| it@) == items_view(self@),
    {
        let mut result: Vec<Item> = Vec::new();
        let mut i: usize = 0;
        while i < self.items.len()
            invariant
                self.wf(),
                i <= self.items.len(),
                result@.map_values(|it: Item| it@) =~= items_view(self@).take(i as int),
            decreases self.items.len() - i,
        {
            let row = &self.items[i];
            proof {
                assert(row@ == self@.items[i as int]);
            }
            assert(1 <= row.collection_id as int <= self@.collections.len());
            let coll_count = self.collections.len();
            assert(row.collection_id as int <= coll_count as int);
            let coll = &self.collections[(row.collection_id as usize) - 1];
            proof {
                assert(coll@ == self@.collections[row.collection_id as int - 1]);
            }
            let title = coll.title.clone();
            assert(title@ == self@.collections[row.collection_id as int - 1].title);
            let tags = self.tags_for(row.collection_id);
            let item = Item {
                hash: row.hash.clone(),
                title,
                ext: row.ext.clone(),
                collection_id: row.collection_id,
                tags,
            };
            proof {
                let rec = item_record(self@, self@.items[i as int]);
                assert(item@.hash == rec.hash);
                assert(item@.title == rec.title);
                assert(item@.ext == rec.ext);
                assert(item@.collection_id == rec.collection_id);
                assert(item@.tags == rec.tags);
                assert(item@ == rec);
            }
            let ghost prev = result@;
            let ghost item_g = item;
            result.push(item);
            proof {
                let rec = item_record(self@, self@.items[i as int]);
                assert(result@ =~= prev.push(item_g));
                assert(prev.map_values(|it: Item| it@).len() == prev.len());
                assert(items_view(self@).len() == self@.items.len());
                assert(prev.len() == i as int);
                assert(result@.len() == i + 1);
                let mapped = result@.map_values(|it: Item| it@);
                let tgt = items_view(self@).take(i as int + 1);
                assert forall|j: int| 0 <= j < i + 1 implies #[trigger] mapped[j] == tgt[j] by {
                    if j < i {
                        assert(prev.map_values(|it: Item| it@)[j] == items_view(self@).take(
                            i as int,
                        )[j]);
                        assert(result@[j] == prev[j]);
                    } else {
                        assert(result@[j] == item_g);
                        assert(items_view(self@)[j] == rec);
                    }
                }
                assert(result@.map_values(|it: Item| it@) =~= items_view(self@).take(
                    i as int + 1,
                ));
            }
            i = i + 1;
        }
        proof {
            assert(items_view(self@).take(self.items.len() as int) =~= items_view(self@));
        }
        result
    }
}

} // verus!
