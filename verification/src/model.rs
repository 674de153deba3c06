//! The mathematical model of the store: four append-ordered tables of rows,
//! the well-formedness invariant, and one transition per write operation. The
//! repository's contracts are stated over this model, and the laws of the
//! registry are proved about these transitions.

use vstd::prelude::*;
use crate::records::{CatProfileV, CatV, SightingV};

verus! {

/// A stored cat row: the assigned id, the profile, and the creation metadata.
#[verifier::ext_equal]
pub struct CatRow {
    pub id: u32,
    pub profile: CatProfileV,
    pub created_ms: u64,
    pub origin: Seq<char>,
}

/// A stored sighting row, owned by the cat `for_cat` names. The reference is
/// not validated: appending sightings for an id that was never assigned
/// succeeds and simply leaves orphaned rows.
#[verifier::ext_equal]
pub struct SightingRow {
    pub id: u32,
    pub for_cat: u32,
    pub data: SightingV,
    pub created_ms: u64,
    pub origin: Seq<char>,
}

/// A stored image row: the raw bytes, the MIME essence they were uploaded
/// under, and that MIME's subtype, which alone addresses the image later.
#[verifier::ext_equal]
pub struct ImageRow {
    pub id: u32,
    pub bytes: Seq<u8>,
    pub essence: Seq<u8>,
    pub subtype: Seq<u8>,
    pub created_ms: u64,
    pub origin: Seq<char>,
}

impl ImageRow {
    /// The part of an image row a fetch hands back.
    pub open spec fn blob(self) -> crate::records::ImageBlobV {
        crate::records::ImageBlobV {
            bytes: self.bytes,
            essence: self.essence,
            subtype: self.subtype,
        }
    }
}

/// The mutable fields of a cat profile: everything but the name.
#[verifier::ext_equal]
pub struct MutFieldsV {
    pub colour: Seq<char>,
    pub markings: Option<Seq<char>>,
    pub collar: Option<Seq<char>>,
    pub description: Option<Seq<char>>,
    pub best_image: Option<(u32, u32)>,
}

/// The mutable fields of a profile, the part an edit snapshot captures.
pub open spec fn mut_fields(p: CatProfileV) -> MutFieldsV {
    MutFieldsV {
        colour: p.colour,
        markings: p.markings,
        collar: p.collar,
        description: p.description,
        best_image: p.best_image,
    }
}

/// An audit row: who edited which cat when, and a snapshot of the mutable
/// profile fields as they stood immediately before that edit.
#[verifier::ext_equal]
pub struct EditRow {
    pub for_cat: u32,
    pub edit_ms: u64,
    pub origin: Seq<char>,
    pub snapshot: MutFieldsV,
}

/// The whole store: the four tables in insertion order, and the next synthetic
/// id of each id-carrying table. Ids start at 1 and are never reused.
#[verifier::ext_equal]
pub struct StoreModel {
    pub cats: Seq<CatRow>,
    pub sightings: Seq<SightingRow>,
    pub images: Seq<ImageRow>,
    pub edits: Seq<EditRow>,
    pub next_cat: u64,
    pub next_sighting: u64,
    pub next_image: u64,
}

/// The sighting rows belonging to one cat, in table order.
pub open spec fn rows_for_cat(rows: Seq<SightingRow>, id: u32) -> Seq<SightingRow>
    decreases rows.len(),
{
    if rows.len() == 0 {
        Seq::empty()
    } else if rows.last().for_cat == id {
        rows_for_cat(rows.drop_last(), id).push(rows.last())
    } else {
        rows_for_cat(rows.drop_last(), id)
    }
}

/// The audit rows for one cat, in table order: its edit history.
pub open spec fn edits_for_cat(rows: Seq<EditRow>, id: u32) -> Seq<EditRow>
    decreases rows.len(),
{
    if rows.len() == 0 {
        Seq::empty()
    } else if rows.last().for_cat == id {
        edits_for_cat(rows.drop_last(), id).push(rows.last())
    } else {
        edits_for_cat(rows.drop_last(), id)
    }
}

impl StoreModel {
    /// The empty store, as a fresh repository starts.
    pub open spec fn init() -> StoreModel {
        StoreModel {
            cats: Seq::empty(),
            sightings: Seq::empty(),
            images: Seq::empty(),
            edits: Seq::empty(),
            next_cat: 1,
            next_sighting: 1,
            next_image: 1,
        }
    }

    /// Well-formedness: ids grow strictly along each table, stay below the
    /// table's next id, and every audit row points at an existing cat.
    pub open spec fn inv(self) -> bool {
        &&& 1 <= self.next_cat <= u32::MAX as u64 + 1
        &&& 1 <= self.next_sighting <= u32::MAX as u64 + 1
        &&& 1 <= self.next_image <= u32::MAX as u64 + 1
        &&& forall|i: int| 0 <= i < self.cats.len()
            ==> (#[trigger] self.cats[i]).id < self.next_cat
        &&& forall|i: int, j: int| 0 <= i < j < self.cats.len()
            ==> self.cats[i].id < self.cats[j].id
        &&& forall|i: int| 0 <= i < self.sightings.len()
            ==> (#[trigger] self.sightings[i]).id < self.next_sighting
        &&& forall|i: int, j: int| 0 <= i < j < self.sightings.len()
            ==> self.sightings[i].id < self.sightings[j].id
        &&& forall|i: int| 0 <= i < self.images.len()
            ==> (#[trigger] self.images[i]).id < self.next_image
        &&& forall|i: int, j: int| 0 <= i < j < self.images.len()
            ==> self.images[i].id < self.images[j].id
        &&& forall|k: int| 0 <= k < self.edits.len()
            ==> self.has_cat((#[trigger] self.edits[k]).for_cat)
    }

    /// Is a cat with this id stored?
    pub open spec fn has_cat(self, id: u32) -> bool {
        exists|i: int| 0 <= i < self.cats.len() && (#[trigger] self.cats[i]).id == id
    }

    /// The index of the cat with this id (unique under `inv`).
    pub open spec fn cat_index(self, id: u32) -> int {
        choose|i: int| 0 <= i < self.cats.len() && (#[trigger] self.cats[i]).id == id
    }

    /// The stored row of the cat with this id.
    pub open spec fn cat_row(self, id: u32) -> CatRow {
        self.cats[self.cat_index(id)]
    }

    /// Is an image with this id stored?
    pub open spec fn has_image(self, id: u32) -> bool {
        exists|i: int| 0 <= i < self.images.len() && (#[trigger] self.images[i]).id == id
    }

    /// The index of the image with this id (unique under `inv`).
    pub open spec fn image_index(self, id: u32) -> int {
        choose|i: int| 0 <= i < self.images.len() && (#[trigger] self.images[i]).id == id
    }

    /// The stored row of the image with this id.
    pub open spec fn image_row(self, id: u32) -> ImageRow {
        self.images[self.image_index(id)]
    }

    /// Every stored cat id, in table order.
    pub open spec fn cat_ids(self) -> Seq<u32> {
        self.cats.map_values(|r: CatRow| r.id)
    }

    /// The full cat a fetch assembles: the profile row joined with the cat's
    /// sightings, or nothing when the id is unknown.
    pub open spec fn get_cat(self, id: u32) -> Option<CatV> {
        if self.has_cat(id) {
            Some(CatV {
                id,
                profile: self.cat_row(id).profile,
                sightings: rows_for_cat(self.sightings, id).map_values(|r: SightingRow| r.data),
            })
        } else {
            None
        }
    }

    /// May a cat with `n` sightings still be created? Creation is atomic, so
    /// it needs a fresh cat id and `n` fresh sighting ids.
    pub open spec fn can_create(self, n: nat) -> bool {
        &&& self.next_cat <= u32::MAX as u64
        &&& self.next_sighting + n <= u32::MAX as u64 + 1
    }

    /// The rows that inserting `list` for cat `for_cat` appends, with ids
    /// counting up from `first`.
    pub open spec fn new_sighting_rows(
        list: Seq<SightingV>,
        for_cat: u32,
        first: int,
        now_ms: u64,
        origin: Seq<char>,
    ) -> Seq<SightingRow> {
        Seq::new(list.len(), |i: int| SightingRow {
            id: (first + i) as u32,
            for_cat,
            data: list[i],
            created_ms: now_ms,
            origin,
        })
    }

    /// Create a cat and all its sightings in one step (defined under
    /// `can_create`).
    pub open spec fn create_cat(
        self,
        profile: CatProfileV,
        list: Seq<SightingV>,
        origin: Seq<char>,
        now_ms: u64,
    ) -> StoreModel {
        let id = self.next_cat as u32;
        StoreModel {
            cats: self.cats.push(CatRow { id, profile, created_ms: now_ms, origin }),
            sightings: self.sightings + Self::new_sighting_rows(
                list,
                id,
                self.next_sighting as int,
                now_ms,
                origin,
            ),
            next_cat: (self.next_cat + 1) as u64,
            next_sighting: (self.next_sighting + list.len()) as u64,
            ..self
        }
    }

    /// How many of `n` further sightings still get an id: sighting inserts are
    /// not wrapped in an outer transaction, so a failing insert keeps the rows
    /// before it.
    pub open spec fn append_fit(self, n: nat) -> nat {
        let room = u32::MAX as u64 + 1 - self.next_sighting;
        if n <= room {
            n
        } else {
            room as nat
        }
    }

    /// Append sightings for `cat_id` (which need not exist): the first
    /// `append_fit` of them are stored.
    pub open spec fn append_sightings(
        self,
        cat_id: u32,
        list: Seq<SightingV>,
        origin: Seq<char>,
        now_ms: u64,
    ) -> StoreModel {
        let fit = self.append_fit(list.len());
        StoreModel {
            sightings: self.sightings + Self::new_sighting_rows(
                list.take(fit as int),
                cat_id,
                self.next_sighting as int,
                now_ms,
                origin,
            ),
            next_sighting: (self.next_sighting + fit) as u64,
            ..self
        }
    }

    /// Overwrite a cat's mutable fields and append the audit row snapshotting
    /// them as they were, in one step (defined under `has_cat`). The name is
    /// kept whatever the new profile says.
    pub open spec fn update_cat(
        self,
        id: u32,
        p: CatProfileV,
        origin: Seq<char>,
        now_ms: u64,
    ) -> StoreModel {
        let old_row = self.cat_row(id);
        let new_row = CatRow {
            profile: CatProfileV {
                name: old_row.profile.name,
                colour: p.colour,
                markings: p.markings,
                collar: p.collar,
                description: p.description,
                best_image: p.best_image,
            },
            ..old_row
        };
        StoreModel {
            cats: self.cats.update(self.cat_index(id), new_row),
            edits: self.edits.push(EditRow {
                for_cat: id,
                edit_ms: now_ms,
                origin,
                snapshot: mut_fields(old_row.profile),
            }),
            ..self
        }
    }

    /// May another image still be stored?
    pub open spec fn can_store_image(self) -> bool {
        self.next_image <= u32::MAX as u64
    }

    /// Store an image blob (defined under `can_store_image`).
    pub open spec fn store_image(
        self,
        bytes: Seq<u8>,
        essence: Seq<u8>,
        subtype: Seq<u8>,
        origin: Seq<char>,
        now_ms: u64,
    ) -> StoreModel {
        StoreModel {
            images: self.images.push(ImageRow {
                id: self.next_image as u32,
                bytes,
                essence,
                subtype,
                created_ms: now_ms,
                origin,
            }),
            next_image: (self.next_image + 1) as u64,
            ..self
        }
    }
}

/// Creation preserves well-formedness: the new cat and sighting rows take the
/// next ids, so the tables stay strictly increasing.
pub proof fn lemma_create_preserves_inv(
    m: StoreModel,
    p: CatProfileV,
    list: Seq<SightingV>,
    origin: Seq<char>,
    now_ms: u64,
)
    requires
        m.inv(),
        m.can_create(list.len()),
    ensures
        m.create_cat(p, list, origin, now_ms).inv(),
{
    let m2 = m.create_cat(p, list, origin, now_ms);
    let fresh = StoreModel::new_sighting_rows(
        list,
        m.next_cat as u32,
        m.next_sighting as int,
        now_ms,
        origin,
    );
    assert forall|i: int| 0 <= i < m2.cats.len()
        implies (#[trigger] m2.cats[i]).id < m2.next_cat by {
        if i < m.cats.len() {
            assert(m2.cats[i] == m.cats[i]);
        }
    }
    assert forall|i: int, j: int| 0 <= i < j < m2.cats.len()
        implies m2.cats[i].id < m2.cats[j].id by {
        if j < m.cats.len() {
            assert(m.cats[i].id < m.cats[j].id);
        } else {
            assert(m2.cats[i] == m.cats[i]);
            assert(m.cats[i].id < m.next_cat);
        }
    }
    assert forall|i: int| 0 <= i < m2.sightings.len()
        implies (#[trigger] m2.sightings[i]).id < m2.next_sighting by {
        if i < m.sightings.len() {
            assert(m2.sightings[i] == m.sightings[i]);
        } else {
            assert(m2.sightings[i] == fresh[i - m.sightings.len()]);
        }
    }
    assert forall|i: int, j: int| 0 <= i < j < m2.sightings.len()
        implies m2.sightings[i].id < m2.sightings[j].id by {
        if j < m.sightings.len() {
            assert(m.sightings[i].id < m.sightings[j].id);
        } else {
            assert(m2.sightings[j] == fresh[j - m.sightings.len()]);
            if i < m.sightings.len() {
                assert(m2.sightings[i] == m.sightings[i]);
                assert(m.sightings[i].id < m.next_sighting);
            } else {
                assert(m2.sightings[i] == fresh[i - m.sightings.len()]);
            }
        }
    }
    assert forall|k: int| 0 <= k < m2.edits.len()
        implies m2.has_cat((#[trigger] m2.edits[k]).for_cat) by {
        assert(m.has_cat(m.edits[k].for_cat));
        let w = choose|i: int|
            0 <= i < m.cats.len() && (#[trigger] m.cats[i]).id == m.edits[k].for_cat;
        assert(m2.cats[w] == m.cats[w]);
    }
}

/// Appending sightings preserves well-formedness.
pub proof fn lemma_append_preserves_inv(
    m: StoreModel,
    cat_id: u32,
    list: Seq<SightingV>,
    origin: Seq<char>,
    now_ms: u64,
)
    requires
        m.inv(),
    ensures
        m.append_sightings(cat_id, list, origin, now_ms).inv(),
{
    let m2 = m.append_sightings(cat_id, list, origin, now_ms);
    let fit = m.append_fit(list.len());
    let fresh = StoreModel::new_sighting_rows(
        list.take(fit as int),
        cat_id,
        m.next_sighting as int,
        now_ms,
        origin,
    );
    assert forall|i: int| 0 <= i < m2.sightings.len()
        implies (#[trigger] m2.sightings[i]).id < m2.next_sighting by {
        if i < m.sightings.len() {
            assert(m2.sightings[i] == m.sightings[i]);
        } else {
            assert(m2.sightings[i] == fresh[i - m.sightings.len()]);
        }
    }
    assert forall|i: int, j: int| 0 <= i < j < m2.sightings.len()
        implies m2.sightings[i].id < m2.sightings[j].id by {
        if j < m.sightings.len() {
            assert(m.sightings[i].id < m.sightings[j].id);
        } else {
            assert(m2.sightings[j] == fresh[j - m.sightings.len()]);
            if i < m.sightings.len() {
                assert(m2.sightings[i] == m.sightings[i]);
                assert(m.sightings[i].id < m.next_sighting);
            } else {
                assert(m2.sightings[i] == fresh[i - m.sightings.len()]);
            }
        }
    }
}

/// Updating a cat preserves well-formedness: the row keeps its id and place.
pub proof fn lemma_update_preserves_inv(
    m: StoreModel,
    id: u32,
    p: CatProfileV,
    origin: Seq<char>,
    now_ms: u64,
)
    requires
        m.inv(),
        m.has_cat(id),
    ensures
        m.update_cat(id, p, origin, now_ms).inv(),
{
    let m2 = m.update_cat(id, p, origin, now_ms);
    let idx = m.cat_index(id);
    assert(0 <= idx < m.cats.len() && m.cats[idx].id == id);
    assert forall|i: int| 0 <= i < m2.cats.len()
        implies (#[trigger] m2.cats[i]).id < m2.next_cat by {
        assert(m2.cats[i].id == m.cats[i].id);
    }
    assert forall|i: int, j: int| 0 <= i < j < m2.cats.len()
        implies m2.cats[i].id < m2.cats[j].id by {
        assert(m2.cats[i].id == m.cats[i].id);
        assert(m2.cats[j].id == m.cats[j].id);
    }
    assert forall|k: int| 0 <= k < m2.edits.len()
        implies m2.has_cat((#[trigger] m2.edits[k]).for_cat) by {
        if k < m.edits.len() {
            assert(m.has_cat(m.edits[k].for_cat));
            let w = choose|i: int|
                0 <= i < m.cats.len() && (#[trigger] m.cats[i]).id == m.edits[k].for_cat;
            assert(m2.cats[w].id == m.cats[w].id);
        } else {
            assert(m2.cats[idx].id == id);
        }
    }
}

/// Storing an image preserves well-formedness.
pub proof fn lemma_store_image_preserves_inv(
    m: StoreModel,
    bytes: Seq<u8>,
    essence: Seq<u8>,
    subtype: Seq<u8>,
    origin: Seq<char>,
    now_ms: u64,
)
    requires
        m.inv(),
        m.can_store_image(),
    ensures
        m.store_image(bytes, essence, subtype, origin, now_ms).inv(),
{
    let m2 = m.store_image(bytes, essence, subtype, origin, now_ms);
    assert forall|i: int| 0 <= i < m2.images.len()
        implies (#[trigger] m2.images[i]).id < m2.next_image by {
        if i < m.images.len() {
            assert(m2.images[i] == m.images[i]);
        }
    }
    assert forall|i: int, j: int| 0 <= i < j < m2.images.len()
        implies m2.images[i].id < m2.images[j].id by {
        if j < m.images.len() {
            assert(m.images[i].id < m.images[j].id);
        } else {
            assert(m2.images[i] == m.images[i]);
            assert(m.images[i].id < m.next_image);
        }
    }
}

/// Under the invariant the cat index is the one index holding `id`.
pub proof fn lemma_cat_index_unique(m: StoreModel, id: u32, i: int)
    requires
        m.inv(),
        0 <= i < m.cats.len(),
        m.cats[i].id == id,
    ensures
        m.has_cat(id),
        m.cat_index(id) == i,
{
    assert(m.has_cat(id));
    let j = m.cat_index(id);
    if i < j {
        assert(m.cats[i].id < m.cats[j].id);
    } else if j < i {
        assert(m.cats[j].id < m.cats[i].id);
    }
}

/// Under the invariant the image index is the one index holding `id`.
pub proof fn lemma_image_index_unique(m: StoreModel, id: u32, i: int)
    requires
        m.inv(),
        0 <= i < m.images.len(),
        m.images[i].id == id,
    ensures
        m.has_image(id),
        m.image_index(id) == i,
{
    assert(m.has_image(id));
    let j = m.image_index(id);
    if i < j {
        assert(m.images[i].id < m.images[j].id);
    } else if j < i {
        assert(m.images[j].id < m.images[i].id);
    }
}

} // verus!
