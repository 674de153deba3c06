//! The repository: the one owner of the stored tables. Every operation's
//! contract says exactly which transition of the store model it performs.

use vstd::prelude::*;
use crate::model::{
    edits_for_cat, lemma_cat_index_unique, lemma_image_index_unique,
    lemma_append_preserves_inv, lemma_create_preserves_inv,
    lemma_store_image_preserves_inv, lemma_update_preserves_inv, rows_for_cat,
    CatRow, ImageRow, SightingRow, StoreModel,
};
use crate::records::{
    sighting_views, Cat, CatEdit, CatProfile, ImageBlob, RepoError, Sighting,
};

verus! {

struct StoredCat {
    id: u32,
    profile: CatProfile,
    created_ms: u64,
    origin: String,
}

impl View for StoredCat {
    type V = CatRow;

    closed spec fn view(&self) -> CatRow {
        CatRow {
            id: self.id,
            profile: self.profile@,
            created_ms: self.created_ms,
            origin: self.origin@,
        }
    }
}

struct StoredSighting {
    id: u32,
    for_cat: u32,
    data: Sighting,
    created_ms: u64,
    origin: String,
}

impl View for StoredSighting {
    type V = SightingRow;

    closed spec fn view(&self) -> SightingRow {
        SightingRow {
            id: self.id,
            for_cat: self.for_cat,
            data: self.data@,
            created_ms: self.created_ms,
            origin: self.origin@,
        }
    }
}

struct StoredImage {
    id: u32,
    bytes: Vec<u8>,
    essence: Vec<u8>,
    subtype: Vec<u8>,
    created_ms: u64,
    origin: String,
}

impl View for StoredImage {
    type V = ImageRow;

    closed spec fn view(&self) -> ImageRow {
        ImageRow {
            id: self.id,
            bytes: self.bytes@,
            essence: self.essence@,
            subtype: self.subtype@,
            created_ms: self.created_ms,
            origin: self.origin@,
        }
    }
}

/// The store of the registry, holding all four tables in memory and handing
/// out fresh ids. All writes go through its methods, which keep the model
/// invariant and perform multi-row writes atomically: an operation either
/// makes its whole transition or leaves the store untouched.
pub struct Repository {
    cats: Vec<StoredCat>,
    sightings: Vec<StoredSighting>,
    images: Vec<StoredImage>,
    edits: Vec<CatEdit>,
    next_cat: u64,
    next_sighting: u64,
    next_image: u64,
}

impl View for Repository {
    type V = StoreModel;

    closed spec fn view(&self) -> StoreModel {
        StoreModel {
            cats: self.cats@.map_values(|r: StoredCat| r@),
            sightings: self.sightings@.map_values(|r: StoredSighting| r@),
            images: self.images@.map_values(|r: StoredImage| r@),
            edits: self.edits@.map_values(|r: CatEdit| r@),
            next_cat: self.next_cat,
            next_sighting: self.next_sighting,
            next_image: self.next_image,
        }
    }
}

impl Repository {
    /// Well-formedness: the store model invariant holds. `new` establishes it
    /// and every method keeps it.
    pub open spec fn wf(&self) -> bool {
        self@.inv()
    }

    /// An empty repository.
    pub fn new() -> (r: Repository)
        ensures
            r.wf(),
            r@ == StoreModel::init(),
    {
        let r = Repository {
            cats: Vec::new(),
            sightings: Vec::new(),
            images: Vec::new(),
            edits: Vec::new(),
            next_cat: 1,
            next_sighting: 1,
            next_image: 1,
        };
        proof {
            assert(r@.cats =~= StoreModel::init().cats);
            assert(r@.sightings =~= StoreModel::init().sightings);
            assert(r@.images =~= StoreModel::init().images);
            assert(r@.edits =~= StoreModel::init().edits);
            assert(r@ =~= StoreModel::init());
        }
        r
    }

    /// Every stored cat id, in table order.
    pub fn list_cat_ids(&self) -> (r: Vec<u32>)
        ensures
            r@ == self@.cat_ids(),
    {
        let mut out: Vec<u32> = Vec::new();
        let n = self.cats.len();
        let mut i: usize = 0;
        while i < n
            invariant
                i <= n,
                n == self.cats@.len(),
                out@.len() == i,
                forall|k: int| 0 <= k < i ==> out@[k] == self.cats@[k].id,
            decreases n - i,
        {
            out.push(self.cats[i].id);
            i += 1;
        }
        assert(out@ =~= self@.cat_ids());
        out
    }

    /// The index of the cat row holding `id`, if any.
    fn find_cat(&self, id: u32) -> (r: Option<usize>)
        requires
            self.wf(),
        ensures
            match r {
                Some(i) => self@.has_cat(id) && i == self@.cat_index(id)
                    && i < self@.cats.len(),
                None => !self@.has_cat(id),
            },
    {
        let n = self.cats.len();
        let mut i: usize = 0;
        while i < n
            invariant
                i <= n,
                self.wf(),
                n == self.cats@.len(),
                forall|k: int| 0 <= k < i ==> (#[trigger] self.cats@[k]).id != id,
            decreases n - i,
        {
            if self.cats[i].id == id {
                proof {
                    assert(self@.cats[i as int].id == id);
                    lemma_cat_index_unique(self@, id, i as int);
                }
                return Some(i);
            }
            i += 1;
        }
        proof {
            if self@.has_cat(id) {
                let w = choose|k: int|
                    0 <= k < self@.cats.len() && (#[trigger] self@.cats[k]).id == id;
                assert(self.cats@[w].id == id);
            }
        }
        None
    }

    /// The index of the image row holding `id`, if any.
    fn find_image(&self, id: u32) -> (r: Option<usize>)
        requires
            self.wf(),
        ensures
            match r {
                Some(i) => self@.has_image(id) && i == self@.image_index(id)
                    && i < self@.images.len(),
                None => !self@.has_image(id),
            },
    {
        let n = self.images.len();
        let mut i: usize = 0;
        while i < n
            invariant
                i <= n,
                self.wf(),
                n == self.images@.len(),
                forall|k: int| 0 <= k < i ==> (#[trigger] self.images@[k]).id != id,
            decreases n - i,
        {
            if self.images[i].id == id {
                proof {
                    assert(self@.images[i as int].id == id);
                    lemma_image_index_unique(self@, id, i as int);
                }
                return Some(i);
            }
            i += 1;
        }
        proof {
            if self@.has_image(id) {
                let w = choose|k: int|
                    0 <= k < self@.images.len() && (#[trigger] self@.images[k]).id == id;
                assert(self.images@[w].id == id);
            }
        }
        None
    }

    /// Store an image blob under the next image id.
    pub fn store_image(
        &mut self,
        bytes: Vec<u8>,
        essence: Vec<u8>,
        subtype: Vec<u8>,
        origin: &str,
        now_ms: u64,
    ) -> (r: Result<u32, RepoError>)
        requires
            old(self).wf(),
        ensures
            final(self).wf(),
            old(self)@.can_store_image() ==> {
                &&& r == Ok::<u32, RepoError>(old(self)@.next_image as u32)
                &&& final(self)@ == old(self)@.store_image(
                    bytes@, essence@, subtype@, origin@, now_ms)
            },
            !old(self)@.can_store_image() ==> {
                &&& r == Err::<u32, RepoError>(RepoError::Storage)
                &&& final(self)@ == old(self)@
            },
    {
        if self.next_image > u32::MAX as u64 {
            return Err(RepoError::Storage);
        }
        let ghost bytes_v = bytes@;
        let ghost essence_v = essence@;
        let ghost subtype_v = subtype@;
        let id = self.next_image as u32;
        self.images.push(StoredImage {
            id,
            bytes,
            essence,
            subtype,
            created_ms: now_ms,
            origin: origin.to_owned(),
        });
        self.next_image = self.next_image + 1;
        proof {
            let m2 = old(self)@.store_image(bytes_v, essence_v, subtype_v, origin@, now_ms);
            assert(self@.images =~= m2.images);
            assert(self@ =~= m2);
            lemma_store_image_preserves_inv(
                old(self)@, bytes_v, essence_v, subtype_v, origin@, now_ms);
        }
        Ok(id)
    }

    /// Fetch a full cat by id: its profile and all its sightings, assembled
    /// in table order.
    pub fn get_cat(&self, id: u32) -> (r: Option<Cat>)
        requires
            self.wf(),
        ensures
            self@.has_cat(id) ==> (r matches Some(c) && Some(c@) == self@.get_cat(id)),
            !self@.has_cat(id) ==> r is None,
    {
        let idx = match self.find_cat(id) {
            None => {
                return None;
            },
            Some(i) => i,
        };
        let mut out: Vec<Sighting> = Vec::new();
        let n = self.sightings.len();
        let mut i: usize = 0;
        while i < n
            invariant
                self.wf(),
                i <= n,
                n == self.sightings@.len(),
                out@.len() == rows_for_cat(self@.sightings.take(i as int), id).len(),
                forall|k: int| 0 <= k < out@.len()
                    ==> #[trigger] out@[k]@
                        == rows_for_cat(self@.sightings.take(i as int), id)[k].data,
            decreases n - i,
        {
            proof {
                assert(self@.sightings.take(i + 1).drop_last()
                    =~= self@.sightings.take(i as int));
                assert(self@.sightings.take(i + 1).last() == self@.sightings[i as int]);
            }
            if self.sightings[i].for_cat == id {
                out.push(self.sightings[i].data.dup());
            }
            i += 1;
        }
        proof {
            assert(self@.sightings.take(n as int) =~= self@.sightings);
        }
        let c = Cat {
            id,
            profile: self.cats[idx].profile.dup(),
            sightings: out,
        };
        proof {
            assert(c@.sightings =~= self@.get_cat(id).unwrap().sightings);
            assert(c@ =~= self@.get_cat(id).unwrap());
        }
        Some(c)
    }

    /// Append `count` of the given sightings as fresh rows for `for_cat`,
    /// ids counting up from the next sighting id.
    fn insert_sighting_rows(
        &mut self,
        list: &Vec<Sighting>,
        count: usize,
        for_cat: u32,
        origin: &str,
        now_ms: u64,
    )
        requires
            count <= list@.len(),
            old(self)@.next_sighting + count <= u32::MAX as u64 + 1,
        ensures
            final(self)@.cats == old(self)@.cats,
            final(self)@.images == old(self)@.images,
            final(self)@.edits == old(self)@.edits,
            final(self)@.next_cat == old(self)@.next_cat,
            final(self)@.next_image == old(self)@.next_image,
            final(self)@.next_sighting == old(self)@.next_sighting + count,
            final(self)@.sightings == old(self)@.sightings + StoreModel::new_sighting_rows(
                sighting_views(list@).take(count as int),
                for_cat,
                old(self)@.next_sighting as int,
                now_ms,
                origin@,
            ),
    {
        let ghost base = self@.sightings;
        let ghost first = self.next_sighting as int;
        let mut k: usize = 0;
        while k < count
            invariant
                k <= count <= list@.len(),
                first + count <= u32::MAX as u64 + 1,
                self.next_sighting == first + k,
                self@.cats == old(self)@.cats,
                self@.images == old(self)@.images,
                self@.edits == old(self)@.edits,
                self@.next_cat == old(self)@.next_cat,
                self@.next_image == old(self)@.next_image,
                base == old(self)@.sightings,
                first == old(self)@.next_sighting,
                self@.sightings == base + StoreModel::new_sighting_rows(
                    sighting_views(list@).take(k as int),
                    for_cat,
                    first,
                    now_ms,
                    origin@,
                ),
            decreases count - k,
        {
            let ghost pre = self@.sightings;
            let sid = self.next_sighting as u32;
            self.sightings.push(StoredSighting {
                id: sid,
                for_cat,
                data: list[k].dup(),
                created_ms: now_ms,
                origin: origin.to_owned(),
            });
            self.next_sighting = self.next_sighting + 1;
            proof {
                assert(self@.cats =~= old(self)@.cats);
                assert(self@.images =~= old(self)@.images);
                assert(self@.edits =~= old(self)@.edits);
                assert(self@.sightings =~= pre.push(SightingRow {
                    id: sid,
                    for_cat,
                    data: sighting_views(list@)[k as int],
                    created_ms: now_ms,
                    origin: origin@,
                }));
                assert(self@.sightings =~= base + StoreModel::new_sighting_rows(
                    sighting_views(list@).take(k + 1),
                    for_cat,
                    first,
                    now_ms,
                    origin@,
                ));
            }
            k += 1;
        }
    }

    /// Create a cat and all its supplied sightings in one atomic step: either
    /// the cat row and every sighting row are stored under fresh ids, or (if
    /// the id space cannot take them) nothing is.
    pub fn create_cat(
        &mut self,
        profile: CatProfile,
        sightings: &Vec<Sighting>,
        origin: &str,
        now_ms: u64,
    ) -> (r: Result<u32, RepoError>)
        requires
            old(self).wf(),
        ensures
            final(self).wf(),
            old(self)@.can_create(sightings@.len()) ==> {
                &&& r == Ok::<u32, RepoError>(old(self)@.next_cat as u32)
                &&& final(self)@ == old(self)@.create_cat(
                    profile@, sighting_views(sightings@), origin@, now_ms)
            },
            !old(self)@.can_create(sightings@.len()) ==> {
                &&& r == Err::<u32, RepoError>(RepoError::Storage)
                &&& final(self)@ == old(self)@
            },
    {
        let n = sightings.len();
        if self.next_cat > u32::MAX as u64
            || n as u64 > u32::MAX as u64 + 1 - self.next_sighting {
            return Err(RepoError::Storage);
        }
        let ghost profile_v = profile@;
        let id = self.next_cat as u32;
        self.cats.push(StoredCat {
            id,
            profile,
            created_ms: now_ms,
            origin: origin.to_owned(),
        });
        self.next_cat = self.next_cat + 1;
        proof {
            assert(self@.cats =~= old(self)@.cats.push(CatRow {
                id,
                profile: profile_v,
                created_ms: now_ms,
                origin: origin@,
            }));
            assert(self@.sightings =~= old(self)@.sightings);
            assert(self@.images =~= old(self)@.images);
            assert(self@.edits =~= old(self)@.edits);
        }
        self.insert_sighting_rows(sightings, n, id, origin, now_ms);
        proof {
            assert(sighting_views(sightings@).take(n as int) =~= sighting_views(sightings@));
            assert(self@ =~= old(self)@.create_cat(
                profile_v, sighting_views(sightings@), origin@, now_ms));
            lemma_create_preserves_inv(
                old(self)@, profile_v, sighting_views(sightings@), origin@, now_ms);
        }
        Ok(id)
    }

    /// Append sightings for `cat_id`, which is not checked to exist. Each
    /// sighting is a single-row insert: the ones that still get an id are
    /// stored even when a later one fails.
    pub fn append_sightings(
        &mut self,
        cat_id: u32,
        sightings: &Vec<Sighting>,
        origin: &str,
        now_ms: u64,
    ) -> (r: Result<(), RepoError>)
        requires
            old(self).wf(),
        ensures
            final(self).wf(),
            final(self)@ == old(self)@.append_sightings(
                cat_id, sighting_views(sightings@), origin@, now_ms),
            old(self)@.append_fit(sightings@.len()) == sightings@.len()
                ==> r == Ok::<(), RepoError>(()),
            old(self)@.append_fit(sightings@.len()) != sightings@.len()
                ==> r == Err::<(), RepoError>(RepoError::Storage),
    {
        let room = u32::MAX as u64 + 1 - self.next_sighting;
        let n = sightings.len();
        let fit: usize = if n as u64 <= room {
            n
        } else {
            room as usize
        };
        assert(fit as nat == old(self)@.append_fit(sightings@.len()));
        self.insert_sighting_rows(sightings, fit, cat_id, origin, now_ms);
        proof {
            assert(self@ =~= old(self)@.append_sightings(
                cat_id, sighting_views(sightings@), origin@, now_ms));
            lemma_append_preserves_inv(
                old(self)@, cat_id, sighting_views(sightings@), origin@, now_ms);
        }
        if fit < n {
            Err(RepoError::Storage)
        } else {
            Ok(())
        }
    }

    /// Overwrite a cat's mutable profile fields, recording the audit row that
    /// snapshots them as they stood, in one atomic step. The name is kept
    /// whatever the new profile carries.
    pub fn update_cat(
        &mut self,
        cat_id: u32,
        profile: CatProfile,
        origin: &str,
        now_ms: u64,
    ) -> (r: Result<(), RepoError>)
        requires
            old(self).wf(),
        ensures
            final(self).wf(),
            old(self)@.has_cat(cat_id) ==> {
                &&& r == Ok::<(), RepoError>(())
                &&& final(self)@ == old(self)@.update_cat(cat_id, profile@, origin@, now_ms)
            },
            !old(self)@.has_cat(cat_id) ==> {
                &&& r == Err::<(), RepoError>(RepoError::NotFound)
                &&& final(self)@ == old(self)@
            },
    {
        let idx = match self.find_cat(cat_id) {
            None => {
                return Err(RepoError::NotFound);
            },
            Some(i) => i,
        };
        let ghost profile_v = profile@;
        let old_row = self.cats.remove(idx);
        let StoredCat { id: row_id, profile: old_profile, created_ms, origin: row_origin }
            = old_row;
        let CatProfile {
            name: old_name,
            colour: old_colour,
            markings: old_markings,
            collar: old_collar,
            description: old_description,
            best_image: old_best_image,
        } = old_profile;
        let CatProfile { name: _, colour, markings, collar, description, best_image }
            = profile;
        let edit = CatEdit {
            for_cat: cat_id,
            edit_ms: now_ms,
            origin: origin.to_owned(),
            colour: old_colour,
            markings: old_markings,
            collar: old_collar,
            description: old_description,
            best_image: old_best_image,
        };
        let new_row = StoredCat {
            id: row_id,
            profile: CatProfile {
                name: old_name,
                colour,
                markings,
                collar,
                description,
                best_image,
            },
            created_ms,
            origin: row_origin,
        };
        self.cats.insert(idx, new_row);
        self.edits.push(edit);
        proof {
            let m2 = old(self)@.update_cat(cat_id, profile_v, origin@, now_ms);
            assert(self@.cats =~= m2.cats);
            assert(self@.edits =~= m2.edits);
            assert(self@.sightings =~= m2.sightings);
            assert(self@.images =~= m2.images);
            assert(self@ =~= m2);
            lemma_update_preserves_inv(old(self)@, cat_id, profile_v, origin@, now_ms);
        }
        Ok(())
    }

    /// The audit rows for one cat, in table order: its whole edit history.
    pub fn list_edits(&self, cat_id: u32) -> (r: Vec<CatEdit>)
        ensures
            r@.map_values(|e: CatEdit| e@) == edits_for_cat(self@.edits, cat_id),
    {
        let mut out: Vec<CatEdit> = Vec::new();
        let n = self.edits.len();
        let mut i: usize = 0;
        while i < n
            invariant
                i <= n,
                n == self.edits@.len(),
                out@.len() == edits_for_cat(self@.edits.take(i as int), cat_id).len(),
                forall|k: int| 0 <= k < out@.len()
                    ==> #[trigger] out@[k]@
                        == edits_for_cat(self@.edits.take(i as int), cat_id)[k],
            decreases n - i,
        {
            proof {
                assert(self@.edits.take(i + 1).drop_last() =~= self@.edits.take(i as int));
                assert(self@.edits.take(i + 1).last() == self@.edits[i as int]);
            }
            if self.edits[i].for_cat == cat_id {
                out.push(self.edits[i].dup());
            }
            i += 1;
        }
        proof {
            assert(self@.edits.take(n as int) =~= self@.edits);
            assert(out@.map_values(|e: CatEdit| e@) =~= edits_for_cat(self@.edits, cat_id));
        }
        out
    }

    /// Fetch an image blob by id.
    pub fn load_image(&self, id: u32) -> (r: Option<ImageBlob>)
        requires
            self.wf(),
        ensures
            self@.has_image(id) ==> (r matches Some(b) && b@ == self@.image_row(id).blob()),
            !self@.has_image(id) ==> r is None,
    {
        match self.find_image(id) {
            None => None,
            Some(i) => {
                let row = &self.images[i];
                let b = ImageBlob {
                    bytes: row.bytes.clone(),
                    essence: row.essence.clone(),
                    subtype: row.subtype.clone(),
                };
                proof {
                    assert(b.bytes@ =~= row.bytes@);
                    assert(b.essence@ =~= row.essence@);
                    assert(b.subtype@ =~= row.subtype@);
                    assert(b@ =~= self@.image_row(id).blob());
                }
                Some(b)
            },
        }
    }
}

} // verus!
