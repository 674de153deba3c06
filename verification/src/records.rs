//! The data carried across the API surface: sightings, cat profiles, and the
//! assembled cat record, each with a mathematical view.

use vstd::prelude::*;
use crate::model::{EditRow, MutFieldsV};

verus! {

/// The views of a sequence of sightings, elementwise.
pub open spec fn sighting_views(s: Seq<Sighting>) -> Seq<SightingV> {
    s.map_values(|x: Sighting| x@)
}

/// One observation of a cat, as reported by a client and as handed back when a
/// cat is fetched. The position is carried as the IEEE-754 bit patterns of the
/// latitude and longitude: the registry stores and returns them verbatim and
/// never computes with them.
pub struct Sighting {
    pub lat_bits: u64,
    pub long_bits: u64,
    pub who: Option<String>,
    pub when: u64,
    pub friendliness: Option<u8>,
    pub notes: Option<String>,
    pub image_urls: Vec<String>,
}

/// The view of a `Sighting`.
#[verifier::ext_equal]
pub struct SightingV {
    pub lat_bits: u64,
    pub long_bits: u64,
    pub who: Option<Seq<char>>,
    pub when: u64,
    pub friendliness: Option<u8>,
    pub notes: Option<Seq<char>>,
    pub image_urls: Seq<Seq<char>>,
}

impl View for Sighting {
    type V = SightingV;

    open spec fn view(&self) -> SightingV {
        SightingV {
            lat_bits: self.lat_bits,
            long_bits: self.long_bits,
            who: self.who.deep_view(),
            when: self.when,
            friendliness: self.friendliness,
            notes: self.notes.deep_view(),
            image_urls: self.image_urls.deep_view(),
        }
    }
}

/// A cat's profile: the name, fixed at creation, and the fields a later update
/// may replace. The best-image pair is a loose reference by image id; the
/// registry does not check that the ids exist.
pub struct CatProfile {
    pub name: String,
    pub colour: String,
    pub markings: Option<String>,
    pub collar: Option<String>,
    pub description: Option<String>,
    pub best_image: Option<(u32, u32)>,
}

/// The view of a `CatProfile`.
#[verifier::ext_equal]
pub struct CatProfileV {
    pub name: Seq<char>,
    pub colour: Seq<char>,
    pub markings: Option<Seq<char>>,
    pub collar: Option<Seq<char>>,
    pub description: Option<Seq<char>>,
    pub best_image: Option<(u32, u32)>,
}

impl View for CatProfile {
    type V = CatProfileV;

    open spec fn view(&self) -> CatProfileV {
        CatProfileV {
            name: self.name@,
            colour: self.colour@,
            markings: self.markings.deep_view(),
            collar: self.collar.deep_view(),
            description: self.description.deep_view(),
            best_image: self.best_image,
        }
    }
}

/// A full cat as fetched: the assigned id, the profile, and every sighting in
/// the order it was stored.
pub struct Cat {
    pub id: u32,
    pub profile: CatProfile,
    pub sightings: Vec<Sighting>,
}

/// The view of a `Cat`.
#[verifier::ext_equal]
pub struct CatV {
    pub id: u32,
    pub profile: CatProfileV,
    pub sightings: Seq<SightingV>,
}

impl View for Cat {
    type V = CatV;

    open spec fn view(&self) -> CatV {
        CatV {
            id: self.id,
            profile: self.profile@,
            sightings: Seq::new(self.sightings@.len(), |i: int| self.sightings@[i]@),
        }
    }
}

/// An exact copy of an optional string.
pub fn dup_opt_string(o: &Option<String>) -> (r: Option<String>)
    ensures
        r == *o,
{
    match o {
        Option::None => Option::None,
        Option::Some(s) => Option::Some(s.clone()),
    }
}

/// An exact copy of a list of strings, up to their views.
pub fn dup_string_vec(v: &Vec<String>) -> (r: Vec<String>)
    ensures
        r.deep_view() == v.deep_view(),
{
    let mut r: Vec<String> = Vec::new();
    let n = v.len();
    let mut i: usize = 0;
    while i < n
        invariant
            i <= n,
            n == v@.len(),
            r@.len() == i,
            forall|k: int| 0 <= k < i ==> #[trigger] r@[k]@ == v@[k]@,
        decreases n - i,
    {
        r.push(v[i].clone());
        i += 1;
    }
    assert(r.deep_view() =~= v.deep_view());
    r
}

impl Sighting {
    /// A copy whose view is the same.
    pub fn dup(&self) -> (r: Sighting)
        ensures
            r@ == self@,
    {
        let r = Sighting {
            lat_bits: self.lat_bits,
            long_bits: self.long_bits,
            who: dup_opt_string(&self.who),
            when: self.when,
            friendliness: self.friendliness,
            notes: dup_opt_string(&self.notes),
            image_urls: dup_string_vec(&self.image_urls),
        };
        assert(r@ =~= self@);
        r
    }
}

impl CatProfile {
    /// An exact copy.
    pub fn dup(&self) -> (r: CatProfile)
        ensures
            r == *self,
    {
        CatProfile {
            name: self.name.clone(),
            colour: self.colour.clone(),
            markings: dup_opt_string(&self.markings),
            collar: dup_opt_string(&self.collar),
            description: dup_opt_string(&self.description),
            best_image: self.best_image,
        }
    }
}

/// How a repository operation fails: the id was unknown, or the storage layer
/// could not take another row (its synthetic ids are never reused, so the id
/// space can in principle run out).
#[derive(Clone, Copy, Debug, PartialEq, Eq, Structural)]
pub enum RepoError {
    NotFound,
    Storage,
}

/// An image as fetched back: the stored bytes, the MIME essence they were
/// uploaded under, and its subtype.
pub struct ImageBlob {
    pub bytes: Vec<u8>,
    pub essence: Vec<u8>,
    pub subtype: Vec<u8>,
}

/// The view of an `ImageBlob`.
#[verifier::ext_equal]
pub struct ImageBlobV {
    pub bytes: Seq<u8>,
    pub essence: Seq<u8>,
    pub subtype: Seq<u8>,
}

impl View for ImageBlob {
    type V = ImageBlobV;

    open spec fn view(&self) -> ImageBlobV {
        ImageBlobV {
            bytes: self.bytes@,
            essence: self.essence@,
            subtype: self.subtype@,
        }
    }
}

/// One audit record, as read back from a cat's edit history.
pub struct CatEdit {
    pub for_cat: u32,
    pub edit_ms: u64,
    pub origin: String,
    pub colour: String,
    pub markings: Option<String>,
    pub collar: Option<String>,
    pub description: Option<String>,
    pub best_image: Option<(u32, u32)>,
}

impl View for CatEdit {
    type V = EditRow;

    open spec fn view(&self) -> EditRow {
        EditRow {
            for_cat: self.for_cat,
            edit_ms: self.edit_ms,
            origin: self.origin@,
            snapshot: MutFieldsV {
                colour: self.colour@,
                markings: self.markings.deep_view(),
                collar: self.collar.deep_view(),
                description: self.description.deep_view(),
                best_image: self.best_image,
            },
        }
    }
}

impl CatEdit {
    /// An exact copy.
    pub fn dup(&self) -> (r: CatEdit)
        ensures
            r == *self,
    {
        CatEdit {
            for_cat: self.for_cat,
            edit_ms: self.edit_ms,
            origin: self.origin.clone(),
            colour: self.colour.clone(),
            markings: dup_opt_string(&self.markings),
            collar: dup_opt_string(&self.collar),
            description: dup_opt_string(&self.description),
            best_image: self.best_image,
        }
    }
}

} // verus!
