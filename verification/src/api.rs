//! The dispatch layer: one verified function from a matched route, the
//! decoded request body, and the caller's origin to the response and the
//! repository transition it performs. Body decoding itself (JSON, headers)
//! is wire mechanics and stays outside; a body that failed to decode arrives
//! as `None` and is answered with 400 while the store stays untouched.

use vstd::prelude::*;
use crate::bytestr::{bytes_eq, copy_range, dec_rep, u32_to_dec};
use crate::content_type::{
    image_type_bytes, is_image_type, parse_mime_parts, spec_mime_essence,
    spec_mime_ok, spec_mime_subtype, spec_mime_type,
};
use crate::records::{sighting_views, Cat, CatProfile, ImageBlob, Sighting};
use crate::repo::Repository;
use crate::router::{lit_image_slash, make_lit_image_slash, Route, RouteV};

verus! {

/// The byte ceiling on an uploaded image body: 10 MiB.
pub const MAX_IMAGE_BYTES: usize = 10485760;

/// A decoded cat body: the profile and the sightings to create with it.
pub struct CatPayload {
    pub profile: CatProfile,
    pub sightings: Vec<Sighting>,
}

/// What the caller decoded out of the request body, matching what the route
/// expects. `None` inside a variant means the body failed to decode.
pub enum BodyInput {
    Empty,
    CatBody(Option<CatPayload>),
    SightingBody(Option<Sighting>),
    ImageBody(Vec<u8>, Option<String>),
}

/// A response payload, still as structured data: the wire encoding is the
/// caller's business.
pub enum RespBody {
    Empty,
    FullCat(Cat),
    IdList(Vec<u32>),
    NewId(u32),
    ImagePath(Vec<u8>),
    Blob(ImageBlob),
}

/// A response: the numeric status and the payload (empty on every failure).
pub struct ApiResponse {
    pub status: u16,
    pub body: RespBody,
}

/// The path an uploaded image is served back under:
/// `/api/v1/image/{id}.{subtype}`.
pub open spec fn image_path_bytes(id: u32, subtype: Seq<u8>) -> Seq<u8> {
    lit_image_slash() + dec_rep(id as nat) + seq!['.' as u8] + subtype
}

/// Build the path an uploaded image is served back under.
pub fn build_image_path(id: u32, subtype: &Vec<u8>) -> (r: Vec<u8>)
    ensures
        r@ == image_path_bytes(id, subtype@),
{
    let mut v = make_lit_image_slash();
    let digits = u32_to_dec(id);
    let mut i: usize = 0;
    let n = digits.len();
    while i < n
        invariant
            i <= n,
            n == digits@.len(),
            v@ == lit_image_slash() + digits@.take(i as int),
        decreases n - i,
    {
        v.push(digits[i]);
        assert(v@ =~= lit_image_slash() + digits@.take(i + 1));
        i += 1;
    }
    assert(digits@.take(n as int) =~= digits@);
    v.push('.' as u8);
    let m = subtype.len();
    let mut k: usize = 0;
    while k < m
        invariant
            k <= m,
            m == subtype@.len(),
            v@ == lit_image_slash() + dec_rep(id as nat) + seq!['.' as u8]
                + subtype@.take(k as int),
        decreases m - k,
    {
        v.push(subtype[k]);
        assert(v@ =~= lit_image_slash() + dec_rep(id as nat) + seq!['.' as u8]
            + subtype@.take(k + 1));
        k += 1;
    }
    assert(subtype@.take(m as int) =~= subtype@);
    assert(v@ =~= image_path_bytes(id, subtype@));
    v
}

/// Serve one matched request against the repository. Exactly one repository
/// operation runs; every failure answers with an empty body and the store
/// left as it was, except a storage failure during a partially transactional
/// sighting append, which keeps the rows that were already inserted.
pub fn handle(
    repo: &mut Repository,
    route: Route,
    body: BodyInput,
    origin: &str,
    now_ms: u64,
) -> (r: ApiResponse)
    requires
        old(repo).wf(),
    ensures
        final(repo).wf(),
        (route@ is NotFound) ==> {
            &&& r.status == 404
            &&& (r.body is Empty)
            &&& final(repo)@ == old(repo)@
        },
        (route@ is MethodRejected) ==> {
            &&& r.status == 401
            &&& (r.body is Empty)
            &&& final(repo)@ == old(repo)@
        },
        forall|id: u32| route@ == RouteV::GetCat(id) ==> {
            &&& final(repo)@ == old(repo)@
            &&& if old(repo)@.has_cat(id) {
                r.status == 200
                    && (r.body matches RespBody::FullCat(c)
                        && Some(c@) == old(repo)@.get_cat(id))
            } else {
                r.status == 404 && (r.body is Empty)
            }
        },
        (route@ is ListCats) ==> {
            &&& final(repo)@ == old(repo)@
            &&& r.status == 200
            &&& (r.body matches RespBody::IdList(v) && v@ == old(repo)@.cat_ids())
        },
        forall|id: u32, ext: Seq<u8>| route@ == RouteV::GetImage(id, ext) ==> {
            &&& final(repo)@ == old(repo)@
            &&& if old(repo)@.has_image(id) && old(repo)@.image_row(id).subtype == ext {
                r.status == 200
                    && (r.body matches RespBody::Blob(b)
                        && b@ == old(repo)@.image_row(id).blob())
            } else {
                r.status == 404 && (r.body is Empty)
            }
        },
        (route@ is CreateCat) ==> match body {
            BodyInput::CatBody(Some(p)) => {
                if old(repo)@.can_create(p.sightings@.len()) {
                    &&& r.status == 200
                    &&& (r.body matches RespBody::NewId(id)
                        && id == old(repo)@.next_cat as u32)
                    &&& final(repo)@ == old(repo)@.create_cat(
                        p.profile@, sighting_views(p.sightings@), origin@, now_ms)
                } else {
                    &&& r.status == 500
                    &&& (r.body is Empty)
                    &&& final(repo)@ == old(repo)@
                }
            },
            _ => r.status == 400 && (r.body is Empty) && final(repo)@ == old(repo)@,
        },
        forall|id: u32| route@ == RouteV::AppendSightings(id) ==> match body {
            BodyInput::SightingBody(Some(s)) => {
                &&& final(repo)@ == old(repo)@.append_sightings(
                    id, seq![s@], origin@, now_ms)
                &&& (r.body is Empty)
                &&& if old(repo)@.append_fit(1) == 1 {
                    r.status == 200
                } else {
                    r.status == 500
                }
            },
            _ => r.status == 400 && (r.body is Empty) && final(repo)@ == old(repo)@,
        },
        (route@ is StoreImage) ==> match body {
            BodyInput::ImageBody(bytes, Some(ct)) => {
                if !spec_mime_ok(ct@) || spec_mime_type(ct@) != image_type_bytes()
                    || bytes@.len() > MAX_IMAGE_BYTES {
                    r.status == 400 && (r.body is Empty) && final(repo)@ == old(repo)@
                } else if old(repo)@.can_store_image() {
                    &&& r.status == 200
                    &&& (r.body matches RespBody::ImagePath(pb)
                        && pb@ == image_path_bytes(
                            old(repo)@.next_image as u32, spec_mime_subtype(ct@)))
                    &&& final(repo)@ == old(repo)@.store_image(
                        bytes@, spec_mime_essence(ct@), spec_mime_subtype(ct@),
                        origin@, now_ms)
                } else {
                    r.status == 500 && (r.body is Empty) && final(repo)@ == old(repo)@
                }
            },
            _ => r.status == 400 && (r.body is Empty) && final(repo)@ == old(repo)@,
        },
        forall|id: u32| route@ == RouteV::UpdateCat(id) ==> match body {
            BodyInput::CatBody(Some(p)) => {
                if old(repo)@.has_cat(id) {
                    &&& r.status == 200
                    &&& (r.body is Empty)
                    &&& final(repo)@ == old(repo)@.update_cat(
                        id, p.profile@, origin@, now_ms)
                } else {
                    r.status == 404 && (r.body is Empty) && final(repo)@ == old(repo)@
                }
            },
            _ => r.status == 400 && (r.body is Empty) && final(repo)@ == old(repo)@,
        },
{
    match route {
        Route::NotFound => ApiResponse { status: 404, body: RespBody::Empty },
        Route::MethodRejected => ApiResponse { status: 401, body: RespBody::Empty },
        Route::GetCat(id) => match repo.get_cat(id) {
            Some(c) => ApiResponse { status: 200, body: RespBody::FullCat(c) },
            None => ApiResponse { status: 404, body: RespBody::Empty },
        },
        Route::ListCats => ApiResponse {
            status: 200,
            body: RespBody::IdList(repo.list_cat_ids()),
        },
        Route::GetImage(id, ext) => match repo.load_image(id) {
            None => ApiResponse { status: 404, body: RespBody::Empty },
            Some(b) => {
                if bytes_eq(ext.as_slice(), b.subtype.as_slice()) {
                    ApiResponse { status: 200, body: RespBody::Blob(b) }
                } else {
                    ApiResponse { status: 404, body: RespBody::Empty }
                }
            },
        },
        Route::CreateCat => match body {
            BodyInput::CatBody(Some(p)) => {
                let CatPayload { profile, sightings } = p;
                match repo.create_cat(profile, &sightings, origin, now_ms) {
                    Ok(id) => ApiResponse { status: 200, body: RespBody::NewId(id) },
                    Err(_) => ApiResponse { status: 500, body: RespBody::Empty },
                }
            },
            _ => ApiResponse { status: 400, body: RespBody::Empty },
        },
        Route::AppendSightings(id) => match body {
            BodyInput::SightingBody(Some(s)) => {
                let ghost s_v = s@;
                let mut items: Vec<Sighting> = Vec::new();
                items.push(s);
                proof {
                    assert(sighting_views(items@) =~= seq![s_v]);
                }
                match repo.append_sightings(id, &items, origin, now_ms) {
                    Ok(_) => ApiResponse { status: 200, body: RespBody::Empty },
                    Err(_) => ApiResponse { status: 500, body: RespBody::Empty },
                }
            },
            _ => ApiResponse { status: 400, body: RespBody::Empty },
        },
        Route::StoreImage => match body {
            BodyInput::ImageBody(bytes, Some(ct)) => {
                match parse_mime_parts(ct.as_str()) {
                    None => ApiResponse { status: 400, body: RespBody::Empty },
                    Some(parts) => {
                        if !is_image_type(&parts.top) {
                            ApiResponse { status: 400, body: RespBody::Empty }
                        } else if bytes.len() > MAX_IMAGE_BYTES {
                            ApiResponse { status: 400, body: RespBody::Empty }
                        } else {
                            let sub_copy = copy_range(
                                parts.subtype.as_slice(), 0, parts.subtype.len());
                            match repo.store_image(
                                bytes, parts.essence, parts.subtype, origin, now_ms) {
                                Ok(id) => {
                                    let path = build_image_path(id, &sub_copy);
                                    ApiResponse {
                                        status: 200,
                                        body: RespBody::ImagePath(path),
                                    }
                                },
                                Err(_) => ApiResponse {
                                    status: 500,
                                    body: RespBody::Empty,
                                },
                            }
                        }
                    },
                }
            },
            _ => ApiResponse { status: 400, body: RespBody::Empty },
        },
        Route::UpdateCat(id) => match body {
            BodyInput::CatBody(Some(p)) => {
                let CatPayload { profile, sightings: _ } = p;
                match repo.update_cat(id, profile, origin, now_ms) {
                    Ok(_) => ApiResponse { status: 200, body: RespBody::Empty },
                    Err(_) => ApiResponse { status: 404, body: RespBody::Empty },
                }
            },
            _ => ApiResponse { status: 400, body: RespBody::Empty },
        },
    }
}

} // verus!
