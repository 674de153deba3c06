//! The route table and the dispatcher, exercised end to end over the URL
//! surface, including the concrete scenarios the registry promises.

use catmap::api::{handle, ApiResponse, BodyInput, CatPayload, RespBody, MAX_IMAGE_BYTES};
use catmap::records::{CatProfile, Sighting};
use catmap::repo::Repository;
use catmap::router::{route, Method, Route};

fn profile(name: &str, colour: &str) -> CatProfile {
    CatProfile {
        name: name.to_owned(),
        colour: colour.to_owned(),
        markings: None,
        collar: None,
        description: None,
        best_image: None,
    }
}

fn sighting(lat: f64, long: f64, when: u64, urls: Vec<String>) -> Sighting {
    Sighting {
        lat_bits: lat.to_bits(),
        long_bits: long.to_bits(),
        who: None,
        when,
        friendliness: None,
        notes: None,
        image_urls: urls,
    }
}

fn get(repo: &mut Repository, url: &str) -> ApiResponse {
    let r = route(Method::Get, url.as_bytes());
    handle(repo, r, BodyInput::Empty, "test", 0)
}

#[test]
fn routes_match_the_table() {
    assert!(matches!(route(Method::Get, b"/api/v1/cat/15"), Route::GetCat(15)));
    assert!(matches!(route(Method::Get, b"/api/v1/list_cats"), Route::ListCats));
    match route(Method::Get, b"/api/v1/image/3.png") {
        Route::GetImage(3, ext) => assert_eq!(ext, b"png".to_vec()),
        other => panic!("wrong route: {:?}", route_name(&other)),
    }
    assert!(matches!(route(Method::Post, b"/api/v1/cat"), Route::CreateCat));
    assert!(matches!(
        route(Method::Post, b"/api/v1/cat/8/sightings"),
        Route::AppendSightings(8)
    ));
    assert!(matches!(route(Method::Post, b"/api/v1/image"), Route::StoreImage));
    assert!(matches!(route(Method::Put, b"/api/v1/cat/2"), Route::UpdateCat(2)));
}

fn route_name(r: &Route) -> &'static str {
    match r {
        Route::GetCat(_) => "GetCat",
        Route::ListCats => "ListCats",
        Route::GetImage(_, _) => "GetImage",
        Route::CreateCat => "CreateCat",
        Route::AppendSightings(_) => "AppendSightings",
        Route::StoreImage => "StoreImage",
        Route::UpdateCat(_) => "UpdateCat",
        Route::NotFound => "NotFound",
        Route::MethodRejected => "MethodRejected",
    }
}

#[test]
fn unmatched_and_malformed_paths_are_not_found() {
    assert!(matches!(route(Method::Get, b"/"), Route::NotFound));
    assert!(matches!(route(Method::Get, b"/api/v1/cat"), Route::NotFound));
    assert!(matches!(route(Method::Get, b"/api/v1/cat/"), Route::NotFound));
    assert!(matches!(route(Method::Get, b"/api/v1/cat/abc"), Route::NotFound));
    assert!(matches!(route(Method::Get, b"/api/v1/cat/1/extra"), Route::NotFound));
    assert!(matches!(route(Method::Get, b"/api/v1/cats/1"), Route::NotFound));
    assert!(matches!(route(Method::Get, b"/api/v1/image/noext"), Route::NotFound));
    assert!(matches!(route(Method::Get, b"/api/v1/image/x.png"), Route::NotFound));
    assert!(matches!(route(Method::Post, b"/api/v1/cat/8/sighting"), Route::NotFound));
    assert!(matches!(route(Method::Post, b"/api/v1/cat/x/sightings"), Route::NotFound));
    assert!(matches!(route(Method::Put, b"/api/v1/image"), Route::NotFound));
    assert!(matches!(route(Method::Other, b"/api/v1/cat/1"), Route::MethodRejected));
}

#[test]
fn id_segments_parse_like_the_standard_parser() {
    // A leading plus is accepted, as `str::parse::<u32>` accepts it.
    assert!(matches!(route(Method::Get, b"/api/v1/cat/+15"), Route::GetCat(15)));
    // A value beyond u32 is not a valid id segment.
    assert!(matches!(route(Method::Get, b"/api/v1/cat/4294967296"), Route::NotFound));
    // Query strings are not stripped: the segment fails to parse.
    assert!(matches!(route(Method::Get, b"/api/v1/cat/1?x=y"), Route::NotFound));
}

#[test]
fn unknown_id_is_404_on_an_empty_store() {
    let mut repo = Repository::new();
    let resp = get(&mut repo, "/api/v1/cat/999999");
    assert_eq!(resp.status, 404);
    assert!(matches!(resp.body, RespBody::Empty));
}

#[test]
fn unsupported_method_gets_the_fixed_rejection_code() {
    let mut repo = Repository::new();
    let r = route(Method::Other, b"/api/v1/list_cats");
    let resp = handle(&mut repo, r, BodyInput::Empty, "test", 0);
    assert_eq!(resp.status, 401);
    assert!(matches!(resp.body, RespBody::Empty));
}

#[test]
fn malformed_body_is_400_and_the_server_keeps_serving() {
    let mut repo = Repository::new();
    // A body that failed to decode arrives as None and is answered with 400.
    let r = route(Method::Post, b"/api/v1/cat");
    let resp = handle(&mut repo, r, BodyInput::CatBody(None), "test", 0);
    assert_eq!(resp.status, 400);
    assert!(matches!(resp.body, RespBody::Empty));

    // The store is untouched and the next request works.
    let r = route(Method::Post, b"/api/v1/cat");
    let payload = CatPayload { profile: profile("Tom", "grey"), sightings: vec![] };
    let resp = handle(&mut repo, r, BodyInput::CatBody(Some(payload)), "test", 0);
    assert_eq!(resp.status, 200);
    assert!(matches!(resp.body, RespBody::NewId(1)));
}

#[test]
fn create_fetch_update_scenario() {
    let mut repo = Repository::new();

    // Create cat {name: "Tom", colour: "grey", one sighting at [51.5, -0.1]}.
    let payload = CatPayload {
        profile: profile("Tom", "grey"),
        sightings: vec![sighting(51.5, -0.1, 1000, vec![])],
    };
    let r = route(Method::Post, b"/api/v1/cat");
    let resp = handle(&mut repo, r, BodyInput::CatBody(Some(payload)), "9.9.9.9", 1);
    assert_eq!(resp.status, 200);
    assert!(matches!(resp.body, RespBody::NewId(1)));

    // GET /api/v1/cat/1 returns the same cat with one sighting.
    let resp = get(&mut repo, "/api/v1/cat/1");
    assert_eq!(resp.status, 200);
    match resp.body {
        RespBody::FullCat(cat) => {
            assert_eq!(cat.id, 1);
            assert_eq!(cat.profile.name, "Tom");
            assert_eq!(cat.profile.colour, "grey");
            assert_eq!(cat.sightings.len(), 1);
            assert_eq!(f64::from_bits(cat.sightings[0].lat_bits), 51.5);
            assert_eq!(f64::from_bits(cat.sightings[0].long_bits), -0.1);
            assert_eq!(cat.sightings[0].when, 1000);
            assert!(cat.sightings[0].image_urls.is_empty());
        }
        _ => panic!("expected a cat body"),
    }

    // PUT /api/v1/cat/1 with colour "black".
    let update = CatPayload { profile: profile("Tom", "black"), sightings: vec![] };
    let r = route(Method::Put, b"/api/v1/cat/1");
    let resp = handle(&mut repo, r, BodyInput::CatBody(Some(update)), "9.9.9.9", 2);
    assert_eq!(resp.status, 200);

    // The cat now shows colour "black" and one edit snapshots "grey".
    let resp = get(&mut repo, "/api/v1/cat/1");
    match resp.body {
        RespBody::FullCat(cat) => assert_eq!(cat.profile.colour, "black"),
        _ => panic!("expected a cat body"),
    }
    let edits = repo.list_edits(1);
    assert_eq!(edits.len(), 1);
    assert_eq!(edits[0].colour, "grey");
}

#[test]
fn list_cats_lists_every_id() {
    let mut repo = Repository::new();
    for name in ["A", "B"] {
        let payload = CatPayload { profile: profile(name, "x"), sightings: vec![] };
        let r = route(Method::Post, b"/api/v1/cat");
        handle(&mut repo, r, BodyInput::CatBody(Some(payload)), "o", 0);
    }
    let resp = get(&mut repo, "/api/v1/list_cats");
    assert_eq!(resp.status, 200);
    match resp.body {
        RespBody::IdList(ids) => assert_eq!(ids, vec![1, 2]),
        _ => panic!("expected an id list"),
    }
}

#[test]
fn append_sightings_route_takes_one_sighting() {
    let mut repo = Repository::new();
    let payload = CatPayload { profile: profile("Tom", "grey"), sightings: vec![] };
    let r = route(Method::Post, b"/api/v1/cat");
    handle(&mut repo, r, BodyInput::CatBody(Some(payload)), "o", 0);

    let r = route(Method::Post, b"/api/v1/cat/1/sightings");
    let resp = handle(
        &mut repo,
        r,
        BodyInput::SightingBody(Some(sighting(1.0, 2.0, 77, vec![]))),
        "o",
        0,
    );
    assert_eq!(resp.status, 200);
    let cat = repo.get_cat(1).unwrap();
    assert_eq!(cat.sightings.len(), 1);
    assert_eq!(cat.sightings[0].when, 77);

    let r = route(Method::Post, b"/api/v1/cat/1/sightings");
    let resp = handle(&mut repo, r, BodyInput::SightingBody(None), "o", 0);
    assert_eq!(resp.status, 400);
}

#[test]
fn image_upload_is_addressed_by_id_and_subtype() {
    let mut repo = Repository::new();
    let r = route(Method::Post, b"/api/v1/image");
    let resp = handle(
        &mut repo,
        r,
        BodyInput::ImageBody(vec![9, 8, 7], Some("image/png".to_owned())),
        "up",
        3,
    );
    assert_eq!(resp.status, 200);
    match resp.body {
        RespBody::ImagePath(path) => {
            assert_eq!(String::from_utf8(path).unwrap(), "/api/v1/image/1.png")
        }
        _ => panic!("expected the image path"),
    }

    // Retrievable at the assigned path, with the stored bytes and essence.
    let resp = get(&mut repo, "/api/v1/image/1.png");
    assert_eq!(resp.status, 200);
    match resp.body {
        RespBody::Blob(blob) => {
            assert_eq!(blob.bytes, vec![9, 8, 7]);
            assert_eq!(blob.essence, b"image/png".to_vec());
        }
        _ => panic!("expected the blob"),
    }

    // The same id under another extension is not found.
    let resp = get(&mut repo, "/api/v1/image/1.jpg");
    assert_eq!(resp.status, 404);
    assert!(matches!(resp.body, RespBody::Empty));
}

#[test]
fn uploads_must_be_images_with_a_content_type() {
    let mut repo = Repository::new();

    let r = route(Method::Post, b"/api/v1/image");
    let resp = handle(&mut repo, r, BodyInput::ImageBody(vec![1], None), "o", 0);
    assert_eq!(resp.status, 400);

    let r = route(Method::Post, b"/api/v1/image");
    let resp = handle(
        &mut repo,
        r,
        BodyInput::ImageBody(vec![1], Some("text/plain".to_owned())),
        "o",
        0,
    );
    assert_eq!(resp.status, 400);

    let r = route(Method::Post, b"/api/v1/image");
    let resp = handle(
        &mut repo,
        r,
        BodyInput::ImageBody(vec![1], Some("not a mime".to_owned())),
        "o",
        0,
    );
    assert_eq!(resp.status, 400);

    // Nothing was stored by the rejected uploads.
    let resp = get(&mut repo, "/api/v1/image/1.png");
    assert_eq!(resp.status, 404);
}

#[test]
fn oversized_uploads_are_rejected() {
    let mut repo = Repository::new();
    let r = route(Method::Post, b"/api/v1/image");
    let body = vec![0u8; MAX_IMAGE_BYTES + 1];
    let resp = handle(
        &mut repo,
        r,
        BodyInput::ImageBody(body, Some("image/png".to_owned())),
        "o",
        0,
    );
    assert_eq!(resp.status, 400);

    let r = route(Method::Post, b"/api/v1/image");
    let body = vec![0u8; 16];
    let resp = handle(
        &mut repo,
        r,
        BodyInput::ImageBody(body, Some("image/png".to_owned())),
        "o",
        0,
    );
    assert_eq!(resp.status, 200);
}

#[test]
fn mime_parameters_are_dropped_from_the_essence() {
    let mut repo = Repository::new();
    let r = route(Method::Post, b"/api/v1/image");
    let resp = handle(
        &mut repo,
        r,
        BodyInput::ImageBody(vec![5], Some("IMAGE/SVG+XML; charset=utf-8".to_owned())),
        "o",
        0,
    );
    assert_eq!(resp.status, 200);
    match resp.body {
        // The mime parser lowercases and strips parameters.
        RespBody::ImagePath(path) => {
            assert_eq!(String::from_utf8(path).unwrap(), "/api/v1/image/1.svg")
        }
        _ => panic!("expected the image path"),
    }
    let blob = repo.load_image(1).unwrap();
    assert_eq!(blob.essence, b"image/svg+xml".to_vec());
}

#[test]
fn update_of_a_missing_cat_is_404() {
    let mut repo = Repository::new();
    let r = route(Method::Put, b"/api/v1/cat/5");
    let update = CatPayload { profile: profile("X", "x"), sightings: vec![] };
    let resp = handle(&mut repo, r, BodyInput::CatBody(Some(update)), "o", 0);
    assert_eq!(resp.status, 404);
    assert!(matches!(resp.body, RespBody::Empty));
}
