//! Repository-level behaviour: creation round trips, name immutability, the
//! audit trail, and the unchecked sighting append.

use catmap::records::{CatProfile, Sighting};
use catmap::repo::Repository;

fn profile(name: &str, colour: &str) -> CatProfile {
    CatProfile {
        name: name.to_owned(),
        colour: colour.to_owned(),
        markings: None,
        collar: None,
        description: None,
        best_image: None,
    }
}

fn sighting(lat: f64, long: f64, when: u64, urls: Vec<String>) -> Sighting {
    Sighting {
        lat_bits: lat.to_bits(),
        long_bits: long.to_bits(),
        who: None,
        when,
        friendliness: None,
        notes: None,
        image_urls: urls,
    }
}

#[test]
fn create_then_get_round_trips() {
    let mut repo = Repository::new();
    let mut p = profile("Whiskers", "tabby");
    p.markings = Some("white sock".to_owned());
    p.collar = Some("red".to_owned());
    p.description = Some("shy".to_owned());
    p.best_image = Some((4, 9));
    let sightings = vec![
        sighting(51.5, -0.1, 1000, vec!["http://a/1.png".to_owned(), "http://a/2.png".to_owned()]),
        sighting(-33.9, 151.2, 2000, vec!["http://b/3.png".to_owned(), "http://b/4.png".to_owned()]),
    ];
    let id = repo.create_cat(p, &sightings, "10.0.0.1", 5).unwrap();
    assert_eq!(id, 1);

    let cat = repo.get_cat(1).expect("created cat must be fetchable");
    assert_eq!(cat.id, 1);
    assert_eq!(cat.profile.name, "Whiskers");
    assert_eq!(cat.profile.colour, "tabby");
    assert_eq!(cat.profile.markings.as_deref(), Some("white sock"));
    assert_eq!(cat.profile.collar.as_deref(), Some("red"));
    assert_eq!(cat.profile.description.as_deref(), Some("shy"));
    assert_eq!(cat.profile.best_image, Some((4, 9)));
    assert_eq!(cat.sightings.len(), 2);
    assert_eq!(f64::from_bits(cat.sightings[0].lat_bits), 51.5);
    assert_eq!(f64::from_bits(cat.sightings[0].long_bits), -0.1);
    assert_eq!(cat.sightings[0].when, 1000);
    assert_eq!(
        cat.sightings[0].image_urls,
        vec!["http://a/1.png".to_owned(), "http://a/2.png".to_owned()]
    );
    assert_eq!(f64::from_bits(cat.sightings[1].lat_bits), -33.9);
    assert_eq!(cat.sightings[1].when, 2000);
    assert_eq!(
        cat.sightings[1].image_urls,
        vec!["http://b/3.png".to_owned(), "http://b/4.png".to_owned()]
    );
}

#[test]
fn ids_count_up_from_one() {
    let mut repo = Repository::new();
    let a = repo.create_cat(profile("A", "black"), &vec![], "o", 0).unwrap();
    let b = repo.create_cat(profile("B", "white"), &vec![], "o", 0).unwrap();
    let c = repo.create_cat(profile("C", "grey"), &vec![], "o", 0).unwrap();
    assert_eq!((a, b, c), (1, 2, 3));
    assert_eq!(repo.list_cat_ids(), vec![1, 2, 3]);
}

#[test]
fn update_keeps_name_and_replaces_fields() {
    let mut repo = Repository::new();
    repo.create_cat(profile("Tom", "grey"), &vec![], "o", 0).unwrap();
    let mut new_p = profile("Imposter", "black");
    new_p.collar = Some("blue".to_owned());
    repo.update_cat(1, new_p, "editor", 50).unwrap();

    let cat = repo.get_cat(1).unwrap();
    assert_eq!(cat.profile.name, "Tom");
    assert_eq!(cat.profile.colour, "black");
    assert_eq!(cat.profile.collar.as_deref(), Some("blue"));
}

#[test]
fn update_unknown_id_is_not_found() {
    let mut repo = Repository::new();
    let r = repo.update_cat(12, profile("X", "x"), "o", 0);
    assert!(matches!(r, Err(catmap::records::RepoError::NotFound)));
    assert!(repo.get_cat(12).is_none());
}

#[test]
fn every_update_appends_one_snapshot() {
    let mut repo = Repository::new();
    let mut p = profile("Tom", "grey");
    p.markings = Some("stripe".to_owned());
    repo.create_cat(p, &vec![], "o", 0).unwrap();

    repo.update_cat(1, profile("Tom", "black"), "e1", 10).unwrap();
    let mut p2 = profile("Tom", "ginger");
    p2.best_image = Some((7, 8));
    repo.update_cat(1, p2, "e2", 20).unwrap();
    repo.update_cat(1, profile("Tom", "cream"), "e3", 30).unwrap();

    let edits = repo.list_edits(1);
    assert_eq!(edits.len(), 3);
    // Each snapshot holds the mutable fields as they stood before that update.
    assert_eq!(edits[0].colour, "grey");
    assert_eq!(edits[0].markings.as_deref(), Some("stripe"));
    assert_eq!(edits[0].edit_ms, 10);
    assert_eq!(edits[0].origin, "e1");
    assert_eq!(edits[1].colour, "black");
    assert_eq!(edits[1].markings, None);
    assert_eq!(edits[1].best_image, None);
    assert_eq!(edits[2].colour, "ginger");
    assert_eq!(edits[2].best_image, Some((7, 8)));
    assert!(repo.list_edits(2).is_empty());
}

#[test]
fn append_does_not_check_the_cat() {
    let mut repo = Repository::new();
    // No cat exists yet; the append still succeeds, like a storage layer
    // whose reference constraint is not enforced at insert time.
    repo.append_sightings(1, &vec![sighting(1.0, 2.0, 7, vec![])], "o", 0)
        .unwrap();
    assert!(repo.get_cat(1).is_none());

    // Once id 1 is assigned, the earlier row belongs to it.
    repo.create_cat(profile("Tom", "grey"), &vec![], "o", 0).unwrap();
    let cat = repo.get_cat(1).unwrap();
    assert_eq!(cat.sightings.len(), 1);
    assert_eq!(cat.sightings[0].when, 7);
}

#[test]
fn append_extends_an_existing_cat() {
    let mut repo = Repository::new();
    repo.create_cat(profile("Tom", "grey"), &vec![sighting(0.0, 0.0, 1, vec![])], "o", 0)
        .unwrap();
    repo.append_sightings(
        1,
        &vec![sighting(1.0, 1.0, 2, vec!["u".to_owned()])],
        "o",
        0,
    )
    .unwrap();
    let cat = repo.get_cat(1).unwrap();
    assert_eq!(cat.sightings.len(), 2);
    assert_eq!(cat.sightings[1].when, 2);
    assert_eq!(cat.sightings[1].image_urls, vec!["u".to_owned()]);
}

#[test]
fn images_are_stored_and_fetched_by_id() {
    let mut repo = Repository::new();
    let id = repo
        .store_image(
            vec![1, 2, 3],
            b"image/png".to_vec(),
            b"png".to_vec(),
            "o",
            0,
        )
        .unwrap();
    assert_eq!(id, 1);
    let blob = repo.load_image(1).unwrap();
    assert_eq!(blob.bytes, vec![1, 2, 3]);
    assert_eq!(blob.essence, b"image/png".to_vec());
    assert_eq!(blob.subtype, b"png".to_vec());
    assert!(repo.load_image(2).is_none());
}
