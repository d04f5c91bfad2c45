//! End-to-end tests of the material manager: the resolver state
//! machine, caching, failure isolation and the construction counter.

use std::sync::Arc;

use material_pipeline::{
    decode, AssetPath, DescriptorStore, ImageFailure, LoadError, LoadStatus, MaterialManager,
    MaterialStatus,
};

fn path(s: &str) -> AssetPath {
    AssetPath::new(s.as_bytes().to_vec())
}

fn raw_image(w: u32, h: u32, c: u8, payload: &[u8]) -> Vec<u8> {
    let mut v = Vec::new();
    v.extend_from_slice(&w.to_le_bytes());
    v.extend_from_slice(&h.to_le_bytes());
    v.push(c);
    v.extend_from_slice(payload);
    v
}

fn brick_descriptor() -> Vec<u8> {
    b"PBRMaterial(
    main_texture: \"tex/brick_albedo.png\",
    roughness_texture: \"tex/brick_rough.png\",
    normal_texture: \"tex/brick_normal.png\",
    roughness: 0.5,
    metallic: 0.25,
    color: (1.0, 0.5, 0.25, 1.0),
)
"
    .to_vec()
}

fn descriptor_with(main: &str, rough: &str, normal: &str) -> Vec<u8> {
    format!(
        "PBRMaterial(\n    main_texture: \"{}\",\n    roughness_texture: \"{}\",\n    normal_texture: \"{}\",\n    roughness: 0.5,\n    metallic: 0.25,\n    color: (1.0, 0.5, 0.25, 1.0),\n)\n",
        main, rough, normal
    )
    .into_bytes()
}

/// Never-inserted paths are unobservable.
fn manager() -> MaterialManager {
    MaterialManager::new(AssetPath::new(Vec::new()))
}

#[test]
fn uninserted_path_has_no_status_and_no_value() {
    let mut m = manager();
    let p = path("mat/ghost.ron");
    assert_eq!(m.status(&p), None);
    assert_eq!(m.descriptor_status(&p), None);
    assert_eq!(m.image_status(&p), None);
    assert_eq!(m.construction_count(&p), 0);
    assert!(m.get(&p).is_none());
}

#[test]
fn status_is_monotonic_through_the_lifecycle() {
    let mut m = manager();
    let p = path("mat/brick.ron");
    assert_eq!(m.descriptor_status(&p), None);
    m.insert(&p);
    assert_eq!(m.descriptor_status(&p), Some(LoadStatus::NotLoaded));
    m.load(&p).unwrap();
    assert_eq!(m.descriptor_status(&p), Some(LoadStatus::Loading));
    m.deliver_descriptor(&p, Ok(brick_descriptor()));
    assert_eq!(m.descriptor_status(&p), Some(LoadStatus::Loaded));
    // further polling never moves the status backward
    assert!(m.get(&p).is_none());
    assert_eq!(m.descriptor_status(&p), Some(LoadStatus::Loaded));
}

#[test]
fn reinserting_a_loaded_path_changes_nothing() {
    let mut m = manager();
    let p = path("mat/brick.ron");
    m.insert(&p);
    m.load(&p).unwrap();
    m.deliver_descriptor(&p, Ok(brick_descriptor()));
    assert_eq!(m.descriptor_status(&p), Some(LoadStatus::Loaded));
    m.insert(&p);
    assert_eq!(m.descriptor_status(&p), Some(LoadStatus::Loaded));
    assert_eq!(m.descriptor_error(&p), None);
}

/// Scenario: a full resolution of `mat/brick.ron` with three images.
#[test]
fn brick_material_resolves_with_literal_values() {
    let mut m = manager();
    let p = path("mat/brick.ron");
    m.insert(&p);
    m.load(&p).unwrap();
    let reqs = m.take_descriptor_requests();
    assert_eq!(reqs.len(), 1);
    assert_eq!(reqs[0].bytes().as_slice(), b"mat/brick.ron");
    m.deliver_descriptor(&p, Ok(brick_descriptor()));
    m.maintain();
    let ireqs = m.take_image_requests();
    assert_eq!(ireqs.len(), 3);
    let albedo = path("tex/brick_albedo.png");
    let rough = path("tex/brick_rough.png");
    let normal = path("tex/brick_normal.png");
    m.deliver_image(&albedo, Ok(raw_image(2, 2, 4, &[9; 16])));
    m.deliver_image(&rough, Ok(raw_image(1, 1, 1, &[80])));
    m.deliver_image(&normal, Ok(raw_image(1, 2, 3, &[1, 2, 3, 4, 5, 6])));
    let mat = m.get(&p).expect("material should be ready");
    assert_eq!(m.status(&p), Some(MaterialStatus::Ready));
    assert_eq!(mat.roughness.units, 0);
    assert_eq!(mat.roughness.frac, 5);
    assert_eq!(mat.roughness.frac_digits, 1);
    assert_eq!(mat.metallic.units, 0);
    assert_eq!(mat.metallic.frac, 25);
    assert_eq!(mat.metallic.frac_digits, 2);
    assert_eq!((mat.main_texture.width, mat.main_texture.height), (2, 2));
    assert_eq!(mat.main_texture.data.len(), 16);
    assert_eq!((mat.roughness_texture.width, mat.roughness_texture.height), (1, 1));
    assert_eq!(mat.roughness_texture.data, vec![80, 80, 80, 255]);
    assert_eq!((mat.normal_texture.width, mat.normal_texture.height), (1, 2));
    assert_eq!(mat.normal_texture.data, vec![1, 2, 3, 255, 4, 5, 6, 255]);
}

/// Round trip: the material's texture slots are bit-identical to
/// decoding the same bytes directly.
#[test]
fn textures_match_direct_decoding() {
    let mut m = manager();
    let p = path("mat/brick.ron");
    let a_bytes = raw_image(2, 1, 3, &[1, 2, 3, 4, 5, 6]);
    let b_bytes = raw_image(1, 1, 2, &[100, 50]);
    let c_bytes = raw_image(1, 1, 4, &[1, 2, 3, 4]);
    m.insert(&p);
    m.load(&p).unwrap();
    m.deliver_descriptor(&p, Ok(brick_descriptor()));
    m.maintain();
    let albedo = path("tex/brick_albedo.png");
    let rough = path("tex/brick_rough.png");
    let normal = path("tex/brick_normal.png");
    m.deliver_image(&albedo, Ok(a_bytes.clone()));
    m.deliver_image(&rough, Ok(b_bytes.clone()));
    m.deliver_image(&normal, Ok(c_bytes.clone()));
    let mat = m.get(&p).expect("material should be ready");
    assert_eq!(mat.main_texture.data, decode(&albedo, &a_bytes).unwrap().data);
    assert_eq!(mat.roughness_texture.data, decode(&rough, &b_bytes).unwrap().data);
    assert_eq!(mat.normal_texture.data, decode(&normal, &c_bytes).unwrap().data);
}

/// Construction runs exactly once however often `get` is polled.
#[test]
fn construction_runs_exactly_once() {
    let mut m = manager();
    let p = path("mat/brick.ron");
    m.insert(&p);
    m.load(&p).unwrap();
    assert!(m.get(&p).is_none());
    assert!(m.get(&p).is_none());
    assert_eq!(m.construction_count(&p), 0);
    m.deliver_descriptor(&p, Ok(brick_descriptor()));
    assert!(m.get(&p).is_none());
    assert_eq!(m.construction_count(&p), 0);
    for s in ["tex/brick_albedo.png", "tex/brick_rough.png", "tex/brick_normal.png"] {
        m.deliver_image(&path(s), Ok(raw_image(1, 1, 1, &[7])));
    }
    let first = m.get(&p).expect("ready");
    assert_eq!(m.construction_count(&p), 1);
    for _ in 0..5 {
        let again = m.get(&p).expect("still ready");
        assert!(Arc::ptr_eq(&first, &again));
    }
    assert_eq!(m.construction_count(&p), 1);
}

/// Scenario: a descriptor whose image never exists fails with a
/// construction error wrapping the image's fetch failure.
#[test]
fn missing_image_fails_the_material() {
    let mut m = manager();
    let p = path("mat/broken.ron");
    m.insert(&p);
    m.load(&p).unwrap();
    m.deliver_descriptor(&p, Ok(brick_descriptor()));
    m.maintain();
    m.deliver_image(&path("tex/brick_albedo.png"), Err(()));
    m.deliver_image(&path("tex/brick_rough.png"), Ok(raw_image(1, 1, 1, &[7])));
    m.deliver_image(&path("tex/brick_normal.png"), Ok(raw_image(1, 1, 1, &[7])));
    assert!(m.get(&p).is_none());
    assert_eq!(
        m.status(&p),
        Some(MaterialStatus::Failed(LoadError::ConstructionError(ImageFailure::IoError)))
    );
    // the failure is permanent until a forced reload
    assert!(m.get(&p).is_none());
}

/// Scenario: polling while the descriptor is still loading inserts
/// no image paths.
#[test]
fn no_images_are_requested_before_the_descriptor_loads() {
    let mut m = manager();
    let p = path("mat/brick.ron");
    m.insert(&p);
    m.load(&p).unwrap();
    assert!(m.get(&p).is_none());
    assert_eq!(m.status(&p), Some(MaterialStatus::DescriptorPending));
    assert_eq!(m.image_status(&path("tex/brick_albedo.png")), None);
    assert_eq!(m.take_image_requests().len(), 0);
}

/// One failing texture only fails materials that reference it.
#[test]
fn failure_of_one_material_leaves_another_untouched() {
    let mut m = manager();
    let bad = path("mat/bad.ron");
    let good = path("mat/good.ron");
    for p in [&bad, &good] {
        m.insert(p);
        m.load(p).unwrap();
    }
    m.deliver_descriptor(&bad, Ok(descriptor_with("tex/a.png", "tex/b.png", "tex/c.png")));
    m.deliver_descriptor(&good, Ok(descriptor_with("tex/a.png", "tex/c.png", "tex/a.png")));
    m.maintain();
    m.deliver_image(&path("tex/a.png"), Ok(raw_image(1, 1, 1, &[1])));
    // b's bytes are undecodable: truncated payload
    m.deliver_image(&path("tex/b.png"), Ok(raw_image(2, 2, 4, &[0; 3])));
    m.deliver_image(&path("tex/c.png"), Ok(raw_image(1, 1, 2, &[5, 6])));
    assert!(m.get(&bad).is_none());
    assert_eq!(
        m.status(&bad),
        Some(MaterialStatus::Failed(LoadError::ConstructionError(
            ImageFailure::DecodeFailed(material_pipeline::DecodeError::Truncated)
        )))
    );
    let got = m.get(&good);
    assert!(got.is_some());
    assert_eq!(m.status(&good), Some(MaterialStatus::Ready));
}

/// A forced reload clears the failure and allows a retry.
#[test]
fn forced_reload_allows_a_retry() {
    let mut m = manager();
    let p = path("mat/retry.ron");
    m.insert(&p);
    m.load(&p).unwrap();
    m.deliver_descriptor(&p, Err(()));
    assert!(m.get(&p).is_none());
    assert_eq!(m.status(&p), Some(MaterialStatus::Failed(LoadError::IoError)));
    assert_eq!(m.load(&p), Err(LoadError::IoError));
    m.force_reload(&p);
    assert_eq!(m.construction_count(&p), 0);
    m.load(&p).unwrap();
    m.deliver_descriptor(&p, Ok(brick_descriptor()));
    assert!(m.get(&p).is_none());
    for s in ["tex/brick_albedo.png", "tex/brick_rough.png", "tex/brick_normal.png"] {
        m.deliver_image(&path(s), Ok(raw_image(1, 1, 1, &[7])));
    }
    assert!(m.get(&p).is_some());
    assert_eq!(m.construction_count(&p), 1);
}

/// A malformed descriptor fails the path with a parse error.
#[test]
fn malformed_descriptor_fails_the_path() {
    let mut m = manager();
    let p = path("mat/garbage.ron");
    m.insert(&p);
    m.load(&p).unwrap();
    m.deliver_descriptor(&p, Ok(b"not a descriptor".to_vec()));
    assert!(m.get(&p).is_none());
    assert_eq!(m.status(&p), Some(MaterialStatus::Failed(LoadError::MalformedDescriptor)));
    assert_eq!(m.descriptor_error(&p), Some(LoadError::MalformedDescriptor));
}

/// The base directory prefixes every texture reference.
#[test]
fn base_directory_prefixes_texture_paths() {
    let mut m = MaterialManager::new(path("assets"));
    let p = path("mat/brick.ron");
    m.insert(&p);
    m.load(&p).unwrap();
    m.deliver_descriptor(&p, Ok(brick_descriptor()));
    assert!(m.get(&p).is_none());
    let ireqs = m.take_image_requests();
    let mut names: Vec<Vec<u8>> = ireqs.iter().map(|q| q.bytes().clone()).collect();
    names.sort();
    assert_eq!(
        names,
        vec![
            b"assets/tex/brick_albedo.png".to_vec(),
            b"assets/tex/brick_normal.png".to_vec(),
            b"assets/tex/brick_rough.png".to_vec(),
        ]
    );
}

/// The newly-loaded drain reports each completion exactly once.
#[test]
fn drain_reports_each_completion_once() {
    let mut store = DescriptorStore::new();
    let p = path("mat/a.ron");
    let q = path("mat/b.ron");
    store.load(&p).unwrap();
    store.load(&q).unwrap();
    store.complete_load(&p, Ok(brick_descriptor()));
    let first = store.drain_newly_loaded();
    assert_eq!(first.len(), 1);
    assert_eq!(first[0].bytes().as_slice(), b"mat/a.ron");
    store.complete_load(&q, Err(()));
    let second = store.drain_newly_loaded();
    assert_eq!(second.len(), 1);
    assert_eq!(second[0].bytes().as_slice(), b"mat/b.ron");
    assert_eq!(store.drain_newly_loaded().len(), 0);
}

/// A store ignores a completion for a path that is not in flight.
#[test]
fn unsolicited_completion_is_ignored() {
    let mut store = DescriptorStore::new();
    let p = path("mat/a.ron");
    store.insert(&p);
    store.complete_load(&p, Ok(brick_descriptor()));
    assert_eq!(store.status(&p), Some(LoadStatus::NotLoaded));
    assert_eq!(store.drain_newly_loaded().len(), 0);
}
