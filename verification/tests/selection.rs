use bucketpick::bucket::Bucket;
use bucketpick::select::{
    bucket_random, effective_weights, pick_index, select_from_pools, sum_weights, weighted_random,
    Pool,
};
use bucketpick::{Predicate, SelectError};

fn v(s: &str) -> Vec<u8> {
    s.as_bytes().to_vec()
}

#[test]
fn sum_weights_adds_up() {
    assert_eq!(sum_weights(&vec![2, 3, 4]), 9);
    assert_eq!(sum_weights(&vec![]), 0);
}

#[test]
fn pick_index_walks_cumulative_weights() {
    let w = vec![1i64, 9];
    assert_eq!(pick_index(&w, 0), 0);
    for r in 1..10 {
        assert_eq!(pick_index(&w, r), 1);
    }
}

#[test]
fn pick_index_never_picks_a_zero_weight() {
    let w = vec![0i64, 5, 0, 5];
    for r in 0..5 {
        assert_eq!(pick_index(&w, r), 1);
    }
    for r in 5..10 {
        assert_eq!(pick_index(&w, r), 3);
    }
}

#[test]
fn empty_catalog_yields_no_eligible_bucket() {
    let pools: Vec<Pool> = Vec::new();
    let predicate = Predicate::always();
    let r = select_from_pools(&pools, &predicate);
    assert!(matches!(r, Err(SelectError::NoEligibleBucket)));
}

#[test]
fn excluding_the_only_file_yields_no_eligible_bucket() {
    let pools = vec![Pool { weight: 7, files: vec![v("only.png")] }];
    let predicate = Predicate::excluding(vec![v("only.png")]);
    let r = select_from_pools(&pools, &predicate);
    assert!(matches!(r, Err(SelectError::NoEligibleBucket)));
}

#[test]
fn excluding_every_file_everywhere_yields_no_eligible_bucket() {
    let pools = vec![
        Pool { weight: 2, files: vec![v("a.png"), v("b.jpg")] },
        Pool { weight: 5, files: vec![v("c.jpeg")] },
    ];
    let predicate = Predicate::excluding(vec![v("a.png"), v("b.jpg"), v("c.jpeg")]);
    let r = select_from_pools(&pools, &predicate);
    assert!(matches!(r, Err(SelectError::NoEligibleBucket)));
}

#[test]
fn selection_returns_an_allowed_file_of_the_catalog() {
    let pools = vec![
        Pool { weight: 1, files: vec![v("a.png")] },
        Pool { weight: 1, files: vec![v("b.jpg"), v("c.jpg")] },
    ];
    let predicate = Predicate::excluding(vec![v("b.jpg")]);
    for _ in 0..200 {
        let p = select_from_pools(&pools, &predicate).unwrap();
        assert!(p == v("a.png") || p == v("c.jpg"));
    }
}

#[test]
fn a_bucket_with_effective_weight_zero_is_never_selected() {
    // The heavier pool's only file is excluded, so its effective weight is 0.
    let pools = vec![
        Pool { weight: 100, files: vec![v("banned.png")] },
        Pool { weight: 1, files: vec![v("ok.png")] },
    ];
    let predicate = Predicate::excluding(vec![v("banned.png")]);
    for _ in 0..300 {
        let p = select_from_pools(&pools, &predicate).unwrap();
        assert_eq!(p, v("ok.png"));
    }
}

#[test]
fn weights_drive_bucket_frequency_and_files_split_uniformly() {
    // Two pools, weights 1 and 9: over many draws the first pool's file
    // appears about 10% of the time, and the second pool's two files split
    // its 90% mass about evenly.
    let pools = vec![
        Pool { weight: 1, files: vec![v("img1.png")] },
        Pool { weight: 9, files: vec![v("img2.jpg"), v("img3.jpeg")] },
    ];
    let predicate = Predicate::always();
    let n = 10_000;
    let (mut c1, mut c2, mut c3) = (0i64, 0i64, 0i64);
    for _ in 0..n {
        let p = select_from_pools(&pools, &predicate).unwrap();
        if p == v("img1.png") {
            c1 += 1;
        } else if p == v("img2.jpg") {
            c2 += 1;
        } else if p == v("img3.jpeg") {
            c3 += 1;
        } else {
            panic!("selected a path not in the catalog");
        }
    }
    assert!((c1 - 1_000).abs() <= 300, "img1.png picked {} times", c1);
    assert!((c2 - 4_500).abs() <= 450, "img2.jpg picked {} times", c2);
    assert!((c3 - 4_500).abs() <= 450, "img3.jpeg picked {} times", c3);
}

#[test]
fn scanning_buckets_never_returns_a_non_image() {
    // The crate's own directory tree holds no image files, so the two-stage
    // draw over it must fail; whatever it would return must carry an image
    // extension, which bucket_random's contract guarantees.
    let buckets = vec![Bucket { path: v("."), weight: 3 }];
    let predicate = Predicate::always();
    match bucket_random(&buckets, &predicate) {
        Ok(p) => assert!(bucketpick::has_image_ext(&p)),
        Err(e) => assert_eq!(e, SelectError::NoEligibleBucket),
    }
}

#[test]
fn effective_weights_are_zero_or_configured() {
    let buckets = vec![
        Bucket { path: v("."), weight: 2 },
        Bucket { path: v("no_such_dir_for_this_test"), weight: 3 },
    ];
    let (ws, total) = effective_weights(&buckets, &Predicate::always());
    assert_eq!(ws.len(), 2);
    assert!(ws[0] == 0 || ws[0] == 2);
    assert_eq!(ws[1], 0); // a directory that does not exist scans empty
    assert_eq!(total, ws[0] + ws[1]);
}

#[test]
fn weighted_random_on_an_empty_catalog_fails() {
    let r = weighted_random(&Vec::new(), &Predicate::always());
    assert!(matches!(r, Err(SelectError::NoEligibleBucket)));
}

#[test]
fn bucket_random_on_an_empty_catalog_fails() {
    let r = bucket_random(&Vec::new(), &Predicate::always());
    assert!(matches!(r, Err(SelectError::NoEligibleBucket)));
    let r = bucket_random(&Vec::new(), &Predicate::excluding(vec![v("a.png")]));
    assert!(matches!(r, Err(SelectError::NoEligibleBucket)));
}

#[test]
fn predicate_excludes_exactly_its_paths() {
    let predicate = Predicate::excluding(vec![v("a.png"), v("b.jpg")]);
    assert!(!predicate.allows(&v("a.png")));
    assert!(!predicate.allows(&v("b.jpg")));
    assert!(predicate.allows(&v("c.png")));
    assert!(predicate.allows(&v("")));
    let everything = Predicate::always();
    assert!(everything.allows(&v("a.png")));
}

#[test]
fn a_bucket_without_allowed_images_reports_not_found() {
    // The crate's own tree holds no images, so the uniform draw inside the
    // bucket has nothing to pick from.
    let b = Bucket { path: v("."), weight: 1 };
    match b.get_random(&Predicate::always()) {
        Err(e) => assert_eq!(e, SelectError::NotFound),
        Ok(p) => assert!(bucketpick::has_image_ext(&p)),
    }
}

#[test]
fn bucket_weight_is_effective_only_with_contents() {
    let b = Bucket { path: v("."), weight: 4 };
    let predicate = Predicate::always();
    let w = b.get_weight(&predicate);
    assert!(w == 0 || w == 4);
    assert_eq!(w != 0, b.has_contents(&predicate));
    for f in b.get_contents() {
        assert!(bucketpick::has_image_ext(&f));
    }
}
