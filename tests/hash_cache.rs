use fedbot::blocklist::{load_blocklist, StoreError};
use fedbot::cache::{CheckStep, HashData};
use fedbot::confirm::blocklist_update;
use fedbot::hash::{hash_image, FixedHash};
use std::io::Cursor;

fn png(shift: u32) -> Vec<u8> {
    let img = image::RgbImage::from_fn(32, 32, |x, y| {
        let v = ((x * 8 + y * shift) % 256) as u8;
        image::Rgb([v, 255 - v, v / 2])
    });
    let mut out = Cursor::new(Vec::new());
    image::DynamicImage::ImageRgb8(img)
        .write_to(&mut out, image::ImageOutputFormat::Png)
        .unwrap();
    out.into_inner()
}

/// Runs one check the way a caller does, counting loads of the stored row.
fn run_check(
    cache: &mut HashData,
    image: Option<&[u8]>,
    row: &Option<Option<Vec<u8>>>,
    loads: &mut u32,
) -> Option<FixedHash> {
    match cache.check(image) {
        CheckStep::Done(answer) => answer,
        CheckStep::Load => {
            *loads += 1;
            cache.supply(load_blocklist(row))
        }
    }
}

#[test]
fn many_checks_load_once() {
    let img = png(3);
    let other = png(5);
    let blocked = hash_image(&img).unwrap();
    let row = Some(Some(blocked.bytes.to_vec()));
    for k in 1..6 {
        let mut cache = HashData::new(7);
        let mut loads = 0;
        for i in 0..k {
            let bytes: &[u8] = if i % 2 == 0 { &img } else { &other };
            let r = run_check(&mut cache, Some(bytes), &row, &mut loads);
            if i % 2 == 0 {
                assert_eq!(r, Some(blocked));
            }
        }
        assert_eq!(loads, 1);
    }
}

#[test]
fn nothing_fetched_is_not_blocked_and_loads_nothing() {
    let mut cache = HashData::new(7);
    let mut loads = 0;
    assert_eq!(run_check(&mut cache, None, &Some(None), &mut loads), None);
    assert_eq!(loads, 0);
    assert!(!cache.is_loaded());
}

#[test]
fn undecodable_bytes_are_not_blocked() {
    let mut cache = HashData::new(7);
    let mut loads = 0;
    assert_eq!(run_check(&mut cache, Some(b"garbage"), &Some(None), &mut loads), None);
    assert_eq!(loads, 0);
}

#[test]
fn unavailable_blocklist_blocks_nothing() {
    let img = png(3);
    let mut cache = HashData::new(7);
    assert!(matches!(cache.check(Some(&img)), CheckStep::Load));
    assert_eq!(cache.supply(Err(StoreError::Io)), None);
    assert!(cache.get().is_none());
    assert!(matches!(cache.check(Some(&img)), CheckStep::Done(None)));
}

#[test]
fn retrieve_gives_the_loaded_hashes() {
    let a = FixedHash { bytes: [1, 2, 3, 4, 5, 6, 7, 8] };
    let mut cache = HashData::new(9);
    assert_eq!(cache.guild(), 9);
    assert_eq!(cache.supply(load_blocklist(&Some(Some(a.bytes.to_vec())))), None);
    match cache.retrieve() {
        Ok(list) => assert_eq!(list, Some(vec![a])),
        Err(_) => panic!("the cache was loaded"),
    }
}

#[test]
fn block_one_image_then_it_is_found() {
    let img = png(3);
    let h1 = hash_image(&img).unwrap();
    let mut row: Option<Option<Vec<u8>>> = Some(None);

    assert_eq!(load_blocklist(&row).unwrap(), Vec::<FixedHash>::new());
    let mut loads = 0;
    let mut before = HashData::new(1);
    assert_eq!(run_check(&mut before, Some(&img), &row, &mut loads), None);

    let stored = load_blocklist(&row);
    let blob = blocklist_update(&stored, &vec![h1]).unwrap().expect("a new hash is written");
    row = Some(Some(blob));

    assert_eq!(load_blocklist(&row).unwrap(), vec![h1]);
    let mut after = HashData::new(1);
    assert_eq!(run_check(&mut after, Some(&img), &row, &mut loads), Some(h1));
}

#[test]
fn check_hash_asks_for_a_load_once_then_answers() {
    let a = FixedHash { bytes: [1; 8] };
    let b = FixedHash { bytes: [2; 8] };
    let mut cache = HashData::new(3);
    assert!(matches!(cache.check_hash(None), CheckStep::Done(None)));
    assert!(matches!(cache.check_hash(Some(a)), CheckStep::Load));
    assert_eq!(cache.supply(Ok(vec![b, a])), Some(a));
    assert!(cache.is_loaded());
    match cache.check_hash(Some(b)) {
        CheckStep::Done(r) => assert_eq!(r, Some(b)),
        CheckStep::Load => panic!("loaded twice"),
    }
    match cache.check_hash(Some(FixedHash { bytes: [7; 8] })) {
        CheckStep::Done(r) => assert_eq!(r, None),
        CheckStep::Load => panic!("loaded twice"),
    }
}

#[test]
fn supply_without_pending_check_answers_nothing() {
    let a = FixedHash { bytes: [1; 8] };
    let mut cache = HashData::new(3);
    assert_eq!(cache.supply(Ok(vec![a])), None);
    assert_eq!(cache.get(), Some(&vec![a]));
}

#[test]
fn retrieve_before_a_load_asks_for_it() {
    let a = FixedHash { bytes: [5; 8] };
    let cache = HashData::new(4);
    let mut cache = match cache.retrieve() {
        Ok(_) => panic!("nothing was loaded"),
        Err(c) => c,
    };
    assert!(!cache.is_loaded());
    assert_eq!(cache.supply(Ok(vec![a])), None);
    match cache.retrieve() {
        Ok(list) => assert_eq!(list, Some(vec![a])),
        Err(_) => panic!("the cache was loaded"),
    }
}

#[test]
fn check_of_a_decodable_image_looks_it_up() {
    let img = png(3);
    let h = hash_image(&img).unwrap();
    let mut cache = HashData::new(2);
    assert!(matches!(cache.check(Some(&img)), CheckStep::Load));
    assert_eq!(cache.supply(Ok(vec![h])), Some(h));
    match cache.check(Some(&img)) {
        CheckStep::Done(r) => assert_eq!(r, Some(h)),
        CheckStep::Load => panic!("loaded twice"),
    }
}
