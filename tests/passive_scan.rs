use fedbot::blocklist::{encode_blocklist, load_blocklist};
use fedbot::hash::hash_image;
use fedbot::scan::{PassiveScan, ScanStep};
use fedbot::source::{ResolveUrl, StickerRef};
use std::collections::HashMap;
use std::io::Cursor;

fn png(shift: u32) -> Vec<u8> {
    let img = image::RgbImage::from_fn(32, 32, |x, y| {
        let v = ((x * 8 + y * shift) % 256) as u8;
        image::Rgb([v, 255 - v, v / 2])
    });
    let mut out = Cursor::new(Vec::new());
    image::DynamicImage::ImageRgb8(img)
        .write_to(&mut out, image::ImageOutputFormat::Png)
        .unwrap();
    out.into_inner()
}

/// Drives a scan to its end; returns the outcome, the fetched URLs and the number of loads.
fn drive(
    sources: Vec<ResolveUrl>,
    web: &HashMap<String, Vec<u8>>,
    row: &Option<Option<Vec<u8>>>,
) -> (ScanStep, Vec<String>, u32) {
    let (mut scan, mut step) = PassiveScan::new(1, sources);
    let mut fetched = vec![];
    let mut loads = 0;
    loop {
        step = match step {
            ScanStep::Fetch(_, url) => {
                fetched.push(url.clone());
                scan.fetched(web.get(&url).map(|v| v.as_slice()))
            }
            ScanStep::Load => {
                loads += 1;
                scan.loaded(load_blocklist(row))
            }
            end => return (end, fetched, loads),
        };
    }
}

#[test]
fn first_blocked_source_wins_and_the_rest_are_not_checked() {
    let (a, b, c) = (png(1), png(3), png(7));
    let row = Some(Some(encode_blocklist(&vec![hash_image(&b).unwrap(), hash_image(&c).unwrap()])));
    let web: HashMap<String, Vec<u8>> =
        [("a", a), ("b", b.clone()), ("c", c)].into_iter().map(|(k, v)| (k.to_string(), v)).collect();
    let sources = vec![
        ResolveUrl::Direct("a".to_string()),
        ResolveUrl::Direct("b".to_string()),
        ResolveUrl::Direct("c".to_string()),
    ];
    let (end, fetched, loads) = drive(sources, &web, &row);
    match end {
        ScanStep::Blocked(i, h) => {
            assert_eq!(i, 1);
            assert_eq!(h, hash_image(&b).unwrap());
        }
        other => panic!("unexpected {:?}", other),
    }
    assert_eq!(fetched, vec!["a".to_string(), "b".to_string()]);
    assert_eq!(loads, 1);
}

#[test]
fn clean_sources_end_clear() {
    let a = png(1);
    let row = Some(Some(encode_blocklist(&vec![hash_image(&png(9)).unwrap()])));
    let web: HashMap<String, Vec<u8>> = [("a".to_string(), a)].into_iter().collect();
    let sources = vec![
        ResolveUrl::Reaction(None),
        ResolveUrl::Direct("a".to_string()),
        ResolveUrl::Sticker(StickerRef { id: 1, image_url: None }),
        ResolveUrl::Direct("missing".to_string()),
    ];
    let (end, fetched, loads) = drive(sources, &web, &row);
    assert!(matches!(end, ScanStep::Clear));
    assert_eq!(fetched, vec!["a".to_string(), "missing".to_string()]);
    assert_eq!(loads, 1);
}

#[test]
fn no_sources_end_clear_at_once() {
    let (_, step) = PassiveScan::new(1, vec![]);
    assert!(matches!(step, ScanStep::Clear));
}

#[test]
fn blocked_first_source_stops_before_the_second() {
    let a = png(1);
    let row = Some(Some(encode_blocklist(&vec![hash_image(&a).unwrap()])));
    let web: HashMap<String, Vec<u8>> =
        [("x".to_string(), a.clone()), ("y".to_string(), a)].into_iter().collect();
    let sources = vec![ResolveUrl::Icon("x".to_string()), ResolveUrl::Banner("y".to_string())];
    let (end, fetched, _) = drive(sources, &web, &row);
    assert!(matches!(end, ScanStep::Blocked(0, _)));
    assert_eq!(fetched, vec!["x".to_string()]);
}
