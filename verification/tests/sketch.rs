use epp::cms::{CountMinSketch, SketchError};

/// The shape of a sketch for an error rate and a confidence in percent.
fn dimensions(error_rate: f64, confidence: f64) -> (usize, usize) {
    let depth = f64::ceil(f64::ln(1.0 / (1.0 - confidence / 100.0))) as usize;
    let width = f64::ceil(std::f64::consts::E / error_rate) as usize;
    (depth, width)
}

fn sketch(error_rate: f64, confidence: f64) -> CountMinSketch {
    let (depth, width) = dimensions(error_rate, confidence);
    CountMinSketch::new(depth, width).unwrap()
}

#[test]
fn put_get() {
    let s = "cool_value";
    let c = "other_value";
    let k = "not_value";

    let mut cms = sketch(1e-5, 99.0);

    cms.put(s);
    cms.put(s);
    cms.put(s);
    cms.put(c);
    cms.put(c);

    assert_eq!(cms.get(s).unwrap(), 3);
    assert_eq!(cms.get(c).unwrap(), 2);
    assert_eq!(cms.get(k), None);
}

#[test]
fn shape_of_a_sketch() {
    assert_eq!(dimensions(1e-5, 99.0), (5, 271829));
    assert_eq!(dimensions(0.5, 50.0), (1, 6));
    assert_eq!(dimensions(1e-2, 99.9), (7, 272));
    let cms = sketch(1e-5, 99.0);
    assert_eq!(cms.depth(), 5);
    assert_eq!(cms.width(), 271829);
}

#[test]
fn a_sketch_needs_rows_and_columns() {
    assert_eq!(CountMinSketch::new(0, 6).err(), Some(SketchError::InvalidParameters));
    assert_eq!(CountMinSketch::new(1, 0).err(), Some(SketchError::InvalidParameters));
    assert_eq!(CountMinSketch::new(0, 0).err(), Some(SketchError::InvalidParameters));
    assert_eq!(CountMinSketch::new(9, 0).err(), Some(SketchError::InvalidParameters));
}

#[test]
fn a_sketch_has_at_most_seven_rows() {
    assert!(CountMinSketch::new(7, 6).is_ok());
    assert_eq!(CountMinSketch::new(8, 6).err(), Some(SketchError::UnsupportedDepth));
    let (depth, width) = dimensions(1e-5, 99.99);
    assert_eq!(depth, 10);
    assert_eq!(CountMinSketch::new(depth, width).err(), Some(SketchError::UnsupportedDepth));
    assert_eq!(CountMinSketch::new(usize::MAX, 6).err(), Some(SketchError::UnsupportedDepth));
}

#[test]
fn a_width_beyond_the_ladder_is_refused() {
    let too_wide = 271828182864u64;
    if let Ok(width) = usize::try_from(too_wide) {
        assert_eq!(CountMinSketch::new(1, width).err(), Some(SketchError::InvalidParameters));
        assert_eq!(CountMinSketch::new(8, width).err(), Some(SketchError::InvalidParameters));
    }
    assert_eq!(CountMinSketch::new(1, usize::MAX).err(), Some(SketchError::InvalidParameters));
}

#[test]
fn the_bank_of_hashes() {
    // a width of 271829 is hashed under 271927, the next step of the ladder
    let cms = CountMinSketch::new(5, 271829).unwrap();
    let expected: [u64; 7] = [135499, 249357, 9701, 27456, 549, 42962, 57638];
    for (idx, want) in expected.iter().enumerate() {
        assert_eq!(cms.cms_hash("cool_value", idx).unwrap() % 271829, *want);
    }
    assert_eq!(cms.cms_hash("cool_value", 7), Err(SketchError::UnsupportedDepth));
    assert_eq!(cms.cms_hash("cool_value", usize::MAX), Err(SketchError::UnsupportedDepth));
}

#[test]
fn the_modulus_is_the_next_step_of_the_ladder() {
    let steps: [(usize, u64); 5] = [
        (1, 32729),
        (32729, 32729),
        (32730, 271927),
        (271927, 271927),
        (271928, 2718409),
    ];
    for (width, prime) in steps {
        let cms = CountMinSketch::new(1, width).unwrap();
        let bare = epp::cms::hash::Hasher::with_prime(prime);
        for key in ["abc", "cool_value", "A:B:1:1"] {
            assert_eq!(cms.cms_hash(key, 0).unwrap(), bare.js_hash(key));
            assert_eq!(cms.cms_hash(key, 1).unwrap(), bare.bkdr_hash(key));
            assert_eq!(cms.cms_hash(key, 2).unwrap(), bare.rs_hash(key));
            assert_eq!(cms.cms_hash(key, 3).unwrap(), bare.string_fold_hash(key));
            assert_eq!(cms.cms_hash(key, 4).unwrap(), bare.pjw_hash(key));
            assert_eq!(cms.cms_hash(key, 5).unwrap(), bare.elf_hash(key));
            assert_eq!(cms.cms_hash(key, 6).unwrap(), bare.sdbm_hash(key));
        }
    }
}

#[test]
fn end_to_end() {
    let mut cms = sketch(0.5, 50.0);
    assert_eq!((cms.depth(), cms.width()), (1, 6));
    cms.put("A:B:1:1");
    cms.put("A:B:1:1");
    cms.put("A:B:2:2");
    assert!(cms.get("A:B:1:1").unwrap() >= 2);
    assert!(cms.get("A:B:2:2").unwrap() >= 1);
    // the three keys fall into the columns 5, 0 and 4 of the one row
    assert_eq!(cms.get("A:B:1:1"), Some(2));
    assert_eq!(cms.get("A:B:2:2"), Some(1));
    assert_eq!(cms.get("A:B:9:9"), None);
}

#[test]
fn an_empty_sketch_says_nothing() {
    let cms = CountMinSketch::new(7, 100).unwrap();
    for key in ["", "abc", "A:B:1:1", "cool_value"] {
        assert_eq!(cms.get(key), None);
    }
}

#[test]
fn never_less_than_was_put() {
    let keys = ["a", "b", "c", "d", "e", "f", "g", "h", "i", "j", "k", "l"];
    for depth in 1..=7 {
        for width in [1usize, 2, 3, 5, 8] {
            let mut cms = CountMinSketch::new(depth, width).unwrap();
            for (i, key) in keys.iter().enumerate() {
                for _ in 0..=i {
                    cms.put(key);
                }
            }
            for (i, key) in keys.iter().enumerate() {
                assert!(cms.get(key).unwrap() as usize >= i + 1);
            }
        }
    }
}

#[test]
fn putting_never_lowers_what_is_said() {
    let keys = ["a", "b", "c", "A:B:1:1", "A:B:2:2"];
    let mut cms = CountMinSketch::new(3, 4).unwrap();
    let mut last: Vec<u16> = keys.iter().map(|_| 0).collect();
    for round in 0..20 {
        cms.put(keys[round % keys.len()]);
        for (i, key) in keys.iter().enumerate() {
            let now = cms.get(key).unwrap_or(0);
            assert!(now >= last[i]);
            last[i] = now;
        }
    }
}

#[test]
fn keys_that_share_every_counter_are_counted_together() {
    let mut cms = CountMinSketch::new(7, 1).unwrap();
    cms.put("a");
    cms.put("a");
    cms.put("b");
    assert_eq!(cms.get("a"), Some(3));
    assert_eq!(cms.get("b"), Some(3));
    assert_eq!(cms.get("never put"), Some(3));
}

#[test]
fn a_counter_stops_at_its_greatest_value() {
    let mut cms = CountMinSketch::new(1, 1).unwrap();
    for _ in 0..65534 {
        cms.put("a");
    }
    assert_eq!(cms.get("a"), Some(65534));
    cms.put("a");
    assert_eq!(cms.get("a"), Some(65535));
    cms.put("a");
    assert_eq!(cms.get("a"), Some(65535));
    cms.put("b");
    assert_eq!(cms.get("a"), Some(u16::MAX));
}
