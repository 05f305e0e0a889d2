use geo_server::region::{is_top_level, next_parent, resolve_region};
use geo_server::{Coord, Region};

fn coord(x: f32, y: f32) -> Coord {
    Coord { x: x.to_bits(), y: y.to_bits() }
}

#[test]
fn test_region_read_write() {
    let s = Region {
        code: 12345,
        parent_code: 54321,
        level: 789,
        center: coord(110.434_13, 19.972767),
        name: "海口市".to_string(),
        polygons: vec![vec![
            coord(110.434_13, 19.972767),
            coord(110.434_13, 20.972767),
            coord(110.444_13, 20.972767),
            coord(110.434_13, 19.972767),
        ]],
    };

    let bs = s.to_bytes();
    let d = Region::from_bytes(bs);
    assert_eq!(s, d);
}

fn small_region() -> Region {
    Region {
        code: 1,
        parent_code: 2,
        level: 3,
        center: Coord { x: 4, y: 5 },
        name: "ab".to_string(),
        polygons: vec![vec![Coord { x: 6, y: 7 }]],
    }
}

#[test]
fn record_layout_is_exact() {
    let r = small_region();
    let expected: Vec<u8> = vec![
        48, 0, 0, 0, 1, 0, 0, 0, 2, 0, 0, 0, 3, 0, 0, 0, 4, 0, 0, 0, 5, 0, 0, 0, 2, 0, 0, 0,
        b'a', b'b', 0, 0, 1, 0, 0, 0, 1, 0, 0, 0, 6, 0, 0, 0, 7, 0, 0, 0,
    ];
    assert_eq!(r.total_bytes(), 48);
    assert_eq!(r.to_bytes(), expected);
}

#[test]
fn record_size_is_multiple_of_four() {
    let mut r = small_region();
    for name in ["", "a", "abc", "abcd", "abcde", "海口市"] {
        r.name = name.to_string();
        let bs = r.to_bytes();
        assert_eq!(bs.len() % 4, 0);
        assert_eq!(bs.len(), r.total_bytes());
        assert_eq!(Region::try_from_bytes(&bs), Some(Region { name: name.to_string(), ..small_region() }));
    }
}

#[test]
fn record_roundtrip_many_rings() {
    let r = Region {
        code: 460100,
        parent_code: 460000,
        level: 2,
        center: coord(110.3, 20.0),
        name: "海口".to_string(),
        polygons: vec![vec![], vec![coord(1.0, 2.0), coord(3.0, 4.0)], vec![coord(-1.5, 0.25)]],
    };
    let bs = r.to_bytes();
    assert_eq!(Region::try_from_bytes(&bs), Some(Region { ..r }));
}

#[test]
fn truncated_record_is_refused() {
    let bs = small_region().to_bytes();
    assert_eq!(Region::try_from_bytes(&bs[..bs.len() - 4]), None);
    assert_eq!(Region::try_from_bytes(&[]), None);
}

#[test]
fn record_with_bad_utf8_name_is_refused() {
    let mut bs = small_region().to_bytes();
    bs[28] = 0xff;
    assert_eq!(Region::try_from_bytes(&bs), None);
}

#[test]
fn top_level_codes() {
    assert!(is_top_level(460000));
    assert!(is_top_level(0));
    assert!(!is_top_level(460100));
}

#[test]
fn descending_stops_at_self_parent_or_nothing() {
    assert_eq!(next_parent(460000, Some(460100)), Some(460100));
    assert_eq!(next_parent(460100, Some(460100)), None);
    assert_eq!(next_parent(460100, None), None);
}

#[test]
fn resolve_region_joins_names() {
    let mut a = small_region();
    a.code = 460000;
    a.name = "海南省".to_string();
    let mut b = small_region();
    b.code = 460100;
    b.name = "海口市".to_string();
    b.center = Coord { x: 9, y: 10 };
    let info = resolve_region(&vec![a, b]).unwrap();
    assert_eq!(info.code, 460100);
    assert_eq!(info.name, "海南省海口市");
    assert_eq!(info.names, vec!["海南省".to_string(), "海口市".to_string()]);
    assert_eq!(info.center, Coord { x: 9, y: 10 });
}

#[test]
fn resolve_region_of_nothing_is_none() {
    assert!(resolve_region(&vec![]).is_none());
    let mut a = small_region();
    a.code = 0;
    assert!(resolve_region(&vec![a]).is_none());
}
