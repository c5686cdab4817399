use mapserver_rs::coordinates::Tile;
use mapserver_rs::text::{decimal_text, replace_text, signed_decimal_text};

fn tile(x: u32, y: u32, zoom: u32) -> Tile {
    Tile { x, y, zoom }
}

#[test]
fn from_zxy_orders_its_arguments() {
    let t = Tile::from_zxy(7, 26, 48);
    assert_eq!(t.zoom, 7);
    assert_eq!(t.x, 26);
    assert_eq!(t.y, 48);
}

#[test]
fn children_of_denver_tile() {
    let t = Tile::from_zxy(7, 26, 48);
    assert!(t.can_descend(9));
    let children = t.children(9);
    assert_eq!(children.len(), 21);
    assert_eq!(children[0].zoom, 9);
    assert_eq!(children[0], tile(104, 195, 9));
    assert_eq!(children[20], t);
    assert_eq!(children.iter().filter(|c| c.zoom == 9).count(), 16);
    assert_eq!(children.iter().filter(|c| c.zoom == 8).count(), 4);
    assert_eq!(children.iter().filter(|c| c.zoom == 7).count(), 1);
}

#[test]
fn children_one_level_down_in_order() {
    let t = Tile::from_zxy(0, 0, 0);
    let children = t.children(1);
    assert_eq!(
        children,
        vec![tile(0, 1, 1), tile(1, 1, 1), tile(1, 0, 1), tile(0, 0, 1), tile(0, 0, 0)]
    );
}

#[test]
fn children_two_levels_down_in_order() {
    let t = Tile::from_zxy(3, 5, 2);
    let children = t.children(5);
    assert_eq!(children.len(), 21);
    // The second level splits the four tiles of the first, one after another.
    let mut expected = vec![tile(5, 2, 3)];
    let first = [tile(10, 4, 4), tile(11, 4, 4), tile(11, 5, 4), tile(10, 5, 4)];
    expected.extend_from_slice(&first);
    for f in first.iter() {
        expected.push(tile(f.x * 2, f.y * 2, 5));
        expected.push(tile(f.x * 2 + 1, f.y * 2, 5));
        expected.push(tile(f.x * 2 + 1, f.y * 2 + 1, 5));
        expected.push(tile(f.x * 2, f.y * 2 + 1, 5));
    }
    expected.reverse();
    assert_eq!(children, expected);
}

#[test]
fn children_at_own_zoom_is_the_tile() {
    let t = Tile::from_zxy(7, 26, 48);
    assert_eq!(t.children(7), vec![t]);
}

#[test]
fn children_above_own_zoom_is_the_tile() {
    let t = Tile::from_zxy(7, 26, 48);
    assert_eq!(t.children(3), vec![t]);
}

#[test]
fn children_count_is_sum_of_powers_of_four() {
    let t = Tile::from_zxy(2, 1, 3);
    let mut expected: usize = 0;
    let mut power: usize = 1;
    for target in 2..8u32 {
        expected += power;
        power *= 4;
        let children = t.children(target);
        assert_eq!(children.len(), expected);
        assert_eq!(children[0].zoom, target);
        assert_eq!(children[children.len() - 1], t);
    }
}

#[test]
fn can_descend_to_the_last_index() {
    let t = Tile::from_zxy(31, u32::MAX / 2, 0);
    assert!(t.can_descend(32));
    assert!(!t.can_descend(33));
    let children = t.children(32);
    assert_eq!(children.len(), 5);
    assert_eq!(children[1], tile(u32::MAX, 1, 32));
    let edge = Tile::from_zxy(0, u32::MAX, 0);
    assert!(edge.can_descend(0));
    assert!(!edge.can_descend(1));
    assert!(!Tile::from_zxy(0, 0, 0).can_descend(33));
    assert!(Tile::from_zxy(0, 0, 0).can_descend(32));
    assert!(!Tile::from_zxy(0, 0, 0).can_descend(100));
}

#[test]
fn url_zyx_fills_the_template() {
    let t = Tile::from_zxy(7, 26, 48);
    let url = t.url_zyx("https://a.tile.openstreetmap.org/{z}/{x}/{y}.png".to_string());
    assert_eq!(url, "https://a.tile.openstreetmap.org/7/26/48.png");
}

#[test]
fn url_zyx_replaces_every_occurrence() {
    let t = Tile::from_zxy(0, 4294967295, 10);
    let url = t.url_zyx("{x}{x}/{y}-{z}{{z}}{q}".to_string());
    assert_eq!(url, "42949672954294967295/10-0{0}{q}");
}

#[test]
fn url_zyx_without_placeholders() {
    let t = Tile::from_zxy(1, 2, 3);
    assert_eq!(t.url_zyx("plain".to_string()), "plain");
    assert_eq!(t.url_zyx(String::new()), "");
}

#[test]
fn url_wms_fills_the_template() {
    let t = Tile::from_zxy(7, 26, 48);
    let url = t.url_wms(
        "http://example.com/wms?bbox={bbox}&srs={srs}".to_string(),
        "-11897270.5,4696291.0,-11584184.5,5009377.0",
    );
    assert_eq!(
        url,
        "http://example.com/wms?bbox=-11897270.5,4696291.0,-11584184.5,5009377.0&srs=EPSG:3857"
    );
}

#[test]
fn url_wms_replaces_srs_inside_the_bounds_text() {
    let t = Tile::from_zxy(1, 0, 0);
    assert_eq!(t.url_wms("{bbox}".to_string(), "{srs}"), "EPSG:3857");
}

#[test]
fn decimal_text_writes_numerals() {
    assert_eq!(decimal_text(0), "0");
    assert_eq!(decimal_text(7), "7");
    assert_eq!(decimal_text(10), "10");
    assert_eq!(decimal_text(1234567890), "1234567890");
    assert_eq!(decimal_text(u64::MAX), "18446744073709551615");
    assert_eq!(signed_decimal_text(0), "0");
    assert_eq!(signed_decimal_text(-1), "-1");
    assert_eq!(signed_decimal_text(-120), "-120");
    assert_eq!(signed_decimal_text(i64::MIN), "-9223372036854775808");
    assert_eq!(signed_decimal_text(i64::MAX), "9223372036854775807");
}

#[test]
fn replace_text_replaces_from_the_left_without_overlap() {
    assert_eq!(replace_text("aaa", "aa", "b"), "ba");
    assert_eq!(replace_text("aaaa", "aa", "b"), "bb");
    assert_eq!(replace_text("abcabc", "bc", ""), "aa");
    assert_eq!(replace_text("abc", "abcd", "x"), "abc");
    assert_eq!(replace_text("", "a", "x"), "");
    assert_eq!(replace_text("abc", "abc", "abcabc"), "abcabc");
    assert_eq!(replace_text("x{x}x", "{x}", "{x}{x}"), "x{x}{x}x");
    assert_eq!(replace_text("gr\u{fc}\u{df}e {x} \u{20ac}", "{x}", "\u{e9}"), "gr\u{fc}\u{df}e \u{e9} \u{20ac}");
    assert_eq!(replace_text("this is old", "old", "new"), "this is old".replace("old", "new"));
    assert_eq!(replace_text("abab", "ab", "ba"), "abab".replace("ab", "ba"));
}
