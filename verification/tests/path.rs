use linear_region::error::LinearError;
use linear_region::path::{parse_region_path, region_file_name};
use linear_region::region::Region;

#[test]
fn file_name_spells_the_coordinates() {
    assert_eq!(region_file_name(0, 0), "r.0.0.linear");
    assert_eq!(region_file_name(3, 5), "r.3.5.linear");
    assert_eq!(region_file_name(10, 909), "r.10.909.linear");
    assert_eq!(
        region_file_name(usize::MAX, 1),
        format!("r.{}.1.linear", usize::MAX)
    );
    assert_eq!(Region::new(12, 34).file_name(), "r.12.34.linear");
}

#[test]
fn path_gives_the_coordinates() {
    assert_eq!(parse_region_path("r.1.2.linear"), Ok((1, 2)));
    assert_eq!(parse_region_path("/world/region/r.10.20.linear"), Ok((10, 20)));
    assert_eq!(parse_region_path("./r.0.0.linear"), Ok((0, 0)));
    assert_eq!(parse_region_path("some.dir/with.dots/r.5.6.linear"), Ok((5, 6)));
    assert_eq!(parse_region_path("r.007.08.linear"), Ok((7, 8)));
}

#[test]
fn path_is_read_by_its_second_and_third_part() {
    assert_eq!(parse_region_path("anything.4.5"), Ok((4, 5)));
    assert_eq!(parse_region_path("r.4.5.linear.wip"), Ok((4, 5)));
    assert_eq!(parse_region_path(".4.5."), Ok((4, 5)));
    assert_eq!(parse_region_path("a.b.1.2.linear"), Err(LinearError::PathFormat));
}

#[test]
fn path_takes_a_plus_sign() {
    assert_eq!(parse_region_path("r.+3.+4.linear"), Ok((3, 4)));
    assert_eq!(parse_region_path("r.+.4.linear"), Err(LinearError::PathFormat));
    assert_eq!(parse_region_path("r.++3.4.linear"), Err(LinearError::PathFormat));
    assert_eq!(parse_region_path("r.3+.4.linear"), Err(LinearError::PathFormat));
}

#[test]
fn path_without_coordinates_is_rejected() {
    for path in [
        "",
        "r",
        "r.1",
        "r.1.linear",
        "r..2.linear",
        "r.1..linear",
        "r.-1.2.linear",
        "r.1.-2.linear",
        "r.a.2.linear",
        "r.1.b.linear",
        "r.1 .2.linear",
        "r.1.2/",
        "r.1.2.linear/",
        "r.1.2.linear/region",
        "r.\u{0661}.2.linear",
    ] {
        assert_eq!(parse_region_path(path), Err(LinearError::PathFormat), "{:?}", path);
    }
}

#[test]
fn path_with_a_number_beyond_usize_is_rejected() {
    let most = format!("r.{}.{}.linear", usize::MAX, usize::MAX);
    assert_eq!(parse_region_path(&most), Ok((usize::MAX, usize::MAX)));
    let beyond = format!("r.{}0.1.linear", usize::MAX);
    assert_eq!(parse_region_path(&beyond), Err(LinearError::PathFormat));
    let next = format!("r.1.{}.linear", usize::MAX as u128 + 1);
    assert_eq!(parse_region_path(&next), Err(LinearError::PathFormat));
    assert_eq!(
        parse_region_path("r.340282366920938463463374607431768211456.1.linear"),
        Err(LinearError::PathFormat)
    );
}

#[test]
fn path_agrees_with_std_parsing() {
    for part in ["0", "1", "+1", "-1", "", "+", "12a", "٣", "18446744073709551615", "18446744073709551616", "00000000000000000000001"] {
        let path = format!("dir/r.{}.9.linear", part);
        let expected = part.parse::<usize>().ok().map(|x| (x, 9));
        assert_eq!(parse_region_path(&path).ok(), expected, "{:?}", part);
    }
}

#[test]
fn file_name_is_read_back() {
    for (x, z) in [(0, 0), (1, 2), (9, 10), (99, 100), (12345, 67890), (usize::MAX, usize::MAX - 1)] {
        let name = region_file_name(x, z);
        assert_eq!(parse_region_path(&name), Ok((x, z)));
        assert_eq!(parse_region_path(&format!("/tmp/world.d/{}", name)), Ok((x, z)));
    }
}
