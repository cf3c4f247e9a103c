use mandelbrot::parse::{pair_analyze, split_pair};

fn float_pair(s: &str, separator: char) -> Option<(f64, f64)> {
    let (left, right) = split_pair(s, separator)?;
    match (left.parse::<f64>(), right.parse::<f64>()) {
        (Ok(a), Ok(b)) => Some((a, b)),
        _ => None,
    }
}

#[test]
fn pair_analyze_test() {
    assert_eq!(pair_analyze::<i32>("", ','), None);
    assert_eq!(pair_analyze::<i32>("10,", ','), None);
    assert_eq!(pair_analyze::<i32>(",10", ','), None);
    assert_eq!(pair_analyze::<i32>("10,20", ','), Some((10, 20)));
    assert_eq!(pair_analyze::<i32>("10,20xy", ','), None);
    assert_eq!(float_pair("0.5x", 'x'), None);
    assert_eq!(float_pair("0.5x1.5", 'x'), Some((0.5, 1.5)));
}

#[test]
fn split_uses_first_separator() {
    assert_eq!(split_pair("1,2,3", ','), Some(("1", "2,3")));
    assert_eq!(split_pair("abc", ','), None);
    assert_eq!(split_pair(",", ','), Some(("", "")));
    assert_eq!(pair_analyze::<i32>("1,2,3", ','), None);
}

#[test]
fn resolution_parses_as_usize() {
    assert_eq!(pair_analyze::<usize>("1000x750", 'x'), Some((1000, 750)));
    assert_eq!(pair_analyze::<usize>("+3x4", 'x'), Some((3, 4)));
    assert_eq!(pair_analyze::<usize>("-3x4", 'x'), None);
    assert_eq!(pair_analyze::<usize>("3 x4", 'x'), None);
    assert_eq!(pair_analyze::<usize>("3x", 'x'), None);
}

#[test]
fn signed_values_and_range() {
    assert_eq!(pair_analyze::<i32>("-7,+8", ','), Some((-7, 8)));
    assert_eq!(pair_analyze::<i32>("-,1", ','), None);
    assert_eq!(pair_analyze::<i32>("2147483647,-2147483648", ','), Some((i32::MAX, i32::MIN)));
    assert_eq!(pair_analyze::<i32>("2147483648,0", ','), None);
}

#[test]
fn complex_point_halves() {
    assert_eq!(float_pair(",-0.0625", ','), None);
    assert_eq!(float_pair("1.25,-0.0625", ','), Some((1.25, -0.0625)));
}
