use mandelbrot::parse::{pair_of, parse_pair, split_pair};
use std::str::FromStr;

fn parse_halves<T: FromStr>(s: &str, separator: char) -> Option<(T, T)> {
    match split_pair(s, separator) {
        None => None,
        Some((left, right)) => pair_of(T::from_str(left), T::from_str(right)),
    }
}

#[test]
fn test_parse_pair() {
    assert_eq!(parse_pair("", ','), None);
    assert_eq!(parse_pair("10,", ','), None);
    assert_eq!(parse_pair(",10", ','), None);
    assert_eq!(parse_pair("10,20", ','), Some((10, 20)));
    assert_eq!(parse_pair("10,20xy", ','), None);
    assert_eq!(parse_halves::<i32>("", ','), None);
    assert_eq!(parse_halves::<i32>("10,", ','), None);
    assert_eq!(parse_halves::<i32>(",10", ','), None);
    assert_eq!(parse_halves::<i32>("10,20", ','), Some((10, 20)));
    assert_eq!(parse_halves::<i32>("10,20xy", ','), None);
    assert_eq!(parse_halves::<f64>("0.5x", 'x'), None);
    assert_eq!(parse_halves::<f64>("0.5x1.5", 'x'), Some((0.5, 1.5)));
}

#[test]
fn split_pair_cuts_at_the_first_separator() {
    assert_eq!(split_pair("400x600", 'x'), Some(("400", "600")));
    assert_eq!(split_pair("1x2x3", 'x'), Some(("1", "2x3")));
    assert_eq!(split_pair("x", 'x'), Some(("", "")));
    assert_eq!(split_pair("x7", 'x'), Some(("", "7")));
    assert_eq!(split_pair("7x", 'x'), Some(("7", "")));
    assert_eq!(split_pair("", 'x'), None);
    assert_eq!(split_pair("400,600", 'x'), None);
    assert_eq!(split_pair("-1.20,0.35", ','), Some(("-1.20", "0.35")));
}

#[test]
fn split_pair_counts_characters_not_bytes() {
    assert_eq!(split_pair("é→ü", '→'), Some(("é", "ü")));
    assert_eq!(split_pair("ää,öö", ','), Some(("ää", "öö")));
}

#[test]
fn pair_of_wants_both_halves() {
    assert_eq!(pair_of::<u8, ()>(Ok(1), Ok(2)), Some((1, 2)));
    assert_eq!(pair_of::<u8, ()>(Err(()), Ok(2)), None);
    assert_eq!(pair_of::<u8, ()>(Ok(1), Err(())), None);
    assert_eq!(pair_of::<u8, ()>(Err(()), Err(())), None);
}

#[test]
fn parse_pair_reads_image_sizes() {
    assert_eq!(parse_pair("1000x750", 'x'), Some((1000, 750)));
    assert_eq!(parse_pair("+4x007", 'x'), Some((4, 7)));
    assert_eq!(parse_pair("0x0", 'x'), Some((0, 0)));
}

#[test]
fn parse_pair_refuses_what_is_no_number() {
    assert_eq!(parse_pair("1000", 'x'), None);
    assert_eq!(parse_pair("-4x7", 'x'), None);
    assert_eq!(parse_pair("+x7", 'x'), None);
    assert_eq!(parse_pair("++4x7", 'x'), None);
    assert_eq!(parse_pair("4 x7", 'x'), None);
    assert_eq!(parse_pair("4x7x9", 'x'), None);
    assert_eq!(parse_pair("4_0x7", 'x'), None);
    assert_eq!(parse_pair("٤x7", 'x'), None);
}

#[test]
fn parse_pair_refuses_a_number_too_large() {
    let max = usize::MAX.to_string();
    assert_eq!(
        parse_pair(&format!("{}x1", max), 'x'),
        Some((usize::MAX, 1))
    );
    assert_eq!(parse_pair(&format!("{}0x1", max), 'x'), None);
    assert_eq!(parse_pair("1x340282366920938463463374607431768211456", 'x'), None);
}
