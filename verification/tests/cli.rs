use endfed::cli::{cli, parse_band, usage};
use endfed::sorting::sort_descending;
use endfed::text::{push_decimal, push_joined};
use endfed::{aggregate, edges_mhz, Error};

fn line(tokens: &[&str]) -> Vec<String> {
    tokens.iter().map(|t| t.to_string()).collect()
}

#[test]
fn bands_come_out_largest_first() {
    assert_eq!(cli(line(&["endfed", "20", "40", "10", "15"])), Ok((vec![40, 20, 15, 10], false, false)));
}

#[test]
fn flags_are_read_wherever_they_stand() {
    assert_eq!(cli(line(&["endfed", "-f", "40"])), Ok((vec![40], false, true)));
    assert_eq!(cli(line(&["endfed", "40", "-m"])), Ok((vec![40], true, false)));
    assert_eq!(cli(line(&["endfed", "-m", "40", "-f", "20"])), Ok((vec![40, 20], true, true)));
    assert_eq!(cli(line(&["endfed", "-f", "-f", "6"])), Ok((vec![6], false, true)));
}

#[test]
fn the_program_name_is_no_band() {
    assert_eq!(cli(line(&["40", "20"])), Ok((vec![20], false, false)));
    assert_eq!(cli(line(&["-f", "20"])), Ok((vec![20], false, false)));
}

#[test]
fn repeats_are_kept() {
    assert_eq!(cli(line(&["endfed", "20", "40", "20"])), Ok((vec![40, 20, 20], false, false)));
}

#[test]
fn a_line_without_bands_is_refused() {
    assert_eq!(cli(line(&["endfed"])), Err(Error::EmptySelection));
    assert_eq!(cli(line(&[])), Err(Error::EmptySelection));
    assert_eq!(cli(line(&["endfed", "-f", "-m"])), Err(Error::EmptySelection));
}

#[test]
fn a_token_that_is_no_number_is_refused() {
    assert_eq!(cli(line(&["endfed", "abc"])), Err(Error::InvalidToken));
    assert_eq!(cli(line(&["endfed", "40", "4o"])), Err(Error::InvalidToken));
    assert_eq!(cli(line(&["endfed", "-x", "40"])), Err(Error::InvalidToken));
    assert_eq!(cli(line(&["endfed", "-40"])), Err(Error::InvalidToken));
    assert_eq!(cli(line(&["endfed", ""])), Err(Error::InvalidToken));
    assert_eq!(cli(line(&["endfed", "-fm", "40"])), Err(Error::InvalidToken));
}

#[test]
fn an_unknown_band_passes_the_line_and_fails_the_lookup() {
    let (bands, metric, fullwave) = cli(line(&["endfed", "99"])).unwrap();
    assert_eq!((bands.clone(), metric, fullwave), (vec![99], false, false));
    assert_eq!(edges_mhz(&bands), Err(Error::UnknownBand));
    assert_eq!(aggregate(&bands, fullwave).err(), Some(Error::UnknownBand));
}

#[test]
fn tokens_are_read_as_unsigned_numbers() {
    assert_eq!(parse_band("40"), Some(40));
    assert_eq!(parse_band("0"), Some(0));
    assert_eq!(parse_band("007"), Some(7));
    assert_eq!(parse_band("+160"), Some(160));
    assert_eq!(parse_band("4294967295"), Some(u32::MAX));
    assert_eq!(parse_band("0000000000000000000000000000040"), Some(40));
}

#[test]
fn tokens_that_are_no_unsigned_numbers() {
    assert_eq!(parse_band(""), None);
    assert_eq!(parse_band("+"), None);
    assert_eq!(parse_band("-"), None);
    assert_eq!(parse_band("++4"), None);
    assert_eq!(parse_band("-4"), None);
    assert_eq!(parse_band("4 "), None);
    assert_eq!(parse_band(" 4"), None);
    assert_eq!(parse_band("4_0"), None);
    assert_eq!(parse_band("4.0"), None);
    assert_eq!(parse_band("4294967296"), None);
    assert_eq!(parse_band("99999999999999999999999999999"), None);
    assert_eq!(parse_band("99999999999999999999999999999x"), None);
    assert_eq!(parse_band("\u{0664}\u{0660}"), None);
}

#[test]
fn tokens_are_read_as_std_reads_them() {
    for token in ["40", "+6", "", "+", "-1", "00012", "4294967295", "4294967296", "1e3", "٤", "12a"] {
        assert_eq!(parse_band(token), token.parse::<u32>().ok());
    }
}

#[test]
fn sorting_is_descending_and_keeps_every_number() {
    assert_eq!(sort_descending(&[]), Vec::<u32>::new());
    assert_eq!(sort_descending(&[5]), vec![5]);
    assert_eq!(sort_descending(&[1, 3, 2, 3, 0, u32::MAX]), vec![u32::MAX, 3, 3, 2, 1, 0]);
}

#[test]
fn numbers_are_written_in_decimal() {
    let mut text = String::from("n=");
    push_decimal(&mut text, 0);
    assert_eq!(text, "n=0");
    push_decimal(&mut text, 10150);
    assert_eq!(text, "n=010150");
    let mut text = String::new();
    push_decimal(&mut text, u32::MAX);
    assert_eq!(text, "4294967295");
}

#[test]
fn numbers_are_joined_with_comma_and_blank() {
    let mut text = String::from("[");
    push_joined(&mut text, &[]);
    assert_eq!(text, "[");
    push_joined(&mut text, &[40]);
    assert_eq!(text, "[40");
    let mut text = String::new();
    push_joined(&mut text, &[160, 17, 6]);
    assert_eq!(text, "160, 17, 6");
}

#[test]
fn usage_names_the_program_twice() {
    assert_eq!(
        usage("endfed"),
        "Usage: endfed [-f] [-m] band...\n  -f, graph fullwave (halfwave default).\n  -m, metric lengths.\n  band, integer in 160,80,60,40,30,20,17,15,12,10,6 m\n  E.g., endfed 40 20 15 10\n"
    );
    assert!(usage("").starts_with("Usage:  [-f]"));
}
