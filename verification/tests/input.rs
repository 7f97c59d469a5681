use byte_sizes::input::{convert, exit_status, resolve, run, InputError};
use byte_sizes::unit::Unit;

fn command(words: &[&str]) -> Vec<String> {
    words.iter().map(|word| word.to_string()).collect()
}

fn unit_asked(input: &str) -> Result<Unit, InputError> {
    resolve(input).map(|pair| pair.1)
}

#[test]
fn an_unknown_unit_is_refused() {
    let outcome = run(&command(&["size", "5 XB"]));
    assert_eq!(exit_status(&outcome), 1);
    let error = outcome.unwrap_err();
    assert_eq!(error, InputError::UnknownUnit);
    assert_eq!(error.message(), "Error: Unidad no válida. Usa b, kb, mb o gb.");
}

#[test]
fn a_word_that_is_no_number_is_refused() {
    let outcome = run(&command(&["size", "abc mb"]));
    assert_eq!(exit_status(&outcome), 1);
    let error = outcome.unwrap_err();
    assert_eq!(error, InputError::InvalidNumber);
    assert_eq!(error.message(), "Error: El primer valor debe ser un número válido.");
}

#[test]
fn a_command_without_input_is_refused() {
    let outcome = run(&command(&["size"]));
    assert_eq!(exit_status(&outcome), 1);
    let error = outcome.unwrap_err();
    assert_eq!(error, InputError::MissingArgument);
    assert_eq!(
        error.message(),
        "Error: Debes proporcionar un tamaño y unidad. Ejemplo: cargo run \"24 mb\""
    );
    assert_eq!(run(&command(&[])).unwrap_err(), InputError::MissingArgument);
}

#[test]
fn input_of_other_than_two_words_is_refused() {
    let outcome = run(&command(&["size", "24"]));
    assert_eq!(exit_status(&outcome), 1);
    let error = outcome.unwrap_err();
    assert_eq!(error, InputError::MalformedInput);
    assert_eq!(
        error.message(),
        "Error: Formato incorrecto. Usa algo como \"24 mb\" o \"300 kb\"."
    );
    for input in ["", " ", "\t\n", "24", "mb", "24mb", "24 mb 7", "1 2 3 4", "24\u{200b}mb"] {
        assert_eq!(convert(input).unwrap_err(), InputError::MalformedInput, "{:?}", input);
    }
}

#[test]
fn the_number_is_tested_before_the_unit() {
    assert_eq!(convert("abc XB").unwrap_err(), InputError::InvalidNumber);
    assert_eq!(convert("mb 24").unwrap_err(), InputError::InvalidNumber);
    assert_eq!(convert("24 24").unwrap_err(), InputError::UnknownUnit);
}

#[test]
fn a_conversion_ends_with_status_zero() {
    let outcome = run(&command(&["size", "24 mb"]));
    assert_eq!(exit_status(&outcome), 0);
    assert_eq!(outcome.unwrap().megabytes(), "24 megabytes");
}

#[test]
fn words_after_the_input_are_not_looked_at() {
    let outcome = run(&command(&["size", "1500 kb", "5 XB", "abc"]));
    assert_eq!(outcome.unwrap().megabytes(), "1 megabytes");
}

#[test]
fn white_space_of_any_kind_and_length_separates() {
    for input in [
        "24 mb",
        "  24 mb",
        "24 mb  ",
        "24\tmb",
        "24 \t\r\n mb\n",
        "24\u{a0}mb",
        "\u{3000}24\u{2003}mb\u{2028}",
        "24\u{85}mb",
    ] {
        let sizes = convert(input).unwrap();
        assert_eq!(sizes.bytes(), "24000000 bytes", "{:?}", input);
    }
}

#[test]
fn unit_tags_count_in_either_case() {
    for tag in ["b", "B", "bytes", "BYTES", "Bytes", "bYtEs"] {
        assert_eq!(unit_asked(&format!("1 {}", tag)), Ok(Unit::Bytes), "{}", tag);
    }
    for tag in ["kb", "KB", "Kb", "kB", "\u{212a}b", "\u{212a}B"] {
        assert_eq!(unit_asked(&format!("1 {}", tag)), Ok(Unit::Kilobytes), "{}", tag);
    }
    for tag in ["mb", "MB", "Mb", "mB"] {
        assert_eq!(unit_asked(&format!("1 {}", tag)), Ok(Unit::Megabytes), "{}", tag);
    }
    for tag in ["gb", "GB", "Gb", "gB"] {
        assert_eq!(unit_asked(&format!("1 {}", tag)), Ok(Unit::Gigabytes), "{}", tag);
    }
}

#[test]
fn other_tags_name_no_unit() {
    for tag in [
        "xb", "XB", "tb", "kib", "k", "m", "g", "byte", "bytess", "kilobytes", "megabytes",
        "gigabytes", "bb", "b.", "kb,", "k-b", "\u{212a}", "m\u{0253}", "\u{ff4d}\u{ff42}",
        "\u{0130}b", "KB\u{0307}", "\"mb\"",
    ] {
        assert_eq!(unit_asked(&format!("1 {}", tag)), Err(InputError::UnknownUnit), "{}", tag);
        assert_eq!(Unit::parse(tag), None, "{}", tag);
    }
    assert_eq!(Unit::parse(""), None);
}

#[test]
fn a_magnitude_and_its_unit_are_read_together() {
    let (value, unit) = resolve("1500 kb").unwrap();
    assert_eq!(unit, Unit::Kilobytes);
    assert_eq!(value.amount(unit, Unit::Megabytes), 1);
    assert_eq!(value.amount(unit, Unit::Bytes), 1_500_000);
    assert!(resolve("1500").is_err());
}
