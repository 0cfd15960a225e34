use i18n_rekey::keys::{extract_keys, reference_key};
use i18n_rekey::realign::{realign, recombine_line, value_fragment};
use i18n_rekey::repair::{clean_google_translate_errors, repair_line};

fn lines(v: &[&str]) -> Vec<String> {
    v.iter().map(|s| s.to_string()).collect()
}

#[test]
fn separator_inserted_at_first_space() {
    assert_eq!(repair_line("hello world"), "hello: world");
}

#[test]
fn separator_replaces_only_the_first_space() {
    assert_eq!(repair_line("word second third"), "word: second third");
}

#[test]
fn line_with_separator_keeps_it() {
    assert_eq!(repair_line("the quick: brown fox"), "the quick: brown fox");
}

#[test]
fn line_without_space_unchanged() {
    assert_eq!(repair_line("nospace"), "nospace");
}

#[test]
fn markers_get_no_separator() {
    assert_eq!(repair_line("{"), "{");
    assert_eq!(repair_line("  }  "), "}");
}

#[test]
fn quote_before_punctuation_is_transposed() {
    assert_eq!(repair_line("\"greeting\": \"Done\"!,"), "\"greeting\": \"Done!\",");
    assert_eq!(repair_line("text\"!,"), "text!\",");
}

#[test]
fn every_listed_punctuation_is_transposed() {
    for p in ['!', '?', ',', '.', '¿', ';', ':', '·', '¡'] {
        let line = format!("k: \"v\"{}x", p);
        let expected = format!("k: \"v{}\"x", p);
        assert_eq!(repair_line(&line), expected);
    }
}

#[test]
fn unlisted_punctuation_is_left() {
    assert_eq!(repair_line("k: \"v\")x"), "k: \"v\")x");
}

#[test]
fn quote_not_third_from_end_is_left() {
    assert_eq!(repair_line("text\"!"), "text\"!");
}

#[test]
fn short_lines_are_not_transposed() {
    assert_eq!(repair_line("\"!"), "\"!");
    assert_eq!(repair_line(" \", "), "\",");
    assert_eq!(repair_line("a"), "a");
    assert_eq!(repair_line(""), "");
}

#[test]
fn three_character_line_is_transposed() {
    assert_eq!(repair_line("\"!x"), "!\"x");
}

#[test]
fn repair_is_idempotent_on_examples() {
    for l in [
        "hello world",
        "k: \"v\"!,",
        "a b: ",
        "  \"x\"?y  ",
        "{",
        "",
        "\"!x",
        "uno dos \"tres\"¡,",
    ] {
        let once = repair_line(l);
        assert_eq!(repair_line(&once), once);
    }
}

#[test]
fn separator_trimmed_away_then_inserted() {
    assert_eq!(repair_line("a b: "), "a: b:");
}

#[test]
fn trims_unicode_white_space() {
    assert_eq!(repair_line("\t a b \u{3000}"), "a: b");
    assert_eq!(repair_line("\u{a0}x\u{2003}"), "x");
}

#[test]
fn multibyte_text_counts_characters() {
    assert_eq!(repair_line("ñandú \"hola\"¡,"), "ñandú: \"hola¡\",");
    assert_eq!(repair_line("é\"!,"), "é!\",");
}

#[test]
fn errors_left_when_handling_is_off() {
    assert_eq!(clean_google_translate_errors("  hello world\"!, ", false), "  hello world\"!, ");
    assert_eq!(clean_google_translate_errors("  hello world\"!, ", true), "hello: world!\",");
}

#[test]
fn reference_key_strips_spaces_before_colon() {
    assert_eq!(reference_key("  my long key: value"), "mylongkey");
    assert_eq!(reference_key("hello world"), "hello");
    assert_eq!(reference_key("}"), "}");
    assert_eq!(reference_key(": value"), "");
    assert_eq!(reference_key(""), "");
}

#[test]
fn keys_of_reference_lines() {
    let keys = extract_keys(&lines(&["{", "name: X", "}"]));
    assert_eq!(keys, lines(&["{", "name", "}"]));
}

#[test]
fn one_key_per_reference_line() {
    let reference = lines(&["{", "", "a: 1", ":", "  ", "b c d", "}"]);
    let keys = extract_keys(&reference);
    assert_eq!(keys.len(), reference.len());
    assert_eq!(keys, lines(&["{", "", "a", "", "", "b", "}"]));
    assert_eq!(extract_keys(&Vec::new()).len(), 0);
}

#[test]
fn value_fragment_after_first_colon() {
    assert_eq!(value_fragment("foo: Bob: x "), " Bob: x ");
    assert_eq!(value_fragment("no colon"), "");
    assert_eq!(value_fragment("ends:"), "");
}

#[test]
fn recombine_marker_and_empty_keys() {
    assert_eq!(recombine_line("}", "x"), "}x\n");
    assert_eq!(recombine_line("{", " y"), "{ y\n");
    assert_eq!(recombine_line("", " v"), " v\n");
    assert_eq!(recombine_line("k", " v"), "k: v\n");
}

#[test]
fn double_spaces_collapse_in_one_pass() {
    assert_eq!(recombine_line("a", "  y"), "a:  y\n");
    assert_eq!(recombine_line("a", "x    y"), "a: x  y\n");
}

#[test]
fn realign_reattaches_keys() {
    let keys = lines(&["{", "name", "}"]);
    let out = realign(&lines(&["{", "foo: Bob", "}"]), &keys);
    assert_eq!(out, "{\nname: Bob\n}\n");
}

#[test]
fn realign_drops_lines_past_keys() {
    let keys = lines(&["{", "name", "}"]);
    let translated = lines(&["{", "a: 1", "b: 2", "c: 3", "}"]);
    let out = realign(&translated, &keys);
    assert_eq!(out, "{\nname: 1\n} 2\n");
    assert_eq!(out.matches('\n').count(), 3);
}

#[test]
fn realign_stops_at_shorter_translation() {
    let keys = lines(&["{", "a", "b", "}"]);
    let out = realign(&lines(&["{", "x: 1"]), &keys);
    assert_eq!(out, "{\na: 1\n");
    assert_eq!(realign(&Vec::new(), &keys), "");
}

#[test]
fn realign_end_to_end() {
    let reference = lines(&["{", "  \"title\": \"Hello\",", "  \"farewell\": \"Bye\"!,", "}"]);
    let keys = extract_keys(&reference);
    assert_eq!(keys, lines(&["{", "\"title\"", "\"farewell\"", "}"]));
    let translated = lines(&["{", "\"título\": \"Hola\",", "\"adiós\" \"Chau\"", "}"]);
    let out = realign(&translated, &keys);
    assert_eq!(out, "{\n\"title\": \"Hola\",\n\"farewell\": \n}\n");
}

#[test]
fn marker_keys_never_get_separator() {
    let keys = lines(&["{", "}"]);
    let out = realign(&lines(&["x: a", "y: b"]), &keys);
    assert_eq!(out, "{ a\n} b\n");
}
