use ableton_samples::descriptor::{extract_samples, parse_project, ParseError, Token, ValueAttr};
use ableton_samples::path::is_audio_file;

fn wrap(inner: &str) -> String {
    format!("<Ableton><SampleRef><FileRef>{}</FileRef></SampleRef></Ableton>", inner)
}

fn rel(value: &str) -> String {
    format!("<RelativePath Value=\"{}\"/>", value)
}

fn parse(xml: &str) -> Vec<String> {
    parse_project("/p", xml).unwrap().samples
}

#[test]
fn single_nested_reference_is_extracted() {
    let project = parse_project("/music/song", &wrap(&rel("drums/kick.wav"))).unwrap();
    assert_eq!(project.project_dir, "/music/song");
    assert_eq!(project.samples, vec!["drums/kick.wav".to_string()]);
}

#[test]
fn unknown_extension_is_dropped() {
    assert!(parse(&wrap(&rel("x/noise.xyz"))).is_empty());
}

#[test]
fn upper_case_extension_is_dropped() {
    assert!(parse(&wrap(&rel("x/noise.FLAC"))).is_empty());
}

#[test]
fn flac_extension_is_kept() {
    assert_eq!(parse(&wrap(&rel("x/noise.flac"))), vec!["x/noise.flac".to_string()]);
}

#[test]
fn file_ref_without_sample_ref_is_ignored() {
    let xml = format!("<Ableton><FileRef>{}</FileRef></Ableton>", rel("a/kick.wav"));
    assert!(parse(&xml).is_empty());
}

#[test]
fn sample_ref_without_file_ref_is_ignored() {
    let xml = format!("<Ableton><SampleRef>{}</SampleRef></Ableton>", rel("a/kick.wav"));
    assert!(parse(&xml).is_empty());
}

#[test]
fn repeated_reference_is_listed_once() {
    let xml = format!("<A>{}{}</A>", wrap(&rel("a/snare.wav")), wrap(&rel("a/snare.wav")));
    assert_eq!(parse(&xml), vec!["a/snare.wav".to_string()]);
}

#[test]
fn references_come_out_sorted() {
    let xml = format!("<A>{}{}</A>", wrap(&rel("b.wav")), wrap(&rel("a.wav")));
    assert_eq!(parse(&xml), vec!["a.wav".to_string(), "b.wav".to_string()]);
}

#[test]
fn every_audio_extension_is_kept() {
    let inner = format!("{}{}{}{}{}{}", rel("e.wav"), rel("d.aif"), rel("c.aiff"), rel("b.mp3"), rel("a.flac"), rel("f.ogg"));
    assert_eq!(parse(&wrap(&inner)), vec!["a.flac", "b.mp3", "c.aiff", "d.aif", "e.wav"]);
}

#[test]
fn missing_value_attribute_is_ignored() {
    assert!(parse(&wrap("<RelativePath Other=\"k.wav\"/>")).is_empty());
}

#[test]
fn closing_sample_ref_ends_the_context() {
    let xml = format!("<A><FileRef><SampleRef></SampleRef>{}</FileRef></A>", rel("k.wav"));
    assert!(parse(&xml).is_empty());
}

#[test]
fn malformed_markup_fails() {
    assert_eq!(parse_project("/p", "<A><B></A>").err(), Some(ParseError::Markup));
}

#[test]
fn empty_document_has_no_samples() {
    assert!(parse("").is_empty());
}

fn tag(name: &str) -> Vec<u8> {
    name.as_bytes().to_vec()
}

fn context(value: ValueAttr) -> Vec<Token> {
    vec![
        Token::Start(tag("SampleRef")),
        Token::Start(tag("FileRef")),
        Token::Empty(tag("RelativePath"), value),
    ]
}

#[test]
fn invalid_utf8_value_fails_with_text() {
    let tokens = context(ValueAttr::Found(vec![0xff, b'.', b'w', b'a', b'v']));
    assert_eq!(extract_samples(&tokens).err(), Some(ParseError::Text));
}

#[test]
fn unreadable_attributes_fail_in_context() {
    let tokens = context(ValueAttr::Malformed);
    assert_eq!(extract_samples(&tokens).err(), Some(ParseError::Attribute));
}

#[test]
fn unreadable_attributes_outside_context_are_ignored() {
    let tokens = vec![Token::Empty(tag("RelativePath"), ValueAttr::Malformed), Token::Other];
    assert_eq!(extract_samples(&tokens).unwrap(), Vec::<String>::new());
}

#[test]
fn tokens_give_sorted_unique_samples() {
    let mut tokens = context(ValueAttr::Found(tag("z/b.mp3")));
    tokens.push(Token::Empty(tag("RelativePath"), ValueAttr::Found(tag("a.aif"))));
    tokens.push(Token::Empty(tag("RelativePath"), ValueAttr::Found(tag("z/b.mp3"))));
    tokens.push(Token::End(tag("FileRef")));
    tokens.push(Token::Empty(tag("RelativePath"), ValueAttr::Found(tag("c.wav"))));
    assert_eq!(extract_samples(&tokens).unwrap(), vec!["a.aif".to_string(), "z/b.mp3".to_string()]);
}

#[test]
fn audio_file_checks_final_segment() {
    assert!(is_audio_file("Samples/kick.wav"));
    assert!(is_audio_file("a.b/c.aiff"));
    assert!(!is_audio_file("a.wav/c"));
    assert!(!is_audio_file("Samples/.wav"));
    assert!(!is_audio_file("kick"));
    assert!(!is_audio_file("kick.WAV"));
    assert!(!is_audio_file("kick.wav.bak"));
    assert!(is_audio_file("..wav"));
    assert!(is_audio_file("x/a.wav/"));
    assert!(is_audio_file("x/a.wav/."));
    assert!(is_audio_file("x/a.wav//./"));
    assert!(!is_audio_file("x/.wav/"));
    assert!(!is_audio_file("."));
}

#[test]
fn relative_path_without_value_is_ignored() {
    assert!(parse("<SampleRef><FileRef><RelativePath/></FileRef></SampleRef>").is_empty());
}

#[test]
fn context_nesting_order_does_not_matter() {
    let xml = "<FileRef><SampleRef><RelativePath Value='a.wav'/></SampleRef></FileRef>";
    assert_eq!(parse(xml), vec!["a.wav".to_string()]);
}

#[test]
fn mismatched_end_tag_fails() {
    assert_eq!(parse_project("/p", "<SampleRef></FileRef>").err(), Some(ParseError::Markup));
}

#[test]
fn scan_error_before_markup_error_comes_first() {
    let xml = "<SampleRef><FileRef><RelativePath Bad Value='a.wav'/></FileRef></SampleRef><x></y>";
    assert_eq!(parse_project("/p", xml).err(), Some(ParseError::Attribute));
}

#[test]
fn samples_sort_by_path_components() {
    let xml = format!("<A>{}{}</A>", wrap(&rel("a.wav")), wrap(&rel("a/b.wav")));
    assert_eq!(parse(&xml), vec!["a/b.wav".to_string(), "a.wav".to_string()]);
}

#[test]
fn same_path_written_twice_is_listed_once() {
    let xml = format!("<A>{}{}</A>", wrap(&rel("a/b.wav")), wrap(&rel("a//b.wav")));
    assert_eq!(parse(&xml), vec!["a/b.wav".to_string()]);
}
