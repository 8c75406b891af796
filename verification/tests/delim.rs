use greg::delim::delimiter;
use greg::delim::terminator;
use greg::delim::trim;
use greg::delim::DelimiterError;
use greg::delim::RecordTerminator;
use greg::delim::TrimPolicy;

#[test]
fn control_character_names() {
    assert_eq!(delimiter("nul"), Ok(0));
    assert_eq!(delimiter("ht"), Ok(9));
    assert_eq!(delimiter("lf"), Ok(10));
    assert_eq!(delimiter("esc"), Ok(27));
    assert_eq!(delimiter("us"), Ok(31));
    assert_eq!(delimiter("del"), Ok(127));
}

#[test]
fn symbol_names() {
    assert_eq!(delimiter("sp"), Ok(32));
    assert_eq!(delimiter("com"), Ok(44));
    assert_eq!(delimiter("pip"), Ok(124));
    assert_eq!(delimiter("sem"), Ok(59));
    assert_eq!(delimiter("til"), Ok(126));
}

#[test]
fn direct_ascii_characters() {
    assert_eq!(delimiter(","), Ok(b','));
    assert_eq!(delimiter(";"), Ok(b';'));
    assert_eq!(delimiter("\t"), Ok(b'\t'));
    assert_eq!(delimiter("x"), Ok(b'x'));
}

#[test]
fn unknown_names_are_refused() {
    assert_eq!(delimiter("xyz"), Err(DelimiterError));
    assert_eq!(delimiter(""), Err(DelimiterError));
    assert_eq!(delimiter("\u{e9}"), Err(DelimiterError));
    assert!(!DelimiterError.message().is_empty());
}

#[test]
fn terminator_names() {
    assert_eq!(terminator("crlf"), Ok(RecordTerminator::Crlf));
    assert_eq!(terminator("lf"), Ok(RecordTerminator::Byte(10)));
    assert_eq!(terminator(";"), Ok(RecordTerminator::Byte(59)));
    assert_eq!(terminator("nope"), Err(DelimiterError));
}

#[test]
fn trim_names() {
    assert_eq!(trim("h"), TrimPolicy::Headers);
    assert_eq!(trim("headers"), TrimPolicy::Headers);
    assert_eq!(trim("f"), TrimPolicy::Fields);
    assert_eq!(trim("fields"), TrimPolicy::Fields);
    assert_eq!(trim("hf"), TrimPolicy::All);
    assert_eq!(trim("fh"), TrimPolicy::All);
    assert_eq!(trim("both"), TrimPolicy::All);
    assert_eq!(trim("all"), TrimPolicy::All);
    assert_eq!(trim("none"), TrimPolicy::NoTrim);
    assert_eq!(trim("whatever"), TrimPolicy::NoTrim);
}
