//! Whole-document behavior: parsing into token trees, locale handling,
//! drafting and filling out.
use txt_templ_parser::fill_out;
use txt_templ_parser::parse_str;
use txt_templ_parser::token::ContentMap;
use txt_templ_parser::token::ContentToken;
use txt_templ_parser::token::FillOutError;
use txt_templ_parser::token::Ident;
use txt_templ_parser::token::Token;
use txt_templ_parser::token::TokenIdent;
use unic_locale::Locale;

fn fill_out_variants(variants: Vec<(&str, &str, Vec<(TokenIdent, &str)>)>) {
    for (expected, template, pairs) in variants {
        let tokens = parse_str(template).unwrap();
        let mut content = ContentMap::new();
        for (ident, value) in pairs {
            content.insert(ident, value.to_owned());
        }
        let output = fill_out(tokens, content);
        assert_eq!(&output.unwrap(), expected);
    }
}

#[test]
fn fill_out_works() {
    let variants = vec![
        ("Hallo Paul", "Hallo {name}", vec![(TokenIdent::new("name", Token::Key), "Paul")]),
        (
            "a Leto b Paul",
            "a {other} b $name",
            vec![
                (TokenIdent::new("other", Token::Key), "Leto"),
                (TokenIdent::new("name", Token::Constant), "Paul"),
            ],
        ),
        (
            "a Leto b Paul",
            "a {other:Leto} b $name",
            vec![(TokenIdent::new("name", Token::Constant), "Paul")],
        ),
        (
            "a Leto b Paul",
            "a {other:{othername:Leto}} b $name",
            vec![(TokenIdent::new("name", Token::Constant), "Paul")],
        ),
    ];
    fill_out_variants(variants);
}

#[test]
fn templates_are_parsed_correctly() {
    let pairs: Vec<(&str, Vec<ContentToken>, Option<&str>)> = vec![
        (
            "fr-FR\n{key}$Constant${Option}",
            vec![
                ContentToken::Key(Ident::new("key"), None),
                ContentToken::Constant(Ident::new("Constant")),
                ContentToken::Option(Box::new(ContentToken::Key(Ident::new("Option"), None))),
            ],
            Some("fr-FR"),
        ),
        (
            "S ${Anrede} {name}\n{n}\n$M\n$S",
            vec![
                ContentToken::Text("S ".into()),
                ContentToken::Option(Box::new(ContentToken::Key(Ident::new("Anrede"), None))),
                ContentToken::Text(" ".into()),
                ContentToken::Key(Ident::new("name"), None),
                ContentToken::Text("\n".into()),
                ContentToken::Key(Ident::new("n"), None),
                ContentToken::Text("\n".into()),
                ContentToken::Constant(Ident::new("M")),
                ContentToken::Text("\n".into()),
                ContentToken::Constant(Ident::new("S")),
            ],
            None,
        ),
        (
            "Sehr geehrte Frau {name}\n{nachricht}\nMit freundlichen Grüßen\nBar",
            vec![
                ContentToken::Text("Sehr geehrte Frau ".into()),
                ContentToken::Key(Ident::new("name"), None),
                ContentToken::Text("\n".into()),
                ContentToken::Key(Ident::new("nachricht"), None),
                ContentToken::Text("\nMit freundlichen Grüßen\nBar".into()),
            ],
            None,
        ),
        (
            "{name:Peter} bla ${bye:{mfg:MfG}}",
            vec![
                ContentToken::Key(
                    Ident::new("name"),
                    Some(Box::new(ContentToken::Text("Peter".into()))),
                ),
                ContentToken::Text(" bla ".into()),
                ContentToken::Option(Box::new(ContentToken::Key(
                    Ident::new("bye"),
                    Some(Box::new(ContentToken::Key(
                        Ident::new("mfg"),
                        Some(Box::new(ContentToken::Text("MfG".into()))),
                    ))),
                ))),
            ],
            None,
        ),
    ];
    for (template, tokens, locale_str) in pairs {
        let result = parse_str(template).unwrap();
        if let Some(locale_str) = locale_str {
            let locale: Locale = locale_str.parse().unwrap();
            assert_eq!(*result.locale_ref(), locale);
        }
        for (idx, token) in result.tokens_ref().iter().enumerate() {
            assert_eq!(token, tokens.get(idx).unwrap());
        }
    }
}

// A template with no locale line carries the fallback locale.
#[test]
fn missing_locale_defaults_to_en_us() {
    let result = parse_str("Hallo").unwrap();
    let fallback: Locale = "en-US".parse().unwrap();
    assert_eq!(*result.locale_ref(), fallback);
    assert_eq!(
        result.tokens_ref().as_slice(),
        &[ContentToken::Text("Hallo".into())],
    );
}

// A first line that is no valid locale tag is re-read as template content
// instead of aborting the parse.
#[test]
fn invalid_locale_line_is_recovered() {
    let result = parse_str("not-a-locale\n{name}").unwrap();
    let fallback: Locale = "en-US".parse().unwrap();
    assert_eq!(*result.locale_ref(), fallback);
    assert_eq!(
        result.tokens_ref().as_slice(),
        &[
            ContentToken::Text("not-a-locale\n".into()),
            ContentToken::Key(Ident::new("name"), None),
        ],
    );
}

// A first line whose run of characters stops at a blank is no locale line:
// the whitespace test decides where the candidate tag ends.
#[test]
fn locale_candidate_ends_at_whitespace() {
    let with_blank = parse_str("en US\nx").unwrap();
    assert_eq!(
        with_blank.tokens_ref().as_slice(),
        &[ContentToken::Text("en US\nx".into())],
    );
    let without_blank = parse_str("en\nx").unwrap();
    let named: Locale = "en".parse().unwrap();
    assert_eq!(*without_blank.locale_ref(), named);
    assert_eq!(
        without_blank.tokens_ref().as_slice(),
        &[ContentToken::Text("x".into())],
    );
}

// Dispatch correctness: the three substitution forms never get confused,
// whatever follows them.
#[test]
fn three_forms_are_told_apart() {
    let option = parse_str("${Name}").unwrap();
    assert_eq!(
        option.tokens_ref().as_slice(),
        &[ContentToken::Option(Box::new(ContentToken::Key(Ident::new("Name"), None)))],
    );
    let constant = parse_str("$Name").unwrap();
    assert_eq!(
        constant.tokens_ref().as_slice(),
        &[ContentToken::Constant(Ident::new("Name"))],
    );
    let key = parse_str("{Name}").unwrap();
    assert_eq!(
        key.tokens_ref().as_slice(),
        &[ContentToken::Key(Ident::new("Name"), None)],
    );
}

// A valid prefix followed by unparsable trailing content is a failure, not a
// partial success.
#[test]
fn trailing_garbage_fails_the_parse() {
    assert!(parse_str("{name}").is_ok());
    assert!(parse_str("{name}}").is_err());
    assert!(parse_str("abc$").is_err());
}

// The draft of a template holds one placeholder per required identifier,
// nested defaults included, and no entry for literal text.
#[test]
fn draft_lists_nested_defaults() {
    let tokens = parse_str("a {other:{othername:Leto}} b $name").unwrap();
    let draft = tokens.draft();
    assert!(draft.get(TokenIdent::new("other", Token::Key)).is_some());
    assert!(draft.get(TokenIdent::new("othername", Token::Key)).is_some());
    assert!(draft.get(TokenIdent::new("name", Token::Constant)).is_some());
    assert!(draft.get(TokenIdent::new("Leto", Token::Key)).is_none());
    assert!(draft.get(TokenIdent::new("Leto", Token::Constant)).is_none());
    assert!(draft.get(TokenIdent::new("name", Token::Key)).is_none());
}

// Filling out a template against the draft it produced succeeds: every
// placeholder is present, and overwriting them yields the substituted text.
#[test]
fn fill_out_after_draft_succeeds() {
    let tokens = parse_str("Hallo {name}, $Mfg").unwrap();
    let mut draft = tokens.draft();
    assert_eq!(
        fill_out(parse_str("Hallo {name}, $Mfg").unwrap(), tokens.draft()).unwrap(),
        "Hallo , ",
    );
    draft.insert(TokenIdent::new("name", Token::Key), "Paul".to_owned());
    draft.insert(TokenIdent::new("Mfg", Token::Constant), "Gruß".to_owned());
    assert_eq!(fill_out(tokens, draft).unwrap(), "Hallo Paul, Gruß");
}

// Missing-value behavior: a constant without a value is fatal, a key without
// a value falls back to its default and only fails when it has none.
#[test]
fn missing_values_fail_fatally() {
    let constant = parse_str("$X").unwrap();
    match fill_out(constant, ContentMap::new()) {
        Err(e @ FillOutError::MissingConstant(_)) => {
            assert_eq!(e, FillOutError::MissingConstant(Ident::new("X")));
            assert_eq!(e.message(), "The given content is missing a constant with the name X");
        },
        other => panic!("expected a missing constant, got {:?}", other),
    }
    let key = parse_str("{X}").unwrap();
    match fill_out(key, ContentMap::new()) {
        Err(e @ FillOutError::MissingKey(_)) => {
            assert_eq!(e, FillOutError::MissingKey(Ident::new("X")));
            assert_eq!(e.message(), "The given content is missing a key with the name X");
        },
        other => panic!("expected a missing key, got {:?}", other),
    }
    let with_default = parse_str("{X:d}").unwrap();
    assert_eq!(fill_out(with_default, ContentMap::new()).unwrap(), "d");
}

// The same name resolves independently as a key and as a constant.
#[test]
fn key_and_constant_resolve_separately() {
    let tokens = parse_str("{name} $name").unwrap();
    let mut content = ContentMap::new();
    content.insert(TokenIdent::new("name", Token::Key), "A".to_owned());
    content.insert(TokenIdent::new("name", Token::Constant), "B".to_owned());
    assert_eq!(fill_out(tokens, content).unwrap(), "A B");
}

// A later insert for the same identifier overrides the earlier value.
#[test]
fn later_insert_overrides() {
    let tokens = parse_str("{name}").unwrap();
    let mut content = ContentMap::new();
    content.insert(TokenIdent::new("name", Token::Key), "old".to_owned());
    content.insert(TokenIdent::new("name", Token::Key), "new".to_owned());
    assert_eq!(fill_out(tokens, content).unwrap(), "new");
}
