//! The structured error model: which failure a bad input yields, where it
//! points, and how it reads when rendered for a human.
use txt_templ_parser::parse_str;
use txt_templ_parser::parse::ContextMsg;
use txt_templ_parser::parse::ParseError;
use txt_templ_parser::parse::PossibleMsg;
use txt_templ_parser::scan::ScanError;

const KEY: &str = "key";
const CONSTANT: &str = "constant";
const OPTION: &str = "option";
const TEXT: &str = "text";
const CONTAINS: &str = "Found invalid character(s) contained in ";
const CLOSES: &str = "Found invalid closing character for ";
const EMPTY: &str = "Cannot process an empty input";
const MAYBE: &str = "Did you maybe mean ";
const ALLOWED: &str = "Allowed characters are ";
const FORBIDDEN: &str = "Forbidden characters are ";

fn assert_out(input: &str, contained: Vec<&str>) {
    let message = parse_str(input).unwrap_err().message();
    for part in contained {
        assert!(
            message.contains(part),
            "the message {:?} for input {:?} misses {:?}",
            message,
            input,
            part,
        );
    }
}

#[test]
fn invalid_idents() {
    // The ident of the key is interrupted by an invalid character
    assert_out("{nam*e}", vec![CONTAINS, ALLOWED, KEY]);
    assert_out("{}", vec![CONTAINS, ALLOWED, KEY]);
    assert_out("$---", vec![CONTAINS, ALLOWED, CONSTANT]);
    assert_out("${}", vec![CONTAINS, ALLOWED, OPTION]);
}

#[test]
fn invalid_text() {
    assert_out("$bla}", vec![CONTAINS, FORBIDDEN, TEXT]);
    assert_out("blalbla}bla", vec![CONTAINS, FORBIDDEN, TEXT]);
}

#[test]
fn empty_input() {
    assert_out("", vec![EMPTY]);
}

#[test]
fn invalid_key_ident() {
    assert_out("{nam*e}", vec![CONTAINS, ALLOWED, KEY]);
}

// Error position accuracy: the failure in `{nam*e}` points at the `*`,
// column 5 of line 1, reported as invalid content in the key's identifier
// with the allowed character classes.
#[test]
fn error_position_points_at_offender() {
    let e = parse_str("{nam*e}").unwrap_err();
    assert_eq!(e.context, ContextMsg::InvalidContainedIn("identifier of key".to_owned()));
    assert_eq!(e.possible, PossibleMsg::AllowedAre("'A'-'Z', 'a'-'z' and '0'-'9'".to_owned()));
    match e.parse_error {
        ParseError::LexicalError(ScanError::UnexpectedSymbol(symbol)) => {
            assert_eq!(symbol.found, '*');
            assert_eq!(symbol.position.line, 1);
            assert_eq!(symbol.position.column, 5);
        },
        other => panic!("expected an unexpected symbol, got {:?}", other),
    }
    assert!(e.message().contains("'*' at column 5"));
    assert!(e.message().contains("Found invalid character(s) contained in identifier of key"));
    assert!(e.message().contains("Allowed characters are 'A'-'Z', 'a'-'z' and '0'-'9'"));
}

// Positions past the first line name the line too.
#[test]
fn error_position_counts_lines() {
    let e = parse_str("ab cd\n{*}").unwrap_err();
    match e.parse_error {
        ParseError::LexicalError(ScanError::UnexpectedSymbol(symbol)) => {
            assert_eq!(symbol.found, '*');
            assert_eq!(symbol.position.line, 2);
            assert_eq!(symbol.position.column, 2);
        },
        other => panic!("expected an unexpected symbol, got {:?}", other),
    }
    assert!(e.message().contains("line 2, column 2"));
}

// How far an attempt progressed before failing is the difference between its
// failure position and its starting position.
#[test]
fn failed_after_measures_progress() {
    let e = parse_str("{nam*e}").unwrap_err();
    match e.parse_error {
        ParseError::LexicalError(scan_error) => {
            assert_eq!(scan_error.failed_after(), 4);
        },
        other => panic!("expected a lexical failure, got {:?}", other),
    }
}

// Columns past 9 render with all their digits.
#[test]
fn wide_columns_render_in_decimal() {
    let e = parse_str("aaaaaaaaaa{*}").unwrap_err();
    match e.parse_error {
        ParseError::LexicalError(ScanError::UnexpectedSymbol(symbol)) => {
            assert_eq!(symbol.position.column, 12);
        },
        other => panic!("expected an unexpected symbol, got {:?}", other),
    }
    assert!(e.message().contains("'*' at column 12"));
}

// Of two failures, the one that progressed further into the source wins.
#[test]
fn or_better_keeps_the_further_attempt() {
    let further = parse_str("{nam*e}").unwrap_err();
    let earlier = parse_str("$-").unwrap_err();
    assert_eq!(further.clone().or_better(earlier.clone()), further);
    assert_eq!(earlier.clone().or_better(further.clone()), further);
    assert_eq!(further.clone().or_better(further.clone()), further);
}

// An unfinished input fails with an end-of-input failure, not a symbol one.
#[test]
fn unfinished_input_hits_the_end() {
    let e = parse_str("{name").unwrap_err();
    match e.parse_error {
        ParseError::LexicalError(ScanError::UnexpectedEndOfInput(position)) => {
            assert_eq!(position.column, 6);
        },
        other => panic!("expected an end of input failure, got {:?}", other),
    }
    assert!(e.message().contains("Unexpected end of input reached at position column 6"));
    assert_out("{name", vec![CLOSES, MAYBE, KEY]);
}
