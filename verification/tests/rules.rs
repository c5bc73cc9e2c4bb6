//! Rule-level acceptance and rejection of the grammar, each rule driven
//! directly over a fresh scanner.
use txt_templ_parser::scan::Scanner;
use txt_templ_parser::parse;

fn accepts<T, E>(parse_fn: fn(&mut Scanner) -> Result<T, E>, variants: Vec<&str>) {
    for variant in variants {
        let mut scanner = Scanner::new(variant);
        assert!(parse_fn(&mut scanner).is_ok(), "falsely rejected: {:?}", variant);
    }
}

fn rejects<T, E>(parse_fn: fn(&mut Scanner) -> Result<T, E>, cases: Vec<(&str, &str)>) {
    for (variant, case) in cases {
        let mut scanner = Scanner::new(variant);
        assert!(
            parse_fn(&mut scanner).is_err(),
            "An invalid variant: '{}', which {} was falsely accepted!",
            variant,
            case,
        );
    }
}

#[test]
fn locales_are_accepted() {
    let locales = vec!["en_US\nHallo", "fr_FR\n{name}"];
    accepts(parse::locale, locales);
}

#[test]
fn defaults_are_accepted() {
    let key_defaults = vec![
        "{name:hallo}",
        "{name:$Me}",
        "{name:${Someone}}",
        "{name:${Kontake:Müller}}",
    ];
    accepts(parse::key, key_defaults);
    let opt_defaults = vec!["${Someone:{name}}"];
    accepts(parse::option, opt_defaults);
}

#[test]
fn keys_are_accepted() {
    let keys = vec!["{name}", "{NAME}", "{NaMe}", "{n}", "{N}", "{08nsf}"];
    accepts(parse::key, keys);
}

#[test]
fn idents_are_accepted() {
    let idents = vec!["hallo", "HALLO", "hAlLO", "h4ll0", "823480", "H4LLO"];
    accepts(parse::ident, idents);

    let all_symbols = "ABCDEFGHIJKLMNOPQRSTUVWXYZabcdefghijklmnopqrstuvwxyz0123456789";
    let mut scanner = Scanner::new(all_symbols);
    assert!(parse::ident(&mut scanner).is_ok());
}

#[test]
fn options_are_accepted() {
    let options = vec!["${Adressat}", "${addressat}", "${NAME}"];
    accepts(parse::option, options);
}

#[test]
fn constants_are_accepted() {
    let options = vec!["$MyName", "$myname", "$me13", "$3.141"];
    accepts(parse::constant, options);
}

#[test]
fn templates_are_accepted() {
    let templates = vec![
        "{key}$Constant${Option}",
        "Sehr ${Anrede} {name}\n{nachricht}\n$Mfg\n$Sender",
        "Sehr geehrte Frau {name}\n{nachricht}\nMit freundlichen Grüßen\nBar",
        "Hallo Herr {name:${Kontake:Müller}}, ich wollte ...",
    ];
    accepts(parse::template, templates);
}

#[test]
fn texts_are_accepted() {
    let texts = vec![
        "Sehr geehrter Herr Foo \n\t iblbl",
        "\nHallo",
        "h",
        "\nllsf\n",
        ")_!_&_)*@#*^+_[]0=082q5-=8';,m;,.<''\"",
        "\n \t ",
    ];
    accepts(parse::text, texts);
}

#[test]
fn keys_are_rejected() {
    let cases = vec![
        ("name", "is missing braces"),
        ("{name", "is missing right brace"),
        ("name}", "is missing left brace"),
        ("{&*(^)}", "contains invalid characters"),
        ("{ /t\n}", "only contains whitespace charactes"),
        ("{ /tsf\n}", "contains whitespace charactes"),
    ];
    rejects(parse::key, cases);
}

#[test]
fn idents_are_rejected() {
    let cases = vec![
        (" \n \t", "only contains whitespace characters"),
        ("*)&%%_)+|", "only contains invalid characters"),
        ("&*!abc", "starts out with invalid characters"),
    ];
    rejects(parse::ident, cases);
}

#[test]
fn options_are_rejected() {
    let cases = vec![
        ("$name", "is missing the braces"),
        ("{name}", "is missing the dollar sign"),
        ("${}", "is missing an identifier"),
        ("$ {name}", "has a whitespace between the dollar sign and the first brace"),
    ];
    rejects(parse::option, cases);
}

#[test]
fn constants_are_rejected() {
    let cases = vec![
        ("$ name", "has a whitespace between the dollar sign and the ident"),
        ("${name}", "has braces around it's ident"),
    ];
    rejects(parse::constant, cases);
}

#[test]
fn texts_are_rejected() {
    let cases = vec![
        ("{}\nsf{dsf}$", "contains invalid characters"),
        ("$$}}{}$", "only contains invalid characters"),
    ];
    rejects(parse::text, cases);
}
