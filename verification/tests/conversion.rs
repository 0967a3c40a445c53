use ccase::boundary::BoundarySet;
use ccase::cases::Case;
use ccase::convert::{convert, detect, SourceMode, TargetMode};
use ccase::names::{parse_boundaries, parse_case, parse_pattern, ConfigError, Flag};

fn conv(input: &str, src: SourceMode, tgt: TargetMode) -> String {
    String::from_utf8(convert(input.as_bytes(), &src, &tgt)).unwrap()
}

fn by_names(input: &str, from: Option<&str>, to: &str) -> String {
    let src = match from {
        None => SourceMode::Auto,
        Some(n) => SourceMode::FromCase(parse_case(n.as_bytes(), Flag::From).unwrap()),
    };
    let tgt = TargetMode::ToCase(parse_case(to.as_bytes(), Flag::To).unwrap());
    conv(input, src, tgt)
}

#[test]
fn to_case() {
    assert_eq!(by_names("myVarName", None, "snake"), "my_var_name");
    assert_eq!(by_names("myVarName", None, "kebab"), "my-var-name");
    assert_eq!(by_names("my Var Name", None, "kebab"), "my-var-name");
}

#[test]
fn from_case() {
    assert_eq!(by_names("my_var-name", Some("snake"), "pascal"), "MyVar-name");
    assert_eq!(by_names("myVar-name", Some("pascal"), "snake"), "my_var-name");
    assert_eq!(by_names("my Var-name", Some("lower"), "snake"), "my_var-name");
}

#[test]
fn pattern_only() {
    let p = parse_pattern(b"capital").unwrap();
    let out = conv(
        "MY_VAR_NAME",
        SourceMode::Auto,
        TargetMode::ToPattern(p, Vec::new()),
    );
    assert_eq!(out, "MyVarName");
    let p = parse_pattern(b"Sentence").unwrap();
    let out = conv(
        "MY_VAR_NAME",
        SourceMode::Auto,
        TargetMode::ToPattern(p, Vec::new()),
    );
    assert_eq!(out, "Myvarname");
}

#[test]
fn delimeter() {
    let p = parse_pattern(b"sentence").unwrap();
    let out = conv(
        "myVarName",
        SourceMode::Auto,
        TargetMode::ToPattern(p, b".".to_vec()),
    );
    assert_eq!(out, "My.var.name");
}

#[test]
fn case_inputs_not_lower() {
    assert_eq!(by_names("myVarName", None, "SNAKE"), "my_var_name");
    assert_eq!(by_names("myVarName", None, "SnAkE"), "my_var_name");
    assert_eq!(by_names("my-varName", Some("KEBab"), "snake"), "my_varname");
    assert_eq!(by_names("my-varName", Some("KEBAB"), "snake"), "my_varname");
}

#[test]
fn invalid_case() {
    let err = parse_case(b"SNEK", Flag::To).unwrap_err();
    assert!(matches!(
        err,
        ConfigError::InvalidCaseName { flag: Flag::To, ref value } if value.as_slice() == b"SNEK"
    ));
    let err = parse_case(b"SNEK", Flag::From).unwrap_err();
    assert!(matches!(
        err,
        ConfigError::InvalidCaseName { flag: Flag::From, .. }
    ));
}

#[test]
fn invalid_pattern() {
    let err = parse_pattern(b"SENT").unwrap_err();
    assert!(matches!(
        err,
        ConfigError::InvalidPatternName { flag: Flag::Pattern, ref value } if value.as_slice() == b"SENT"
    ));
}

#[test]
fn empty_string_input() {
    assert_eq!(by_names("", None, "snake"), "");
    let p = parse_pattern(b"capital").unwrap();
    assert_eq!(
        conv("", SourceMode::Auto, TargetMode::ToPattern(p, b"-".to_vec())),
        ""
    );
}

#[test]
fn boundaries() {
    let bs = parse_boundaries(b"aA").unwrap();
    let tgt = TargetMode::ToCase(Case::Snake);
    assert_eq!(
        conv("myVar-Name-Longer", SourceMode::FromBoundaries(bs), tgt.clone()),
        "my_var-name-longer"
    );
    let bs = parse_boundaries(b"-").unwrap();
    assert_eq!(
        conv("myVar-Name-Longer", SourceMode::FromBoundaries(bs), tgt),
        "myvar_name_longer"
    );
}

#[test]
fn multiple_inputs() {
    let inputs = ["myVarName", "anotherMultiWordToken"];
    let outputs: Vec<String> = inputs
        .iter()
        .map(|i| by_names(i, None, "snake"))
        .collect();
    assert_eq!(outputs, ["my_var_name", "another_multi_word_token"]);
}

#[test]
fn main_multiple_inputs() {
    let inputs = ["myVarName", "anotherMultiWordToken"];
    let outputs: Vec<String> = inputs
        .iter()
        .map(|i| by_names(i, None, "Pascal"))
        .collect();
    assert_eq!(outputs, ["MyVarName", "AnotherMultiWordToken"]);
}

#[test]
fn acronym_words() {
    let ws = detect(b"HTTPServer", &SourceMode::Auto);
    assert_eq!(ws, vec![b"HTTP".to_vec(), b"Server".to_vec()]);
    assert_eq!(by_names("HTTPServer", None, "snake"), "http_server");
}

#[test]
fn auto_boundary_defaults() {
    assert_eq!(by_names("myVarName", None, "snake"), "my_var_name");
    assert_eq!(by_names("myVarName", None, "kebab"), "my-var-name");
    assert_eq!(by_names("myVarName", None, "pascal"), "MyVarName");
}

#[test]
fn digit_boundaries() {
    assert_eq!(by_names("transformationsIn3D", None, "snake"), "transformations_in_3_d");
    assert_eq!(by_names("my2ndVar", None, "kebab"), "my-2-nd-var");
}

#[test]
fn all_named_cases() {
    let input = "myVarName";
    assert_eq!(by_names(input, None, "constant"), "MY_VAR_NAME");
    assert_eq!(by_names(input, None, "upper-snake"), "MY_VAR_NAME");
    assert_eq!(by_names(input, None, "cobol"), "MY-VAR-NAME");
    assert_eq!(by_names(input, None, "upper-kebab"), "MY-VAR-NAME");
    assert_eq!(by_names(input, None, "camel"), "myVarName");
    assert_eq!(by_names(input, None, "lower"), "my var name");
    assert_eq!(by_names(input, None, "upper"), "MY VAR NAME");
    assert_eq!(by_names(input, None, "title"), "My Var Name");
    assert_eq!(by_names(input, None, "sentence"), "My var name");
    assert_eq!(by_names(input, None, "train"), "My-Var-Name");
    assert_eq!(by_names(input, None, "flat"), "myvarname");
    assert_eq!(by_names(input, None, "alternating"), "mY vAr NaMe");
}

#[test]
fn punctuation_passes_through() {
    assert_eq!(by_names("foo.bar", None, "snake"), "foo.bar");
    assert_eq!(by_names("foo.bar baz", None, "kebab"), "foo.bar-baz");
}

#[test]
fn idempotent_reconversion() {
    for name in [
        "snake", "constant", "kebab", "cobol", "lower", "upper", "title", "sentence", "train",
        "flat", "alternating",
    ] {
        let once = by_names("myVar-Name HTTP_Request2go", None, name);
        let twice = by_names(&once, Some(name), name);
        assert_eq!(twice, once, "target case {name}");
    }
}

#[test]
fn boundary_spec_rejected() {
    let err = parse_boundaries(b"x").unwrap_err();
    assert!(matches!(
        err,
        ConfigError::InvalidBoundarySpec { flag: Flag::Boundaries, ref value } if value.as_slice() == b"x"
    ));
    assert!(parse_boundaries(b"").is_err());
}

#[test]
fn boundary_spec_sets() {
    let bs = parse_boundaries(b"aA").unwrap();
    assert_eq!(
        bs,
        BoundarySet {
            lower_upper: true,
            ..no_boundaries()
        }
    );
    let bs = parse_boundaries(b"aA8a -").unwrap();
    assert!(bs.lower_upper && bs.upper_digit && bs.digit_lower && bs.space && bs.hyphen);
    assert!(!bs.underscore && !bs.upper_lower && !bs.acronym && !bs.lower_digit && !bs.digit_upper);
    let bs = parse_boundaries(b"AAa").unwrap();
    assert!(bs.acronym && !bs.upper_lower);
    let bs = parse_boundaries(b".Aaaa").unwrap();
    assert!(bs.upper_lower && !bs.acronym);
}

fn no_boundaries() -> BoundarySet {
    BoundarySet {
        underscore: false,
        hyphen: false,
        space: false,
        lower_upper: false,
        upper_lower: false,
        digit_upper: false,
        upper_digit: false,
        digit_lower: false,
        lower_digit: false,
        acronym: false,
    }
}

#[test]
fn explicit_upper_lower_only() {
    let mut bs = no_boundaries();
    bs.lower_upper = true;
    let out = conv(
        "myVar-Name-Longer",
        SourceMode::FromBoundaries(bs),
        TargetMode::ToCase(Case::Snake),
    );
    assert_eq!(out, "my_var-name-longer");
}

#[test]
fn acronym_takes_precedence_over_upper_lower() {
    let mut bs = no_boundaries();
    bs.upper_lower = true;
    bs.acronym = true;
    let out = conv(
        "HTTPServer",
        SourceMode::FromBoundaries(bs),
        TargetMode::ToCase(Case::Snake),
    );
    assert_eq!(out, "http_server");
    let mut bs = no_boundaries();
    bs.upper_lower = true;
    let out = conv(
        "HTTPServer",
        SourceMode::FromBoundaries(bs),
        TargetMode::ToCase(Case::Snake),
    );
    assert_eq!(out, "https_erver");
}

#[test]
fn pattern_names_case_insensitive() {
    for name in ["TOGGLE", "Toggle", "toggle"] {
        assert!(parse_pattern(name.as_bytes()).is_ok());
    }
    for name in ["lower", "upper", "capital", "sentence", "camel", "alternating"] {
        assert!(parse_pattern(name.as_bytes()).is_ok());
    }
    assert!(parse_pattern(b"low").is_err());
}
