use ccase::cases::Case;
use ccase::convert::{convert, SourceMode, TargetMode};
use convert_case::{Case as CcCase, Casing};

fn mine(input: &str, c: Case) -> String {
    let out = convert(input.as_bytes(), &SourceMode::Auto, &TargetMode::ToCase(c));
    String::from_utf8(out).unwrap()
}

#[test]
fn agrees_with_convert_case() {
    let pairs = [
        (Case::Snake, CcCase::Snake),
        (Case::Constant, CcCase::UpperSnake),
        (Case::Kebab, CcCase::Kebab),
        (Case::Cobol, CcCase::Cobol),
        (Case::Pascal, CcCase::Pascal),
        (Case::Camel, CcCase::Camel),
        (Case::Lower, CcCase::Lower),
        (Case::Upper, CcCase::Upper),
        (Case::Title, CcCase::Title),
        (Case::Train, CcCase::Train),
        (Case::Flat, CcCase::Flat),
        (Case::Alternating, CcCase::Alternating),
    ];
    let inputs = [
        "myVarName",
        "HTTPServer",
        "my_var-name Longer",
        "transformationsIn3D",
        "ABc",
        "",
        "foo.bar",
        "MY_VAR_NAME",
        "2much4you",
    ];
    for (ours, theirs) in pairs {
        for input in inputs {
            assert_eq!(
                mine(input, ours),
                input.to_case(theirs),
                "case {ours:?} on {input:?}"
            );
        }
    }
}
