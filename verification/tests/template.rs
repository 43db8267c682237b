use fancy_regex::Regex;
use typofix::template::convert_replace_string;

fn braced(template: &str) -> String {
    convert_replace_string(template.to_string())
}

#[test]
fn wraps_only_the_digits() {
    assert_eq!(braced("$12abc"), "${12}abc");
}

#[test]
fn wraps_the_reference_of_the_bias_rule() {
    assert_eq!(braced("$1ias"), "${1}ias");
}

#[test]
fn leaves_a_template_without_reference_alone() {
    for template in ["", "plain", "$", "a$", "$a", "$ 1", "${1}", "${12}abc", "$$", "$-1", "€$x", "1$", "$١"] {
        assert_eq!(braced(template), template, "{template:?}");
    }
}

#[test]
fn wraps_every_reference() {
    assert_eq!(braced("$1$2"), "${1}${2}");
    assert_eq!(braced("$1 and $22, then $333."), "${1} and ${22}, then ${333}.");
    assert_eq!(braced("x$0"), "x${0}");
    assert_eq!(braced("$1"), "${1}");
    assert_eq!(braced("é$1é"), "é${1}é");
    assert_eq!(braced("$007"), "${007}");
}

#[test]
fn a_dollar_before_a_reference_stays() {
    assert_eq!(braced("$$1"), "$${1}");
    assert_eq!(braced("$$$12$"), "$$${12}$");
}

#[test]
fn a_braced_reference_is_not_wrapped_again() {
    assert_eq!(braced(&braced("$1a$23")), "${1}a${23}");
}

#[test]
fn wraps_as_the_pattern_wraps() {
    let reference = Regex::new("\\$([0-9]+)").unwrap();
    for template in [
        "", "$", "$1", "$12abc", "$1ias", "a$1b$2c", "$$1", "$$", "${1}", "$a1", "$1$", "1$1",
        "$0$00$000", "$ 1", "$١", "€$9€", "$1\n$2", "$$$$3", "$1{2}", "{$1}", "$12345678901234567890",
    ] {
        assert_eq!(braced(template), reference.replace_all(template, "$${$1}"), "{template:?}");
    }
}
