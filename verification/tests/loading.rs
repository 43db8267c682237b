use typofix::compiler::CompileStats;
use typofix::engine::apply;
use typofix::parser::ParseStats;
use typofix::tagsoup::{load_rules, parse_and_compile, TypoRule};

const CORPUS: &str = "Some rules for a start.\n\
    <Typo word=\"bias\" find=\"\\b([bB])iais\\b\" replace=\"$1ias\"/>\n\
    <Typo word=\"look-behind\" find=\"(?<=a+)b\" replace=\"c\"/>\n\
    <Typo word=\"broken\" find=\"(\" replace=\"c\"/>\n\
    <Typo word=\"off\" disabled=\"\" find=\"d\" replace=\"e\"/>\n\
    <Typo word=\"half\" find=\"d\"/>\n\
    <Typo word=\"the\" find=\"\\b([tT])eh\\b\" replace=\"$1he\" />\n\
    <Typo word=\"open find=\"x\" replace=\"y\"/>\n\
    <Typo word=\"also broken\" find=\"[\" replace=\"c\"/>\n\
    <Typo word=\"a lot\" find=\"\\b([aA])lot\\b\" replace=\"$1 lot\"/>\n";

#[test]
fn loads_the_bias_rule() {
    let corpus = "<Typo word=\"bias\" find=\"\\b([bB])iais\\b\" replace=\"$1ias\"/>";
    let rules = parse_and_compile(corpus);
    assert_eq!(rules.len(), 1);
    assert_eq!(rules[0].label, "bias");
    assert_eq!(rules[0].regex.as_str(), "\\b([bB])iais\\b");
    assert_eq!(rules[0].replace, "${1}ias");
}

#[test]
fn counts_what_it_leaves_out() {
    let (rules, parsed, compiled) = load_rules(CORPUS);
    let labels: Vec<_> = rules.iter().map(|rule| rule.label.as_str()).collect();
    assert_eq!(labels, vec!["bias", "the", "a lot"]);
    assert_eq!(parsed, ParseStats { discovered: 6, disabled: 1, missing: 1 });
    assert_eq!(compiled, CompileStats { unsupported: 1, syntax: 2 });
}

#[test]
fn parse_and_compile_gives_the_rules_of_load_rules() {
    let alone = parse_and_compile(CORPUS);
    let (with_counts, _, _) = load_rules(CORPUS);
    assert_eq!(alone.len(), with_counts.len());
    for (one, other) in alone.iter().zip(&with_counts) {
        assert_eq!(one.label, other.label);
        assert_eq!(one.regex.as_str(), other.regex.as_str());
        assert_eq!(one.replace, other.replace);
    }
}

#[test]
fn an_empty_corpus_loads_no_rules() {
    let (rules, parsed, compiled) = load_rules("");
    assert!(rules.is_empty());
    assert_eq!(parsed, ParseStats { discovered: 0, disabled: 0, missing: 0 });
    assert_eq!(compiled, CompileStats { unsupported: 0, syntax: 0 });
}

#[test]
fn a_corpus_without_faults_keeps_every_rule_in_order() {
    let mut corpus = String::new();
    for k in 0..300 {
        corpus.push_str(&format!("<Typo word=\"w{k}\" find=\"f{k}\" replace=\"$1r{k}\"/>\n"));
    }
    let (rules, parsed, compiled) = load_rules(&corpus);
    assert_eq!(rules.len(), 300);
    for (k, rule) in rules.iter().enumerate() {
        assert_eq!(rule.label, format!("w{k}"));
        assert_eq!(rule.regex.as_str(), format!("f{k}"));
        assert_eq!(rule.replace, format!("${{1}}r{k}"));
    }
    assert_eq!(parsed, ParseStats { discovered: 300, disabled: 0, missing: 0 });
    assert_eq!(compiled, CompileStats { unsupported: 0, syntax: 0 });
}

#[test]
fn loaded_rules_apply() {
    let rules: Vec<TypoRule> = parse_and_compile(CORPUS);
    let fixed = apply(&rules, "Teh biais was alot.").unwrap();
    assert_eq!(fixed.text, "The bias was a lot.");
    assert_eq!(fixed.applied_count, 3);
    let flags: Vec<_> = fixed.outcomes.iter().map(|o| (o.label.as_str(), o.applied)).collect();
    assert_eq!(flags, vec![("bias", true), ("the", true), ("a lot", true)]);
}
