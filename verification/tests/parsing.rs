use fancy_regex::Regex;
use typofix::grammar::KeyKind;
use typofix::parser::{
    classify_tag, key_kind_of, parse_rules_file, scan_attr, scan_tag, AttrSpan, ParseStats,
    TagOutcome,
};
use typofix::rules::RawRule;

fn rule(label: &str, pattern: &str, replace: &str) -> RawRule {
    RawRule { label: label.to_string(), pattern: pattern.to_string(), replace: replace.to_string() }
}

fn stats(discovered: usize, disabled: usize, missing: usize) -> ParseStats {
    ParseStats { discovered, disabled, missing }
}

fn chars(text: &str) -> Vec<char> {
    text.chars().collect()
}

/// The same reading of a corpus, done with two patterns of the regex crate.
fn parse_with_patterns(text: &str) -> (Vec<RawRule>, ParseStats) {
    let tag_re = Regex::new("<Typo(\\s+[a-z_-]+=\"[^\"\\n]*\")+\\s*/>").unwrap();
    let attr_re = Regex::new("([a-z_-]+)=\"([^\"\\n]*)\"").unwrap();
    let mut rules = Vec::new();
    let mut disabled = 0;
    let mut missing = 0;
    'tags: for tag in tag_re.find_iter(text) {
        let tag = tag.unwrap().as_str();
        let mut label = None;
        let mut pattern = None;
        let mut replace = None;
        for attr in attr_re.captures_iter(tag) {
            let attr = attr.unwrap();
            let value = attr.get(2).unwrap().as_str();
            match attr.get(1).unwrap().as_str() {
                "word" => label = Some(value),
                "find" => pattern = Some(value),
                "replace" => replace = Some(value),
                "disabled" | "disable" => {
                    disabled += 1;
                    continue 'tags;
                }
                _ => {}
            }
        }
        match (label, pattern, replace) {
            (Some(label), Some(pattern), Some(replace)) => rules.push(rule(label, pattern, replace)),
            _ => missing += 1,
        }
    }
    let discovered = rules.len();
    (rules, stats(discovered, disabled, missing))
}

#[test]
fn reads_the_bias_tag() {
    let corpus = "<Typo word=\"bias\" find=\"\\b([bB])iais\\b\" replace=\"$1ias\"/>";
    let (rules, counted) = parse_rules_file(corpus);
    assert_eq!(rules, vec![rule("bias", "\\b([bB])iais\\b", "$1ias")]);
    assert_eq!(counted, stats(1, 0, 0));
}

#[test]
fn reads_a_tag_with_a_space_before_the_close() {
    let (rules, counted) = parse_rules_file("<Typo word=\"a\" find=\"b\" replace=\"c\" />");
    assert_eq!(rules, vec![rule("a", "b", "c")]);
    assert_eq!(counted, stats(1, 0, 0));
}

#[test]
fn attribute_order_does_not_matter() {
    let (rules, counted) = parse_rules_file("<Typo replace=\"c\" word=\"a\" find=\"b\"/>");
    assert_eq!(rules, vec![rule("a", "b", "c")]);
    assert_eq!(counted, stats(1, 0, 0));
}

#[test]
fn attributes_may_be_apart_by_any_white_space() {
    let corpus = "<Typo\tword=\"a\"\n\n  find=\"b\"\u{a0}\u{2003}replace=\"c\"\r\n/>";
    let (rules, counted) = parse_rules_file(corpus);
    assert_eq!(rules, vec![rule("a", "b", "c")]);
    assert_eq!(counted, stats(1, 0, 0));
}

#[test]
fn values_are_taken_letter_for_letter() {
    let corpus = "<Typo word=\"R&amp;D &lt;x&gt;\" find=\"  a\tb  \" replace=\"naïve $1 – 日本\"/>";
    let (rules, _) = parse_rules_file(corpus);
    assert_eq!(rules, vec![rule("R&amp;D &lt;x&gt;", "  a\tb  ", "naïve $1 – 日本")]);
}

#[test]
fn empty_values_are_values() {
    let (rules, counted) = parse_rules_file("<Typo word=\"\" find=\"\" replace=\"\"/>");
    assert_eq!(rules, vec![rule("", "", "")]);
    assert_eq!(counted, stats(1, 0, 0));
}

#[test]
fn unknown_keys_are_ignored() {
    let corpus = "<Typo note=\"x\" word=\"a\" find=\"b\" since-when=\"y\" replace=\"c\" _=\"\"/>";
    let (rules, counted) = parse_rules_file(corpus);
    assert_eq!(rules, vec![rule("a", "b", "c")]);
    assert_eq!(counted, stats(1, 0, 0));
}

#[test]
fn the_last_of_a_repeated_key_counts() {
    let corpus = "<Typo word=\"a\" find=\"b\" replace=\"c\" word=\"z\" find=\"y\"/>";
    let (rules, _) = parse_rules_file(corpus);
    assert_eq!(rules, vec![rule("z", "y", "c")]);
}

#[test]
fn a_disable_marker_suppresses_the_rule() {
    for marker in ["disable=\"\"", "disabled=\"\"", "disabled=\"no\"", "disable=\"false\""] {
        for corpus in [
            format!("<Typo {marker} word=\"a\" find=\"b\" replace=\"c\"/>"),
            format!("<Typo word=\"a\" {marker} find=\"b\" replace=\"c\"/>"),
            format!("<Typo word=\"a\" find=\"b\" replace=\"c\" {marker}/>"),
            format!("<Typo {marker}/>"),
        ] {
            let (rules, counted) = parse_rules_file(&corpus);
            assert_eq!(rules, vec![], "{corpus}");
            assert_eq!(counted, stats(0, 1, 0), "{corpus}");
        }
    }
}

#[test]
fn a_disabled_tag_that_is_incomplete_counts_as_disabled() {
    let (rules, counted) = parse_rules_file("<Typo word=\"a\" disabled=\"\"/>");
    assert_eq!(rules, vec![]);
    assert_eq!(counted, stats(0, 1, 0));
}

#[test]
fn a_tag_without_word_find_or_replace_is_counted_as_incomplete() {
    for corpus in [
        "<Typo find=\"b\" replace=\"c\"/>",
        "<Typo word=\"a\" replace=\"c\"/>",
        "<Typo word=\"a\" find=\"b\"/>",
        "<Typo word=\"a\"/>",
        "<Typo other=\"a\"/>",
    ] {
        let (rules, counted) = parse_rules_file(corpus);
        assert_eq!(rules, vec![], "{corpus}");
        assert_eq!(counted, stats(0, 0, 1), "{corpus}");
    }
}

#[test]
fn text_that_is_no_tag_is_passed_over() {
    for corpus in [
        "",
        "no tags here",
        "<Typo/>",
        "<Typo />",
        "<Typo word=\"a\" find=\"b\" replace=\"c\">",
        "<Typo word=\"a\" find=\"b\" replace=\"c/>",
        "<Typo word=\"a\" find=\"b\" replace=c/>",
        "<Typo word=\"a\"find=\"b\" replace=\"c\"/>",
        "<Typoword=\"a\" find=\"b\" replace=\"c\"/>",
        "<typo word=\"a\" find=\"b\" replace=\"c\"/>",
        "<Typo Word=\"a\" find=\"b\" replace=\"c\"/>",
        "<Typo word=\"a\" find=\"b\nc\" replace=\"c\"/>",
        "<Typo word=\"a\" find=\"b\" replace=\"c\" / >",
        "<Typo word =\"a\" find=\"b\" replace=\"c\"/>",
        "<Typo word= \"a\" find=\"b\" replace=\"c\"/>",
        "<Typo word='a' find='b' replace='c'/>",
        "<Typo word=\"a\" find=\"b\" replace=\"c\" x/>",
        "<Typo word=\"a\" find=\"b\" replace=\"c\" wörd=\"d\"/>",
    ] {
        let (rules, counted) = parse_rules_file(corpus);
        assert_eq!(rules, vec![], "{corpus}");
        assert_eq!(counted, stats(0, 0, 0), "{corpus}");
    }
}

#[test]
fn a_tag_may_start_inside_broken_text() {
    let corpus = "<Typo <Typo word=\"a\" find=\"b\" replace=\"c\"/>";
    let (rules, counted) = parse_rules_file(corpus);
    assert_eq!(rules, vec![rule("a", "b", "c")]);
    assert_eq!(counted, stats(1, 0, 0));
}

#[test]
fn an_open_quote_swallows_up_to_the_next_quote() {
    let corpus = "<Typo word=\"a find=\"b\" replace=\"c\"/> <Typo word=\"d\" find=\"e\" replace=\"f\"/>";
    let (rules, counted) = parse_rules_file(corpus);
    assert_eq!(rules, vec![rule("d", "e", "f")]);
    assert_eq!(counted, stats(1, 0, 0));
}

#[test]
fn rules_come_in_the_order_of_the_corpus() {
    let corpus = "intro\n\
        <Typo word=\"one\" find=\"1\" replace=\"I\"/>\n\
        <Typo word=\"two\" find=\"2\" replace=\"II\" disabled=\"\"/>\n\
        between <b>markup</b>\n\
        <Typo word=\"three\" find=\"3\" replace=\"III\"/><Typo word=\"four\" find=\"4\"/>\n\
        <Typo word=\"five\" find=\"5\" replace=\"V\"/> outro";
    let (rules, counted) = parse_rules_file(corpus);
    assert_eq!(rules, vec![rule("one", "1", "I"), rule("three", "3", "III"), rule("five", "5", "V")]);
    assert_eq!(counted, stats(3, 1, 1));
}

#[test]
fn reads_as_the_two_patterns_read() {
    let corpora = [
        "",
        "<Typo word=\"bias\" find=\"\\b([bB])iais\\b\" replace=\"$1ias\"/>",
        "<Typo word=\"a\" find=\"b\" replace=\"c\" /><Typo word=\"a\" find=\"b\"/>",
        "<Typo  word=\"a\"\n\tfind=\"b\"\u{3000}replace=\"c\"\u{85}/>",
        "<Typo word=\"a\" find=\"b\" replace=\"c\"\u{200b}/>",
        "<Typo word=\"a\" find=\"b\" replace=\"c\"\u{feff}/>",
        "<Typo word=\"a\" find=\"b\" replace=\"c\"\u{1680}\u{2028}\u{2029}\u{202f}\u{205f}/>",
        "<Typo <Typo word=\"a\" find=\"b\" replace=\"c\"/>",
        "<Typo word=\"a find=\"b\" replace=\"c\"/> <Typo word=\"d\" find=\"e\" replace=\"f\"/>",
        "<Typo word=\"a\" disabled=\"x\" disabled=\"y\"/><Typo disable=\"\"/>",
        "<Typo word=\"a\" find=\"b\" replace=\"c\" word=\"z\"/>",
        "<Typo disabledd=\"\" word=\"a\" find=\"b\" replace=\"c\"/>",
        "<Typo disabl=\"\" word=\"a\" find=\"b\" replace=\"c\"/>",
        "<Typo words=\"\" word=\"a\" find-=\"b\" replace=\"c\"/>",
        "<Typo -=\"\" _=\"\" --__=\"\"/>",
        "<Typo w0rd=\"a\" find=\"b\" replace=\"c\"/>",
        "<Typo word=\"a\" find=\"b\" replace=\"c\"//>",
        "<Typo word=\"a\" find=\"b\" replace=\"c\"/ >",
        "<Typo word=\"a\" find=\"b\" replace=\"c\"",
        "<Typo word=\"",
        "<Typo",
        "<Typ",
        "<",
        "<<<Typo word=\"a\" find=\"<Typo x=\"y\"/>\" replace=\"c\"/>",
        "<Typo word=\"日本語\" find=\"ü+\" replace=\"é\"/>€<Typo find=\"ß\"/>",
        "x<Typo word=\"a\" find=\"b\" replace=\"c\"/>y<Typo word=\"a\" find=\"b\" replace=\"c\"/>z",
        "<Typo word=\"a\"\n find=\"b\nc\" replace=\"c\"/>",
        "<Typo word=\"a\" find=\"b\" replace=\"c\"\n\n\n/>\n",
    ];
    for corpus in corpora {
        assert_eq!(parse_rules_file(corpus), parse_with_patterns(corpus), "{corpus:?}");
    }
}

#[test]
fn reads_a_long_corpus_as_the_two_patterns_read() {
    let mut corpus = String::new();
    for k in 0..500 {
        corpus.push_str(&format!("== section {k} ==\n"));
        match k % 5 {
            0 => corpus.push_str(&format!("<Typo word=\"w{k}\" find=\"f{k}\" replace=\"r{k}\"/>\n")),
            1 => corpus.push_str(&format!("<Typo word=\"w{k}\" find=\"f{k}\" disabled=\"\"/>\n")),
            2 => corpus.push_str(&format!("<Typo word=\"w{k}\" replace=\"r{k}\" />\n")),
            3 => corpus.push_str(&format!("<Typo word=\"w{k}\" find=\"f{k} replace=\"r{k}\"/>\n")),
            _ => corpus.push_str(&format!("<Typo\n  replace=\"r{k}\"\n  find=\"f{k}\"\n  word=\"w{k}\"\n/>")),
        }
    }
    let read = parse_rules_file(&corpus);
    assert_eq!(read, parse_with_patterns(&corpus));
    assert_eq!(read.1, stats(200, 100, 100));
    assert_eq!(read.0[0], rule("w0", "f0", "r0"));
    assert_eq!(read.0[1], rule("w4", "f4", "r4"));
    assert_eq!(read.0[199], rule("w499", "f499", "r499"));
}

#[test]
fn scan_attr_finds_key_and_value() {
    let text = chars("  word=\"abc\" rest");
    let found = scan_attr(&text, 0);
    assert_eq!(
        found,
        Some((AttrSpan { key_start: 2, key_end: 6, value_start: 8, value_end: 11 }, 12))
    );
}

#[test]
fn scan_attr_needs_white_space_key_and_quotes() {
    for text in ["word=\"abc\"", " =\"abc\"", " word\"abc\"", " word=abc\"", " word=\"abc", " word=\"a\nb\"", " word", " ", ""] {
        assert_eq!(scan_attr(&chars(text), 0), None, "{text:?}");
    }
}

#[test]
fn scan_tag_finds_the_attributes_and_the_end() {
    let text = chars("x<Typo word=\"a\" find=\"bc\" />y");
    assert_eq!(scan_tag(&text, 0), None);
    assert_eq!(
        scan_tag(&text, 1),
        Some((
            vec![
                AttrSpan { key_start: 7, key_end: 11, value_start: 13, value_end: 14 },
                AttrSpan { key_start: 16, key_end: 20, value_start: 22, value_end: 24 },
            ],
            28
        ))
    );
    assert_eq!(scan_tag(&text, 2), None);
    assert_eq!(scan_tag(&text, text.len()), None);
}

#[test]
fn key_kind_of_knows_the_five_keys() {
    let text = chars("word find replace disable disabled words wor Word");
    assert_eq!(key_kind_of(&text, 0, 4), KeyKind::Word);
    assert_eq!(key_kind_of(&text, 5, 9), KeyKind::Find);
    assert_eq!(key_kind_of(&text, 10, 17), KeyKind::Replace);
    assert_eq!(key_kind_of(&text, 18, 25), KeyKind::Disable);
    assert_eq!(key_kind_of(&text, 26, 34), KeyKind::Disable);
    assert_eq!(key_kind_of(&text, 35, 40), KeyKind::Other);
    assert_eq!(key_kind_of(&text, 41, 44), KeyKind::Other);
    assert_eq!(key_kind_of(&text, 45, 49), KeyKind::Other);
    assert_eq!(key_kind_of(&text, 3, 3), KeyKind::Other);
}

#[test]
fn classify_tag_tells_the_three_outcomes_apart() {
    let text = chars("<Typo word=\"a\" find=\"b\" replace=\"c\" disabled=\"\"/>");
    let (spans, _) = scan_tag(&text, 0).unwrap();
    assert_eq!(classify_tag(&text, &spans), TagOutcome::Disabled);
    assert_eq!(classify_tag(&text, &spans[..3].to_vec()), TagOutcome::Complete(rule("a", "b", "c")));
    assert_eq!(classify_tag(&text, &spans[..2].to_vec()), TagOutcome::Incomplete);
    assert_eq!(classify_tag(&text, &spans[1..3].to_vec()), TagOutcome::Incomplete);
    assert_eq!(classify_tag(&text, &Vec::new()), TagOutcome::Incomplete);
}
