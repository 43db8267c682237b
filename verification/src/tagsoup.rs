use crate::compiler::{
    compile_rules, compiled, dropped, lemma_kept_all, survivors, CompileStats, PatternError,
};
use crate::grammar::{
    classify, corpus_tags, count_disabled, count_incomplete, lemma_all_complete, rules_of,
    TagClass,
};
use crate::matcher::compile_fault;
use crate::parser::{parse_rules_file, ParseStats};
pub use crate::rules::TypoRule;
use crate::rules::{views, RawRuleView, TypoRuleView};
use vstd::prelude::*;

verus! {

/// The rules that a corpus states, as the parser reads them.
pub open spec fn corpus_rules(corpus: Seq<char>) -> Seq<RawRuleView> {
    rules_of(corpus_tags(corpus))
}

/// The rule set of a corpus: the rules it states whose pattern the matcher
/// takes, in the order of the corpus.
pub open spec fn rule_set(corpus: Seq<char>) -> Seq<TypoRuleView> {
    survivors(corpus_rules(corpus))
}

/// Whether the tags of `corpus` all state a rule whose pattern the matcher
/// takes: none is disabled, incomplete or left out by the compiler.
pub open spec fn all_usable(corpus: Seq<char>) -> bool {
    forall|k: int|
        0 <= k < corpus_tags(corpus).len() ==> match classify(#[trigger] corpus_tags(corpus)[k]) {
            TagClass::Complete(raw) => compile_fault(raw.pattern) is None,
            _ => false,
        }
}

/// The rule set keeps the order of the corpus: where no tag is left out, the
/// rule at each place of the rule set is the compiled rule of the tag at the
/// same place of the corpus.
pub proof fn lemma_rule_set_keeps_order(corpus: Seq<char>)
    requires
        all_usable(corpus),
    ensures
        rule_set(corpus).len() == corpus_tags(corpus).len(),
        forall|k: int|
            0 <= k < corpus_tags(corpus).len() ==> match classify(corpus_tags(corpus)[k]) {
                TagClass::Complete(raw) => compiled(raw) == Ok::<TypoRuleView, PatternError>(
                    #[trigger] rule_set(corpus)[k],
                ),
                _ => false,
            },
{
    let tags = corpus_tags(corpus);
    let raws = corpus_rules(corpus);
    lemma_all_complete(tags);
    let outcomes = raws.map_values(|raw: RawRuleView| compiled(raw));
    assert forall|k: int| 0 <= k < outcomes.len() implies (#[trigger] outcomes[k]) is Ok by {
        assert(classify(tags[k]) == TagClass::Complete(raws[k]));
    }
    lemma_kept_all(outcomes);
    assert forall|k: int| 0 <= k < tags.len() implies match classify(tags[k]) {
        TagClass::Complete(raw) => compiled(raw) == Ok::<TypoRuleView, PatternError>(
            #[trigger] rule_set(corpus)[k],
        ),
        _ => false,
    } by {
        assert(classify(tags[k]) == TagClass::Complete(raws[k]));
        assert(outcomes[k] == compiled(raws[k]));
    }
}

/// Reads a corpus and compiles its rules. No tag and no pattern makes the
/// load fail: what cannot be used is left out and counted.
pub fn load_rules(text: &str) -> (loaded: (Vec<TypoRule>, ParseStats, CompileStats))
    ensures
        views(loaded.0@) == rule_set(text@),
        loaded.1.discovered == corpus_rules(text@).len(),
        loaded.1.disabled == count_disabled(corpus_tags(text@)),
        loaded.1.missing == count_incomplete(corpus_tags(text@)),
        loaded.2.unsupported == dropped(corpus_rules(text@), PatternError::Unsupported),
        loaded.2.syntax == dropped(corpus_rules(text@), PatternError::Syntax),
{
    let (raws, parse_stats) = parse_rules_file(text);
    proof {
        assert(views(raws@).len() == raws@.len());
    }
    let (rules, compile_stats) = compile_rules(raws);
    (rules, parse_stats, compile_stats)
}

/// Reads a corpus and compiles its rules, and hands out the rule set alone.
pub fn parse_and_compile(text: &str) -> (rules: Vec<TypoRule>)
    ensures
        views(rules@) == rule_set(text@),
{
    let (rules, _, _) = load_rules(text);
    rules
}

} // verus!
