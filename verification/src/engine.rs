use crate::matcher::{substitution, Substitution, SubstitutionView};
use crate::rules::{views, TypoRule, TypoRuleView};
use vstd::prelude::*;

verus! {

/// What one rule did to the text it was applied to.
#[derive(Clone, Debug, PartialEq, Eq)]
pub struct Step {
    /// The text after the rule.
    pub text: String,
    /// Whether the rule's pattern matched.
    pub matched: bool,
    /// Whether the rule changed the text.
    pub applied: bool,
}

/// What a `Step` holds.
pub struct StepView {
    pub text: Seq<char>,
    pub matched: bool,
    pub applied: bool,
}

impl View for Step {
    type V = StepView;

    open spec fn view(&self) -> StepView {
        StepView { text: self.text@, matched: self.matched, applied: self.applied }
    }
}

/// What a rule did to `text`, given what its substitution pass gave. No
/// match leaves the text alone; so does a match whose replacement gives the
/// same text again, and neither counts as applied. A pass that failed gives
/// no step.
pub open spec fn step_of(text: Seq<char>, pass: SubstitutionView) -> Option<StepView> {
    match pass {
        SubstitutionView::Unmatched => Some(StepView { text, matched: false, applied: false }),
        SubstitutionView::Rewritten(rewritten) => Some(
            StepView { text: rewritten, matched: true, applied: rewritten != text },
        ),
        SubstitutionView::Failed => None,
    }
}

/// Settles what a rule did to `text`, given what its substitution pass gave.
pub fn settle(text: String, pass: Substitution) -> (step: Option<Step>)
    ensures
        match step {
            Some(step) => step_of(text@, pass@) == Some(step@),
            None => step_of(text@, pass@) is None,
        },
{
    match pass {
        Substitution::Unmatched => Some(Step { text, matched: false, applied: false }),
        Substitution::Rewritten(rewritten) => {
            let applied = rewritten != text;
            Some(Step { text: rewritten, matched: true, applied })
        },
        Substitution::Failed => None,
    }
}

/// What one rule did to one text.
#[derive(Clone, Debug, PartialEq, Eq)]
pub struct RuleOutcome {
    /// The rule's label.
    pub label: String,
    /// Whether the rule's pattern matched. A rule that matched and was not
    /// applied had a match that changed nothing.
    pub matched: bool,
    /// Whether the rule changed the text.
    pub applied: bool,
}

/// What a `RuleOutcome` holds.
pub struct RuleOutcomeView {
    pub label: Seq<char>,
    pub matched: bool,
    pub applied: bool,
}

impl View for RuleOutcome {
    type V = RuleOutcomeView;

    open spec fn view(&self) -> RuleOutcomeView {
        RuleOutcomeView { label: self.label@, matched: self.matched, applied: self.applied }
    }
}

/// A text with a rule set applied to it.
#[derive(Clone, Debug, PartialEq, Eq)]
pub struct Applied {
    /// The text after the last rule.
    pub text: String,
    /// What each rule did, in the order of the rule set.
    pub outcomes: Vec<RuleOutcome>,
    /// How many rules changed the text.
    pub applied_count: usize,
}

/// What an `Applied` holds.
pub struct AppliedView {
    pub text: Seq<char>,
    pub outcomes: Seq<RuleOutcomeView>,
    pub applied_count: nat,
}

impl View for Applied {
    type V = AppliedView;

    open spec fn view(&self) -> AppliedView {
        AppliedView {
            text: self.text@,
            outcomes: views(self.outcomes@),
            applied_count: self.applied_count as nat,
        }
    }
}

/// Matching failed while a rule set was applied; nothing of the text is
/// handed out.
#[derive(Clone, Copy, Debug, PartialEq, Eq)]
pub struct ApplyError {
    /// The place in the rule set of the rule whose matching failed.
    pub rule: usize,
}

/// The result of the first `k` rules of `rules` on `text`, each applied to
/// what the one before it left: the text, what each rule did and how many
/// changed the text; or the place of the first rule whose matching failed.
pub open spec fn applied_upto(rules: Seq<TypoRuleView>, text: Seq<char>, k: nat) -> Result<
    AppliedView,
    nat,
>
    decreases k,
{
    if k == 0 {
        Ok(AppliedView { text, outcomes: Seq::empty(), applied_count: 0 })
    } else {
        let rule = rules[k - 1];
        match applied_upto(rules, text, (k - 1) as nat) {
            Ok(before) => match step_of(
                before.text,
                substitution(rule.pattern, before.text, rule.replace),
            ) {
                Some(step) => Ok(
                    AppliedView {
                        text: step.text,
                        outcomes: before.outcomes.push(
                            RuleOutcomeView {
                                label: rule.label,
                                matched: step.matched,
                                applied: step.applied,
                            },
                        ),
                        applied_count: before.applied_count + if step.applied {
                            1nat
                        } else {
                            0nat
                        },
                    },
                ),
                None => Err((k - 1) as nat),
            },
            Err(at) => Err(at),
        }
    }
}

/// How many of `outcomes` say that the rule changed the text.
pub open spec fn count_applied(outcomes: Seq<RuleOutcomeView>) -> nat
    decreases outcomes.len(),
{
    if outcomes.len() == 0 {
        0
    } else {
        count_applied(outcomes.drop_last()) + if outcomes.last().applied {
            1nat
        } else {
            0nat
        }
    }
}

/// Once matching has failed, what follows changes nothing.
pub proof fn lemma_failure_stays(rules: Seq<TypoRuleView>, text: Seq<char>, k: nat, n: nat)
    requires
        k <= n,
        applied_upto(rules, text, k) is Err,
    ensures
        applied_upto(rules, text, n) == applied_upto(rules, text, k),
    decreases n - k,
{
    if k < n {
        lemma_failure_stays(rules, text, k, (n - 1) as nat);
    }
}

/// As long as matching has not failed, each rule so far has its outcome, in
/// the order of the rule set and under its label; a rule that is applied has
/// matched; and the count is of the rules that changed the text.
pub proof fn lemma_outcomes_follow_rules(rules: Seq<TypoRuleView>, text: Seq<char>, k: nat)
    requires
        k <= rules.len(),
        applied_upto(rules, text, k) is Ok,
    ensures
        applied_upto(rules, text, k)->Ok_0.outcomes.len() == k,
        forall|j: int|
            0 <= j < k ==> (#[trigger] applied_upto(rules, text, k)->Ok_0.outcomes[j]).label
                == rules[j].label,
        forall|j: int|
            0 <= j < k && (#[trigger] applied_upto(rules, text, k)->Ok_0.outcomes[j]).applied
                ==> applied_upto(rules, text, k)->Ok_0.outcomes[j].matched,
        applied_upto(rules, text, k)->Ok_0.applied_count == count_applied(
            applied_upto(rules, text, k)->Ok_0.outcomes,
        ),
    decreases k,
{
    if k > 0 {
        lemma_outcomes_follow_rules(rules, text, (k - 1) as nat);
        let before = applied_upto(rules, text, (k - 1) as nat)->Ok_0;
        let after = applied_upto(rules, text, k)->Ok_0;
        assert(after.outcomes.drop_last() =~= before.outcomes);
    } else {
        assert(count_applied(Seq::<RuleOutcomeView>::empty()) == 0);
    }
}

/// What a rule set leaves of a text that none of its patterns matches: the
/// text as it was, each rule with its label as neither matched nor applied,
/// and a count of zero.
pub open spec fn untouched(rules: Seq<TypoRuleView>, text: Seq<char>, k: nat) -> AppliedView {
    AppliedView {
        text,
        outcomes: Seq::new(
            k,
            |j: int| RuleOutcomeView { label: rules[j].label, matched: false, applied: false },
        ),
        applied_count: 0,
    }
}

/// Rules whose patterns match nowhere in the text leave it as it was.
pub proof fn lemma_unmatched_upto(rules: Seq<TypoRuleView>, text: Seq<char>, k: nat)
    requires
        k <= rules.len(),
        forall|j: int|
            0 <= j < k ==> substitution((#[trigger] rules[j]).pattern, text, rules[j].replace)
                is Unmatched,
    ensures
        applied_upto(rules, text, k) == Ok::<AppliedView, nat>(untouched(rules, text, k)),
    decreases k,
{
    if k > 0 {
        lemma_unmatched_upto(rules, text, (k - 1) as nat);
        let rule = rules[k - 1];
        assert(untouched(rules, text, (k - 1) as nat).outcomes.push(
            RuleOutcomeView { label: rule.label, matched: false, applied: false },
        ) =~= untouched(rules, text, k).outcomes);
    } else {
        assert(untouched(rules, text, 0).outcomes =~= Seq::<RuleOutcomeView>::empty());
    }
}

/// Applying a rule set to a text that none of its patterns matches gives the
/// text back unchanged, with every rule neither matched nor applied and a
/// count of zero.
pub proof fn lemma_nothing_matches(rules: Seq<TypoRuleView>, text: Seq<char>)
    requires
        forall|j: int|
            0 <= j < rules.len() ==> substitution(
                (#[trigger] rules[j]).pattern,
                text,
                rules[j].replace,
            ) is Unmatched,
    ensures
        applied(rules, text) == Ok::<AppliedView, nat>(untouched(rules, text, rules.len())),
{
    lemma_unmatched_upto(rules, text, rules.len());
}

/// The second rule works on what the first one left: in a set of two rules,
/// where the second rule's pass over the first rule's output gives another
/// text, the second rule is applied and that text is the result.
pub proof fn lemma_second_rule_sees_first(
    rules: Seq<TypoRuleView>,
    text: Seq<char>,
    first: StepView,
    last: Seq<char>,
)
    requires
        rules.len() == 2,
        step_of(text, substitution(rules[0].pattern, text, rules[0].replace)) == Some(first),
        substitution(rules[1].pattern, first.text, rules[1].replace) == SubstitutionView::Rewritten(
            last,
        ),
        last != first.text,
    ensures
        applied(rules, text) is Ok,
        applied(rules, text)->Ok_0.text == last,
        applied(rules, text)->Ok_0.outcomes.len() == 2,
        applied(rules, text)->Ok_0.outcomes[0].applied == first.applied,
        applied(rules, text)->Ok_0.outcomes[1].matched,
        applied(rules, text)->Ok_0.outcomes[1].applied,
{
    reveal_with_fuel(applied_upto, 3);
}

/// A rule whose pattern matches and whose replacement gives the same text
/// again is reported as matched and not applied, leaves the text as it was
/// and adds nothing to the count.
pub proof fn lemma_match_without_change(
    rules: Seq<TypoRuleView>,
    text: Seq<char>,
    k: nat,
    before: AppliedView,
)
    requires
        k < rules.len(),
        applied_upto(rules, text, k) == Ok::<AppliedView, nat>(before),
        substitution(rules[k as int].pattern, before.text, rules[k as int].replace)
            == SubstitutionView::Rewritten(before.text),
    ensures
        applied_upto(rules, text, k + 1) == Ok::<AppliedView, nat>(
            AppliedView {
                text: before.text,
                outcomes: before.outcomes.push(
                    RuleOutcomeView { label: rules[k as int].label, matched: true, applied: false },
                ),
                applied_count: before.applied_count,
            },
        ),
{
}

/// What `apply` gives is a function of the rule set and the text. So one rule
/// set applied to the same texts twice, by whatever workers and in whatever
/// order, gives the same result for each text both times.
pub proof fn lemma_results_agree(
    rules: Seq<TypoRuleView>,
    texts: Seq<Seq<char>>,
    one: Seq<Result<Applied, ApplyError>>,
    other: Seq<Result<Applied, ApplyError>>,
)
    requires
        one.len() == texts.len(),
        other.len() == texts.len(),
        forall|k: int|
            0 <= k < texts.len() ==> result_view(#[trigger] one[k]) == applied(rules, texts[k]),
        forall|k: int|
            0 <= k < texts.len() ==> result_view(#[trigger] other[k]) == applied(rules, texts[k]),
    ensures
        forall|k: int| 0 <= k < texts.len() ==> result_view(one[k]) == result_view(other[k]),
{
}

/// The result of the whole rule set on `text`.
pub open spec fn applied(rules: Seq<TypoRuleView>, text: Seq<char>) -> Result<AppliedView, nat> {
    applied_upto(rules, text, rules.len())
}

/// What a result of `apply` holds.
pub open spec fn result_view(result: Result<Applied, ApplyError>) -> Result<AppliedView, nat> {
    match result {
        Ok(done) => Ok(done@),
        Err(error) => Err(error.rule as nat),
    }
}

/// Applies the rules to `text` one after the other, in the order of the rule
/// set: each rule works on what the one before it left. A rule replaces every
/// match of its pattern, leftmost first and none overlapping another. Where
/// matching fails the call fails as a whole.
pub fn apply(rules: &[TypoRule], text: &str) -> (result: Result<Applied, ApplyError>)
    ensures
        result_view(result) == applied(views(rules@), text@),
{
    let ghost model = views(rules@);
    let mut current: String = text.to_owned();
    let mut outcomes: Vec<RuleOutcome> = Vec::new();
    let mut applied_count: usize = 0;
    let mut k: usize = 0;
    proof {
        assert(views(outcomes@) =~= Seq::<RuleOutcomeView>::empty());
    }
    while k < rules.len()
        invariant
            k <= rules@.len(),
            model == views(rules@),
            applied_count <= k,
            applied_upto(model, text@, k as nat) == Ok::<AppliedView, nat>(
                AppliedView {
                    text: current@,
                    outcomes: views(outcomes@),
                    applied_count: applied_count as nat,
                },
            ),
        decreases rules@.len() - k,
    {
        let rule = &rules[k];
        let pass = rule.regex.substitute(current.as_str(), rule.replace.as_str());
        match settle(current, pass) {
            Some(step) => {
                let outcome = RuleOutcome {
                    label: rule.label.clone(),
                    matched: step.matched,
                    applied: step.applied,
                };
                proof {
                    assert(views(outcomes@.push(outcome)) =~= views(outcomes@).push(outcome@));
                }
                outcomes.push(outcome);
                if step.applied {
                    applied_count += 1;
                }
                current = step.text;
            },
            None => {
                proof {
                    lemma_failure_stays(model, text@, (k + 1) as nat, model.len());
                }
                return Err(ApplyError { rule: k });
            },
        }
        k += 1;
    }
    Ok(Applied { text: current, outcomes, applied_count })
}

} // verus!
