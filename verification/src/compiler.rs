use crate::matcher::{compile_fault, Matcher, PatternFault};
use crate::rules::{views, RawRule, RawRuleView, TypoRule, TypoRuleView};
use crate::template::{braced, convert_replace_string};
use rayon::iter::{IntoParallelIterator, ParallelIterator};
use vstd::prelude::*;

verus! {

/// Why a rule was left out of the rule set.
#[derive(Clone, Copy, Debug, PartialEq, Eq)]
pub enum PatternError {
    /// The pattern asks for something the matcher cannot run: a look-behind
    /// whose width is not fixed.
    Unsupported,
    /// The pattern is wrong in any other way.
    Syntax,
}

/// The one of the two kinds that a fault of the matcher falls under.
pub open spec fn fault_class(fault: PatternFault) -> PatternError {
    match fault {
        PatternFault::LookBehindNotConst => PatternError::Unsupported,
        PatternFault::VariableLookBehind => PatternError::Unsupported,
        _ => PatternError::Syntax,
    }
}

/// Puts a fault of the matcher under one of the two kinds.
pub fn classify_fault(fault: PatternFault) -> (kind: PatternError)
    ensures
        kind == fault_class(fault),
{
    match fault {
        PatternFault::LookBehindNotConst => PatternError::Unsupported,
        PatternFault::VariableLookBehind => PatternError::Unsupported,
        _ => PatternError::Syntax,
    }
}

/// What compiling one rule gives.
pub type Compiled = Result<TypoRule, PatternError>;

/// What a `Compiled` holds.
pub open spec fn compiled_view(outcome: Compiled) -> Result<TypoRuleView, PatternError> {
    match outcome {
        Ok(rule) => Ok(rule@),
        Err(kind) => Err(kind),
    }
}

/// What each of `outcomes` holds, in order.
pub open spec fn compiled_views(outcomes: Seq<Compiled>) -> Seq<Result<TypoRuleView, PatternError>> {
    outcomes.map_values(|outcome: Compiled| compiled_view(outcome))
}

/// What compiling `raw` gives: where the matcher takes the pattern, the rule
/// with its replacement's references in braces; else the kind of the fault.
pub open spec fn compiled(raw: RawRuleView) -> Result<TypoRuleView, PatternError> {
    match compile_fault(raw.pattern) {
        None => Ok(
            TypoRuleView { label: raw.label, pattern: raw.pattern, replace: braced(raw.replace) },
        ),
        Some(fault) => Err(fault_class(fault)),
    }
}

/// Makes the rule of `raw` and of what the matcher made of its pattern: the
/// whole rule or none of it.
pub fn assemble(raw: RawRule, made: Result<Matcher, PatternFault>) -> (outcome: Compiled)
    ensures
        match made {
            Ok(matcher) => compiled_view(outcome) == Ok::<TypoRuleView, PatternError>(
                TypoRuleView { label: raw.label@, pattern: matcher@, replace: braced(raw.replace@) },
            ),
            Err(fault) => compiled_view(outcome) == Err::<TypoRuleView, PatternError>(
                fault_class(fault),
            ),
        },
{
    match made {
        Ok(matcher) => Ok(
            TypoRule {
                label: raw.label,
                regex: matcher,
                replace: convert_replace_string(raw.replace),
            },
        ),
        Err(fault) => Err(classify_fault(fault)),
    }
}

/// Compiles one rule.
pub fn compile_rule(raw: RawRule) -> (outcome: Compiled)
    ensures
        compiled_view(outcome) == compiled(raw@),
{
    let made = Matcher::compile(raw.pattern.as_str());
    assemble(raw, made)
}

/// The rules among `outcomes`, in the order of `outcomes`.
pub open spec fn kept(outcomes: Seq<Result<TypoRuleView, PatternError>>) -> Seq<TypoRuleView>
    decreases outcomes.len(),
{
    if outcomes.len() == 0 {
        Seq::empty()
    } else {
        match outcomes.last() {
            Ok(rule) => kept(outcomes.drop_last()).push(rule),
            Err(_) => kept(outcomes.drop_last()),
        }
    }
}

/// How many of `outcomes` are the error `kind`.
pub open spec fn rejected(
    outcomes: Seq<Result<TypoRuleView, PatternError>>,
    kind: PatternError,
) -> nat
    decreases outcomes.len(),
{
    if outcomes.len() == 0 {
        0
    } else {
        rejected(outcomes.drop_last(), kind) + if outcomes.last() == Err::<
            TypoRuleView,
            PatternError,
        >(kind) {
            1nat
        } else {
            0nat
        }
    }
}

/// Keeping goes item by item: what is kept of two runs of outcomes put
/// together is what is kept of the first followed by what is kept of the
/// second. So no rule ever overtakes another.
pub proof fn lemma_kept_concat(
    front: Seq<Result<TypoRuleView, PatternError>>,
    back: Seq<Result<TypoRuleView, PatternError>>,
)
    ensures
        kept(front + back) == kept(front) + kept(back),
    decreases back.len(),
{
    if back.len() == 0 {
        assert(front + back =~= front);
        assert(kept(front) + kept(back) =~= kept(front));
    } else {
        lemma_kept_concat(front, back.drop_last());
        assert((front + back).drop_last() =~= front + back.drop_last());
        assert((front + back).last() == back.last());
        match back.last() {
            Ok(rule) => {
                assert((kept(front) + kept(back.drop_last())).push(rule) =~= kept(front) + kept(
                    back.drop_last(),
                ).push(rule));
            },
            Err(_) => {},
        }
    }
}

/// Every outcome is counted once: as a rule that is kept, or under one of the
/// two kinds of error.
pub proof fn lemma_every_outcome_counted(outcomes: Seq<Result<TypoRuleView, PatternError>>)
    ensures
        kept(outcomes).len() + rejected(outcomes, PatternError::Unsupported) + rejected(
            outcomes,
            PatternError::Syntax,
        ) == outcomes.len(),
    decreases outcomes.len(),
{
    if outcomes.len() > 0 {
        lemma_every_outcome_counted(outcomes.drop_last());
        match outcomes.last() {
            Ok(_) => {},
            Err(PatternError::Unsupported) => {},
            Err(PatternError::Syntax) => {},
        }
    }
}

/// Where every outcome is a rule, all of them are kept, each at its place.
pub proof fn lemma_kept_all(outcomes: Seq<Result<TypoRuleView, PatternError>>)
    requires
        forall|k: int| 0 <= k < outcomes.len() ==> (#[trigger] outcomes[k]) is Ok,
    ensures
        kept(outcomes).len() == outcomes.len(),
        forall|k: int| 0 <= k < outcomes.len() ==> outcomes[k] == Ok::<TypoRuleView, PatternError>(
            #[trigger] kept(outcomes)[k],
        ),
    decreases outcomes.len(),
{
    if outcomes.len() > 0 {
        lemma_kept_all(outcomes.drop_last());
    }
}

/// What the compiler counted.
#[derive(Clone, Copy, Debug, PartialEq, Eq)]
pub struct CompileStats {
    /// Rules left out because their pattern is `PatternError::Unsupported`.
    pub unsupported: usize,
    /// Rules left out because their pattern is `PatternError::Syntax`.
    pub syntax: usize,
}

/// Parts what compiling each rule gave into the rules, in their order, and
/// the count of each kind of error.
pub fn collect_compiled(outcomes: Vec<Compiled>) -> (collected: (Vec<TypoRule>, CompileStats))
    ensures
        views(collected.0@) == kept(compiled_views(outcomes@)),
        collected.1.unsupported == rejected(compiled_views(outcomes@), PatternError::Unsupported),
        collected.1.syntax == rejected(compiled_views(outcomes@), PatternError::Syntax),
{
    let ghost all = compiled_views(outcomes@);
    let mut rules: Vec<TypoRule> = Vec::new();
    let mut unsupported: usize = 0;
    let mut syntax: usize = 0;
    let total = outcomes.len();
    for outcome in it: outcomes
        invariant
            it.seq() == outcomes@,
            total == outcomes@.len(),
            all == compiled_views(outcomes@),
            views(rules@) == kept(all.take(it.index() as int)),
            unsupported == rejected(all.take(it.index() as int), PatternError::Unsupported),
            syntax == rejected(all.take(it.index() as int), PatternError::Syntax),
            rules@.len() + unsupported + syntax == it.index() <= outcomes@.len(),
    {
        proof {
            let k = it.index() as int;
            assert(all.take(k + 1).drop_last() =~= all.take(k));
            assert(all.take(k + 1).last() == compiled_view(outcome));
        }
        match outcome {
            Ok(rule) => {
                proof {
                    assert(views(rules@.push(rule)) =~= views(rules@).push(rule@));
                }
                rules.push(rule);
            },
            Err(PatternError::Unsupported) => {
                unsupported += 1;
            },
            Err(PatternError::Syntax) => {
                syntax += 1;
            },
        }
    }
    proof {
        assert(all.take(all.len() as int) =~= all);
    }
    (rules, CompileStats { unsupported, syntax })
}

/// The rules of `raws` whose pattern the matcher takes, in the order of
/// `raws`.
pub open spec fn survivors(raws: Seq<RawRuleView>) -> Seq<TypoRuleView> {
    kept(raws.map_values(|raw: RawRuleView| compiled(raw)))
}

/// How many of `raws` are left out for the reason `kind`.
pub open spec fn dropped(raws: Seq<RawRuleView>, kind: PatternError) -> nat {
    rejected(raws.map_values(|raw: RawRuleView| compiled(raw)), kind)
}

/// Hands the rules to `rayon`'s workers, one call of `compile_rule` for each:
/// `into_par_iter` on the vector, `map`, and `collect` into a vector. On an
/// indexed iterator such as this one `collect` keeps the order of the items,
/// so the contract claims of each place what `compile_rule` ensures.
#[verifier::external_body]
fn compile_each(rules: Vec<RawRule>) -> (outcomes: Vec<Compiled>)
    ensures
        outcomes@.len() == rules@.len(),
        forall|k: int|
            0 <= k < rules@.len() ==> compiled_view(#[trigger] outcomes@[k]) == compiled(
                rules@[k]@,
            ),
{
    rules.into_par_iter().map(compile_rule).collect()
}

/// Compiles the rules, each on its own, and keeps those whose pattern the
/// matcher takes, in the order they came in. The others are counted by the
/// kind of their fault.
pub fn compile_rules(rules: Vec<RawRule>) -> (result: (Vec<TypoRule>, CompileStats))
    ensures
        views(result.0@) == survivors(views(rules@)),
        result.1.unsupported == dropped(views(rules@), PatternError::Unsupported),
        result.1.syntax == dropped(views(rules@), PatternError::Syntax),
{
    let ghost raws = views(rules@);
    let outcomes = compile_each(rules);
    proof {
        assert(compiled_views(outcomes@) =~= raws.map_values(|raw: RawRuleView| compiled(raw)));
    }
    collect_compiled(outcomes)
}

} // verus!
