use crate::matcher::Matcher;
use vstd::prelude::*;

verus! {

/// A rule as the corpus states it: nothing has been compiled yet.
#[derive(Clone, Debug, PartialEq, Eq)]
pub struct RawRule {
    /// The value of `word`.
    pub label: String,
    /// The value of `find`, in the corpus's pattern syntax.
    pub pattern: String,
    /// The value of `replace`, with the corpus's `$1` references.
    pub replace: String,
}

/// What a `RawRule` holds, as sequences of characters.
pub struct RawRuleView {
    pub label: Seq<char>,
    pub pattern: Seq<char>,
    pub replace: Seq<char>,
}

impl View for RawRule {
    type V = RawRuleView;

    open spec fn view(&self) -> RawRuleView {
        RawRuleView { label: self.label@, pattern: self.pattern@, replace: self.replace@ }
    }
}

/// A rule that is ready to be applied: its pattern compiled, its replacement
/// in the matcher's own reference syntax.
#[derive(Debug)]
pub struct TypoRule {
    /// The name the rule goes by in reports.
    pub label: String,
    /// The compiled pattern.
    pub regex: Matcher,
    /// The replacement template, every numbered reference in braces.
    pub replace: String,
}

/// What a `TypoRule` holds, the matcher by the pattern it was compiled from.
pub struct TypoRuleView {
    pub label: Seq<char>,
    pub pattern: Seq<char>,
    pub replace: Seq<char>,
}

impl View for TypoRule {
    type V = TypoRuleView;

    open spec fn view(&self) -> TypoRuleView {
        TypoRuleView { label: self.label@, pattern: self.regex@, replace: self.replace@ }
    }
}

/// The views of the items of `items`, in order.
pub open spec fn views<T: View>(items: Seq<T>) -> Seq<T::V> {
    items.map_values(|item: T| item@)
}

} // verus!
