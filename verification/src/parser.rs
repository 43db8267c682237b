use crate::chars::{skip_run, slice_to_string, to_chars, CharClass};
use crate::grammar::{
    attr_at, attrs_end, attrs_from, classify, corpus_tags, count_disabled, count_incomplete,
    key_kind, last_value, rules_of, tag_at, tags_from, Attr, KeyKind, TagClass,
};
use crate::rules::{views, RawRule};
use vstd::prelude::*;

verus! {

/// Where an attribute stands in the text: its key from `key_start` up to
/// `key_end`, its value from `value_start` up to `value_end`.
#[derive(Clone, Copy, Debug, PartialEq, Eq)]
pub struct AttrSpan {
    pub key_start: usize,
    pub key_end: usize,
    pub value_start: usize,
    pub value_end: usize,
}

impl AttrSpan {
    /// Whether the span lies within `s`, key before value.
    pub open spec fn fits(self, s: Seq<char>) -> bool {
        self.key_start <= self.key_end <= self.value_start <= self.value_end <= s.len()
    }

    /// The attribute that the span cuts out of `s`.
    pub open spec fn attr(self, s: Seq<char>) -> Attr {
        Attr {
            key: s.subrange(self.key_start as int, self.key_end as int),
            value: s.subrange(self.value_start as int, self.value_end as int),
        }
    }
}

/// The attributes that `spans` cut out of `s`.
pub open spec fn span_attrs(spans: Seq<AttrSpan>, s: Seq<char>) -> Seq<Attr> {
    spans.map_values(|span: AttrSpan| span.attr(s))
}

/// Whether every one of `spans` lies within `s`.
pub open spec fn spans_fit(spans: Seq<AttrSpan>, s: Seq<char>) -> bool {
    forall|k: int| 0 <= k < spans.len() ==> (#[trigger] spans[k]).fits(s)
}

/// Reads the attribute that starts at `i` with the white space in front of
/// it, and says where it ends.
pub fn scan_attr(s: &[char], i: usize) -> (r: Option<(AttrSpan, usize)>)
    requires
        i <= s@.len(),
    ensures
        match r {
            Some((span, j)) => {
                &&& span.fits(s@)
                &&& i < j <= s@.len()
                &&& attr_at(s@, i as int) == Some((span.attr(s@), j as int))
            },
            None => attr_at(s@, i as int) is None,
        },
{
    let n = s.len();
    let k0 = skip_run(s, i, CharClass::Space);
    if k0 == i {
        return None;
    }
    let k1 = skip_run(s, k0, CharClass::Key);
    if k1 == k0 || n - k1 < 2 {
        return None;
    }
    if s[k1] != '=' || s[k1 + 1] != '"' {
        return None;
    }
    let v1 = skip_run(s, k1 + 2, CharClass::Value);
    if v1 >= n {
        return None;
    }
    if s[v1] != '"' {
        return None;
    }
    Some((AttrSpan { key_start: k0, key_end: k1, value_start: k1 + 2, value_end: v1 }, v1 + 1))
}

/// Reads the tag that starts at `i`, and says where it ends.
pub fn scan_tag(s: &[char], i: usize) -> (r: Option<(Vec<AttrSpan>, usize)>)
    requires
        i <= s@.len(),
    ensures
        match r {
            Some((spans, j)) => {
                &&& spans_fit(spans@, s@)
                &&& i < j <= s@.len()
                &&& tag_at(s@, i as int) == Some((span_attrs(spans@, s@), j as int))
            },
            None => tag_at(s@, i as int) is None,
        },
{
    let n = s.len();
    if n - i < 5 {
        return None;
    }
    if s[i] != '<' || s[i + 1] != 'T' || s[i + 2] != 'y' || s[i + 3] != 'p' || s[i + 4] != 'o' {
        return None;
    }
    let mut spans: Vec<AttrSpan> = Vec::new();
    let mut p: usize = i + 5;
    loop
        invariant
            i + 5 <= p <= n,
            n == s@.len(),
            spans_fit(spans@, s@),
            attrs_from(s@, i + 5) == span_attrs(spans@, s@) + attrs_from(s@, p as int),
            attrs_end(s@, i + 5) == attrs_end(s@, p as int),
        ensures
            attr_at(s@, p as int) is None,
        decreases n - p,
    {
        match scan_attr(s, p) {
            Some((span, j)) => {
                proof {
                    let before = span_attrs(spans@, s@);
                    let after = span_attrs(spans@.push(span), s@);
                    assert(after =~= before.push(span.attr(s@)));
                    assert(before + (seq![span.attr(s@)] + attrs_from(s@, j as int)) =~= after
                        + attrs_from(s@, j as int));
                }
                spans.push(span);
                p = j;
            },
            None => {
                break ;
            },
        }
    }
    proof {
        assert(span_attrs(spans@, s@) + Seq::<Attr>::empty() =~= span_attrs(spans@, s@));
    }
    if spans.len() == 0 {
        return None;
    }
    let close = skip_run(s, p, CharClass::Space);
    if n - close < 2 {
        return None;
    }
    if s[close] != '/' || s[close + 1] != '>' {
        return None;
    }
    Some((spans, close + 2))
}


/// Whether the characters of `s` from `from` up to `to` spell `word`.
fn spells(s: &[char], from: usize, to: usize, word: &str) -> (b: bool)
    requires
        from <= to <= s@.len(),
    ensures
        b == (s@.subrange(from as int, to as int) =~= word@),
{
    let n = word.unicode_len();
    if to - from != n {
        return false;
    }
    let mut k: usize = 0;
    while k < n
        invariant
            from <= to <= s@.len(),
            to - from == n == word@.len(),
            k <= n,
            forall|j: int| 0 <= j < k ==> s@[from + j] == word@[j],
        decreases n - k,
    {
        if s[from + k] != word.get_char(k) {
            assert(s@.subrange(from as int, to as int)[k as int] != word@[k as int]);
            return false;
        }
        k += 1;
    }
    true
}

/// Tells what the key that stands in `s` from `from` up to `to` means.
pub fn key_kind_of(s: &[char], from: usize, to: usize) -> (kind: KeyKind)
    requires
        from <= to <= s@.len(),
    ensures
        kind == key_kind(s@.subrange(from as int, to as int)),
{
    proof {
        reveal_strlit("word");
        reveal_strlit("find");
        reveal_strlit("replace");
        reveal_strlit("disable");
        reveal_strlit("disabled");
        assert("word"@ =~= seq!['w', 'o', 'r', 'd']);
        assert("find"@ =~= seq!['f', 'i', 'n', 'd']);
        assert("replace"@ =~= seq!['r', 'e', 'p', 'l', 'a', 'c', 'e']);
        assert("disable"@ =~= seq!['d', 'i', 's', 'a', 'b', 'l', 'e']);
        assert("disabled"@ =~= seq!['d', 'i', 's', 'a', 'b', 'l', 'e', 'd']);
    }
    if spells(s, from, to, "word") {
        KeyKind::Word
    } else if spells(s, from, to, "find") {
        KeyKind::Find
    } else if spells(s, from, to, "replace") {
        KeyKind::Replace
    } else if spells(s, from, to, "disable") || spells(s, from, to, "disabled") {
        KeyKind::Disable
    } else {
        KeyKind::Other
    }
}

/// What becomes of a tag, with the rule where it states one.
#[derive(Clone, Debug, PartialEq, Eq)]
pub enum TagOutcome {
    /// It carries a disable marker.
    Disabled,
    /// It carries none, and lacks `word`, `find` or `replace`.
    Incomplete,
    /// It states a rule.
    Complete(RawRule),
}

impl View for TagOutcome {
    type V = TagClass;

    open spec fn view(&self) -> TagClass {
        match self {
            TagOutcome::Disabled => TagClass::Disabled,
            TagOutcome::Incomplete => TagClass::Incomplete,
            TagOutcome::Complete(rule) => TagClass::Complete(rule@),
        }
    }
}

/// Whether `found` is the place in `spans` of the last attribute among the
/// first `k` whose key means `kind`.
spec fn is_last(found: Option<usize>, attrs: Seq<Attr>, k: int, kind: KeyKind) -> bool {
    match found {
        Some(at) => at < k && last_value(attrs.take(k), kind) == Some(attrs[at as int].value),
        None => last_value(attrs.take(k), kind) is None,
    }
}

/// Decides what becomes of the tag whose attributes stand at `spans` in `s`.
pub fn classify_tag(s: &[char], spans: &Vec<AttrSpan>) -> (outcome: TagOutcome)
    requires
        spans_fit(spans@, s@),
    ensures
        outcome@ == classify(span_attrs(spans@, s@)),
{
    let ghost attrs = span_attrs(spans@, s@);
    let mut label: Option<usize> = None;
    let mut pattern: Option<usize> = None;
    let mut replace: Option<usize> = None;
    let mut k: usize = 0;
    while k < spans.len()
        invariant
            k <= spans@.len(),
            spans_fit(spans@, s@),
            attrs == span_attrs(spans@, s@),
            forall|j: int| 0 <= j < k ==> key_kind(#[trigger] attrs[j].key) != KeyKind::Disable,
            is_last(label, attrs, k as int, KeyKind::Word),
            is_last(pattern, attrs, k as int, KeyKind::Find),
            is_last(replace, attrs, k as int, KeyKind::Replace),
        decreases spans@.len() - k,
    {
        let span = spans[k];
        proof {
            assert(attrs.take(k + 1).drop_last() =~= attrs.take(k as int));
            assert(attrs.take(k + 1).last() == attrs[k as int]);
            assert(attrs[k as int] == span.attr(s@));
        }
        match key_kind_of(s, span.key_start, span.key_end) {
            KeyKind::Word => {
                label = Some(k);
            },
            KeyKind::Find => {
                pattern = Some(k);
            },
            KeyKind::Replace => {
                replace = Some(k);
            },
            KeyKind::Disable => {
                return TagOutcome::Disabled;
            },
            KeyKind::Other => {},
        }
        k += 1;
    }
    proof {
        assert(attrs.take(k as int) =~= attrs);
    }
    match (label, pattern, replace) {
        (Some(l), Some(p), Some(r)) => TagOutcome::Complete(
            RawRule {
                label: slice_to_string(s, spans[l].value_start, spans[l].value_end),
                pattern: slice_to_string(s, spans[p].value_start, spans[p].value_end),
                replace: slice_to_string(s, spans[r].value_start, spans[r].value_end),
            },
        ),
        _ => TagOutcome::Incomplete,
    }
}

/// What the parser counted.
#[derive(Clone, Copy, Debug, PartialEq, Eq)]
pub struct ParseStats {
    /// Tags that state a rule.
    pub discovered: usize,
    /// Tags with a disable marker.
    pub disabled: usize,
    /// Tags without a disable marker that lack `word`, `find` or `replace`.
    pub missing: usize,
}

/// Reads the rules of a corpus. Text that is no tag is passed over; a tag
/// with a disable marker or without one of `word`, `find` and `replace` is
/// counted and gives no rule.
pub fn parse_rules_file(text: &str) -> (parsed: (Vec<RawRule>, ParseStats))
    ensures
        views(parsed.0@) == rules_of(corpus_tags(text@)),
        parsed.1.discovered == parsed.0@.len(),
        parsed.1.disabled == count_disabled(corpus_tags(text@)),
        parsed.1.missing == count_incomplete(corpus_tags(text@)),
{
    let chars = to_chars(text);
    let s = chars.as_slice();
    let n = s.len();
    let mut rules: Vec<RawRule> = Vec::new();
    let mut disabled: usize = 0;
    let mut missing: usize = 0;
    let mut i: usize = 0;
    let ghost mut seen: Seq<Seq<Attr>> = Seq::empty();
    while i < n
        invariant
            i <= n == s@.len(),
            s@ == text@,
            corpus_tags(s@) == seen + tags_from(s@, i as int),
            views(rules@) == rules_of(seen),
            disabled == count_disabled(seen),
            missing == count_incomplete(seen),
            rules@.len() + disabled + missing == seen.len() <= i,
        decreases n - i,
    {
        match scan_tag(s, i) {
            Some((spans, j)) => {
                let ghost attrs = span_attrs(spans@, s@);
                proof {
                    assert(seen + (seq![attrs] + tags_from(s@, j as int)) =~= seen.push(attrs)
                        + tags_from(s@, j as int));
                    assert(seen.push(attrs).drop_last() =~= seen);
                }
                match classify_tag(s, &spans) {
                    TagOutcome::Disabled => {
                        disabled += 1;
                    },
                    TagOutcome::Incomplete => {
                        missing += 1;
                    },
                    TagOutcome::Complete(rule) => {
                        proof {
                            assert(views(rules@.push(rule)) =~= views(rules@).push(rule@));
                        }
                        rules.push(rule);
                    },
                }
                proof {
                    seen = seen.push(attrs);
                }
                i = j;
            },
            None => {
                i += 1;
            },
        }
    }
    proof {
        assert(seen + Seq::<Seq<Attr>>::empty() =~= seen);
    }
    let discovered = rules.len();
    (rules, ParseStats { discovered, disabled, missing })
}


} // verus!
