use crate::chars::{
    is_key_char, is_space, is_value_char, lemma_run_end, lemma_run_end_is, run_end, CharClass,
};
use crate::rules::RawRuleView;
use vstd::prelude::*;

verus! {

/// One `key="value"` pair of a tag.
pub struct Attr {
    pub key: Seq<char>,
    pub value: Seq<char>,
}

/// The attribute that starts at `i` with the white space in front of it:
/// white space, a key, `="`, a value and `"`. Gives the attribute and the
/// position behind its closing quote.
pub open spec fn attr_at(s: Seq<char>, i: int) -> Option<(Attr, int)> {
    let k0 = run_end(s, i, CharClass::Space);
    let k1 = run_end(s, k0, CharClass::Key);
    let v1 = run_end(s, k1 + 2, CharClass::Value);
    if 0 <= i < k0 < k1 && k1 + 2 <= s.len() && s[k1] == '=' && s[k1 + 1] == '"' && v1 < s.len()
        && s[v1] == '"' {
        Some((Attr { key: s.subrange(k0, k1), value: s.subrange(k1 + 2, v1) }, v1 + 1))
    } else {
        None
    }
}

/// The attributes that follow one another from `i` on, as many as there are.
pub open spec fn attrs_from(s: Seq<char>, i: int) -> Seq<Attr>
    decreases s.len() - i,
{
    match attr_at(s, i) {
        Some((attr, j)) => if i < j <= s.len() {
            seq![attr] + attrs_from(s, j)
        } else {
            Seq::empty()
        },
        None => Seq::empty(),
    }
}

/// The position behind the last of the attributes that follow one another
/// from `i` on.
pub open spec fn attrs_end(s: Seq<char>, i: int) -> int
    decreases s.len() - i,
{
    match attr_at(s, i) {
        Some((attr, j)) => if i < j <= s.len() {
            attrs_end(s, j)
        } else {
            i
        },
        None => i,
    }
}

/// Whether the opening marker `<Typo` stands at `i`.
pub open spec fn opens_tag(s: Seq<char>, i: int) -> bool {
    &&& 0 <= i
    &&& i + 5 <= s.len()
    &&& s[i] == '<'
    &&& s[i + 1] == 'T'
    &&& s[i + 2] == 'y'
    &&& s[i + 3] == 'p'
    &&& s[i + 4] == 'o'
}

/// The tag that starts at `i`: the opening marker, one or more attributes,
/// optional white space and the closing marker `/>`. Gives the attributes in
/// the order of appearance and the position behind the tag.
pub open spec fn tag_at(s: Seq<char>, i: int) -> Option<(Seq<Attr>, int)> {
    let attrs = attrs_from(s, i + 5);
    let close = run_end(s, attrs_end(s, i + 5), CharClass::Space);
    if opens_tag(s, i) && attrs.len() > 0 && close + 2 <= s.len() && s[close] == '/' && s[close
        + 1] == '>' {
        Some((attrs, close + 2))
    } else {
        None
    }
}

/// The tags of `s` from `i` on, leftmost first and none overlapping another:
/// each by its attributes.
pub open spec fn tags_from(s: Seq<char>, i: int) -> Seq<Seq<Attr>>
    decreases s.len() - i,
{
    if i < 0 || i >= s.len() {
        Seq::empty()
    } else {
        match tag_at(s, i) {
            Some((attrs, j)) => if i < j <= s.len() {
                seq![attrs] + tags_from(s, j)
            } else {
                tags_from(s, i + 1)
            },
            None => tags_from(s, i + 1),
        }
    }
}

/// The tags of a corpus.
pub open spec fn corpus_tags(s: Seq<char>) -> Seq<Seq<Attr>> {
    tags_from(s, 0)
}

/// What an attribute key means to the parser.
#[derive(Clone, Copy, Debug, PartialEq, Eq)]
pub enum KeyKind {
    /// `word`: the rule's label.
    Word,
    /// `find`: the rule's pattern.
    Find,
    /// `replace`: the rule's replacement.
    Replace,
    /// `disable` or `disabled`: the rule is switched off.
    Disable,
    /// Any other key: ignored.
    Other,
}

/// The meaning of the key `key`.
pub open spec fn key_kind(key: Seq<char>) -> KeyKind {
    if key =~= seq!['w', 'o', 'r', 'd'] {
        KeyKind::Word
    } else if key =~= seq!['f', 'i', 'n', 'd'] {
        KeyKind::Find
    } else if key =~= seq!['r', 'e', 'p', 'l', 'a', 'c', 'e'] {
        KeyKind::Replace
    } else if key =~= seq!['d', 'i', 's', 'a', 'b', 'l', 'e'] || key =~= seq![
        'd',
        'i',
        's',
        'a',
        'b',
        'l',
        'e',
        'd',
    ] {
        KeyKind::Disable
    } else {
        KeyKind::Other
    }
}

/// The value of the last attribute of `attrs` whose key means `kind`.
pub open spec fn last_value(attrs: Seq<Attr>, kind: KeyKind) -> Option<Seq<char>>
    decreases attrs.len(),
{
    if attrs.len() == 0 {
        None
    } else if key_kind(attrs.last().key) == kind {
        Some(attrs.last().value)
    } else {
        last_value(attrs.drop_last(), kind)
    }
}

/// Whether one of `attrs` is a disable marker.
pub open spec fn has_disable(attrs: Seq<Attr>) -> bool {
    exists|k: int| 0 <= k < attrs.len() && key_kind(#[trigger] attrs[k].key) == KeyKind::Disable
}

/// What becomes of a tag.
pub enum TagClass {
    /// It carries a disable marker.
    Disabled,
    /// It carries none, and lacks `word`, `find` or `replace`.
    Incomplete,
    /// It states a rule.
    Complete(RawRuleView),
}

/// What becomes of the tag with the attributes `attrs`. A disable marker
/// decides before anything else; of a key that occurs twice the last value
/// counts.
pub open spec fn classify(attrs: Seq<Attr>) -> TagClass {
    if has_disable(attrs) {
        TagClass::Disabled
    } else {
        match (
            last_value(attrs, KeyKind::Word),
            last_value(attrs, KeyKind::Find),
            last_value(attrs, KeyKind::Replace),
        ) {
            (Some(label), Some(pattern), Some(replace)) => TagClass::Complete(
                RawRuleView { label, pattern, replace },
            ),
            _ => TagClass::Incomplete,
        }
    }
}

/// The rules that `tags` state, in the order of the tags.
pub open spec fn rules_of(tags: Seq<Seq<Attr>>) -> Seq<RawRuleView>
    decreases tags.len(),
{
    if tags.len() == 0 {
        Seq::empty()
    } else {
        match classify(tags.last()) {
            TagClass::Complete(rule) => rules_of(tags.drop_last()).push(rule),
            _ => rules_of(tags.drop_last()),
        }
    }
}

/// How many of `tags` carry a disable marker.
pub open spec fn count_disabled(tags: Seq<Seq<Attr>>) -> nat
    decreases tags.len(),
{
    if tags.len() == 0 {
        0
    } else {
        count_disabled(tags.drop_last()) + if classify(tags.last()) is Disabled {
            1nat
        } else {
            0nat
        }
    }
}

/// How many of `tags` lack a required attribute.
pub open spec fn count_incomplete(tags: Seq<Seq<Attr>>) -> nat
    decreases tags.len(),
{
    if tags.len() == 0 {
        0
    } else {
        count_incomplete(tags.drop_last()) + if classify(tags.last()) is Incomplete {
            1nat
        } else {
            0nat
        }
    }
}

/// The rules of a tag followed by `rest` are the tag's rule, where it states
/// one, followed by the rules of `rest`; the counters take the tag up in the
/// same way.
pub proof fn lemma_first_tag(attrs: Seq<Attr>, rest: Seq<Seq<Attr>>)
    ensures
        rules_of(seq![attrs] + rest) == match classify(attrs) {
            TagClass::Complete(rule) => seq![rule] + rules_of(rest),
            _ => rules_of(rest),
        },
        count_disabled(seq![attrs] + rest) == count_disabled(rest) + if classify(attrs)
            is Disabled {
            1nat
        } else {
            0nat
        },
        count_incomplete(seq![attrs] + rest) == count_incomplete(rest) + if classify(attrs)
            is Incomplete {
            1nat
        } else {
            0nat
        },
    decreases rest.len(),
{
    let all = seq![attrs] + rest;
    let none = Seq::<Seq<Attr>>::empty();
    assert(rules_of(none) =~= Seq::<RawRuleView>::empty());
    assert(count_disabled(none) == 0);
    assert(count_incomplete(none) == 0);
    if rest.len() == 0 {
        assert(rest =~= none);
        assert(all.drop_last() =~= none);
        assert(all.last() == attrs);
        match classify(attrs) {
            TagClass::Complete(rule) => {
                assert(rules_of(all) == rules_of(none).push(rule));
                assert(rules_of(none).push(rule) =~= seq![rule] + rules_of(rest));
            },
            _ => {},
        }
    } else {
        lemma_first_tag(attrs, rest.drop_last());
        assert(all.drop_last() =~= seq![attrs] + rest.drop_last());
        assert(all.last() == rest.last());
        let front = rules_of(rest.drop_last());
        match classify(rest.last()) {
            TagClass::Complete(last) => {
                assert(rules_of(rest) == front.push(last));
                assert(rules_of(all) == rules_of(all.drop_last()).push(last));
                match classify(attrs) {
                    TagClass::Complete(rule) => {
                        assert((seq![rule] + front).push(last) =~= seq![rule] + front.push(last));
                    },
                    _ => {},
                }
            },
            _ => {
                assert(rules_of(rest) == front);
                assert(rules_of(all) == rules_of(all.drop_last()));
            },
        }
    }
}

/// A tag that states a rule gives exactly that rule, with the values of
/// `word`, `find` and `replace` as they stand in the text, and adds to no
/// counter. This holds of a tag wherever the parser comes upon it: what
/// follows the tag is read from the position behind it.
pub proof fn lemma_complete_tag(s: Seq<char>, i: int, attrs: Seq<Attr>, end: int, rule: RawRuleView)
    requires
        tag_at(s, i) == Some((attrs, end)),
        !has_disable(attrs),
        last_value(attrs, KeyKind::Word) == Some(rule.label),
        last_value(attrs, KeyKind::Find) == Some(rule.pattern),
        last_value(attrs, KeyKind::Replace) == Some(rule.replace),
    ensures
        rules_of(tags_from(s, i)) == seq![rule] + rules_of(tags_from(s, end)),
        count_disabled(tags_from(s, i)) == count_disabled(tags_from(s, end)),
        count_incomplete(tags_from(s, i)) == count_incomplete(tags_from(s, end)),
{
    lemma_tag_end(s, i);
    lemma_first_tag(attrs, tags_from(s, end));
}

/// A tag with a disable marker, whatever the marker's value and whatever
/// else the tag holds, gives no rule and adds one to the count of disabled
/// tags and to no other.
pub proof fn lemma_disabled_tag(s: Seq<char>, i: int, attrs: Seq<Attr>, end: int)
    requires
        tag_at(s, i) == Some((attrs, end)),
        has_disable(attrs),
    ensures
        rules_of(tags_from(s, i)) == rules_of(tags_from(s, end)),
        count_disabled(tags_from(s, i)) == count_disabled(tags_from(s, end)) + 1,
        count_incomplete(tags_from(s, i)) == count_incomplete(tags_from(s, end)),
{
    lemma_tag_end(s, i);
    lemma_first_tag(attrs, tags_from(s, end));
}

/// A tag without a disable marker that lacks `word`, `find` or `replace`,
/// whichever it is, gives no rule and adds one to the count of incomplete
/// tags and to no other.
pub proof fn lemma_incomplete_tag(s: Seq<char>, i: int, attrs: Seq<Attr>, end: int)
    requires
        tag_at(s, i) == Some((attrs, end)),
        !has_disable(attrs),
        last_value(attrs, KeyKind::Word) is None || last_value(attrs, KeyKind::Find) is None
            || last_value(attrs, KeyKind::Replace) is None,
    ensures
        rules_of(tags_from(s, i)) == rules_of(tags_from(s, end)),
        count_disabled(tags_from(s, i)) == count_disabled(tags_from(s, end)),
        count_incomplete(tags_from(s, i)) == count_incomplete(tags_from(s, end)) + 1,
{
    lemma_tag_end(s, i);
    lemma_first_tag(attrs, tags_from(s, end));
}

/// Where every tag states a rule, each tag gives its rule at its own place.
pub proof fn lemma_all_complete(tags: Seq<Seq<Attr>>)
    requires
        forall|k: int| 0 <= k < tags.len() ==> classify(#[trigger] tags[k]) is Complete,
    ensures
        rules_of(tags).len() == tags.len(),
        forall|k: int|
            0 <= k < tags.len() ==> classify(tags[k]) == TagClass::Complete(
                #[trigger] rules_of(tags)[k],
            ),
    decreases tags.len(),
{
    if tags.len() > 0 {
        lemma_all_complete(tags.drop_last());
    }
}

/// Every tag is counted once: as a rule, as disabled or as incomplete.
pub proof fn lemma_every_tag_counted(tags: Seq<Seq<Attr>>)
    ensures
        rules_of(tags).len() + count_disabled(tags) + count_incomplete(tags) == tags.len(),
    decreases tags.len(),
{
    if tags.len() > 0 {
        lemma_every_tag_counted(tags.drop_last());
    }
}

/// The attributes that follow one another from `i` on end within the text,
/// behind `i` where there is one.
pub proof fn lemma_attrs_end(s: Seq<char>, i: int)
    requires
        0 <= i <= s.len(),
    ensures
        i <= attrs_end(s, i) <= s.len(),
        attrs_from(s, i).len() > 0 ==> i < attrs_end(s, i),
    decreases s.len() - i,
{
    match attr_at(s, i) {
        Some((attr, j)) => {
            if i < j <= s.len() {
                lemma_attrs_end(s, j);
            }
        },
        None => {},
    }
}

/// A tag ends within the text and behind the place where it starts.
pub proof fn lemma_tag_end(s: Seq<char>, i: int)
    requires
        tag_at(s, i) is Some,
    ensures
        tag_at(s, i) matches Some(found) && i < found.1 <= s.len(),
{
    lemma_attrs_end(s, i + 5);
    lemma_run_end(s, attrs_end(s, i + 5), CharClass::Space);
}

/// White space, a key, `="`, a value and `"`, laid out in `s` from `i` on,
/// are an attribute: the one with that key and that value.
pub proof fn lemma_attr_laid_out(s: Seq<char>, i: int, k0: int, k1: int, v1: int)
    requires
        0 <= i < k0 < k1,
        k1 + 2 <= v1 < s.len(),
        forall|k: int| i <= k < k0 ==> is_space(#[trigger] s[k]),
        forall|k: int| k0 <= k < k1 ==> is_key_char(#[trigger] s[k]),
        s[k1] == '=',
        s[k1 + 1] == '"',
        forall|k: int| k1 + 2 <= k < v1 ==> is_value_char(#[trigger] s[k]),
        s[v1] == '"',
    ensures
        attr_at(s, i) == Some(
            (Attr { key: s.subrange(k0, k1), value: s.subrange(k1 + 2, v1) }, v1 + 1),
        ),
{
    assert(is_key_char(s[k0]));
    lemma_run_end_is(s, i, k0, CharClass::Space);
    lemma_run_end_is(s, k0, k1, CharClass::Key);
    lemma_run_end_is(s, k1 + 2, v1, CharClass::Value);
}

/// Whether `value` can be written as an attribute's value: it holds neither
/// a double quote nor a line feed.
pub open spec fn is_value(value: Seq<char>) -> bool {
    forall|k: int| 0 <= k < value.len() ==> is_value_char(#[trigger] value[k])
}

/// Whether `gap` is white space throughout.
pub open spec fn is_gap(gap: Seq<char>) -> bool {
    forall|k: int| 0 <= k < gap.len() ==> is_space(#[trigger] gap[k])
}

/// The tag of a rule as it is written: `word`, `find` and `replace` in this
/// order, a single space in front of each, and `gap` in front of the closing
/// marker.
pub open spec fn tag_text(
    label: Seq<char>,
    pattern: Seq<char>,
    replace: Seq<char>,
    gap: Seq<char>,
) -> Seq<char> {
    seq!['<', 'T', 'y', 'p', 'o', ' ', 'w', 'o', 'r', 'd', '=', '"'] + label + seq![
        '"',
        ' ',
        'f',
        'i',
        'n',
        'd',
        '=',
        '"',
    ] + pattern + seq!['"', ' ', 'r', 'e', 'p', 'l', 'a', 'c', 'e', '=', '"'] + replace + seq![
        '"',
    ] + gap + seq!['/', '>']
}

/// The attributes of a written tag.
pub open spec fn tag_attrs(label: Seq<char>, pattern: Seq<char>, replace: Seq<char>) -> Seq<Attr> {
    seq![
        Attr { key: seq!['w', 'o', 'r', 'd'], value: label },
        Attr { key: seq!['f', 'i', 'n', 'd'], value: pattern },
        Attr { key: seq!['r', 'e', 'p', 'l', 'a', 'c', 'e'], value: replace },
    ]
}

/// Whether `s` is made of the pieces of a written tag, one behind the other.
spec fn laid_out(
    s: Seq<char>,
    label: Seq<char>,
    pattern: Seq<char>,
    replace: Seq<char>,
    gap: Seq<char>,
) -> bool {
    let a1: int = 12 + label.len() as int;
    let b1: int = a1 + 8 + pattern.len() as int;
    let c1: int = b1 + 11 + replace.len() as int;
    let close: int = c1 + 1 + gap.len() as int;
    &&& s.len() == close + 2
    &&& s.subrange(0, 12) == seq!['<', 'T', 'y', 'p', 'o', ' ', 'w', 'o', 'r', 'd', '=', '"']
    &&& s.subrange(12, a1) == label
    &&& s.subrange(a1, a1 + 8) == seq!['"', ' ', 'f', 'i', 'n', 'd', '=', '"']
    &&& s.subrange(a1 + 8, b1) == pattern
    &&& s.subrange(b1, b1 + 11) == seq!['"', ' ', 'r', 'e', 'p', 'l', 'a', 'c', 'e', '=', '"']
    &&& s.subrange(b1 + 11, c1) == replace
    &&& s[c1] == '"'
    &&& s.subrange(c1 + 1, close) == gap
    &&& s[close] == '/'
    &&& s[close + 1] == '>'
}

/// A written tag is made of its pieces.
proof fn lemma_tag_text_layout(
    label: Seq<char>,
    pattern: Seq<char>,
    replace: Seq<char>,
    gap: Seq<char>,
)
    ensures
        laid_out(tag_text(label, pattern, replace, gap), label, pattern, replace, gap),
{
    let p0 = seq!['<', 'T', 'y', 'p', 'o', ' ', 'w', 'o', 'r', 'd', '=', '"'];
    let p1 = seq!['"', ' ', 'f', 'i', 'n', 'd', '=', '"'];
    let p2 = seq!['"', ' ', 'r', 'e', 'p', 'l', 'a', 'c', 'e', '=', '"'];
    let s = tag_text(label, pattern, replace, gap);
    let a1: int = 12 + label.len() as int;
    let b1: int = a1 + 8 + pattern.len() as int;
    let c1: int = b1 + 11 + replace.len() as int;
    let close: int = c1 + 1 + gap.len() as int;
    let s1 = p0 + label;
    let s2 = s1 + p1;
    let s3 = s2 + pattern;
    let s4 = s3 + p2;
    let s5 = s4 + replace;
    let s6 = s5 + seq!['"'];
    let s7 = s6 + gap;
    assert(s == s7 + seq!['/', '>']);
    assert(s.subrange(0, 12) =~= p0) by {
        assert(s.subrange(0, 12) =~= s1.subrange(0, 12));
    }
    assert(s.subrange(12, a1) =~= label) by {
        assert(s.subrange(12, a1) =~= s1.subrange(12, a1));
    }
    assert(s.subrange(a1, a1 + 8) =~= p1) by {
        assert(s.subrange(a1, a1 + 8) =~= s2.subrange(a1, a1 + 8));
    }
    assert(s.subrange(a1 + 8, b1) =~= pattern) by {
        assert(s.subrange(a1 + 8, b1) =~= s3.subrange(a1 + 8, b1));
    }
    assert(s.subrange(b1, b1 + 11) =~= p2) by {
        assert(s.subrange(b1, b1 + 11) =~= s4.subrange(b1, b1 + 11));
    }
    assert(s.subrange(b1 + 11, c1) =~= replace) by {
        assert(s.subrange(b1 + 11, c1) =~= s5.subrange(b1 + 11, c1));
    }
    assert(s[c1] == '"') by {
        assert(s[c1] == s6[c1]);
    }
    assert(s.subrange(c1 + 1, close) =~= gap) by {
        assert(s.subrange(c1 + 1, close) =~= s7.subrange(c1 + 1, close));
    }
}

/// A space, the key, `="`, the value and `"` in `s` from `i` on are the
/// attribute with that key and that value.
proof fn lemma_attr_written(s: Seq<char>, i: int, head: Seq<char>, key: Seq<char>, value: Seq<char>)
    requires
        0 <= i,
        key.len() > 0,
        forall|k: int| 0 <= k < key.len() ==> is_key_char(#[trigger] key[k]),
        is_value(value),
        head == seq![' '] + key + seq!['=', '"'],
        i + head.len() + value.len() < s.len(),
        s.subrange(i, i + head.len()) == head,
        s.subrange(i + head.len(), i + head.len() + value.len()) == value,
        s[i + head.len() + value.len()] == '"',
    ensures
        attr_at(s, i) == Some((Attr { key, value }, i + head.len() + value.len() + 1)),
{
    let k0 = i + 1;
    let k1 = k0 + key.len();
    let v1 = k1 + 2 + value.len();
    assert(s[i] == ' ') by {
        assert(s[i] == s.subrange(i, i + head.len())[0]);
    }
    assert forall|k: int| k0 <= k < k1 implies is_key_char(#[trigger] s[k]) by {
        assert(s[k] == s.subrange(i, i + head.len())[k - i]);
        assert(head[k - i] == key[k - k0]);
    }
    assert(s[k1] == '=') by {
        assert(s[k1] == s.subrange(i, i + head.len())[k1 - i]);
    }
    assert(s[k1 + 1] == '"') by {
        assert(s[k1 + 1] == s.subrange(i, i + head.len())[k1 + 1 - i]);
    }
    assert forall|k: int| k1 + 2 <= k < v1 implies is_value_char(#[trigger] s[k]) by {
        assert(s[k] == s.subrange(k1 + 2, v1)[k - (k1 + 2)]);
    }
    lemma_attr_laid_out(s, i, k0, k1, v1);
    assert(s.subrange(k0, k1) =~= key) by {
        assert forall|k: int| 0 <= k < key.len() implies s.subrange(k0, k1)[k] == key[k] by {
            assert(s[k0 + k] == s.subrange(i, i + head.len())[k0 + k - i]);
            assert(head[k0 + k - i] == key[k]);
        }
    }
    assert(s.subrange(k1 + 2, v1) =~= value);
}

/// The pieces of a written tag, one behind the other, are a tag: it has the
/// three attributes of the rule, and ends where the text ends.
proof fn lemma_laid_out_is_tag(
    s: Seq<char>,
    label: Seq<char>,
    pattern: Seq<char>,
    replace: Seq<char>,
    gap: Seq<char>,
)
    requires
        laid_out(s, label, pattern, replace, gap),
        is_value(label),
        is_value(pattern),
        is_value(replace),
        is_gap(gap),
    ensures
        tag_at(s, 0) == Some((tag_attrs(label, pattern, replace), s.len() as int)),
{
    let a1: int = 12 + label.len() as int;
    let b1: int = a1 + 8 + pattern.len() as int;
    let c1: int = b1 + 11 + replace.len() as int;
    let close: int = c1 + 1 + gap.len() as int;
    let p0 = s.subrange(0, 12);
    let p1 = s.subrange(a1, a1 + 8);
    let p2 = s.subrange(b1, b1 + 11);
    let word = Attr { key: seq!['w', 'o', 'r', 'd'], value: label };
    let find = Attr { key: seq!['f', 'i', 'n', 'd'], value: pattern };
    let repl = Attr { key: seq!['r', 'e', 'p', 'l', 'a', 'c', 'e'], value: replace };
    assert(opens_tag(s, 0)) by {
        assert(s[0] == p0[0] && s[1] == p0[1] && s[2] == p0[2] && s[3] == p0[3] && s[4] == p0[4]);
    }
    assert(attr_at(s, 5) == Some((word, a1 + 1))) by {
        let head = seq![' '] + word.key + seq!['=', '"'];
        assert(s.subrange(5, 12) =~= head) by {
            assert forall|k: int| 0 <= k < 7 implies s.subrange(5, 12)[k] == head[k] by {
                assert(s[5 + k] == p0[5 + k]);
            }
        }
        assert(s[a1] == p1[0]);
        lemma_attr_written(s, 5, head, word.key, label);
    }
    assert(attr_at(s, a1 + 1) == Some((find, b1 + 1))) by {
        let head = seq![' '] + find.key + seq!['=', '"'];
        assert(s.subrange(a1 + 1, a1 + 8) =~= head) by {
            assert forall|k: int| 0 <= k < 7 implies s.subrange(a1 + 1, a1 + 8)[k] == head[k] by {
                assert(s[a1 + 1 + k] == p1[1 + k]);
            }
        }
        assert(s[b1] == p2[0]);
        lemma_attr_written(s, a1 + 1, head, find.key, pattern);
    }
    assert(attr_at(s, b1 + 1) == Some((repl, c1 + 1))) by {
        let head = seq![' '] + repl.key + seq!['=', '"'];
        assert(s.subrange(b1 + 1, b1 + 11) =~= head) by {
            assert forall|k: int| 0 <= k < 10 implies s.subrange(b1 + 1, b1 + 11)[k]
                == head[k] by {
                assert(s[b1 + 1 + k] == p2[1 + k]);
            }
        }
        lemma_attr_written(s, b1 + 1, head, repl.key, replace);
    }
    assert(run_end(s, c1 + 1, CharClass::Space) == close) by {
        assert forall|k: int| c1 + 1 <= k < close implies is_space(#[trigger] s[k]) by {
            assert(s[k] == s.subrange(c1 + 1, close)[k - (c1 + 1)]);
        }
        lemma_run_end_is(s, c1 + 1, close, CharClass::Space);
    }
    assert(attr_at(s, c1 + 1) is None) by {
        assert(run_end(s, close, CharClass::Key) == close);
    }
    assert(attrs_from(s, c1 + 1) =~= Seq::<Attr>::empty());
    assert(attrs_end(s, c1 + 1) == c1 + 1);
    assert(attrs_from(s, b1 + 1) =~= seq![repl]);
    assert(attrs_end(s, b1 + 1) == c1 + 1);
    assert(attrs_from(s, a1 + 1) =~= seq![find, repl]);
    assert(attrs_end(s, a1 + 1) == c1 + 1);
    assert(attrs_from(s, 5) =~= seq![word, find, repl]);
    assert(attrs_end(s, 5) == c1 + 1);
}

/// The attributes of a written tag state its rule.
proof fn lemma_tag_attrs_complete(label: Seq<char>, pattern: Seq<char>, replace: Seq<char>)
    ensures
        !has_disable(tag_attrs(label, pattern, replace)),
        last_value(tag_attrs(label, pattern, replace), KeyKind::Word) == Some(label),
        last_value(tag_attrs(label, pattern, replace), KeyKind::Find) == Some(pattern),
        last_value(tag_attrs(label, pattern, replace), KeyKind::Replace) == Some(replace),
{
    let attrs = tag_attrs(label, pattern, replace);
    let word = attrs[0];
    let find = attrs[1];
    let repl = attrs[2];
    assert(key_kind(word.key) == KeyKind::Word);
    assert(key_kind(find.key) == KeyKind::Find) by {
        assert(find.key[0] != 'w');
    }
    assert(key_kind(repl.key) == KeyKind::Replace) by {
        assert(repl.key.len() == 7);
    }
    assert(attrs.drop_last() =~= seq![word, find]);
    assert(attrs.drop_last().drop_last() =~= seq![word]);
    assert(last_value(attrs, KeyKind::Replace) == Some(replace));
    assert(last_value(attrs.drop_last(), KeyKind::Find) == Some(pattern));
    assert(last_value(attrs, KeyKind::Find) == Some(pattern));
    assert(last_value(attrs.drop_last().drop_last(), KeyKind::Word) == Some(label));
    assert(last_value(attrs.drop_last(), KeyKind::Word) == Some(label));
    assert(last_value(attrs, KeyKind::Word) == Some(label));
}

/// A rule that is written as a tag reads back as it was written: the corpus
/// that is this tag gives this rule, letter for letter, and nothing else.
pub proof fn lemma_written_rule_reads_back(
    label: Seq<char>,
    pattern: Seq<char>,
    replace: Seq<char>,
    gap: Seq<char>,
)
    requires
        is_value(label),
        is_value(pattern),
        is_value(replace),
        is_gap(gap),
    ensures
        rules_of(corpus_tags(tag_text(label, pattern, replace, gap))) == seq![
            RawRuleView { label, pattern, replace },
        ],
        count_disabled(corpus_tags(tag_text(label, pattern, replace, gap))) == 0,
        count_incomplete(corpus_tags(tag_text(label, pattern, replace, gap))) == 0,
{
    let s = tag_text(label, pattern, replace, gap);
    let rule = RawRuleView { label, pattern, replace };
    lemma_tag_text_layout(label, pattern, replace, gap);
    lemma_laid_out_is_tag(s, label, pattern, replace, gap);
    lemma_tag_attrs_complete(label, pattern, replace);
    lemma_tag_end(s, 0);
    lemma_complete_tag(s, 0, tag_attrs(label, pattern, replace), s.len() as int, rule);
    let none = Seq::<Seq<Attr>>::empty();
    assert(tags_from(s, s.len() as int) =~= none);
    assert(rules_of(none) =~= Seq::<RawRuleView>::empty());
    assert(count_disabled(none) == 0);
    assert(count_incomplete(none) == 0);
    assert(seq![rule] + rules_of(none) =~= seq![rule]);
}

} // verus!
