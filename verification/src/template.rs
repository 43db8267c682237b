use crate::chars::{is_digit, lemma_run_end, run_end, skip_run, to_chars, CharClass};
use vstd::prelude::*;

verus! {

/// Whether a bare numbered reference starts at `i`: a `$` with a decimal
/// digit right behind it.
pub open spec fn reference_at(s: Seq<char>, i: int) -> bool {
    0 <= i && i + 1 < s.len() && s[i] == '$' && is_digit(s[i + 1])
}

/// The template `s` from `i` on with every bare numbered reference put in
/// braces: `$`, the whole run of digits behind it and nothing else becomes
/// `${`, the digits, `}`. All other text stays as it is.
pub open spec fn braced_from(s: Seq<char>, i: int) -> Seq<char>
    decreases s.len() - i,
{
    let j = run_end(s, i + 1, CharClass::Digit);
    if i < 0 || i >= s.len() {
        Seq::empty()
    } else if reference_at(s, i) && i + 1 < j <= s.len() {
        seq!['$', '{'] + s.subrange(i + 1, j) + seq!['}'] + braced_from(s, j)
    } else {
        seq![s[i]] + braced_from(s, i + 1)
    }
}

/// The template `s` with every bare numbered reference put in braces.
pub open spec fn braced(s: Seq<char>) -> Seq<char> {
    braced_from(s, 0)
}

/// Where no bare numbered reference starts from `i` on, the rest of the
/// template stays as it is.
pub proof fn lemma_braced_from_plain(s: Seq<char>, i: int)
    requires
        0 <= i <= s.len(),
        forall|k: int| i <= k < s.len() ==> !reference_at(s, k),
    ensures
        braced_from(s, i) == s.subrange(i, s.len() as int),
    decreases s.len() - i,
{
    if i < s.len() {
        lemma_braced_from_plain(s, i + 1);
        assert(seq![s[i]] + s.subrange(i + 1, s.len() as int) =~= s.subrange(i, s.len() as int));
    } else {
        assert(s.subrange(i, s.len() as int) =~= Seq::<char>::empty());
    }
}

/// A template without a bare numbered reference is left unchanged.
pub proof fn lemma_braced_plain(s: Seq<char>)
    requires
        forall|k: int| !reference_at(s, k),
    ensures
        braced(s) == s,
{
    lemma_braced_from_plain(s, 0);
    assert(s.subrange(0, s.len() as int) =~= s);
}

/// Whether a bare numbered reference starts anywhere in `s`.
fn has_reference(s: &[char]) -> (found: bool)
    ensures
        found == exists|k: int| reference_at(s@, k),
{
    let n = s.len();
    let mut i: usize = 0;
    while i < n
        invariant
            i <= n == s@.len(),
            forall|k: int| k < i ==> !reference_at(s@, k),
        decreases n - i,
    {
        if s[i] == '$' && n - i > 1 && CharClass::Digit.contains(s[i + 1]) {
            assert(reference_at(s@, i as int));
            return true;
        }
        i += 1;
    }
    false
}

/// Puts every bare numbered reference of a replacement template in braces:
/// `$1` becomes `${1}`, so that text behind the digits is not read as part
/// of the reference. A template without such a reference is handed back as
/// it came.
pub fn convert_replace_string(input: String) -> (output: String)
    ensures
        output@ == braced(input@),
        (forall|k: int| !reference_at(input@, k)) ==> output == input,
{
    let chars = to_chars(input.as_str());
    let s = chars.as_slice();
    if !has_reference(s) {
        proof {
            lemma_braced_plain(s@);
        }
        return input;
    }
    let n = s.len();
    let mut output = String::new();
    let mut i: usize = 0;
    while i < n
        invariant
            i <= n == s@.len(),
            braced(s@) == output@ + braced_from(s@, i as int),
        decreases n - i,
    {
        if s[i] == '$' && n - i > 1 && CharClass::Digit.contains(s[i + 1]) {
            let j = skip_run(s, i + 1, CharClass::Digit);
            let ghost before = output@;
            output.push('$');
            output.push('{');
            let mut k: usize = i + 1;
            while k < j
                invariant
                    i + 1 <= k <= j <= n == s@.len(),
                    reference_at(s@, i as int),
                    j == run_end(s@, i + 1, CharClass::Digit),
                    braced(s@) == before + braced_from(s@, i as int),
                    output@ == before + seq!['$', '{'] + s@.subrange(i + 1, k as int),
                decreases j - k,
            {
                output.push(s[k]);
                k += 1;
            }
            output.push('}');
            proof {
                lemma_run_end(s@, i + 2, CharClass::Digit);
                assert(output@ + braced_from(s@, j as int) =~= before + (seq!['$', '{']
                    + s@.subrange(i + 1, j as int) + seq!['}'] + braced_from(s@, j as int)));
            }
            i = j;
        } else {
            proof {
                assert(output@.push(s@[i as int]) + braced_from(s@, i + 1) =~= output@ + (seq![
                    s@[i as int],
                ] + braced_from(s@, i + 1)));
            }
            output.push(s[i]);
            i += 1;
        }
    }
    proof {
        assert(output@ + Seq::<char>::empty() =~= output@);
    }
    output
}

} // verus!
