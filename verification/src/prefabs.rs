//! The numbers in the names of gates.

use crate::lexer::{has_prefix, is_digit, is_number};
use vstd::prelude::*;

verus! {

/// Whether the regular expression `pattern` is accepted by the crate `regex`.
pub uninterp spec fn pattern_compiles(pattern: Seq<char>) -> bool;

/// The texts of the successive matches of the regular expression `pattern`
/// in `text`, as the crate `regex` finds them from left to right.
pub uninterp spec fn pattern_matches(pattern: Seq<char>, text: Seq<char>) -> Seq<Seq<char>>;

/// The views of a sequence of strings.
pub open spec fn texts(found: Seq<String>) -> Seq<Seq<char>> {
    Seq::new(found.len(), |i: int| found[i]@)
}

/// Every character of the text is an ASCII character.
pub open spec fn is_ascii_text(text: Seq<char>) -> bool {
    forall|i: int| 0 <= i < text.len() ==> (#[trigger] text[i]) as u32 <= 127
}

/// The runs of decimal digits in `text` behind the digits `run` that were
/// just passed, from left to right.
pub open spec fn runs_after(text: Seq<char>, run: Seq<char>) -> Seq<Seq<char>>
    decreases text.len(),
{
    if text.len() == 0 {
        if run.len() > 0 {
            seq![run]
        } else {
            Seq::empty()
        }
    } else if is_digit(text[0]) {
        runs_after(text.drop_first(), run.push(text[0]))
    } else if run.len() > 0 {
        seq![run] + runs_after(text.drop_first(), Seq::empty())
    } else {
        runs_after(text.drop_first(), Seq::empty())
    }
}

/// The longest runs of decimal digits in `text`, from left to right.
pub open spec fn digit_runs(text: Seq<char>) -> Seq<Seq<char>> {
    runs_after(text, Seq::empty())
}

/// All matches of a regular expression in a text.
///
/// Stands for `Regex::new` of the crate `regex`, followed by
/// `Regex::find_iter` and `Match::as_str` on every match. `Regex::new`
/// returns an error for a pattern that it does not accept: then the result
/// is `None`. Otherwise `find_iter` yields the successive non-overlapping
/// matches in the text, and the result holds their texts in that order.
///
/// Of the pattern `\d+` more is claimed. The crate accepts it: `\d` is the
/// class of decimal digits, of which the ASCII characters hold `0` to `9`
/// and no other, and `+` takes as many as there are. So in a text of ASCII
/// characters the matches are the longest runs of the digits `0` to `9`.
#[verifier::external_body]
fn find_all(pattern: &str, text: &str) -> (r: Option<Vec<String>>)
    ensures
        r.is_some() == pattern_compiles(pattern@),
        r matches Some(found) ==> texts(found@) == pattern_matches(pattern@, text@),
        pattern@ == digits_pattern() && is_ascii_text(text@) ==> r.is_some() && texts(
            r.unwrap()@,
        ) == digit_runs(text@),
{
    match regex::Regex::new(pattern) {
        Ok(re) => Some(re.find_iter(text).map(|m| m.as_str().to_string()).collect()),
        Err(_) => None,
    }
}

/// The number that a decimal digit stands for.
pub open spec fn digit_value(c: char) -> nat {
    (c as nat - '0' as nat) as nat
}

/// The number that a string of decimal digits spells.
pub open spec fn decimal_value(s: Seq<char>) -> nat
    decreases s.len(),
{
    if s.len() == 0 {
        0
    } else {
        10 * decimal_value(s.drop_last()) + digit_value(s.last())
    }
}

/// The number that `s` spells, if `s` is a number that is not above `limit`.
pub open spec fn spec_parse_decimal(s: Seq<char>, limit: nat) -> Option<nat> {
    if is_number(s) && decimal_value(s) <= limit {
        Some(decimal_value(s))
    } else {
        None
    }
}

/// The numbers that the runs of digits spell, if there are `expected` runs
/// and each spells a number that fits the machine word.
pub open spec fn spec_numbers(runs: Seq<Seq<char>>, expected: nat) -> Option<Seq<nat>> {
    if runs.len() == expected && forall|i: int|
        0 <= i < runs.len() ==> (#[trigger] spec_parse_decimal(runs[i], usize::MAX as nat)).is_some() {
        Some(Seq::new(runs.len(), |i: int| decimal_value(runs[i])))
    } else {
        None
    }
}

/// The pattern of a run of decimal digits.
pub open spec fn digits_pattern() -> Seq<char> {
    "\\d+"@
}

/// The numbers in the name of a gate, if the name holds `expected` of them:
/// the numbers that its runs of digits spell. In a name of ASCII characters
/// these are the longest runs of the digits `0` to `9`; in any other name
/// they are what the pattern of a run of digits matches.
pub open spec fn spec_prefab_numbers(name: Seq<char>, expected: nat) -> Option<Seq<nat>> {
    if is_ascii_text(name) {
        spec_numbers(digit_runs(name), expected)
    } else if pattern_compiles(digits_pattern()) {
        spec_numbers(pattern_matches(digits_pattern(), name), expected)
    } else {
        None
    }
}

/// The length of the longest prefix of `s` that is made of decimal digits.
pub open spec fn digits_len(s: Seq<char>) -> nat
    decreases s.len(),
{
    if s.len() == 0 || !is_digit(s[0]) {
        0
    } else {
        1 + digits_len(s.drop_first())
    }
}

/// `rest` is a number, or for `count == 2` two numbers with an underscore
/// between them.
pub open spec fn is_number_list(rest: Seq<char>, count: nat) -> bool {
    let k = digits_len(rest) as int;
    if count == 1 {
        rest.len() > 0 && k == rest.len()
    } else {
        let tail = rest.skip(k + 1);
        &&& count == 2
        &&& 0 < k < rest.len()
        &&& rest[k] == '_'
        &&& tail.len() > 0
        &&& digits_len(tail) == tail.len()
    }
}

/// `name` is `prefix` followed by `count` numbers, with an underscore
/// between two numbers.
pub open spec fn has_shape(name: Seq<char>, prefix: Seq<char>, count: nat) -> bool {
    has_prefix(name, prefix) && is_number_list(name.skip(prefix.len() as int), count)
}

proof fn lemma_digits_len_bound(s: Seq<char>)
    ensures
        digits_len(s) <= s.len(),
    decreases s.len(),
{
    if s.len() > 0 && is_digit(s[0]) {
        lemma_digits_len_bound(s.drop_first());
    }
}

/// The numbers of a name of the shape `prefix` and `count` numbers, as the
/// name spells them: the digits behind the prefix, up to the underscore if
/// there are two numbers, and the digits behind the underscore.
pub open spec fn shaped_runs(name: Seq<char>, prefix: Seq<char>, count: nat) -> Seq<Seq<char>> {
    let rest = name.skip(prefix.len() as int);
    let k = digits_len(rest) as int;
    if count == 1 {
        seq![rest]
    } else {
        seq![rest.take(k), rest.skip(k + 1)]
    }
}

/// No character of the text is a decimal digit.
pub open spec fn no_digit(text: Seq<char>) -> bool {
    forall|i: int| 0 <= i < text.len() ==> !is_digit(#[trigger] text[i])
}

/// A text whose longest prefix of digits is the whole text is made of digits.
proof fn lemma_all_digits(s: Seq<char>)
    requires
        digits_len(s) == s.len(),
    ensures
        forall|i: int| 0 <= i < s.len() ==> is_digit(#[trigger] s[i]),
    decreases s.len(),
{
    if s.len() > 0 {
        lemma_digits_len_bound(s.drop_first());
        lemma_all_digits(s.drop_first());
        assert forall|i: int| 0 <= i < s.len() implies is_digit(#[trigger] s[i]) by {
            if i > 0 {
                assert(s[i] == s.drop_first()[i - 1]);
            }
        }
    }
}

/// The longest prefix of digits is made of digits, and behind it stands no digit.
proof fn lemma_digits_prefix(s: Seq<char>)
    ensures
        digits_len(s) <= s.len(),
        forall|i: int| 0 <= i < digits_len(s) ==> is_digit(#[trigger] s[i]),
        digits_len(s) < s.len() ==> !is_digit(s[digits_len(s) as int]),
    decreases s.len(),
{
    if s.len() > 0 && is_digit(s[0]) {
        let t = s.drop_first();
        lemma_digits_prefix(t);
        assert forall|i: int| 0 <= i < digits_len(s) implies is_digit(#[trigger] s[i]) by {
            if i > 0 {
                assert(s[i] == t[i - 1]);
            }
        }
        if digits_len(s) < s.len() {
            assert(s[digits_len(s) as int] == t[digits_len(t) as int]);
        }
    }
}

/// Characters that are no digits and stand before any run hold no run.
proof fn lemma_runs_skip_other(text: Seq<char>, rest: Seq<char>)
    requires
        no_digit(text),
    ensures
        runs_after(text + rest, Seq::empty()) == runs_after(rest, Seq::empty()),
    decreases text.len(),
{
    if text.len() == 0 {
        assert(text + rest =~= rest);
    } else {
        let whole = text + rest;
        assert(whole[0] == text[0]);
        assert(whole.drop_first() =~= text.drop_first() + rest);
        assert forall|i: int| 0 <= i < text.drop_first().len() implies !is_digit(
            #[trigger] text.drop_first()[i],
        ) by {
            assert(text.drop_first()[i] == text[i + 1]);
        }
        lemma_runs_skip_other(text.drop_first(), rest);
    }
}

/// Digits go to the run that is being passed.
proof fn lemma_runs_take_digits(digits: Seq<char>, rest: Seq<char>, run: Seq<char>)
    requires
        forall|i: int| 0 <= i < digits.len() ==> is_digit(#[trigger] digits[i]),
    ensures
        runs_after(digits + rest, run) == runs_after(rest, run + digits),
    decreases digits.len(),
{
    if digits.len() == 0 {
        assert(digits + rest =~= rest);
        assert(run + digits =~= run);
    } else {
        let whole = digits + rest;
        assert(whole[0] == digits[0]);
        assert(whole.drop_first() =~= digits.drop_first() + rest);
        assert forall|i: int| 0 <= i < digits.drop_first().len() implies is_digit(
            #[trigger] digits.drop_first()[i],
        ) by {
            assert(digits.drop_first()[i] == digits[i + 1]);
        }
        lemma_runs_take_digits(digits.drop_first(), rest, run.push(digits[0]));
        assert(run.push(digits[0]) + digits.drop_first() =~= run + digits);
    }
}

/// The numbers in a name of the shape `prefix` and `count` numbers are the
/// numbers that the name spells behind the prefix, where the prefix is made
/// of ASCII characters and holds no digit: so it is for every gate name.
pub proof fn lemma_numbers_of_shaped_name(name: Seq<char>, prefix: Seq<char>, count: nat)
    requires
        count == 1 || count == 2,
        has_shape(name, prefix, count),
        is_ascii_text(prefix),
        no_digit(prefix),
    ensures
        is_ascii_text(name),
        digit_runs(name) == shaped_runs(name, prefix, count),
        spec_prefab_numbers(name, count) == spec_numbers(shaped_runs(name, prefix, count), count),
{
    let rest = name.skip(prefix.len() as int);
    let k = digits_len(rest) as int;
    let none = Seq::<char>::empty();
    assert(name =~= prefix + rest);
    lemma_runs_skip_other(prefix, rest);
    lemma_digits_prefix(rest);
    if count == 1 {
        assert(rest + none =~= rest);
        lemma_runs_take_digits(rest, none, none);
        assert(none + rest =~= rest);
        assert(runs_after(none, rest) == seq![rest]);
        assert forall|i: int| 0 <= i < name.len() implies (#[trigger] name[i]) as u32 <= 127 by {
            if i >= prefix.len() {
                assert(name[i] == rest[i - prefix.len()]);
                assert(is_digit(rest[i - prefix.len()]));
            } else {
                assert(name[i] == prefix[i]);
            }
        }
    } else {
        let first = rest.take(k);
        let tail = rest.skip(k + 1);
        let behind = rest.skip(k);
        assert(rest =~= first + behind);
        lemma_runs_take_digits(first, behind, none);
        assert(none + first =~= first);
        assert(behind[0] == '_');
        assert(behind.drop_first() =~= tail);
        assert(runs_after(behind, first) == seq![first] + runs_after(tail, none));
        lemma_all_digits(tail);
        assert(tail + none =~= tail);
        lemma_runs_take_digits(tail, none, none);
        assert(none + tail =~= tail);
        assert(runs_after(none, tail) == seq![tail]);
        assert(seq![first] + seq![tail] =~= seq![first, tail]);
        assert forall|i: int| 0 <= i < name.len() implies (#[trigger] name[i]) as u32 <= 127 by {
            if i >= prefix.len() {
                let j = i - prefix.len();
                assert(name[i] == rest[j]);
                if j < k {
                    assert(is_digit(rest[j]));
                } else if j > k {
                    assert(rest[j] == tail[j - k - 1]);
                    assert(is_digit(tail[j - k - 1]));
                }
            } else {
                assert(name[i] == prefix[i]);
            }
        }
    }
}

/// The four prefixes that a name with numbers can have hold ASCII
/// characters only, and no digit.
pub proof fn lemma_gate_prefixes()
    ensures
        is_ascii_text("G_R_"@) && no_digit("G_R_"@),
        is_ascii_text("G_I_"@) && no_digit("G_I_"@),
        is_ascii_text("G_Uf_"@) && no_digit("G_Uf_"@),
        is_ascii_text("G_QFTI_"@) && no_digit("G_QFTI_"@),
{
    reveal_strlit("G_R_");
    reveal_strlit("G_I_");
    reveal_strlit("G_Uf_");
    reveal_strlit("G_QFTI_");
}

/// Adding a digit at the end does not make the spelled number smaller.
proof fn lemma_decimal_grows(s: Seq<char>, k: int)
    requires
        0 <= k <= s.len(),
    ensures
        decimal_value(s.take(k)) <= decimal_value(s),
    decreases s.len() - k,
{
    if k < s.len() {
        lemma_decimal_grows(s, k + 1);
        assert(s.take(k + 1).drop_last() =~= s.take(k));
    } else {
        assert(s.take(k) =~= s);
    }
}

/// Reads a decimal number that is not above `limit`.
pub fn parse_decimal(s: &String, limit: u64) -> (r: Option<u64>)
    ensures
        match r {
            Some(v) => spec_parse_decimal(s@, limit as nat) == Some(v as nat),
            None => spec_parse_decimal(s@, limit as nat).is_none(),
        },
{
    let chars = crate::text::chars_of(s.as_str());
    if chars.len() == 0 {
        return None;
    }
    let mut value: u64 = 0;
    let mut i: usize = 0;
    proof {
        assert(chars@.take(0).len() == 0);
    }
    while i < chars.len()
        invariant
            i <= chars.len(),
            chars@ == s@,
            chars.len() > 0,
            value == decimal_value(chars@.take(i as int)),
            value <= limit,
            forall|j: int| 0 <= j < i ==> is_digit(#[trigger] chars@[j]),
        decreases chars.len() - i,
    {
        let c = chars[i];
        if !('0' <= c && c <= '9') {
            return None;
        }
        let d: u64 = (c as u64) - ('0' as u64);
        proof {
            assert(chars@.take(i + 1).drop_last() =~= chars@.take(i as int));
            assert(d == digit_value(c));
        }
        if d > limit || value > (limit - d) / 10 {
            proof {
                assert(10 * value + d > limit);
                lemma_decimal_grows(chars@, i + 1);
            }
            return None;
        }
        value = value * 10 + d;
        i = i + 1;
    }
    proof {
        assert(chars@.take(chars@.len() as int) =~= chars@);
    }
    Some(value)
}

/// The numbers that runs of digits spell. There must be `expected` runs,
/// and each must spell a number that fits the machine word.
pub fn numbers_from_runs(runs: &Vec<String>, expected: usize) -> (r: Option<Vec<usize>>)
    ensures
        match r {
            Some(numbers) => spec_numbers(texts(runs@), expected as nat) == Some(
                Seq::new(numbers@.len(), |i: int| numbers@[i] as nat),
            ),
            None => spec_numbers(texts(runs@), expected as nat).is_none(),
        },
{
    let ghost views = texts(runs@);
    if runs.len() != expected {
        return None;
    }
    let mut numbers: Vec<usize> = Vec::new();
    let mut i: usize = 0;
    while i < runs.len()
        invariant
            i <= runs.len(),
            views == texts(runs@),
            runs.len() == expected,
            numbers@.len() == i,
            forall|j: int|
                0 <= j < i ==> (#[trigger] spec_parse_decimal(views[j], usize::MAX as nat)).is_some(),
            forall|j: int| 0 <= j < i ==> #[trigger] numbers@[j] == decimal_value(views[j]),
        decreases runs.len() - i,
    {
        proof {
            assert(views[i as int] == runs@[i as int]@);
        }
        match parse_decimal(&runs[i], usize::MAX as u64) {
            Some(v) => {
                numbers.push(v as usize);
            },
            None => {
                return None;
            },
        }
        i = i + 1;
    }
    proof {
        assert(Seq::new(numbers@.len(), |i: int| numbers@[i] as nat) =~= Seq::new(
            views.len(),
            |i: int| decimal_value(views[i]),
        ));
    }
    Some(numbers)
}

/// The numbers in the name of a gate: the runs of digits in it, which must
/// be `expected` in number.
pub fn parse_params_from_prefebs(lit: &String, expected: usize) -> (r: Option<Vec<usize>>)
    ensures
        match r {
            Some(numbers) => spec_prefab_numbers(lit@, expected as nat) == Some(
                Seq::new(numbers@.len(), |i: int| numbers@[i] as nat),
            ),
            None => spec_prefab_numbers(lit@, expected as nat).is_none(),
        },
{
    match find_all("\\d+", lit.as_str()) {
        Some(runs) => numbers_from_runs(&runs, expected),
        None => None,
    }
}

/// The length of the longest run of decimal digits that begins at `start`.
fn digits_from(chars: &Vec<char>, start: usize) -> (k: usize)
    requires
        start <= chars.len(),
    ensures
        k == digits_len(chars@.skip(start as int)),
        start + k <= chars.len(),
{
    let mut k: usize = 0;
    proof {
        lemma_digits_len_bound(chars@.skip(start as int));
    }
    while start + k < chars.len() && '0' <= chars[start + k] && chars[start + k] <= '9'
        invariant
            start + k <= chars.len(),
            digits_len(chars@.skip(start as int)) == k + digits_len(chars@.skip(start + k)),
        decreases chars.len() - k,
    {
        proof {
            let rest = chars@.skip(start + k);
            assert(rest[0] == chars@[start + k]);
            assert(rest.drop_first() =~= chars@.skip(start + k + 1));
        }
        k = k + 1;
    }
    proof {
        let rest = chars@.skip(start + k);
        if start + k < chars.len() {
            assert(rest[0] == chars@[start + k]);
        }
    }
    k
}

/// Whether `name` is `prefix` followed by `count` numbers, with an
/// underscore between two numbers.
pub fn matches_shape(name: &String, prefix: &str, count: usize) -> (r: bool)
    requires
        count == 1 || count == 2,
    ensures
        r == has_shape(name@, prefix@, count as nat),
{
    let chars = crate::text::chars_of(name.as_str());
    if !crate::lexer::chars_start_with(&chars, prefix) {
        return false;
    }
    let start = prefix.unicode_len();
    let ghost rest = chars@.skip(start as int);
    let k = digits_from(&chars, start);
    if count == 1 {
        return chars.len() > start && start + k == chars.len();
    }
    if k == 0 || start + k >= chars.len() || chars[start + k] != '_' {
        return false;
    }
    let next = start + k + 1;
    let k2 = digits_from(&chars, next);
    proof {
        assert(rest.skip(k + 1) =~= chars@.skip(next as int));
        assert(rest[k as int] == chars@[start + k]);
    }
    chars.len() > next && next + k2 == chars.len()
}

} // verus!
