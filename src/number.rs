//! Phone-number normalisation: an optional leading `+`, then digits and the
//! punctuation people write between them.
use vstd::prelude::*;
use crate::text::{chars_of, is_white_space, lemma_trimmed_keeps, string_from_chars, trim_start, trim_str, trimmed};

verus! {

/// Fewest digits a phone number may have.
pub const MIN_NUMBER_LENGTH: usize = 7;

/// Most digits a phone number may have.
pub const MAX_NUMBER_LENGTH: usize = 15;

/// Why a phone number was refused.
#[derive(Clone, Copy, Debug, PartialEq, Eq, Structural)]
pub enum NumberError {
    /// A character other than a digit, space, `-`, `(` or `)` after the optional `+`.
    InvalidCharacters,
    /// Fewer than `MIN_NUMBER_LENGTH` digits.
    TooShort,
    /// More than `MAX_NUMBER_LENGTH` digits.
    TooLong,
}

pub open spec fn is_digit(c: char) -> bool {
    '0' <= c && c <= '9'
}

/// A character allowed after the optional leading `+`.
pub open spec fn is_number_char(c: char) -> bool {
    is_digit(c) || c == ' ' || c == '-' || c == '(' || c == ')'
}

pub open spec fn all_number_chars(s: Seq<char>) -> bool {
    forall|i: int| 0 <= i < s.len() ==> is_number_char(#[trigger] s[i])
}

/// Whether the (trimmed) number starts with `+`.
pub open spec fn has_plus(t: Seq<char>) -> bool {
    t.len() > 0 && t[0] == '+'
}

/// The number after its optional leading `+`.
pub open spec fn stem_of(t: Seq<char>) -> Seq<char> {
    if has_plus(t) {
        t.drop_first()
    } else {
        t
    }
}

/// The digits of `s`, in order.
pub open spec fn digits_of(s: Seq<char>) -> Seq<char>
    decreases s.len(),
{
    if s.len() == 0 {
        Seq::empty()
    } else if is_digit(s.last()) {
        digits_of(s.drop_last()).push(s.last())
    } else {
        digits_of(s.drop_last())
    }
}

/// `+` when the number had one, else nothing.
pub open spec fn sign_of(t: Seq<char>) -> Seq<char> {
    if has_plus(t) {
        seq!['+']
    } else {
        Seq::empty()
    }
}

/// The normal form of a raw phone number, or why it has none.
pub open spec fn normalize(raw: Seq<char>) -> Result<Seq<char>, NumberError> {
    let t = trimmed(raw);
    let d = digits_of(stem_of(t));
    if !all_number_chars(stem_of(t)) {
        Err(NumberError::InvalidCharacters)
    } else if d.len() < MIN_NUMBER_LENGTH {
        Err(NumberError::TooShort)
    } else if d.len() > MAX_NUMBER_LENGTH {
        Err(NumberError::TooLong)
    } else {
        Ok(sign_of(t) + d)
    }
}

/// A number in normal form: an optional `+`, then 7 to 15 digits and nothing else.
pub open spec fn is_normal_number(s: Seq<char>) -> bool {
    let d = if has_plus(s) { s.drop_first() } else { s };
    &&& MIN_NUMBER_LENGTH <= d.len() <= MAX_NUMBER_LENGTH
    &&& forall|i: int| 0 <= i < d.len() ==> is_digit(#[trigger] d[i])
}

pub proof fn lemma_digits_of_are_digits(s: Seq<char>)
    ensures
        forall|i: int| 0 <= i < digits_of(s).len() ==> is_digit(#[trigger] digits_of(s)[i]),
    decreases s.len(),
{
    if s.len() > 0 {
        lemma_digits_of_are_digits(s.drop_last());
        let d = digits_of(s.drop_last());
        if is_digit(s.last()) {
            assert forall|i: int| 0 <= i < digits_of(s).len() implies is_digit(
                #[trigger] digits_of(s)[i],
            ) by {
                if i < d.len() {
                    assert(digits_of(s)[i] == d[i]);
                }
            }
        }
    }
}

/// Every successful normalisation yields a number in normal form.
pub proof fn lemma_normalize_is_normal(raw: Seq<char>)
    ensures
        normalize(raw) is Ok ==> is_normal_number(normalize(raw)->Ok_0),
{
    let t = trimmed(raw);
    let d = digits_of(stem_of(t));
    lemma_digits_of_are_digits(stem_of(t));
    if normalize(raw) is Ok {
        let s = sign_of(t) + d;
        if has_plus(t) {
            assert(has_plus(s));
            assert(s.drop_first() =~= d);
        } else {
            assert(s =~= d);
            if d.len() > 0 {
                assert(is_digit(d[0]));
            }
        }
    }
}

/// Trims `raw`, keeps an optional leading `+`, checks the characters after
/// it and removes everything but the digits. Succeeds exactly when the
/// characters are allowed and there are 7 to 15 digits.
pub fn process_number(number: &str) -> (r: Result<String, NumberError>)
    ensures
        match r {
            Ok(s) => normalize(number@) == Ok::<Seq<char>, NumberError>(s@),
            Err(e) => normalize(number@) == Err::<Seq<char>, NumberError>(e),
        },
{
    let t = trim_str(number);
    let cs = chars_of(t);
    let plus = cs.len() > 0 && cs[0] == '+';
    let start: usize = if plus { 1 } else { 0 };
    let ghost stem = stem_of(t@);
    assert(stem =~= cs@.subrange(start as int, cs@.len() as int));
    let mut digits: Vec<char> = Vec::new();
    if plus {
        digits.push('+');
    }
    let mut i: usize = start;
    let mut valid = true;
    while i < cs.len()
        invariant
            start <= i <= cs@.len(),
            cs@ == t@,
            stem == cs@.subrange(start as int, cs@.len() as int),
            sign_of(t@).len() == start,
            digits@ == sign_of(t@) + digits_of(stem.subrange(0, i - start)),
            valid == all_number_chars(stem.subrange(0, i - start)),
        decreases cs@.len() - i,
    {
        let c = cs[i];
        let ghost pre = stem.subrange(0, i - start);
        let ghost next = stem.subrange(0, i + 1 - start);
        assert(next.drop_last() =~= pre);
        assert(next.last() == c);
        if !(('0' <= c && c <= '9') || c == ' ' || c == '-' || c == '(' || c == ')') {
            valid = false;
        }
        if '0' <= c && c <= '9' {
            digits.push(c);
        }
        proof {
            if valid {
                assert forall|j: int| 0 <= j < next.len() implies is_number_char(#[trigger] next[j]) by {
                    if j < pre.len() {
                        assert(next[j] == pre[j]);
                    }
                }
            } else {
                if all_number_chars(next) {
                    assert(is_number_char(next[next.len() - 1]));
                    if !all_number_chars(pre) {
                        let j = choose|j: int| 0 <= j < pre.len() && !is_number_char(#[trigger] pre[j]);
                        assert(next[j] == pre[j]);
                    }
                }
            }
        }
        i = i + 1;
    }
    assert(stem.subrange(0, cs@.len() - start) =~= stem);
    if !valid {
        return Err(NumberError::InvalidCharacters);
    }
    let n = digits.len() - start;
    if n < MIN_NUMBER_LENGTH {
        Err(NumberError::TooShort)
    } else if n > MAX_NUMBER_LENGTH {
        Err(NumberError::TooLong)
    } else {
        Ok(string_from_chars(&digits))
    }
}

/// A number whose characters after the optional `+` are all allowed and
/// which holds 7 to 15 digits normalises to exactly those digits, with a
/// `+` in front exactly when it began with one.
pub proof fn lemma_valid_number_normalizes(raw: Seq<char>)
    requires
        all_number_chars(stem_of(trimmed(raw))),
        MIN_NUMBER_LENGTH <= digits_of(stem_of(trimmed(raw))).len() <= MAX_NUMBER_LENGTH,
    ensures
        normalize(raw) == Ok::<Seq<char>, NumberError>(
            sign_of(trimmed(raw)) + digits_of(stem_of(trimmed(raw))),
        ),
        has_plus(normalize(raw)->Ok_0) == has_plus(trimmed(raw)),
{
    let t = trimmed(raw);
    let s = sign_of(t) + digits_of(stem_of(t));
    lemma_digits_of_are_digits(stem_of(t));
    if !has_plus(t) {
        assert(s =~= digits_of(stem_of(t)));
        assert(is_digit(s[0]));
    }
}

/// A number with fewer than 7 or more than 15 digits does not normalise.
pub proof fn lemma_wrong_digit_count_fails(raw: Seq<char>)
    requires
        digits_of(stem_of(trimmed(raw))).len() < MIN_NUMBER_LENGTH || digits_of(
            stem_of(trimmed(raw)),
        ).len() > MAX_NUMBER_LENGTH,
    ensures
        normalize(raw) is Err,
{
}

/// A number holding a character other than a digit, a space, `-`, `(`, `)`
/// or `+` does not normalise, unless that character is whitespace that
/// trimming removes from the ends.
pub proof fn lemma_foreign_char_fails(raw: Seq<char>, i: int)
    requires
        0 <= i < raw.len(),
        !is_number_char(raw[i]),
        raw[i] != '+',
        !is_white_space(raw[i]),
    ensures
        normalize(raw) == Err::<Seq<char>, NumberError>(NumberError::InvalidCharacters),
{
    lemma_trimmed_keeps(raw, i);
    let t = trimmed(raw);
    let k = i - (raw.len() - trim_start(raw).len());
    if has_plus(t) {
        assert(k != 0);
        assert(stem_of(t)[k - 1] == raw[i]);
    } else {
        assert(stem_of(t)[k] == raw[i]);
    }
}

} // verus!
