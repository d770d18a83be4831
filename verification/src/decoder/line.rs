//! The captured line: its tokens and the durations they spell.

use super::error::DecoderError;
use std::num::ParseIntError;
use vstd::prelude::*;

verus! {

/// Whether a character beyond the ASCII range has the Unicode property
/// `White_Space`.
pub uninterp spec fn white_space_beyond_ascii(c: char) -> bool;

/// Whether a character has the Unicode property `White_Space`. Of the ASCII
/// characters these are the five from the tab to the carriage return
/// (U+0009 to U+000D) and the space (U+0020).
pub open spec fn white_space(c: char) -> bool {
    if (c as u32) < 0x80 {
        0x09 <= c as u32 <= 0x0d || c as u32 == 0x20
    } else {
        white_space_beyond_ascii(c)
    }
}

/// `char::is_whitespace` tells whether the character has the Unicode
/// property `White_Space`: of the ASCII characters, the tab, the line feed,
/// the vertical tab, the form feed, the carriage return and the space; of
/// the others, whatever the property says.
pub assume_specification[ char::is_whitespace ](c: char) -> (yes: bool)
    ensures
        yes == white_space(c),
        (c as u32) >= 0x80 ==> yes == white_space_beyond_ascii(c),
;

/// Whether a character is one of the ten decimal digits.
pub open spec fn is_digit(c: char) -> bool {
    '0' <= c <= '9'
}

/// The number that a run of decimal digits spells.
pub open spec fn digits_value(digits: Seq<char>) -> nat
    decreases digits.len(),
{
    if digits.len() == 0 {
        0
    } else {
        10 * digits_value(digits.drop_last()) + (digits.last() as nat - '0' as nat) as nat
    }
}

/// The length of the sign that a token starts with: one for a plus sign,
/// zero without.
pub open spec fn sign_len(token: Seq<char>) -> int {
    if token.len() > 0 && token[0] == '+' {
        1
    } else {
        0
    }
}

/// The digits of a token: the token without a leading plus sign.
pub open spec fn digits_of(token: Seq<char>) -> Seq<char> {
    token.skip(sign_len(token))
}

/// Whether a token spells a number: an optional plus sign, then one or more
/// decimal digits and nothing else.
pub open spec fn spells_number(token: Seq<char>) -> bool {
    &&& token.len() > sign_len(token)
    &&& forall|i: int| sign_len(token) <= i < token.len() ==> is_digit(#[trigger] token[i])
}

/// The number that a token spells, where it spells one that fits in 32
/// bits.
pub open spec fn number_of(token: Seq<char>) -> Option<u32> {
    if spells_number(token) && digits_value(digits_of(token)) <= u32::MAX {
        Some(digits_value(digits_of(token)) as u32)
    } else {
        None
    }
}

/// The duration that a token stands for, where it spells a number. A number
/// beyond the largest that 32 bits hold stands for that largest duration:
/// no window of a transmission reaches so far, so either of them fails the
/// check of its place, and a pulse-pair failure then holds the largest
/// duration in place of the number.
pub open spec fn duration_of(token: Seq<char>) -> Option<u32> {
    if !spells_number(token) {
        None
    } else if digits_value(digits_of(token)) <= u32::MAX {
        Some(digits_value(digits_of(token)) as u32)
    } else {
        Some(u32::MAX)
    }
}

/// The error that the standard library's integer parser returns for a token
/// that it does not read as a 32-bit number.
pub uninterp spec fn parse_failure(token: Seq<char>) -> ParseIntError;

/// `str::parse::<u32>` reads an optional plus sign followed by decimal
/// digits. It returns the number where the token is of that form and the
/// number fits in 32 bits, and its error for every other token. The error
/// depends on the token alone.
#[verifier::external_body]
pub(crate) fn parse_u32(token: &str) -> (parsed: Result<u32, ParseIntError>)
    ensures
        parsed == match number_of(token@) {
            Some(number) => Ok::<u32, ParseIntError>(number),
            None => Err::<u32, ParseIntError>(parse_failure(token@)),
        },
{
    token.parse::<u32>()
}

/// Tells whether a token spells a number, of whatever size.
pub fn is_number(token: &str) -> (yes: bool)
    ensures
        yes == spells_number(token@),
{
    let mut signed = false;
    let mut digits = false;
    let mut clean = true;
    for c in it: token.chars()
        invariant
            it.seq() == token@,
            signed == (sign_len(token@) == 1 && it.index() >= 1),
            it.index() >= 1 ==> sign_len(token@) == (if signed { 1int } else { 0int }),
            digits == (it.index() > sign_len(token@)),
            clean == (forall|i: int|
                sign_len(token@) <= i < it.index() ==> is_digit(#[trigger] token@[i])),
    {
        if !signed && !digits && c == '+' {
            signed = true;
        } else {
            digits = true;
            if !('0' <= c && c <= '9') {
                clean = false;
            }
        }
    }
    digits && clean
}

/// The length of the run of characters other than white space that `text`
/// starts with.
pub open spec fn leading_run(text: Seq<char>) -> nat
    decreases text.len(),
{
    if text.len() == 0 || white_space(text[0]) {
        0
    } else {
        1 + leading_run(text.drop_first())
    }
}

/// The run that a text starts with is no longer than the text.
pub proof fn lemma_leading_run_fits(text: Seq<char>)
    ensures
        leading_run(text) <= text.len(),
    decreases text.len(),
{
    if text.len() != 0 && !white_space(text[0]) {
        lemma_leading_run_fits(text.drop_first());
    }
}

/// The tokens of a line: its longest runs of characters other than white
/// space, in the order in which they stand.
pub open spec fn tokens(text: Seq<char>) -> Seq<Seq<char>>
    decreases text.len(),
    via tokens_decreases
{
    if text.len() == 0 {
        Seq::empty()
    } else if white_space(text[0]) {
        tokens(text.drop_first())
    } else {
        let run = leading_run(text) as int;
        seq![text.take(run)] + tokens(text.skip(run))
    }
}

#[via_fn]
proof fn tokens_decreases(text: Seq<char>) {
    lemma_leading_run_fits(text);
}

/// Where a run of characters other than white space is followed by white
/// space or by the end of the line, the run is the first token.
pub proof fn lemma_first_token(run: Seq<char>, rest: Seq<char>)
    requires
        forall|i: int| 0 <= i < run.len() ==> !white_space(#[trigger] run[i]),
        rest.len() == 0 || white_space(rest[0]),
    ensures
        leading_run(run + rest) == run.len(),
        run.len() > 0 ==> tokens(run + rest) == seq![run] + tokens(rest),
    decreases run.len(),
{
    let text = run + rest;
    if run.len() == 0 {
        assert(text =~= rest);
    } else {
        assert(text.drop_first() =~= run.drop_first() + rest);
        lemma_first_token(run.drop_first(), rest);
        assert(text.take(run.len() as int) =~= run);
        assert(text.skip(run.len() as int) =~= rest);
    }
}

/// The run that a text starts with holds no white space.
pub proof fn lemma_leading_run_is_clean(text: Seq<char>)
    ensures
        forall|j: int| 0 <= j < leading_run(text) ==> !white_space(#[trigger] text[j]),
    decreases text.len(),
{
    lemma_leading_run_fits(text);
    if text.len() != 0 && !white_space(text[0]) {
        let rest = text.drop_first();
        lemma_leading_run_is_clean(rest);
        lemma_leading_run_fits(rest);
        assert forall|j: int| 0 <= j < leading_run(text) implies !white_space(
            #[trigger] text[j],
        ) by {
            if j > 0 {
                assert(text[j] == rest[j - 1]);
            }
        }
    }
}

/// Whether `token` is a run of one or more characters other than white
/// space.
pub open spec fn is_run(token: Seq<char>) -> bool {
    &&& token.len() > 0
    &&& forall|j: int| 0 <= j < token.len() ==> !white_space(#[trigger] token[j])
}

/// No token is empty, and no token holds white space.
pub proof fn lemma_tokens_are_runs(text: Seq<char>)
    ensures
        forall|i: int| 0 <= i < tokens(text).len() ==> is_run(#[trigger] tokens(text)[i]),
    decreases text.len(),
{
    if text.len() == 0 {
    } else if white_space(text[0]) {
        lemma_tokens_are_runs(text.drop_first());
        assert(tokens(text) == tokens(text.drop_first()));
    } else {
        let run = leading_run(text) as int;
        let first = text.take(run);
        let others = tokens(text.skip(run));
        lemma_leading_run_fits(text);
        lemma_leading_run_is_clean(text);
        lemma_tokens_are_runs(text.skip(run));
        assert(tokens(text) == seq![first] + others);
        assert forall|i: int| 0 <= i < tokens(text).len() implies is_run(
            #[trigger] tokens(text)[i],
        ) by {
            if i > 0 {
                assert(tokens(text)[i] == others[i - 1]);
            }
        }
    }
}

/// The characters of each string of `strings`.
pub open spec fn views(strings: Seq<String>) -> Seq<Seq<char>> {
    strings.map_values(|s: String| s@)
}

/// Splits a line into its tokens.
pub fn split(line: &str) -> (parts: Vec<String>)
    ensures
        views(parts@) == tokens(line@),
{
    let mut parts: Vec<String> = Vec::new();
    let mut pending = String::new();
    proof {
        assert(pending@ + line@.skip(0) =~= line@);
    }
    for c in it: line.chars()
        invariant
            it.seq() == line@,
            forall|i: int| 0 <= i < pending@.len() ==> !white_space(#[trigger] pending@[i]),
            tokens(line@) == views(parts@) + tokens(pending@ + line@.skip(it.index() as int)),
    {
        let ghost rest = line@.skip(it.index() as int);
        let ghost after = line@.skip(it.index() + 1);
        proof {
            assert(rest.drop_first() =~= after);
        }
        if c.is_whitespace() {
            proof {
                lemma_first_token(pending@, rest);
                assert(Seq::<char>::empty() + after =~= after);
            }
            if !pending.as_str().is_empty() {
                let ghost before = views(parts@);
                let ghost token = pending@;
                parts.push(pending);
                pending = String::new();
                proof {
                    assert(views(parts@) =~= before + seq![token]);
                }
            }
        } else {
            let ghost before = pending@;
            pending.push(c);
            proof {
                assert(pending@ + after =~= before + rest);
            }
        }
    }
    proof {
        lemma_first_token(pending@, Seq::empty());
        assert(line@.skip(line@.len() as int) =~= Seq::<char>::empty());
    }
    if !pending.as_str().is_empty() {
        let ghost before = views(parts@);
        let ghost token = pending@;
        parts.push(pending);
        proof {
            assert(views(parts@) =~= before + seq![token]);
        }
    }
    parts
}

/// The durations that the tokens stand for, or the failure of the first
/// token that spells no number.
pub open spec fn durations(tokens: Seq<Seq<char>>) -> Result<Seq<u32>, DecoderError>
    decreases tokens.len(),
{
    if tokens.len() == 0 {
        Ok(Seq::empty())
    } else {
        match durations(tokens.drop_last()) {
            Err(e) => Err(e),
            Ok(before) => match duration_of(tokens.last()) {
                None => Err(DecoderError::ParseIntError(parse_failure(tokens.last()))),
                Some(duration) => Ok(before.push(duration)),
            },
        }
    }
}

/// A failure among the first `len` tokens is the failure of them all.
pub proof fn lemma_failure_stays(tokens: Seq<Seq<char>>, len: int)
    requires
        0 <= len <= tokens.len(),
        durations(tokens.take(len)) is Err,
    ensures
        durations(tokens) == durations(tokens.take(len)),
    decreases tokens.len(),
{
    if len < tokens.len() {
        assert(tokens.drop_last().take(len) =~= tokens.take(len));
        lemma_failure_stays(tokens.drop_last(), len);
    } else {
        assert(tokens.take(len) =~= tokens);
    }
}

/// The duration that the token at `index` stands for, if it spells a
/// number.
pub open spec fn token_duration(tokens: Seq<Seq<char>>, index: int) -> Option<u32> {
    duration_of(tokens[index])
}

/// The tokens give durations exactly when each of them spells a number,
/// and then the durations are theirs, in order. Where one does not, the
/// failure is that of the first such token.
pub proof fn lemma_durations(tokens: Seq<Seq<char>>)
    ensures
        match durations(tokens) {
            Ok(timings) => {
                &&& timings.len() == tokens.len()
                &&& forall|i: int|
                    0 <= i < tokens.len() ==> #[trigger] token_duration(tokens, i) == Some(
                        timings[i],
                    )
            },
            Err(e) => exists|i: int|
                {
                    &&& 0 <= i < tokens.len()
                    &&& #[trigger] token_duration(tokens, i) is None
                    &&& e == DecoderError::ParseIntError(parse_failure(tokens[i]))
                    &&& forall|j: int|
                        0 <= j < i ==> #[trigger] token_duration(tokens, j) is Some
                },
        },
    decreases tokens.len(),
{
    if tokens.len() > 0 {
        let before = tokens.drop_last();
        let last = tokens.len() - 1;
        lemma_durations(before);
        assert forall|i: int| 0 <= i < last implies token_duration(before, i)
            == #[trigger] token_duration(tokens, i) by {}
        match durations(before) {
            Ok(_) => {
                if duration_of(tokens.last()) is None {
                    assert(token_duration(tokens, last) is None);
                }
            },
            Err(e) => {
                let i = choose|i: int|
                    {
                        &&& 0 <= i < before.len()
                        &&& #[trigger] token_duration(before, i) is None
                        &&& e == DecoderError::ParseIntError(parse_failure(before[i]))
                        &&& forall|j: int|
                            0 <= j < i ==> #[trigger] token_duration(before, j) is Some
                    };
                assert(token_duration(tokens, i) is None);
            },
        }
    }
}

/// Reads the duration that each token stands for. A token that the
/// standard library's parser refuses only for its size still spells a
/// number: it gives the largest duration.
pub fn parse_timings(parts: &Vec<String>) -> (outcome: Result<Vec<u32>, DecoderError>)
    ensures
        match outcome {
            Ok(timings) => durations(views(parts@)) == Ok::<Seq<u32>, DecoderError>(timings@),
            Err(e) => durations(views(parts@)) == Err::<Seq<u32>, DecoderError>(e),
        },
{
    let mut timings: Vec<u32> = Vec::new();
    let ghost all = views(parts@);
    proof {
        assert(all.take(0) =~= Seq::<Seq<char>>::empty());
    }
    let mut index: usize = 0;
    while index < parts.len()
        invariant
            index <= parts.len(),
            all == views(parts@),
            durations(all.take(index as int)) == Ok::<Seq<u32>, DecoderError>(timings@),
        decreases parts.len() - index,
    {
        proof {
            let next = all.take(index + 1);
            assert(next.drop_last() =~= all.take(index as int));
            assert(next.last() == parts@[index as int]@);
        }
        let token = parts[index].as_str();
        match parse_u32(token) {
            Ok(number) => {
                timings.push(number);
            },
            Err(e) => {
                if is_number(token) {
                    timings.push(u32::MAX);
                } else {
                    proof {
                        lemma_failure_stays(all, index + 1);
                    }
                    return Err(DecoderError::from(e));
                }
            },
        }
        index += 1;
    }
    proof {
        assert(all.take(index as int) =~= all);
    }
    Ok(timings)
}

} // verus!
