//! The textual form of a duration.
//!
//! A duration is written `NUMBER` (nanoseconds) or `NUMBER UNIT`, the two
//! tokens separated by white space, with `UNIT` one of `s`, `ms`, `us`,
//! `ns`. This module splits such a text into its tokens, reports a wrong
//! token count or an unknown unit, and gives the factor that turns the
//! number into nanoseconds. Reading the number itself is left to the caller,
//! who reports whether it succeeded.

use vstd::prelude::*;
use crate::units::{TimeUnit, nanos_per, unit_of_suffix};

verus! {

/// Unicode white space, as `char::is_whitespace` has it.
pub open spec fn white_space(c: char) -> bool {
    let u = c as u32;
    (0x09 <= u && u <= 0x0D) || u == 0x20 || u == 0x85 || u == 0xA0 || u == 0x1680 || (0x2000
        <= u && u <= 0x200A) || u == 0x2028 || u == 0x2029 || u == 0x202F || u == 0x205F || u
        == 0x3000
}

/// Whether `c` is Unicode white space.
pub fn is_white_space(c: char) -> (r: bool)
    ensures
        r == white_space(c),
{
    let u = c as u32;
    (0x09 <= u && u <= 0x0D) || u == 0x20 || u == 0x85 || u == 0xA0 || u == 0x1680 || (0x2000
        <= u && u <= 0x200A) || u == 0x2028 || u == 0x2029 || u == 0x202F || u == 0x205F || u
        == 0x3000
}

/// The spans `(start, end)` of the maximal runs of non-white-space
/// characters of `s`, from left to right.
pub open spec fn token_spans(s: Seq<char>) -> Seq<(int, int)>
    decreases s.len(),
{
    if s.len() == 0 {
        seq![]
    } else {
        let prev = token_spans(s.drop_last());
        let n = s.len() as int;
        if white_space(s[n - 1]) {
            prev
        } else if n >= 2 && !white_space(s[n - 2]) {
            prev.update(prev.len() - 1, (prev.last().0, n))
        } else {
            prev.push((n - 1, n))
        }
    }
}

/// The white-space separated tokens of `s`, in order.
pub open spec fn tokens(s: Seq<char>) -> Seq<Seq<char>> {
    token_spans(s).map_values(|p: (int, int)| s.subrange(p.0, p.1))
}

/// Why a duration text was refused.
#[derive(Clone, Copy, Debug, PartialEq, Eq, Structural)]
pub enum TimeParseError {
    /// The number token is not a number.
    MalformedNumber,
    /// The unit token is none of `s`, `ms`, `us`, `ns`.
    UnknownUnit,
    /// The text holds neither one nor two tokens.
    MalformedFormat,
}

/// The tokens of a duration text: a number and, optionally, a unit.
pub struct TimeText {
    pub number: String,
    pub unit: Option<String>,
}

/// The unit token of `t`, as characters.
pub open spec fn unit_view(t: &TimeText) -> Option<Seq<char>> {
    match t.unit {
        Some(u) => Some(u@),
        None => None,
    }
}

/// The factor to nanoseconds of a text whose number token read well or not
/// (`number_ok`) and whose unit token is `unit`. The number is judged first.
pub open spec fn time_scale_of(number_ok: bool, unit: Option<Seq<char>>) -> Result<
    u64,
    TimeParseError,
> {
    if !number_ok {
        Err(TimeParseError::MalformedNumber)
    } else {
        match unit {
            None => Ok(1),
            Some(t) => match unit_of_suffix(t) {
                Some(u) => Ok(nanos_per(u)),
                None => Err(TimeParseError::UnknownUnit),
            },
        }
    }
}

/// The text that stands for a number token of nanoseconds.
pub open spec fn encoded(number: Seq<char>) -> Seq<char> {
    number + seq![' ', 'n', 's']
}

fn token_spans_of(s: &str) -> (spans: Vec<(usize, usize)>)
    ensures
        spans@.len() == token_spans(s@).len(),
        forall|k: int|
            0 <= k < spans@.len() ==> (#[trigger] spans@[k]).0 as int == token_spans(s@)[k].0
                && spans@[k].1 as int == token_spans(s@)[k].1,
        forall|k: int| 0 <= k < spans@.len() ==> (#[trigger] spans@[k]).0 <= spans@[k].1 <= s@.len(),
{
    let n = s.unicode_len();
    let mut spans: Vec<(usize, usize)> = Vec::new();
    let mut in_token = false;
    let mut i: usize = 0;
    assert(s@.take(0) =~= Seq::<char>::empty());
    while i < n
        invariant
            n == s@.len(),
            0 <= i <= n,
            in_token == (i > 0 && !white_space(s@[i - 1])),
            spans@.len() == token_spans(s@.take(i as int)).len(),
            forall|k: int|
                0 <= k < spans@.len() ==> (#[trigger] spans@[k]).0 as int == token_spans(
                    s@.take(i as int),
                )[k].0 && spans@[k].1 as int == token_spans(s@.take(i as int))[k].1,
            forall|k: int| 0 <= k < spans@.len() ==> (#[trigger] spans@[k]).0 < spans@[k].1 <= i,
            in_token ==> spans@.len() > 0 && spans@.last().1 == i,
        decreases n - i,
    {
        let c = s.get_char(i);
        let ghost t = s@.take(i + 1);
        assert(t.drop_last() =~= s@.take(i as int));
        assert(t[i as int] == c);
        if i > 0 {
            assert(t[i - 1] == s@[i - 1]);
        }
        if is_white_space(c) {
            in_token = false;
        } else if in_token {
            let last = spans.len() - 1;
            let st = spans[last].0;
            spans.set(last, (st, i + 1));
            in_token = true;
        } else {
            spans.push((i, i + 1));
            in_token = true;
        }
        i = i + 1;
    }
    assert(s@.take(n as int) =~= s@);
    spans
}

impl TimeText {
    /// Splits a duration text into its tokens. Fails with `MalformedFormat`
    /// exactly when the text holds neither one nor two tokens.
    pub fn split(s: &str) -> (r: Result<TimeText, TimeParseError>)
        ensures
            r is Err <==> !(tokens(s@).len() == 1 || tokens(s@).len() == 2),
            r is Err ==> r->Err_0 == TimeParseError::MalformedFormat,
            r is Ok ==> r->Ok_0.number@ == tokens(s@)[0],
            r is Ok ==> (unit_view(&r->Ok_0) == if tokens(s@).len() == 2 {
                Some(tokens(s@)[1])
            } else {
                None::<Seq<char>>
            }),
    {
        let spans = token_spans_of(s);
        if spans.len() == 1 || spans.len() == 2 {
            let a = spans[0].0;
            let b = spans[0].1;
            let number = s.substring_char(a, b).to_owned();
            let unit = if spans.len() == 2 {
                let c = spans[1].0;
                let d = spans[1].1;
                Some(s.substring_char(c, d).to_owned())
            } else {
                None
            };
            Ok(TimeText { number, unit })
        } else {
            Err(TimeParseError::MalformedFormat)
        }
    }

    /// The factor that turns this text's number into nanoseconds. The caller
    /// tells whether the number token read as a number (`number_ok`).
    pub fn scale(&self, number_ok: bool) -> (r: Result<u64, TimeParseError>)
        ensures
            r == time_scale_of(number_ok, unit_view(self)),
    {
        if !number_ok {
            return Err(TimeParseError::MalformedNumber);
        }
        match &self.unit {
            None => Ok(1),
            Some(t) => match TimeUnit::from_suffix(t.as_str()) {
                Some(u) => Ok(u.nanos_per_unit()),
                None => Err(TimeParseError::UnknownUnit),
            },
        }
    }
}

/// The text for a number token of nanoseconds: the token, a space, `ns`.
pub fn encode_time_text(number: &str) -> (r: String)
    ensures
        r@ == encoded(number@),
{
    let mut r = number.to_owned();
    r.append(" ns");
    proof {
        reveal_strlit(" ns");
    }
    assert(r@ =~= encoded(number@));
    r
}

proof fn lemma_single_token(n: Seq<char>)
    requires
        n.len() > 0,
        forall|i: int| 0 <= i < n.len() ==> !white_space(#[trigger] n[i]),
    ensures
        token_spans(n) == seq![(0int, n.len() as int)],
    decreases n.len(),
{
    let p = n.drop_last();
    if n.len() == 1 {
        assert(token_spans(p) == Seq::<(int, int)>::empty());
        assert(token_spans(n) =~= seq![(0int, 1int)]);
    } else {
        assert forall|i: int| 0 <= i < p.len() implies !white_space(#[trigger] p[i]) by {
            assert(p[i] == n[i]);
        }
        lemma_single_token(p);
        assert(!white_space(n[n.len() - 2]));
        assert(token_spans(n) =~= seq![(0int, n.len() as int)]);
    }
}

/// A number token without white space comes back from its encoded text as
/// the first of two tokens; the second is `ns`, which scales by one.
pub proof fn lemma_time_text_round_trip(number: Seq<char>)
    requires
        number.len() > 0,
        forall|i: int| 0 <= i < number.len() ==> !white_space(#[trigger] number[i]),
    ensures
        tokens(encoded(number)) == seq![number, seq!['n', 's']],
        time_scale_of(true, Some(tokens(encoded(number))[1])) == Ok::<u64, TimeParseError>(1),
{
    let l = number.len() as int;
    let m = encoded(number);
    let m1 = number + seq![' ', 'n'];
    let m2 = number + seq![' '];
    assert(m.drop_last() =~= m1);
    assert(m1.drop_last() =~= m2);
    assert(m2.drop_last() =~= number);
    lemma_single_token(number);
    assert(white_space(' '));
    assert(!white_space('n'));
    assert(!white_space('s'));
    assert(token_spans(m2) == seq![(0int, l)]);
    assert(m1[l + 1] == 'n' && m1[l] == ' ');
    assert(token_spans(m1) =~= seq![(0int, l), (l + 1, l + 2)]);
    assert(m[l + 2] == 's' && m[l + 1] == 'n');
    assert(token_spans(m) =~= seq![(0int, l), (l + 1, l + 3)]);
    assert(m.subrange(0, l) =~= number);
    assert(m.subrange(l + 1, l + 3) =~= seq!['n', 's']);
    assert(tokens(m) =~= seq![number, seq!['n', 's']]);
}

} // verus!
