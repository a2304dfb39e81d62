//! What the tools answer with.

use crate::json::{Json, JsonView};
use crate::text::{
    byte_len, byte_length, byte_prefix, decimal, decimal_text, lemma_byte_len_concat,
    lemma_byte_len_push, lemma_byte_prefix_longest, truncate_bytes,
};
use vstd::prelude::*;
use vstd::string::*;

verus! {

/// A text of at most `max` bytes: a longer one is cut where a character ends,
/// and a mark is set behind it.
pub open spec fn cut(s: Seq<char>, max: nat) -> Seq<char> {
    if byte_len(s) <= max {
        s
    } else {
        byte_prefix(s, max) + "…"@
    }
}

/// A text of at most `max` bytes, and the mark where it is cut.
pub fn cap_bytes(s: &str, max: usize) -> (r: String)
    ensures
        r@ == cut(s@, max as nat),
{
    if byte_length(s) <= max {
        return s.to_owned();
    }
    let mut short = truncate_bytes(s, max);
    short.append("…");
    short
}

/// What is cut is no larger than the limit and the mark, begins as the text
/// did, and could not hold a character more of it.
pub proof fn law_cut_is_short(s: Seq<char>, max: nat)
    ensures
        byte_len(cut(s, max)) <= max + 3,
        byte_len(s) <= max ==> cut(s, max) == s,
        byte_len(s) > max ==> exists|k: int|
            0 <= k < s.len() && cut(s, max) == #[trigger] s.take(k) + "…"@ && byte_len(s.take(k))
                <= max < byte_len(s.take(k + 1)),
{
    if byte_len(s) > max {
        let kept = byte_prefix(s, max);
        let k = kept.len() as int;
        lemma_byte_prefix_longest(s, max);
        if k == s.len() {
            assert(s.take(k) =~= s);
        }
        assert(cut(s, max) == s.take(k) + "…"@);
        reveal_strlit("…");
        assert("…"@ =~= Seq::<char>::empty().push('…'));
        lemma_byte_len_push(Seq::<char>::empty(), '…');
        lemma_byte_len_concat(kept, "…"@);
    }
}

/// A number in decimal, with its sign where it is negative.
pub open spec fn signed_decimal(n: int) -> Seq<char> {
    if n < 0 {
        "-"@ + decimal((-n) as nat)
    } else {
        decimal(n as nat)
    }
}

/// A number in decimal, with its sign where it is negative.
pub fn signed_text(n: i32) -> (r: String)
    ensures
        r@ == signed_decimal(n as int),
{
    if n < 0 {
        let mut m = "-".to_owned();
        let digits = decimal_text((-(n as i64)) as u64);
        m.append(digits.as_str());
        m
    } else {
        decimal_text(n as u64)
    }
}

/// A number as a JSON value.
pub open spec fn signed_value(n: int) -> JsonView {
    if n < 0 {
        JsonView::Negative(n as i64)
    } else {
        JsonView::Unsigned(n as u64)
    }
}

/// A number as a JSON value.
pub fn signed_json(n: i32) -> (r: Json)
    ensures
        r@ == signed_value(n as int),
{
    if n < 0 {
        Json::Negative(n as i64)
    } else {
        Json::Unsigned(n as u64)
    }
}

/// The exit code of a program; one that a signal ended has none.
pub open spec fn code_or_none(code: Option<i32>) -> int {
    match code {
        Some(c) => c as int,
        None => -1,
    }
}

/// The exit code of a program; one that a signal ended has none.
pub fn exit_code(code: Option<i32>) -> (r: i32)
    ensures
        r == code_or_none(code),
{
    match code {
        Some(c) => c,
        None => -1,
    }
}

/// Numbers keep their sign, and a program that left no code behind has ended
/// with minus one.
pub proof fn law_codes_are_written_with_their_sign(n: i32)
    ensures
        n >= 0 ==> signed_decimal(n as int) == decimal(n as nat),
        n < 0 ==> signed_decimal(n as int) == "-"@ + decimal((-n) as nat),
        n >= 0 ==> signed_value(n as int) == JsonView::Unsigned(n as u64),
        n < 0 ==> signed_value(n as int) == JsonView::Negative(n as i64),
        code_or_none(Some(n)) == n,
        code_or_none(None) == -1,
{
}

} // verus!
