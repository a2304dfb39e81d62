//! Identifiers as text.

use crate::types::AgentId;
use vstd::prelude::*;

verus! {

/// A hexadecimal digit, in lower case.
pub open spec fn hex_digit(n: nat) -> char {
    if n < 10 {
        (48 + n) as u8 as char
    } else {
        (87 + n) as u8 as char
    }
}

/// The last `len` hexadecimal digits of a number.
pub open spec fn hex_digits(n: nat, len: nat) -> Seq<char>
    decreases len,
{
    if len == 0 {
        Seq::empty()
    } else {
        hex_digits(n / 16, (len - 1) as nat).push(hex_digit(n % 16))
    }
}

/// A UUID as text: its 32 hexadecimal digits in five groups.
pub open spec fn hyphenated(uuid: u128) -> Seq<char> {
    let d = hex_digits(uuid as nat, 32);
    d.subrange(0, 8) + seq!['-'] + d.subrange(8, 12) + seq!['-'] + d.subrange(12, 16) + seq!['-']
        + d.subrange(16, 20) + seq!['-'] + d.subrange(20, 32)
}

/// The UUID that `uuid` reads from a text, where it reads one.
pub uninterp spec fn uuid_value(t: Seq<char>) -> Option<u128>;

/// `<uuid::Uuid as Display>::to_string`: the hyphenated form in lower case,
/// from which `uuid::Uuid::parse_str` reads the same UUID.
#[verifier::external_body]
pub(crate) fn write_uuid(uuid: u128) -> (r: String)
    ensures
        r@ == hyphenated(uuid),
        uuid_value(r@) == Some(uuid),
{
    uuid::Uuid::from_u128(uuid).to_string()
}

/// `uuid::Uuid::parse_str`: the UUID that a text writes in one of the forms
/// that it knows, or nothing. Which it is depends on the text alone.
#[verifier::external_body]
pub(crate) fn read_uuid(t: &str) -> (r: Option<u128>)
    ensures
        r == uuid_value(t@),
{
    uuid::Uuid::parse_str(t).ok().map(|u| u.as_u128())
}

/// What is said of a text that `uuid` reads no UUID from.
pub uninterp spec fn uuid_fault(t: Seq<char>) -> Seq<char>;

/// `serde_json::from_value` of a text, to a `uuid::Uuid`: the UUID that
/// `uuid::Uuid::parse_str` reads from it, or else the words of the error.
/// Which they are depends on the text alone.
#[verifier::external_body]
pub(crate) fn uuid_from_json(t: &str) -> (r: Result<u128, String>)
    ensures
        match r {
            Ok(id) => uuid_value(t@) == Some(id),
            Err(e) => uuid_value(t@) is None && e@ == uuid_fault(t@),
        },
{
    serde_json::from_value::<uuid::Uuid>(serde_json::Value::from(t))
        .map(|u| u.as_u128())
        .map_err(|e| e.to_string())
}

/// A number without its last `len` hexadecimal digits.
spec fn shifted(n: nat, len: nat) -> nat
    decreases len,
{
    if len == 0 {
        n
    } else {
        shifted(n / 16, (len - 1) as nat)
    }
}

proof fn lemma_hex_digits(a: nat, b: nat, len: nat)
    requires
        hex_digits(a, len) == hex_digits(b, len),
        shifted(a, len) == shifted(b, len),
    ensures
        a == b,
    decreases len,
{
    if len > 0 {
        let shorter = (len - 1) as nat;
        let x = hex_digits(a, len);
        let y = hex_digits(b, len);
        assert(x.last() == y.last());
        assert(x.drop_last() =~= hex_digits(a / 16, shorter));
        assert(y.drop_last() =~= hex_digits(b / 16, shorter));
        lemma_hex_digits(a / 16, b / 16, shorter);
    }
}

proof fn lemma_hex_digits_len(n: nat, len: nat)
    ensures
        hex_digits(n, len).len() == len,
    decreases len,
{
    if len > 0 {
        lemma_hex_digits_len(n / 16, (len - 1) as nat);
    }
}

/// Two identities have the same text only if they are the same.
pub proof fn law_identities_have_their_own_text(a: AgentId, b: AgentId)
    requires
        hyphenated(a.uuid) == hyphenated(b.uuid),
    ensures
        a == b,
{
    let d = hex_digits(a.uuid as nat, 32);
    let e = hex_digits(b.uuid as nat, 32);
    lemma_hex_digits_len(a.uuid as nat, 32);
    lemma_hex_digits_len(b.uuid as nat, 32);
    let x = hyphenated(a.uuid);
    let y = hyphenated(b.uuid);
    assert forall|i: int| 0 <= i < 32 implies d[i] == e[i] by {
        let k = if i < 8 {
            i
        } else if i < 12 {
            i + 1
        } else if i < 16 {
            i + 2
        } else if i < 20 {
            i + 3
        } else {
            i + 4
        };
        assert(x[k] == d[i]);
        assert(y[k] == e[i]);
    }
    assert(d =~= e);
    reveal_with_fuel(shifted, 33);
    lemma_hex_digits(a.uuid as nat, b.uuid as nat, 32);
}

impl AgentId {
    /// The identity as text.
    pub fn to_text(&self) -> (r: String)
        ensures
            r@ == hyphenated(self.uuid),
    {
        write_uuid(self.uuid)
    }
}

/// Digits are written one by one, the greatest first, in sixteens.
pub proof fn law_digits_are_written_in_sixteens(n: nat, d: nat, len: nat)
    requires
        d < 16,
    ensures
        hex_digits(n * 16 + d, len + 1) == hex_digits(n, len).push(hex_digit(d)),
        hex_digits(n, len).len() == len,
        d < 10 ==> hex_digit(d) as nat == '0' as nat + d,
        d >= 10 ==> hex_digit(d) as nat == 'a' as nat + d - 10,
{
    lemma_hex_digits_len(n, len);
    assert((n * 16 + d) / 16 == n);
    assert((n * 16 + d) % 16 == d);
}

/// An identity is written as its digits in five groups, with a hyphen between
/// them.
pub proof fn law_identity_is_written_in_groups(uuid: u128)
    ensures
        ({
            let t = hyphenated(uuid);
            let d = hex_digits(uuid as nat, 32);
            &&& t.len() == 36
            &&& t[8] == '-' && t[13] == '-' && t[18] == '-' && t[23] == '-'
            &&& t.subrange(0, 8) + t.subrange(9, 13) + t.subrange(14, 18) + t.subrange(19, 23)
                + t.subrange(24, 36) == d
        }),
{
    lemma_hex_digits_len(uuid as nat, 32);
    let t = hyphenated(uuid);
    let d = hex_digits(uuid as nat, 32);
    assert(t.subrange(0, 8) =~= d.subrange(0, 8));
    assert(t.subrange(9, 13) =~= d.subrange(8, 12));
    assert(t.subrange(14, 18) =~= d.subrange(12, 16));
    assert(t.subrange(19, 23) =~= d.subrange(16, 20));
    assert(t.subrange(24, 36) =~= d.subrange(20, 32));
    assert(d.subrange(0, 8) + d.subrange(8, 12) + d.subrange(12, 16) + d.subrange(16, 20)
        + d.subrange(20, 32) =~= d);
}

} // verus!
