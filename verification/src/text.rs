//! Text operations, stated over sequences of characters.
//!
//! Offsets and lengths are counted in characters here; `byte_len` gives the
//! size of a text in UTF-8, which is what every size limit is measured in.

use vstd::prelude::*;
use vstd::string::*;
use vstd::utf8::*;

verus! {

/// `String::push`: the character goes to the end of the text.
pub assume_specification[ std::string::String::push ](s: &mut std::string::String, c: char)
    ensures
        final(s)@ == old(s)@.push(c),
;

/// The text that bytes are read as, whatever they are.
pub uninterp spec fn lossy_text(bytes: Seq<u8>) -> Seq<char>;

/// `String::from_utf8_lossy`: the text depends on the bytes alone. Bytes that
/// are UTF-8 are read as the text that they are; what stands for bytes that
/// are not is left open.
#[verifier::external_body]
pub(crate) fn read_lossy(bytes: &Vec<u8>) -> (r: String)
    ensures
        r@ == lossy_text(bytes@),
        valid_utf8(bytes@) ==> encode_utf8(r@) == bytes@,
{
    String::from_utf8_lossy(bytes).into_owned()
}

/// Size of a text in UTF-8 bytes.
pub open spec fn byte_len(s: Seq<char>) -> nat {
    encode_utf8(s).len()
}

/// Size of one character in UTF-8 bytes.
pub open spec fn char_width(c: char) -> nat {
    if c as u32 <= 0x7f {
        1
    } else if c as u32 <= 0x7ff {
        2
    } else if c as u32 <= 0xffff {
        3
    } else {
        4
    }
}

/// Whether `pat` stands in `s` at position `i`.
pub open spec fn occurs_at(s: Seq<char>, pat: Seq<char>, i: int) -> bool {
    &&& 0 <= i
    &&& i + pat.len() <= s.len()
    &&& s.subrange(i, i + pat.len()) == pat
}

/// Whether `pat` stands anywhere in `s`.
pub open spec fn contains_text(s: Seq<char>, pat: Seq<char>) -> bool {
    exists|i: int| occurs_at(s, pat, i)
}

/// Whether `s` begins with `pat`.
pub open spec fn begins_with(s: Seq<char>, pat: Seq<char>) -> bool {
    occurs_at(s, pat, 0)
}

/// Whether `s` ends with `pat`.
pub open spec fn ends_in(s: Seq<char>, pat: Seq<char>) -> bool {
    occurs_at(s, pat, s.len() - pat.len())
}

/// The position of the first character of `s` at or after `from` that equals `c`.
pub open spec fn char_position(s: Seq<char>, c: char, from: int) -> Option<int>
    decreases s.len() - from,
{
    if from < 0 || from >= s.len() {
        None
    } else if s[from] == c {
        Some(from)
    } else {
        char_position(s, c, from + 1)
    }
}

/// `s` with each occurrence of `pat`, found from the left without overlap, replaced by `with`.
pub open spec fn replaced(s: Seq<char>, pat: Seq<char>, with: Seq<char>) -> Seq<char>
    decreases s.len(),
{
    if pat.len() == 0 || s.len() == 0 {
        s
    } else if begins_with(s, pat) {
        with + replaced(s.skip(pat.len() as int), pat, with)
    } else {
        seq![s[0]] + replaced(s.skip(1), pat, with)
    }
}

/// How often `pat` is found in `s` from the left without overlap.
pub open spec fn occurrences(s: Seq<char>, pat: Seq<char>) -> nat
    decreases s.len(),
{
    if pat.len() == 0 || s.len() == 0 {
        0
    } else if begins_with(s, pat) {
        1 + occurrences(s.skip(pat.len() as int), pat)
    } else {
        occurrences(s.skip(1), pat)
    }
}

/// `s` with the first occurrence of `pat` replaced by `with`.
pub open spec fn replaced_once(s: Seq<char>, pat: Seq<char>, with: Seq<char>) -> Seq<char>
    decreases s.len(),
{
    if pat.len() == 0 || s.len() == 0 {
        s
    } else if begins_with(s, pat) {
        with + s.skip(pat.len() as int)
    } else {
        seq![s[0]] + replaced_once(s.skip(1), pat, with)
    }
}

/// Unicode white space.
pub open spec fn is_space(c: char) -> bool {
    let u = c as u32;
    ||| 0x9 <= u <= 0xd
    ||| u == 0x20
    ||| u == 0x85
    ||| u == 0xa0
    ||| u == 0x1680
    ||| 0x2000 <= u <= 0x200a
    ||| u == 0x2028
    ||| u == 0x2029
    ||| u == 0x202f
    ||| u == 0x205f
    ||| u == 0x3000
}

/// `s` without the white space at its start.
pub open spec fn trimmed_start(s: Seq<char>) -> Seq<char>
    decreases s.len(),
{
    if s.len() > 0 && is_space(s[0]) {
        trimmed_start(s.skip(1))
    } else {
        s
    }
}

/// `s` without the white space at its end.
pub open spec fn trimmed_end(s: Seq<char>) -> Seq<char>
    decreases s.len(),
{
    if s.len() > 0 && is_space(s.last()) {
        trimmed_end(s.drop_last())
    } else {
        s
    }
}

/// `s` without the white space at either end.
pub open spec fn trimmed(s: Seq<char>) -> Seq<char> {
    trimmed_end(trimmed_start(s))
}

/// The pieces of `s` between the separators `c`.
pub open spec fn split_pieces(s: Seq<char>, c: char) -> Seq<Seq<char>>
    decreases s.len(),
{
    match char_position(s, c, 0) {
        None => seq![s],
        Some(i) => if 0 <= i < s.len() {
            seq![s.take(i)] + split_pieces(s.skip(i + 1), c)
        } else {
            seq![s]
        },
    }
}

/// A line without its carriage return.
pub open spec fn without_cr(s: Seq<char>) -> Seq<char> {
    if s.len() > 0 && s.last() == '\r' {
        s.drop_last()
    } else {
        s
    }
}

/// The lines of `s`: each ends at a line feed or at the end of the text, a
/// carriage return before the line feed is dropped, and nothing after the
/// last line feed is no line.
pub open spec fn text_lines(s: Seq<char>) -> Seq<Seq<char>>
    decreases s.len(),
{
    if s.len() == 0 {
        Seq::empty()
    } else {
        match char_position(s, '\n', 0) {
            None => seq![s],
            Some(i) => if 0 <= i < s.len() {
                seq![without_cr(s.take(i))] + text_lines(s.skip(i + 1))
            } else {
                seq![s]
            },
        }
    }
}

/// The parts one after the other with `sep` between them.
pub open spec fn joined(parts: Seq<Seq<char>>, sep: Seq<char>) -> Seq<char>
    decreases parts.len(),
{
    if parts.len() == 0 {
        Seq::empty()
    } else if parts.len() == 1 {
        parts[0]
    } else {
        joined(parts.drop_last(), sep) + sep + parts.last()
    }
}

/// A decimal digit.
pub open spec fn digit(n: nat) -> char {
    (48 + n) as u8 as char
}

/// A number in decimal notation, without leading zeros.
pub open spec fn decimal(n: nat) -> Seq<char>
    decreases n,
{
    if n < 10 {
        seq![digit(n)]
    } else {
        decimal(n / 10).push(digit(n % 10))
    }
}

/// The order of texts by their characters' code points.
pub open spec fn text_le(a: Seq<char>, b: Seq<char>) -> bool
    decreases a.len(),
{
    if a.len() == 0 {
        true
    } else if b.len() == 0 {
        false
    } else if a[0] != b[0] {
        a[0] < b[0]
    } else {
        text_le(a.skip(1), b.skip(1))
    }
}

/// Any two texts are ordered.
pub proof fn lemma_text_le_total(a: Seq<char>, b: Seq<char>)
    ensures
        text_le(a, b) || text_le(b, a),
    decreases a.len(),
{
    if a.len() > 0 && b.len() > 0 && a[0] == b[0] {
        lemma_text_le_total(a.skip(1), b.skip(1));
    }
}

/// The order of texts is transitive.
pub proof fn lemma_text_le_transitive(a: Seq<char>, b: Seq<char>, c: Seq<char>)
    requires
        text_le(a, b),
        text_le(b, c),
    ensures
        text_le(a, c),
    decreases a.len(),
{
    if a.len() > 0 && b.len() > 0 && c.len() > 0 && a[0] == b[0] && b[0] == c[0] {
        lemma_text_le_transitive(a.skip(1), b.skip(1), c.skip(1));
    }
}

/// Texts that come before each other are equal.
pub proof fn lemma_text_le_antisymmetric(a: Seq<char>, b: Seq<char>)
    requires
        text_le(a, b),
        text_le(b, a),
    ensures
        a == b,
    decreases a.len(),
{
    if a.len() > 0 && b.len() > 0 {
        lemma_text_le_antisymmetric(a.skip(1), b.skip(1));
        assert(a =~= seq![a[0]] + a.skip(1));
        assert(b =~= seq![b[0]] + b.skip(1));
    } else {
        assert(a =~= b);
    }
}

/// The longest prefix of `s` that fits in `max` bytes.
pub open spec fn byte_prefix(s: Seq<char>, max: nat) -> Seq<char>
    decreases s.len(),
{
    if byte_len(s) <= max || s.len() == 0 {
        s
    } else {
        byte_prefix(s.drop_last(), max)
    }
}

/// Views of a list of strings.
pub open spec fn views(v: Seq<String>) -> Seq<Seq<char>> {
    v.map_values(|s: String| s@)
}

proof fn lemma_encode_push(s: Seq<char>, c: char)
    ensures
        encode_utf8(s.push(c)) == encode_utf8(s) + encode_scalar(c as u32),
    decreases s.len(),
{
    if s.len() == 0 {
        assert(s.push(c).drop_first() =~= Seq::<char>::empty());
        assert(encode_utf8(Seq::<char>::empty()) =~= Seq::<u8>::empty());
        assert(encode_utf8(s.push(c)) =~= encode_scalar(c as u32));
    } else {
        assert(s.push(c).drop_first() =~= s.drop_first().push(c));
        lemma_encode_push(s.drop_first(), c);
    }
}

/// One more character makes a text larger by that character's width.
pub proof fn lemma_byte_len_push(s: Seq<char>, c: char)
    ensures
        byte_len(s.push(c)) == byte_len(s) + char_width(c),
{
    lemma_encode_push(s, c);
    char_is_scalar(c);
}

/// Sizes of texts add up.
pub proof fn lemma_byte_len_concat(s: Seq<char>, t: Seq<char>)
    ensures
        byte_len(s + t) == byte_len(s) + byte_len(t),
    decreases t.len(),
{
    if t.len() == 0 {
        assert(s + t =~= s);
    } else {
        assert(s + t =~= (s + t.drop_last()).push(t.last()));
        assert(t =~= t.drop_last().push(t.last()));
        lemma_byte_len_push(s + t.drop_last(), t.last());
        lemma_byte_len_push(t.drop_last(), t.last());
        lemma_byte_len_concat(s, t.drop_last());
    }
}

/// Two texts with the same bytes are the same text.
pub proof fn lemma_same_bytes(s: Seq<char>, t: Seq<char>)
    requires
        encode_utf8(s) == encode_utf8(t),
    ensures
        s == t,
{
    encode_utf8_decode_utf8(s);
    encode_utf8_decode_utf8(t);
}

/// The size of a text in bytes.
pub fn byte_length(s: &str) -> (n: usize)
    ensures
        n == byte_len(s@),
{
    s.as_bytes().len()
}

/// The characters of a text.
pub fn to_chars(s: &str) -> (r: Vec<char>)
    ensures
        r@ == s@,
{
    let mut out: Vec<char> = Vec::new();
    for c in it: s.chars()
        invariant
            out@ == it.seq().take(it.index()),
            it.seq() == s@,
    {
        out.push(c);
    }
    out
}

/// The text made of a range of characters.
pub fn from_range(v: &Vec<char>, start: usize, end: usize) -> (r: String)
    requires
        start <= end <= v@.len(),
    ensures
        r@ == v@.subrange(start as int, end as int),
{
    let mut out = String::new();
    let mut i: usize = start;
    while i < end
        invariant
            start <= i <= end <= v@.len(),
            out@ == v@.subrange(start as int, i as int),
        decreases end - i,
    {
        out.push(v[i]);
        i += 1;
    }
    out
}

/// Whether two texts are equal.
pub fn same(a: &str, b: &str) -> (r: bool)
    ensures
        r == (a@ == b@),
{
    let x = a.as_bytes();
    let y = b.as_bytes();
    if x.len() != y.len() {
        return false;
    }
    let mut i: usize = 0;
    while i < x.len()
        invariant
            x@ == encode_utf8(a@),
            y@ == encode_utf8(b@),
            x@.len() == y@.len(),
            0 <= i <= x@.len(),
            forall|j: int| 0 <= j < i ==> x@[j] == y@[j],
        decreases x@.len() - i,
    {
        if x[i] != y[i] {
            return false;
        }
        i += 1;
    }
    proof {
        assert(x@ =~= y@);
        lemma_same_bytes(a@, b@);
    }
    true
}

/// Whether a character is white space.
pub fn is_space_char(c: char) -> (r: bool)
    ensures
        r == is_space(c),
{
    let u: u32 = c as u32;
    (u >= 0x9 && u <= 0xd) || u == 0x20 || u == 0x85 || u == 0xa0 || u == 0x1680 || (u >= 0x2000
        && u <= 0x200a) || u == 0x2028 || u == 0x2029 || u == 0x202f || u == 0x205f || u == 0x3000
}

/// Whether `pat` stands in `s` at position `i`.
pub fn matches_at(s: &Vec<char>, pat: &Vec<char>, i: usize) -> (r: bool)
    requires
        i <= s@.len(),
    ensures
        r == occurs_at(s@, pat@, i as int),
{
    if pat.len() > s.len() - i {
        return false;
    }
    let mut k: usize = 0;
    while k < pat.len()
        invariant
            i + pat@.len() <= s@.len() <= usize::MAX,
            0 <= k <= pat@.len(),
            forall|j: int| 0 <= j < k ==> s@[i + j] == pat@[j],
        decreases pat@.len() - k,
    {
        if s[i + k] != pat[k] {
            assert(s@.subrange(i as int, i + pat@.len())[k as int] != pat@[k as int]);
            return false;
        }
        k += 1;
    }
    assert(s@.subrange(i as int, i + pat@.len()) =~= pat@);
    true
}

/// The first position at or after `from` that holds `c`.
pub fn find_char(s: &Vec<char>, c: char, from: usize) -> (r: Option<usize>)
    requires
        from <= s@.len(),
    ensures
        match r {
            Some(i) => char_position(s@, c, from as int) == Some(i as int) && from <= i < s@.len(),
            None => char_position(s@, c, from as int) is None,
        },
{
    let mut i: usize = from;
    while i < s.len()
        invariant
            from <= i <= s@.len(),
            char_position(s@, c, from as int) == char_position(s@, c, i as int),
        decreases s@.len() - i,
    {
        if s[i] == c {
            return Some(i);
        }
        i += 1;
    }
    None
}

/// What `char_position` finds is the first position with that character.
pub proof fn lemma_char_position(s: Seq<char>, c: char, from: int)
    requires
        0 <= from,
    ensures
        match char_position(s, c, from) {
            Some(i) => from <= i < s.len() && s[i] == c && forall|j: int|
                from <= j < i ==> s[j] != c,
            None => forall|j: int| from <= j < s.len() ==> s[j] != c,
        },
    decreases s.len() - from,
{
    if from < s.len() && s[from] != c {
        lemma_char_position(s, c, from + 1);
    }
}

/// Whether `s` begins with `pat`.
pub fn starts_with(s: &str, pat: &str) -> (r: bool)
    ensures
        r == begins_with(s@, pat@),
{
    let v = to_chars(s);
    let p = to_chars(pat);
    matches_at(&v, &p, 0)
}

/// The rest of `s` after `pat`, where `s` begins with it.
pub fn strip_prefix(s: &str, pat: &str) -> (r: Option<String>)
    ensures
        match r {
            Some(t) => begins_with(s@, pat@) && t@ == s@.skip(pat@.len() as int),
            None => !begins_with(s@, pat@),
        },
{
    let v = to_chars(s);
    let p = to_chars(pat);
    if matches_at(&v, &p, 0) {
        let t = from_range(&v, p.len(), v.len());
        assert(t@ =~= s@.skip(pat@.len() as int));
        Some(t)
    } else {
        None
    }
}

/// Whether `s` ends with `pat`.
pub fn ends_with(s: &str, pat: &str) -> (r: bool)
    ensures
        r == ends_in(s@, pat@),
{
    let v = to_chars(s);
    let p = to_chars(pat);
    if p.len() > v.len() {
        return false;
    }
    matches_at(&v, &p, v.len() - p.len())
}

/// Whether `pat` stands anywhere in `s`.
pub fn contains(s: &str, pat: &str) -> (r: bool)
    ensures
        r == contains_text(s@, pat@),
{
    let v = to_chars(s);
    let p = to_chars(pat);
    let mut i: usize = 0;
    while i < v.len()
        invariant
            v@ == s@,
            p@ == pat@,
            0 <= i <= v@.len(),
            forall|j: int| 0 <= j < i ==> !occurs_at(s@, pat@, j),
        decreases v@.len() - i,
    {
        if matches_at(&v, &p, i) {
            return true;
        }
        i += 1;
    }
    matches_at(&v, &p, v.len())
}

/// `s` with every occurrence of `pat` replaced by `with`.
pub fn replace_all(s: &str, pat: &str, with: &str) -> (r: String)
    requires
        pat@.len() > 0,
    ensures
        r@ == replaced(s@, pat@, with@),
{
    let v = to_chars(s);
    let p = to_chars(pat);
    let mut out = String::new();
    let mut i: usize = 0;
    assert(v@.skip(0) =~= s@);
    while i < v.len()
        invariant
            v@ == s@,
            p@ == pat@,
            pat@.len() > 0,
            0 <= i <= v@.len(),
            out@ + replaced(s@.skip(i as int), pat@, with@) == replaced(s@, pat@, with@),
        decreases v@.len() - i,
    {
        let ghost rest = s@.skip(i as int);
        let ghost before = out@;
        let here = matches_at(&v, &p, i);
        assert(begins_with(rest, pat@) == here) by {
            if i + pat@.len() <= s@.len() {
                assert(rest.subrange(0, pat@.len() as int) =~= s@.subrange(
                    i as int,
                    i + pat@.len(),
                ));
            }
        }
        if here {
            out.append(with);
            i += p.len();
            assert(rest.skip(pat@.len() as int) =~= s@.skip(i as int));
            assert(before + (with@ + replaced(s@.skip(i as int), pat@, with@)) =~= out@ + replaced(
                s@.skip(i as int),
                pat@,
                with@,
            ));
        } else {
            out.push(v[i]);
            i += 1;
            assert(rest.skip(1) =~= s@.skip(i as int));
            assert(before + (seq![rest[0]] + replaced(s@.skip(i as int), pat@, with@)) =~= out@
                + replaced(s@.skip(i as int), pat@, with@));
        }
    }
    assert(s@.skip(i as int) =~= Seq::<char>::empty());
    assert(out@ + Seq::<char>::empty() =~= out@);
    out
}

/// `s` with the first occurrence of `pat` replaced by `with`.
pub fn replace_first(s: &str, pat: &str, with: &str) -> (r: String)
    requires
        pat@.len() > 0,
    ensures
        r@ == replaced_once(s@, pat@, with@),
{
    let v = to_chars(s);
    let p = to_chars(pat);
    let mut out = String::new();
    let mut i: usize = 0;
    assert(v@.skip(0) =~= s@);
    while i < v.len()
        invariant
            v@ == s@,
            p@ == pat@,
            pat@.len() > 0,
            0 <= i <= v@.len(),
            out@ + replaced_once(s@.skip(i as int), pat@, with@) == replaced_once(s@, pat@, with@),
        decreases v@.len() - i,
    {
        let ghost rest = s@.skip(i as int);
        let ghost before = out@;
        let here = matches_at(&v, &p, i);
        assert(begins_with(rest, pat@) == here) by {
            if i + pat@.len() <= s@.len() {
                assert(rest.subrange(0, pat@.len() as int) =~= s@.subrange(
                    i as int,
                    i + pat@.len(),
                ));
            }
        }
        if here {
            out.append(with);
            let tail = from_range(&v, i + p.len(), v.len());
            out.append(tail.as_str());
            assert(tail@ =~= rest.skip(pat@.len() as int));
            assert(out@ =~= before + (with@ + rest.skip(pat@.len() as int)));
            return out;
        }
        out.push(v[i]);
        i += 1;
        assert(rest.skip(1) =~= s@.skip(i as int));
        assert(before + (seq![rest[0]] + replaced_once(s@.skip(i as int), pat@, with@)) =~= out@
            + replaced_once(s@.skip(i as int), pat@, with@));
    }
    assert(s@.skip(i as int) =~= Seq::<char>::empty());
    assert(out@ + Seq::<char>::empty() =~= out@);
    out
}

/// How often `pat` is found in `s` from the left without overlap.
pub fn count_occurrences(s: &str, pat: &str) -> (n: usize)
    requires
        pat@.len() > 0,
    ensures
        n == occurrences(s@, pat@),
        n <= s@.len(),
{
    let v = to_chars(s);
    let p = to_chars(pat);
    let mut n: usize = 0;
    let mut i: usize = 0;
    assert(v@.skip(0) =~= s@);
    while i < v.len()
        invariant
            v@ == s@,
            p@ == pat@,
            pat@.len() > 0,
            0 <= i <= v@.len(),
            n <= i,
            n + occurrences(s@.skip(i as int), pat@) == occurrences(s@, pat@),
        decreases v@.len() - i,
    {
        let ghost rest = s@.skip(i as int);
        let here = matches_at(&v, &p, i);
        assert(begins_with(rest, pat@) == here) by {
            if i + pat@.len() <= s@.len() {
                assert(rest.subrange(0, pat@.len() as int) =~= s@.subrange(
                    i as int,
                    i + pat@.len(),
                ));
            }
        }
        if here {
            n += 1;
            i += p.len();
            assert(rest.skip(pat@.len() as int) =~= s@.skip(i as int));
        } else {
            i += 1;
            assert(rest.skip(1) =~= s@.skip(i as int));
        }
    }
    assert(s@.skip(i as int) =~= Seq::<char>::empty());
    n
}

/// `s` without the white space at either end.
pub fn trim(s: &str) -> (r: String)
    ensures
        r@ == trimmed(s@),
{
    let v = to_chars(s);
    let mut a: usize = 0;
    assert(v@.skip(0) =~= s@);
    while a < v.len() && is_space_char(v[a])
        invariant
            0 <= a <= v@.len(),
            v@ == s@,
            trimmed_start(s@) == trimmed_start(s@.skip(a as int)),
        decreases v@.len() - a,
    {
        assert(s@.skip(a as int).skip(1) =~= s@.skip(a + 1));
        a += 1;
    }
    let mut b: usize = v.len();
    assert(trimmed_start(s@) == s@.skip(a as int));
    assert(s@.skip(a as int) =~= s@.subrange(a as int, b as int));
    while b > a && is_space_char(v[b - 1])
        invariant
            0 <= a <= b <= v@.len(),
            v@ == s@,
            trimmed(s@) == trimmed_end(s@.subrange(a as int, b as int)),
        decreases b,
    {
        assert(s@.subrange(a as int, b as int).drop_last() =~= s@.subrange(a as int, b - 1));
        b -= 1;
    }
    from_range(&v, a, b)
}

proof fn lemma_position_shift(s: Seq<char>, c: char, from: int, at: int)
    requires
        0 <= from <= at,
        from <= s.len(),
    ensures
        match char_position(s, c, at) {
            Some(k) => char_position(s.skip(from), c, at - from) == Some(k - from),
            None => char_position(s.skip(from), c, at - from) is None,
        },
    decreases s.len() - at,
{
    if at < s.len() && s[at] != c {
        lemma_position_shift(s, c, from, at + 1);
    }
}

/// The pieces of `s` between the separators `c`.
pub fn split(s: &str, c: char) -> (r: Vec<String>)
    ensures
        views(r@) == split_pieces(s@, c),
{
    let v = to_chars(s);
    let mut out: Vec<String> = Vec::new();
    let mut i: usize = 0;
    let mut next = find_char(&v, c, 0);
    assert(v@.skip(0) =~= s@);
    assert(views(out@) + split_pieces(s@, c) =~= split_pieces(s@, c));
    while next.is_some()
        invariant
            v@ == s@,
            0 <= i <= v.len(),
            match next {
                Some(k) => char_position(s@, c, i as int) == Some(k as int) && i <= k < s@.len(),
                None => char_position(s@, c, i as int) is None,
            },
            views(out@) + split_pieces(s@.skip(i as int), c) == split_pieces(s@, c),
        decreases v@.len() - i, next,
    {
        let k = next.unwrap();
        assert(k < v.len());
        let ghost rest = s@.skip(i as int);
        let ghost before = views(out@);
        proof {
            lemma_position_shift(s@, c, i as int, i as int);
        }
        out.push(from_range(&v, i, k));
        assert(s@.subrange(i as int, k as int) =~= rest.take(k - i));
        assert(rest.skip(k - i + 1) =~= s@.skip(k + 1));
        assert(views(out@) =~= before.push(rest.take(k - i)));
        assert(before + (seq![rest.take(k - i)] + split_pieces(s@.skip(k + 1), c)) =~= views(out@)
            + split_pieces(s@.skip(k + 1), c));
        i = k + 1;
        next = find_char(&v, c, i);
    }
    let ghost before = views(out@);
    proof {
        lemma_position_shift(s@, c, i as int, i as int);
    }
    out.push(from_range(&v, i, v.len()));
    assert(s@.subrange(i as int, s@.len() as int) =~= s@.skip(i as int));
    assert(views(out@) =~= before + seq![s@.skip(i as int)]);
    out
}

/// The lines of `s`.
pub fn lines(s: &str) -> (r: Vec<String>)
    ensures
        views(r@) == text_lines(s@),
{
    let v = to_chars(s);
    let mut out: Vec<String> = Vec::new();
    let mut i: usize = 0;
    let mut next = find_char(&v, '\n', 0);
    assert(v@.skip(0) =~= s@);
    assert(views(out@) + text_lines(s@) =~= text_lines(s@));
    while next.is_some()
        invariant
            v@ == s@,
            0 <= i <= v@.len(),
            match next {
                Some(k) => char_position(s@, '\n', i as int) == Some(k as int) && i <= k < s@.len(),
                None => char_position(s@, '\n', i as int) is None,
            },
            views(out@) + text_lines(s@.skip(i as int)) == text_lines(s@),
        decreases v@.len() - i, next,
    {
        let k = next.unwrap();
        assert(k < v.len());
        let ghost rest = s@.skip(i as int);
        let ghost before = views(out@);
        proof {
            lemma_position_shift(s@, '\n', i as int, i as int);
        }
        let end: usize = if k > i && v[k - 1] == '\r' {
            k - 1
        } else {
            k
        };
        out.push(from_range(&v, i, end));
        assert(s@.subrange(i as int, k as int) =~= rest.take(k - i));
        assert(s@.subrange(i as int, end as int) =~= without_cr(rest.take(k - i)));
        assert(rest.skip(k - i + 1) =~= s@.skip(k + 1));
        assert(views(out@) =~= before.push(without_cr(rest.take(k - i))));
        assert(before + (seq![without_cr(rest.take(k - i))] + text_lines(s@.skip(k + 1)))
            =~= views(out@) + text_lines(s@.skip(k + 1)));
        i = k + 1;
        next = find_char(&v, '\n', i);
    }
    let ghost before = views(out@);
    proof {
        lemma_position_shift(s@, '\n', i as int, i as int);
    }
    if i < v.len() {
        out.push(from_range(&v, i, v.len()));
        assert(s@.subrange(i as int, s@.len() as int) =~= s@.skip(i as int));
        assert(views(out@) =~= before + seq![s@.skip(i as int)]);
    } else {
        assert(views(out@) =~= before + Seq::<Seq<char>>::empty());
    }
    out
}

/// The parts one after the other with `sep` between them.
pub fn join(parts: &Vec<String>, sep: &str) -> (r: String)
    ensures
        r@ == joined(views(parts@), sep@),
{
    let mut out = String::new();
    let mut i: usize = 0;
    while i < parts.len()
        invariant
            0 <= i <= parts@.len(),
            out@ == joined(views(parts@).take(i as int), sep@),
        decreases parts@.len() - i,
    {
        let ghost all = views(parts@);
        assert(all.take(i + 1).drop_last() =~= all.take(i as int));
        if i > 0 {
            out.append(sep);
        }
        out.append(parts[i].as_str());
        if i == 0 {
            assert(out@ =~= all[0]);
        }
        i += 1;
    }
    assert(views(parts@).take(i as int) =~= views(parts@));
    out
}

/// A number in decimal notation.
pub fn decimal_text(n: u64) -> (r: String)
    ensures
        r@ == decimal(n as nat),
    decreases n,
{
    let d: u8 = (n % 10) as u8;
    if n < 10 {
        let mut out = String::new();
        out.push((48u8 + d) as char);
        assert(out@ =~= seq![digit(n as nat)]);
        out
    } else {
        let mut out = decimal_text(n / 10);
        out.push((48u8 + d) as char);
        out
    }
}

/// Whether `a` comes before `b` or equals it in the order of texts.
pub fn text_leq(a: &str, b: &str) -> (r: bool)
    ensures
        r == text_le(a@, b@),
{
    let x = to_chars(a);
    let y = to_chars(b);
    let mut i: usize = 0;
    assert(a@.skip(0) =~= a@);
    assert(b@.skip(0) =~= b@);
    while i < x.len() && i < y.len()
        invariant
            x@ == a@,
            y@ == b@,
            0 <= i <= x@.len(),
            i <= y@.len(),
            text_le(a@, b@) == text_le(a@.skip(i as int), b@.skip(i as int)),
        decreases x@.len() - i,
    {
        if x[i] != y[i] {
            return x[i] < y[i];
        }
        assert(a@.skip(i as int).skip(1) =~= a@.skip(i + 1));
        assert(b@.skip(i as int).skip(1) =~= b@.skip(i + 1));
        i += 1;
    }
    i == x.len()
}

/// The width of a character in bytes.
fn width(c: char) -> (n: usize)
    ensures
        n == char_width(c),
{
    let u: u32 = c as u32;
    if u <= 0x7f {
        1
    } else if u <= 0x7ff {
        2
    } else if u <= 0xffff {
        3
    } else {
        4
    }
}

/// A prefix is no larger than the text.
pub proof fn lemma_byte_len_take(s: Seq<char>, i: int, j: int)
    requires
        0 <= i <= j <= s.len(),
    ensures
        i <= byte_len(s.take(i)) <= byte_len(s.take(j)),
        i < j ==> byte_len(s.take(i)) < byte_len(s.take(j)),
    decreases j, i,
{
    if i < j {
        lemma_byte_len_take(s, i, j - 1);
        assert(s.take(j) =~= s.take(j - 1).push(s[j - 1]));
        lemma_byte_len_push(s.take(j - 1), s[j - 1]);
    } else if i > 0 {
        lemma_byte_len_take(s, i - 1, i);
    }
}

proof fn lemma_byte_prefix(s: Seq<char>, max: nat, k: int)
    requires
        0 <= k <= s.len(),
        byte_len(s.take(k)) <= max,
        k < s.len() ==> byte_len(s.take(k + 1)) > max,
    ensures
        byte_prefix(s, max) == s.take(k),
    decreases s.len(),
{
    assert(s.take(s.len() as int) =~= s);
    if k < s.len() {
        lemma_byte_len_take(s, k + 1, s.len() as int);
        let t = s.drop_last();
        assert(t.take(k) =~= s.take(k));
        if k < t.len() {
            assert(t.take(k + 1) =~= s.take(k + 1));
        }
        lemma_byte_prefix(t, max, k);
    }
}

/// The longest prefix of `s` that fits in `max` bytes.
pub fn truncate_bytes(s: &str, max: usize) -> (r: String)
    ensures
        r@ == byte_prefix(s@, max as nat),
{
    let v = to_chars(s);
    let mut used: usize = 0;
    let mut i: usize = 0;
    assert(byte_len(s@.take(0)) == 0) by {
        assert(s@.take(0) =~= Seq::<char>::empty());
    }
    while i < v.len() && width(v[i]) <= max - used
        invariant
            v@ == s@,
            0 <= i <= v@.len(),
            used == byte_len(s@.take(i as int)),
            used <= max,
        decreases v@.len() - i,
    {
        proof {
            assert(s@.take(i + 1) =~= s@.take(i as int).push(s@[i as int]));
            lemma_byte_len_push(s@.take(i as int), s@[i as int]);
        }
        used += width(v[i]);
        i += 1;
    }
    proof {
        if i < s@.len() {
            assert(s@.take(i + 1) =~= s@.take(i as int).push(s@[i as int]));
            lemma_byte_len_push(s@.take(i as int), s@[i as int]);
        }
        lemma_byte_prefix(s@, max as nat, i as int);
    }
    let r = from_range(&v, 0, i);
    assert(s@.subrange(0, i as int) =~= s@.take(i as int));
    r
}

/// What `byte_prefix` keeps is a prefix of the text, fits in the limit, and
/// could not hold one character more.
pub proof fn lemma_byte_prefix_longest(s: Seq<char>, max: nat)
    ensures
        byte_len(byte_prefix(s, max)) <= max,
        byte_prefix(s, max).len() <= s.len(),
        byte_prefix(s, max) == s.take(byte_prefix(s, max).len() as int),
        byte_prefix(s, max).len() < s.len() ==> byte_len(
            s.take(byte_prefix(s, max).len() as int + 1),
        ) > max,
    decreases s.len(),
{
    if byte_len(s) <= max || s.len() == 0 {
        assert(s =~= s.take(s.len() as int));
    } else {
        let t = s.drop_last();
        lemma_byte_prefix_longest(t, max);
        let k = byte_prefix(t, max).len() as int;
        assert(t.take(k) =~= s.take(k));
        if k < t.len() {
            assert(t.take(k + 1) =~= s.take(k + 1));
        } else {
            assert(s.take(k + 1) =~= s);
        }
    }
}

/// The texts ascend.
pub open spec fn texts_ascend(s: Seq<Seq<char>>) -> bool {
    forall|i: int, j: int| 0 <= i < j < s.len() ==> text_le(#[trigger] s[i], #[trigger] s[j])
}

/// The texts in ascending order.
pub fn sort_texts(v: &Vec<String>) -> (r: Vec<String>)
    ensures
        texts_ascend(views(r@)),
        views(r@).to_multiset() == views(v@).to_multiset(),
{
    let mut out: Vec<String> = Vec::new();
    let mut i: usize = 0;
    assert(views(v@).take(0) =~= views(out@));
    while i < v.len()
        invariant
            0 <= i <= v@.len(),
            texts_ascend(views(out@)),
            views(out@).to_multiset() == views(v@).take(i as int).to_multiset(),
        decreases v@.len() - i,
    {
        let ghost before = views(out@);
        let ghost x = views(v@)[i as int];
        let mut p: usize = 0;
        while p < out.len() && text_leq(out[p].as_str(), v[i].as_str())
            invariant
                0 <= p <= out@.len(),
                i < v@.len(),
                x == v@[i as int]@,
                before == views(out@),
                texts_ascend(before),
                forall|a: int| 0 <= a < p ==> text_le(#[trigger] before[a], x),
            decreases out@.len() - p,
        {
            assert(before[p as int] == out@[p as int]@);
            p += 1;
        }
        proof {
            if p < before.len() {
                assert(before[p as int] == out@[p as int]@);
                lemma_text_le_total(x, before[p as int]);
            }
            assert forall|b: int| p <= b < before.len() implies text_le(x, #[trigger] before[b]) by {
                if b > p {
                    lemma_text_le_transitive(x, before[p as int], before[b]);
                }
            }
        }
        out.insert(p, v[i].clone());
        proof {
            assert(views(out@) =~= before.insert(p as int, x));
            vstd::seq_lib::to_multiset_insert(before, p as int, x);
            assert(views(v@).take(i + 1) =~= views(v@).take(i as int).push(x));
            vstd::seq_lib::to_multiset_build(views(v@).take(i as int), x);
        }
        i += 1;
    }
    assert(views(v@).take(i as int) =~= views(v@));
    out
}

/// Whether a character is a decimal digit.
pub open spec fn is_digit(c: char) -> bool {
    '0' <= c <= '9'
}

/// The number that decimal digits write.
pub open spec fn digits_value(s: Seq<char>) -> nat
    decreases s.len(),
{
    if s.len() == 0 {
        0
    } else {
        digits_value(s.drop_last()) * 10 + (s.last() as nat - '0' as nat) as nat
    }
}

/// The digits of a number: what follows a plus sign, if there is one.
pub open spec fn unsigned_digits(s: Seq<char>) -> Seq<char> {
    if s.len() > 0 && s[0] == '+' {
        s.skip(1)
    } else {
        s
    }
}

/// The number that a text writes in decimal, where it is no larger than `max`.
pub open spec fn parsed_number(s: Seq<char>, max: nat) -> Option<nat> {
    let d = unsigned_digits(s);
    if d.len() > 0 && (forall|i: int| 0 <= i < d.len() ==> is_digit(#[trigger] d[i]))
        && digits_value(d) <= max {
        Some(digits_value(d))
    } else {
        None
    }
}

proof fn lemma_digits_value_grows(s: Seq<char>, i: int)
    requires
        0 <= i <= s.len(),
    ensures
        digits_value(s.take(i)) <= digits_value(s),
    decreases s.len() - i,
{
    if i < s.len() {
        lemma_digits_value_grows(s, i + 1);
        assert(s.take(i + 1).drop_last() =~= s.take(i));
    } else {
        assert(s.take(i) =~= s);
    }
}

/// The number that a text writes in decimal, where it is no larger than `max`.
pub fn parse_number(s: &str, max: u64) -> (r: Option<u64>)
    ensures
        match r {
            Some(n) => parsed_number(s@, max as nat) == Some(n as nat),
            None => parsed_number(s@, max as nat) is None,
        },
{
    let v = to_chars(s);
    let start: usize = if v.len() > 0 && v[0] == '+' {
        1
    } else {
        0
    };
    let ghost d = unsigned_digits(s@);
    assert(d =~= s@.skip(start as int));
    if start == v.len() {
        return None;
    }
    let mut n: u64 = 0;
    let mut i: usize = start;
    assert(d.take(0) =~= Seq::<char>::empty());
    while i < v.len()
        invariant
            v@ == s@,
            start <= i <= v@.len(),
            d == unsigned_digits(s@),
            d == s@.skip(start as int),
            d.len() > 0,
            forall|k: int| 0 <= k < i - start ==> is_digit(#[trigger] d[k]),
            n == digits_value(d.take(i - start)),
            n <= max,
        decreases v@.len() - i,
    {
        let c = v[i];
        assert(d[i - start] == c);
        if c < '0' || c > '9' {
            return None;
        }
        let x: u64 = (c as u32 - '0' as u32) as u64;
        proof {
            assert(d.take(i - start + 1).drop_last() =~= d.take(i - start));
            assert(digits_value(d.take(i - start + 1)) == n * 10 + x);
            lemma_digits_value_grows(d, i - start + 1);
        }
        if n > max / 10 {
            return None;
        }
        let m: u64 = n * 10;
        if x > max - m {
            return None;
        }
        n = m + x;
        i += 1;
    }
    assert(d.take(i - start) =~= d);
    Some(n)
}

/// A copy of a list of texts.
pub fn copy_texts(v: &Vec<String>) -> (r: Vec<String>)
    ensures
        views(r@) == views(v@),
{
    let r = v.clone();
    assert(views(r@) =~= views(v@));
    r
}

/// Whether a list of texts has one.
pub fn has_text(v: &Vec<String>, t: &str) -> (r: bool)
    ensures
        r == views(v@).contains(t@),
{
    let mut i: usize = 0;
    while i < v.len()
        invariant
            0 <= i <= v@.len(),
            forall|k: int| 0 <= k < i ==> #[trigger] views(v@)[k] != t@,
        decreases v@.len() - i,
    {
        assert(views(v@)[i as int] == v@[i as int]@);
        if same(v[i].as_str(), t) {
            return true;
        }
        i += 1;
    }
    false
}

} // verus!
