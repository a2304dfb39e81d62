//! What holds of the text operations, whatever the texts.

use crate::text::{
    begins_with, byte_len, char_position, contains_text, decimal, digit, digits_value, ends_in,
    is_digit, is_space, joined, lemma_char_position, occurrences, occurs_at, parsed_number,
    replaced, replaced_once, split_pieces, text_le, text_lines, trimmed, trimmed_end,
    trimmed_start,
};
use vstd::prelude::*;
use vstd::string::*;

verus! {

/// A text begins with its first part, ends in its last one and holds the one
/// in the middle; and where a text occurs in another, it parts that one in
/// three.
pub proof fn law_parts_occur(a: Seq<char>, b: Seq<char>, c: Seq<char>)
    ensures
        begins_with(a + b, a),
        ends_in(a + b, b),
        contains_text(a + b + c, b),
        occurs_at(a + b + c, b, a.len() as int),
{
    assert((a + b).subrange(0, a.len() as int) =~= a);
    let at = a.len() as int;
    assert((a + b).subrange(at, at + b.len()) =~= b);
    assert((a + b + c).subrange(at, at + b.len()) =~= b);
    assert(occurs_at(a + b + c, b, at));
}

/// Where a part stands in a text, the text is what is before it, the part and
/// what is behind it.
pub proof fn law_text_around_a_part(s: Seq<char>, part: Seq<char>, i: int)
    requires
        occurs_at(s, part, i),
    ensures
        s.take(i) + part + s.skip(i + part.len()) == s,
{
    assert(s.take(i) + s.subrange(i, i + part.len()) + s.skip(i + part.len()) =~= s);
}

/// A part of a part is a part.
pub proof fn law_containment_is_transitive(a: Seq<char>, b: Seq<char>, c: Seq<char>)
    requires
        contains_text(a, b),
        contains_text(b, c),
    ensures
        contains_text(a, c),
{
    let i = choose|i: int| occurs_at(a, b, i);
    let j = choose|j: int| occurs_at(b, c, j);
    assert(a.subrange(i + j, i + j + c.len()) =~= a.subrange(i, i + b.len()).subrange(
        j,
        j + c.len(),
    ));
    assert(occurs_at(a, c, i + j));
}

/// Lists of texts that are joined one after the other have the separator
/// between them; a text alone is joined as it is.
pub proof fn law_joined_by_parts(a: Seq<Seq<char>>, b: Seq<Seq<char>>, sep: Seq<char>, t: Seq<char>)
    ensures
        joined(Seq::empty(), sep) == Seq::<char>::empty(),
        joined(seq![t], sep) == t,
        a.len() > 0 && b.len() > 0 ==> joined(a + b, sep) == joined(a, sep) + sep + joined(b, sep),
    decreases b.len(),
{
    if a.len() > 0 && b.len() > 0 {
        assert((a + b).drop_last() =~= a + b.drop_last());
        if b.len() == 1 {
            assert(a + b.drop_last() =~= a);
        } else {
            law_joined_by_parts(a, b.drop_last(), sep, t);
            assert(joined(a + b, sep) =~= joined(a, sep) + sep + joined(b, sep));
        }
    }
}

/// Every text that is joined with others stands in the whole.
#[verifier::rlimit(40)]
pub proof fn law_joined_holds_each(parts: Seq<Seq<char>>, sep: Seq<char>, i: int)
    requires
        0 <= i < parts.len(),
    ensures
        contains_text(joined(parts, sep), parts[i]),
{
    let none = Seq::<char>::empty();
    let p = parts[i];
    let before = parts.take(i);
    let behind = parts.skip(i + 1);
    let first = before + seq![p];
    assert(first + behind =~= parts);
    law_joined_by_parts(before, seq![p], sep, p);
    law_joined_by_parts(first, behind, sep, p);
    let head = if i == 0 {
        none
    } else {
        joined(before, sep) + sep
    };
    let tail = if behind.len() == 0 {
        none
    } else {
        sep + joined(behind, sep)
    };
    if i == 0 {
        assert(first =~= seq![p]);
    }
    if behind.len() == 0 {
        assert(first =~= parts);
    }
    assert(joined(parts, sep) =~= head + p + tail);
    law_parts_occur(head, p, tail);
}

/// The pieces of a text, joined with the separator, are the text; and in no
/// piece is a separator left.
#[verifier::rlimit(40)]
pub proof fn law_pieces_make_the_text(s: Seq<char>, c: char)
    ensures
        split_pieces(s, c).len() > 0,
        joined(split_pieces(s, c), seq![c]) == s,
        forall|i: int, k: int|
            0 <= i < split_pieces(s, c).len() && 0 <= k < split_pieces(s, c)[i].len()
                ==> #[trigger] split_pieces(s, c)[i][k] != c,
    decreases s.len(),
{
    lemma_char_position(s, c, 0);
    match char_position(s, c, 0) {
        None => {
            law_joined_by_parts(Seq::empty(), Seq::empty(), seq![c], s);
        },
        Some(at) => {
            let rest = split_pieces(s.skip(at + 1), c);
            law_pieces_make_the_text(s.skip(at + 1), c);
            law_joined_by_parts(seq![s.take(at)], rest, seq![c], s.take(at));
            assert(s.take(at) + seq![c] + s.skip(at + 1) =~= s);
            let all = split_pieces(s, c);
            assert forall|i: int, k: int|
                0 <= i < all.len() && 0 <= k < all[i].len() implies #[trigger] all[i][k] != c by {
                if i > 0 {
                    assert(all[i] == rest[i - 1]);
                    assert(rest[i - 1][k] != c);
                }
            }
        },
    }
}

/// A line ends at its line feed, before which a carriage return does not count,
/// or at the end of the text; the lines behind it are those of the rest.
#[verifier::rlimit(40)]
pub proof fn law_lines_end_at_line_feeds(line: Seq<char>, rest: Seq<char>)
    requires
        forall|i: int| 0 <= i < line.len() ==> #[trigger] line[i] != '\n',
    ensures
        text_lines(Seq::empty()) == Seq::<Seq<char>>::empty(),
        line.len() > 0 ==> text_lines(line) == seq![line],
        line.len() == 0 || line.last() != '\r' ==> text_lines(line + seq!['\n'] + rest) == seq![
            line,
        ] + text_lines(rest),
        text_lines(line + seq!['\r', '\n'] + rest) == seq![line] + text_lines(rest),
{
    lemma_char_position(line, '\n', 0);
    let plain = line + seq!['\n'] + rest;
    lemma_char_position(plain, '\n', 0);
    assert(plain[line.len() as int] == '\n');
    let i = char_position(plain, '\n', 0)->0;
    if i < line.len() {
        assert(plain[i] == line[i]);
    }
    assert(plain.take(i) =~= line);
    assert(plain.skip(i + 1) =~= rest);
    let both = line + seq!['\r', '\n'] + rest;
    lemma_char_position(both, '\n', 0);
    assert(both[line.len() as int + 1] == '\n');
    let j = char_position(both, '\n', 0)->0;
    if j < line.len() {
        assert(both[j] == line[j]);
    }
    assert(both[line.len() as int] == '\r');
    assert(both.take(j) =~= line.push('\r'));
    assert(both.take(j).drop_last() =~= line);
    assert(both.skip(j + 1) =~= rest);
}

/// What is left of a text without the white space at its ends is the part
/// between the first and the last character that is none.
pub proof fn law_trimmed_is_the_middle(s: Seq<char>)
    ensures
        exists|a: int, b: int|
            #![trigger s.subrange(a, b)]
            0 <= a <= b <= s.len() && trimmed(s) == s.subrange(a, b) && (forall|k: int|
                0 <= k < a ==> is_space(#[trigger] s[k])) && (forall|k: int|
                b <= k < s.len() ==> is_space(#[trigger] s[k])) && (a < b ==> !is_space(s[a])
                && !is_space(s[b - 1])),
{
    let a = lemma_trimmed_start(s);
    let t = trimmed_start(s);
    let n = lemma_trimmed_end(t);
    let b = a + n;
    assert(t.subrange(0, n) =~= s.subrange(a, b));
    assert forall|k: int| b <= k < s.len() implies is_space(#[trigger] s[k]) by {
        assert(t[k - a] == s[k]);
    }
    if a < b {
        assert(t[0] == s[a]);
        assert(t[n - 1] == s[b - 1]);
    }
}

#[verifier::rlimit(40)]
proof fn lemma_trimmed_start(s: Seq<char>) -> (a: int)
    ensures
        0 <= a <= s.len(),
        trimmed_start(s) == s.subrange(a, s.len() as int),
        forall|k: int| 0 <= k < a ==> is_space(#[trigger] s[k]),
        a < s.len() ==> !is_space(s[a]),
    decreases s.len(),
{
    if s.len() > 0 && is_space(s[0]) {
        let rest = s.skip(1);
        let a = lemma_trimmed_start(rest);
        assert(rest.subrange(a, rest.len() as int) =~= s.subrange(a + 1, s.len() as int));
        assert forall|k: int| 0 <= k < a + 1 implies is_space(#[trigger] s[k]) by {
            if k > 0 {
                assert(rest[k - 1] == s[k]);
            }
        }
        a + 1
    } else {
        assert(s.subrange(0, s.len() as int) =~= s);
        0
    }
}

#[verifier::rlimit(40)]
proof fn lemma_trimmed_end(s: Seq<char>) -> (b: int)
    ensures
        0 <= b <= s.len(),
        trimmed_end(s) == s.subrange(0, b),
        forall|k: int| b <= k < s.len() ==> is_space(#[trigger] s[k]),
        b > 0 ==> !is_space(s[b - 1]),
    decreases s.len(),
{
    if s.len() > 0 && is_space(s.last()) {
        let rest = s.drop_last();
        let b = lemma_trimmed_end(rest);
        assert(rest.subrange(0, b) =~= s.subrange(0, b));
        assert forall|k: int| b <= k < s.len() implies is_space(#[trigger] s[k]) by {
            if k < rest.len() {
                assert(rest[k] == s[k]);
            }
        }
        b
    } else {
        assert(s.subrange(0, s.len() as int) =~= s);
        s.len() as int
    }
}

/// Of the first hundred and twenty-eight characters, the white space is the
/// tab, the line feeds, the form feed, the carriage return and the space.
pub proof fn law_white_space(c: char)
    requires
        (c as u32) < 128,
    ensures
        is_space(c) <==> c == ' ' || c == '\t' || c == '\n' || c == '\r' || c as u32 == 11
            || c as u32 == 12,
{
}

/// A number is written digit by digit, the first being no zero unless it is
/// the only one; and the digits write the number.
pub proof fn law_numbers_are_written_in_decimal(n: nat, d: nat)
    requires
        d < 10,
    ensures
        decimal(d).len() == 1,
        decimal(d)[0] as nat == '0' as nat + d,
        n > 0 ==> decimal(n * 10 + d) == decimal(n) + decimal(d),
        n > 0 ==> decimal(n)[0] != '0',
        forall|i: int| 0 <= i < decimal(n).len() ==> is_digit(#[trigger] decimal(n)[i]),
        decimal(n).len() > 0,
        digits_value(decimal(n)) == n,
    decreases n,
{
    assert((n * 10 + d) / 10 == n);
    assert((n * 10 + d) % 10 == d);
    assert(decimal(d) =~= seq![digit(d)]);
    if n > 0 {
        assert(decimal(n * 10 + d) =~= decimal(n) + decimal(d));
    }
    lemma_decimal(n);
}

proof fn lemma_decimal(n: nat)
    ensures
        n > 0 ==> decimal(n)[0] != '0',
        decimal(n).len() > 0,
        forall|i: int| 0 <= i < decimal(n).len() ==> is_digit(#[trigger] decimal(n)[i]),
        digits_value(decimal(n)) == n,
    decreases n,
{
    reveal_with_fuel(digits_value, 2);
    if n >= 10 {
        lemma_decimal(n / 10);
        let s = decimal(n);
        assert(s.drop_last() =~= decimal(n / 10));
        assert(s.last() == digit(n % 10));
        assert(s[0] == decimal(n / 10)[0]);
        assert(digits_value(s) == digits_value(decimal(n / 10)) * 10 + n % 10);
    } else {
        let s = decimal(n);
        assert(s.drop_last() =~= Seq::<char>::empty());
    }
}

/// A number that is written in decimal is read back, where it is not too large.
pub proof fn law_written_numbers_are_read(n: nat, max: nat)
    ensures
        parsed_number(decimal(n), max) == (if n <= max {
            Some(n)
        } else {
            None
        }),
        parsed_number("+"@ + decimal(n), max) == parsed_number(decimal(n), max),
        parsed_number(Seq::empty(), max) is None,
{
    lemma_decimal(n);
    let s = decimal(n);
    assert(is_digit(s[0]));
    reveal_strlit("+");
    let plus = "+"@ + s;
    assert(plus.skip(1) =~= s);
    assert(plus[0] == '+');
}

/// Texts are ordered by the first character in which they differ, and a text
/// comes before those that go on from it.
pub proof fn law_texts_are_ordered_by_characters(start: Seq<char>, a: Seq<char>, b: Seq<char>)
    ensures
        text_le(start, start + a),
        a.len() > 0 ==> !text_le(start + a, start),
        a.len() > 0 && b.len() > 0 && a[0] < b[0] ==> text_le(start + a, start + b) && !text_le(
            start + b,
            start + a,
        ),
    decreases start.len(),
{
    if start.len() > 0 {
        let rest = start.skip(1);
        law_texts_are_ordered_by_characters(rest, a, b);
        assert((start + a).skip(1) =~= rest + a);
        assert((start + b).skip(1) =~= rest + b);
        assert((start + a)[0] == start[0]);
        assert((start + b)[0] == start[0]);
    } else {
        assert(start + a =~= a);
        assert(start + b =~= b);
    }
}

/// Where a text does not occur, nothing is replaced. Where it does, what stands
/// before its first occurrence stays, the new text takes its place, and behind
/// it replacing goes on, or ends where one is enough.
#[verifier::rlimit(40)]
pub proof fn law_replacing_goes_from_the_left(
    before: Seq<char>,
    pat: Seq<char>,
    rest: Seq<char>,
    with: Seq<char>,
)
    requires
        pat.len() > 0,
        forall|i: int| i < before.len() ==> !#[trigger] occurs_at(before + pat + rest, pat, i),
    ensures
        replaced(before + pat + rest, pat, with) == before + with + replaced(rest, pat, with),
        replaced_once(before + pat + rest, pat, with) == before + with + rest,
        occurrences(before + pat + rest, pat) == 1 + occurrences(rest, pat),
    decreases before.len(),
{
    let s = before + pat + rest;
    if before.len() == 0 {
        assert(s.subrange(0, pat.len() as int) =~= pat);
        assert(s.skip(pat.len() as int) =~= rest);
        assert(replaced(s, pat, with) =~= before + with + replaced(rest, pat, with));
        assert(replaced_once(s, pat, with) =~= before + with + rest);
    } else {
        let less = before.skip(1);
        assert(s.skip(1) =~= less + pat + rest);
        assert(!occurs_at(s, pat, 0));
        assert forall|i: int| i < less.len() implies !#[trigger] occurs_at(
            less + pat + rest,
            pat,
            i,
        ) by {
            if occurs_at(less + pat + rest, pat, i) {
                assert(s.subrange(i + 1, i + 1 + pat.len()) =~= s.skip(1).subrange(
                    i,
                    i + pat.len(),
                ));
                assert(occurs_at(s, pat, i + 1));
            }
        }
        law_replacing_goes_from_the_left(less, pat, rest, with);
        assert(seq![s[0]] + less =~= before);
        assert(replaced(s, pat, with) =~= before + with + replaced(rest, pat, with));
        assert(replaced_once(s, pat, with) =~= before + with + rest);
    }
}

/// Where a text does not occur, nothing is replaced and nothing is counted.
pub proof fn law_nothing_to_replace(s: Seq<char>, pat: Seq<char>, with: Seq<char>)
    requires
        pat.len() > 0,
        !contains_text(s, pat),
    ensures
        replaced(s, pat, with) == s,
        replaced_once(s, pat, with) == s,
        occurrences(s, pat) == 0,
    decreases s.len(),
{
    if s.len() > 0 {
        assert(!occurs_at(s, pat, 0));
        let rest = s.skip(1);
        if contains_text(rest, pat) {
            let i = choose|i: int| occurs_at(rest, pat, i);
            assert(s.subrange(i + 1, i + 1 + pat.len()) =~= rest.subrange(i, i + pat.len()));
            assert(occurs_at(s, pat, i + 1));
        }
        law_nothing_to_replace(rest, pat, with);
        assert(seq![s[0]] + rest =~= s);
    }
}

/// Sizes in bytes: none for no text, and between one and four for a character,
/// one for those of ASCII.
pub proof fn law_sizes_in_bytes(c: char)
    ensures
        byte_len(Seq::empty()) == 0,
        1 <= byte_len(seq![c]) <= 4,
        (c as u32) < 128 ==> byte_len(seq![c]) == 1,
{
    let none = Seq::<char>::empty();
    assert(none.push(c) =~= seq![c]);
    crate::text::lemma_byte_len_push(none, c);
}

/// What a text is put together of it holds, and so all that its parts hold.
pub proof fn law_text_holds_its_parts(a: Seq<char>, b: Seq<char>, part: Seq<char>)
    ensures
        contains_text(a + b, a),
        contains_text(a + b, b),
        contains_text(a, part) ==> contains_text(a + b, part),
        contains_text(b, part) ==> contains_text(a + b, part),
{
    let none = Seq::<char>::empty();
    law_parts_occur(none, a, b);
    assert(none + a + b =~= a + b);
    law_parts_occur(a, b, none);
    assert(a + b + none =~= a + b);
    if contains_text(a, part) {
        law_containment_is_transitive(a + b, a, part);
    }
    if contains_text(b, part) {
        law_containment_is_transitive(a + b, b, part);
    }
}

/// Each part of a text of four parts is in it, the first at its start and the
/// last at its end.
pub proof fn law_four_parts(a: Seq<char>, b: Seq<char>, c: Seq<char>, d: Seq<char>)
    ensures
        begins_with(a + b + c + d, a),
        contains_text(a + b + c + d, a),
        contains_text(a + b + c + d, b),
        contains_text(a + b + c + d, c),
        contains_text(a + b + c + d, d),
        ends_in(a + b + c + d, d),
{
    law_text_holds_its_parts(a, b, a);
    law_text_holds_its_parts(a + b, c, a);
    law_text_holds_its_parts(a + b, c, b);
    law_text_holds_its_parts(a + b + c, d, a);
    law_text_holds_its_parts(a + b + c, d, b);
    law_text_holds_its_parts(a + b + c, d, c);
    law_parts_occur(a + b + c, d, Seq::empty());
    law_parts_occur(a, b + c + d, Seq::empty());
    assert(a + (b + c + d) =~= a + b + c + d);
}

/// What begins and ends with no white space is its own trimmed text.
pub proof fn law_nothing_to_trim(s: Seq<char>)
    requires
        s.len() > 0,
        !is_space(s[0]),
        !is_space(s.last()),
    ensures
        trimmed(s) == s,
{
    law_trimmed_is_the_middle(s);
    let (a, b) = choose|a: int, b: int|
        #![trigger s.subrange(a, b)]
        0 <= a <= b <= s.len() && trimmed(s) == s.subrange(a, b) && (forall|k: int|
            0 <= k < a ==> is_space(#[trigger] s[k])) && (forall|k: int|
            b <= k < s.len() ==> is_space(#[trigger] s[k])) && (a < b ==> !is_space(s[a])
            && !is_space(s[b - 1]));
    assert(a == 0);
    assert(b == s.len());
    assert(s.subrange(0, s.len() as int) =~= s);
}

/// It is all one in which order texts are put together, as long as each stays
/// in its place.
pub proof fn law_put_together(a: Seq<char>, b: Seq<char>, c: Seq<char>)
    ensures
        a + (b + c) == a + b + c,
{
    assert(a + (b + c) =~= a + b + c);
}

/// What occurs in a text is counted at least once.
pub proof fn law_what_occurs_is_counted(s: Seq<char>, pat: Seq<char>)
    requires
        pat.len() > 0,
        contains_text(s, pat),
    ensures
        occurrences(s, pat) > 0,
    decreases s.len(),
{
    let i = choose|i: int| occurs_at(s, pat, i);
    if !begins_with(s, pat) {
        assert(s.skip(1).subrange(i - 1, i - 1 + pat.len()) =~= s.subrange(i, i + pat.len()));
        assert(occurs_at(s.skip(1), pat, i - 1));
        law_what_occurs_is_counted(s.skip(1), pat);
    }
}

/// A space before a text is trimmed off, and nothing else.
#[verifier::rlimit(40)]
pub proof fn law_leading_space_is_left_out(s: Seq<char>)
    requires
        s.len() > 0,
        !is_space(s[0]),
        !is_space(s.last()),
    ensures
        trimmed(seq![' '] + s) == s,
{
    let t = seq![' '] + s;
    law_white_space(' ');
    law_trimmed_is_the_middle(t);
    let (a, b) = choose|a: int, b: int|
        #![trigger t.subrange(a, b)]
        0 <= a <= b <= t.len() && trimmed(t) == t.subrange(a, b) && (forall|k: int|
            0 <= k < a ==> is_space(#[trigger] t[k])) && (forall|k: int|
            b <= k < t.len() ==> is_space(#[trigger] t[k])) && (a < b ==> !is_space(t[a])
            && !is_space(t[b - 1]));
    assert(t[1] == s[0]);
    assert(t.last() == s.last());
    assert(a <= 1);
    assert(b == t.len());
    assert(a == 1);
    assert(t.subrange(1, t.len() as int) =~= s);
}

} // verus!
