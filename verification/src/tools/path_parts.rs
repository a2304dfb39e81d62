//! Paths, part by part.

use crate::text::{
    begins_with, char_position, join, joined, lemma_char_position, same, split, split_pieces,
    starts_with, strip_prefix, views,
};
use crate::text_laws::{law_joined_by_parts, law_pieces_make_the_text};
use vstd::prelude::*;
use vstd::string::*;

verus! {

/// Whether a part of a path leads nowhere: nothing at all, or a dot.
pub open spec fn leads_nowhere(part: Seq<char>) -> bool {
    part.len() == 0 || part == "."@
}

/// The parts from the first on that leads somewhere.
pub open spec fn from_first_name(parts: Seq<Seq<char>>) -> Seq<Seq<char>>
    decreases parts.len(),
{
    if parts.len() > 0 && leads_nowhere(parts[0]) {
        from_first_name(parts.skip(1))
    } else {
        parts
    }
}

/// The parts up to the last that leads somewhere.
pub open spec fn to_last_name(parts: Seq<Seq<char>>) -> Seq<Seq<char>>
    decreases parts.len(),
{
    if parts.len() > 0 && leads_nowhere(parts.last()) {
        to_last_name(parts.drop_last())
    } else {
        parts
    }
}

/// What a path begins with, of that which counts only there: the root, or a
/// dot.
pub open spec fn opening(path: Seq<char>) -> Seq<char> {
    if begins_with(path, "/"@) {
        "/"@
    } else if path == "."@ || begins_with(path, "./"@) {
        "."@
    } else {
        Seq::empty()
    }
}

/// The parts of a path behind its opening.
pub open spec fn parts_of(path: Seq<char>) -> Seq<Seq<char>> {
    split_pieces(path.skip(opening(path).len() as int), '/')
}

/// The parts that follow those of a directory, where all of these come first.
pub open spec fn parts_after(parts: Seq<Seq<char>>, dir: Seq<Seq<char>>) -> Option<Seq<Seq<char>>>
    decreases dir.len(),
{
    proof {
        lemma_from_first_name(dir);
    }
    let rest = from_first_name(parts);
    let wanted = from_first_name(dir);
    if wanted.len() == 0 {
        Some(rest)
    } else if rest.len() == 0 || rest[0] != wanted[0] {
        None
    } else {
        parts_after(rest.skip(1), wanted.skip(1))
    }
}

/// The rest of a path that leads into a directory or to it, from there on.
/// What leads nowhere at the end of the path is left out.
pub open spec fn path_after(path: Seq<char>, dir: Seq<char>) -> Option<Seq<char>> {
    if dir.len() == 0 {
        Some(opening(path) + joined(to_last_name(parts_of(path)), "/"@))
    } else if opening(path) != opening(dir) {
        None
    } else {
        match parts_after(parts_of(path), parts_of(dir)) {
            Some(rest) => Some(joined(to_last_name(rest), "/"@)),
            None => None,
        }
    }
}

/// Whether a path leads into a directory or to it.
pub open spec fn is_within(path: Seq<char>, dir: Seq<char>) -> bool {
    path_after(path, dir) is Some
}

/// Leaving parts out makes no path longer.
pub proof fn lemma_from_first_name(parts: Seq<Seq<char>>)
    ensures
        from_first_name(parts).len() <= parts.len(),
    decreases parts.len(),
{
    if parts.len() > 0 && leads_nowhere(parts[0]) {
        lemma_from_first_name(parts.skip(1));
    }
}

/// Whether a part of a path leads nowhere.
fn nowhere(part: &String) -> (r: bool)
    ensures
        r == leads_nowhere(part@),
{
    part.as_str().unicode_len() == 0 || same(part.as_str(), ".")
}

/// The first part at or after `from` that leads somewhere, or else the end.
fn first_name(parts: &Vec<String>, from: usize) -> (r: usize)
    requires
        from <= parts@.len(),
    ensures
        from <= r <= parts@.len(),
        from_first_name(views(parts@).skip(from as int)) == views(parts@).skip(r as int),
        r < parts@.len() ==> !leads_nowhere(views(parts@)[r as int]),
{
    let ghost all = views(parts@);
    let mut i: usize = from;
    while i < parts.len() && nowhere(&parts[i])
        invariant
            all == views(parts@),
            from <= i <= parts@.len(),
            from_first_name(all.skip(from as int)) == from_first_name(all.skip(i as int)),
        decreases parts@.len() - i,
    {
        assert(all.skip(i as int)[0] == parts@[i as int]@);
        assert(all.skip(i as int).skip(1) =~= all.skip(i + 1));
        i += 1;
    }
    assert(i < parts@.len() ==> all.skip(i as int)[0] == parts@[i as int]@);
    i
}

/// Takes away the parts at the end that lead nowhere.
fn drop_trailing(parts: &mut Vec<String>)
    ensures
        views(final(parts)@) == to_last_name(views(old(parts)@)),
{
    let ghost all = views(parts@);
    while parts.len() > 0 && nowhere(&parts[parts.len() - 1])
        invariant
            to_last_name(views(parts@)) == to_last_name(all),
        decreases parts@.len(),
    {
        let ghost before = views(parts@);
        assert(before.last() == parts@.last()@);
        let _ = parts.pop();
        assert(views(parts@) =~= before.drop_last());
    }
    assert(parts@.len() > 0 ==> views(parts@).last() == parts@.last()@);
}

/// What a path begins with.
fn opening_text(path: &str) -> (r: String)
    ensures
        r@ == opening(path@),
        begins_with(path@, r@),
{
    proof {
        reveal_strlit("/");
        reveal_strlit(".");
        reveal_strlit("./");
    }
    if starts_with(path, "/") {
        "/".to_owned()
    } else if same(path, ".") || starts_with(path, "./") {
        proof {
            if begins_with(path@, "./"@) {
                assert(path@.subrange(0, 2)[0] == path@[0]);
            }
            assert(path@.subrange(0, 1) =~= "."@);
        }
        ".".to_owned()
    } else {
        let r = String::new();
        assert(r@ =~= Seq::<char>::empty());
        assert(path@.subrange(0, 0) =~= r@);
        r
    }
}

/// The parts of a path behind its opening.
fn path_parts(path: &str, start: &String) -> (r: Vec<String>)
    requires
        start@ == opening(path@),
        begins_with(path@, start@),
    ensures
        views(r@) == parts_of(path@),
{
    match strip_prefix(path, start.as_str()) {
        Some(rest) => split(rest.as_str(), '/'),
        None => Vec::new(),
    }
}

/// The rest of a path that leads into a directory or to it, from there on.
pub fn strip_dir(path: &str, dir: &str) -> (r: Option<String>)
    ensures
        match r {
            Some(rest) => path_after(path@, dir@) == Some(rest@),
            None => path_after(path@, dir@) is None,
        },
{
    let start = opening_text(path);
    let mut parts = path_parts(path, &start);
    if dir.unicode_len() == 0 {
        drop_trailing(&mut parts);
        let mut r = start;
        r.append(join(&parts, "/").as_str());
        return Some(r);
    }
    let dir_start = opening_text(dir);
    if !same(start.as_str(), dir_start.as_str()) {
        return None;
    }
    let wanted = path_parts(dir, &dir_start);
    let ghost p = views(parts@);
    let ghost d = views(wanted@);
    let mut i: usize = 0;
    let mut j: usize = 0;
    assert(p.skip(0) =~= p);
    assert(d.skip(0) =~= d);
    loop
        invariant
            p == views(parts@),
            d == views(wanted@),
            p == parts_of(path@),
            d == parts_of(dir@),
            dir@.len() > 0,
            opening(path@) == opening(dir@),
            0 <= i <= p.len(),
            0 <= j <= d.len(),
            parts_after(p, d) == parts_after(p.skip(i as int), d.skip(j as int)),
        decreases d.len() - j,
    {
        let a = first_name(&parts, i);
        let b = first_name(&wanted, j);
        proof {
            lemma_from_first_name(d.skip(j as int));
        }
        if b == wanted.len() {
            let mut rest = Vec::new();
            let mut k: usize = a;
            while k < parts.len()
                invariant
                    p == views(parts@),
                    a <= k <= p.len(),
                    views(rest@) == p.subrange(a as int, k as int),
                decreases p.len() - k,
            {
                let ghost before = views(rest@);
                rest.push(parts[k].clone());
                assert(views(rest@) =~= before.push(p[k as int]));
                assert(p.subrange(a as int, k + 1) =~= p.subrange(a as int, k as int).push(
                    p[k as int],
                ));
                k += 1;
            }
            assert(p.subrange(a as int, k as int) =~= p.skip(a as int));
            drop_trailing(&mut rest);
            return Some(join(&rest, "/"));
        }
        assert(d.skip(b as int)[0] == d[b as int]);
        if a == parts.len() {
            return None;
        }
        assert(p.skip(a as int)[0] == p[a as int]);
        if !same(parts[a].as_str(), wanted[b].as_str()) {
            return None;
        }
        assert(p.skip(a as int).skip(1) =~= p.skip(a + 1));
        assert(d.skip(b as int).skip(1) =~= d.skip(b + 1));
        i = a + 1;
        j = b + 1;
    }
}

proof fn lemma_parts_after_start(parts: Seq<Seq<char>>, more: Seq<Seq<char>>)
    ensures
        parts_after(parts + more, parts) is Some,
        more.len() == 0 ==> (parts_after(parts + more, parts)->0).len() == 0,
    decreases parts.len(),
{
    lemma_first_name_before(parts, more);
    lemma_from_first_name(parts);
    let wanted = from_first_name(parts);
    if wanted.len() == 0 {
        if more.len() == 0 {
            assert(parts + more =~= parts);
        }
    } else {
        assert((wanted + more).skip(1) =~= wanted.skip(1) + more);
        lemma_parts_after_start(wanted.skip(1), more);
    }
}

proof fn lemma_first_name_before(parts: Seq<Seq<char>>, more: Seq<Seq<char>>)
    ensures
        from_first_name(parts).len() > 0 ==> from_first_name(parts + more) == from_first_name(parts)
            + more,
    decreases parts.len(),
{
    if parts.len() > 0 && leads_nowhere(parts[0]) {
        lemma_first_name_before(parts.skip(1), more);
        assert((parts + more).skip(1) =~= parts.skip(1) + more);
    }
}

proof fn lemma_pieces_of_both(a: Seq<char>, b: Seq<char>)
    ensures
        split_pieces(a + seq!['/'] + b, '/') == split_pieces(a, '/') + split_pieces(b, '/'),
    decreases a.len(),
{
    let s = a + seq!['/'] + b;
    lemma_char_position(s, '/', 0);
    lemma_char_position(a, '/', 0);
    assert(s[a.len() as int] == '/');
    match char_position(a, '/', 0) {
        None => {
            assert(char_position(s, '/', 0) == Some(a.len() as int));
            assert(s.take(a.len() as int) =~= a);
            assert(s.skip(a.len() as int + 1) =~= b);
        },
        Some(i) => {
            assert(s[i] == a[i]);
            assert(char_position(s, '/', 0) == Some(i));
            assert(s.take(i) =~= a.take(i));
            assert(s.skip(i + 1) =~= a.skip(i + 1) + seq!['/'] + b);
            lemma_pieces_of_both(a.skip(i + 1), b);
            assert(split_pieces(s, '/') =~= split_pieces(a, '/') + split_pieces(b, '/'));
        },
    }
}

/// A directory holds itself and every path that goes on from it.
pub proof fn law_directory_holds_what_is_below(dir: Seq<char>, below: Seq<char>)
    requires
        dir.len() > 0,
    ensures
        path_after(dir, dir) == Some(Seq::<char>::empty()),
        is_within(dir + "/"@ + below, dir),
{
    reveal_strlit("/");
    reveal_strlit(".");
    reveal_strlit("./");
    let none = Seq::<Seq<char>>::empty();
    lemma_parts_after_start(parts_of(dir), none);
    assert(parts_of(dir) + none =~= parts_of(dir));
    let path = dir + "/"@ + below;
    assert(path[0] == dir[0]);
    assert(dir.len() > 1 ==> path[1] == dir[1]);
    lemma_opening(dir);
    lemma_opening(path);
    assert("/"@ =~= seq!['/']);
    let k = opening(dir).len() as int;
    assert(path.skip(k) =~= dir.skip(k) + seq!['/'] + below);
    lemma_pieces_of_both(dir.skip(k), below);
    lemma_parts_after_start(parts_of(dir), split_pieces(below, '/'));
}

proof fn lemma_opening(path: Seq<char>)
    requires
        path.len() > 0,
    ensures
        opening(path) == (if path[0] == '/' {
            "/"@
        } else if path[0] == '.' && (path.len() == 1 || path[1] == '/') {
            "."@
        } else {
            Seq::empty()
        }),
        opening(path).len() <= 1,
{
    reveal_strlit("/");
    reveal_strlit(".");
    reveal_strlit("./");
    assert(path.subrange(0, 1) =~= seq![path[0]]);
    assert("/"@ =~= seq!['/']);
    assert("."@ =~= seq!['.']);
    assert("./"@ =~= seq!['.', '/']);
    assert(seq![path[0]][0] == path[0]);
    assert("/"@[0] == '/');
    if path.len() > 1 {
        assert(path.subrange(0, 2) =~= seq![path[0], path[1]]);
        assert(path.subrange(0, 2)[0] == path[0]);
        assert(path.subrange(0, 2)[1] == path[1]);
    } else {
        assert(path =~= seq![path[0]]);
    }
}

/// What is left of a path behind its directory is what stands below it.
#[verifier::rlimit(40)]
pub proof fn law_rest_is_what_is_below(dir: Seq<char>, below: Seq<char>)
    requires
        dir.len() > 0,
        below.len() > 0,
        below[0] != '/' && below[0] != '.',
        below.last() != '/' && below.last() != '.',
    ensures
        path_after(dir + "/"@ + below, dir) == Some(below),
{
    reveal_strlit("/");
    reveal_strlit(".");
    reveal_strlit("./");
    let path = dir + "/"@ + below;
    assert(path[0] == dir[0]);
    assert(dir.len() > 1 ==> path[1] == dir[1]);
    lemma_opening(dir);
    lemma_opening(path);
    assert("/"@ =~= seq!['/']);
    let k = opening(dir).len() as int;
    assert(path.skip(k) =~= dir.skip(k) + seq!['/'] + below);
    lemma_pieces_of_both(dir.skip(k), below);
    let pieces = split_pieces(below, '/');
    law_pieces_make_the_text(below, '/');
    lemma_outer_pieces(pieces, below);
    lemma_parts_after_are(parts_of(dir), pieces);
}

#[verifier::rlimit(40)]
proof fn lemma_outer_pieces(pieces: Seq<Seq<char>>, s: Seq<char>)
    requires
        pieces.len() > 0,
        s.len() > 0,
        joined(pieces, seq!['/']) == s,
        s[0] != '/' && s[0] != '.',
        s.last() != '/' && s.last() != '.',
    ensures
        !leads_nowhere(pieces[0]),
        !leads_nowhere(pieces.last()),
        to_last_name(pieces) == pieces,
{
    reveal_strlit(".");
    if pieces.len() > 1 {
        let sep = seq!['/'];
        assert(s == joined(pieces.drop_last(), sep) + sep + pieces.last());
        if pieces.last().len() == 0 {
            assert(s.last() == '/');
        } else {
            assert(s.last() == pieces.last().last());
        }
        let first = seq![pieces[0]];
        assert(first + pieces.skip(1) =~= pieces);
        law_joined_by_parts(first, pieces.skip(1), sep, pieces[0]);
        assert(s == pieces[0] + sep + joined(pieces.skip(1), sep));
        if pieces[0].len() == 0 {
            assert(s[0] == '/');
        } else {
            assert(s[0] == pieces[0][0]);
        }
    }
}

proof fn lemma_parts_after_are(parts: Seq<Seq<char>>, more: Seq<Seq<char>>)
    requires
        more.len() > 0,
        !leads_nowhere(more[0]),
    ensures
        parts_after(parts + more, parts) == Some(more),
    decreases parts.len(),
{
    lemma_from_first_name(parts);
    let wanted = from_first_name(parts);
    if wanted.len() == 0 {
        lemma_no_names_before(parts, more);
    } else {
        lemma_first_name_before(parts, more);
        let rest = from_first_name(parts + more);
        assert(rest == wanted + more);
        assert(rest[0] == wanted[0]);
        assert(rest.skip(1) =~= wanted.skip(1) + more);
        lemma_parts_after_are(wanted.skip(1), more);
    }
}

proof fn lemma_no_names_before(parts: Seq<Seq<char>>, more: Seq<Seq<char>>)
    requires
        from_first_name(parts).len() == 0,
        more.len() > 0,
        !leads_nowhere(more[0]),
    ensures
        from_first_name(parts + more) == more,
    decreases parts.len(),
{
    if parts.len() == 0 {
        assert(parts + more =~= more);
    } else {
        assert((parts + more)[0] == parts[0]);
        assert((parts + more).skip(1) =~= parts.skip(1) + more);
        lemma_no_names_before(parts.skip(1), more);
    }
}

/// Directories side by side hold nothing of each other, whatever their names
/// begin with.
#[verifier::rlimit(40)]
pub proof fn law_neighbours_are_outside(a: Seq<char>, b: Seq<char>)
    requires
        a.len() > 0,
        b.len() > 0,
        a != b,
        a[0] != '.' && b[0] != '.',
        forall|k: int| 0 <= k < a.len() ==> #[trigger] a[k] != '/',
        forall|k: int| 0 <= k < b.len() ==> #[trigger] b[k] != '/',
    ensures
        !is_within("/"@ + a, "/"@ + b),
        !is_within(a, b),
        !is_within(a, "/"@ + b),
        !is_within("/"@ + a, b),
{
    reveal_strlit("/");
    reveal_strlit(".");
    reveal_strlit("./");
    assert(("/"@ + a)[0] == '/');
    assert(("/"@ + b)[0] == '/');
    lemma_opening("/"@ + a);
    lemma_opening("/"@ + b);
    lemma_opening(a);
    lemma_opening(b);
    lemma_char_position(a, '/', 0);
    lemma_char_position(b, '/', 0);
    assert(("/"@ + a).skip(1) =~= a);
    assert(("/"@ + b).skip(1) =~= b);
    assert(a.skip(0) =~= a);
    assert(b.skip(0) =~= b);
    assert(parts_of("/"@ + a) == seq![a]);
    assert(parts_of("/"@ + b) == seq![b]);
    assert(parts_of(a) == seq![a]);
    assert(parts_of(b) == seq![b]);
    assert(seq![a][0] != seq![b][0]);
    assert(parts_after(seq![a], seq![b]) is None);
}

} // verus!
