//! Paths as text.
//!
//! Paths are kept in the notation of Windows, the system the toolkit serves. A path may start with a
//! prefix: a drive (`C:`), a network share (`\\server\share`), a device (`\\.\COM1`), or one of the
//! verbatim forms (`\\?\C:`, `\\?\UNC\server\share`, `\\?\name`). Both slashes separate the parts of
//! a path; behind a verbatim prefix only the backslash does. A path without a prefix that starts
//! with a slash is taken from the root. Where a separator has to be added it is a backslash.
use vstd::prelude::*;

use crate::text;

verus! {

pub open spec fn is_separator(c: char) -> bool {
    c == '/' || c == '\\'
}

fn separator(c: char) -> (r: bool)
    ensures
        r == is_separator(c),
{
    c == '/' || c == '\\'
}

/// What parts are cut at: either slash, or in a verbatim path the backslash alone.
pub open spec fn cuts(c: char, verbatim: bool) -> bool {
    c == '\\' || (c == '/' && !verbatim)
}

/// The first position from `from` on at which a part ends, or the length.
pub open spec fn part_end(s: Seq<char>, from: int, verbatim: bool) -> int
    decreases s.len() - from,
{
    if from < 0 || from >= s.len() {
        s.len() as int
    } else if cuts(s[from], verbatim) {
        from
    } else {
        part_end(s, from + 1, verbatim)
    }
}

fn find_end(s: &[char], from: usize, verbatim: bool) -> (r: usize)
    requires
        from <= s@.len(),
    ensures
        r as int == part_end(s@, from as int, verbatim),
        from <= r <= s@.len(),
{
    let mut i: usize = from;
    while i < s.len() && !(s[i] == '\\' || (s[i] == '/' && !verbatim))
        invariant
            from <= i <= s.len(),
            part_end(s@, from as int, verbatim) == part_end(s@, i as int, verbatim),
        decreases s.len() - i,
    {
        i = i + 1;
    }
    i
}

/// The path starts with a drive letter and a colon.
pub open spec fn has_drive(s: Seq<char>) -> bool {
    s.len() >= 2 && text::is_letter(s[0]) && s[1] == ':'
}

/// The path starts with a slash.
pub open spec fn is_rooted(s: Seq<char>) -> bool {
    s.len() >= 1 && is_separator(s[0])
}

/// The path starts with `\\?\`, in backslashes.
pub open spec fn is_verbatim(s: Seq<char>) -> bool {
    s.len() >= 4 && s[0] == '\\' && s[1] == '\\' && s[2] == '?' && s[3] == '\\'
}

/// The path starts with `\\.\`, in either slash.
pub open spec fn is_device(s: Seq<char>) -> bool {
    s.len() >= 4 && is_separator(s[0]) && is_separator(s[1]) && s[2] == '.' && is_separator(s[3])
}

/// A verbatim path names a network share.
pub open spec fn is_verbatim_share(s: Seq<char>) -> bool {
    s.len() >= 8 && s[4] == 'U' && s[5] == 'N' && s[6] == 'C' && is_separator(s[7])
}

/// A verbatim path names a drive.
pub open spec fn is_verbatim_drive(s: Seq<char>) -> bool {
    s.len() >= 6 && text::is_letter(s[4]) && s[5] == ':' && (s.len() == 6 || is_separator(s[6]))
}

/// How much of a verbatim path is its prefix.
pub open spec fn verbatim_len(s: Seq<char>) -> int {
    if is_verbatim_share(s) {
        let server = part_end(s, 8, true);
        let share = part_end(s, server + 1, true);
        if server < s.len() && share > server + 1 {
            share
        } else {
            server
        }
    } else if is_verbatim_drive(s) {
        6
    } else {
        part_end(s, 4, true)
    }
}

/// How much of the path is its prefix: nothing, where it has none.
pub open spec fn prefix_len(s: Seq<char>) -> int {
    if has_drive(s) {
        2
    } else if is_verbatim(s) {
        verbatim_len(s)
    } else if is_device(s) {
        part_end(s, 4, false)
    } else if s.len() >= 2 && is_separator(s[0]) && is_separator(s[1]) {
        let server = part_end(s, 2, false);
        let share = part_end(s, server + 1, false);
        if server > 2 && server < s.len() && share > server + 1 {
            share
        } else {
            0
        }
    } else {
        0
    }
}

/// The path says where it is without regard to any current directory.
pub open spec fn is_absolute(s: Seq<char>) -> bool {
    if has_drive(s) {
        s.len() >= 3 && is_separator(s[2])
    } else {
        prefix_len(s) > 0
    }
}

/// The texts that are not empty.
pub open spec fn filled(v: Seq<Seq<char>>) -> Seq<Seq<char>>
    decreases v.len(),
{
    if v.len() == 0 {
        v
    } else if v.last().len() == 0 {
        filled(v.drop_last())
    } else {
        filled(v.drop_last()).push(v.last())
    }
}

/// The path with backslashes for slashes.
pub open spec fn backslashed(s: Seq<char>) -> Seq<char> {
    s.map_values(
        |c: char|
            if c == '/' {
                '\\'
            } else {
                c
            },
    )
}

/// The parts of a piece of a path.
pub open spec fn parts(s: Seq<char>) -> Seq<Seq<char>> {
    filled(text::pieces(backslashed(s), '\\'))
}

/// What follows the prefix of a verbatim path, without the slash that it may start with.
pub open spec fn verbatim_body(s: Seq<char>) -> Seq<char> {
    let rest = s.skip(verbatim_len(s));
    if is_rooted(rest) {
        rest.skip(1)
    } else {
        rest
    }
}

/// Where one walks to from `at` by going through `steps`: `.` stays, `..` goes back over a part that
/// is a name.
pub open spec fn walked(at: Seq<Seq<char>>, steps: Seq<Seq<char>>) -> Seq<Seq<char>>
    decreases steps.len(),
{
    if steps.len() == 0 {
        at
    } else {
        let before = walked(at, steps.drop_last());
        let step = steps.last();
        if step == "."@ {
            before
        } else if step == ".."@ {
            if before.len() > 0 && before.last() != "."@ && before.last() != ".."@ {
                before.drop_last()
            } else {
                before
            }
        } else {
            before.push(step)
        }
    }
}

/// A piece joined to a verbatim path. There `.` and `..` are no way to go, so what is joined is
/// walked through, and the result is put together anew.
pub open spec fn verbatim_joined(base: Seq<char>, piece: Seq<char>) -> Seq<char> {
    let prefix = base.take(verbatim_len(base));
    let rest = base.skip(verbatim_len(base));
    let at = if is_rooted(piece) {
        Seq::empty()
    } else {
        filled(text::pieces(verbatim_body(base), '\\'))
    };
    let to = walked(at, parts(piece));
    if is_rooted(piece) || is_rooted(rest) || to.len() > 0 {
        prefix + "\\"@ + text::joined(to, "\\"@)
    } else {
        prefix
    }
}

/// `piece` as seen from the directory `base`.
pub open spec fn joined(base: Seq<char>, piece: Seq<char>) -> Seq<char> {
    if prefix_len(piece) > 0 {
        piece
    } else if is_verbatim(base) && piece.len() > 0 {
        verbatim_joined(base, piece)
    } else if is_rooted(piece) {
        base.take(prefix_len(base)) + piece
    } else if base.len() == 0 || is_separator(base.last()) || (has_drive(base) && base.len() == 2) {
        base + piece
    } else {
        base + "\\"@ + piece
    }
}

fn verbatim(s: &[char]) -> (r: bool)
    ensures
        r == is_verbatim(s@),
{
    s.len() >= 4 && s[0] == '\\' && s[1] == '\\' && s[2] == '?' && s[3] == '\\'
}

/// The prefix of a verbatim path.
fn verbatim_prefix(s: &[char]) -> (r: usize)
    requires
        is_verbatim(s@),
    ensures
        r as int == verbatim_len(s@),
        4 <= r <= s@.len(),
{
    if s.len() >= 8 && s[4] == 'U' && s[5] == 'N' && s[6] == 'C' && separator(s[7]) {
        let server = find_end(s, 8, true);
        if server < s.len() {
            let share = find_end(s, server + 1, true);
            if share > server + 1 {
                return share;
            }
        }
        server
    } else if s.len() >= 6 && text::letter(s[4]) && s[5] == ':' && (s.len() == 6 || separator(s[6])) {
        6
    } else {
        find_end(s, 4, true)
    }
}

fn prefix(s: &[char]) -> (r: usize)
    ensures
        r as int == prefix_len(s@),
        r <= s@.len(),
{
    if s.len() >= 2 && text::letter(s[0]) && s[1] == ':' {
        2
    } else if verbatim(s) {
        verbatim_prefix(s)
    } else if s.len() >= 4 && separator(s[0]) && separator(s[1]) && s[2] == '.' && separator(s[3]) {
        find_end(s, 4, false)
    } else if s.len() >= 2 && separator(s[0]) && separator(s[1]) {
        let server = find_end(s, 2, false);
        if server > 2 && server < s.len() {
            let share = find_end(s, server + 1, false);
            if share > server + 1 {
                share
            } else {
                0
            }
        } else {
            0
        }
    } else {
        0
    }
}

pub fn absolute(s: &str) -> (r: bool)
    ensures
        r == is_absolute(s@),
{
    let c = text::chars_of(s);
    if c.len() >= 2 && text::letter(c[0]) && c[1] == ':' {
        c.len() >= 3 && separator(c[2])
    } else {
        prefix(&c) > 0
    }
}

/// The parts between backslashes that are not empty.
fn cut(s: &[char]) -> (r: Vec<String>)
    ensures
        text::texts(r@) == filled(text::pieces(s@, '\\')),
{
    let whole = text::string_of(s);
    let all = text::split(whole.as_str(), '\\');
    let mut out: Vec<String> = Vec::new();
    assert(text::texts(out@) =~= filled(text::texts(all@.take(0))));
    for i in 0..all.len()
        invariant
            text::texts(out@) == filled(text::texts(all@.take(i as int))),
    {
        let ghost next = text::texts(all@.take(i + 1));
        assert(next.drop_last() =~= text::texts(all@.take(i as int)));
        assert(next.last() == all@[i as int]@);
        if !all[i].as_str().is_empty() {
            let part = all[i].clone();
            proof {
                text::lemma_texts_push(out@, part);
            }
            out.push(part);
        }
    }
    assert(all@.take(all@.len() as int) == all@);
    out
}

/// Go through one step.
fn walk(at: &mut Vec<String>, step: &str)
    ensures
        text::texts(final(at)@) == walked(text::texts(old(at)@), seq![step@]),
{
    proof {
        let before = text::texts(at@);
        assert(seq![step@].drop_last() =~= Seq::<Seq<char>>::empty());
        reveal_with_fuel(walked, 2);
        assert(walked(before, seq![step@].drop_last()) == before);
        assert(at@.len() > 0 ==> before.last() == at@.last()@);
        assert(at@.len() > 0 ==> text::texts(at@.drop_last()) =~= before.drop_last());
    }
    if text::same(step, ".") {
        return;
    }
    if text::same(step, "..") {
        let n = at.len();
        if n > 0 && !text::same(at[n - 1].as_str(), ".") && !text::same(at[n - 1].as_str(), "..") {
            at.pop();
        }
        return;
    }
    let part = step.to_string();
    proof {
        text::lemma_texts_push(at@, part);
    }
    at.push(part);
}

fn verbatim_join(b: &[char], p: &[char]) -> (r: String)
    requires
        is_verbatim(b@),
    ensures
        r@ == verbatim_joined(b@, p@),
{
    let n = verbatim_prefix(b);
    let mut rooted = n < b.len() && separator(b[n]);
    let start: usize = if rooted {
        n + 1
    } else {
        n
    };
    let body = vstd::slice::slice_subrange(b, start, b.len());
    assert(body@ =~= verbatim_body(b@));
    let mut at = cut(body);
    if p.len() > 0 && separator(p[0]) {
        rooted = true;
        at = Vec::new();
        assert(text::texts(at@) =~= Seq::<Seq<char>>::empty());
    }
    let ghost from = text::texts(at@);
    let mut slashed: Vec<char> = Vec::new();
    for i in 0..p.len()
        invariant
            slashed@ == backslashed(p@.take(i as int)),
    {
        slashed.push(
            if p[i] == '/' {
                '\\'
            } else {
                p[i]
            },
        );
        assert(slashed@ =~= backslashed(p@.take(i + 1)));
    }
    assert(p@.take(p@.len() as int) == p@);
    let steps = cut(&slashed);
    for i in 0..steps.len()
        invariant
            text::texts(at@) == walked(from, text::texts(steps@.take(i as int))),
    {
        let ghost next = text::texts(steps@.take(i + 1));
        let ghost was = text::texts(at@);
        assert(next.drop_last() =~= text::texts(steps@.take(i as int)));
        assert(next.last() == steps@[i as int]@);
        walk(&mut at, steps[i].as_str());
        assert(text::texts(at@) == walked(from, next)) by {
            let one = seq![steps@[i as int]@];
            assert(one.drop_last() =~= Seq::<Seq<char>>::empty());
            assert(walked(was, one.drop_last()) == was);
        }
    }
    assert(steps@.take(steps@.len() as int) == steps@);
    let lead = vstd::slice::slice_subrange(b, 0, n);
    assert(lead@ =~= b@.take(n as int));
    let mut out = text::string_of(lead);
    if rooted || at.len() > 0 {
        out.append("\\");
        out.append(text::join(&at, "\\").as_str());
    }
    out
}

pub fn join(base: &str, piece: &str) -> (r: String)
    ensures
        r@ == joined(base@, piece@),
{
    let b = text::chars_of(base);
    let p = text::chars_of(piece);
    if prefix(&p) > 0 {
        return piece.to_string();
    }
    if verbatim(&b) && p.len() > 0 {
        return verbatim_join(&b, &p);
    }
    if p.len() > 0 && separator(p[0]) {
        let n = prefix(&b);
        let lead = vstd::slice::slice_subrange(b.as_slice(), 0, n);
        assert(lead@ == base@.take(n as int));
        let mut out = text::string_of(lead);
        out.append(piece);
        return out;
    }
    let mut out = base.to_string();
    if b.len() > 0 && !separator(b[b.len() - 1]) && !(b.len() == 2 && text::letter(b[0]) && b[1]
        == ':') {
        out.append("\\");
    }
    out.append(piece);
    out
}

/// A path joined to a directory keeps the directory in front and the piece behind, whenever the
/// piece is a relative one.
pub proof fn law_a_relative_piece_stays_under_its_base(base: Seq<char>, piece: Seq<char>)
    requires
        prefix_len(piece) == 0,
        !is_rooted(piece),
        !is_verbatim(base) || piece.len() == 0,
    ensures
        text::begins(joined(base, piece), base),
        text::finishes(joined(base, piece), piece),
{
    let r = joined(base, piece);
    assert(r.subrange(0, base.len() as int) =~= base);
    assert(r.subrange(r.len() - piece.len(), r.len() as int) =~= piece);
}

/// A piece without a prefix of its own never leaves the prefix of a verbatim path.
pub proof fn law_a_verbatim_base_keeps_its_prefix(base: Seq<char>, piece: Seq<char>)
    requires
        is_verbatim(base),
        prefix_len(piece) == 0,
    ensures
        text::begins(joined(base, piece), base.take(prefix_len(base))),
{
    lemma_verbatim_len(base);
    let lead = base.take(prefix_len(base));
    let r = joined(base, piece);
    assert(r.subrange(0, lead.len() as int) =~= lead);
}

/// An absolute path is left alone by a join.
pub proof fn law_an_absolute_piece_is_left_alone(base: Seq<char>, piece: Seq<char>)
    requires
        is_absolute(piece),
    ensures
        joined(base, piece) == piece,
{
}

/// A name that can stand as one part of a path.
pub open spec fn is_name(s: Seq<char>) -> bool {
    &&& s.len() > 0
    &&& forall|i: int| 0 <= i < s.len() ==> !is_separator(#[trigger] s[i])
    &&& !has_drive(s)
    &&& s != "."@
    &&& s != ".."@
}

/// From `from` on, every backslash stands between two parts.
spec fn is_tight(s: Seq<char>, from: int) -> bool {
    forall|i: int|
        from <= i < s.len() && #[trigger] s[i] == '\\' ==> i + 1 < s.len() && s[i + 1] != '\\'
}

/// A verbatim path that is put together as a join does it.
spec fn is_tidy(s: Seq<char>) -> bool {
    let n = verbatim_len(s);
    &&& is_verbatim(s)
    &&& 4 <= n <= s.len()
    &&& n < s.len() ==> s[n] == '\\' && is_tight(s, n)
}

proof fn lemma_part_end(s: Seq<char>, from: int, verbatim: bool)
    requires
        0 <= from <= s.len(),
    ensures
        from <= part_end(s, from, verbatim) <= s.len(),
        part_end(s, from, verbatim) < s.len() ==> cuts(
            s[part_end(s, from, verbatim)],
            verbatim,
        ),
        forall|j: int|
            from <= j < part_end(s, from, verbatim) ==> !cuts(#[trigger] s[j], verbatim),
    decreases s.len() - from,
{
    if from < s.len() && !cuts(s[from], verbatim) {
        lemma_part_end(s, from + 1, verbatim);
    }
}

proof fn lemma_part_end_is(s: Seq<char>, from: int, verbatim: bool, end: int)
    requires
        0 <= from <= end <= s.len(),
        end < s.len() ==> cuts(s[end], verbatim),
        forall|j: int| from <= j < end ==> !cuts(#[trigger] s[j], verbatim),
    ensures
        part_end(s, from, verbatim) == end,
{
    lemma_part_end(s, from, verbatim);
    let r = part_end(s, from, verbatim);
    if r < end {
        assert(!cuts(s[r], verbatim));
    }
    if end < r {
        assert(!cuts(s[end], verbatim));
    }
}

/// With a backslash behind its prefix, and anything behind that, a verbatim path keeps at least that
/// prefix.
proof fn lemma_prefix_is_kept(base: Seq<char>, s: Seq<char>)
    requires
        is_verbatim(base),
        s.len() > verbatim_len(base),
        s.take(verbatim_len(base)) == base.take(verbatim_len(base)),
        s[verbatim_len(base)] == '\\',
    ensures
        4 <= verbatim_len(base) <= base.len(),
        is_verbatim(s),
        verbatim_len(base) <= verbatim_len(s) <= s.len(),
        verbatim_len(s) < s.len() ==> s[verbatim_len(s)] == '\\',
{
    let n = verbatim_len(base);
    lemma_part_end(base, 4, true);
    if is_verbatim_share(base) {
        lemma_part_end(base, 8, true);
        let server = part_end(base, 8, true);
        if server < base.len() {
            lemma_part_end(base, server + 1, true);
        }
    }
    assert(4 <= n <= base.len());
    assert forall|i: int| 0 <= i < n implies s[i] == base[i] by {
        assert(s.take(n)[i] == base.take(n)[i]);
    }
    lemma_part_end(s, 4, true);
    if is_verbatim_share(s) {
        lemma_part_end(s, 8, true);
        let server = part_end(s, 8, true);
        if server < s.len() {
            lemma_part_end(s, server + 1, true);
        }
    }
    if is_verbatim_share(base) {
        let server = part_end(base, 8, true);
        assert(is_verbatim_share(s));
        assert forall|j: int| 8 <= j < server implies !cuts(#[trigger] s[j], true) by {
            assert(s[j] == base[j]);
        }
        lemma_part_end_is(s, 8, true, server);
        if server < n {
            assert forall|j: int| server + 1 <= j < n implies !cuts(#[trigger] s[j], true) by {
                assert(s[j] == base[j]);
            }
            lemma_part_end_is(s, server + 1, true, n);
        }
    } else if is_verbatim_drive(base) {
        assert(s[4] == base[4] && s[5] == base[5]);
    } else {
        assert forall|j: int| 4 <= j < n implies !cuts(#[trigger] s[j], true) by {
            assert(s[j] == base[j]);
        }
        lemma_part_end_is(s, 4, true, n);
        if is_verbatim_share(s) && n >= 8 {
            assert(s[4] == base[4] && s[5] == base[5] && s[6] == base[6] && s[7] == base[7]);
        }
        if is_verbatim_drive(s) {
            assert(n != 4 && n != 5);
            assert(s[4] == base[4] && s[5] == base[5]);
            if n > 6 {
                assert(s[6] == base[6]);
            }
        }
    }
}

proof fn lemma_filled(v: Seq<Seq<char>>)
    ensures
        forall|i: int| 0 <= i < filled(v).len() ==> (#[trigger] filled(v)[i]).len() > 0 && v.contains(
            filled(v)[i],
        ),
        (forall|i: int| 0 <= i < v.len() ==> (#[trigger] v[i]).len() > 0) ==> filled(v) == v,
    decreases v.len(),
{
    if v.len() > 0 {
        let front = v.drop_last();
        lemma_filled(front);
        assert forall|i: int| 0 <= i < filled(v).len() implies (#[trigger] filled(v)[i]).len() > 0
            && v.contains(filled(v)[i]) by {
            if i < filled(front).len() {
                assert(filled(v)[i] == filled(front)[i]);
                let k = choose|k: int| 0 <= k < front.len() && front[k] == filled(front)[i];
                assert(v[k] == filled(v)[i]);
            } else {
                assert(v[v.len() - 1] == filled(v)[i]);
            }
        }
        if forall|i: int| 0 <= i < v.len() ==> (#[trigger] v[i]).len() > 0 {
            assert forall|i: int| 0 <= i < front.len() implies (#[trigger] front[i]).len() > 0 by {
                assert(front[i] == v[i]);
            }
            assert(v[v.len() - 1].len() > 0);
            assert(front.push(v.last()) =~= v);
        }
    }
}

/// No piece holds what the text was cut at, and none is empty where every cut stands between parts.
proof fn lemma_pieces(s: Seq<char>)
    ensures
        text::pieces(s, '\\').len() > 0,
        forall|i: int, j: int|
            0 <= i < text::pieces(s, '\\').len() && 0 <= j < text::pieces(s, '\\')[i].len()
                ==> #[trigger] text::pieces(s, '\\')[i][j] != '\\',
        s.len() > 0 && s[0] != '\\' && is_tight(s, 0) ==> forall|i: int|
            0 <= i < text::pieces(s, '\\').len() ==> (#[trigger] text::pieces(s, '\\')[i]).len()
                > 0,
    decreases s.len(),
{
    let all = text::pieces(s, '\\');
    let k = text::first_of(s, '\\');
    text::lemma_first_of(s, '\\');
    if k < s.len() {
        let head = s.take(k);
        let tail = s.skip(k + 1);
        lemma_pieces(tail);
        assert(all == seq![head] + text::pieces(tail, '\\'));
        assert forall|i: int, j: int|
            0 <= i < all.len() && 0 <= j < all[i].len() implies #[trigger] all[i][j] != '\\' by {
            if i > 0 {
                assert(all[i] == text::pieces(tail, '\\')[i - 1]);
            }
        }
        if s.len() > 0 && s[0] != '\\' && is_tight(s, 0) {
            assert(tail.len() > 0 && tail[0] != '\\');
            assert(is_tight(tail, 0)) by {
                assert forall|i: int| 0 <= i < tail.len() && #[trigger] tail[i] == '\\' implies i + 1
                    < tail.len() && tail[i + 1] != '\\' by {
                    assert(s[k + 1 + i] == '\\');
                }
            }
            assert forall|i: int| 0 <= i < all.len() implies (#[trigger] all[i]).len() > 0 by {
                if i > 0 {
                    assert(all[i] == text::pieces(tail, '\\')[i - 1]);
                }
            }
        }
    }
}

proof fn lemma_joined_from_the_front(head: Seq<char>, rest: Seq<Seq<char>>)
    requires
        rest.len() > 0,
    ensures
        text::joined(seq![head] + rest, "\\"@) == head + "\\"@ + text::joined(rest, "\\"@),
    decreases rest.len(),
{
    let all = seq![head] + rest;
    assert(all.last() == rest.last());
    if rest.len() == 1 {
        assert(all.drop_last() =~= seq![head]);
        assert(text::joined(seq![head], "\\"@) == head);
    } else {
        lemma_joined_from_the_front(head, rest.drop_last());
        assert(all.drop_last() =~= seq![head] + rest.drop_last());
        assert(text::joined(all, "\\"@) =~= head + "\\"@ + text::joined(rest, "\\"@));
    }
}

/// Joining undoes the cutting.
proof fn lemma_pieces_are_joined(s: Seq<char>)
    ensures
        text::joined(text::pieces(s, '\\'), "\\"@) == s,
    decreases s.len(),
{
    reveal_strlit("\\");
    let k = text::first_of(s, '\\');
    text::lemma_first_of(s, '\\');
    if k < s.len() {
        let tail = s.skip(k + 1);
        lemma_pieces(tail);
        lemma_pieces_are_joined(tail);
        lemma_joined_from_the_front(s.take(k), text::pieces(tail, '\\'));
        assert(s.take(k) + "\\"@ + tail =~= s);
    }
}

/// Parts that are joined have every backslash between two of them.
proof fn lemma_joined_is_tight(v: Seq<Seq<char>>)
    requires
        v.len() > 0,
        forall|i: int| 0 <= i < v.len() ==> (#[trigger] v[i]).len() > 0,
        forall|i: int, j: int|
            0 <= i < v.len() && 0 <= j < v[i].len() ==> #[trigger] v[i][j] != '\\',
    ensures
        text::joined(v, "\\"@).len() > 0,
        text::joined(v, "\\"@)[0] != '\\',
        text::joined(v, "\\"@).last() != '\\',
        is_tight(text::joined(v, "\\"@), 0),
    decreases v.len(),
{
    reveal_strlit("\\");
    let all = text::joined(v, "\\"@);
    assert(v[v.len() - 1].len() > 0);
    assert(v[v.len() - 1][0] != '\\');
    assert(v[v.len() - 1][v[v.len() - 1].len() - 1] != '\\');
    if v.len() > 1 {
        let front = v.drop_last();
        assert forall|i: int| 0 <= i < front.len() implies (#[trigger] front[i]).len() > 0 by {
            assert(front[i] == v[i]);
        }
        assert forall|i: int, j: int|
            0 <= i < front.len() && 0 <= j < front[i].len() implies #[trigger] front[i][j] != '\\' by {
            assert(front[i] == v[i]);
            assert(v[i][j] != '\\');
        }
        lemma_joined_is_tight(front);
        let before = text::joined(front, "\\"@);
        let last = v[v.len() - 1];
        assert forall|i: int| 0 <= i < all.len() && #[trigger] all[i] == '\\' implies i + 1 < all.len()
            && all[i + 1] != '\\' by {
            if i < before.len() {
                assert(before[i] == '\\');
            } else if i > before.len() {
                assert(all[i] == last[i - before.len() - 1]);
            }
        }
    } else {
        assert forall|i: int| 0 <= i < all.len() && #[trigger] all[i] == '\\' implies i + 1 < all.len()
            && all[i + 1] != '\\' by {
            assert(all[i] == v[0][i]);
        }
    }
}

proof fn lemma_a_name_is_one_part(at: Seq<Seq<char>>, name: Seq<char>)
    requires
        is_name(name),
    ensures
        prefix_len(name) == 0,
        !is_rooted(name),
        walked(at, parts(name)) == at.push(name),
{
    assert(!is_separator(name[0]));
    assert(backslashed(name) =~= name);
    text::lemma_first_of(name, '\\');
    let k = text::first_of(name, '\\');
    if k < name.len() {
        assert(!is_separator(name[k]));
    }
    assert(text::pieces(name, '\\') == seq![name]);
    lemma_filled(seq![name]);
    assert(seq![name].drop_last() =~= Seq::<Seq<char>>::empty());
    assert(walked(at, seq![name].drop_last()) == at);
}

/// What a name makes of a verbatim path is put together anew.
proof fn lemma_a_join_is_tidy(base: Seq<char>, name: Seq<char>)
    requires
        is_verbatim(base),
        is_name(name),
    ensures
        is_tidy(joined(base, name)),
{
    reveal_strlit("\\");
    let body = verbatim_body(base);
    let at = filled(text::pieces(body, '\\'));
    let to = at.push(name);
    lemma_a_name_is_one_part(at, name);
    lemma_pieces(body);
    lemma_filled(text::pieces(body, '\\'));
    assert forall|i: int| 0 <= i < to.len() implies (#[trigger] to[i]).len() > 0 by {
        if i < at.len() {
            assert(to[i] == at[i]);
        }
    }
    assert forall|i: int, j: int| 0 <= i < to.len() && 0 <= j < to[i].len() implies #[trigger] to[i][j]
        != '\\' by {
        if i < at.len() {
            let all = text::pieces(body, '\\');
            assert(to[i] == at[i]);
            let k = choose|k: int| 0 <= k < all.len() && all[k] == at[i];
            assert(all[k][j] != '\\');
        } else {
            assert(!is_separator(name[j]));
        }
    }
    lemma_joined_is_tight(to);
    let n = verbatim_len(base);
    let behind = text::joined(to, "\\"@);
    let r = joined(base, name);
    lemma_verbatim_len(base);
    assert(r == base.take(n) + "\\"@ + behind);
    assert(r.take(n) =~= base.take(n));
    assert(r[n] == '\\');
    lemma_prefix_is_kept(base, r);
    let m = verbatim_len(r);
    assert forall|i: int| m <= i < r.len() && #[trigger] r[i] == '\\' implies i + 1 < r.len() && r[i
        + 1] != '\\' by {
        if i > n {
            assert(behind[i - n - 1] == '\\');
            assert(r[i + 1] == behind[i - n]);
        } else {
            assert(r[i + 1] == behind[0]);
        }
    }
}

proof fn lemma_verbatim_len(s: Seq<char>)
    requires
        is_verbatim(s),
    ensures
        4 <= verbatim_len(s) <= s.len(),
{
    lemma_part_end(s, 4, true);
    if is_verbatim_share(s) {
        lemma_part_end(s, 8, true);
        if part_end(s, 8, true) < s.len() {
            lemma_part_end(s, part_end(s, 8, true) + 1, true);
        }
    }
}

proof fn lemma_a_tidy_path_keeps_its_text(base: Seq<char>, name: Seq<char>)
    requires
        is_tidy(base),
        is_name(name),
    ensures
        joined(base, name) == base + "\\"@ + name,
{
    reveal_strlit("\\");
    let n = verbatim_len(base);
    let body = verbatim_body(base);
    let all = text::pieces(body, '\\');
    lemma_pieces(body);
    lemma_filled(all);
    lemma_a_name_is_one_part(filled(all), name);
    let to = filled(all).push(name);
    assert(to.drop_last() =~= filled(all));
    if n == base.len() {
        assert(body =~= Seq::<char>::empty());
        assert(all =~= seq![body]);
        assert(all.drop_last() =~= Seq::<Seq<char>>::empty());
        reveal_with_fuel(filled, 2);
        assert(filled(all) =~= Seq::<Seq<char>>::empty());
        assert(text::joined(to, "\\"@) == name);
        assert(base.take(n) =~= base);
    } else {
        assert(body =~= base.skip(n + 1));
        assert(base[n] == '\\');
        assert(body[0] == base[n + 1]);
        assert(is_tight(body, 0)) by {
            assert forall|i: int| 0 <= i < body.len() && #[trigger] body[i] == '\\' implies i + 1
                < body.len() && body[i + 1] != '\\' by {
                assert(base[n + 1 + i] == '\\');
            }
        }
        lemma_pieces_are_joined(body);
        assert(text::joined(to, "\\"@) == body + "\\"@ + name);
        assert(base.take(n) + "\\"@ + (body + "\\"@ + name) =~= base + "\\"@ + name);
    }
}

/// Names joined to a directory one after the other stand behind it one after the other: the second
/// names a child of what the first has named.
pub proof fn law_names_stack(base: Seq<char>, a: Seq<char>, b: Seq<char>)
    requires
        is_name(a),
        is_name(b),
    ensures
        joined(joined(base, a), b) == joined(base, a) + "\\"@ + b,
{
    reveal_strlit("\\");
    lemma_a_name_is_one_part(Seq::empty(), a);
    lemma_a_name_is_one_part(Seq::empty(), b);
    let r = joined(base, a);
    assert(!is_separator(a[a.len() - 1]));
    if is_verbatim(base) {
        lemma_a_join_is_tidy(base, a);
        lemma_a_tidy_path_keeps_its_text(r, b);
    } else if is_verbatim(r) {
        // Only the start of a verbatim prefix can have been completed.
        assert(base.len() < 4) by {
            if base.len() >= 4 {
                assert(r[0] == base[0] && r[1] == base[1] && r[2] == base[2] && r[3] == base[3]);
            }
        }
        assert(!is_separator(a[0]));
        assert(base.len() == 3 && r =~= base + "\\"@ + a);
        assert forall|j: int| 4 <= j < r.len() implies !is_separator(#[trigger] r[j]) by {
            assert(r[j] == a[j - 4]);
        }
        lemma_part_end_is(r, 4, true, r.len() as int);
        lemma_a_tidy_path_keeps_its_text(r, b);
    } else {
        assert(r.last() == a.last());
        assert(!(has_drive(r) && r.len() == 2));
    }
}

// ---- how paths are put together ------------------------------------------------------------------

/// A piece joined to an ordinary directory stands behind it with a backslash between them, unless
/// the directory ends in a separator already or is a bare drive.
pub proof fn law_how_a_piece_is_put_behind(base: Seq<char>, piece: Seq<char>)
    requires
        prefix_len(piece) == 0,
        !is_rooted(piece),
        !is_verbatim(base),
    ensures
        base.len() == 0 ==> joined(base, piece) == piece,
        base.len() > 0 && (base.last() == '/' || base.last() == '\\') ==> joined(base, piece) == base
            + piece,
        base.len() == 2 && text::is_letter(base[0]) && base[1] == ':' ==> joined(base, piece) == base
            + piece,
        base.len() > 2 && base.last() != '/' && base.last() != '\\' ==> joined(base, piece) == base
            + seq!['\\'] + piece,
{
    reveal_strlit("\\");
    assert("\\"@ =~= seq!['\\']);
    if base.len() == 0 {
        assert(base + piece =~= piece);
    }
}

/// A piece that starts at the root replaces all of a directory but the directory's drive.
pub proof fn law_a_rooted_piece_starts_at_the_root(letter: char, rest: Seq<char>, piece: Seq<char>)
    requires
        text::is_letter(letter),
        is_rooted(piece),
        prefix_len(piece) == 0,
    ensures
        joined(seq![letter, ':'] + rest, piece) == seq![letter, ':'] + piece,
{
    let base = seq![letter, ':'] + rest;
    assert(base.take(2) =~= seq![letter, ':']);
}

proof fn lemma_a_share(server: Seq<char>, share: Seq<char>, rest: Seq<char>)
    requires
        is_name(server),
        is_name(share),
        server[0] != '?',
        rest.len() == 0 || is_separator(rest[0]),
    ensures
        prefix_len(seq!['\\', '\\'] + server + seq!['\\'] + share + rest) == 3 + server.len()
            + share.len(),
{
    let s = seq!['\\', '\\'] + server + seq!['\\'] + share + rest;
    let at = (2 + server.len()) as int;
    assert forall|i: int| 2 <= i < at implies !is_separator(#[trigger] s[i]) by {
        assert(s[i] == server[i - 2]);
    }
    assert(s[at] == '\\');
    assert forall|i: int| at + 1 <= i < at + 1 + share.len() implies !is_separator(
        #[trigger] s[i],
    ) by {
        assert(s[i] == share[i - at - 1]);
    }
    let end = at + 1 + share.len();
    if rest.len() > 0 {
        assert(s[end] == rest[0]);
    }
    lemma_part_end_is(s, 2, false, at);
    lemma_part_end_is(s, at + 1, false, end);
    assert(s[0] == '\\' && s[1] == '\\' && s[2] == server[0]);
    reveal_strlit(".");
    assert(!is_device(s)) by {
        if is_device(s) {
            if server.len() == 1 {
                assert(server =~= "."@);
            } else {
                assert(!is_separator(s[3]));
            }
        }
    }
}

/// A path with a drive and a separator is absolute, and so is a network share; a drive alone, a path
/// from the root and a name are not.
pub proof fn law_what_is_absolute(
    letter: char,
    slash: char,
    rest: Seq<char>,
    server: Seq<char>,
    share: Seq<char>,
)
    requires
        text::is_letter(letter),
        is_separator(slash),
        is_name(server),
        is_name(share),
        server[0] != '?',
    ensures
        is_absolute(seq![letter, ':', slash] + rest),
        is_absolute(seq!['\\', '\\'] + server + seq!['\\'] + share),
        !is_absolute(seq![letter, ':']),
        !is_absolute(seq![letter, ':'] + server),
        !is_absolute(server),
        !is_absolute(seq![slash] + server),
{
    let drive = seq![letter, ':', slash] + rest;
    assert(drive[0] == letter && drive[1] == ':' && drive[2] == slash);
    let empty = Seq::<char>::empty();
    let net = seq!['\\', '\\'] + server + seq!['\\'] + share;
    lemma_a_share(server, share, empty);
    assert(net + empty =~= net);
    assert(net[0] == '\\');
    let at = seq![letter, ':'] + server;
    assert(at[0] == letter && at[1] == ':' && at[2] == server[0]);
    assert(!is_separator(server[0]));
    lemma_a_name_is_one_part(Seq::empty(), server);
    let rooted = seq![slash] + server;
    assert(rooted[0] == slash && rooted[1] == server[0]);
    assert(!text::is_letter(slash));
}

/// Walking takes one step after the other: a name goes down, a dot stays, and two dots go back over
/// a name.
#[verifier::rlimit(50)]
pub proof fn law_how_one_walks(
    at: Seq<Seq<char>>,
    a: Seq<Seq<char>>,
    b: Seq<Seq<char>>,
    name: Seq<char>,
)
    requires
        name != "."@,
        name != ".."@,
    ensures
        walked(at, a + b) == walked(walked(at, a), b),
        walked(at, Seq::empty()) == at,
        walked(at, seq![name]) == at.push(name),
        walked(at, seq!["."@]) == at,
        walked(at.push(name), seq![".."@]) == at,
        walked(Seq::empty(), seq![".."@]) == Seq::<Seq<char>>::empty(),
    decreases b.len(),
{
    reveal_strlit(".");
    reveal_strlit("..");
    assert("."@.len() == 1 && ".."@.len() == 2);
    reveal_with_fuel(walked, 2);
    assert(seq![name].drop_last() =~= Seq::<Seq<char>>::empty());
    assert(seq!["."@].drop_last() =~= Seq::<Seq<char>>::empty());
    assert(seq![".."@].drop_last() =~= Seq::<Seq<char>>::empty());
    assert(at.push(name).drop_last() =~= at);
    if b.len() == 0 {
        assert(a + b =~= a);
    } else {
        law_how_one_walks(at, a, b.drop_last(), name);
        assert((a + b).drop_last() =~= a + b.drop_last());
    }
}

/// The parts that are not empty are kept in order.
#[verifier::rlimit(50)]
pub proof fn law_which_parts_count(a: Seq<Seq<char>>, b: Seq<Seq<char>>, x: Seq<char>)
    ensures
        filled(a + b) == filled(a) + filled(b),
        filled(seq![x]) == if x.len() > 0 {
            seq![x]
        } else {
            Seq::empty()
        },
    decreases b.len(),
{
    reveal_with_fuel(filled, 2);
    assert(seq![x].drop_last() =~= Seq::<Seq<char>>::empty());
    assert(Seq::<Seq<char>>::empty().push(x) =~= seq![x]);
    if b.len() == 0 {
        assert(a + b =~= a);
        assert(filled(a) + filled(b) =~= filled(a));
    } else {
        law_which_parts_count(a, b.drop_last(), x);
        assert((a + b).drop_last() =~= a + b.drop_last());
        assert(filled(a + b) =~= filled(a) + filled(b));
    }
}

/// A name joined to any directory comes last in the result, so that two names in one directory make
/// two paths.
pub proof fn law_a_name_comes_last(base: Seq<char>, a: Seq<char>, b: Seq<char>)
    requires
        is_name(a),
        is_name(b),
    ensures
        text::finishes(joined(base, a), a),
        joined(base, a) == joined(base, b) ==> a == b,
{
    let front = lemma_a_name_behind(base, a);
    let other = lemma_a_name_behind(base, b);
    let r = joined(base, a);
    assert(r.subrange(r.len() - a.len(), r.len() as int) =~= a);
    assert((front + a).skip(front.len() as int) =~= a);
    assert((front + b).skip(front.len() as int) =~= b);
}

/// What stands in front of a name joined to a directory.
spec fn lead_of(base: Seq<char>) -> Seq<char> {
    if is_verbatim(base) {
        let at = filled(text::pieces(verbatim_body(base), '\\'));
        let prefix = base.take(verbatim_len(base)) + "\\"@;
        if at.len() == 0 {
            prefix
        } else {
            prefix + text::joined(at, "\\"@) + "\\"@
        }
    } else if base.len() == 0 || is_separator(base.last()) || (has_drive(base) && base.len() == 2) {
        base
    } else {
        base + "\\"@
    }
}

proof fn lemma_a_name_behind(base: Seq<char>, name: Seq<char>) -> (front: Seq<char>)
    requires
        is_name(name),
    ensures
        front == lead_of(base),
        joined(base, name) == front + name,
{
    let at = filled(text::pieces(verbatim_body(base), '\\'));
    lemma_a_name_is_one_part(at, name);
    if is_verbatim(base) {
        assert(at.push(name).drop_last() =~= at);
        let prefix = base.take(verbatim_len(base)) + "\\"@;
        if at.len() > 0 {
            assert(prefix + (text::joined(at, "\\"@) + "\\"@ + name) =~= prefix + text::joined(
                at,
                "\\"@,
            ) + "\\"@ + name);
        }
    }
    lead_of(base)
}

/// Behind a verbatim prefix, a piece that starts at the root is put right behind the prefix.
#[verifier::rlimit(50)]
pub proof fn law_a_verbatim_root_is_the_prefix(base: Seq<char>, slash: char, name: Seq<char>)
    requires
        is_verbatim(base),
        is_separator(slash),
        is_name(name),
    ensures
        joined(base, seq![slash] + name) == base.take(prefix_len(base)) + "\\"@ + name,
{
    let piece = seq![slash] + name;
    let none = Seq::<Seq<char>>::empty();
    let empty = Seq::<char>::empty();
    let b = backslashed(piece);
    assert(!is_separator(name[0]));
    assert(piece[0] == slash && piece[1] == name[0]);
    assert(!text::is_letter(slash));
    assert(prefix_len(piece) == 0);
    assert(backslashed(name) =~= name);
    assert(b =~= seq!['\\'] + name);
    assert(empty + seq!['\\'] + name =~= b);
    text::law_a_split_is_at_the_first_place(b, empty, '\\', name);
    text::law_a_split_is_at_the_first_place(b, name, '\\', empty);
    assert(text::pieces(name, '\\') == seq![name]);
    assert(text::pieces(b, '\\') == seq![empty] + seq![name]);
    law_which_parts_count(seq![empty], seq![name], name);
    law_which_parts_count(seq![empty], seq![name], empty);
    assert(Seq::<Seq<char>>::empty() + seq![name] =~= seq![name]);
    assert(parts(piece) == seq![name]);
    law_how_one_walks(none, none, none, name);
    assert(none.push(name) =~= seq![name]);
    assert(text::joined(seq![name], "\\"@) == name);
}

/// A verbatim path starts with two backslashes, a question mark and a backslash, and with nothing
/// less.
pub proof fn law_what_is_verbatim(s: Seq<char>)
    ensures
        is_verbatim(s) <==> text::begins(s, "\\\\?\\"@),
{
    reveal_strlit("\\\\?\\");
    let lead = "\\\\?\\"@;
    if text::begins(s, lead) {
        assert(s.subrange(0, 4)[0] == s[0] && s.subrange(0, 4)[1] == s[1] && s.subrange(0, 4)[2]
            == s[2] && s.subrange(0, 4)[3] == s[3]);
    }
    if is_verbatim(s) {
        assert(s.subrange(0, 4) =~= lead);
    }
}

/// The prefix of a verbatim path is the drive, the server with its share, or the one name that it
/// starts with; that of a device path is the device.
pub proof fn law_what_a_longer_prefix_is(
    letter: char,
    server: Seq<char>,
    share: Seq<char>,
    name: Seq<char>,
    rest: Seq<char>,
)
    requires
        text::is_letter(letter),
        is_name(server),
        is_name(share),
        is_name(name),
        name != "UNC"@,
        rest.len() == 0 || rest[0] == '\\',
    ensures
        prefix_len("\\\\?\\"@ + seq![letter, ':'] + rest) == 6,
        prefix_len("\\\\?\\"@ + name + rest) == 4 + name.len(),
        prefix_len("\\\\.\\"@ + name + rest) == 4 + name.len(),
        prefix_len("\\\\?\\"@ + "UNC\\"@ + server + seq!['\\'] + share + rest) == 9 + server.len()
            + share.len(),
{
    reveal_strlit("\\\\?\\");
    reveal_strlit("\\\\.\\");
    reveal_strlit("UNC\\");
    reveal_strlit("UNC");
    let drive = "\\\\?\\"@ + seq![letter, ':'] + rest;
    assert(drive[4] == letter && drive[5] == ':');
    if rest.len() > 0 {
        assert(drive[6] == rest[0]);
    }
    assert(is_verbatim_drive(drive));
    assert(!is_verbatim_share(drive)) by {
        if is_verbatim_share(drive) {
            assert(drive[5] == 'N');
        }
    }
    let a = "\\\\?\\"@ + name + rest;
    let b = "\\\\.\\"@ + name + rest;
    let n = (4 + name.len()) as int;
    assert forall|i: int| 4 <= i < n implies !is_separator(#[trigger] a[i]) && !is_separator(b[i]) by {
        assert(a[i] == name[i - 4] && b[i] == name[i - 4]);
    }
    assert forall|i: int| 4 <= i < n implies !is_separator(#[trigger] b[i]) by {
        assert(b[i] == name[i - 4]);
    }
    if rest.len() > 0 {
        assert(a[n] == rest[0] && b[n] == rest[0]);
    }
    lemma_part_end_is(a, 4, true, n);
    lemma_part_end_is(b, 4, false, n);
    assert(!is_verbatim_share(a)) by {
        if is_verbatim_share(a) {
            if name.len() == 3 {
                assert(name =~= "UNC"@) by {
                    assert(name[0] == a[4] && name[1] == a[5] && name[2] == a[6]);
                }
            } else if name.len() < 3 {
                assert(a[n] == '\\');
            } else {
                assert(!is_separator(a[7]));
            }
        }
    }
    assert(!is_verbatim_drive(a)) by {
        if is_verbatim_drive(a) {
            if name.len() >= 2 {
                assert(name[0] == a[4] && name[1] == a[5]);
                assert(has_drive(name));
            } else {
                assert(a[n] == '\\');
            }
        }
    }
    let u = "\\\\?\\"@ + "UNC\\"@ + server + seq!['\\'] + share + rest;
    let at = (8 + server.len()) as int;
    let end = at + 1 + share.len();
    assert(u[4] == 'U' && u[5] == 'N' && u[6] == 'C' && u[7] == '\\');
    assert forall|i: int| 8 <= i < at implies !is_separator(#[trigger] u[i]) by {
        assert(u[i] == server[i - 8]);
    }
    assert(u[at] == '\\');
    assert forall|i: int| at + 1 <= i < end implies !is_separator(#[trigger] u[i]) by {
        assert(u[i] == share[i - at - 1]);
    }
    if rest.len() > 0 {
        assert(u[end] == rest[0]);
    }
    lemma_part_end_is(u, 8, true, at);
    lemma_part_end_is(u, at + 1, true, end);
}

/// Whatever follows it, a slash in front starts a path at the root, and two slashes, a dot and a
/// slash name a device.
pub proof fn law_what_a_slash_in_front_says(a: char, b: char, c: char, rest: Seq<char>)
    requires
        a == '/' || a == '\\',
        b == '/' || b == '\\',
        c == '/' || c == '\\',
    ensures
        is_rooted(seq![a] + rest),
        !is_rooted(Seq::empty()),
        rest.len() > 0 && rest[0] != '/' && rest[0] != '\\' ==> !is_rooted(rest),
        is_device(seq![a, b, '.', c] + rest),
{
    let s = seq![a, b, '.', c] + rest;
    assert(s[0] == a && s[1] == b && s[2] == '.' && s[3] == c);
    assert((seq![a] + rest)[0] == a);
}

} // verus!
