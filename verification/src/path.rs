//! Remote paths. A remote path is a `/`-separated text; its meaning is the
//! sequence of its segments once empty, `.` and `..` pieces are resolved, and
//! its normal form is those segments joined by `/` (so it has no leading `/`).

use vstd::prelude::*;
use vstd::string::StrSliceExecFns;
use vstd::string::StringExecFns;
use crate::text::{chars_of, join, lemma_first_index_is, lemma_split_join, split, split_on};

verus! {

/// The piece `.`, which stands for the directory it is in.
pub open spec fn is_current_dir(piece: Seq<char>) -> bool {
    piece == seq!['.']
}

/// The piece `..`, which stands for the directory above.
pub open spec fn is_parent_dir(piece: Seq<char>) -> bool {
    piece == seq!['.', '.']
}

/// A piece that names something: not empty, not `.`, not `..`, and free of `/`.
pub open spec fn is_name(piece: Seq<char>) -> bool {
    &&& piece.len() > 0
    &&& !is_current_dir(piece)
    &&& !is_parent_dir(piece)
    &&& forall|j: int| 0 <= j < piece.len() ==> piece[j] != '/'
}

/// The segments that `pieces` come down to: empty and `.` pieces vanish, a
/// `..` piece takes the segment before it away (and vanishes where there is
/// none), every other piece is a segment.
pub open spec fn resolve(pieces: Seq<Seq<char>>) -> Seq<Seq<char>>
    decreases pieces.len(),
{
    if pieces.len() == 0 {
        Seq::empty()
    } else {
        let before = resolve(pieces.drop_last());
        let piece = pieces.last();
        if piece.len() == 0 || is_current_dir(piece) {
            before
        } else if is_parent_dir(piece) {
            if before.len() > 0 {
                before.drop_last()
            } else {
                before
            }
        } else {
            before.push(piece)
        }
    }
}

/// The segments of a path.
pub open spec fn segments(path: Seq<char>) -> Seq<Seq<char>> {
    resolve(split(path, '/'))
}

/// The normal form of a path.
pub open spec fn normalized(path: Seq<char>) -> Seq<char> {
    join(segments(path), '/')
}

/// The path in its absolute form, rooted at `/`.
pub open spec fn rooted(path: Seq<char>) -> Seq<char> {
    seq!['/'] + normalized(path)
}

/// Two paths name the same remote object: their rooted forms are equal.
pub open spec fn same_path(a: Seq<char>, b: Seq<char>) -> bool {
    rooted(a) == rooted(b)
}

/// Where a local file goes: the prefix, then the file's relative path.
pub open spec fn remote_target(prefix: Seq<char>, local: Seq<char>) -> Seq<char> {
    normalized(prefix + seq!['/'] + local)
}

/// Number of `/` characters at the front of `s`.
pub open spec fn leading_separators(s: Seq<char>) -> nat
    decreases s.len(),
{
    if s.len() > 0 && s[0] == '/' {
        1 + leading_separators(s.drop_first())
    } else {
        0
    }
}

/// `path` made relative to `prefix`: what follows the prefix, without the
/// separators it begins with. `None` where `path` does not start with `prefix`.
pub open spec fn relative_to(path: Seq<char>, prefix: Seq<char>) -> Option<Seq<char>> {
    if prefix.is_prefix_of(path) {
        let rest = path.skip(prefix.len() as int);
        Some(rest.skip(leading_separators(rest) as int))
    } else {
        None
    }
}

/// Resolving yields names only.
pub proof fn lemma_resolve_names(pieces: Seq<Seq<char>>)
    requires
        forall|i: int, j: int|
            0 <= i < pieces.len() && 0 <= j < pieces[i].len() ==> pieces[i][j] != '/',
    ensures
        forall|i: int| 0 <= i < resolve(pieces).len() ==> is_name(#[trigger] resolve(pieces)[i]),
    decreases pieces.len(),
{
    if pieces.len() > 0 {
        let init = pieces.drop_last();
        assert forall|i: int, j: int| 0 <= i < init.len() && 0 <= j < init[i].len() implies init[i][j]
            != '/' by {
            assert(init[i] == pieces[i]);
        }
        lemma_resolve_names(init);
        let before = resolve(init);
        let piece = pieces.last();
        let after = resolve(pieces);
        assert forall|i: int| 0 <= i < after.len() implies is_name(#[trigger] after[i]) by {
            if piece.len() == 0 || is_current_dir(piece) {
                assert(after[i] == before[i]);
            } else if is_parent_dir(piece) {
                assert(after[i] == before[i]);
            } else if i < before.len() {
                assert(after[i] == before[i]);
            } else {
                assert(after[i] == piece);
                assert(piece == pieces[pieces.len() - 1]);
            }
        }
    }
}

/// Names resolve to themselves.
pub proof fn lemma_resolve_of_names(names: Seq<Seq<char>>)
    requires
        forall|i: int| 0 <= i < names.len() ==> is_name(#[trigger] names[i]),
    ensures
        resolve(names) == names,
    decreases names.len(),
{
    if names.len() > 0 {
        let init = names.drop_last();
        assert forall|i: int| 0 <= i < init.len() implies is_name(#[trigger] init[i]) by {
            assert(init[i] == names[i]);
        }
        lemma_resolve_of_names(init);
        assert(is_name(names.last()));
        assert(init.push(names.last()) =~= names);
    }
}

/// Splitting a join of separator-free pieces gives the pieces back.
pub proof fn lemma_split_of_join(pieces: Seq<Seq<char>>, sep: char)
    requires
        pieces.len() >= 1,
        forall|i: int, j: int|
            0 <= i < pieces.len() && 0 <= j < pieces[i].len() ==> pieces[i][j] != sep,
    ensures
        split(join(pieces, sep), sep) == pieces,
    decreases pieces.len(),
{
    if pieces.len() == 1 {
        lemma_first_index_is(pieces[0], sep, pieces[0].len() as int);
        assert(seq![pieces[0]] =~= pieces);
    } else {
        let head = pieces[0];
        let rest = pieces.drop_first();
        assert forall|i: int, j: int| 0 <= i < rest.len() && 0 <= j < rest[i].len() implies rest[i][j]
            != sep by {
            assert(rest[i] == pieces[i + 1]);
        }
        lemma_split_of_join(rest, sep);
        assert(seq![head] + rest =~= pieces);
        crate::text::lemma_join_prepend(head, rest, sep);
        let whole = join(pieces, sep);
        assert(whole == head + seq![sep] + join(rest, sep));
        assert(whole[head.len() as int] == sep);
        assert forall|j: int| 0 <= j < head.len() implies whole[j] != sep by {
            assert(whole[j] == head[j]);
        }
        lemma_first_index_is(whole, sep, head.len() as int);
        assert(whole.take(head.len() as int) =~= head);
        assert(whole.skip(head.len() as int + 1) =~= join(rest, sep));
    }
}

/// The segments of a path are names, and the normal form of a path has the
/// segments of the path: normalizing twice changes nothing more.
pub proof fn lemma_normalized_is_normal(path: Seq<char>)
    ensures
        forall|i: int| 0 <= i < segments(path).len() ==> is_name(#[trigger] segments(path)[i]),
        segments(normalized(path)) == segments(path),
        normalized(normalized(path)) == normalized(path),
        normalized(path).len() > 0 ==> normalized(path)[0] != '/',
{
    lemma_split_join(path, '/');
    lemma_resolve_names(split(path, '/'));
    let segs = segments(path);
    if segs.len() == 0 {
        let empty = Seq::<char>::empty();
        assert(normalized(path) =~= empty);
        lemma_first_index_is(empty, '/', 0);
        assert(split(empty, '/') =~= seq![empty]);
        assert(seq![empty].drop_last() =~= Seq::<Seq<char>>::empty());
        assert(resolve(seq![empty].drop_last()) =~= Seq::<Seq<char>>::empty());
        assert(seq![empty].last() == empty);
        assert(resolve(seq![empty]) =~= Seq::<Seq<char>>::empty());
    } else {
        assert forall|i: int, j: int| 0 <= i < segs.len() && 0 <= j < segs[i].len() implies segs[i][j]
            != '/' by {
            assert(is_name(segs[i]));
        }
        lemma_split_of_join(segs, '/');
        lemma_resolve_of_names(segs);
        lemma_join_starts_with_first(segs, '/');
        assert(is_name(segs[0]));
    }
}

/// A join begins with its first piece.
pub proof fn lemma_join_starts_with_first(pieces: Seq<Seq<char>>, sep: char)
    requires
        pieces.len() >= 1,
    ensures
        pieces[0].is_prefix_of(join(pieces, sep)),
    decreases pieces.len(),
{
    if pieces.len() > 1 {
        lemma_join_starts_with_first(pieces.drop_last(), sep);
        let shorter = join(pieces.drop_last(), sep);
        let whole = join(pieces, sep);
        assert(pieces.drop_last()[0] == pieces[0]);
        assert(whole.subrange(0, pieces[0].len() as int) =~= shorter.subrange(
            0,
            pieces[0].len() as int,
        ));
    } else {
        assert(pieces[0].subrange(0, pieces[0].len() as int) =~= pieces[0]);
    }
}

/// Resolving goes piece by piece: what a longer list resolves to depends on
/// its front only through what the front resolves to.
pub proof fn lemma_resolve_concat(front: Seq<Seq<char>>, back: Seq<Seq<char>>)
    ensures
        resolve(front + back) == resolve(resolve(front) + back),
    decreases back.len(),
{
    if back.len() == 0 {
        assert(front + back =~= front);
        assert(resolve(front) + back =~= resolve(front));
        lemma_resolve_idempotent(front);
    } else {
        let init = back.drop_last();
        lemma_resolve_concat(front, init);
        assert((front + back).drop_last() =~= front + init);
        assert((resolve(front) + back).drop_last() =~= resolve(front) + init);
        assert((front + back).last() == back.last());
        assert((resolve(front) + back).last() == back.last());
    }
}

/// Resolving what is resolved changes nothing.
pub proof fn lemma_resolve_idempotent(pieces: Seq<Seq<char>>)
    ensures
        resolve(resolve(pieces)) == resolve(pieces),
    decreases pieces.len(),
{
    lemma_resolve_keeps_resolved(pieces);
}

proof fn lemma_resolve_keeps_resolved(pieces: Seq<Seq<char>>)
    ensures
        forall|i: int|
            0 <= i < resolve(pieces).len() ==> {
                let p = #[trigger] resolve(pieces)[i];
                p.len() > 0 && !is_current_dir(p) && !is_parent_dir(p)
            },
        resolve(resolve(pieces)) == resolve(pieces),
    decreases pieces.len(),
{
    if pieces.len() > 0 {
        lemma_resolve_keeps_resolved(pieces.drop_last());
    }
    lemma_resolve_fixed(resolve(pieces));
}

proof fn lemma_resolve_fixed(pieces: Seq<Seq<char>>)
    requires
        forall|i: int|
            0 <= i < pieces.len() ==> {
                let p = #[trigger] pieces[i];
                p.len() > 0 && !is_current_dir(p) && !is_parent_dir(p)
            },
    ensures
        resolve(pieces) == pieces,
    decreases pieces.len(),
{
    if pieces.len() > 0 {
        let init = pieces.drop_last();
        assert forall|i: int| 0 <= i < init.len() implies {
            let p = #[trigger] init[i];
            p.len() > 0 && !is_current_dir(p) && !is_parent_dir(p)
        } by {
            assert(init[i] == pieces[i]);
        }
        lemma_resolve_fixed(init);
        let p = pieces.last();
        assert(p == pieces[pieces.len() - 1]);
        assert(init.push(p) =~= pieces);
    }
}

/// Splitting two texts glued by a separator gives the pieces of the first,
/// then the pieces of the second.
pub proof fn lemma_split_concat(a: Seq<char>, b: Seq<char>, sep: char)
    ensures
        split(a + seq![sep] + b, sep) == split(a, sep) + split(b, sep),
    decreases a.len(),
{
    let whole = a + seq![sep] + b;
    crate::text::lemma_first_index_of(a, sep);
    let k = crate::text::first_index_of(a, sep) as int;
    assert forall|j: int| 0 <= j < k implies whole[j] != sep by {
        assert(whole[j] == a[j]);
    }
    if k >= a.len() {
        assert(whole[k] == sep);
        lemma_first_index_is(whole, sep, k);
        assert(whole.take(k) =~= a);
        assert(whole.skip(k + 1) =~= b);
        assert(split(a, sep) =~= seq![a]);
    } else {
        assert(whole[k] == a[k]);
        lemma_first_index_is(whole, sep, k);
        let rest = a.skip(k + 1);
        assert(whole.take(k) =~= a.take(k));
        assert(whole.skip(k + 1) =~= rest + seq![sep] + b);
        lemma_split_concat(rest, b, sep);
        assert(split(whole, sep) =~= split(a, sep) + split(b, sep));
    }
}

/// A path in which every piece between separators is a name.
pub open spec fn is_relative_name_path(path: Seq<char>) -> bool {
    forall|i: int| 0 <= i < split(path, '/').len() ==> is_name(#[trigger] split(path, '/')[i])
}

/// Resolving names after resolved segments keeps both.
pub proof fn lemma_resolve_append_names(front: Seq<Seq<char>>, names: Seq<Seq<char>>)
    requires
        forall|i: int| 0 <= i < names.len() ==> is_name(#[trigger] names[i]),
    ensures
        resolve(resolve(front) + names) == resolve(front) + names,
    decreases names.len(),
{
    let done = resolve(front);
    if names.len() == 0 {
        assert(done + names =~= done);
        lemma_resolve_idempotent(front);
    } else {
        let init = names.drop_last();
        assert forall|i: int| 0 <= i < init.len() implies is_name(#[trigger] init[i]) by {
            assert(init[i] == names[i]);
        }
        lemma_resolve_append_names(front, init);
        assert((done + names).drop_last() =~= done + init);
        assert((done + names).last() == names.last());
        assert(is_name(names[names.len() - 1]));
        assert((done + init).push(names.last()) =~= done + names);
    }
}

/// The remote path of a file is the prefix followed by the file's own path:
/// its segments are those of the prefix, then what the pieces of the file's
/// path resolve to after them. It is the same whether or not the prefix was
/// brought to normal form first.
pub proof fn lemma_target_segments(prefix: Seq<char>, local: Seq<char>)
    ensures
        segments(remote_target(prefix, local)) == resolve(segments(prefix) + split(local, '/')),
        remote_target(normalized(prefix), local) == remote_target(prefix, local),
        is_relative_name_path(local) ==> segments(remote_target(prefix, local)) == segments(prefix)
            + split(local, '/'),
{
    let whole = prefix + seq!['/'] + local;
    lemma_split_concat(prefix, local, '/');
    lemma_resolve_concat(split(prefix, '/'), split(local, '/'));
    lemma_normalized_is_normal(whole);
    lemma_normalized_is_normal(prefix);
    let normal = normalized(prefix);
    lemma_split_concat(normal, local, '/');
    lemma_resolve_concat(split(normal, '/'), split(local, '/'));
    if is_relative_name_path(local) {
        lemma_resolve_append_names(split(prefix, '/'), split(local, '/'));
    }
}

/// Under one prefix, two different local paths made of names never come to
/// the same remote path.
pub proof fn lemma_distinct_targets(prefix: Seq<char>, a: Seq<char>, b: Seq<char>)
    requires
        is_relative_name_path(a),
        is_relative_name_path(b),
        a != b,
    ensures
        remote_target(prefix, a) != remote_target(prefix, b),
        !same_path(remote_target(prefix, a), remote_target(prefix, b)),
{
    lemma_target_segments(prefix, a);
    lemma_target_segments(prefix, b);
    lemma_split_join(a, '/');
    lemma_split_join(b, '/');
    let front = segments(prefix);
    let x = split(a, '/');
    let y = split(b, '/');
    let ta = remote_target(prefix, a);
    let tb = remote_target(prefix, b);
    if segments(ta) == segments(tb) {
        assert((front + x).len() == (front + y).len());
        assert forall|i: int| 0 <= i < x.len() implies x[i] == y[i] by {
            assert((front + x)[front.len() + i] == x[i]);
            assert((front + y)[front.len() + i] == y[i]);
        }
        assert(x =~= y);
    }
    lemma_normalized_is_normal(prefix + seq!['/'] + a);
    lemma_normalized_is_normal(prefix + seq!['/'] + b);
    if rooted(ta) == rooted(tb) {
        assert(rooted(ta).skip(1) =~= normalized(ta));
        assert(rooted(tb).skip(1) =~= normalized(tb));
    }
}

fn is_dot(piece: &Vec<char>) -> (r: bool)
    ensures
        r == is_current_dir(piece@),
{
    let r = piece.len() == 1 && piece[0] == '.';
    proof {
        if r {
            assert(piece@ =~= seq!['.']);
        }
    }
    r
}

fn is_dot_dot(piece: &Vec<char>) -> (r: bool)
    ensures
        r == is_parent_dir(piece@),
{
    let r = piece.len() == 2 && piece[0] == '.' && piece[1] == '.';
    proof {
        if r {
            assert(piece@ =~= seq!['.', '.']);
        }
    }
    r
}

/// The segments of `path`.
pub fn path_segments(path: &str) -> (r: Vec<String>)
    ensures
        r.deep_view() == segments(path@),
{
    let pieces = split_on(path, '/');
    let mut kept: Vec<String> = Vec::new();
    let mut i: usize = 0;
    proof {
        assert(pieces.deep_view().take(0) =~= Seq::<Seq<char>>::empty());
    }
    while i < pieces.len()
        invariant
            i <= pieces.len(),
            pieces.deep_view() == split(path@, '/'),
            kept.deep_view() == resolve(pieces.deep_view().take(i as int)),
        decreases pieces.len() - i,
    {
        let piece = pieces[i].clone();
        let chars = chars_of(piece.as_str());
        let ghost before = kept.deep_view();
        proof {
            let upto = pieces.deep_view().take(i + 1);
            assert(upto.drop_last() =~= pieces.deep_view().take(i as int));
            assert(upto.last() == pieces[i as int]@);
        }
        if chars.len() == 0 || is_dot(&chars) {
        } else if is_dot_dot(&chars) {
            if kept.len() > 0 {
                kept.pop();
                proof {
                    assert(kept.deep_view() =~= before.drop_last());
                }
            }
        } else {
            kept.push(piece);
            proof {
                assert(kept.deep_view() =~= before.push(piece@));
            }
        }
        i = i + 1;
    }
    proof {
        assert(pieces.deep_view().take(i as int) =~= pieces.deep_view());
    }
    kept
}

/// `pieces` joined by `/`.
pub fn join_segments(pieces: &Vec<String>) -> (r: String)
    ensures
        r@ == join(pieces.deep_view(), '/'),
{
    let mut r = String::new();
    let mut i: usize = 0;
    proof {
        reveal_strlit("/");
        assert(pieces.deep_view().take(0) =~= Seq::<Seq<char>>::empty());
    }
    while i < pieces.len()
        invariant
            i <= pieces.len(),
            "/"@ == seq!['/'],
            r@ == join(pieces.deep_view().take(i as int), '/'),
        decreases pieces.len() - i,
    {
        proof {
            let upto = pieces.deep_view().take(i + 1);
            assert(upto.drop_last() =~= pieces.deep_view().take(i as int));
            assert(upto.last() == pieces[i as int]@);
        }
        if i > 0 {
            r.append("/");
        }
        r.append(pieces[i].as_str());
        proof {
            if i == 0 {
                assert(r@ =~= pieces[0]@);
            }
        }
        i = i + 1;
    }
    proof {
        assert(pieces.deep_view().take(i as int) =~= pieces.deep_view());
    }
    r
}

/// The normal form of `path`.
pub fn normalize_path(path: &str) -> (r: String)
    ensures
        r@ == normalized(path@),
        normalized(r@) == r@,
        r@.len() > 0 ==> r@[0] != '/',
{
    proof {
        lemma_normalized_is_normal(path@);
    }
    let kept = path_segments(path);
    join_segments(&kept)
}

/// The remote path of the local file `local` under the prefix `prefix`.
pub fn remote_target_of(prefix: &str, local: &str) -> (r: String)
    ensures
        r@ == remote_target(prefix@, local@),
{
    proof {
        reveal_strlit("/");
    }
    let mut whole = String::from_str(prefix);
    whole.append("/");
    whole.append(local);
    proof {
        assert("/"@ =~= seq!['/']);
    }
    normalize_path(whole.as_str())
}

/// Whether `a` and `b` name the same remote object.
pub fn same_remote_path(a: &str, b: &str) -> (r: bool)
    ensures
        r == same_path(a@, b@),
{
    let x = normalize_path(a);
    let y = normalize_path(b);
    proof {
        if x@ == y@ {
            assert(rooted(a@) == rooted(b@));
        } else if rooted(a@) == rooted(b@) {
            assert(rooted(a@).skip(1) =~= normalized(a@));
            assert(rooted(b@).skip(1) =~= normalized(b@));
        }
    }
    x == y
}

proof fn lemma_leading_separators_step(s: Seq<char>, i: int)
    requires
        0 <= i <= s.len(),
    ensures
        leading_separators(s.skip(i)) == if i < s.len() && s[i] == '/' {
            1 + leading_separators(s.skip(i + 1))
        } else {
            0
        },
{
    if i < s.len() {
        assert(s.skip(i).drop_first() =~= s.skip(i + 1));
    }
}

/// `path` made relative to `prefix`, or `None` where it does not start with it.
pub fn relative_path(path: &str, prefix: &str) -> (r: Option<String>)
    ensures
        r.deep_view() == relative_to(path@, prefix@),
{
    match crate::text::strip_prefix_of(path, prefix) {
        None => None,
        Some(rest) => {
            let chars = chars_of(rest.as_str());
            let n: usize = chars.len();
            let mut i: usize = 0;
            proof {
                assert(rest@.skip(0) =~= rest@);
            }
            while i < n && chars[i] == '/'
                invariant
                    chars@ == rest@,
                    n == chars.len(),
                    i <= n,
                    leading_separators(rest@) == i + leading_separators(rest@.skip(i as int)),
                decreases n - i,
            {
                proof {
                    lemma_leading_separators_step(rest@, i as int);
                }
                i = i + 1;
            }
            proof {
                lemma_leading_separators_step(rest@, i as int);
                assert(rest@.skip(i as int) =~= rest@.subrange(i as int, n as int));
            }
            Some(String::from_str(rest.as_str().substring_char(i, n)))
        },
    }
}

} // verus!
