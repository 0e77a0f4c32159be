//! Names of files gathered from nested directories into one directory.

use vstd::prelude::*;

verus! {

/// The parts of a path joined by a separator.
pub open spec fn joined(parts: Seq<Seq<u8>>, sep: Seq<u8>) -> Seq<u8>
    decreases parts.len(),
{
    if parts.len() == 0 {
        Seq::empty()
    } else if parts.len() == 1 {
        parts[0]
    } else {
        joined(parts.drop_last(), sep) + sep + parts.last()
    }
}

/// The name a nested file is given in the flat directory: the components of its path
/// below the directory it was found in, separated by the separator.
pub fn flat_name(components: &[Vec<u8>], sep: &[u8]) -> (r: Vec<u8>)
    ensures
        r@ == joined(components@.map_values(|c: Vec<u8>| c@), sep@),
{
    let ghost parts = components@.map_values(|c: Vec<u8>| c@);
    let mut out: Vec<u8> = Vec::new();
    let mut i: usize = 0;
    assert(parts.take(0) =~= Seq::<Seq<u8>>::empty());
    while i < components.len()
        invariant
            i <= components@.len(),
            parts == components@.map_values(|c: Vec<u8>| c@),
            out@ == joined(parts.take(i as int), sep@),
        decreases components@.len() - i,
    {
        let ghost before = out@;
        if i > 0 {
            push_bytes(&mut out, sep);
        }
        push_bytes(&mut out, components[i].as_slice());
        proof {
            let t = parts.take(i + 1);
            assert(t.drop_last() =~= parts.take(i as int));
            assert(t.last() == components@[i as int]@);
            if i == 0 {
                assert(before =~= Seq::<u8>::empty());
                assert(out@ =~= t[0]);
            }
        }
        i = i + 1;
    }
    assert(parts.take(i as int) =~= parts);
    out
}

/// Append bytes.
fn push_bytes(out: &mut Vec<u8>, bytes: &[u8])
    ensures
        final(out)@ == old(out)@ + bytes@,
{
    let mut j: usize = 0;
    let ghost start = out@;
    while j < bytes.len()
        invariant
            j <= bytes@.len(),
            out@ == start + bytes@.take(j as int),
        decreases bytes@.len() - j,
    {
        out.push(bytes[j]);
        assert(bytes@.take(j + 1) =~= bytes@.take(j as int).push(bytes@[j as int]));
        j = j + 1;
    }
    assert(bytes@.take(j as int) =~= bytes@);
}

/// Whether a piece of a path is one of its components: not empty and not `.`; with
/// `keep_parent` unset, `..` is dropped too, leaving only names of files and directories.
pub open spec fn piece_kept(c: Seq<u8>, keep_parent: bool) -> bool {
    &&& c.len() > 0
    &&& !(c.len() == 1 && c[0] == 46u8)
    &&& (keep_parent || !(c.len() == 2 && c[0] == 46u8 && c[1] == 46u8))
}

/// Whether a piece is `..`.
pub open spec fn is_parent(c: Seq<u8>) -> bool {
    c.len() == 2 && c[0] == 46u8 && c[1] == 46u8
}

/// The pieces of a path between its `/` separators, in order, empty pieces included.
pub open spec fn slash_pieces(p: Seq<u8>) -> Seq<Seq<u8>>
    decreases p.len(),
{
    if p.len() == 0 {
        seq![Seq::empty()]
    } else {
        let before = slash_pieces(p.drop_last());
        if p.last() == 47u8 {
            before.push(Seq::empty())
        } else {
            before.update(before.len() - 1, before.last().push(p.last()))
        }
    }
}

/// The names a relative path is made of, in order: the normal components that
/// `Path::components` gives on Unix, where empty pieces and `.` are skipped and `..` is no
/// name.
pub open spec fn path_names(p: Seq<u8>) -> Seq<Seq<u8>> {
    slash_pieces(p).filter(|c: Seq<u8>| piece_kept(c, false))
}

/// The components of a relative path below its first, as `Path::components` gives them on
/// Unix: empty pieces and `.` skipped, `..` kept.
pub open spec fn path_parts(p: Seq<u8>) -> Seq<Seq<u8>> {
    slash_pieces(p).filter(|c: Seq<u8>| piece_kept(c, true))
}

/// The last name of a path, as `Path::file_name` gives it: its last component, unless there
/// is none or it is `..`.
pub open spec fn file_name_spec(p: Seq<u8>) -> Option<Seq<u8>> {
    let parts = path_parts(p);
    if parts.len() == 0 || is_parent(parts.last()) {
        None
    } else {
        Some(parts.last())
    }
}

proof fn lemma_slash_pieces_len(p: Seq<u8>)
    ensures
        slash_pieces(p).len() >= 1,
    decreases p.len(),
{
    if p.len() > 0 {
        lemma_slash_pieces_len(p.drop_last());
    }
}

/// Whether the bytes are a piece kept.
fn piece_kept_exec(c: &[u8], keep_parent: bool) -> (r: bool)
    ensures
        r == piece_kept(c@, keep_parent),
{
    c.len() > 0 && !(c.len() == 1 && c[0] == 46u8)
        && (keep_parent || !(c.len() == 2 && c[0] == 46u8 && c[1] == 46u8))
}

/// The names a relative path is made of, in order.
pub fn path_names_exec(path: &[u8]) -> (r: Vec<Vec<u8>>)
    ensures
        r@.map_values(|c: Vec<u8>| c@) == path_names(path@),
{
    kept_pieces(path, false)
}

/// The last name of a path, as `Path::file_name` gives it.
pub fn file_name_of(path: &[u8]) -> (r: Option<Vec<u8>>)
    ensures
        match r {
            Some(n) => file_name_spec(path@) == Some(n@),
            None => file_name_spec(path@) is None,
        },
{
    let mut parts = kept_pieces(path, true);
    let ghost views = parts@.map_values(|c: Vec<u8>| c@);
    match parts.pop() {
        None => None,
        Some(last) => {
            assert(last@ == views.last());
            if last.len() == 2 && last[0] == 46u8 && last[1] == 46u8 {
                None
            } else {
                Some(last)
            }
        },
    }
}

/// The pieces of a path that are kept, in order.
fn kept_pieces(path: &[u8], keep_parent: bool) -> (r: Vec<Vec<u8>>)
    ensures
        r@.map_values(|c: Vec<u8>| c@) == slash_pieces(path@).filter(|c: Seq<u8>| piece_kept(c, keep_parent)),
{
    let ghost pred = |c: Seq<u8>| piece_kept(c, keep_parent);
    let mut done: Vec<Vec<u8>> = Vec::new();
    let mut cur: Vec<u8> = Vec::new();
    let mut i: usize = 0;
    assert(path@.take(0) =~= Seq::<u8>::empty());
    while i < path.len()
        invariant
            i <= path@.len(),
            slash_pieces(path@.take(i as int)).len() >= 1,
            done@.map_values(|c: Vec<u8>| c@) == slash_pieces(path@.take(i as int)).drop_last().filter(pred),
            cur@ == slash_pieces(path@.take(i as int)).last(),
            pred == (|c: Seq<u8>| piece_kept(c, keep_parent)),
        decreases path@.len() - i,
    {
        let ghost before = slash_pieces(path@.take(i as int));
        let ghost old_done = done@.map_values(|c: Vec<u8>| c@);
        let b = path[i];
        let ghost t = path@.take(i + 1);
        assert(t.drop_last() =~= path@.take(i as int));
        assert(t.last() == b);
        proof {
            lemma_slash_pieces_len(path@.take(i as int));
            before.drop_last().lemma_filter_push(before.last(), pred);
            assert(before.drop_last().push(before.last()) =~= before);
        }
        if b == 47u8 {
            if piece_kept_exec(cur.as_slice(), keep_parent) {
                let ghost piece = cur@;
                done.push(cur);
                assert(done@.map_values(|c: Vec<u8>| c@) =~= old_done.push(piece));
            }
            cur = Vec::new();
            assert(slash_pieces(t).drop_last() =~= before);
            assert(cur@ =~= slash_pieces(t).last());
        } else {
            cur.push(b);
            assert(slash_pieces(t).drop_last() =~= before.drop_last());
        }
        i = i + 1;
    }
    let ghost all = slash_pieces(path@.take(i as int));
    assert(path@.take(i as int) =~= path@);
    proof {
        all.drop_last().lemma_filter_push(all.last(), pred);
        assert(all.drop_last().push(all.last()) =~= all);
    }
    if piece_kept_exec(cur.as_slice(), keep_parent) {
        let ghost old_done = done@.map_values(|c: Vec<u8>| c@);
        let ghost piece = cur@;
        done.push(cur);
        assert(done@.map_values(|c: Vec<u8>| c@) =~= old_done.push(piece));
    }
    done
}

/// The name a file is given in the flat directory from its path relative to the directory
/// it was found in: the names of the path, separated by the separator.
pub fn flat_name_of_path(path: &[u8], sep: &[u8]) -> (r: Vec<u8>)
    ensures
        r@ == joined(path_names(path@), sep@),
{
    let names = path_names_exec(path);
    flat_name(names.as_slice(), sep)
}

/// Joining is associative around the separator: the parts of two non-empty groups joined
/// are the first group joined, the separator, then the second group joined; one part alone
/// is itself.
pub proof fn law_joined_split(a: Seq<Seq<u8>>, b: Seq<Seq<u8>>, sep: Seq<u8>, p: Seq<u8>)
    requires
        a.len() > 0,
        b.len() > 0,
    ensures
        joined(a + b, sep) == joined(a, sep) + sep + joined(b, sep),
        joined(seq![p], sep) == p,
    decreases b.len(),
{
    if b.len() == 1 {
        assert((a + b).drop_last() =~= a);
        assert((a + b).last() == b[0]);
    } else {
        law_joined_split(a, b.drop_last(), sep, p);
        assert((a + b).drop_last() =~= a + b.drop_last());
        assert((a + b).last() == b.last());
        assert(joined(a, sep) + sep + (joined(b.drop_last(), sep) + sep + b.last())
            =~= (joined(a, sep) + sep + joined(b.drop_last(), sep)) + sep + b.last());
    }
}

/// The pieces of a path with a separator and a piece without `/` appended: those of the
/// path, then the new piece.
proof fn lemma_slash_pieces_append(p: Seq<u8>, n: Seq<u8>)
    requires
        forall|i: int| 0 <= i < n.len() ==> n[i] != 47u8,
    ensures
        slash_pieces(p + seq![47u8] + n) == slash_pieces(p).push(n),
    decreases n.len(),
{
    if n.len() == 0 {
        assert((p + seq![47u8] + n).drop_last() =~= p);
        assert(p + seq![47u8] + n =~= p.push(47u8));
        assert(n =~= Seq::<u8>::empty());
        assert((p + seq![47u8] + n).last() == 47u8);
    } else {
        let m = n.drop_last();
        lemma_slash_pieces_append(p, m);
        let q = p + seq![47u8] + n;
        assert(q.drop_last() =~= p + seq![47u8] + m);
        assert(q.last() == n.last());
        lemma_slash_pieces_len(p);
        assert(m.push(n.last()) =~= n);
        assert(n.last() != 47u8);
        let before = slash_pieces(p).push(m);
        assert(slash_pieces(q.drop_last()) == before);
        assert(before.last() == m);
        assert(slash_pieces(q) == before.update(before.len() - 1, before.last().push(q.last())));
        assert(slash_pieces(p).push(m).update(slash_pieces(p).len() as int, m.push(n.last())) =~= slash_pieces(p).push(n));
    }
}

/// The file name of a path ending in `/` and a name is that name, for any path before it:
/// the last name is what `readdir` reports and what a gathered file is found by.
pub proof fn law_file_name_last(p: Seq<u8>, name: Seq<u8>)
    requires
        forall|i: int| 0 <= i < name.len() ==> name[i] != 47u8,
        piece_kept(name, false),
    ensures
        file_name_spec(p + seq![47u8] + name) == Some(name),
        path_names(p + seq![47u8] + name) == path_names(p).push(name),
{
    lemma_slash_pieces_append(p, name);
    slash_pieces(p).lemma_filter_push(name, |c: Seq<u8>| piece_kept(c, true));
    slash_pieces(p).lemma_filter_push(name, |c: Seq<u8>| piece_kept(c, false));
}

/// A path without `/` is one piece.
proof fn lemma_slash_pieces_plain(n: Seq<u8>)
    requires
        forall|i: int| 0 <= i < n.len() ==> n[i] != 47u8,
    ensures
        slash_pieces(n) == seq![n],
    decreases n.len(),
{
    if n.len() > 0 {
        lemma_slash_pieces_plain(n.drop_last());
        assert(n.drop_last().push(n.last()) =~= n);
        assert(seq![n.drop_last()].update(0, n.drop_last().push(n.last())) =~= seq![n]);
    } else {
        assert(n =~= Seq::<u8>::empty());
    }
}

/// A name without `/` that is neither empty, `.` nor `..` is its own file name.
pub proof fn law_file_name_plain(name: Seq<u8>)
    requires
        forall|i: int| 0 <= i < name.len() ==> name[i] != 47u8,
        piece_kept(name, false),
    ensures
        file_name_spec(name) == Some(name),
        path_names(name) == seq![name],
{
    lemma_slash_pieces_plain(name);
    Seq::<Seq<u8>>::empty().lemma_filter_push(name, |c: Seq<u8>| piece_kept(c, true));
    Seq::<Seq<u8>>::empty().lemma_filter_push(name, |c: Seq<u8>| piece_kept(c, false));
    assert(Seq::<Seq<u8>>::empty().push(name) =~= seq![name]);
    reveal(Seq::filter);
}

} // verus!
