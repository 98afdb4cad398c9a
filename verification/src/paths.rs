//! Unix paths and search paths, as bytes.

use vstd::prelude::*;

use crate::strings::{lemma_pieces_are_not_empty, pieces};

verus! {

/// The byte between the parts of a path.
pub const SEPARATOR: u8 = 0x2f;

/// The part of a path that stands for the place before it.
pub const DOT: u8 = 0x2e;

/// The byte between the entries of a search path.
pub const LIST_SEPARATOR: u8 = 0x3a;

/// The bytes of a text.
pub open spec fn text_bytes(text: Seq<char>) -> Seq<u8> {
    vstd::utf8::encode_utf8(text)
}

/// A copy of some bytes.
pub(crate) fn copied_bytes(bytes: &[u8]) -> (copy: Vec<u8>)
    ensures
        copy@ == bytes@,
{
    let mut copy: Vec<u8> = Vec::new();
    push_bytes(&mut copy, bytes);
    assert(copy@ =~= bytes@);
    copy
}

/// Add some bytes at the end.
pub(crate) fn push_bytes(buffer: &mut Vec<u8>, bytes: &[u8])
    ensures
        final(buffer)@ == old(buffer)@ + bytes@,
{
    assert(buffer@ =~= buffer@ + bytes@.take(0));
    for i in 0..bytes.len()
        invariant
            buffer@ == old(buffer)@ + bytes@.take(i as int),
    {
        buffer.push(bytes[i]);
        assert(buffer@ =~= old(buffer)@ + bytes@.take(i + 1));
    }
    assert(bytes@.take(bytes.len() as int) =~= bytes@);
}

/// Whether two runs of bytes are the same.
pub(crate) fn same_bytes(a: &[u8], b: &[u8]) -> (yes: bool)
    ensures
        yes == (a@ == b@),
{
    if a.len() != b.len() {
        return false;
    }
    for i in 0..a.len()
        invariant
            a@.len() == b@.len(),
            forall|k: int| 0 <= k < i ==> a@[k] == b@[k],
    {
        if a[i] != b[i] {
            return false;
        }
    }
    assert(a@ =~= b@);
    true
}

/// Whether a path begins at the root.
pub open spec fn is_absolute(path: Seq<u8>) -> bool {
    path.len() > 0 && path[0] == SEPARATOR
}

/// A path and a part below it: an absolute part stands alone, any other behind
/// a separator, unless there is one already or nothing to separate.
pub open spec fn joined_path(base: Seq<u8>, part: Seq<u8>) -> Seq<u8> {
    if is_absolute(part) {
        part
    } else if base.len() == 0 || base.last() == SEPARATOR {
        base + part
    } else {
        base.push(SEPARATOR) + part
    }
}

/// A path and a part below it.
pub fn join_path(base: &[u8], part: &[u8]) -> (path: Vec<u8>)
    ensures
        path@ == joined_path(base@, part@),
{
    if part.len() > 0 && part[0] == SEPARATOR {
        return copied_bytes(part);
    }
    let mut path = copied_bytes(base);
    if base.len() > 0 && base[base.len() - 1] != SEPARATOR {
        path.push(SEPARATOR);
    }
    push_bytes(&mut path, part);
    path
}

/// The entries of a search path in one run of bytes.
pub open spec fn joined_list(entries: Seq<Seq<u8>>) -> Seq<u8>
    decreases entries.len(),
{
    if entries.len() == 0 {
        Seq::empty()
    } else if entries.len() == 1 {
        entries[0]
    } else {
        joined_list(entries.drop_last()).push(LIST_SEPARATOR) + entries.last()
    }
}

/// The entries of a search path in one run of bytes.
pub fn join_unix_paths(paths: Vec<Vec<u8>>) -> (joined: Vec<u8>)
    ensures
        joined@ == joined_list(paths.deep_view()),
{
    let ghost all = paths.deep_view();
    let mut joined: Vec<u8> = Vec::new();
    for i in 0..paths.len()
        invariant
            all == paths.deep_view(),
            joined@ == joined_list(all.take(i as int)),
    {
        assert(all.take(i + 1).drop_last() =~= all.take(i as int));
        assert(all.take(i + 1).last() == paths@[i as int]@) by {
            assert(all[i as int] =~= paths@[i as int]@);
        }
        if i > 0 {
            joined.push(LIST_SEPARATOR);
        }
        push_bytes(&mut joined, paths[i].as_slice());
        assert(joined@ =~= joined_list(all.take(i + 1)));
    }
    assert(all.take(paths.len() as int) =~= all);
    joined
}


/// The entries of a search path: what stands between the separators.
pub open spec fn split_list(path: Seq<u8>) -> Seq<Seq<u8>> {
    pieces(path, LIST_SEPARATOR)
}

/// The entries of a search path.
pub fn split_unix_path(path: &[u8]) -> (entries: Vec<Vec<u8>>)
    ensures
        entries.deep_view() == split_list(path@),
{
    split_bytes(path, LIST_SEPARATOR)
}

/// What stands between the separators of a run of bytes.
fn split_bytes(path: &[u8], separator: u8) -> (entries: Vec<Vec<u8>>)
    ensures
        entries.deep_view() == pieces(path@, separator),
{
    let mut entries: Vec<Vec<u8>> = Vec::new();
    let mut last: Vec<u8> = Vec::new();
    assert(entries.deep_view().push(last@) =~= pieces(path@.take(0), separator));
    for i in 0..path.len()
        invariant
            entries.deep_view().push(last@) == pieces(path@.take(i as int), separator),
    {
        assert(path@.take(i + 1).drop_last() =~= path@.take(i as int));
        assert(path@.take(i + 1).last() == path@[i as int]);
        let ghost before = entries.deep_view();
        let ghost tail = last@;
        assert(before.push(tail).last() == tail);
        assert(before.push(tail).drop_last() =~= before);
        if path[i] == separator {
            entries.push(last);
            assert(entries@[entries@.len() - 1].deep_view() =~= tail);
            assert(entries.deep_view() =~= before.push(tail));
            last = Vec::new();
            assert(last@ =~= Seq::empty());
        } else {
            last.push(path[i]);
        }
    }
    assert(path@.take(path.len() as int) =~= path@);
    let ghost before = entries.deep_view();
    let ghost tail = last@;
    entries.push(last);
    assert(entries@[entries@.len() - 1].deep_view() =~= tail);
    assert(entries.deep_view() =~= before.push(tail));
    entries
}

/// Whether an entry holds no separator.
pub open spec fn is_plain_entry(entry: Seq<u8>) -> bool {
    !entry.contains(LIST_SEPARATOR)
}

/// Adding bytes without a separator makes the last entry longer.
proof fn lemma_split_plain_tail(path: Seq<u8>, tail: Seq<u8>)
    requires
        is_plain_entry(tail),
    ensures
        split_list(path + tail) == split_list(path).drop_last().push(
            split_list(path).last() + tail,
        ),
    decreases tail.len(),
{
    lemma_pieces_are_not_empty(path, LIST_SEPARATOR);
    if tail.len() == 0 {
        assert(path + tail =~= path);
        assert(split_list(path).last() + tail =~= split_list(path).last());
        assert(split_list(path).drop_last().push(split_list(path).last()) =~= split_list(path));
    } else {
        let shorter = tail.drop_last();
        assert forall|i: int| 0 <= i < shorter.len() implies shorter[i] != LIST_SEPARATOR by {
            assert(shorter[i] == tail[i]);
            assert(tail.contains(tail[i]));
        }
        lemma_split_plain_tail(path, shorter);
        assert((path + tail).drop_last() =~= path + shorter);
        assert((path + tail).last() == tail.last());
        assert(tail.contains(tail.last()));
        assert((split_list(path).last() + shorter).push(tail.last()) =~= split_list(path).last()
            + tail);
        let before = split_list(path).drop_last().push(split_list(path).last() + shorter);
        assert(before.drop_last() =~= split_list(path).drop_last());
    }
}

/// Splitting gives back the entries that were joined, if there are any and none
/// of them holds a separator.
pub proof fn law_split_undoes_join(entries: Seq<Seq<u8>>)
    requires
        entries.len() > 0,
        forall|i: int| 0 <= i < entries.len() ==> is_plain_entry(#[trigger] entries[i]),
    ensures
        split_list(joined_list(entries)) == entries,
    decreases entries.len(),
{
    if entries.len() == 1 {
        let empty = Seq::<u8>::empty();
        lemma_split_plain_tail(empty, entries[0]);
        assert(empty + entries[0] =~= entries[0]);
        assert(split_list(empty) =~= seq![empty]);
        assert(split_list(joined_list(entries)) =~= entries);
    } else {
        let shorter = entries.drop_last();
        assert forall|i: int| 0 <= i < shorter.len() implies is_plain_entry(#[trigger] shorter[i])
            by {
            assert(shorter[i] == entries[i]);
        }
        law_split_undoes_join(shorter);
        let head = joined_list(shorter).push(LIST_SEPARATOR);
        assert(head.drop_last() =~= joined_list(shorter));
        assert(split_list(head) == shorter.push(Seq::empty()));
        assert(is_plain_entry(entries[entries.len() - 1]));
        lemma_split_plain_tail(head, entries.last());
        assert(shorter.push(Seq::<u8>::empty()).drop_last() =~= shorter);
        assert(Seq::<u8>::empty() + entries.last() =~= entries.last());
        assert(shorter.push(entries.last()) =~= entries);
    }
}

/// Joining gives back the search path that was split.
pub proof fn law_join_undoes_split(path: Seq<u8>)
    ensures
        joined_list(split_list(path)) == path,
    decreases path.len(),
{
    lemma_pieces_are_not_empty(path, LIST_SEPARATOR);
    if path.len() == 0 {
        assert(joined_list(split_list(path)) =~= path);
    } else {
        let shorter = path.drop_last();
        law_join_undoes_split(shorter);
        lemma_pieces_are_not_empty(shorter, LIST_SEPARATOR);
        let before = split_list(shorter);
        assert(shorter.push(path.last()) =~= path);
        if path.last() == LIST_SEPARATOR {
            assert(before.push(Seq::<u8>::empty()).drop_last() =~= before);
            assert(joined_list(before).push(LIST_SEPARATOR) + Seq::<u8>::empty()
                =~= joined_list(before).push(LIST_SEPARATOR));
        } else {
            let grown = before.last().push(path.last());
            let after = before.drop_last().push(grown);
            assert(after.drop_last() =~= before.drop_last());
            if before.len() > 1 {
                let head = joined_list(before.drop_last()).push(LIST_SEPARATOR);
                assert(head + grown =~= (head + before.last()).push(path.last()));
            }
        }
    }
}

/// Whether a piece of a path counts: an empty one does not, and a dot only at
/// the front.
pub open spec fn counts_as_part(piece: Seq<u8>, at_front: bool) -> bool {
    piece.len() > 0 && (piece != seq![DOT] || at_front)
}

/// The parts of a path among its first `n` pieces.
pub open spec fn parts_among(parts: Seq<Seq<u8>>, n: nat) -> Seq<Seq<u8>>
    decreases n,
{
    if n == 0 {
        Seq::empty()
    } else {
        let before = parts_among(parts, (n - 1) as nat);
        if counts_as_part(parts[n - 1], n == 1) {
            before.push(parts[n - 1])
        } else {
            before
        }
    }
}

/// The parts of a path. Repeated separators, a separator at the end, and dots
/// but at the front do not count.
pub open spec fn path_parts(path: Seq<u8>) -> Seq<Seq<u8>> {
    let all = pieces(path, SEPARATOR);
    parts_among(all, all.len())
}

/// Whether two paths are written for the same place: they have the same parts,
/// and both begin at the root or neither does.
pub open spec fn same_place(a: Seq<u8>, b: Seq<u8>) -> bool {
    is_absolute(a) == is_absolute(b) && path_parts(a) == path_parts(b)
}

/// The parts of a path.
fn parts_of(path: &[u8]) -> (parts: Vec<Vec<u8>>)
    ensures
        parts.deep_view() == path_parts(path@),
{
    let all = split_bytes(path, SEPARATOR);
    let ghost views = all.deep_view();
    let mut parts: Vec<Vec<u8>> = Vec::new();
    assert(parts.deep_view() =~= Seq::empty());
    for i in 0..all.len()
        invariant
            views == all.deep_view(),
            parts.deep_view() == parts_among(views, i as nat),
    {
        let piece = &all[i];
        assert(views[i as int] =~= piece@);
        let is_dot = piece.len() == 1 && piece[0] == DOT;
        assert(is_dot == (piece@ == seq![DOT])) by {
            if is_dot {
                assert(piece@ =~= seq![DOT]);
            }
        }
        if piece.len() > 0 && (!is_dot || i == 0) {
            let ghost before = parts.deep_view();
            let copy = copied_bytes(piece.as_slice());
            assert(copy.deep_view() =~= piece@);
            parts.push(copy);
            assert(parts.deep_view() =~= before.push(piece@));
        }
    }
    parts
}

/// Whether two lists of byte runs are the same.
pub(crate) fn same_byte_lists(a: &[Vec<u8>], b: &[Vec<u8>]) -> (yes: bool)
    ensures
        yes == (a.deep_view() == b.deep_view()),
{
    if a.len() != b.len() {
        assert(a.deep_view().len() != b.deep_view().len());
        return false;
    }
    for i in 0..a.len()
        invariant
            a@.len() == b@.len(),
            forall|k: int| 0 <= k < i ==> a.deep_view()[k] == b.deep_view()[k],
    {
        assert(a.deep_view()[i as int] =~= a@[i as int]@);
        assert(b.deep_view()[i as int] =~= b@[i as int]@);
        if !same_bytes(a[i].as_slice(), b[i].as_slice()) {
            return false;
        }
    }
    assert(a.deep_view() =~= b.deep_view());
    true
}

/// Whether two paths are written for the same place.
pub fn same_path(a: &[u8], b: &[u8]) -> (yes: bool)
    ensures
        yes == same_place(a@, b@),
{
    let a_absolute = a.len() > 0 && a[0] == SEPARATOR;
    let b_absolute = b.len() > 0 && b[0] == SEPARATOR;
    if a_absolute != b_absolute {
        return false;
    }
    let a_parts = parts_of(a);
    let b_parts = parts_of(b);
    same_byte_lists(a_parts.as_slice(), b_parts.as_slice())
}

/// A piece added at the end leaves the parts among the first pieces.
proof fn lemma_parts_among_push(all: Seq<Seq<u8>>, piece: Seq<u8>, n: nat)
    requires
        n <= all.len(),
    ensures
        parts_among(all.push(piece), n) == parts_among(all, n),
    decreases n,
{
    if n > 0 {
        lemma_parts_among_push(all, piece, (n - 1) as nat);
    }
}

/// A separator at the end of a path makes no difference, unless the path is
/// empty.
pub proof fn law_last_separator_does_not_count(path: Seq<u8>)
    requires
        path.len() > 0,
    ensures
        same_place(path, path.push(SEPARATOR)),
{
    let longer = path.push(SEPARATOR);
    let all = pieces(path, SEPARATOR);
    assert(longer.drop_last() =~= path);
    assert(pieces(longer, SEPARATOR) == all.push(Seq::empty()));
    lemma_parts_among_push(all, Seq::empty(), all.len());
}

/// A path below an absolute path is absolute, and the part stands at its end.
pub proof fn law_joined_path_ends_in_its_part(base: Seq<u8>, part: Seq<u8>)
    ensures
        part.is_suffix_of(joined_path(base, part)),
        is_absolute(base) ==> is_absolute(joined_path(base, part)),
        !is_absolute(part) ==> base.is_prefix_of(joined_path(base, part)),
{
    let path = joined_path(base, part);
    assert(path.subrange(path.len() - part.len(), path.len() as int) =~= part);
    if !is_absolute(part) {
        assert(path.subrange(0, base.len() as int) =~= base);
    }
}

/// A path and a part below it are parted by a separator, of which there is only
/// one more than they brought with them.
pub proof fn law_joined_path_parts_its_parts(base: Seq<u8>, part: Seq<u8>)
    requires
        part.len() == 0 || part[0] != 0x2f,
        base.len() > 0,
    ensures
        ({
            let path = joined_path(base, part);
            let at = path.len() - part.len();
            &&& at == base.len() || at == base.len() + 1
            &&& path[at - 1] == 0x2f
            &&& at == base.len() + 1 ==> base.last() != 0x2f
            &&& path.take(base.len() as int) == base
            &&& path.skip(at) == part
        }),
{
    let path = joined_path(base, part);
    let at = path.len() - part.len();
    assert(path.take(base.len() as int) =~= base);
    assert(path.skip(at) =~= part);
}

/// A name behind a separator is the last part of a path, and the parts before it
/// are those of the path before it.
pub proof fn law_last_name_is_the_last_part(path: Seq<u8>, name: Seq<u8>)
    requires
        name.len() > 0,
        name != seq![0x2eu8],
        forall|k: int| 0 <= k < name.len() ==> #[trigger] name[k] != 0x2f,
    ensures
        path_parts(path.push(0x2f) + name) == path_parts(path).push(name),
{
    let all = pieces(path, SEPARATOR);
    lemma_pieces_are_not_empty(path, SEPARATOR);
    crate::strings::law_run_without_separator_is_one_piece(name, SEPARATOR);
    crate::strings::law_separator_parts_the_pieces(path, name, SEPARATOR);
    assert(all + seq![name] =~= all.push(name));
    lemma_parts_among_push(all, name, all.len());
}

/// A single name is the only part of its path.
pub proof fn law_name_is_its_own_part(name: Seq<u8>)
    requires
        name.len() > 0,
        forall|k: int| 0 <= k < name.len() ==> #[trigger] name[k] != 0x2f,
    ensures
        path_parts(name) == seq![name],
{
    crate::strings::law_run_without_separator_is_one_piece(name, SEPARATOR);
    reveal_with_fuel(parts_among, 2);
    assert(seq![name][0] == name);
    assert(Seq::empty().push(name) =~= seq![name]);
}

/// A dot behind a separator makes no difference to the place of a path, unless the
/// path is empty.
pub proof fn law_dots_do_not_count(path: Seq<u8>)
    requires
        path.len() > 0,
    ensures
        same_place(path, path.push(0x2f).push(0x2e)),
{
    let all = pieces(path, SEPARATOR);
    let dot = seq![0x2eu8];
    lemma_pieces_are_not_empty(path, SEPARATOR);
    crate::strings::law_run_without_separator_is_one_piece(dot, SEPARATOR);
    crate::strings::law_separator_parts_the_pieces(path, dot, SEPARATOR);
    assert(path.push(0x2f) + dot =~= path.push(0x2f).push(0x2e));
    assert(all + seq![dot] =~= all.push(dot));
    lemma_parts_among_push(all, dot, all.len());
}

/// A path from the root and one that is not are never the same place.
pub proof fn law_root_is_told_apart(a: Seq<u8>, b: Seq<u8>)
    requires
        a.len() > 0,
        a[0] == 0x2f,
        b.len() == 0 || b[0] != 0x2f,
    ensures
        !same_place(a, b),
        !same_place(b, a),
{
}

} // verus!
