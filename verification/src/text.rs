//! Text measured in cells of the grid.

use unicode_segmentation::UnicodeSegmentation;
use unicode_width::UnicodeWidthStr;
use vstd::prelude::*;

use crate::messages::{plain_face, Atom, AtomView, Face};

verus! {

/// The extended grapheme clusters of a text, in order.
pub uninterp spec fn grapheme_clusters(text: Seq<char>) -> Seq<Seq<char>>;

/// The number of columns that a text takes by the Unicode width rules.
pub uninterp spec fn unicode_columns(text: Seq<char>) -> usize;

/// `UnicodeSegmentation::graphemes` with extended clusters, collected.
///
/// Trusted: the clusters are a function of the text; joined they are the text
/// again; none of them is empty; and since clusters are found from the front by
/// what stands up to each boundary, a leading run of them, joined, has just that
/// run as its clusters.
#[verifier::external_body]
pub(crate) fn text_clusters(text: &str) -> (clusters: Vec<&str>)
    ensures
        clusters.deep_view() == grapheme_clusters(text@),
        clusters.deep_view().flatten() == text@,
        forall|i: int| 0 <= i < clusters@.len() ==> #[trigger] clusters@[i]@.len() > 0,
        forall|n: int|
            0 <= n <= clusters@.len() ==> grapheme_clusters(
                (#[trigger] clusters.deep_view().take(n)).flatten(),
            ) == clusters.deep_view().take(n),
{
    UnicodeSegmentation::graphemes(text, true).collect()
}

/// `UnicodeWidthStr::width`.
///
/// Trusted: the width is a function of the text.
#[verifier::external_body]
fn unicode_width(text: &str) -> (columns: usize)
    ensures
        columns == unicode_columns(text@),
{
    UnicodeWidthStr::width(text)
}

/// A natural number, or the largest `usize` where the number is larger.
pub open spec fn capped(n: nat) -> usize {
    if n <= usize::MAX {
        n as usize
    } else {
        usize::MAX
    }
}

/// The cells that a cluster takes: its columns, and at least one if it holds anything.
pub open spec fn cluster_width(cluster: Seq<char>) -> nat {
    if cluster.len() > 0 && unicode_columns(cluster) == 0 {
        1
    } else {
        unicode_columns(cluster) as nat
    }
}

/// The cluster that ends a line and takes no cell.
pub open spec fn is_line_end(cluster: Seq<char>) -> bool {
    cluster == seq!['\n']
}

/// The cells that a run of clusters takes; line ends take none.
pub open spec fn clusters_width(clusters: Seq<Seq<char>>) -> nat
    decreases clusters.len(),
{
    if clusters.len() == 0 {
        0
    } else if is_line_end(clusters.last()) {
        clusters_width(clusters.drop_last())
    } else {
        clusters_width(clusters.drop_last()) + cluster_width(clusters.last())
    }
}

/// The cells that a text takes.
pub open spec fn text_width(text: Seq<char>) -> nat {
    clusters_width(grapheme_clusters(text))
}

/// The cells that a line of atoms takes.
pub open spec fn line_width(line: Seq<AtomView>) -> nat
    decreases line.len(),
{
    if line.len() == 0 {
        0
    } else {
        line_width(line.drop_last()) + text_width(line.last().contents)
    }
}

/// The characters of a text.
pub(crate) fn text_chars(text: &str) -> (chars: Vec<char>)
    ensures
        chars@ == text@,
{
    let mut chars: Vec<char> = Vec::new();
    for c in it: text.chars()
        invariant
            chars@ == text@.take(it.index() as int),
            it.seq() == text@,
    {
        chars.push(c);
        assert(chars@ =~= text@.take(it.index() + 1));
    }
    assert(text@.take(text@.len() as int) =~= text@);
    chars
}

/// Whether a cluster is a line end.
pub(crate) fn ends_line(cluster: &str) -> (yes: bool)
    ensures
        yes == is_line_end(cluster@),
{
    let yes = cluster.unicode_len() == 1 && cluster.get_char(0) == '\n';
    assert(yes ==> cluster@ =~= seq!['\n']);
    yes
}

/// The cells that a cluster takes.
pub(crate) fn cluster_display_width(cluster: &str) -> (width: usize)
    ensures
        width == cluster_width(cluster@),
{
    let columns = unicode_width(cluster);
    if columns == 0 && !cluster.is_empty() {
        1
    } else {
        columns
    }
}

/// The cells that a text takes, up to the largest `usize`. Every cluster but a
/// line end takes at least one.
pub fn atom_display_width(contents: &str) -> (width: usize)
    ensures
        width == capped(text_width(contents@)),
        is_taken_apart(contents@),
        forall|i: int|
            0 <= i < grapheme_clusters(contents@).len() ==> (
            #[trigger] grapheme_clusters(contents@)[i]).len() > 0 && cluster_width(
                grapheme_clusters(contents@)[i],
            ) >= 1,
{
    let clusters = text_clusters(contents);
    let ghost all = clusters.deep_view();
    assert forall|i: int| 0 <= i < all.len() implies (#[trigger] all[i]).len() > 0 by {
        assert(all[i] == clusters@[i]@);
    }
    assert(is_taken_apart(contents@));
    let mut width: usize = 0;
    for i in 0..clusters.len()
        invariant
            all == clusters.deep_view(),
            width == capped(clusters_width(all.take(i as int))),
    {
        assert(all.take(i + 1).drop_last() =~= all.take(i as int));
        assert(all.take(i + 1).last() == clusters@[i as int]@);
        if !ends_line(clusters[i]) {
            width = width.saturating_add(cluster_display_width(clusters[i]));
        }
    }
    assert(all.take(clusters.len() as int) =~= all);
    width
}

/// The cells that a line of atoms takes, up to the largest `usize`.
pub fn line_display_width(line: &[Atom]) -> (width: usize)
    ensures
        width == capped(line_width(line.deep_view())),
        forall|i: int|
            0 <= i < line@.len() ==> is_taken_apart((#[trigger] line.deep_view()[i]).contents),
{
    let ghost all = line.deep_view();
    let mut width: usize = 0;
    for i in 0..line.len()
        invariant
            all == line.deep_view(),
            width == capped(line_width(all.take(i as int))),
            forall|k: int| 0 <= k < i ==> is_taken_apart((#[trigger] all[k]).contents),
    {
        assert(all.take(i + 1).drop_last() =~= all.take(i as int));
        assert(all.take(i + 1).last() == line@[i as int].deep_view());
        width = width.saturating_add(atom_display_width(line[i].contents.as_str()));
    }
    assert(all.take(line.len() as int) =~= all);
    width
}

/// The text of a run of clusters without its line ends.
pub open spec fn visible_text(clusters: Seq<Seq<char>>) -> Seq<char>
    decreases clusters.len(),
{
    if clusters.len() == 0 {
        Seq::empty()
    } else if is_line_end(clusters.last()) {
        visible_text(clusters.drop_last())
    } else {
        visible_text(clusters.drop_last()) + clusters.last()
    }
}

/// The length of the longest leading run of clusters that fits in `room` cells.
pub open spec fn fitting_count(clusters: Seq<Seq<char>>, room: nat) -> nat
    decreases clusters.len(),
{
    if clusters.len() == 0 || clusters_width(clusters) <= room {
        clusters.len()
    } else {
        fitting_count(clusters.drop_last(), room)
    }
}

/// The longest leading run of clusters of a text that fits in `room` cells.
pub open spec fn fitting_clusters(text: Seq<char>, room: nat) -> Seq<Seq<char>> {
    let clusters = grapheme_clusters(text);
    clusters.take(fitting_count(clusters, room) as int)
}

/// A line cut to `room` cells. Each atom keeps the clusters that fit in what
/// the atoms before it left; an atom of which no text is left is dropped.
pub open spec fn truncated(line: Seq<AtomView>, room: nat) -> Seq<AtomView>
    decreases line.len(),
{
    if line.len() == 0 || room == 0 {
        Seq::empty()
    } else {
        let kept = fitting_clusters(line.first().contents, room);
        let rest = truncated(line.drop_first(), (room - clusters_width(kept)) as nat);
        if visible_text(kept).len() == 0 {
            rest
        } else {
            seq![AtomView { face: line.first().face, contents: visible_text(kept) }] + rest
        }
    }
}

/// The cells that the clusters take that `truncated` keeps.
pub open spec fn truncated_width(line: Seq<AtomView>, room: nat) -> nat
    decreases line.len(),
{
    if line.len() == 0 || room == 0 {
        0
    } else {
        let used = clusters_width(fitting_clusters(line.first().contents, room));
        used + truncated_width(line.drop_first(), (room - used) as nat)
    }
}

/// The contents of a line, joined.
pub open spec fn joined_contents(line: Seq<AtomView>) -> Seq<char>
    decreases line.len(),
{
    if line.len() == 0 {
        Seq::empty()
    } else {
        line.first().contents + joined_contents(line.drop_first())
    }
}

/// The contents of a line without their line ends, joined.
pub open spec fn visible_contents(line: Seq<AtomView>) -> Seq<char>
    decreases line.len(),
{
    if line.len() == 0 {
        Seq::empty()
    } else {
        visible_text(grapheme_clusters(line.first().contents)) + visible_contents(
            line.drop_first(),
        )
    }
}

/// A text without a line end.
pub open spec fn is_one_line(text: Seq<char>) -> bool {
    !text.contains('\n')
}

/// A line whose atoms hold no line end.
pub open spec fn all_one_line(line: Seq<AtomView>) -> bool {
    forall|i: int| 0 <= i < line.len() ==> is_one_line((#[trigger] line[i]).contents)
}

/// A line without its empty atoms.
pub open spec fn without_empty(line: Seq<AtomView>) -> Seq<AtomView>
    decreases line.len(),
{
    if line.len() == 0 {
        Seq::empty()
    } else if line.first().contents.len() == 0 {
        without_empty(line.drop_first())
    } else {
        seq![line.first()] + without_empty(line.drop_first())
    }
}

/// A line without its line ends, and without the atoms that show nothing else.
pub open spec fn shown_line(line: Seq<AtomView>) -> Seq<AtomView>
    decreases line.len(),
{
    if line.len() == 0 {
        Seq::empty()
    } else {
        let text = visible_text(grapheme_clusters(line.first().contents));
        let rest = shown_line(line.drop_first());
        if text.len() == 0 {
            rest
        } else {
            seq![AtomView { face: line.first().face, contents: text }] + rest
        }
    }
}

/// Whether an atom shows something of another in the same face: a leading part
/// of its text, if that holds no line end.
pub open spec fn is_part_of(part: AtomView, atom: AtomView) -> bool {
    &&& part.face == atom.face
    &&& part.contents.len() > 0
    &&& is_one_line(atom.contents) ==> part.contents.is_prefix_of(atom.contents)
}

/// Whether the atoms of one line are parts of different atoms of another, in
/// their order.
pub open spec fn are_parts_of(parts: Seq<AtomView>, line: Seq<AtomView>) -> bool
    decreases line.len(),
{
    if parts.len() == 0 {
        true
    } else if line.len() == 0 {
        false
    } else {
        ||| is_part_of(parts.first(), line.first()) && are_parts_of(
            parts.drop_first(),
            line.drop_first(),
        )
        ||| are_parts_of(parts, line.drop_first())
    }
}

/// How a text is taken apart into clusters: they are the text again, joined; none
/// of them is empty; and the clusters of a leading run of them, joined, are that
/// run.
pub open spec fn is_taken_apart(text: Seq<char>) -> bool {
    let clusters = grapheme_clusters(text);
    &&& clusters.flatten() == text
    &&& forall|i: int| 0 <= i < clusters.len() ==> (#[trigger] clusters[i]).len() > 0
    &&& forall|n: int|
        0 <= n <= clusters.len() ==> grapheme_clusters((#[trigger] clusters.take(n)).flatten())
            == clusters.take(n)
}

/// A longer run of clusters takes at least as many cells.
proof fn lemma_width_grows(clusters: Seq<Seq<char>>, n: int)
    requires
        0 <= n <= clusters.len(),
    ensures
        clusters_width(clusters.take(n)) <= clusters_width(clusters),
    decreases clusters.len() - n,
{
    if n < clusters.len() {
        lemma_width_grows(clusters, n + 1);
        assert(clusters.take(n + 1).drop_last() =~= clusters.take(n));
    } else {
        assert(clusters.take(n) =~= clusters);
    }
}

/// `fitting_count` is a length of a run that fits.
proof fn lemma_fitting_fits(clusters: Seq<Seq<char>>, room: nat)
    ensures
        fitting_count(clusters, room) <= clusters.len(),
        clusters_width(clusters.take(fitting_count(clusters, room) as int)) <= room,
    decreases clusters.len(),
{
    if clusters.len() == 0 || clusters_width(clusters) <= room {
        assert(clusters.take(clusters.len() as int) =~= clusters);
    } else {
        lemma_fitting_fits(clusters.drop_last(), room);
        let n = fitting_count(clusters.drop_last(), room) as int;
        assert(clusters.drop_last().take(n) =~= clusters.take(n));
    }
}

/// The longest run that fits ends where the next cluster would not fit.
proof fn lemma_fitting_stops(clusters: Seq<Seq<char>>, room: nat, n: int)
    requires
        0 <= n < clusters.len(),
        clusters_width(clusters.take(n)) <= room,
        clusters_width(clusters.take(n + 1)) > room,
    ensures
        fitting_count(clusters, room) == n,
    decreases clusters.len(),
{
    lemma_width_grows(clusters, n + 1);
    let shorter = clusters.drop_last();
    assert(shorter.take(n) =~= clusters.take(n));
    if n + 1 == clusters.len() {
        reveal_with_fuel(fitting_count, 2);
        assert(clusters.take(n) =~= shorter);
    } else {
        assert(shorter.take(n + 1) =~= clusters.take(n + 1));
        lemma_fitting_stops(shorter, room, n);
    }
}

/// No longer run than the longest that fits does fit.
proof fn lemma_fitting_is_longest(clusters: Seq<Seq<char>>, room: nat, n: int)
    requires
        fitting_count(clusters, room) < n <= clusters.len(),
    ensures
        clusters_width(clusters.take(n)) > room,
    decreases clusters.len(),
{
    if n == clusters.len() {
        assert(clusters.take(n) =~= clusters);
    } else {
        assert(clusters.drop_last().take(n) =~= clusters.take(n));
        lemma_fitting_is_longest(clusters.drop_last(), room, n);
    }
}

/// What stands in one of several texts stands in them joined.
proof fn lemma_in_joined(clusters: Seq<Seq<char>>, i: int, j: int)
    requires
        0 <= i < clusters.len(),
        0 <= j < clusters[i].len(),
    ensures
        clusters.flatten().contains(clusters[i][j]),
    decreases clusters.len(),
{
    let rest = clusters.drop_first().flatten();
    if i == 0 {
        assert(clusters.flatten()[j] == clusters[0][j]);
    } else {
        lemma_in_joined(clusters.drop_first(), i - 1, j);
        let k = choose|k: int| 0 <= k < rest.len() && rest[k] == clusters[i][j];
        assert(clusters.flatten()[clusters.first().len() + k] == clusters[i][j]);
    }
}

/// The leading run of clusters, joined, leads what all of them are, joined.
proof fn lemma_joined_prefix(clusters: Seq<Seq<char>>, n: int)
    requires
        0 <= n <= clusters.len(),
    ensures
        clusters.flatten() == clusters.take(n).flatten() + clusters.skip(n).flatten(),
        clusters.take(n).flatten().is_prefix_of(clusters.flatten()),
{
    vstd::seq_lib::lemma_flatten_concat(clusters.take(n), clusters.skip(n));
    assert(clusters.take(n) + clusters.skip(n) =~= clusters);
}

/// The clusters of a text without a line end: none is a line end, and a leading
/// run of them shows all its text.
proof fn lemma_one_line_clusters(text: Seq<char>, n: int)
    requires
        is_taken_apart(text),
        is_one_line(text),
        0 <= n <= grapheme_clusters(text).len(),
    ensures
        visible_text(grapheme_clusters(text).take(n)) == grapheme_clusters(text).take(n).flatten(),
        clusters_width(grapheme_clusters(text).take(n)) >= n,
    decreases n,
{
    let clusters = grapheme_clusters(text);
    let run = clusters.take(n);
    if n > 0 {
        lemma_one_line_clusters(text, n - 1);
        assert(run.drop_last() =~= clusters.take(n - 1));
        if is_line_end(run.last()) {
            assert(clusters[n - 1][0] == '\n');
            lemma_in_joined(clusters, n - 1, 0);
        }
        run.lemma_flatten_and_flatten_alt_are_equivalent();
        run.drop_last().lemma_flatten_and_flatten_alt_are_equivalent();
    }
}

/// What is kept of a text without a line end: its clusters are those that fit.
proof fn lemma_kept_text(text: Seq<char>, room: nat)
    requires
        is_taken_apart(text),
        is_one_line(text),
    ensures
        ({
            let kept = fitting_clusters(text, room);
            let shown = visible_text(kept);
            &&& shown == kept.flatten()
            &&& shown.is_prefix_of(text)
            &&& grapheme_clusters(shown) == kept
            &&& text_width(shown) == clusters_width(kept)
            &&& fitting_clusters(shown, room) == kept
            &&& shown.len() == 0 ==> clusters_width(kept) == 0
            &&& clusters_width(kept) <= room
        }),
{
    let clusters = grapheme_clusters(text);
    let n = fitting_count(clusters, room) as int;
    let kept = clusters.take(n);
    lemma_fitting_fits(clusters, room);
    lemma_one_line_clusters(text, n);
    lemma_joined_prefix(clusters, n);
    assert(kept.take(kept.len() as int) =~= kept);
    if n > 0 {
        lemma_in_joined(kept, 0, 0);
    } else {
        assert(kept =~= Seq::empty());
    }
}

/// What is cut from a line: parts of its atoms; and if these hold no line end,
/// the cut line measured anew keeps to the room, cutting it again changes
/// nothing, and a line that fits only loses its empty atoms.
proof fn lemma_cut_line(line: Seq<AtomView>, room: nat)
    requires
        forall|i: int| 0 <= i < line.len() ==> is_taken_apart((#[trigger] line[i]).contents),
    ensures
        are_parts_of(truncated(line, room), line),
        all_one_line(line) ==> {
            &&& line_width(truncated(line, room)) <= room
            &&& truncated(truncated(line, room), room) == truncated(line, room)
            &&& line_width(line) <= room ==> truncated(line, room) == without_empty(line)
        },
    decreases line.len(),
{
    let cut = truncated(line, room);
    if line.len() == 0 {
        assert(without_empty(line) =~= cut);
    } else {
        let first = line.first();
        let rest = line.drop_first();
        assert(line[0] == first);
        assert forall|i: int| 0 <= i < rest.len() implies is_taken_apart(
            (#[trigger] rest[i]).contents,
        ) by {
            assert(rest[i] == line[i + 1]);
        }
        if all_one_line(line) {
            assert forall|i: int| 0 <= i < rest.len() implies is_one_line(
                (#[trigger] rest[i]).contents,
            ) by {
                assert(rest[i] == line[i + 1]);
            }
            lemma_line_width_front(line);
        }
        if room == 0 {
            lemma_cut_line(rest, 0);
            if all_one_line(line) && line_width(line) == 0 {
                let clusters = grapheme_clusters(first.contents);
                lemma_one_line_clusters(first.contents, clusters.len() as int);
                assert(clusters.take(clusters.len() as int) =~= clusters);
                assert(first.contents.len() == 0);
            }
        } else {
            let kept = fitting_clusters(first.contents, room);
            let used = clusters_width(kept);
            lemma_fitting_fits(grapheme_clusters(first.contents), room);
            let left = (room - used) as nat;
            let tail = truncated(rest, left);
            lemma_cut_line(rest, left);
            let shown = visible_text(kept);
            let head = AtomView { face: first.face, contents: shown };
            if is_one_line(first.contents) {
                lemma_kept_text(first.contents, room);
            }
            if shown.len() > 0 {
                assert(cut.drop_first() =~= tail);
                assert(cut.first() == head);
                assert(is_part_of(head, first));
            }
            if all_one_line(line) {
                if shown.len() > 0 {
                    lemma_line_width_front(cut);
                }
                if line_width(line) <= room {
                    let clusters = grapheme_clusters(first.contents);
                    assert(clusters.take(clusters.len() as int) =~= clusters);
                    assert(kept == clusters);
                    assert(shown == first.contents);
                }
            }
        }
    }
}

/// The leading text of `contents` that fits in `room` cells, without its line
/// ends, and the cells that it takes.
fn fitting_prefix(contents: &str, room: usize) -> (prefix: (String, usize))
    ensures
        prefix.0@ == visible_text(fitting_clusters(contents@, room as nat)),
        prefix.1 == clusters_width(fitting_clusters(contents@, room as nat)),
        prefix.1 <= room,
        is_taken_apart(contents@),
{
    let clusters = text_clusters(contents);
    let ghost all = clusters.deep_view();
    assert forall|i: int| 0 <= i < all.len() implies (#[trigger] all[i]).len() > 0 by {
        assert(all[i] == clusters@[i]@);
    }
    assert(is_taken_apart(contents@));
    let mut text = String::new();
    let mut used: usize = 0;
    for i in 0..clusters.len()
        invariant
            all == clusters.deep_view(),
            all == grapheme_clusters(contents@),
            is_taken_apart(contents@),
            used <= room,
            used == clusters_width(all.take(i as int)),
            text@ == visible_text(all.take(i as int)),
    {
        assert(all.take(i + 1).drop_last() =~= all.take(i as int));
        assert(all.take(i + 1).last() == clusters@[i as int]@);
        if !ends_line(clusters[i]) {
            let width = cluster_display_width(clusters[i]);
            if width > room - used {
                proof {
                    lemma_fitting_stops(all, room as nat, i as int);
                }
                return (text, used);
            }
            text.append(clusters[i]);
            used = used + width;
        }
    }
    assert(all.take(clusters.len() as int) =~= all);
    (text, used)
}

/// A line cut to `max_width` cells.
fn cut_atoms(line: &[Atom], max_width: usize) -> (result: Vec<Atom>)
    ensures
        result.deep_view() == truncated(line.deep_view(), max_width as nat),
        forall|i: int|
            0 <= i < line@.len() ==> is_taken_apart((#[trigger] line.deep_view()[i]).contents),
{
    let ghost all = line.deep_view();
    let mut remaining: usize = max_width;
    let mut result: Vec<Atom> = Vec::new();
    assert(result.deep_view() + truncated(all.skip(0), remaining as nat) =~= truncated(
        all,
        max_width as nat,
    )) by {
        assert(all.skip(0) =~= all);
    }
    for i in 0..line.len()
        invariant
            all == line.deep_view(),
            forall|k: int| 0 <= k < i ==> is_taken_apart((#[trigger] all[k]).contents),
            result.deep_view() + truncated(all.skip(i as int), remaining as nat) == truncated(
                all,
                max_width as nat,
            ),
    {
        assert(all[i as int] == line@[i as int].deep_view());
        let (contents, used) = fitting_prefix(line[i].contents.as_str(), remaining);
        let ghost before = result.deep_view();
        assert(all.skip(i as int).drop_first() =~= all.skip(i + 1));
        let ghost rest = truncated(all.skip(i + 1), (remaining - used) as nat);
        if remaining == 0 {
            proof {
                lemma_no_width_no_text(fitting_clusters(all[i as int].contents, 0));
            }
            assert(rest =~= Seq::empty());
        }
        remaining = remaining - used;
        if !contents.as_str().is_empty() {
            let ghost kept = AtomView { face: line@[i as int].face.deep_view(), contents: contents@ };
            result.push(Atom { face: line[i].face.clone(), contents });
            assert(result.deep_view() =~= before.push(kept));
            assert(before.push(kept) + rest =~= before + (seq![kept] + rest));
        }
    }
    assert(result.deep_view() + truncated(all.skip(line.len() as int), remaining as nat)
        =~= result.deep_view());
    result
}

/// A line cut to `max_width` cells. What is left are parts of its atoms. If these
/// hold no line end, the result takes at most `max_width` cells, cutting it again
/// changes nothing, and a line that fits only loses its empty atoms.
pub fn truncate_atoms(line: &[Atom], max_width: usize) -> (result: Vec<Atom>)
    ensures
        result.deep_view() == truncated(line.deep_view(), max_width as nat),
        are_parts_of(result.deep_view(), line.deep_view()),
        all_one_line(line.deep_view()) ==> {
            &&& line_width(result.deep_view()) <= max_width
            &&& truncated(result.deep_view(), max_width as nat) == result.deep_view()
            &&& line_width(line.deep_view()) <= max_width ==> result.deep_view() == without_empty(
                line.deep_view(),
            )
        },
{
    let result = cut_atoms(line, max_width);
    proof {
        lemma_cut_line(line.deep_view(), max_width as nat);
    }
    result
}

/// A text as a line of one plain atom.
pub open spec fn plain_line(text: Seq<char>) -> Seq<AtomView> {
    seq![AtomView { face: plain_face(), contents: text }]
}

/// A text as a line of one plain atom.
pub(crate) fn plain_atoms(text: &str) -> (line: Vec<Atom>)
    ensures
        line.deep_view() == plain_line(text@),
{
    let mut line: Vec<Atom> = Vec::new();
    line.push(Atom { face: Face::default(), contents: text.to_string() });
    assert(line.deep_view() =~= plain_line(text@));
    line
}

/// A title cut to `room` cells.
pub open spec fn cut_title(title: Seq<char>, room: nat) -> Seq<char> {
    joined_contents(truncated(plain_line(title), room))
}

/// What a cut title without a line end is: the longest leading run of clusters
/// that, measured anew, takes at most `room` cells.
pub open spec fn is_longest_fit(title: Seq<char>, room: nat, result: Seq<char>) -> bool {
    let clusters = grapheme_clusters(title);
    let count = fitting_count(clusters, room) as int;
    &&& 0 <= count <= clusters.len()
    &&& result == clusters.take(count).flatten()
    &&& text_width(result) == clusters_width(clusters.take(count))
    &&& forall|k: int|
        0 <= k <= clusters.len() ==> (text_width((#[trigger] clusters.take(k)).flatten()) <= room
            <==> k <= count)
}

/// A cut title is the longest leading run of clusters that fits.
proof fn lemma_cut_title(title: Seq<char>, room: nat)
    requires
        is_taken_apart(title),
        is_one_line(title),
    ensures
        is_longest_fit(title, room, cut_title(title, room)),
        cut_title(title, room) == title <==> text_width(title) <= room,
{
    let clusters = grapheme_clusters(title);
    let count = fitting_count(clusters, room) as int;
    let kept = clusters.take(count);
    let line = plain_line(title);
    let rest = line.drop_first();
    assert(rest =~= Seq::empty());
    lemma_fitting_fits(clusters, room);
    lemma_kept_text(title, room);
    lemma_one_line_clusters(title, count);
    let shown = visible_text(kept);
    if room == 0 {
        assert(kept =~= Seq::empty());
        assert(cut_title(title, room) =~= Seq::empty());
    } else {
        let cut = truncated(line, room);
        let tail = truncated(rest, (room - clusters_width(kept)) as nat);
        assert(tail =~= Seq::empty());
        assert(kept == fitting_clusters(line.first().contents, room));
        if shown.len() > 0 {
            assert(cut =~= seq![AtomView { face: plain_face(), contents: shown }]);
            assert(cut.drop_first() =~= Seq::empty());
            assert(joined_contents(cut.drop_first()) =~= Seq::empty());
            assert(joined_contents(cut) =~= shown);
        } else {
            assert(cut =~= Seq::empty());
            assert(joined_contents(cut) =~= shown);
        }
    }
    assert forall|k: int| 0 <= k <= clusters.len() implies (text_width(
        (#[trigger] clusters.take(k)).flatten(),
    ) <= room <==> k <= count) by {
        if k <= count {
            assert(kept.take(k) =~= clusters.take(k));
            lemma_width_grows(kept, k);
        } else {
            lemma_fitting_is_longest(clusters, room, k);
        }
    }
    assert(clusters.take(clusters.len() as int) =~= clusters);
    if count < clusters.len() {
        lemma_joined_prefix(clusters, count);
        lemma_in_joined(clusters.skip(count), 0, 0);
        assert(shown.len() < title.len());
    }
}

/// A title cut to `max_width` cells. Without a line end in it, the result is the
/// longest leading run of its clusters that fits.
pub fn truncate_title(title: &str, max_width: usize) -> (result: String)
    ensures
        result@ == cut_title(title@, max_width as nat),
        is_one_line(title@) ==> is_longest_fit(title@, max_width as nat, result@),
        is_one_line(title@) ==> (result@ == title@ <==> text_width(title@) <= max_width),
{
    let line = plain_atoms(title);
    let atoms = cut_atoms(line.as_slice(), max_width);
    proof {
        assert(line.deep_view()[0].contents == title@);
        if is_one_line(title@) {
            lemma_cut_title(title@, max_width as nat);
        }
    }
    let ghost all = atoms.deep_view();
    let mut result = String::new();
    assert(all.skip(0) =~= all);
    assert(result@ + joined_contents(all) =~= joined_contents(all));
    for i in 0..atoms.len()
        invariant
            all == atoms.deep_view(),
            result@ + joined_contents(all.skip(i as int)) == joined_contents(all),
    {
        assert(all.skip(i as int).drop_first() =~= all.skip(i + 1));
        let ghost before = result@;
        result.append(atoms[i].contents.as_str());
        assert(before + (atoms@[i as int].contents@ + joined_contents(all.skip(i + 1)))
            =~= result@ + joined_contents(all.skip(i + 1)));
    }
    assert(result@ + joined_contents(all.skip(atoms.len() as int)) =~= result@);
    result
}

/// Cutting a line to `room` cells keeps clusters that take at most `room` cells.
pub proof fn law_truncation_limits_width(line: Seq<AtomView>, room: nat)
    ensures
        truncated_width(line, room) <= room,
    decreases line.len(),
{
    if line.len() > 0 && room > 0 {
        let clusters = grapheme_clusters(line.first().contents);
        lemma_fitting_fits(clusters, room);
        let used = clusters_width(fitting_clusters(line.first().contents, room));
        law_truncation_limits_width(line.drop_first(), (room - used) as nat);
    }
}

/// A run of clusters that takes no cell shows no text.
proof fn lemma_no_width_no_text(clusters: Seq<Seq<char>>)
    requires
        clusters_width(clusters) == 0,
    ensures
        visible_text(clusters) == Seq::<char>::empty(),
    decreases clusters.len(),
{
    if clusters.len() > 0 {
        lemma_no_width_no_text(clusters.drop_last());
        if !is_line_end(clusters.last()) {
            assert(clusters.last() =~= Seq::empty());
            assert(visible_text(clusters) =~= Seq::empty());
        }
    }
}

/// The width of a line, counted from its front.
proof fn lemma_line_width_front(line: Seq<AtomView>)
    requires
        line.len() > 0,
    ensures
        line_width(line) == text_width(line.first().contents) + line_width(line.drop_first()),
    decreases line.len(),
{
    if line.len() > 1 {
        lemma_line_width_front(line.drop_last());
        assert(line.drop_last().drop_first() =~= line.drop_first().drop_last());
    } else {
        assert(line.drop_last() =~= Seq::empty());
        assert(line.drop_first() =~= Seq::empty());
    }
}

/// A line that takes no cell shows no text.
proof fn lemma_no_line_width_no_text(line: Seq<AtomView>)
    requires
        line_width(line) == 0,
    ensures
        visible_contents(line) == Seq::<char>::empty(),
    decreases line.len(),
{
    if line.len() > 0 {
        lemma_line_width_front(line);
        lemma_no_width_no_text(grapheme_clusters(line.first().contents));
        lemma_no_line_width_no_text(line.drop_first());
        assert(visible_contents(line) =~= Seq::empty());
    }
}

/// Cutting a line to as many cells as it takes, or more, keeps it atom by atom,
/// with its faces and all its text but the line ends; atoms that show nothing
/// else are dropped.
pub proof fn law_truncation_keeps_what_fits(line: Seq<AtomView>, room: nat)
    requires
        line_width(line) <= room,
    ensures
        truncated(line, room) == shown_line(line),
        joined_contents(truncated(line, room)) == visible_contents(line),
    decreases line.len(),
{
    if line.len() > 0 {
        lemma_line_width_front(line);
        let clusters = grapheme_clusters(line.first().contents);
        let rest = line.drop_first();
        let text = visible_text(clusters);
        let left = (room - clusters_width(clusters)) as nat;
        law_truncation_keeps_what_fits(rest, left);
        let tail = truncated(rest, left);
        if room == 0 {
            lemma_no_width_no_text(clusters);
            assert(tail =~= Seq::empty());
        }
        assert(clusters.take(clusters.len() as int) =~= clusters);
        if text.len() == 0 {
            assert(text + visible_contents(rest) =~= visible_contents(rest));
        } else {
            let head = AtomView { face: line.first().face, contents: text };
            assert((seq![head] + tail).drop_first() =~= tail);
        }
    }
}

/// Widths add up: over the clusters of a run, and over the atoms of a line. A
/// cluster counts for the columns that Unicode gives it, for one where that is
/// none, and for nothing where it ends a line.
pub proof fn law_widths_add_up(
    first: Seq<Seq<char>>,
    then: Seq<Seq<char>>,
    cluster: Seq<char>,
    head: Seq<AtomView>,
    tail: Seq<AtomView>,
    atom: AtomView,
)
    requires
        cluster.len() > 0,
    ensures
        clusters_width(first + then) == clusters_width(first) + clusters_width(then),
        cluster == seq!['\n'] ==> clusters_width(seq![cluster]) == 0,
        cluster != seq!['\n'] && unicode_columns(cluster) > 0 ==> clusters_width(seq![cluster])
            == unicode_columns(cluster),
        cluster != seq!['\n'] && unicode_columns(cluster) == 0 ==> clusters_width(seq![cluster])
            == 1,
        clusters_width(Seq::empty()) == 0,
        line_width(head + tail) == line_width(head) + line_width(tail),
        line_width(seq![atom]) == clusters_width(grapheme_clusters(atom.contents)),
        line_width(Seq::empty()) == 0,
{
    lemma_run_widths_add(first, then);
    lemma_line_widths_add(head, tail);
    reveal_with_fuel(clusters_width, 2);
    reveal_with_fuel(line_width, 2);
    assert(seq![cluster].last() == cluster);
    assert(seq![cluster].drop_last() =~= Seq::empty());
    assert(seq![atom].last() == atom);
    assert(seq![atom].drop_last() =~= Seq::empty());
}

/// The widths of two runs of clusters add up.
proof fn lemma_run_widths_add(first: Seq<Seq<char>>, then: Seq<Seq<char>>)
    ensures
        clusters_width(first + then) == clusters_width(first) + clusters_width(then),
    decreases then.len(),
{
    if then.len() == 0 {
        assert(first + then =~= first);
    } else {
        lemma_run_widths_add(first, then.drop_last());
        assert((first + then).drop_last() =~= first + then.drop_last());
        assert((first + then).last() == then.last());
    }
}

/// The widths of two lines add up.
pub(crate) proof fn lemma_line_widths_add(head: Seq<AtomView>, tail: Seq<AtomView>)
    ensures
        line_width(head + tail) == line_width(head) + line_width(tail),
    decreases tail.len(),
{
    if tail.len() == 0 {
        assert(head + tail =~= head);
    } else {
        lemma_line_widths_add(head, tail.drop_last());
        assert((head + tail).drop_last() =~= head + tail.drop_last());
        assert((head + tail).last() == tail.last());
    }
}

/// A title without a line end is shown whole where it fits, and otherwise the
/// longest leading run of its clusters that fits is.
pub proof fn law_title_is_cut_where_it_does_not_fit(title: Seq<char>, room: nat, k: int)
    requires
        is_taken_apart(title),
        is_one_line(title),
        0 <= k <= grapheme_clusters(title).len(),
    ensures
        ({
            let cut = cut_title(title, room);
            let leading = grapheme_clusters(title).take(k).flatten();
            &&& cut.is_prefix_of(title)
            &&& text_width(cut) <= room
            &&& text_width(title) <= room ==> cut == title
            &&& text_width(leading) <= room ==> leading.len() <= cut.len()
        }),
{
    lemma_cut_title(title, room);
    let clusters = grapheme_clusters(title);
    let count = fitting_count(clusters, room) as int;
    lemma_joined_prefix(clusters, count);
    assert(text_width(clusters.take(count).flatten()) <= room);
    if text_width(clusters.take(k).flatten()) <= room {
        lemma_joined_prefix(clusters.take(count), k);
        assert(clusters.take(count).take(k) =~= clusters.take(k));
    }
    assert(cut_title(title, room).is_prefix_of(title)) by {
        let cut = cut_title(title, room);
        assert(title.subrange(0, cut.len() as int) =~= cut);
    }
}

} // verus!
