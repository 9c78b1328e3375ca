//! The laws of the editor: proofs that the motion and edit operations relate
//! to one another as a text editor's should. Each law is stated over the spec
//! functions that the operations' own contracts use, so it applies to every
//! document and cursor the editor can hold.

use crate::model::char_count;
use crate::model::lemma_char_count_concat;
use crate::model::lemma_char_count_push;
use crate::model::lemma_char_count_split;
use crate::model::left_cursor;
use crate::model::right_cursor;
use vstd::prelude::*;

verus! {

/// A left move followed by a right move restores the cursor, except at the
/// start of the document, where the left move itself is already a no-op.
pub proof fn lemma_left_then_right(c: int, len: int)
    requires
        0 <= c <= len,
    ensures
        c != 0 ==> right_cursor(left_cursor(c), len) == c,
        c == 0 ==> left_cursor(c) == c,
{
}

/// A right move followed by a left move restores the cursor, except at the
/// end of the document, where the right move itself is already a no-op.
pub proof fn lemma_right_then_left(c: int, len: int)
    requires
        0 <= c <= len,
    ensures
        c != len ==> left_cursor(right_cursor(c, len)) == c,
        c == len ==> right_cursor(c, len) == c,
{
}

/// An insertion grows the document by exactly one character: the inserted one
/// sits at the old cursor offset, and everything else keeps its order on
/// either side of it.
pub proof fn lemma_insert_effect(s: Seq<char>, c: int, ch: char)
    requires
        0 <= c <= s.len(),
    ensures
        s.insert(c, ch).len() == s.len() + 1,
        s.insert(c, ch)[c] == ch,
        forall|j: int| 0 <= j < c ==> #[trigger] s.insert(c, ch)[j] == s[j],
        forall|j: int| c <= j < s.len() ==> #[trigger] s.insert(c, ch)[j + 1] == s[j],
{
    s.insert_ensures(c, ch);
}

/// A deletion at cursor `c > 0` shrinks the document by exactly one
/// character — the one at offset `c - 1` — and keeps every other character
/// in order. (That a deletion at the start of the document changes nothing
/// is part of the delete operation's own contract.)
pub proof fn lemma_delete_effect(s: Seq<char>, c: int)
    requires
        1 <= c <= s.len(),
    ensures
        s.remove(c - 1).len() == s.len() - 1,
        forall|j: int| 0 <= j < c - 1 ==> #[trigger] s.remove(c - 1)[j] == s[j],
        forall|j: int| c - 1 <= j < s.len() - 1 ==> #[trigger] s.remove(c - 1)[j] == s[j + 1],
{
    s.remove_ensures(c - 1);
}

/// The rendered document carries exactly one cursor marker — provided the
/// document itself contains none — and removing the marker at the cursor
/// offset gives back exactly the document.
pub proof fn lemma_render_round_trip(s: Seq<char>, c: int)
    requires
        0 <= c <= s.len(),
        char_count(s, '|') == 0,
    ensures
        char_count(s.insert(c, '|'), '|') == 1,
        s.insert(c, '|').remove(c) == s,
{
    lemma_char_count_split(s, c, '|');
    lemma_char_count_push(s.subrange(0, c), '|', '|');
    lemma_char_count_concat(s.subrange(0, c).push('|'), s.subrange(c, s.len() as int), '|');
    assert(s.subrange(0, c) =~= s.take(c));
    assert(s.subrange(c, s.len() as int) =~= s.skip(c));
    s.insert_ensures(c, '|');
    s.insert(c, '|').remove_ensures(c);
    assert(s.insert(c, '|').remove(c) =~= s);
}

} // verus!
