//! The mathematical model of a document and its cursor.
//!
//! A document is a `Seq<char>`, newlines included, and a cursor is an offset
//! in `0 ..= len`. Everything two-dimensional about the editor — which line
//! the cursor is on, its column, the list of lines, and the vertical motions —
//! is defined here as spec functions over that sequence, together with the
//! lemmas that relate the two views of the document: the character-by-character
//! one (`line_start`, `line_end`) and the line-by-line one (`lines_of`).

use vstd::prelude::*;

verus! {

/// Number of occurrences of `ch` in `s`.
pub open spec fn char_count(s: Seq<char>, ch: char) -> nat
    decreases s.len(),
{
    if s.len() == 0 {
        0
    } else {
        char_count(s.drop_last(), ch) + if s.last() == ch {
            1nat
        } else {
            0nat
        }
    }
}

/// The zero-based line the offset `c` lies on: the number of newlines
/// strictly before it.
pub open spec fn line_of(s: Seq<char>, c: int) -> nat {
    char_count(s.take(c), '\n')
}

/// The offset of the first character of the line containing offset `c`,
/// that is, the offset just after the last newline before `c` (or 0 if
/// no newline precedes `c`).
pub open spec fn line_start(s: Seq<char>, c: int) -> int
    recommends
        0 <= c <= s.len(),
    decreases c,
{
    if c <= 0 {
        0
    } else if s[c - 1] == '\n' {
        c
    } else {
        line_start(s, c - 1)
    }
}

/// The offset of the newline that ends the line containing offset `c`,
/// or `s.len()` if `c` lies on the last line.
pub open spec fn line_end(s: Seq<char>, c: int) -> int
    recommends
        0 <= c <= s.len(),
    decreases s.len() - c,
{
    if c < 0 || c >= s.len() {
        s.len() as int
    } else if s[c] == '\n' {
        c
    } else {
        line_end(s, c + 1)
    }
}

/// The column of offset `c`: its distance from the start of its line.
pub open spec fn column_of(s: Seq<char>, c: int) -> int {
    c - line_start(s, c)
}

/// The document split at each newline. A document always has at least one
/// line: the empty document has the single empty line, and every newline
/// opens a further one.
pub open spec fn lines_of(s: Seq<char>) -> Seq<Seq<char>>
    decreases s.len(),
{
    if s.len() == 0 {
        seq![Seq::<char>::empty()]
    } else if s.last() == '\n' {
        lines_of(s.drop_last()).push(Seq::<char>::empty())
    } else {
        let prev = lines_of(s.drop_last());
        prev.update(prev.len() - 1, prev.last().push(s.last()))
    }
}

/// The cursor after a leftward move: one step back, except at the start of
/// the document, where the move is a no-op.
pub open spec fn left_cursor(c: int) -> int {
    if c == 0 {
        0
    } else {
        c - 1
    }
}

/// The cursor after a rightward move in a document of length `len`: one step
/// forward, except at the end of the document, where the move is a no-op.
pub open spec fn right_cursor(c: int, len: int) -> int {
    if c == len {
        c
    } else {
        c + 1
    }
}

/// The cursor after an upward move: back over the previous line and the
/// newline that ends it, so that the raw offset from the start of the
/// previous line equals the old offset from the start of the old line.
/// The column is deliberately not clamped to the previous line's length.
/// On the first line the move is a no-op.
pub open spec fn up_cursor(s: Seq<char>, c: int) -> int {
    if line_of(s, c) == 0 {
        c
    } else {
        c - lines_of(s)[line_of(s, c) - 1].len() - 1
    }
}

/// The cursor after a downward move: forward over the current line's length
/// plus the newline that ends it, again without clamping the column. On the
/// last line the move is a no-op, and so is a move that would carry the
/// cursor past the end of the document.
pub open spec fn down_cursor(s: Seq<char>, c: int) -> int {
    if line_of(s, c) + 1 == lines_of(s).len() {
        c
    } else {
        let step = lines_of(s)[line_of(s, c) as int].len() + 1;
        if c + step > s.len() {
            c
        } else {
            c + step
        }
    }
}

/// A count is zero exactly when no position holds the character.
pub proof fn lemma_char_count_zero(s: Seq<char>, ch: char)
    ensures
        (char_count(s, ch) == 0) <==> (forall|j: int| 0 <= j < s.len() ==> s[j] != ch),
    decreases s.len(),
{
    if s.len() > 0 {
        lemma_char_count_zero(s.drop_last(), ch);
        assert(forall|j: int| 0 <= j < s.len() - 1 ==> s.drop_last()[j] == s[j]);
    }
}

/// Appending one character raises the count by one exactly when it matches.
pub proof fn lemma_char_count_push(s: Seq<char>, x: char, ch: char)
    ensures
        char_count(s.push(x), ch) == char_count(s, ch) + if x == ch {
            1nat
        } else {
            0nat
        },
{
    assert(s.push(x).drop_last() =~= s);
    assert(s.push(x).last() == x);
}

/// Counting distributes over concatenation.
pub proof fn lemma_char_count_concat(a: Seq<char>, b: Seq<char>, ch: char)
    ensures
        char_count(a + b, ch) == char_count(a, ch) + char_count(b, ch),
    decreases b.len(),
{
    if b.len() == 0 {
        assert(a + b =~= a);
    } else {
        lemma_char_count_concat(a, b.drop_last(), ch);
        assert((a + b).drop_last() =~= a + b.drop_last());
        assert((a + b).last() == b.last());
    }
}

/// Counting splits at any offset into the prefix's and the suffix's counts.
pub proof fn lemma_char_count_split(s: Seq<char>, c: int, ch: char)
    requires
        0 <= c <= s.len(),
    ensures
        char_count(s, ch) == char_count(s.take(c), ch) + char_count(s.skip(c), ch),
{
    lemma_char_count_concat(s.take(c), s.skip(c), ch);
    assert(s.take(c) + s.skip(c) =~= s);
}

/// Extending a prefix by one position raises its count by one exactly when
/// the new position holds the character.
pub proof fn lemma_char_count_take_step(s: Seq<char>, i: int, ch: char)
    requires
        0 <= i < s.len(),
    ensures
        char_count(s.take(i + 1), ch) == char_count(s.take(i), ch) + if s[i] == ch {
            1nat
        } else {
            0nat
        },
{
    assert(s.take(i + 1).drop_last() =~= s.take(i));
    assert(s.take(i + 1).last() == s[i]);
}

/// `line_start` lands between 0 and `c`, lands just after a newline unless it
/// is 0, and no newline lies between it and `c`.
pub proof fn lemma_line_start_bounds(s: Seq<char>, c: int)
    requires
        0 <= c <= s.len(),
    ensures
        0 <= line_start(s, c) <= c,
        line_start(s, c) > 0 ==> s[line_start(s, c) - 1] == '\n',
        forall|j: int| line_start(s, c) <= j < c ==> s[j] != '\n',
    decreases c,
{
    if c > 0 && s[c - 1] != '\n' {
        lemma_line_start_bounds(s, c - 1);
    }
}

/// `line_end` lands between `c` and the length, lands on a newline unless it
/// is the length, and no newline lies between `c` and it.
pub proof fn lemma_line_end_bounds(s: Seq<char>, c: int)
    requires
        0 <= c <= s.len(),
    ensures
        c <= line_end(s, c) <= s.len(),
        line_end(s, c) < s.len() ==> s[line_end(s, c)] == '\n',
        forall|j: int| c <= j < line_end(s, c) ==> s[j] != '\n',
    decreases s.len() - c,
{
    if c < s.len() && s[c] != '\n' {
        lemma_line_end_bounds(s, c + 1);
    }
}

/// The properties of `line_end` determine it: an offset at or past `c` with
/// no newline before it, itself a newline or the document's end, is it.
pub proof fn lemma_line_end_is(s: Seq<char>, c: int, e: int)
    requires
        0 <= c <= e <= s.len(),
        forall|j: int| c <= j < e ==> s[j] != '\n',
        e < s.len() ==> s[e] == '\n',
    ensures
        line_end(s, c) == e,
    decreases e - c,
{
    if c < e {
        lemma_line_end_is(s, c + 1, e);
    }
}

/// `line_start` at `c` reads only the characters before `c`, so two
/// documents that agree there agree on it.
pub proof fn lemma_line_start_prefix(s: Seq<char>, t: Seq<char>, c: int)
    requires
        0 <= c <= s.len(),
        c <= t.len(),
        forall|j: int| 0 <= j < c ==> s[j] == t[j],
    ensures
        line_start(s, c) == line_start(t, c),
    decreases c,
{
    if c > 0 && s[c - 1] != '\n' {
        lemma_line_start_prefix(s, t, c - 1);
    }
}

/// A document has one more line than it has newlines.
pub proof fn lemma_lines_count(s: Seq<char>)
    ensures
        lines_of(s).len() == char_count(s, '\n') + 1,
    decreases s.len(),
{
    if s.len() > 0 {
        lemma_lines_count(s.drop_last());
    }
}

/// The bridge between the two views of the document: the line that `lines_of`
/// holds at the cursor's line number is exactly the stretch of the document
/// from `line_start` to `line_end`.
pub proof fn lemma_line_at(s: Seq<char>, c: int)
    requires
        0 <= c <= s.len(),
    ensures
        line_of(s, c) < lines_of(s).len(),
        lines_of(s)[line_of(s, c) as int] == s.subrange(line_start(s, c), line_end(s, c)),
    decreases s.len(),
{
    lemma_lines_count(s);
    lemma_char_count_split(s, c, '\n');
    lemma_line_start_bounds(s, c);
    lemma_line_end_bounds(s, c);
    let n = s.len() as int;
    if n == 0 {
        assert(s.take(0) =~= Seq::<char>::empty());
        assert(s.subrange(0, 0) =~= Seq::<char>::empty());
    } else {
        let t = s.drop_last();
        let x = s.last();
        lemma_lines_count(t);
        assert(forall|j: int| 0 <= j < n - 1 ==> t[j] == s[j]);
        assert(s[n - 1] == x);
        if c == n {
            assert(s.take(n) =~= s);
            if x == '\n' {
                assert(s.subrange(n, n) =~= Seq::<char>::empty());
            } else {
                lemma_line_at(t, n - 1);
                assert(t.take(n - 1) =~= t);
                lemma_line_start_prefix(s, t, n - 1);
                lemma_line_start_bounds(t, n - 1);
                let st = line_start(s, n);
                assert(line_start(s, n) == line_start(s, n - 1));
                assert(s.subrange(st, n) =~= t.subrange(st, n - 1).push(x));
            }
        } else {
            lemma_line_at(t, c);
            assert(s.take(c) =~= t.take(c));
            lemma_line_start_prefix(s, t, c);
            lemma_line_start_bounds(t, c);
            lemma_line_end_bounds(t, c);
            lemma_char_count_split(t, c, '\n');
            lemma_char_count_zero(t.skip(c), '\n');
            let st = line_start(s, c);
            let et = line_end(t, c);
            if et < n - 1 {
                lemma_line_end_is(s, c, et);
                assert(s.subrange(st, et) =~= t.subrange(st, et));
                assert(t.skip(c)[et - c] == '\n');
            } else {
                assert(forall|j: int| 0 <= j < t.skip(c).len() ==> t.skip(c)[j] == t[j + c]);
                if x == '\n' {
                    lemma_line_end_is(s, c, n - 1);
                    assert(s.subrange(st, n - 1) =~= t.subrange(st, n - 1));
                } else {
                    lemma_line_end_is(s, c, n);
                    assert(s.subrange(st, n) =~= t.subrange(st, n - 1).push(x));
                }
            }
        }
    }
}

/// When the cursor is below the first line, the previous line together with
/// its newline fits between the start of the document and the cursor, so an
/// upward move lands at a valid offset.
pub proof fn lemma_up_step_bound(s: Seq<char>, c: int)
    requires
        0 <= c <= s.len(),
        line_of(s, c) >= 1,
    ensures
        line_of(s, c) < lines_of(s).len(),
        lines_of(s)[line_of(s, c) - 1].len() + 1 <= c,
{
    let y = line_of(s, c) as int;
    let st = line_start(s, c);
    lemma_line_at(s, c);
    lemma_line_start_bounds(s, c);
    if st == 0 {
        lemma_char_count_zero(s.take(c), '\n');
        assert(forall|j: int| 0 <= j < c ==> s.take(c)[j] == s[j]);
        assert(false);
    }
    // The count of newlines before `st - 1` is one less than before `c`:
    // the newline at `st - 1` is the only one in between.
    lemma_char_count_concat(s.take(st), s.subrange(st, c), '\n');
    assert(s.take(st) + s.subrange(st, c) =~= s.take(c));
    lemma_char_count_zero(s.subrange(st, c), '\n');
    assert(forall|j: int| 0 <= j < c - st ==> s.subrange(st, c)[j] == s[j + st]);
    lemma_char_count_push(s.take(st - 1), '\n', '\n');
    assert(s.take(st - 1).push(s[st - 1]) =~= s.take(st));
    assert(line_of(s, st - 1) == y - 1);
    // The previous line is the stretch from its own start to the newline at `st - 1`.
    lemma_line_end_is(s, st - 1, st - 1);
    lemma_line_at(s, st - 1);
    lemma_line_start_bounds(s, st - 1);
}

} // verus!
