//! Word wrapping: a text and a column width give an ordered sequence of lines.

use vstd::prelude::*;

verus! {

/// The byte that separates words within a line.
pub const SPACE: u8 = 0x20;

/// The byte that ends a line wherever it stands.
pub const NEWLINE: u8 = 0x0A;

/// Columns of the screen that are kept free beside the text.
pub const MARGIN: u16 = 8;

/// Columns granted to a line beyond the square root of the text's length.
pub const SLACK: u16 = 20;

/// A byte at which the text may be broken into lines.
pub open spec fn is_separator(b: u8) -> bool {
    b == SPACE || b == NEWLINE
}

/// The number of word bytes that stand at `at` and after it, up to the next
/// separator or the end of the text.
pub open spec fn word_len(text: Seq<u8>, at: int) -> nat
    decreases text.len() - at,
{
    if 0 <= at < text.len() && !is_separator(text[at]) {
        1 + word_len(text, at + 1)
    } else {
        0
    }
}

/// A word (possibly an empty one) begins at `at`: the byte before it is a
/// separator. Lines are broken at such places only.
pub open spec fn word_start(text: Seq<u8>, at: int) -> bool {
    0 < at < text.len() && is_separator(text[at - 1])
}

/// The line that began at `start` has to end before the word at `at`: the
/// separator before the word is a newline, or the word would carry the line
/// past `width` columns.
pub open spec fn break_due(text: Seq<u8>, width: nat, start: int, at: int) -> bool {
    &&& start < at
    &&& word_start(text, at)
    &&& (text[at - 1] == NEWLINE || (at - start) + word_len(text, at) > width)
}

/// Where the line that began at `start` ends: the first place at or after
/// `from` at which a break is due, or the end of the text.
pub open spec fn line_end(text: Seq<u8>, width: nat, start: int, from: int) -> int
    decreases text.len() - from,
{
    if from >= text.len() {
        text.len() as int
    } else if break_due(text, width, start, from) {
        from
    } else {
        line_end(text, width, start, from + 1)
    }
}

/// The lines of the part of the text that begins at `start`: the line that
/// begins there, then the lines of what follows it.
pub open spec fn wrap_from(text: Seq<u8>, width: nat, start: int) -> Seq<Seq<u8>>
    decreases text.len() - start,
    via wrap_from_decreases
{
    if 0 <= start < text.len() {
        let end = line_end(text, width, start, start + 1);
        seq![text.subrange(start, end)] + wrap_from(text, width, end)
    } else {
        Seq::empty()
    }
}

#[via_fn]
proof fn wrap_from_decreases(text: Seq<u8>, width: nat, start: int) {
    if 0 <= start < text.len() {
        lemma_line_end_bounds(text, width, start, start + 1);
    }
}

/// The wrapping of `text` at `width` columns.
///
/// Lines are filled greedily, word by word. A line ends where a newline
/// stands, or before the first word that would not fit; every separator stays
/// on the line of the word before it. A word longer than `width` is never
/// cut: it gets a line of its own.
pub open spec fn wrap(text: Seq<u8>, width: nat) -> Seq<Seq<u8>> {
    wrap_from(text, width, 0)
}

/// What a vector of lines holds, as sequences of bytes.
pub open spec fn view_lines(lines: Vec<Vec<u8>>) -> Seq<Seq<u8>> {
    Seq::new(lines@.len(), |i: int| lines@[i]@)
}

/// A line ends at or after the place its scan began, and within the text.
pub proof fn lemma_line_end_bounds(text: Seq<u8>, width: nat, start: int, from: int)
    requires
        from <= text.len(),
    ensures
        from <= line_end(text, width, start, from) <= text.len(),
    decreases text.len() - from,
{
    if from < text.len() && !break_due(text, width, start, from) {
        lemma_line_end_bounds(text, width, start, from + 1);
    }
}

/// A line that ends before the end of the text ends where a break is due.
pub proof fn lemma_line_end_is_due(text: Seq<u8>, width: nat, start: int, from: int)
    requires
        from <= text.len(),
    ensures
        line_end(text, width, start, from) < text.len() ==> break_due(
            text,
            width,
            start,
            line_end(text, width, start, from),
        ),
    decreases text.len() - from,
{
    if from < text.len() && !break_due(text, width, start, from) {
        lemma_line_end_is_due(text, width, start, from + 1);
    }
}

/// A line does not run past a place at which a break is due.
proof fn lemma_line_end_at_most(text: Seq<u8>, width: nat, start: int, from: int, due: int)
    requires
        from <= due < text.len(),
        break_due(text, width, start, due),
    ensures
        line_end(text, width, start, from) <= due,
    decreases due - from,
{
    if from < due && !break_due(text, width, start, from) {
        lemma_line_end_at_most(text, width, start, from + 1, due);
    }
}

/// Places at which no break is due can be passed over when looking for the
/// end of a line.
proof fn lemma_line_end_skip(text: Seq<u8>, width: nat, start: int, from: int, to: int)
    requires
        from <= to <= text.len(),
        forall|p: int| from <= p < to ==> !break_due(text, width, start, p),
    ensures
        line_end(text, width, start, from) == line_end(text, width, start, to),
    decreases to - from,
{
    if from < to {
        lemma_line_end_skip(text, width, start, from + 1, to);
    }
}

/// A run of word bytes that ends at a separator, or with the text, is the
/// whole word.
proof fn lemma_word_len_run(text: Seq<u8>, at: int, end: int)
    requires
        0 <= at <= end <= text.len(),
        forall|j: int| at <= j < end ==> !is_separator(text[j]),
        end < text.len() ==> is_separator(text[end]),
    ensures
        word_len(text, at) == end - at,
    decreases end - at,
{
    if at < end {
        lemma_word_len_run(text, at + 1, end);
    }
}

/// The bytes that [`word_len`] counts are word bytes, and a separator or the
/// end of the text follows them.
pub proof fn lemma_word_len_shape(text: Seq<u8>, at: int)
    requires
        0 <= at <= text.len(),
    ensures
        at + word_len(text, at) <= text.len(),
        forall|j: int| at <= j < at + word_len(text, at) ==> !is_separator(text[j]),
        at + word_len(text, at) < text.len() ==> is_separator(text[at + word_len(text, at)]),
    decreases text.len() - at,
{
    if at < text.len() && !is_separator(text[at]) {
        lemma_word_len_shape(text, at + 1);
    }
}

/// The end of the word that starts at `at`.
fn word_end(text: &[u8], at: usize) -> (end: usize)
    requires
        at <= text.len(),
    ensures
        at <= end <= text.len(),
        end - at == word_len(text@, at as int),
        end < text.len() ==> is_separator(text@[end as int]),
        forall|j: int| at <= j < end ==> !is_separator(text@[j]),
{
    let mut end: usize = at;
    while end < text.len() && text[end] != SPACE && text[end] != NEWLINE
        invariant
            at <= end <= text.len(),
            forall|j: int| at <= j < end ==> !is_separator(text@[j]),
        decreases text.len() - end,
    {
        end += 1;
    }
    proof {
        lemma_word_len_run(text@, at as int, end as int);
    }
    end
}

/// A copy of the bytes of `text` from `from` up to, not including, `to`.
fn copy_range(text: &[u8], from: usize, to: usize) -> (part: Vec<u8>)
    requires
        from <= to <= text.len(),
    ensures
        part@ == text@.subrange(from as int, to as int),
{
    let mut part: Vec<u8> = Vec::new();
    let mut i: usize = from;
    while i < to
        invariant
            from <= i <= to <= text.len(),
            part@ == text@.subrange(from as int, i as int),
        decreases to - i,
    {
        part.push(text[i]);
        i += 1;
    }
    part
}

/// Wraps `text` at `width` columns into the lines that [`wrap`] defines.
/// Any text and any width give a wrapping.
pub fn wrap_string(text: &[u8], width: u16) -> (lines: Vec<Vec<u8>>)
    ensures
        view_lines(lines) == wrap(text@, width as nat),
{
    let n = text.len();
    let mut lines: Vec<Vec<u8>> = Vec::new();
    let mut start: usize = 0;
    let mut at: usize = 0;
    assert(view_lines(lines) + wrap_from(text@, width as nat, 0) == wrap(text@, width as nat));
    while at < n
        invariant
            n == text.len(),
            start <= at <= n,
            start == at ==> at == 0,
            0 < at < n ==> is_separator(text@[at - 1]),
            forall|p: int| start < p < at ==> !break_due(text@, width as nat, start as int, p),
            view_lines(lines) + wrap_from(text@, width as nat, start as int) == wrap(
                text@,
                width as nat,
            ),
        decreases n - at,
    {
        let end = word_end(text, at);
        if start < at && (text[at - 1] == NEWLINE || (at - start) + (end - at) > width as usize) {
            let line = copy_range(text, start, at);
            proof {
                lemma_line_end_skip(text@, width as nat, start as int, start + 1, at as int);
                assert(view_lines(lines).push(line@) + wrap_from(text@, width as nat, at as int)
                    == view_lines(lines) + wrap_from(text@, width as nat, start as int));
            }
            let ghost before = view_lines(lines);
            lines.push(line);
            assert(view_lines(lines) == before.push(line@));
            start = at;
        }
        at = if end < n { end + 1 } else { n };
    }
    if start < n {
        let line = copy_range(text, start, n);
        proof {
            lemma_line_end_skip(text@, width as nat, start as int, start + 1, n as int);
            assert(wrap_from(text@, width as nat, n as int) == Seq::<Seq<u8>>::empty());
            assert(view_lines(lines).push(line@) == view_lines(lines) + wrap_from(
                text@,
                width as nat,
                start as int,
            ));
        }
        let ghost before = view_lines(lines);
        lines.push(line);
        assert(view_lines(lines) == before.push(line@));
    } else {
        assert(view_lines(lines) + wrap_from(text@, width as nat, start as int) == view_lines(
            lines,
        ));
    }
    lines
}

/// Joining the lines of the text from `start` on gives that part of the text
/// back.
proof fn lemma_wrap_from_joins(text: Seq<u8>, width: nat, start: int)
    requires
        0 <= start <= text.len(),
    ensures
        wrap_from(text, width, start).flatten() == text.subrange(start, text.len() as int),
    decreases text.len() - start,
{
    if start < text.len() {
        let end = line_end(text, width, start, start + 1);
        lemma_line_end_bounds(text, width, start, start + 1);
        lemma_wrap_from_joins(text, width, end);
        let all = wrap_from(text, width, start);
        assert(all.first() == text.subrange(start, end));
        assert(all.drop_first() == wrap_from(text, width, end));
        assert(all.flatten() == text.subrange(start, text.len() as int));
    }
}

/// Round trip: joining the lines of a wrapping gives back the text, byte for
/// byte. Wrapping drops nothing and adds nothing, whatever the width.
pub proof fn lemma_wrap_round_trip(text: Seq<u8>, width: nat)
    ensures
        wrap(text, width).flatten() == text,
{
    lemma_wrap_from_joins(text, width, 0);
    assert(text.subrange(0, text.len() as int) == text);
}

/// What holds of each line of the text from `start` on.
proof fn lemma_wrap_from_lines(text: Seq<u8>, width: nat, start: int)
    requires
        0 <= start <= text.len(),
    ensures
        (wrap_from(text, width, start).len() == 0) == (start == text.len()),
        forall|i: int|
            0 <= i < wrap_from(text, width, start).len() ==> (#[trigger] wrap_from(
                text,
                width,
                start,
            )[i]).len() > 0,
        forall|i: int|
            0 <= i < wrap_from(text, width, start).len() - 1 ==> is_separator(
                (#[trigger] wrap_from(text, width, start)[i]).last(),
            ),
    decreases text.len() - start,
{
    if start < text.len() {
        let end = line_end(text, width, start, start + 1);
        lemma_line_end_bounds(text, width, start, start + 1);
        lemma_line_end_is_due(text, width, start, start + 1);
        lemma_wrap_from_lines(text, width, end);
        let all = wrap_from(text, width, start);
        let rest = wrap_from(text, width, end);
        assert(all[0] == text.subrange(start, end));
        assert forall|i: int| 0 < i < all.len() implies all[i] == rest[i - 1] by {}
        assert forall|i: int| 0 <= i < all.len() - 1 implies is_separator(
            (#[trigger] all[i]).last(),
        ) by {
            if i == 0 {
                assert(rest.len() > 0);
                assert(end < text.len());
            } else {
                assert(all[i] == rest[i - 1]);
            }
        }
    }
}

/// No line of a wrapping is empty.
pub proof fn lemma_wrap_lines_nonempty(text: Seq<u8>, width: nat)
    ensures
        (wrap(text, width).len() == 0) == (text.len() == 0),
        forall|i: int|
            0 <= i < wrap(text, width).len() ==> (#[trigger] wrap(text, width)[i]).len() > 0,
{
    lemma_wrap_from_lines(text, width, 0);
}

/// No word is cut: every line but the last ends with a separator, so a line
/// always begins where a word begins.
pub proof fn lemma_wrap_keeps_words_whole(text: Seq<u8>, width: nat)
    ensures
        forall|i: int|
            0 <= i < wrap(text, width).len() - 1 ==> is_separator(
                (#[trigger] wrap(text, width)[i]).last(),
            ),
{
    lemma_wrap_from_lines(text, width, 0);
}

/// A break is due at no place that a line runs past.
proof fn lemma_line_end_is_first(text: Seq<u8>, width: nat, start: int, from: int, at: int)
    requires
        from <= at < line_end(text, width, start, from),
    ensures
        !break_due(text, width, start, at),
    decreases at - from,
{
    if from < text.len() && !break_due(text, width, start, from) && from < at {
        lemma_line_end_is_first(text, width, start, from + 1, at);
    }
}

/// A word of a part of the text is the word of the text, as far as the part
/// reaches.
proof fn lemma_word_len_in_part(text: Seq<u8>, from: int, to: int, at: int)
    requires
        0 <= from <= from + at <= to <= text.len(),
        0 <= at,
    ensures
        word_len(text.subrange(from, to), at) == if word_len(text, from + at) <= to - from - at {
            word_len(text, from + at)
        } else {
            (to - from - at) as nat
        },
    decreases to - from - at,
{
    let part = text.subrange(from, to);
    if from + at < to {
        assert(part[at] == text[from + at]);
        if !is_separator(text[from + at]) {
            lemma_word_len_in_part(text, from, to, at + 1);
        }
    }
}

/// Within `line`, no word after the first stands behind a newline or
/// reaches past `width` columns.
pub open spec fn line_fits(line: Seq<u8>, width: nat) -> bool {
    forall|at: int|
        0 < at < line.len() && is_separator(#[trigger] line[at - 1]) ==> line[at - 1] != NEWLINE
            && at + word_len(line, at) <= width
}

/// The break between `line` and the line `next` after it is due: `line` ends
/// with a newline, or the first word of `next` would have carried it past
/// `width` columns.
pub open spec fn break_is_due(line: Seq<u8>, next: Seq<u8>, width: nat) -> bool {
    line.last() == NEWLINE || line.len() + word_len(next, 0) > width
}

/// What greed means for the lines of the text from `start` on.
proof fn lemma_wrap_from_greedy(text: Seq<u8>, width: nat, start: int)
    requires
        0 <= start <= text.len(),
    ensures
        forall|i: int|
            0 <= i < wrap_from(text, width, start).len() ==> line_fits(
                #[trigger] wrap_from(text, width, start)[i],
                width,
            ),
        forall|i: int|
            0 <= i < wrap_from(text, width, start).len() - 1 ==> break_is_due(
                #[trigger] wrap_from(text, width, start)[i],
                wrap_from(text, width, start)[i + 1],
                width,
            ),
    decreases text.len() - start,
{
    if start < text.len() {
        let end = line_end(text, width, start, start + 1);
        lemma_line_end_bounds(text, width, start, start + 1);
        lemma_line_end_is_due(text, width, start, start + 1);
        lemma_wrap_from_greedy(text, width, end);
        lemma_wrap_from_lines(text, width, end);
        let all = wrap_from(text, width, start);
        let rest = wrap_from(text, width, end);
        let first = text.subrange(start, end);
        assert(all[0] == first);
        assert forall|i: int| 0 < i < all.len() implies all[i] == rest[i - 1] by {}
        assert forall|at: int|
            0 < at < first.len() && is_separator(#[trigger] first[at - 1]) implies first[at - 1]
            != NEWLINE && at + word_len(first, at) <= width by {
            assert(first[at - 1] == text[start + at - 1]);
            lemma_line_end_is_first(text, width, start, start + 1, start + at);
            lemma_word_len_in_part(text, start, end, at);
        }
        assert(line_fits(all[0], width));
        assert forall|i: int| 0 <= i < all.len() implies line_fits(#[trigger] all[i], width) by {
            if i > 0 {
                assert(all[i] == rest[i - 1]);
            }
        }
        assert forall|i: int| 0 <= i < all.len() - 1 implies break_is_due(
            #[trigger] all[i],
            all[i + 1],
            width,
        ) by {
            if i == 0 {
                assert(all[1] == rest[0]);
                let next_end = line_end(text, width, end, end + 1);
                lemma_line_end_bounds(text, width, end, end + 1);
                assert(rest[0] == text.subrange(end, next_end));
                assert(first.last() == text[end - 1]);
                if text[end - 1] != NEWLINE {
                    lemma_word_len_shape(text, end);
                    let stop = end + word_len(text, end);
                    if next_end < stop {
                        lemma_line_end_is_due(text, width, end, end + 1);
                        assert(!is_separator(text[next_end - 1]));
                    }
                    lemma_word_len_in_part(text, end, next_end, 0);
                }
            } else {
                assert(all[i] == rest[i - 1]);
                assert(all[i + 1] == rest[i]);
            }
        }
    }
}

/// Greed, first half: a line never carries a word past the width, nor a
/// word behind a newline. Only the first word of a line may be longer than
/// the width.
pub proof fn lemma_wrap_lines_fit(text: Seq<u8>, width: nat)
    ensures
        forall|i: int|
            0 <= i < wrap(text, width).len() ==> line_fits(#[trigger] wrap(text, width)[i], width),
{
    lemma_wrap_from_greedy(text, width, 0);
}

/// Greed, second half: no line ends early. Where a line ends and another
/// follows, a newline stands, or the next word would not have fitted.
pub proof fn lemma_wrap_breaks_are_due(text: Seq<u8>, width: nat)
    ensures
        forall|i: int|
            0 <= i < wrap(text, width).len() - 1 ==> break_is_due(
                #[trigger] wrap(text, width)[i],
                wrap(text, width)[i + 1],
                width,
            ),
{
    lemma_wrap_from_greedy(text, width, 0);
}

/// Where the word that starts at `at` ends together with the separator that
/// follows it, if one does.
pub open spec fn chunk_end(text: Seq<u8>, at: int) -> int {
    if at + word_len(text, at) < text.len() {
        at + word_len(text, at) + 1
    } else {
        text.len() as int
    }
}

/// The line of a word that is longer than the width, seen from a line start
/// at or before it.
proof fn lemma_long_word_from(text: Seq<u8>, width: nat, start: int, at: int)
    requires
        0 <= start <= at < text.len(),
        at == 0 || is_separator(text[at - 1]),
        word_len(text, at) > width,
    ensures
        wrap_from(text, width, start).contains(text.subrange(at, chunk_end(text, at))),
    decreases at - start,
{
    let all = wrap_from(text, width, start);
    let end = line_end(text, width, start, start + 1);
    lemma_line_end_bounds(text, width, start, start + 1);
    if start == at {
        let stop = chunk_end(text, at);
        lemma_word_len_shape(text, at);
        assert forall|p: int| at + 1 <= p < stop implies !break_due(text, width, at, p) by {
            assert(!is_separator(text[p - 1]));
        }
        lemma_line_end_skip(text, width, at, at + 1, stop);
        if stop < text.len() {
            lemma_word_len_shape(text, stop);
            assert(break_due(text, width, at, stop));
        }
        assert(end == stop);
        assert(all[0] == text.subrange(at, stop));
    } else {
        assert(break_due(text, width, start, at));
        lemma_line_end_at_most(text, width, start, start + 1, at);
        lemma_long_word_from(text, width, end, at);
        let rest = wrap_from(text, width, end);
        let target = text.subrange(at, chunk_end(text, at));
        let i = choose|i: int| 0 <= i < rest.len() && rest[i] == target;
        assert(all[i + 1] == target);
    }
}

/// A word longer than the width has a line to itself: the word and the
/// separator that follows it, whole and alone, are one of the lines.
pub proof fn lemma_long_word_alone(text: Seq<u8>, width: nat, at: int)
    requires
        0 <= at < text.len(),
        at == 0 || is_separator(text[at - 1]),
        word_len(text, at) > width,
    ensures
        wrap(text, width).contains(text.subrange(at, chunk_end(text, at))),
{
    lemma_long_word_from(text, width, 0, at);
}

/// The least number from `from` on whose square is at least `n`.
pub open spec fn least_root(n: nat, from: nat) -> nat
    decreases n - from,
    via least_root_decreases
{
    if from * from >= n {
        from
    } else {
        least_root(n, from + 1)
    }
}

#[via_fn]
proof fn least_root_decreases(n: nat, from: nat) {
    if from * from < n {
        assert(from < n) by (nonlinear_arith)
            requires
                from * from < n,
        ;
    }
}

/// The square root of `n`, rounded up.
pub open spec fn ceil_sqrt(n: nat) -> nat {
    least_root(n, 0)
}

/// The width at which a text of `len` bytes is wrapped on a screen of
/// `screen_width` columns: the screen less its margin, but no more than the
/// rounded-up square root of the length plus some slack, so that a short text
/// forms a compact block and a long one stops at the screen's edge.
pub open spec fn wrap_width(len: nat, screen_width: nat) -> nat {
    let room = if screen_width > MARGIN {
        (screen_width - MARGIN) as nat
    } else {
        0
    };
    let wish = (ceil_sqrt(len) + SLACK) as nat;
    if room <= wish {
        room
    } else {
        wish
    }
}

/// [`ceil_sqrt`] is the rounded-up square root: its square reaches `n`, and
/// the square of the number before it does not.
pub proof fn lemma_ceil_sqrt(n: nat)
    ensures
        ceil_sqrt(n) * ceil_sqrt(n) >= n,
        ceil_sqrt(n) > 0 ==> (ceil_sqrt(n) - 1) * (ceil_sqrt(n) - 1) < n,
{
    lemma_least_root(n, 0);
}

proof fn lemma_least_root(n: nat, from: nat)
    requires
        from > 0 ==> (from - 1) * (from - 1) < n,
    ensures
        from <= least_root(n, from),
        least_root(n, from) * least_root(n, from) >= n,
        least_root(n, from) > 0 ==> (least_root(n, from) - 1) * (least_root(n, from) - 1) < n,
    decreases n - from,
{
    if from * from < n {
        assert(from < n) by (nonlinear_arith)
            requires
                from * from < n,
        ;
        lemma_least_root(n, from + 1);
    }
}

fn square(r: u16) -> (sq: u64)
    ensures
        sq == r * r,
{
    assert(r * r <= 0xffff * 0xffff) by (nonlinear_arith)
        requires
            r <= 0xffff,
    ;
    (r as u64) * (r as u64)
}

/// Computes [`wrap_width`] for a text of `len` bytes on a screen of
/// `screen_width` columns. A screen that is no wider than the margin leaves
/// no column at all.
pub fn text_width(len: usize, screen_width: u16) -> (width: u16)
    ensures
        width == wrap_width(len as nat, screen_width as nat),
{
    let room: u16 = if screen_width > MARGIN {
        screen_width - MARGIN
    } else {
        0
    };
    let mut root: u16 = 0;
    while square(root) < len as u64 && root < room
        invariant
            root <= room,
            least_root(len as nat, root as nat) == ceil_sqrt(len as nat),
            root > 0 ==> (root - 1) * (root - 1) < len,
        decreases room - root,
    {
        root += 1;
    }
    proof {
        lemma_least_root(len as nat, root as nat);
    }
    if square(root) >= len as u64 && room - root > SLACK {
        root + SLACK
    } else {
        room
    }
}

} // verus!
