//! Greedy word wrapping and page chunking for dialog text.
//!
//! The host measures its font once and hands the per-character advance widths
//! in as plain integers (any fixed unit works, as long as the wrap width uses
//! the same one); the wrapping itself is exact integer arithmetic.

use vstd::prelude::*;
use vstd::string::StrSliceExecFns;
use vstd::string::StringExecFns;

verus! {

/// Per-character advance widths of a font. A character that has no entry has
/// width zero, like a character missing from a font atlas.
pub struct CharWidths {
    pub entries: Vec<(char, u32)>,
}

/// Width of `c` under `entries`: the first matching entry wins, a missing
/// character has width zero.
pub open spec fn char_width_spec(entries: Seq<(char, u32)>, c: char) -> int
    decreases entries.len(),
{
    if entries.len() == 0 {
        0
    } else if entries[0].0 == c {
        entries[0].1 as int
    } else {
        char_width_spec(entries.skip(1), c)
    }
}

/// Sum of the widths of the characters of `word`.
pub open spec fn word_width_spec(entries: Seq<(char, u32)>, word: Seq<char>) -> int
    decreases word.len(),
{
    if word.len() == 0 {
        0
    } else {
        char_width_spec(entries, word[0]) + word_width_spec(entries, word.skip(1))
    }
}

/// `s` split at every occurrence of `sep`; two adjacent separators produce an
/// empty piece, like `str::split`.
pub open spec fn split_spec(s: Seq<char>, sep: char) -> Seq<Seq<char>>
    decreases s.len(),
    via split_spec_decreases
{
    let i = first_index_of(s, sep);
    if i < 0 {
        seq![s]
    } else {
        seq![s.take(i)] + split_spec(s.skip(i + 1), sep)
    }
}

#[via_fn]
proof fn split_spec_decreases(s: Seq<char>, sep: char) {
    lemma_first_index_of_bounds(s, sep);
}

/// `first_index_of` returns -1 or a valid index of `s`.
proof fn lemma_first_index_of_bounds(s: Seq<char>, c: char)
    ensures
        -1 <= first_index_of(s, c) < s.len(),
    decreases s.len(),
{
    if s.len() != 0 && s[0] != c {
        lemma_first_index_of_bounds(s.skip(1), c);
    }
}

/// Index of the first occurrence of `c` in `s`, or -1.
pub open spec fn first_index_of(s: Seq<char>, c: char) -> int
    decreases s.len(),
{
    if s.len() == 0 {
        -1
    } else if s[0] == c {
        0
    } else {
        let r = first_index_of(s.skip(1), c);
        if r < 0 {
            -1
        } else {
            r + 1
        }
    }
}

/// The pieces joined back together with `sep` between them.
pub open spec fn join_spec(pieces: Seq<Seq<char>>, sep: char) -> Seq<char>
    decreases pieces.len(),
{
    if pieces.len() == 0 {
        Seq::empty()
    } else if pieces.len() == 1 {
        pieces[0]
    } else {
        pieces[0] + seq![sep] + join_spec(pieces.skip(1), sep)
    }
}

/// Greedy line breaking, mirrored exactly from the way the wrapper
/// accumulates a line: a word is appended to the current line unless its
/// width plus the line's accumulated word widths plus one space width per
/// word already on the line would exceed `wrap_width`; then the line is
/// closed (even if empty) and the word starts the next one. A trailing
/// non-empty line is kept.
pub open spec fn greedy_rec(
    entries: Seq<(char, u32)>,
    words: Seq<Seq<char>>,
    wrap_width: int,
    cur: Seq<Seq<char>>,
    cur_px: int,
) -> Seq<Seq<Seq<char>>>
    decreases words.len(),
{
    if words.len() == 0 {
        if cur.len() == 0 {
            Seq::empty()
        } else {
            seq![cur]
        }
    } else {
        let w = words[0];
        let ww = word_width_spec(entries, w);
        let space = char_width_spec(entries, ' ');
        if ww + cur_px + cur.len() * space > wrap_width {
            seq![cur] + greedy_rec(entries, words.skip(1), wrap_width, seq![w], ww)
        } else {
            greedy_rec(entries, words.skip(1), wrap_width, cur.push(w), cur_px + ww)
        }
    }
}

/// The lines of greedily wrapping `s` at `wrap_width`: each line is the
/// sequence of words on it.
pub open spec fn wrap_lines_spec(s: Seq<char>, wrap_width: int, entries: Seq<(char, u32)>) -> Seq<
    Seq<Seq<char>>,
> {
    greedy_rec(entries, split_spec(s, ' '), wrap_width, Seq::empty(), 0)
}

/// The wrapped text: every line's words joined with spaces, the lines joined
/// with newlines.
pub open spec fn wrap_spec(s: Seq<char>, wrap_width: int, entries: Seq<(char, u32)>) -> Seq<
    char,
> {
    join_spec(wrap_lines_spec(s, wrap_width, entries).map_values(|line: Seq<Seq<char>>| join_spec(line, ' ')), '\n')
}

/// `items` grouped into runs of `k` (the last run may be shorter).
pub open spec fn chunks_spec<A>(items: Seq<A>, k: int) -> Seq<Seq<A>>
    decreases items.len(),
{
    if k <= 0 || items.len() == 0 {
        Seq::empty()
    } else if items.len() <= k {
        seq![items]
    } else {
        seq![items.take(k)] + chunks_spec(items.skip(k), k)
    }
}

/// The pages of dialog text: the wrapped text's lines grouped into pages of
/// `lines_per_chunk` lines, each page joined with newlines.
pub open spec fn chunk_spec(
    s: Seq<char>,
    wrap_width: int,
    lines_per_chunk: int,
    entries: Seq<(char, u32)>,
) -> Seq<Seq<char>> {
    chunks_spec(split_spec(wrap_spec(s, wrap_width, entries), '\n'), lines_per_chunk).map_values(
        |chunk: Seq<Seq<char>>| join_spec(chunk, '\n'),
    )
}

/// The pieces of `text` that a sequence of index ranges cuts out.
pub open spec fn ranges_views(text: Seq<char>, rr: Seq<(usize, usize)>) -> Seq<Seq<char>> {
    rr.map_values(|p: (usize, usize)| text.subrange(p.0 as int, p.1 as int))
}

/// The word views of a sequence of grouped index ranges.
pub open spec fn groups_views(text: Seq<char>, gg: Seq<Vec<(usize, usize)>>) -> Seq<
    Seq<Seq<char>>,
> {
    gg.map_values(|g: Vec<(usize, usize)>| ranges_views(text, g@))
}

/// If `c` first occurs in `t` at `k`, `first_index_of` says so.
proof fn lemma_first_index_of_at(t: Seq<char>, c: char, k: int)
    requires
        0 <= k < t.len(),
        t[k] == c,
        forall|j: int| 0 <= j < k ==> t[j] != c,
    ensures
        first_index_of(t, c) == k,
    decreases k,
{
    if k > 0 {
        lemma_first_index_of_at(t.skip(1), c, k - 1);
    }
}

/// If `c` does not occur in `t`, `first_index_of` says so.
proof fn lemma_first_index_of_none(t: Seq<char>, c: char)
    requires
        forall|j: int| 0 <= j < t.len() ==> t[j] != c,
    ensures
        first_index_of(t, c) == -1,
    decreases t.len(),
{
    if t.len() > 0 {
        lemma_first_index_of_none(t.skip(1), c);
    }
}

/// Appending a piece extends a join at its end.
proof fn lemma_join_push(pieces: Seq<Seq<char>>, p: Seq<char>, sep: char)
    ensures
        join_spec(pieces.push(p), sep) == if pieces.len() == 0 {
            p
        } else {
            join_spec(pieces, sep) + seq![sep] + p
        },
    decreases pieces.len(),
{
    if pieces.len() == 0 {
        assert(pieces.push(p)[0] == p);
    } else {
        assert(pieces.push(p).skip(1) =~= pieces.skip(1).push(p));
        lemma_join_push(pieces.skip(1), p, sep);
        if pieces.len() == 1 {
            assert(pieces.skip(1).len() == 0);
            assert(pieces.push(p)[0] == pieces[0]);
        } else {
            assert(join_spec(pieces, sep) + seq![sep] + p =~= pieces[0] + seq![sep] + (join_spec(
                pieces.skip(1),
                sep,
            ) + seq![sep] + p));
        }
    }
}

/// Start/end index pairs of the pieces of `s` split at `sep`, in order.
fn split_ranges(s: &str, sep: char) -> (r: Vec<(usize, usize)>)
    ensures
        ranges_views(s@, r@) == split_spec(s@, sep),
        forall|k: int| 0 <= k < r@.len() ==> (#[trigger] r@[k]).0 <= r@[k].1 <= s@.len(),
{
    let n = s.unicode_len();
    let mut r: Vec<(usize, usize)> = Vec::new();
    let mut start: usize = 0;
    let mut i: usize = 0;
    proof {
        assert(s@.skip(0) =~= s@);
    }
    while i < n
        invariant
            n == s@.len(),
            0 <= start <= i <= n,
            forall|j: int| start <= j < i ==> s@[j] != sep,
            forall|k: int| 0 <= k < r@.len() ==> (#[trigger] r@[k]).0 <= r@[k].1 <= s@.len(),
            split_spec(s@, sep) == ranges_views(s@, r@) + split_spec(s@.skip(start as int), sep),
        decreases n - i,
    {
        let c = s.get_char(i);
        if c == sep {
            proof {
                let tail = s@.skip(start as int);
                assert(forall|j: int| 0 <= j < i - start ==> tail[j] != sep);
                assert(tail[i - start] == sep);
                lemma_first_index_of_at(tail, sep, i - start);
                assert(tail.take(i - start) =~= s@.subrange(start as int, i as int));
                assert(tail.skip(i - start + 1) =~= s@.skip(i + 1));
                assert(ranges_views(s@, r@.push((start, i))) =~= ranges_views(s@, r@).push(
                    s@.subrange(start as int, i as int),
                ));
                assert(ranges_views(s@, r@) + (seq![s@.subrange(start as int, i as int)]
                    + split_spec(s@.skip(i + 1), sep)) =~= ranges_views(s@, r@.push((start, i)))
                    + split_spec(s@.skip(i + 1), sep));
            }
            r.push((start, i));
            start = i + 1;
        }
        i = i + 1;
    }
    proof {
        let tail = s@.skip(start as int);
        assert(forall|j: int| 0 <= j < tail.len() ==> tail[j] != sep);
        lemma_first_index_of_none(tail, sep);
        assert(tail =~= s@.subrange(start as int, n as int));
        assert(ranges_views(s@, r@.push((start, n))) =~= ranges_views(s@, r@).push(
            s@.subrange(start as int, n as int),
        ));
        assert(ranges_views(s@, r@) + seq![s@.subrange(start as int, n as int)] =~= ranges_views(
            s@,
            r@.push((start, n)),
        ));
    }
    r.push((start, n));
    r
}

/// Width of the characters of `s` between `from` and `to`.
fn range_width(s: &str, widths: &CharWidths, from: usize, to: usize) -> (w: u128)
    requires
        from <= to <= s@.len(),
    ensures
        w == word_width_spec(widths.entries@, s@.subrange(from as int, to as int)),
        w <= (to - from) as int * 0x1_0000_0000,
{
    let mut w: u128 = 0;
    let mut j: usize = from;
    while j < to
        invariant
            from <= j <= to <= s@.len(),
            w + word_width_spec(widths.entries@, s@.subrange(j as int, to as int))
                == word_width_spec(widths.entries@, s@.subrange(from as int, to as int)),
            w <= (j - from) as int * 0x1_0000_0000,
        decreases to - j,
    {
        let cw = widths.character_width(s.get_char(j));
        proof {
            let cur = s@.subrange(j as int, to as int);
            assert(cur[0] == s@[j as int]);
            assert(cur.skip(1) =~= s@.subrange(j + 1, to as int));
        }
        w = w + cw as u128;
        j = j + 1;
    }
    proof {
        assert(s@.subrange(j as int, to as int).len() == 0);
    }
    w
}

/// Greedily wraps `text` into lines no wider than `wrap_width` (a single
/// word wider than that gets a line of its own), measuring characters with
/// the given width table. Lines are separated by newlines; words keep their
/// order and are separated by single spaces.
#[verifier::rlimit(50)]
pub fn wrap_text(text: &str, wrap_width: u32, widths: &CharWidths) -> (r: String)
    ensures
        r@ == wrap_spec(text@, wrap_width as int, widths.entries@),
{
    let words = split_ranges(text, ' ');
    let space = widths.character_width(' ');
    let ghost wviews = split_spec(text@, ' ');
    let mut groups: Vec<Vec<(usize, usize)>> = Vec::new();
    let mut cur: Vec<(usize, usize)> = Vec::new();
    let mut cur_px: u128 = 0;
    let mut i: usize = 0;
    proof {
        assert(wviews.skip(0) =~= wviews);
        assert(ranges_views(text@, cur@) =~= Seq::<Seq<char>>::empty());
    }
    while i < words.len()
        invariant
            0 <= i <= words@.len(),
            wviews == ranges_views(text@, words@),
            wviews == split_spec(text@, ' '),
            forall|k: int| 0 <= k < words@.len() ==> (#[trigger] words@[k]).0 <= words@[k].1
                <= text@.len(),
            forall|k: int| 0 <= k < cur@.len() ==> (#[trigger] cur@[k]).0 <= cur@[k].1 <= text@.len(),
            forall|g: int, k: int|
                0 <= g < groups@.len() && 0 <= k < groups@[g]@.len()
                    ==> (#[trigger] groups@[g]@[k]).0 <= groups@[g]@[k].1 <= text@.len(),
            space == char_width_spec(widths.entries@, ' '),
            cur_px <= 0x1_0000_0000_0000_0000_0000_0000,
            wrap_lines_spec(text@, wrap_width as int, widths.entries@) == groups_views(
                text@,
                groups@,
            ) + greedy_rec(
                widths.entries@,
                wviews.skip(i as int),
                wrap_width as int,
                ranges_views(text@, cur@),
                cur_px as int,
            ),
        decreases words@.len() - i,
    {
        let (from, to) = words[i];
        let ww = range_width(text, widths, from, to);
        let cur_n = cur.len();
        proof {
            assert(wviews[i as int] == text@.subrange(from as int, to as int));
            assert(wviews.skip(i as int)[0] == wviews[i as int]);
            assert(wviews.skip(i as int).skip(1) =~= wviews.skip(i + 1));
        }
        proof {
            assert((cur_n as int) * (space as int) <= 0xFFFF_FFFF_FFFF_FFFF * 0x1_0000_0000)
                by (nonlinear_arith)
                requires
                    0 <= (cur_n as int) <= 0xFFFF_FFFF_FFFF_FFFF,
                    0 <= (space as int) && (space as int) < 0x1_0000_0000,
            ;
        }
        if ww + cur_px + (cur_n as u128) * (space as u128) > wrap_width as u128 {
            proof {
                assert(ranges_views(text@, seq![(from, to)]) =~= seq![
                    text@.subrange(from as int, to as int),
                ]);
                assert(groups_views(text@, groups@.push(cur)) =~= groups_views(
                    text@,
                    groups@,
                ).push(ranges_views(text@, cur@)));
                assert(groups_views(text@, groups@) + (seq![ranges_views(text@, cur@)]
                    + greedy_rec(
                    widths.entries@,
                    wviews.skip(i + 1),
                    wrap_width as int,
                    seq![text@.subrange(from as int, to as int)],
                    ww as int,
                )) =~= groups_views(text@, groups@.push(cur)) + greedy_rec(
                    widths.entries@,
                    wviews.skip(i + 1),
                    wrap_width as int,
                    seq![text@.subrange(from as int, to as int)],
                    ww as int,
                ));
            }
            groups.push(cur);
            cur = Vec::new();
            cur.push((from, to));
            cur_px = ww;
        } else {
            proof {
                assert(ranges_views(text@, cur@.push((from, to))) =~= ranges_views(
                    text@,
                    cur@,
                ).push(text@.subrange(from as int, to as int)));
            }
            cur.push((from, to));
            cur_px = cur_px + ww;
        }
        i = i + 1;
    }
    proof {
        assert(wviews.skip(i as int).len() == 0);
        if cur@.len() > 0 {
            assert(groups_views(text@, groups@.push(cur)) =~= groups_views(text@, groups@).push(
                ranges_views(text@, cur@),
            ));
            assert(groups_views(text@, groups@) + seq![ranges_views(text@, cur@)] =~= groups_views(
                text@,
                groups@.push(cur),
            ));
        } else {
            assert(ranges_views(text@, cur@).len() == 0);
            assert(groups_views(text@, groups@) + Seq::<Seq<Seq<char>>>::empty() =~= groups_views(
                text@,
                groups@,
            ));
        }
    }
    if cur.len() > 0 {
        groups.push(cur);
    }
    render_groups(text, &groups)
}

/// Joins each group's words with spaces and the groups with newlines.
#[verifier::rlimit(50)]
fn render_groups(text: &str, groups: &Vec<Vec<(usize, usize)>>) -> (r: String)
    requires
        forall|g: int, k: int|
            0 <= g < groups@.len() && 0 <= k < groups@[g]@.len() ==> (#[trigger] groups@[g]@[k]).0
                <= groups@[g]@[k].1 <= text@.len(),
    ensures
        r@ == join_spec(
            groups_views(text@, groups@).map_values(|line: Seq<Seq<char>>| join_spec(line, ' ')),
            '\n',
        ),
{
    let ghost gviews = groups_views(text@, groups@);
    let ghost lines = gviews.map_values(|line: Seq<Seq<char>>| join_spec(line, ' '));
    let mut out = String::new();
    let mut g: usize = 0;
    proof {
        assert(lines.take(0) =~= Seq::<Seq<char>>::empty());
    }
    while g < groups.len()
        invariant
            0 <= g <= groups@.len(),
            gviews == groups_views(text@, groups@),
            lines == gviews.map_values(|line: Seq<Seq<char>>| join_spec(line, ' ')),
            forall|gi: int, k: int|
                0 <= gi < groups@.len() && 0 <= k < groups@[gi]@.len()
                    ==> (#[trigger] groups@[gi]@[k]).0 <= groups@[gi]@[k].1 <= text@.len(),
            out@ == join_spec(lines.take(g as int), '\n'),
        decreases groups@.len() - g,
    {
        let group = &groups[g];
        let ghost wv = ranges_views(text@, group@);
        let mut line = String::new();
        let mut k: usize = 0;
        proof {
            assert(wv.take(0) =~= Seq::<Seq<char>>::empty());
        }
        while k < group.len()
            invariant
                0 <= k <= group@.len(),
                wv == ranges_views(text@, group@),
                forall|j: int| 0 <= j < group@.len() ==> (#[trigger] group@[j]).0 <= group@[j].1
                    <= text@.len(),
                line@ == join_spec(wv.take(k as int), ' '),
            decreases group@.len() - k,
        {
            let (from, to) = group[k];
            if k > 0 {
                proof {
                    reveal_strlit(" ");
                }
                line.append(" ");
            }
            let piece = text.substring_char(from, to);
            line.append(piece);
            proof {
                assert(wv.take(k as int).push(wv[k as int]) =~= wv.take(k + 1));
                lemma_join_push(wv.take(k as int), wv[k as int], ' ');
                if k == 0 {
                    assert(line@ =~= wv[0]);
                } else {
                    assert(line@ =~= join_spec(wv.take(k as int), ' ') + seq![' '] + wv[k as int]);
                }
            }
            k = k + 1;
        }
        proof {
            assert(wv.take(k as int) =~= wv);
            assert(lines[g as int] == join_spec(wv, ' '));
        }
        if g > 0 {
            proof {
                reveal_strlit("\n");
            }
            out.append("\n");
        }
        out.append(line.as_str());
        proof {
            assert(lines.take(g as int).push(lines[g as int]) =~= lines.take(g + 1));
            lemma_join_push(lines.take(g as int), lines[g as int], '\n');
            if g == 0 {
                assert(out@ =~= lines[0]);
            } else {
                assert(out@ =~= join_spec(lines.take(g as int), '\n') + seq!['\n']
                    + lines[g as int]);
            }
        }
        g = g + 1;
    }
    proof {
        assert(lines.take(g as int) =~= lines);
    }
    out
}

/// Wraps `text` at `wrap_width` and groups the resulting lines into pages of
/// `lines_per_chunk` lines each; the last page may be shorter.
#[verifier::rlimit(50)]
pub fn chunk_text(text: &str, wrap_width: u32, lines_per_chunk: usize, widths: &CharWidths) -> (r:
    Vec<String>)
    requires
        lines_per_chunk > 0,
    ensures
        r.deep_view() == chunk_spec(
            text@,
            wrap_width as int,
            lines_per_chunk as int,
            widths.entries@,
        ),
{
    let wrapped = wrap_text(text, wrap_width, widths);
    let wrapped_str = wrapped.as_str();
    let lines = split_ranges(wrapped_str, '\n');
    let ghost lviews = split_spec(wrapped@, '\n');
    let ghost k = lines_per_chunk as int;
    let mut r: Vec<String> = Vec::new();
    let mut j: usize = 0;
    proof {
        assert(lviews.skip(0) =~= lviews);
    }
    while j < lines.len()
        invariant
            0 <= j <= lines@.len(),
            wrapped_str@ == wrapped@,
            lviews == ranges_views(wrapped@, lines@),
            k == lines_per_chunk as int,
            lines_per_chunk > 0,
            forall|m: int| 0 <= m < lines@.len() ==> (#[trigger] lines@[m]).0 <= lines@[m].1
                <= wrapped@.len(),
            r.deep_view() + chunks_spec(lviews.skip(j as int), k).map_values(
                |chunk: Seq<Seq<char>>| join_spec(chunk, '\n'),
            ) == chunks_spec(lviews, k).map_values(
                |chunk: Seq<Seq<char>>| join_spec(chunk, '\n'),
            ),
        decreases lines@.len() - j,
    {
        let end: usize = if lines.len() - j <= lines_per_chunk {
            lines.len()
        } else {
            j + lines_per_chunk
        };
        let ghost tail = lviews.skip(j as int);
        let mut chunk_str = String::new();
        let mut m: usize = j;
        proof {
            assert(lviews.subrange(j as int, j as int) =~= Seq::<Seq<char>>::empty());
        }
        while m < end
            invariant
                j <= m <= end <= lines@.len(),
                wrapped_str@ == wrapped@,
                lviews == ranges_views(wrapped@, lines@),
                forall|mi: int| 0 <= mi < lines@.len() ==> (#[trigger] lines@[mi]).0 <= lines@[mi].1
                    <= wrapped@.len(),
                chunk_str@ == join_spec(lviews.subrange(j as int, m as int), '\n'),
            decreases end - m,
        {
            let (from, to) = lines[m];
            if m > j {
                proof {
                    reveal_strlit("\n");
                }
                chunk_str.append("\n");
            }
            let piece = wrapped_str.substring_char(from, to);
            chunk_str.append(piece);
            proof {
                let pref = lviews.subrange(j as int, m as int);
                assert(pref.push(lviews[m as int]) =~= lviews.subrange(j as int, m + 1));
                lemma_join_push(pref, lviews[m as int], '\n');
                if m == j {
                    assert(chunk_str@ =~= lviews[m as int]);
                } else {
                    assert(chunk_str@ =~= join_spec(pref, '\n') + seq!['\n'] + lviews[m as int]);
                }
            }
            m = m + 1;
        }
        proof {
            let jmap = |chunk: Seq<Seq<char>>| join_spec(chunk, '\n');
            if tail.len() <= k {
                assert(end == lines@.len());
                assert(lviews.subrange(j as int, end as int) =~= tail);
                assert(chunks_spec(tail, k) == seq![tail]);
                assert(chunks_spec(tail, k).map_values(jmap) =~= seq![jmap(tail)]);
                assert(lviews.skip(end as int).len() == 0);
                assert(chunks_spec(lviews.skip(end as int), k).map_values(jmap) =~= Seq::<
                    Seq<char>,
                >::empty());
                assert(r.deep_view().push(chunk_str@) + Seq::<Seq<char>>::empty()
                    =~= r.deep_view().push(chunk_str@));
            } else {
                assert(tail.take(k) =~= lviews.subrange(j as int, end as int));
                assert(tail.skip(k) =~= lviews.skip(end as int));
                assert(chunks_spec(tail, k) == seq![tail.take(k)] + chunks_spec(tail.skip(k), k));
                assert((seq![tail.take(k)] + chunks_spec(tail.skip(k), k)).map_values(jmap)
                    =~= seq![jmap(tail.take(k))] + chunks_spec(tail.skip(k), k).map_values(jmap));
            }
        }
        let ghost pre = r.deep_view();
        let ghost tail_chunks = chunks_spec(lviews.skip(end as int), k).map_values(
            |chunk: Seq<Seq<char>>| join_spec(chunk, '\n'),
        );
        r.push(chunk_str);
        proof {
            assert(r.deep_view() =~= pre.push(chunk_str@));
            assert(pre.push(chunk_str@) + tail_chunks =~= pre + (seq![chunk_str@] + tail_chunks));
        }
        j = end;
    }
    proof {
        assert(chunks_spec(lviews.skip(j as int), k).map_values(
            |chunk: Seq<Seq<char>>| join_spec(chunk, '\n'),
        ) =~= Seq::<Seq<char>>::empty());
        assert(r.deep_view() + Seq::<Seq<char>>::empty() =~= r.deep_view());
    }
    r
}

impl CharWidths {
    /// Total width of a word's characters under this width table.
    pub fn word_width(&self, word: &str) -> (w: u128)
        ensures
            w == word_width_spec(self.entries@, word@),
    {
        let n = word.unicode_len();
        proof {
            assert(word@.subrange(0, n as int) =~= word@);
        }
        range_width(word, self, 0, n)
    }

    /// Width of one character under this width table.
    pub fn character_width(&self, c: char) -> (w: u32)
        ensures
            w == char_width_spec(self.entries@, c),
    {
        proof {
            assert(self.entries@.skip(0) =~= self.entries@);
        }
        let mut i: usize = 0;
        while i < self.entries.len()
            invariant
                0 <= i <= self.entries@.len(),
                char_width_spec(self.entries@, c) == char_width_spec(self.entries@.skip(i as int), c),
            decreases self.entries@.len() - i,
        {
            let (ec, ew) = self.entries[i];
            if ec == c {
                proof {
                    assert(self.entries@.skip(i as int)[0] == self.entries@[i as int]);
                }
                return ew;
            }
            proof {
                assert(self.entries@.skip(i as int).skip(1) =~= self.entries@.skip(i + 1));
            }
            i = i + 1;
        }
        proof {
            assert(self.entries@.skip(i as int).len() == 0);
        }
        0
    }
}

} // verus!
