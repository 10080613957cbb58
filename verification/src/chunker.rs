use crate::text::{
    is_whitespace, leading, lemma_trim_bounds, lemma_trim_twice, substring, to_chars, trailing,
    trim, trim_range,
};
use crate::{CHUNK_OVERLAP, CHUNK_SIZE};
use vstd::prelude::*;

verus! {

/// How far back from the end of a window a break point is looked for.
pub const BREAK_SEARCH: usize = 200;

/// The delimiters at which a chunk may end, best first: a paragraph break,
/// the six sentence ends, a space.
pub open spec fn delimiters() -> Seq<Seq<char>> {
    seq![
        seq!['\n', '\n'],
        seq!['.', ' '],
        seq!['!', ' '],
        seq!['?', ' '],
        seq!['.', '\n'],
        seq!['!', '\n'],
        seq!['?', '\n'],
        seq![' '],
    ]
}

/// `pat` stands in `s` at position `p`.
pub open spec fn occurs_at(s: Seq<char>, pat: Seq<char>, p: int) -> bool {
    0 <= p && p + pat.len() <= s.len() && s.subrange(p, p + pat.len()) == pat
}

/// Where the last occurrence of `pat` that lies wholly inside `[lo, hi)`
/// begins, if there is one.
pub open spec fn last_match(s: Seq<char>, pat: Seq<char>, lo: int, hi: int) -> Option<int>
    decreases hi - lo,
{
    if hi - lo < pat.len() || pat.len() == 0 {
        None
    } else if occurs_at(s, pat, hi - pat.len()) {
        Some(hi - pat.len())
    } else {
        last_match(s, pat, lo, hi - 1)
    }
}

/// The end of the last occurrence in `[lo, hi)` of the first delimiter of
/// `pats` that occurs there at all; `hi` where none does.
pub open spec fn first_break(s: Seq<char>, pats: Seq<Seq<char>>, lo: int, hi: int) -> int
    decreases pats.len(),
{
    if pats.len() == 0 {
        hi
    } else {
        match last_match(s, pats[0], lo, hi) {
            Some(p) => p + pats[0].len(),
            None => first_break(s, pats.drop_first(), lo, hi),
        }
    }
}

/// Where the window `[start, target_end)` of `s` is cut: at the best
/// delimiter within its last `BREAK_SEARCH` characters, else at `target_end`.
pub open spec fn break_point(s: Seq<char>, start: int, target_end: int) -> int {
    let reach = if target_end - start < BREAK_SEARCH as int {
        target_end - start
    } else {
        BREAK_SEARCH as int
    };
    first_break(s, delimiters(), target_end - reach, target_end)
}

/// What `last_match` finds is an occurrence inside the range, and no later
/// one lies inside it; where it finds nothing there is none.
pub proof fn lemma_last_match(s: Seq<char>, pat: Seq<char>, lo: int, hi: int)
    requires
        0 <= lo <= hi <= s.len(),
        pat.len() > 0,
    ensures
        match last_match(s, pat, lo, hi) {
            Some(p) => lo <= p && p + pat.len() <= hi && occurs_at(s, pat, p) && forall|q: int|
                p < q && q + pat.len() <= hi ==> !occurs_at(s, pat, q),
            None => forall|q: int| lo <= q && q + pat.len() <= hi ==> !occurs_at(s, pat, q),
        },
    decreases hi - lo,
{
    if hi - lo >= pat.len() && !occurs_at(s, pat, hi - pat.len()) {
        lemma_last_match(s, pat, lo, hi - 1);
    }
}

/// A break point lies after the start of the search range and not after its
/// end.
pub proof fn lemma_first_break_bounds(s: Seq<char>, pats: Seq<Seq<char>>, lo: int, hi: int)
    requires
        0 <= lo <= hi <= s.len(),
        forall|k: int| 0 <= k < pats.len() ==> (#[trigger] pats[k]).len() > 0,
    ensures
        lo <= first_break(s, pats, lo, hi) <= hi,
        lo < hi ==> lo < first_break(s, pats, lo, hi),
    decreases pats.len(),
{
    if pats.len() > 0 {
        lemma_last_match(s, pats[0], lo, hi);
        if last_match(s, pats[0], lo, hi) is None {
            let rest = pats.drop_first();
            assert forall|k: int| 0 <= k < rest.len() implies (#[trigger] rest[k]).len() > 0 by {
                assert(rest[k] == pats[k + 1]);
            }
            lemma_first_break_bounds(s, rest, lo, hi);
        }
    }
}

/// The cut of a window lies in its last `BREAK_SEARCH` characters.
pub proof fn lemma_break_point_bounds(s: Seq<char>, start: int, target_end: int)
    requires
        0 <= start <= target_end <= s.len(),
    ensures
        start <= break_point(s, start, target_end) <= target_end,
        target_end - (BREAK_SEARCH as int) <= break_point(s, start, target_end),
        start < target_end ==> start < break_point(s, start, target_end),
        start < target_end ==> target_end - (BREAK_SEARCH as int) < break_point(s, start, target_end),
{
    let reach = if target_end - start < BREAK_SEARCH as int {
        target_end - start
    } else {
        BREAK_SEARCH as int
    };
    lemma_delimiters_nonempty();
    lemma_first_break_bounds(s, delimiters(), target_end - reach, target_end);
}

/// No delimiter is empty.
pub proof fn lemma_delimiters_nonempty()
    ensures
        forall|k: int| 0 <= k < delimiters().len() ==> (#[trigger] delimiters()[k]).len() > 0,
{
    let d = delimiters();
    assert forall|k: int| 0 <= k < d.len() implies (#[trigger] d[k]).len() > 0 by {
        assert(d.len() == 8);
        assert(d[0].len() == 2);
        assert(d[1].len() == 2);
        assert(d[2].len() == 2);
        assert(d[3].len() == 2);
        assert(d[4].len() == 2);
        assert(d[5].len() == 2);
        assert(d[6].len() == 2);
        assert(d[7].len() == 1);
    }
}

/// Whether `pat` stands in `s` at `p`.
fn stands_at(s: &[char], pat: &[char], p: usize) -> (r: bool)
    requires
        p + pat@.len() <= s@.len(),
    ensures
        r == occurs_at(s@, pat@, p as int),
{
    let n: usize = s.len();
    let mut i: usize = 0;
    while i < pat.len()
        invariant
            i <= pat@.len(),
            p + pat@.len() <= s@.len() == n,
            forall|j: int| 0 <= j < i ==> s@[p + j] == pat@[j],
        decreases pat@.len() - i,
    {
        if s[p + i] != pat[i] {
            proof {
                assert(s@.subrange(p as int, p + pat@.len())[i as int] == s@[p + i]);
            }
            return false;
        }
        i = i + 1;
    }
    proof {
        assert(s@.subrange(p as int, p + pat@.len()) =~= pat@);
    }
    true
}

/// Where the last occurrence of `pat` inside `s[lo..hi]` begins.
pub fn rfind(s: &[char], pat: &[char], lo: usize, hi: usize) -> (r: Option<usize>)
    requires
        lo <= hi <= s@.len(),
    ensures
        match r {
            Some(p) => last_match(s@, pat@, lo as int, hi as int) == Some(p as int),
            None => last_match(s@, pat@, lo as int, hi as int) is None,
        },
{
    if pat.len() == 0 {
        return None;
    }
    let mut end: usize = hi;
    while end - lo >= pat.len()
        invariant
            lo <= end <= hi <= s@.len(),
            pat@.len() > 0,
            last_match(s@, pat@, lo as int, hi as int) == last_match(
                s@,
                pat@,
                lo as int,
                end as int,
            ),
        decreases end - lo,
    {
        let p: usize = end - pat.len();
        if stands_at(s, pat, p) {
            return Some(p);
        }
        end = end - 1;
    }
    None
}

/// The delimiters, best first.
pub fn delimiter_list() -> (d: Vec<Vec<char>>)
    ensures
        d.deep_view() == delimiters(),
{
    let d: Vec<Vec<char>> = vec![
        vec!['\n', '\n'],
        vec!['.', ' '],
        vec!['!', ' '],
        vec!['?', ' '],
        vec!['.', '\n'],
        vec!['!', '\n'],
        vec!['?', '\n'],
        vec![' '],
    ];
    proof {
        let v = d.deep_view();
        let e = delimiters();
        assert(v.len() == e.len());
        assert forall|k: int| 0 <= k < v.len() implies v[k] == e[k] by {
            assert(v[k] == d@[k].deep_view());
            assert(d@[k].deep_view() =~= d@[k]@);
            assert(d@[k]@ =~= e[k]);
        }
        assert(v =~= e);
    }
    d
}

/// The cut of the window `[start, target_end)` of `s`, for the delimiters
/// `delims`.
pub fn break_point_in(s: &[char], delims: &Vec<Vec<char>>, start: usize, target_end: usize) -> (r:
    usize)
    requires
        start <= target_end <= s@.len(),
        delims.deep_view() == delimiters(),
    ensures
        r == break_point(s@, start as int, target_end as int),
{
    let reach: usize = if target_end - start < BREAK_SEARCH {
        target_end - start
    } else {
        BREAK_SEARCH
    };
    let lo: usize = target_end - reach;
    let mut k: usize = 0;
    proof {
        assert(delimiters().skip(0) =~= delimiters());
    }
    while k < delims.len()
        invariant
            k <= delims@.len(),
            lo <= target_end <= s@.len(),
            delims.deep_view() == delimiters(),
            break_point(s@, start as int, target_end as int) == first_break(
                s@,
                delimiters().skip(k as int),
                lo as int,
                target_end as int,
            ),
        decreases delims@.len() - k,
    {
        proof {
            let rest = delimiters().skip(k as int);
            assert(rest[0] == delims.deep_view()[k as int]);
            assert(delims.deep_view()[k as int] == delims@[k as int].deep_view());
            assert(delims@[k as int].deep_view() =~= delims@[k as int]@);
            assert(rest.drop_first() =~= delimiters().skip(k + 1));
            lemma_delimiters_nonempty();
            lemma_last_match(s@, rest[0], lo as int, target_end as int);
        }
        let pat: &[char] = delims[k].as_slice();
        proof {
            assert(pat@ == delimiters().skip(k as int)[0]);
        }
        match rfind(s, pat, lo, target_end) {
            Some(p) => {
                proof {
                    let rest = delimiters().skip(k as int);
                    assert(last_match(s@, rest[0], lo as int, target_end as int) == Some(p as int));
                    assert(first_break(s@, rest, lo as int, target_end as int) == p + rest[0].len());
                }
                return p + pat.len();
            },
            None => {},
        }
        k = k + 1;
    }
    target_end
}

/// Finds where to cut the window `[start, target_end)` of `text`, positions
/// counted in characters: at the end of the last paragraph break in the last
/// `BREAK_SEARCH` characters of the window; failing that at the end of a
/// sentence, then after a space, then at `target_end`.
pub fn find_break_point(text: &str, start: usize, target_end: usize) -> (r: usize)
    requires
        start <= target_end <= text@.len(),
    ensures
        r == break_point(text@, start as int, target_end as int),
        start <= r <= target_end,
{
    let chars = to_chars(text);
    let delims = delimiter_list();
    proof {
        lemma_break_point_bounds(text@, start as int, target_end as int);
    }
    break_point_in(chars.as_slice(), &delims, start, target_end)
}

/// Where the window of `s` that begins at `start` ends: at a break point
/// where more than `CHUNK_SIZE` characters are left, else at the end of `s`.
pub open spec fn window_end(s: Seq<char>, start: int) -> int {
    if s.len() - start > CHUNK_SIZE as int {
        break_point(s, start, start + CHUNK_SIZE as int)
    } else {
        s.len() as int
    }
}

/// Where the window after `[start, end)` begins: `CHUNK_OVERLAP` characters
/// before `end`, or at `end` where that would not lie after `start`.
pub open spec fn next_start(start: int, end: int) -> int {
    if end - start > CHUNK_OVERLAP as int {
        end - CHUNK_OVERLAP as int
    } else {
        end
    }
}

/// The windows `(start, end)` that are cut from `s`, the first of them
/// beginning at `start`.
pub open spec fn windows_from(s: Seq<char>, start: int) -> Seq<(int, int)>
    decreases s.len() - start,
    when 0 <= start
    via windows_from_decreases
{
    if start >= s.len() {
        Seq::empty()
    } else {
        let end = window_end(s, start);
        if end >= s.len() {
            seq![(start, end)]
        } else {
            seq![(start, end)] + windows_from(s, next_start(start, end))
        }
    }
}

/// Each window begins after the one before it began.
#[via_fn]
proof fn windows_from_decreases(s: Seq<char>, start: int) {
    if start < s.len() && s.len() - start > CHUNK_SIZE as int {
        lemma_break_point_bounds(s, start, start + CHUNK_SIZE as int);
    }
}

/// The trimmed text of each window of `ws`, in order, without those that
/// are empty.
pub open spec fn pieces(s: Seq<char>, ws: Seq<(int, int)>) -> Seq<Seq<char>>
    decreases ws.len(),
{
    if ws.len() == 0 {
        Seq::empty()
    } else {
        let piece = trim(s.subrange(ws[0].0, ws[0].1));
        let rest = pieces(s, ws.drop_first());
        if piece.len() > 0 {
            seq![piece] + rest
        } else {
            rest
        }
    }
}

/// The chunks of `text`: none for a text of white space alone, the trimmed
/// text where that has at most `CHUNK_SIZE` characters, else the pieces of
/// its windows.
pub open spec fn split(text: Seq<char>) -> Seq<Seq<char>> {
    let t = trim(text);
    if t.len() == 0 {
        Seq::empty()
    } else if t.len() <= CHUNK_SIZE as int {
        seq![t]
    } else {
        pieces(t, windows_from(t, 0))
    }
}

/// Splits `text` into overlapping chunks of at most `CHUNK_SIZE` characters.
///
/// The text is trimmed first. Each window ends at the best break point in
/// its last `BREAK_SEARCH` characters, the next one begins `CHUNK_OVERLAP`
/// characters before that end; every chunk is trimmed, and empty ones are
/// left out.
pub fn split_into_chunks(text: &str) -> (chunks: Vec<String>)
    ensures
        chunks.deep_view() == split(text@),
{
    let chars = to_chars(text);
    let (a, b) = trim_range(chars.as_slice(), 0, chars.len());
    let mut chunks: Vec<String> = Vec::new();
    proof {
        assert(chars@.subrange(0, chars@.len() as int) =~= text@);
        assert(chunks.deep_view() =~= Seq::<Seq<char>>::empty());
    }
    if a == b {
        return chunks;
    }
    if b - a <= CHUNK_SIZE {
        let whole = substring(text, a, b);
        chunks.push(whole);
        proof {
            assert(chunks.deep_view() =~= seq![trim(text@)]);
        }
        return chunks;
    }
    let delims = delimiter_list();
    let body: &[char] = vstd::slice::slice_subrange(chars.as_slice(), a, b);
    let n: usize = b - a;
    let ghost t = trim(text@);
    let mut start: usize = 0;
    loop
        invariant_except_break
            pieces(t, windows_from(t, 0)) == chunks.deep_view() + pieces(
                t,
                windows_from(t, start as int),
            ),
        invariant
            a + n == b <= text@.len(),
            body@ == t,
            t == text@.subrange(a as int, b as int),
            n == t.len(),
            start < n,
            delims.deep_view() == delimiters(),
        ensures
            chunks.deep_view() == pieces(t, windows_from(t, 0)),
        decreases n - start,
    {
        let end: usize = if n - start > CHUNK_SIZE {
            proof {
                lemma_break_point_bounds(t, start as int, start + CHUNK_SIZE as int);
            }
            break_point_in(body, &delims, start, start + CHUNK_SIZE)
        } else {
            n
        };
        let (x, y) = trim_range(body, start, end);
        let ghost before = chunks.deep_view();
        let ghost ws = windows_from(t, start as int);
        let ghost piece = trim(t.subrange(start as int, end as int));
        proof {
            assert(end as int == window_end(t, start as int));
            assert(ws[0] == (start as int, end as int));
            assert(piece == t.subrange(x as int, y as int));
        }
        if x < y {
            let chunk = substring(text, a + x, a + y);
            proof {
                assert(chunk@ =~= piece);
            }
            chunks.push(chunk);
            proof {
                assert(chunks.deep_view() =~= before + seq![piece]);
            }
        }
        if end >= n {
            proof {
                assert(ws =~= seq![(start as int, end as int)]);
                assert(ws.drop_first() =~= Seq::<(int, int)>::empty());
                assert(pieces(t, ws.drop_first()) =~= Seq::<Seq<char>>::empty());
                assert(chunks.deep_view() =~= before + pieces(t, ws));
            }
            break;
        }
        let next: usize = if end - start > CHUNK_OVERLAP {
            end - CHUNK_OVERLAP
        } else {
            end
        };
        proof {
            let rest = windows_from(t, next as int);
            assert(next as int == next_start(start as int, end as int));
            assert(ws == seq![(start as int, end as int)] + rest);
            assert(ws.drop_first() =~= rest);
            assert(chunks.deep_view() + pieces(t, rest) =~= before + pieces(t, ws));
        }
        start = next;
    }
    chunks
}

/// The windows `ws` cover `[start, len)` in order and without a gap: the
/// first begins at `start`, the last ends at `len`, none is empty or longer
/// than `CHUNK_SIZE`, and each one after the first begins after the one
/// before it began and exactly `CHUNK_OVERLAP` characters before that one
/// ended.
pub open spec fn covers(ws: Seq<(int, int)>, start: int, len: int) -> bool {
    &&& ws.len() > 0
    &&& ws[0].0 == start
    &&& ws.last().1 == len
    &&& forall|i: int|
        0 <= i < ws.len() ==> 0 <= (#[trigger] ws[i]).0 < ws[i].1 <= len && ws[i].1 - ws[i].0
            <= CHUNK_SIZE as int
    &&& forall|i: int|
        0 <= i < ws.len() - 1 ==> (#[trigger] ws[i]).0 < ws[i + 1].0 && ws[i + 1].0 == ws[i].1
            - CHUNK_OVERLAP as int
}

/// A text of at most `CHUNK_SIZE` characters gives one chunk, its trimmed
/// text, or none where nothing but white space is in it.
pub proof fn lemma_short_text(text: Seq<char>)
    requires
        text.len() <= CHUNK_SIZE as int,
    ensures
        split(text) == if trim(text).len() > 0 {
            seq![trim(text)]
        } else {
            Seq::<Seq<char>>::empty()
        },
{
    lemma_trim_bounds(text);
}

/// The windows cut from a text cover it, from any start inside it.
pub proof fn lemma_windows_cover(s: Seq<char>, start: int)
    requires
        0 <= start < s.len(),
    ensures
        covers(windows_from(s, start), start, s.len() as int),
    decreases s.len() - start,
{
    let end = window_end(s, start);
    if s.len() - start > CHUNK_SIZE as int {
        lemma_break_point_bounds(s, start, start + CHUNK_SIZE as int);
    }
    if end < s.len() {
        let next = next_start(start, end);
        let rest = windows_from(s, next);
        let ws = windows_from(s, start);
        lemma_windows_cover(s, next);
        assert(ws == seq![(start, end)] + rest);
        assert(ws[0] == (start, end));
        assert forall|i: int| 1 <= i < ws.len() implies ws[i] == rest[i - 1] by {}
        assert(ws.last() == rest.last());
        assert forall|i: int| 0 <= i < ws.len() - 1 implies (#[trigger] ws[i]).0 < ws[i + 1].0
            && ws[i + 1].0 == ws[i].1 - CHUNK_OVERLAP as int by {
            if i > 0 {
                assert(ws[i] == rest[i - 1]);
                assert(ws[i + 1] == rest[i]);
            } else {
                assert(ws[1] == rest[0]);
            }
        }
    }
}

/// A position of `[ws[0].0, end)` lies in one of the windows `ws`, where
/// the last of them ends at `end` and none begins after the one before
/// it ended.
proof fn lemma_position_in_window(ws: Seq<(int, int)>, end: int, p: int)
    requires
        ws.len() > 0,
        ws[0].0 <= p < end,
        ws.last().1 == end,
        forall|i: int| 0 <= i < ws.len() - 1 ==> (#[trigger] ws[i + 1]).0 <= ws[i].1,
    ensures
        exists|i: int| 0 <= i < ws.len() && (#[trigger] ws[i]).0 <= p < ws[i].1,
    decreases ws.len(),
{
    if p < ws[0].1 {
        assert(ws[0].0 <= p < ws[0].1);
    } else {
        let rest = ws.drop_first();
        assert(ws.len() > 1);
        let zero: int = 0;
        assert(ws[zero + 1].0 <= ws[zero].1);
        assert(rest[0] == ws[1]);
        assert(rest.last() == ws.last());
        assert forall|i: int| 0 <= i < rest.len() - 1 implies (#[trigger] rest[i + 1]).0
            <= rest[i].1 by {
            assert(rest[i + 1] == ws[(i + 1) + 1]);
            assert(rest[i] == ws[i + 1]);
        }
        lemma_position_in_window(rest, end, p);
        let j = choose|j: int| 0 <= j < rest.len() && (#[trigger] rest[j]).0 <= p < rest[j].1;
        assert(ws[j + 1] == rest[j]);
    }
}

/// The piece of a window that has more in it than white space is among
/// the pieces.
proof fn lemma_piece_is_kept(s: Seq<char>, ws: Seq<(int, int)>, i: int)
    requires
        0 <= i < ws.len(),
        trim(s.subrange(ws[i].0, ws[i].1)).len() > 0,
    ensures
        exists|k: int|
            0 <= k < pieces(s, ws).len() && #[trigger] pieces(s, ws)[k] == trim(
                s.subrange(ws[i].0, ws[i].1),
            ),
    decreases ws.len(),
{
    let first = trim(s.subrange(ws[0].0, ws[0].1));
    let rest = pieces(s, ws.drop_first());
    let all = pieces(s, ws);
    if i == 0 {
        assert(all == seq![first] + rest);
        assert(all[0] == first);
    } else {
        let tail = ws.drop_first();
        assert(tail[i - 1] == ws[i]);
        lemma_piece_is_kept(s, tail, i - 1);
        let k = choose|k: int|
            0 <= k < rest.len() && #[trigger] rest[k] == trim(s.subrange(ws[i].0, ws[i].1));
        if first.len() > 0 {
            assert(all == seq![first] + rest);
            assert(all[k + 1] == rest[k]);
        } else {
            assert(all == rest);
        }
    }
}

/// What is left of the window `[from, to)` of `s` when it is trimmed
/// stands in `s` from `from + leading` on, and holds every character of
/// the window that is no white space.
proof fn lemma_trimmed_window(s: Seq<char>, from: int, to: int, p: int)
    requires
        0 <= from <= p < to <= s.len(),
        !is_whitespace(s[p]),
    ensures
        ({
            let w = s.subrange(from, to);
            let at = from + leading(w);
            &&& trim(w).len() > 0
            &&& at <= p < at + trim(w).len()
            &&& occurs_at(s, trim(w), at)
        }),
{
    let w = s.subrange(from, to);
    lemma_trim_bounds(w);
    assert(w[p - from] == s[p]);
    if leading(w) > p - from {
        assert(is_whitespace(w[p - from]));
    }
    if p - from >= w.len() - trailing(w) {
        assert(is_whitespace(w[p - from]));
    }
    assert(w.subrange(leading(w), w.len() - trailing(w)) =~= s.subrange(
        from + leading(w),
        to - trailing(w),
    ));
}

/// No character is lost between the chunks: every character of the
/// trimmed text that is no white space lies in a chunk, which stands in
/// the trimmed text as it is.
pub proof fn lemma_no_gaps(text: Seq<char>, p: int)
    requires
        0 <= p < trim(text).len(),
        !is_whitespace(trim(text)[p]),
    ensures
        exists|k: int, at: int|
            0 <= k < split(text).len() && at <= p < at + split(text)[k].len() && #[trigger] occurs_at(
                trim(text),
                split(text)[k],
                at,
            ),
{
    let t = trim(text);
    if t.len() <= CHUNK_SIZE as int {
        assert(split(text)[0] == t);
        assert(t.subrange(0, t.len() as int) =~= t);
        assert(occurs_at(t, split(text)[0], 0));
    } else {
        let ws = windows_from(t, 0);
        lemma_windows_cover(t, 0);
        assert forall|i: int| 0 <= i < ws.len() - 1 implies (#[trigger] ws[i + 1]).0
            <= ws[i].1 by {
            assert(ws[i + 1].0 == ws[i].1 - CHUNK_OVERLAP as int);
        }
        lemma_position_in_window(ws, t.len() as int, p);
        let i = choose|i: int| 0 <= i < ws.len() && (#[trigger] ws[i]).0 <= p < ws[i].1;
        lemma_trimmed_window(t, ws[i].0, ws[i].1, p);
        lemma_piece_is_kept(t, ws, i);
        let w = t.subrange(ws[i].0, ws[i].1);
        let k = choose|k: int| 0 <= k < pieces(t, ws).len() && #[trigger] pieces(t, ws)[k] == trim(w);
        assert(occurs_at(t, split(text)[k], ws[i].0 + leading(w)));
    }
}

/// The chunks of a text whose trimmed form has more than `CHUNK_SIZE`
/// characters are the pieces of at least two windows, which cover the
/// trimmed text in order and without a gap, and there are at least two
/// chunks.
pub proof fn lemma_long_text(text: Seq<char>)
    requires
        trim(text).len() > CHUNK_SIZE as int,
    ensures
        split(text) == pieces(trim(text), windows_from(trim(text), 0)),
        covers(windows_from(trim(text), 0), 0, trim(text).len() as int),
        windows_from(trim(text), 0).len() >= 2,
        split(text).len() >= 2,
{
    let t = trim(text);
    let ws = windows_from(t, 0);
    lemma_windows_cover(t, 0);
    lemma_break_point_bounds(t, 0, CHUNK_SIZE as int);
    let end = window_end(t, 0);
    lemma_windows_cover(t, next_start(0, end));
    // the first window holds the first character, the last one the last,
    // and neither of the two is white space
    lemma_trim_bounds(text);
    let tail = ws.drop_first();
    let last = tail.len() - 1;
    assert(tail[last] == ws[ws.len() - 1]);
    assert(t.last() == t[t.len() - 1]);
    lemma_trimmed_window(t, ws[0].0, ws[0].1, 0);
    lemma_trimmed_window(t, tail[last].0, tail[last].1, t.len() - 1);
    lemma_piece_is_kept(t, tail, last);
    assert(pieces(t, ws) == seq![trim(t.subrange(ws[0].0, ws[0].1))] + pieces(t, tail));
}

/// Where every window of `ws` lies inside `s` and has at most `bound`
/// characters, every piece is non-empty, has at most `bound` characters,
/// and neither begins nor ends with white space.
pub proof fn lemma_pieces_bounded(s: Seq<char>, ws: Seq<(int, int)>, bound: int)
    requires
        forall|i: int|
            0 <= i < ws.len() ==> 0 <= (#[trigger] ws[i]).0 <= ws[i].1 <= s.len() && ws[i].1
                - ws[i].0 <= bound,
    ensures
        pieces(s, ws).len() <= ws.len(),
        forall|k: int|
            0 <= k < pieces(s, ws).len() ==> 0 < (#[trigger] pieces(s, ws)[k]).len() <= bound
                && trim(pieces(s, ws)[k]) == pieces(s, ws)[k],
    decreases ws.len(),
{
    if ws.len() > 0 {
        let w = s.subrange(ws[0].0, ws[0].1);
        let piece = trim(w);
        let tail = ws.drop_first();
        assert forall|i: int| 0 <= i < tail.len() implies 0 <= (#[trigger] tail[i]).0 <= tail[i].1
            <= s.len() && tail[i].1 - tail[i].0 <= bound by {
            assert(tail[i] == ws[i + 1]);
        }
        lemma_pieces_bounded(s, tail, bound);
        lemma_trim_bounds(w);
        if piece.len() > 0 {
            lemma_trim_twice(w);
            let all = pieces(s, ws);
            assert(all == seq![piece] + pieces(s, tail));
            assert forall|k: int| 0 <= k < all.len() implies 0 < (#[trigger] all[k]).len() <= bound
                && trim(all[k]) == all[k] by {
                if k > 0 {
                    assert(all[k] == pieces(s, tail)[k - 1]);
                }
            }
        }
    }
}

/// Every chunk is non-empty, has at most `CHUNK_SIZE` characters, and
/// neither begins nor ends with white space.
pub proof fn lemma_chunks_bounded(text: Seq<char>)
    ensures
        forall|k: int|
            0 <= k < split(text).len() ==> 0 < (#[trigger] split(text)[k]).len() <= CHUNK_SIZE as int
                && trim(split(text)[k]) == split(text)[k],
{
    let t = trim(text);
    lemma_trim_bounds(text);
    if t.len() == 0 {
    } else if t.len() <= CHUNK_SIZE as int {
        lemma_trim_twice(text);
    } else {
        lemma_windows_cover(t, 0);
        lemma_pieces_bounded(t, windows_from(t, 0), CHUNK_SIZE as int);
    }
}

} // verus!
