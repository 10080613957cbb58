use vstd::prelude::*;
use vstd::string::StrSliceExecFns;

verus! {

/// Whether `c` is white space in the sense of Unicode (White_Space).
pub open spec fn is_whitespace(c: char) -> bool {
    let u = c as u32;
    ||| 0x09 <= u <= 0x0D
    ||| u == 0x20
    ||| u == 0x85
    ||| u == 0xA0
    ||| u == 0x1680
    ||| 0x2000 <= u <= 0x200A
    ||| u == 0x2028
    ||| u == 0x2029
    ||| u == 0x202F
    ||| u == 0x205F
    ||| u == 0x3000
}

/// Number of white-space characters at the front of `s`.
pub open spec fn leading(s: Seq<char>) -> int
    decreases s.len(),
{
    if s.len() > 0 && is_whitespace(s[0]) {
        1 + leading(s.drop_first())
    } else {
        0
    }
}

/// Number of white-space characters at the back of `s`.
pub open spec fn trailing(s: Seq<char>) -> int
    decreases s.len(),
{
    if s.len() > 0 && is_whitespace(s.last()) {
        1 + trailing(s.drop_last())
    } else {
        0
    }
}

/// `s` without its leading and trailing white space.
pub open spec fn trim(s: Seq<char>) -> Seq<char> {
    if leading(s) >= s.len() {
        Seq::empty()
    } else {
        s.subrange(leading(s), s.len() - trailing(s))
    }
}

/// Every character of `s` in `[lo, hi)` is white space.
pub open spec fn all_whitespace(s: Seq<char>, lo: int, hi: int) -> bool {
    forall|i: int| lo <= i < hi ==> is_whitespace(#[trigger] s[i])
}

/// Where the first `a` characters are white space and the next one is
/// not, `a` characters lead.
pub proof fn lemma_leading(s: Seq<char>, a: int)
    requires
        0 <= a <= s.len(),
        all_whitespace(s, 0, a),
        a < s.len() ==> !is_whitespace(s[a]),
    ensures
        leading(s) == a,
    decreases a,
{
    if a > 0 {
        let t = s.drop_first();
        assert forall|i: int| 0 <= i < a - 1 implies is_whitespace(#[trigger] t[i]) by {
            assert(t[i] == s[i + 1]);
        }
        lemma_leading(t, a - 1);
    }
}

/// Where the characters from `b` on are white space and the one before
/// them is not, they are the ones that trail.
pub proof fn lemma_trailing(s: Seq<char>, b: int)
    requires
        0 <= b <= s.len(),
        all_whitespace(s, b, s.len() as int),
        b > 0 ==> !is_whitespace(s[b - 1]),
    ensures
        trailing(s) == s.len() - b,
    decreases s.len() - b,
{
    if b < s.len() {
        let t = s.drop_last();
        assert forall|i: int| b <= i < t.len() implies is_whitespace(#[trigger] t[i]) by {
            assert(t[i] == s[i]);
        }
        lemma_trailing(t, b);
    }
}

/// The trimmed text is the one stretch `[a, b)` of `s` that has only white
/// space before and after it and none at its two ends.
pub proof fn lemma_trim_is(s: Seq<char>, a: int, b: int)
    requires
        0 <= a <= b <= s.len(),
        all_whitespace(s, 0, a),
        all_whitespace(s, b, s.len() as int),
        a < b ==> !is_whitespace(s[a]) && !is_whitespace(s[b - 1]),
    ensures
        trim(s) == s.subrange(a, b),
{
    if a < b {
        lemma_leading(s, a);
        lemma_trailing(s, b);
    } else {
        assert forall|i: int| 0 <= i < s.len() implies is_whitespace(#[trigger] s[i]) by {
            if i < a {
            } else {
            }
        }
        lemma_leading(s, s.len() as int);
        assert(s.subrange(a, b) =~= Seq::<char>::empty());
    }
}

/// Trimming never lengthens a text, and what is left neither starts nor ends
/// with white space.
pub proof fn lemma_trim_bounds(s: Seq<char>)
    ensures
        trim(s).len() <= s.len(),
        0 <= leading(s) <= s.len(),
        0 <= trailing(s) <= s.len(),
        leading(s) < s.len() ==> leading(s) + trailing(s) < s.len(),
        trim(s).len() > 0 ==> !is_whitespace(trim(s)[0]) && !is_whitespace(trim(s).last()),
        all_whitespace(s, 0, leading(s)),
        all_whitespace(s, s.len() - trailing(s), s.len() as int),
{
    lemma_leading_facts(s);
    lemma_trailing_facts(s);
    if leading(s) < s.len() {
        if leading(s) + trailing(s) >= s.len() {
            assert(is_whitespace(s[leading(s)]));
        }
    }
}

/// Trimming a trimmed text changes nothing.
pub proof fn lemma_trim_twice(s: Seq<char>)
    ensures
        trim(trim(s)) == trim(s),
{
    let t = trim(s);
    lemma_trim_bounds(s);
    lemma_trim_is(t, 0, t.len() as int);
    assert(t.subrange(0, t.len() as int) =~= t);
}

/// The leading characters are white space, and the one after them is not.
proof fn lemma_leading_facts(s: Seq<char>)
    ensures
        0 <= leading(s) <= s.len(),
        all_whitespace(s, 0, leading(s)),
        leading(s) < s.len() ==> !is_whitespace(s[leading(s)]),
    decreases s.len(),
{
    if s.len() > 0 && is_whitespace(s[0]) {
        let t = s.drop_first();
        lemma_leading_facts(t);
        assert forall|i: int| 0 <= i < leading(s) implies is_whitespace(#[trigger] s[i]) by {
            if i > 0 {
                assert(s[i] == t[i - 1]);
            }
        }
        if leading(s) < s.len() {
            assert(s[leading(s)] == t[leading(t)]);
        }
    }
}

/// The trailing characters are white space, and the one before them is
/// not.
proof fn lemma_trailing_facts(s: Seq<char>)
    ensures
        0 <= trailing(s) <= s.len(),
        all_whitespace(s, s.len() - trailing(s), s.len() as int),
        trailing(s) < s.len() ==> !is_whitespace(s[s.len() - trailing(s) - 1]),
    decreases s.len(),
{
    if s.len() > 0 && is_whitespace(s.last()) {
        let t = s.drop_last();
        lemma_trailing_facts(t);
        assert forall|i: int| s.len() - trailing(s) <= i < s.len() implies is_whitespace(
            #[trigger] s[i],
        ) by {
            if i < s.len() - 1 {
                assert(s[i] == t[i]);
            }
        }
        if trailing(s) < s.len() {
            assert(s[s.len() - trailing(s) - 1] == t[t.len() - trailing(t) - 1]);
        }
    }
}

/// Whether `c` is white space.
pub fn char_is_whitespace(c: char) -> (r: bool)
    ensures
        r == is_whitespace(c),
{
    let u: u32 = c as u32;
    (0x09 <= u && u <= 0x0D) || u == 0x20 || u == 0x85 || u == 0xA0 || u == 0x1680 || (0x2000 <= u
        && u <= 0x200A) || u == 0x2028 || u == 0x2029 || u == 0x202F || u == 0x205F || u == 0x3000
}

/// The bounds of what is left of `s[lo..hi]` when its white space is trimmed
/// at both ends. For a stretch of white space alone both bounds are `hi`.
pub fn trim_range(s: &[char], lo: usize, hi: usize) -> (r: (usize, usize))
    requires
        lo <= hi <= s@.len(),
    ensures
        lo <= r.0 <= r.1 <= hi,
        s@.subrange(r.0 as int, r.1 as int) == trim(s@.subrange(lo as int, hi as int)),
{
    let ghost w = s@.subrange(lo as int, hi as int);
    let mut a: usize = lo;
    while a < hi && char_is_whitespace(s[a])
        invariant
            lo <= a <= hi <= s@.len(),
            w == s@.subrange(lo as int, hi as int),
            all_whitespace(w, 0, a - lo),
        decreases hi - a,
    {
        a = a + 1;
    }
    let mut b: usize = hi;
    while b > a && char_is_whitespace(s[b - 1])
        invariant
            lo <= a <= b <= hi <= s@.len(),
            w == s@.subrange(lo as int, hi as int),
            all_whitespace(w, b - lo, hi - lo),
        decreases b - a,
    {
        b = b - 1;
    }
    proof {
        if a < b {
            assert(w[a - lo] == s@[a as int]);
            assert(w[b - lo - 1] == s@[b - 1]);
        }
        lemma_trim_is(w, a - lo, b - lo);
        assert(w.subrange(a - lo, b - lo) =~= s@.subrange(a as int, b as int));
    }
    (a, b)
}

/// The characters of `text`, in order, in a vector that can be indexed.
pub fn to_chars(text: &str) -> (chars: Vec<char>)
    ensures
        chars@ == text@,
{
    let mut chars: Vec<char> = Vec::new();
    for c in it: text.chars()
        invariant
            it.seq() == text@,
            chars@ == it.seq().take(it.index()),
    {
        chars.push(c);
    }
    chars
}

/// The characters `[from, to)` of `text` as a string of their own.
pub fn substring(text: &str, from: usize, to: usize) -> (s: String)
    requires
        from <= to <= text@.len(),
    ensures
        s@ == text@.subrange(from as int, to as int),
{
    text.substring_char(from, to).to_owned()
}

} // verus!
