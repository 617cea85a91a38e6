//! Words, numbers and vertex references in a piece of text.
//!
//! The text is a sequence of bytes. A place in it is a `Span`, so that
//! nothing is copied and every word can be found again in the text it came
//! from.

use vstd::prelude::*;

verus! {

/// A blank byte: space, tab, line feed, form feed or carriage return.
pub open spec fn is_blank(b: u8) -> bool {
    b == 32 || b == 9 || b == 10 || b == 12 || b == 13
}

/// A decimal digit, `0` to `9`.
pub open spec fn is_digit(b: u8) -> bool {
    48 <= b <= 57
}

/// `+` or `-`.
pub open spec fn is_sign(b: u8) -> bool {
    b == 43 || b == 45
}

/// `e` or `E`, which starts the exponent of a number.
pub open spec fn is_exponent_mark(b: u8) -> bool {
    b == 101 || b == 69
}

/// The bytes from `start` up to, not including, `end`.
#[derive(Clone, Copy, Debug, PartialEq, Eq, Structural)]
pub struct Span {
    pub start: usize,
    pub end: usize,
}

impl View for Span {
    type V = (int, int);

    open spec fn view(&self) -> (int, int) {
        (self.start as int, self.end as int)
    }
}

/// The places that a list of spans names.
pub open spec fn places(spans: Seq<Span>) -> Seq<(int, int)> {
    Seq::new(spans.len(), |i: int| spans[i]@)
}

/// The first position from `from` on, below `to`, that holds no blank; `to`
/// where there is none.
pub open spec fn blanks_end(s: Seq<u8>, from: int, to: int) -> int
    decreases to - from,
{
    if 0 <= from < to && from < s.len() && is_blank(s[from]) {
        blanks_end(s, from + 1, to)
    } else {
        from
    }
}

/// The first position from `from` on, below `to`, that holds a blank; `to`
/// where there is none.
pub open spec fn word_end(s: Seq<u8>, from: int, to: int) -> int
    decreases to - from,
{
    if 0 <= from < to && from < s.len() && !is_blank(s[from]) {
        word_end(s, from + 1, to)
    } else {
        from
    }
}

/// The words between `from` and `to`, in order: the longest stretches of
/// bytes without a blank.
pub open spec fn words(s: Seq<u8>, from: int, to: int) -> Seq<(int, int)>
    decreases to - from,
{
    let start = blanks_end(s, from, to);
    let end = word_end(s, start, to);
    if from <= start < end <= to {
        seq![(start, end)] + words(s, end, to)
    } else {
        Seq::empty()
    }
}

/// Every byte of `t` is a digit.
pub open spec fn all_digits(t: Seq<u8>) -> bool {
    forall|i: int| 0 <= i < t.len() ==> is_digit(#[trigger] t[i])
}

/// `t` without one sign at its front, if it has one.
pub open spec fn unsigned(t: Seq<u8>) -> Seq<u8> {
    if t.len() > 0 && is_sign(t[0]) {
        t.subrange(1, t.len() as int)
    } else {
        t
    }
}

/// The position of the first exponent mark of `t` from `from` on; the length
/// of `t` where there is none.
pub open spec fn exponent_mark(t: Seq<u8>, from: int) -> int
    decreases t.len() - from,
{
    if 0 <= from < t.len() && !is_exponent_mark(t[from]) {
        exponent_mark(t, from + 1)
    } else {
        from
    }
}

/// Digits with at most one point among them, and at least one digit: `5`,
/// `5.`, `.5`, `5.25`.
pub open spec fn is_mantissa(t: Seq<u8>) -> bool {
    &&& forall|i: int| 0 <= i < t.len() ==> is_digit(#[trigger] t[i]) || t[i] == 46
    &&& forall|i: int, j: int| 0 <= i < j < t.len() ==> !(#[trigger] t[i] == 46 && #[trigger] t[j] == 46)
    &&& exists|i: int| 0 <= i < t.len() && is_digit(#[trigger] t[i])
}

/// What follows an exponent mark: one or more digits, with or without a sign
/// before them.
pub open spec fn is_exponent(t: Seq<u8>) -> bool {
    unsigned(t).len() >= 1 && all_digits(unsigned(t))
}

/// A decimal number: a mantissa, with or without a sign before it and with or
/// without an exponent after it. So `1`, `-0.5`, `+.25`, `3.` and `1.5e-3` are
/// numbers; `.`, `e5`, `1e`, `0x10`, `inf` and the empty text are not.
pub open spec fn is_number(t: Seq<u8>) -> bool {
    let u = unsigned(t);
    let mark = exponent_mark(u, 0);
    &&& is_mantissa(u.subrange(0, mark))
    &&& mark < u.len() ==> is_exponent(u.subrange(mark + 1, u.len() as int))
}

/// The value of a text of digits, read as a decimal number.
pub open spec fn decimal(t: Seq<u8>) -> nat
    decreases t.len(),
{
    if t.len() == 0 {
        0
    } else {
        decimal(t.drop_last()) * 10 + (t.last() - 48) as nat
    }
}

/// The position of the first `/` of `t` from `from` on; the length of `t`
/// where there is none.
pub open spec fn slash(t: Seq<u8>, from: int) -> int
    decreases t.len() - from,
{
    if 0 <= from < t.len() && t[from] != 47 {
        slash(t, from + 1)
    } else {
        from
    }
}

/// The part of a word of a face that names the vertex: what stands before the
/// first `/`, without a `+` at its front.
pub open spec fn reference_digits(t: Seq<u8>) -> Seq<u8> {
    let head = t.subrange(0, slash(t, 0));
    if head.len() > 0 && head[0] == 43 {
        head.subrange(1, head.len() as int)
    } else {
        head
    }
}

/// The vertex that a word of a face refers to, counted from 1: `7` for `7`,
/// `7/2`, `7//3`, `7/2/3` and `+7`. `None` where what stands before the first
/// `/` is not a decimal number from 1 to 4294967295.
pub open spec fn reference(t: Seq<u8>) -> Option<u32> {
    let d = reference_digits(t);
    if d.len() >= 1 && all_digits(d) && 1 <= decimal(d) <= u32::MAX {
        Some(decimal(d) as u32)
    } else {
        None
    }
}

/// `blanks_end` stays between `from` and `to`, passes only blanks, and stops
/// at the first byte that is none.
pub proof fn lemma_blanks_end(s: Seq<u8>, from: int, to: int)
    requires
        0 <= from <= to <= s.len(),
    ensures
        from <= blanks_end(s, from, to) <= to,
        forall|i: int| from <= i < blanks_end(s, from, to) ==> is_blank(#[trigger] s[i]),
        blanks_end(s, from, to) < to ==> !is_blank(s[blanks_end(s, from, to)]),
    decreases to - from,
{
    if from < to && is_blank(s[from]) {
        lemma_blanks_end(s, from + 1, to);
    }
}

/// `word_end` stays between `from` and `to`, passes no blank, and stops at the
/// first blank.
pub proof fn lemma_word_end(s: Seq<u8>, from: int, to: int)
    requires
        0 <= from <= to <= s.len(),
    ensures
        from <= word_end(s, from, to) <= to,
        forall|i: int| from <= i < word_end(s, from, to) ==> !is_blank(#[trigger] s[i]),
        word_end(s, from, to) < to ==> is_blank(s[word_end(s, from, to)]),
    decreases to - from,
{
    if from < to && !is_blank(s[from]) {
        lemma_word_end(s, from + 1, to);
    }
}

/// Blanks at the front of a stretch hold no word.
proof fn lemma_words_skip_blanks(s: Seq<u8>, from: int, mid: int, to: int)
    requires
        0 <= from <= mid <= to <= s.len(),
        forall|i: int| from <= i < mid ==> is_blank(#[trigger] s[i]),
    ensures
        words(s, from, to) == words(s, mid, to),
        blanks_end(s, from, to) == blanks_end(s, mid, to),
    decreases mid - from,
{
    if from < mid {
        lemma_words_skip_blanks(s, from + 1, mid, to);
        assert(is_blank(s[from]));
        assert(blanks_end(s, from, to) == blanks_end(s, from + 1, to));
    }
}

/// A stretch without a blank, with a blank or the end behind it, is one word.
proof fn lemma_word_end_known(s: Seq<u8>, from: int, end: int, to: int)
    requires
        0 <= from <= end <= to <= s.len(),
        forall|i: int| from <= i < end ==> !is_blank(#[trigger] s[i]),
        end < to ==> is_blank(s[end]),
    ensures
        word_end(s, from, to) == end,
    decreases end - from,
{
    if from < end {
        assert(!is_blank(s[from]));
        lemma_word_end_known(s, from + 1, end, to);
    }
}

/// `w` is a stretch of `s` between `from` and `to` that holds no blank and
/// cannot be made longer: a blank, or the bound, stands on either side of it.
pub open spec fn is_stretch(s: Seq<u8>, from: int, to: int, w: (int, int)) -> bool {
    &&& from <= w.0 < w.1 <= to
    &&& forall|i: int| w.0 <= i < w.1 ==> !is_blank(#[trigger] s[i])
    &&& w.0 == from || is_blank(s[w.0 - 1])
    &&& w.1 == to || is_blank(s[w.1])
}

/// The words are the longest stretches without a blank, all of them: each
/// word is such a stretch, and every byte that is no blank lies in a word.
pub proof fn lemma_words_are_the_stretches(s: Seq<u8>, from: int, to: int)
    requires
        0 <= from <= to <= s.len(),
    ensures
        forall|k: int|
            0 <= k < words(s, from, to).len() ==> is_stretch(s, from, to, #[trigger] words(s, from, to)[k]),
        forall|i: int|
            from <= i < to && !is_blank(#[trigger] s[i]) ==> exists|k: int|
                0 <= k < words(s, from, to).len() && (#[trigger] words(s, from, to)[k]).0 <= i
                    < words(s, from, to)[k].1,
    decreases to - from,
{
    let start = blanks_end(s, from, to);
    let end = word_end(s, start, to);
    lemma_blanks_end(s, from, to);
    lemma_word_end(s, start, to);
    let all = words(s, from, to);
    if from <= start < end <= to {
        lemma_words_are_the_stretches(s, end, to);
        let rest = words(s, end, to);
        assert(all == seq![(start, end)] + rest);
        assert forall|k: int| 0 <= k < all.len() implies is_stretch(s, from, to, #[trigger] all[k]) by {
            if k > 0 {
                let w = rest[k - 1];
                assert(all[k] == w);
                assert(is_stretch(s, end, to, w));
                if w.0 == end {
                    assert(is_blank(s[end]));
                    assert(!is_blank(s[w.0]));
                }
            } else {
                assert(all[0] == (start, end));
                if start > from {
                    assert(is_blank(s[start - 1]));
                }
            }
        }
        assert forall|i: int| from <= i < to && !is_blank(#[trigger] s[i]) implies exists|k: int|
            0 <= k < all.len() && (#[trigger] all[k]).0 <= i < all[k].1 by {
            if i < start {
                assert(is_blank(s[i]));
            } else if i < end {
                assert(all[0].0 <= i < all[0].1);
            } else {
                let k = choose|k: int| 0 <= k < rest.len() && (#[trigger] rest[k]).0 <= i < rest[k].1;
                assert(all[k + 1] == rest[k]);
                assert(all[k + 1].0 <= i < all[k + 1].1);
            }
        }
    } else {
        assert(start == to);
        assert forall|i: int| from <= i < to && !is_blank(#[trigger] s[i]) implies false by {
            assert(is_blank(s[i]));
        }
    }
}

/// Words follow one another: each lies between `from` and `to`, is not
/// empty, and ends before the next one starts.
pub proof fn lemma_words_in_order(s: Seq<u8>, from: int, to: int)
    requires
        0 <= from <= to <= s.len(),
    ensures
        forall|k: int|
            0 <= k < words(s, from, to).len() ==> from <= (#[trigger] words(s, from, to)[k]).0
                < words(s, from, to)[k].1 <= to,
        forall|k: int, l: int|
            0 <= k < l < words(s, from, to).len() ==> (#[trigger] words(s, from, to)[k]).1 < (
            #[trigger] words(s, from, to)[l]).0,
    decreases to - from,
{
    let start = blanks_end(s, from, to);
    let end = word_end(s, start, to);
    lemma_blanks_end(s, from, to);
    lemma_word_end(s, start, to);
    if from <= start < end <= to {
        lemma_words_in_order(s, end, to);
        let rest = words(s, end, to);
        let all = words(s, from, to);
        assert(all == seq![(start, end)] + rest);
        assert forall|k: int| 0 <= k < all.len() implies from <= (#[trigger] all[k]).0 < all[k].1
            <= to by {
            if k > 0 {
                assert(all[k] == rest[k - 1]);
            }
        }
        assert forall|k: int, l: int| 0 <= k < l < all.len() implies (#[trigger] all[k]).1 < (
        #[trigger] all[l]).0 by {
            assert(all[l] == rest[l - 1]);
            if k > 0 {
                assert(all[k] == rest[k - 1]);
            } else {
                // a blank stands where the first word ends
                lemma_blanks_end(s, end, to);
                assert(is_blank(s[end]));
                assert(rest[l - 1].0 >= blanks_end(s, end, to)) by {
                    lemma_first_word_start(s, end, to);
                    if l - 1 > 0 {
                        assert(rest[0].1 < rest[l - 1].0);
                    }
                }
            }
        }
    }
}

/// The first word starts where the blanks in front of it end.
proof fn lemma_first_word_start(s: Seq<u8>, from: int, to: int)
    requires
        0 <= from <= to <= s.len(),
        words(s, from, to).len() > 0,
    ensures
        words(s, from, to)[0].0 == blanks_end(s, from, to),
        words(s, from, to)[0].0 < words(s, from, to)[0].1,
{
    let start = blanks_end(s, from, to);
    let end = word_end(s, start, to);
    if from <= start < end <= to {
        assert(words(s, from, to) == seq![(start, end)] + words(s, end, to));
    }
}

/// Finds the words between `from` and `to`.
pub fn split_words(s: &[u8], from: usize, to: usize) -> (out: Vec<Span>)
    requires
        from <= to <= s@.len(),
    ensures
        places(out@) == words(s@, from as int, to as int),
        forall|k: int| 0 <= k < out@.len() ==> from <= (#[trigger] out@[k]).start < out@[k].end <= to,
{
    let mut out: Vec<Span> = Vec::new();
    let mut pos: usize = from;
    while pos < to
        invariant
            from <= pos <= to <= s@.len(),
            places(out@) + words(s@, pos as int, to as int) == words(s@, from as int, to as int),
            forall|k: int| 0 <= k < out@.len() ==> from <= (#[trigger] out@[k]).start < out@[k].end <= to,
        decreases to - pos,
    {
        if is_blank_byte(s[pos]) {
            proof {
                lemma_words_skip_blanks(s@, pos as int, pos + 1, to as int);
            }
            pos = pos + 1;
        } else {
            let start: usize = pos;
            let mut end: usize = pos + 1;
            while end < to && !is_blank_byte(s[end])
                invariant
                    start < end <= to <= s@.len(),
                    forall|i: int| start <= i < end ==> !is_blank(#[trigger] s@[i]),
                decreases to - end,
            {
                end = end + 1;
            }
            proof {
                lemma_word_end_known(s@, start as int, end as int, to as int);
                assert(blanks_end(s@, start as int, to as int) == start);
                let rest = words(s@, end as int, to as int);
                let before = places(out@);
                let word = Span { start, end };
                assert(words(s@, start as int, to as int) == seq![(start as int, end as int)] + rest);
                assert(places(out@.push(word)) =~= before + seq![(start as int, end as int)]);
                assert((before + seq![(start as int, end as int)]) + rest =~= before + (seq![
                    (start as int, end as int),
                ] + rest));
            }
            out.push(Span { start, end });
            pos = end;
        }
    }
    proof {
        assert(words(s@, pos as int, to as int) =~= Seq::<(int, int)>::empty());
        assert(places(out@) + Seq::<(int, int)>::empty() =~= places(out@));
    }
    out
}

/// Tells whether `b` is a blank.
pub fn is_blank_byte(b: u8) -> (r: bool)
    ensures
        r == is_blank(b),
{
    b == 32 || b == 9 || b == 10 || b == 12 || b == 13
}

/// Tells whether `b` is a digit.
pub fn is_digit_byte(b: u8) -> (r: bool)
    ensures
        r == is_digit(b),
{
    48 <= b && b <= 57
}

/// `exponent_mark` stays between `from` and the end, passes no exponent mark,
/// and stops at the first one.
pub proof fn lemma_exponent_mark(t: Seq<u8>, from: int)
    requires
        0 <= from <= t.len(),
    ensures
        from <= exponent_mark(t, from) <= t.len(),
        forall|i: int| from <= i < exponent_mark(t, from) ==> !is_exponent_mark(#[trigger] t[i]),
        exponent_mark(t, from) < t.len() ==> is_exponent_mark(t[exponent_mark(t, from)]),
    decreases t.len() - from,
{
    if from < t.len() && !is_exponent_mark(t[from]) {
        lemma_exponent_mark(t, from + 1);
    }
}

/// `slash` stays between `from` and the end, passes no `/`, and stops at the
/// first one.
pub proof fn lemma_slash(t: Seq<u8>, from: int)
    requires
        0 <= from <= t.len(),
    ensures
        from <= slash(t, from) <= t.len(),
        forall|i: int| from <= i < slash(t, from) ==> #[trigger] t[i] != 47,
        slash(t, from) < t.len() ==> t[slash(t, from)] == 47,
    decreases t.len() - from,
{
    if from < t.len() && t[from] != 47 {
        lemma_slash(t, from + 1);
    }
}

/// A text of digits is worth at least as much as any of its beginnings.
pub proof fn lemma_decimal_grows(t: Seq<u8>, k: int)
    requires
        0 <= k <= t.len(),
        all_digits(t),
    ensures
        decimal(t.subrange(0, k)) <= decimal(t),
    decreases t.len() - k,
{
    if k == t.len() {
        assert(t.subrange(0, k) =~= t);
    } else {
        lemma_decimal_grows(t, k + 1);
        let longer = t.subrange(0, k + 1);
        assert(longer.drop_last() =~= t.subrange(0, k));
        assert(is_digit(t[k]));
        assert(longer.last() == t[k]);
    }
}

/// Tells whether `word` is a decimal number.
pub fn holds_number(word: &[u8]) -> (r: bool)
    ensures
        r == is_number(word@),
{
    let n: usize = word.len();
    let body: usize = if n > 0 && (word[0] == 43 || word[0] == 45) {
        1
    } else {
        0
    };
    let ghost u = unsigned(word@);
    assert(u.len() == n - body);
    assert(forall|k: int| 0 <= k < u.len() ==> u[k] == word@[body + k]);
    let mut i: usize = body;
    let mut digit_seen: bool = false;
    let mut point_seen: bool = false;
    let ghost mut digit_at: int = 0;
    let ghost mut point_at: int = 0;
    while i < n && (is_digit_byte(word[i]) || word[i] == 46)
        invariant
            body <= i <= n,
            n == word@.len(),
            u == unsigned(word@),
            u.len() == n - body,
            forall|k: int| 0 <= k < u.len() ==> u[k] == word@[body + k],
            forall|k: int| 0 <= k < i - body ==> is_digit(#[trigger] u[k]) || u[k] == 46,
            digit_seen ==> 0 <= digit_at < i - body && is_digit(u[digit_at]),
            !digit_seen ==> forall|k: int| 0 <= k < i - body ==> !is_digit(#[trigger] u[k]),
            point_seen ==> 0 <= point_at < i - body && u[point_at] == 46,
            forall|k: int| 0 <= k < i - body && #[trigger] u[k] == 46 ==> point_seen && k == point_at,
        decreases n - i,
    {
        if word[i] == 46 {
            if point_seen {
                proof {
                    lemma_exponent_mark(u, 0);
                    let mark = exponent_mark(u, 0);
                    let here = i - body;
                    assert(mark > here) by {
                        if mark <= here {
                            assert(is_exponent_mark(u[mark]));
                            assert(is_digit(u[mark]) || u[mark] == 46);
                        }
                    }
                    let m = u.subrange(0, mark);
                    assert(m[point_at] == 46 && m[here] == 46);
                    assert(!is_mantissa(m));
                }
                return false;
            }
            point_seen = true;
            proof {
                point_at = i - body;
            }
        } else {
            digit_seen = true;
            proof {
                digit_at = i - body;
            }
        }
        i = i + 1;
    }
    proof {
        lemma_exponent_mark(u, 0);
    }
    let ghost mark = exponent_mark(u, 0);
    let ghost here = i - body;
    let ghost m = u.subrange(0, mark);
    proof {
        assert(mark >= here) by {
            if mark < here {
                assert(is_exponent_mark(u[mark]));
                assert(is_digit(u[mark]) || u[mark] == 46);
            }
        }
        if i < n {
            assert(u[here] == word@[i as int]);
        }
    }
    if i < n && !(word[i] == 101 || word[i] == 69) {
        proof {
            assert(mark > here);
            assert(m[here] == u[here]);
            assert(!(is_digit(m[here]) || m[here] == 46));
        }
        return false;
    }
    proof {
        assert(mark == here);
        assert(forall|k: int| 0 <= k < m.len() ==> m[k] == u[k]);
    }
    if !digit_seen {
        proof {
            assert(forall|k: int| 0 <= k < m.len() ==> !is_digit(#[trigger] m[k]));
        }
        return false;
    }
    proof {
        assert(is_digit(m[digit_at]));
        assert(is_mantissa(m));
    }
    if i == n {
        return true;
    }
    let ghost x = u.subrange(mark + 1, u.len() as int);
    let mut j: usize = i + 1;
    if j < n && (word[j] == 43 || word[j] == 45) {
        j = j + 1;
    }
    let first: usize = j;
    let ghost d = unsigned(x);
    assert(d.len() == n - first);
    assert(forall|k: int| 0 <= k < d.len() ==> d[k] == word@[first + k]);
    if first == n {
        return false;
    }
    while j < n
        invariant
            first <= j <= n,
            n == word@.len(),
            is_mantissa(m),
            u == unsigned(word@),
            mark == exponent_mark(u, 0),
            m == u.subrange(0, mark),
            mark < u.len(),
            x == u.subrange(mark + 1, u.len() as int),
            d == unsigned(x),
            d.len() == n - first,
            forall|k: int| 0 <= k < d.len() ==> d[k] == word@[first + k],
            forall|k: int| 0 <= k < j - first ==> is_digit(#[trigger] d[k]),
        decreases n - j,
    {
        if !is_digit_byte(word[j]) {
            proof {
                assert(!is_digit(d[j - first]));
            }
            return false;
        }
        j = j + 1;
    }
    true
}

/// Reads the vertex that a word of a face refers to.
pub fn read_reference(word: &[u8]) -> (r: Option<u32>)
    ensures
        r == reference(word@),
{
    let n: usize = word.len();
    let mut cut: usize = 0;
    while cut < n && word[cut] != 47
        invariant
            cut <= n,
            n == word@.len(),
            forall|k: int| 0 <= k < cut ==> #[trigger] word@[k] != 47,
        decreases n - cut,
    {
        cut = cut + 1;
    }
    proof {
        lemma_slash(word@, 0);
        let found = slash(word@, 0);
        if found < cut {
            assert(word@[found] == 47);
        }
        if found > cut {
            assert(word@[cut as int] != 47);
        }
    }
    let first: usize = if cut > 0 && word[0] == 43 {
        1
    } else {
        0
    };
    let ghost d = reference_digits(word@);
    assert(d.len() == cut - first);
    assert(forall|k: int| 0 <= k < d.len() ==> d[k] == word@[first + k]);
    if first == cut {
        return None;
    }
    let mut value: u64 = 0;
    let mut i: usize = first;
    while i < cut
        invariant
            first <= i <= cut <= n,
            n == word@.len(),
            d == reference_digits(word@),
            d.len() == cut - first,
            forall|k: int| 0 <= k < d.len() ==> d[k] == word@[first + k],
            forall|k: int| 0 <= k < i - first ==> is_digit(#[trigger] d[k]),
            value == decimal(d.subrange(0, i - first)),
            value <= u32::MAX,
        decreases cut - i,
    {
        let b: u8 = word[i];
        if !is_digit_byte(b) {
            proof {
                assert(!is_digit(d[i - first]));
            }
            return None;
        }
        let ghost longer = d.subrange(0, i - first + 1);
        proof {
            assert(longer.drop_last() =~= d.subrange(0, i - first));
            assert(longer.last() == b);
        }
        value = value * 10 + (b - 48) as u64;
        if value > 0xFFFF_FFFF {
            proof {
                if all_digits(d) {
                    lemma_decimal_grows(d, i - first + 1);
                }
            }
            return None;
        }
        i = i + 1;
    }
    proof {
        assert(d.subrange(0, i - first) =~= d);
    }
    if value == 0 {
        return None;
    }
    Some(value as u32)
}

} // verus!
