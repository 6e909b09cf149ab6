//! Operations on text held as sequences of characters: search, replacement,
//! splitting into lines, and reading and writing decimal numbers.
use vstd::prelude::*;

verus! {

// ---------------------------------------------------------------------------
// Specifications
// ---------------------------------------------------------------------------

/// `d` occurs in `s` starting at position `i`.
pub open spec fn occurs_at(s: Seq<char>, d: Seq<char>, i: int) -> bool {
    &&& 0 <= i
    &&& i + d.len() <= s.len()
    &&& s.subrange(i, i + d.len()) == d
}

/// The first position at or after `i` where `d` occurs in `s`.
pub open spec fn find_from(s: Seq<char>, d: Seq<char>, i: int) -> Option<int>
    decreases s.len() - i,
{
    if i < 0 || i + d.len() > s.len() {
        None
    } else if d.len() == 0 || s.subrange(i, i + d.len()) =~= d {
        Some(i)
    } else {
        find_from(s, d, i + 1)
    }
}

/// `d` occurs somewhere in `s`.
pub open spec fn contains(s: Seq<char>, d: Seq<char>) -> bool {
    find_from(s, d, 0) is Some
}

/// The text of `s` before the first occurrence of `d`, or all of `s` when `d` does not occur.
pub open spec fn before_first(s: Seq<char>, d: Seq<char>) -> Seq<char> {
    match find_from(s, d, 0) {
        Some(k) => s.subrange(0, k),
        None => s,
    }
}

/// The text of `s` after the first occurrence of `d`, or nothing when `d` does not occur.
pub open spec fn after_first(s: Seq<char>, d: Seq<char>) -> Seq<char> {
    match find_from(s, d, 0) {
        Some(k) => s.subrange(k + d.len(), s.len() as int),
        None => Seq::empty(),
    }
}

/// Replacement of the occurrences of `p` in `s` from position `i` on: the leftmost occurrence
/// is replaced first, and the search goes on after it, so occurrences do not overlap.
/// An empty pattern leaves the text as it is.
pub open spec fn replace_from(s: Seq<char>, p: Seq<char>, r: Seq<char>, i: int) -> Seq<char>
    decreases s.len() - i,
{
    if i < 0 || i >= s.len() {
        Seq::empty()
    } else if p.len() > 0 && occurs_at(s, p, i) {
        r + replace_from(s, p, r, i + p.len())
    } else {
        seq![s[i]] + replace_from(s, p, r, i + 1)
    }
}

/// `p` occurs in `s` at position `i`, and the guard `g` (when it is not empty) does not.
pub open spec fn occurs_unguarded(s: Seq<char>, p: Seq<char>, g: Seq<char>, i: int) -> bool {
    occurs_at(s, p, i) && !(g.len() > 0 && occurs_at(s, g, i))
}

/// `p` occurs in `s` somewhere that the guard `g` does not.
pub open spec fn contains_unguarded(s: Seq<char>, p: Seq<char>, g: Seq<char>) -> bool {
    exists|i: int| #[trigger] occurs_unguarded(s, p, g, i)
}

/// Like `replace_from`, but an occurrence of `p` at which the guard `g` occurs too is kept.
/// An empty guard keeps nothing.
pub open spec fn replace_guarded_from(
    s: Seq<char>,
    p: Seq<char>,
    g: Seq<char>,
    r: Seq<char>,
    i: int,
) -> Seq<char>
    decreases s.len() - i,
{
    if i < 0 || i >= s.len() {
        Seq::empty()
    } else if p.len() > 0 && occurs_unguarded(s, p, g, i) {
        r + replace_guarded_from(s, p, g, r, i + p.len())
    } else {
        seq![s[i]] + replace_guarded_from(s, p, g, r, i + 1)
    }
}

/// `s` with every occurrence of `p` replaced by `r`, scanning from left to right.
pub open spec fn replace_all(s: Seq<char>, p: Seq<char>, r: Seq<char>) -> Seq<char> {
    replace_from(s, p, r, 0)
}

/// The position of the first line feed at or after `i`, or the length of `s` when there is none.
pub open spec fn next_line_feed(s: Seq<char>, i: int) -> int
    decreases s.len() - i,
{
    if i < 0 || i >= s.len() {
        s.len() as int
    } else if s[i] == '\n' {
        i
    } else {
        next_line_feed(s, i + 1)
    }
}

/// A line with one carriage return removed from its end, if it has one there.
pub open spec fn strip_carriage_return(t: Seq<char>) -> Seq<char> {
    if t.len() > 0 && t.last() == '\r' {
        t.drop_last()
    } else {
        t
    }
}

/// The lines of `s` from position `i` on. A line ends at a line feed, which is not part of it;
/// a line that ends at a line feed also loses one carriage return before it. A last line
/// without a line feed is kept as it is, and text that ends with a line feed has no empty
/// line after it.
pub open spec fn lines_from(s: Seq<char>, i: int) -> Seq<Seq<char>>
    decreases s.len() - i,
{
    if i < 0 || i >= s.len() {
        Seq::empty()
    } else {
        let k = next_line_feed(s, i);
        if k < s.len() {
            proof {
                lemma_next_line_feed_bounds(s, i);
            }
            seq![strip_carriage_return(s.subrange(i, k))] + lines_from(s, k + 1)
        } else {
            seq![s.subrange(i, s.len() as int)]
        }
    }
}

/// The lines of `s`, as `str::lines` yields them.
pub open spec fn lines_of(s: Seq<char>) -> Seq<Seq<char>> {
    lines_from(s, 0)
}

/// `c` is one of the ASCII digits.
pub open spec fn is_ascii_digit(c: char) -> bool {
    '0' <= c && c <= '9'
}

/// The number that a sequence of ASCII digits writes in base ten.
pub open spec fn digits_value(d: Seq<char>) -> int
    decreases d.len(),
{
    if d.len() == 0 {
        0
    } else {
        digits_value(d.drop_last()) * 10 + (d.last() as int - '0' as int)
    }
}

/// The digits of an unsigned number: the text after one leading plus sign, if there is one.
pub open spec fn unsigned_digits(s: Seq<char>) -> Seq<char> {
    if s.len() > 0 && s[0] == '+' {
        s.skip(1)
    } else {
        s
    }
}

/// What `u32::from_str` gives for `s`: an optional plus sign, then one or more ASCII digits
/// whose value fits in 32 bits.
pub open spec fn parse_u32_spec(s: Seq<char>) -> Option<u32> {
    if unsigned_digits(s).len() > 0 && all_digits(unsigned_digits(s)) && digits_value(
        unsigned_digits(s),
    ) <= u32::MAX {
        Some(digits_value(unsigned_digits(s)) as u32)
    } else {
        None
    }
}

/// Every character of `d` is an ASCII digit.
pub open spec fn all_digits(d: Seq<char>) -> bool {
    forall|j: int| 0 <= j < d.len() ==> #[trigger] is_ascii_digit(d[j])
}

/// The ASCII digit for a value below ten.
pub open spec fn digit_char(n: nat) -> char {
    ('0' as nat + n) as char
}

/// The decimal notation of `n`, without leading zeros.
pub open spec fn decimal(n: nat) -> Seq<char>
    decreases n,
{
    if n < 10 {
        seq![digit_char(n)]
    } else {
        decimal(n / 10).push(digit_char(n % 10))
    }
}

// ---------------------------------------------------------------------------
// Lemmas
// ---------------------------------------------------------------------------

/// The first line feed at or after `i` lies between `i` and the end of `s`.
pub proof fn lemma_next_line_feed_bounds(s: Seq<char>, i: int)
    requires
        0 <= i <= s.len(),
    ensures
        i <= next_line_feed(s, i) <= s.len(),
        next_line_feed(s, i) < s.len() ==> s[next_line_feed(s, i)] == '\n',
    decreases s.len() - i,
{
    if i < s.len() && s[i] != '\n' {
        lemma_next_line_feed_bounds(s, i + 1);
    }
}

/// With no line feed in `s[i..k]`, the first line feed at or after `i` is the first at or after `k`.
pub proof fn lemma_next_line_feed_skip(s: Seq<char>, i: int, k: int)
    requires
        0 <= i <= k <= s.len(),
        forall|j: int| i <= j < k ==> s[j] != '\n',
    ensures
        next_line_feed(s, i) == next_line_feed(s, k),
    decreases k - i,
{
    if i < k {
        lemma_next_line_feed_skip(s, i + 1, k);
    }
}

/// `find_from` gives the first occurrence at or after `i`, and `None` only when there is none.
pub proof fn lemma_find_from(s: Seq<char>, d: Seq<char>, i: int)
    requires
        0 <= i,
    ensures
        match find_from(s, d, i) {
            Some(k) => i <= k && occurs_at(s, d, k) && forall|j: int|
                i <= j < k ==> !#[trigger] occurs_at(s, d, j),
            None => forall|j: int| i <= j ==> !#[trigger] occurs_at(s, d, j),
        },
    decreases s.len() - i,
{
    if i + d.len() > s.len() {
    } else if d.len() == 0 || s.subrange(i, i + d.len()) =~= d {
        assert(s.subrange(i, i + d.len()) =~= d);
    } else {
        lemma_find_from(s, d, i + 1);
    }
}

/// Text in which the pattern does not occur from `i` on is copied unchanged by `replace_from`.
proof fn lemma_replace_from_absent(s: Seq<char>, p: Seq<char>, r: Seq<char>, i: int)
    requires
        0 <= i <= s.len(),
        forall|j: int| i <= j ==> !#[trigger] occurs_at(s, p, j),
    ensures
        replace_from(s, p, r, i) == s.subrange(i, s.len() as int),
    decreases s.len() - i,
{
    if i < s.len() {
        lemma_replace_from_absent(s, p, r, i + 1);
        assert(seq![s[i]] + s.subrange(i + 1, s.len() as int) =~= s.subrange(i, s.len() as int));
    } else {
        assert(s.subrange(i, s.len() as int) =~= Seq::<char>::empty());
    }
}

/// Replacing a pattern that does not occur in a text leaves the text as it is.
pub proof fn law_replace_absent_pattern(s: Seq<char>, p: Seq<char>, r: Seq<char>)
    requires
        !contains(s, p),
    ensures
        replace_all(s, p, r) == s,
{
    lemma_find_from(s, p, 0);
    lemma_replace_from_absent(s, p, r, 0);
    assert(s.subrange(0, s.len() as int) =~= s);
}

/// A pattern does not occur in a text that lacks the pattern's first character.
pub proof fn lemma_absent_first_char(s: Seq<char>, p: Seq<char>)
    requires
        p.len() > 0,
        !s.contains(p[0]),
    ensures
        !contains(s, p),
{
    lemma_find_from(s, p, 0);
    if let Some(k) = find_from(s, p, 0) {
        assert(s.subrange(k, k + p.len())[0] == s[k]);
        assert(s[k] == p[0]);
    }
}

/// A replacement introduces no character that `bad` rejects when the replacement text holds
/// none, and every rejected character of the text from `i` on starts an occurrence of the
/// pattern.
pub proof fn lemma_replace_avoids(
    s: Seq<char>,
    p: Seq<char>,
    r: Seq<char>,
    i: int,
    bad: spec_fn(char) -> bool,
)
    requires
        0 <= i,
        forall|k: int| 0 <= k < r.len() ==> !bad(#[trigger] r[k]),
        forall|j: int| i <= j < s.len() && #[trigger] bad(s[j]) ==> p.len() > 0 && occurs_at(s, p, j),
    ensures
        forall|k: int|
            0 <= k < replace_from(s, p, r, i).len() ==> !bad(#[trigger] replace_from(s, p, r, i)[k]),
    decreases s.len() - i,
{
    if i < s.len() {
        let out = replace_from(s, p, r, i);
        if p.len() > 0 && occurs_at(s, p, i) {
            lemma_replace_avoids(s, p, r, i + p.len(), bad);
            let rest = replace_from(s, p, r, i + p.len());
            assert forall|k: int| 0 <= k < out.len() implies !bad(#[trigger] out[k]) by {
                if k < r.len() {
                    assert(out[k] == r[k]);
                } else {
                    assert(out[k] == rest[k - r.len()]);
                }
            }
        } else {
            lemma_replace_avoids(s, p, r, i + 1, bad);
            let rest = replace_from(s, p, r, i + 1);
            assert forall|k: int| 0 <= k < out.len() implies !bad(#[trigger] out[k]) by {
                if k == 0 {
                    assert(out[k] == s[i]);
                } else {
                    assert(out[k] == rest[k - 1]);
                }
            }
        }
    }
}

/// How guarded replacement starts from position `i`: it copies `t` characters of `s` first,
/// and when `t < m` it then writes the replacement for an occurrence of the pattern at `i + t`.
pub proof fn lemma_guarded_prefix(
    s: Seq<char>,
    p: Seq<char>,
    g: Seq<char>,
    r: Seq<char>,
    i: int,
    m: int,
) -> (t: int)
    requires
        0 <= i <= s.len(),
        0 <= m,
        p.len() > 0,
        r.len() > 0,
        m <= replace_guarded_from(s, p, g, r, i).len() || i + m <= s.len(),
    ensures
        0 <= t <= m,
        i + t <= s.len(),
        t <= replace_guarded_from(s, p, g, r, i).len(),
        forall|x: int| 0 <= x < t ==> #[trigger] replace_guarded_from(s, p, g, r, i)[x] == s[i + x],
        t < m ==> t < replace_guarded_from(s, p, g, r, i).len() && replace_guarded_from(
            s,
            p,
            g,
            r,
            i,
        )[t] == r[0] && occurs_unguarded(s, p, g, i + t),
    decreases s.len() - i,
{
    let out = replace_guarded_from(s, p, g, r, i);
    if m == 0 {
        0
    } else if occurs_unguarded(s, p, g, i) {
        assert(out[0] == r[0]);
        0
    } else {
        let rest = replace_guarded_from(s, p, g, r, i + 1);
        assert(out =~= seq![s[i]] + rest);
        let t = lemma_guarded_prefix(s, p, g, r, i + 1, m - 1);
        assert forall|x: int| 0 <= x < t + 1 implies #[trigger] out[x] == s[i + x] by {
            if x > 0 {
                assert(out[x] == rest[x - 1]);
            }
        }
        if t < m - 1 {
            assert(out[t + 1] == rest[t]);
        }
        t + 1
    }
}

/// Guarded replacement creates no unguarded occurrence of a pattern `q` (with guard `h`), and
/// leaves none behind, under conditions on characters: `tail` holds of every character of `q`
/// but the first and of none of the replacement `r`; `q` neither starts with the last
/// character of `r` nor, when it has one character, occurs in `r`; a guard's characters after
/// the first satisfy `tail` while the pattern's first does not; and each unguarded occurrence
/// of `q` in `s` from `i` on is one that gets replaced.
pub proof fn lemma_guarded_replace_leaves_no_occurrence(
    s: Seq<char>,
    p: Seq<char>,
    g: Seq<char>,
    r: Seq<char>,
    i: int,
    q: Seq<char>,
    h: Seq<char>,
    tail: spec_fn(char) -> bool,
)
    requires
        0 <= i <= s.len(),
        p.len() > 0,
        r.len() > 0,
        q.len() > 0,
        forall|m: int| 1 <= m < q.len() ==> #[trigger] tail(q[m]),
        forall|m: int| 0 <= m < r.len() ==> !#[trigger] tail(r[m]),
        q[0] != r.last(),
        q.len() == 1 ==> forall|m: int| 0 <= m < r.len() ==> #[trigger] r[m] != q[0],
        h.len() > 0 ==> !tail(p[0]) && forall|m: int| 1 <= m < h.len() ==> #[trigger] tail(h[m]),
        forall|j: int| i <= j && #[trigger] occurs_unguarded(s, q, h, j) ==> occurs_unguarded(s, p, g, j),
    ensures
        forall|k: int| !#[trigger] occurs_unguarded(replace_guarded_from(s, p, g, r, i), q, h, k),
    decreases s.len() - i,
{
    let out = replace_guarded_from(s, p, g, r, i);
    if i >= s.len() {
        assert forall|k: int| !#[trigger] occurs_unguarded(out, q, h, k) by {
        }
    } else if occurs_unguarded(s, p, g, i) {
        let n = i + p.len();
        lemma_guarded_replace_leaves_no_occurrence(s, p, g, r, n, q, h, tail);
        let rest = replace_guarded_from(s, p, g, r, n);
        assert(out =~= r + rest);
        assert forall|k: int| !#[trigger] occurs_unguarded(out, q, h, k) by {
            if occurs_unguarded(out, q, h, k) {
                let w = out.subrange(k, k + q.len());
                if k >= r.len() {
                    let k2 = k - r.len();
                    assert(w =~= rest.subrange(k2, k2 + q.len()));
                    if h.len() > 0 && k2 + h.len() <= rest.len() {
                        assert(out.subrange(k, k + h.len()) =~= rest.subrange(k2, k2 + h.len()));
                    }
                    assert(occurs_unguarded(rest, q, h, k2));
                } else {
                    assert(w[0] == out[k]);
                    assert(out[k] == r[k]);
                    if q.len() == 1 {
                        assert(r[k] != q[0]);
                    } else if k + 1 < r.len() {
                        assert(w[1] == out[k + 1]);
                        assert(out[k + 1] == r[k + 1]);
                        assert(tail(q[1]));
                        assert(!tail(r[k + 1]));
                    } else {
                        assert(r.last() == r[k]);
                    }
                }
            }
        }
    } else {
        lemma_guarded_replace_leaves_no_occurrence(s, p, g, r, i + 1, q, h, tail);
        let rest = replace_guarded_from(s, p, g, r, i + 1);
        assert(out =~= seq![s[i]] + rest);
        assert forall|k: int| !#[trigger] occurs_unguarded(out, q, h, k) by {
            if occurs_unguarded(out, q, h, k) {
                let w = out.subrange(k, k + q.len());
                if k >= 1 {
                    let k2 = k - 1;
                    assert(w =~= rest.subrange(k2, k2 + q.len()));
                    if h.len() > 0 && k2 + h.len() <= rest.len() {
                        assert(out.subrange(k, k + h.len()) =~= rest.subrange(k2, k2 + h.len()));
                    }
                    assert(occurs_unguarded(rest, q, h, k2));
                } else {
                    let t = lemma_guarded_prefix(s, p, g, r, i, q.len() as int);
                    if t < q.len() {
                        assert(t != 0);
                        assert(w[t] == out[t]);
                        assert(tail(q[t]));
                        assert(!tail(r[0]));
                    } else {
                        assert(s.subrange(i, i + q.len()) =~= q) by {
                            assert forall|x: int| 0 <= x < q.len() implies s.subrange(
                                i,
                                i + q.len(),
                            )[x] == q[x] by {
                                assert(out[x] == s[i + x]);
                                assert(w[x] == out[x]);
                            }
                        }
                        if h.len() > 0 && occurs_at(s, h, i) {
                            let t2 = lemma_guarded_prefix(s, p, g, r, i, h.len() as int);
                            if t2 < h.len() {
                                assert(t2 != 0);
                                assert(s.subrange(i + t2, i + t2 + p.len())[0] == s[i + t2]);
                                assert(s.subrange(i, i + h.len())[t2] == s[i + t2]);
                                assert(tail(h[t2]));
                            } else {
                                assert(out.subrange(0, h.len() as int) =~= h) by {
                                    assert forall|x: int| 0 <= x < h.len() implies out.subrange(
                                        0,
                                        h.len() as int,
                                    )[x] == h[x] by {
                                        assert(out[x] == s[i + x]);
                                        assert(s.subrange(i, i + h.len())[x] == s[i + x]);
                                    }
                                }
                            }
                        }
                        assert(occurs_unguarded(s, q, h, i));
                    }
                }
            }
        }
    }
}

/// A prefix of an all-digit sequence never has a larger value than the whole.
pub proof fn lemma_digits_value_prefix(d: Seq<char>, k: int)
    requires
        0 <= k <= d.len(),
        forall|j: int| 0 <= j < d.len() ==> #[trigger] is_ascii_digit(d[j]),
    ensures
        0 <= digits_value(d.take(k)) <= digits_value(d),
    decreases d.len(),
{
    if d.len() > 0 {
        let e = d.drop_last();
        assert forall|j: int| 0 <= j < e.len() implies #[trigger] is_ascii_digit(e[j]) by {
            assert(e[j] == d[j]);
        }
        lemma_digits_value_prefix(e, e.len() as int);
        assert(e.take(e.len() as int) =~= e);
        assert(is_ascii_digit(d[d.len() - 1]));
        assert(digits_value(d) >= digits_value(e));
        if k == d.len() {
            assert(d.take(k) =~= d);
        } else {
            lemma_digits_value_prefix(e, k);
            assert(e.take(k) =~= d.take(k));
        }
    } else {
        assert(d.take(k) =~= d);
    }
}

/// The value of a digit sequence grows by one digit at a time.
pub proof fn lemma_digits_value_push(d: Seq<char>, c: char)
    ensures
        digits_value(d.push(c)) == digits_value(d) * 10 + (c as int - '0' as int),
{
    assert(d.push(c).drop_last() =~= d);
}

// ---------------------------------------------------------------------------
// Bracket groups
// ---------------------------------------------------------------------------

/// `c` is a square bracket.
pub open spec fn is_bracket(c: char) -> bool {
    c == '[' || c == ']'
}

/// `w` is one bracket group: an opening bracket, characters other than brackets, and a closing
/// bracket.
pub open spec fn is_bracket_word(w: Seq<char>) -> bool {
    &&& w.len() >= 2
    &&& w[0] == '['
    &&& w.last() == ']'
    &&& forall|m: int| 1 <= m < w.len() - 1 ==> !is_bracket(#[trigger] w[m])
}

/// The position of the first bracket at or after `i`, or the length of `s` when there is none.
pub open spec fn next_bracket(s: Seq<char>, i: int) -> int
    decreases s.len() - i,
{
    if i < 0 || i >= s.len() {
        s.len() as int
    } else if is_bracket(s[i]) {
        i
    } else {
        next_bracket(s, i + 1)
    }
}

/// From position `i` on, the brackets of `s` pair up into bracket groups (none inside
/// another), and `ok` holds of each group.
pub open spec fn groups_from(s: Seq<char>, i: int, ok: spec_fn(Seq<char>) -> bool) -> bool
    decreases s.len() - i,
{
    if i < 0 || i >= s.len() {
        true
    } else if s[i] == ']' {
        false
    } else if s[i] != '[' {
        groups_from(s, i + 1, ok)
    } else {
        let k = next_bracket(s, i + 1);
        proof {
            lemma_next_bracket_bounds(s, i + 1);
        }
        if k < s.len() && s[k] == ']' {
            ok(s.subrange(i, k + 1)) && groups_from(s, k + 1, ok)
        } else {
            false
        }
    }
}

/// The first bracket at or after `i` lies between `i` and the end of `s`, and none comes
/// before it.
pub proof fn lemma_next_bracket_bounds(s: Seq<char>, i: int)
    requires
        0 <= i <= s.len(),
    ensures
        i <= next_bracket(s, i) <= s.len(),
        next_bracket(s, i) < s.len() ==> is_bracket(s[next_bracket(s, i)]),
        forall|m: int| i <= m < next_bracket(s, i) ==> !is_bracket(#[trigger] s[m]),
    decreases s.len() - i,
{
    if i < s.len() && !is_bracket(s[i]) {
        lemma_next_bracket_bounds(s, i + 1);
    }
}

/// A bracket at `k` with none in `s[i..k]` is the first bracket at or after `i`.
proof fn lemma_next_bracket_is(s: Seq<char>, i: int, k: int)
    requires
        0 <= i <= k < s.len(),
        is_bracket(s[k]),
        forall|m: int| i <= m < k ==> !is_bracket(#[trigger] s[m]),
    ensures
        next_bracket(s, i) == k,
    decreases k - i,
{
    if i < k {
        lemma_next_bracket_is(s, i + 1, k);
    }
}

/// Text put in front does not change where the next bracket of the rest is.
proof fn lemma_next_bracket_shift(y: Seq<char>, x: Seq<char>, j: int)
    requires
        0 <= j <= x.len(),
    ensures
        next_bracket(y + x, y.len() + j) == y.len() + next_bracket(x, j),
    decreases x.len() - j,
{
    if j < x.len() {
        assert((y + x)[y.len() + j] == x[j]);
        if !is_bracket(x[j]) {
            lemma_next_bracket_shift(y, x, j + 1);
        }
    }
}

/// Text put in front does not change the groups of the rest.
proof fn lemma_groups_shift(y: Seq<char>, x: Seq<char>, j: int, ok: spec_fn(Seq<char>) -> bool)
    requires
        0 <= j <= x.len(),
    ensures
        groups_from(y + x, y.len() + j, ok) == groups_from(x, j, ok),
    decreases x.len() - j,
{
    if j < x.len() {
        let s = y + x;
        let a = y.len() + j;
        assert(s[a] == x[j]);
        if x[j] == ']' {
        } else if x[j] != '[' {
            lemma_groups_shift(y, x, j + 1, ok);
        } else {
            lemma_next_bracket_shift(y, x, j + 1);
            lemma_next_bracket_bounds(x, j + 1);
            let k = next_bracket(x, j + 1);
            if k < x.len() {
                assert(s[y.len() + k] == x[k]);
                assert(s.subrange(a, y.len() + k + 1) =~= x.subrange(j, k + 1));
                lemma_groups_shift(y, x, k + 1, ok);
            }
        }
    }
}

/// A character other than a bracket put in front keeps the groups.
proof fn lemma_groups_prepend_char(c: char, rest: Seq<char>, ok: spec_fn(Seq<char>) -> bool)
    requires
        !is_bracket(c),
        groups_from(rest, 0, ok),
    ensures
        groups_from(seq![c] + rest, 0, ok),
{
    lemma_groups_shift(seq![c], rest, 0, ok);
}

/// A group of which `ok` holds, put in front, keeps the groups.
proof fn lemma_groups_prepend_word(w: Seq<char>, rest: Seq<char>, ok: spec_fn(Seq<char>) -> bool)
    requires
        is_bracket_word(w),
        ok(w),
        groups_from(rest, 0, ok),
    ensures
        groups_from(w + rest, 0, ok),
{
    let s = w + rest;
    let k = w.len() - 1;
    assert forall|m: int| 1 <= m < k implies !is_bracket(#[trigger] s[m]) by {
        assert(s[m] == w[m]);
    }
    assert(s[k] == w[k]);
    lemma_next_bracket_is(s, 1, k);
    assert(s.subrange(0, k + 1) =~= w);
    lemma_groups_shift(w, rest, 0, ok);
}

/// An occurrence of a bracket group at `i` opens at `i` and closes at the next bracket.
proof fn lemma_word_closes(s: Seq<char>, p: Seq<char>, i: int)
    requires
        is_bracket_word(p),
        occurs_at(s, p, i),
    ensures
        s[i] == '[',
        next_bracket(s, i + 1) == i + p.len() - 1,
{
    let w = s.subrange(i, i + p.len());
    assert forall|m: int| i + 1 <= m < i + p.len() - 1 implies !is_bracket(#[trigger] s[m]) by {
        assert(w[m - i] == s[m]);
        assert(p[m - i] == s[m]);
    }
    assert(w[p.len() - 1] == s[i + p.len() - 1]);
    assert(w[0] == s[i]);
    lemma_next_bracket_is(s, i + 1, i + p.len() - 1);
}

/// Where the pattern does not occur in `s[i..n]`, replacement copies that text as it is.
proof fn lemma_replace_from_copies(s: Seq<char>, p: Seq<char>, r: Seq<char>, i: int, n: int)
    requires
        0 <= i <= n <= s.len(),
        forall|j: int| i <= j < n ==> !#[trigger] occurs_at(s, p, j),
    ensures
        replace_from(s, p, r, i) == s.subrange(i, n) + replace_from(s, p, r, n),
    decreases n - i,
{
    if i < n {
        lemma_replace_from_copies(s, p, r, i + 1, n);
        assert(s.subrange(i, n) =~= seq![s[i]] + s.subrange(i + 1, n));
        assert(replace_from(s, p, r, i) =~= s.subrange(i, n) + replace_from(s, p, r, n));
    } else {
        assert(s.subrange(i, n) + replace_from(s, p, r, n) =~= replace_from(s, p, r, n));
    }
}

/// Removing every occurrence of one bracket group keeps the brackets of the rest paired up:
/// the groups left are those of `s` other than `p`, so `ok2` holds of them where it holds of
/// each group of `s` but `p`.
pub proof fn lemma_remove_group(
    s: Seq<char>,
    p: Seq<char>,
    i: int,
    ok: spec_fn(Seq<char>) -> bool,
    ok2: spec_fn(Seq<char>) -> bool,
)
    requires
        0 <= i <= s.len(),
        is_bracket_word(p),
        groups_from(s, i, ok),
        forall|w: Seq<char>| ok(w) && w != p ==> #[trigger] ok2(w),
    ensures
        groups_from(replace_from(s, p, Seq::empty(), i), 0, ok2),
    decreases s.len() - i,
{
    let e = Seq::<char>::empty();
    if i < s.len() {
        if occurs_at(s, p, i) {
            lemma_word_closes(s, p, i);
            lemma_remove_group(s, p, i + p.len(), ok, ok2);
            assert(replace_from(s, p, e, i) =~= replace_from(s, p, e, i + p.len()));
        } else if s[i] != '[' {
            lemma_remove_group(s, p, i + 1, ok, ok2);
            lemma_groups_prepend_char(s[i], replace_from(s, p, e, i + 1), ok2);
        } else {
            lemma_next_bracket_bounds(s, i + 1);
            let k = next_bracket(s, i + 1);
            let w = s.subrange(i, k + 1);
            assert forall|m: int| 1 <= m < w.len() - 1 implies !is_bracket(#[trigger] w[m]) by {
                assert(w[m] == s[i + m]);
            }
            assert(is_bracket_word(w));
            if w == p {
                assert(occurs_at(s, p, i));
            }
            assert forall|j: int| i <= j < k + 1 implies !#[trigger] occurs_at(s, p, j) by {
                if j > i && occurs_at(s, p, j) {
                    assert(s.subrange(j, j + p.len())[0] == s[j]);
                }
            }
            lemma_replace_from_copies(s, p, e, i, k + 1);
            lemma_remove_group(s, p, k + 1, ok, ok2);
            lemma_groups_prepend_word(w, replace_from(s, p, e, k + 1), ok2);
        }
    }
}

/// An occurrence in `x` is one in `y + x`, moved by the length of `y`.
proof fn lemma_occurs_shift(y: Seq<char>, x: Seq<char>, w: Seq<char>, k: int)
    requires
        occurs_at(x, w, k),
    ensures
        occurs_at(y + x, w, y.len() + k),
{
    assert((y + x).subrange(y.len() + k, y.len() + k + w.len()) =~= x.subrange(k, k + w.len()));
}

/// Removing every occurrence of one bracket group keeps each other bracket group that occurs
/// in `s` from `i` on.
pub proof fn lemma_remove_group_keeps(
    s: Seq<char>,
    p: Seq<char>,
    i: int,
    ok: spec_fn(Seq<char>) -> bool,
    w: Seq<char>,
    j: int,
) -> (k: int)
    requires
        0 <= i <= j,
        is_bracket_word(p),
        is_bracket_word(w),
        w != p,
        groups_from(s, i, ok),
        occurs_at(s, w, j),
    ensures
        occurs_at(replace_from(s, p, Seq::empty(), i), w, k),
    decreases s.len() - i,
{
    let e = Seq::<char>::empty();
    lemma_word_closes(s, w, j);
    if occurs_at(s, p, i) {
        lemma_word_closes(s, p, i);
        if j == i {
            assert(s.subrange(i, i + p.len()) =~= s.subrange(j, j + w.len()));
        }
        if j < i + p.len() {
            assert(s.subrange(i, i + p.len())[j - i] == s[j]);
            assert(p[j - i] == s[j]);
        }
        let k = lemma_remove_group_keeps(s, p, i + p.len(), ok, w, j);
        assert(replace_from(s, p, e, i) =~= replace_from(s, p, e, i + p.len()));
        k
    } else if s[i] != '[' {
        let k = lemma_remove_group_keeps(s, p, i + 1, ok, w, j);
        lemma_occurs_shift(seq![s[i]], replace_from(s, p, e, i + 1), w, k);
        k + 1
    } else {
        lemma_next_bracket_bounds(s, i + 1);
        let c = next_bracket(s, i + 1);
        let g = s.subrange(i, c + 1);
        assert forall|m: int| i <= m < c + 1 implies !#[trigger] occurs_at(s, p, m) by {
            if m > i && occurs_at(s, p, m) {
                assert(s.subrange(m, m + p.len())[0] == s[m]);
            }
        }
        lemma_replace_from_copies(s, p, e, i, c + 1);
        let rest = replace_from(s, p, e, c + 1);
        if j == i {
            assert(g =~= w);
            assert((g + rest).subrange(0, w.len() as int) =~= w);
            0
        } else {
            let k = lemma_remove_group_keeps(s, p, c + 1, ok, w, j);
            lemma_occurs_shift(g, rest, w, k);
            g.len() + k
        }
    }
}

/// A bracket group that occurs in `s` from `i` on is one of its groups, so `ok` holds of it.
pub proof fn lemma_group_occurrence_ok(
    s: Seq<char>,
    i: int,
    ok: spec_fn(Seq<char>) -> bool,
    w: Seq<char>,
    j: int,
)
    requires
        0 <= i <= j,
        groups_from(s, i, ok),
        is_bracket_word(w),
        occurs_at(s, w, j),
    ensures
        ok(w),
    decreases s.len() - i,
{
    lemma_word_closes(s, w, j);
    if s[i] != '[' {
        lemma_group_occurrence_ok(s, i + 1, ok, w, j);
    } else {
        lemma_next_bracket_bounds(s, i + 1);
        let k = next_bracket(s, i + 1);
        if i == j {
            assert(s.subrange(i, k + 1) =~= w);
        } else {
            lemma_group_occurrence_ok(s, k + 1, ok, w, j);
        }
    }
}

/// Where `ok` holds of no group, `s` holds no bracket from `i` on.
pub proof fn lemma_no_groups_no_brackets(s: Seq<char>, i: int, ok: spec_fn(Seq<char>) -> bool)
    requires
        0 <= i,
        groups_from(s, i, ok),
        forall|w: Seq<char>| !#[trigger] ok(w),
    ensures
        forall|j: int| i <= j < s.len() ==> !is_bracket(#[trigger] s[j]),
    decreases s.len() - i,
{
    if i < s.len() {
        if s[i] == '[' {
            lemma_next_bracket_bounds(s, i + 1);
            let k = next_bracket(s, i + 1);
            assert(!ok(s.subrange(i, k + 1)));
        } else {
            lemma_no_groups_no_brackets(s, i + 1, ok);
        }
    }
}

// ---------------------------------------------------------------------------
// Executable operations
// ---------------------------------------------------------------------------

/// The characters of a string slice, in order.
pub fn to_chars(s: &str) -> (v: Vec<char>)
    ensures
        v@ == s@,
{
    let mut v: Vec<char> = Vec::new();
    for c in it: s.chars()
        invariant
            v@ == it.seq().take(it.index() as int),
    {
        v.push(c);
    }
    v
}

/// A string made of the given characters.
///
/// Trusted: collects the characters through `FromIterator<char>` for `String`, which std
/// documents as appending each character in turn.
#[verifier::external_body]
pub(crate) fn from_chars(v: &[char]) -> (s: String)
    ensures
        s@ == v@,
{
    v.iter().collect()
}

/// Copies `s[a..b]`.
pub fn copy_range(s: &[char], a: usize, b: usize) -> (v: Vec<char>)
    requires
        a <= b <= s@.len(),
    ensures
        v@ == s@.subrange(a as int, b as int),
{
    let mut v: Vec<char> = Vec::new();
    let mut i = a;
    while i < b
        invariant
            a <= i <= b <= s@.len(),
            v@ == s@.subrange(a as int, i as int),
        decreases b - i,
    {
        v.push(s[i]);
        i = i + 1;
        assert(v@ =~= s@.subrange(a as int, i as int));
    }
    v
}

/// Appends all of `r` to `out`.
pub fn push_all(out: &mut Vec<char>, r: &[char])
    ensures
        final(out)@ == old(out)@ + r@,
{
    let mut i: usize = 0;
    while i < r.len()
        invariant
            i <= r@.len(),
            out@ == old(out)@ + r@.subrange(0, i as int),
        decreases r@.len() - i,
    {
        out.push(r[i]);
        i = i + 1;
        assert(out@ =~= old(out)@ + r@.subrange(0, i as int));
    }
    assert(r@.subrange(0, r@.len() as int) =~= r@);
}

/// Whether `d` occurs in `s` at position `i`.
pub fn occurs_at_exec(s: &[char], d: &[char], i: usize) -> (b: bool)
    ensures
        b == occurs_at(s@, d@, i as int),
{
    let slen = s.len();
    if i > slen || d.len() > slen - i {
        return false;
    }
    let mut j: usize = 0;
    while j < d.len()
        invariant
            slen == s@.len(),
            i <= s@.len(),
            i + d@.len() <= s@.len(),
            j <= d@.len(),
            forall|k: int| 0 <= k < j ==> s@[i + k] == d@[k],
        decreases d@.len() - j,
    {
        if s[i + j] != d[j] {
            assert(s@.subrange(i as int, i + d@.len())[j as int] != d@[j as int]);
            return false;
        }
        j = j + 1;
    }
    assert(s@.subrange(i as int, i + d@.len()) =~= d@);
    true
}

/// The first position at or after `start` where `d` occurs in `s`.
pub fn find_from_exec(s: &[char], d: &[char], start: usize) -> (r: Option<usize>)
    ensures
        r matches Some(k) ==> find_from(s@, d@, start as int) == Some(k as int),
        r is None ==> find_from(s@, d@, start as int) is None,
{
    let mut i = start;
    while i <= s.len() && d.len() <= s.len() - i
        invariant
            start <= i,
            find_from(s@, d@, start as int) == find_from(s@, d@, i as int),
        decreases s@.len() + 1 - i,
    {
        if occurs_at_exec(s, d, i) {
            assert(s@.subrange(i as int, i + d@.len()) =~= d@);
            return Some(i);
        }
        proof {
            if d@.len() == 0 {
                assert(s@.subrange(i as int, i as int) =~= d@);
            }
        }
        assert(!(s@.subrange(i as int, i + d@.len()) =~= d@));
        assert(find_from(s@, d@, i as int) == find_from(s@, d@, i + 1));
        i = i + 1;
    }
    None
}

/// Whether `d` occurs in `s`.
pub fn contains_exec(s: &[char], d: &[char]) -> (b: bool)
    ensures
        b == contains(s@, d@),
{
    find_from_exec(s, d, 0).is_some()
}

/// The text of `s` before the first occurrence of `d`, or all of `s`.
pub fn before_first_exec(s: &[char], d: &[char]) -> (v: Vec<char>)
    ensures
        v@ == before_first(s@, d@),
{
    match find_from_exec(s, d, 0) {
        Some(k) => {
            proof {
                lemma_find_from(s@, d@, 0);
            }
            copy_range(s, 0, k)
        },
        None => copy_range(s, 0, s.len()),
    }
}

/// The text of `s` after the first occurrence of `d`, or nothing.
pub fn after_first_exec(s: &[char], d: &[char]) -> (v: Vec<char>)
    ensures
        v@ == after_first(s@, d@),
{
    match find_from_exec(s, d, 0) {
        Some(k) => {
            proof {
                lemma_find_from(s@, d@, 0);
            }
            assert(occurs_at(s@, d@, k as int));
            let n = s.len();
            copy_range(s, k + d.len(), n)
        },
        None => Vec::new(),
    }
}

/// `s` with every occurrence of `p` replaced by `r`, as `str::replace` does it.
pub fn replace_exec(s: &[char], p: &[char], r: &[char]) -> (out: Vec<char>)
    requires
        p@.len() > 0,
    ensures
        out@ == replace_all(s@, p@, r@),
{
    let mut out: Vec<char> = Vec::new();
    let mut i: usize = 0;
    while i < s.len()
        invariant
            p@.len() > 0,
            i <= s@.len(),
            replace_all(s@, p@, r@) == out@ + replace_from(s@, p@, r@, i as int),
        decreases s@.len() - i,
    {
        let ghost before = out@;
        if occurs_at_exec(s, p, i) {
            push_all(&mut out, r);
            assert(before + replace_from(s@, p@, r@, i as int) =~= out@ + replace_from(
                s@,
                p@,
                r@,
                i + p@.len(),
            ));
            i = i + p.len();
        } else {
            out.push(s[i]);
            assert(before + replace_from(s@, p@, r@, i as int) =~= out@ + replace_from(
                s@,
                p@,
                r@,
                i + 1,
            ));
            i = i + 1;
        }
    }
    assert(out@ + replace_from(s@, p@, r@, i as int) =~= out@);
    out
}

/// `s` with every occurrence of `p` at which the guard `g` does not occur replaced by `r`.
pub fn replace_guarded_exec(s: &[char], p: &[char], g: &[char], r: &[char]) -> (out: Vec<char>)
    requires
        p@.len() > 0,
    ensures
        out@ == replace_guarded_from(s@, p@, g@, r@, 0),
{
    let mut out: Vec<char> = Vec::new();
    let mut i: usize = 0;
    while i < s.len()
        invariant
            p@.len() > 0,
            i <= s@.len(),
            replace_guarded_from(s@, p@, g@, r@, 0) == out@ + replace_guarded_from(
                s@,
                p@,
                g@,
                r@,
                i as int,
            ),
        decreases s@.len() - i,
    {
        let ghost before = out@;
        if occurs_at_exec(s, p, i) && !(g.len() > 0 && occurs_at_exec(s, g, i)) {
            push_all(&mut out, r);
            assert(before + replace_guarded_from(s@, p@, g@, r@, i as int) =~= out@
                + replace_guarded_from(s@, p@, g@, r@, i + p@.len()));
            i = i + p.len();
        } else {
            out.push(s[i]);
            assert(before + replace_guarded_from(s@, p@, g@, r@, i as int) =~= out@
                + replace_guarded_from(s@, p@, g@, r@, i + 1));
            i = i + 1;
        }
    }
    assert(out@ + replace_guarded_from(s@, p@, g@, r@, i as int) =~= out@);
    out
}

/// Whether `p` occurs in `s` somewhere that the guard `g` does not.
pub fn contains_unguarded_exec(s: &[char], p: &[char], g: &[char]) -> (b: bool)
    ensures
        b == contains_unguarded(s@, p@, g@),
{
    let n = s.len();
    let mut i: usize = 0;
    while i < n
        invariant
            n == s@.len(),
            i <= n,
            forall|j: int| 0 <= j < i ==> !#[trigger] occurs_unguarded(s@, p@, g@, j),
        decreases n - i,
    {
        if occurs_at_exec(s, p, i) && !(g.len() > 0 && occurs_at_exec(s, g, i)) {
            assert(occurs_unguarded(s@, p@, g@, i as int));
            return true;
        }
        i = i + 1;
    }
    if occurs_at_exec(s, p, n) && !(g.len() > 0 && occurs_at_exec(s, g, n)) {
        assert(occurs_unguarded(s@, p@, g@, n as int));
        return true;
    }
    assert forall|j: int| !#[trigger] occurs_unguarded(s@, p@, g@, j) by {
        if 0 <= j && j < n {
        }
    }
    false
}

/// Replaces every occurrence of the pattern `p` in `s` by `r`.
pub fn replace_str(s: &[char], p: &str, r: &str) -> (out: Vec<char>)
    requires
        p@.len() > 0,
    ensures
        out@ == replace_all(s@, p@, r@),
{
    let pv = to_chars(p);
    let rv = to_chars(r);
    replace_exec(s, pv.as_slice(), rv.as_slice())
}

/// Whether the pattern `p` occurs in `s`.
pub fn contains_str(s: &[char], p: &str) -> (b: bool)
    ensures
        b == contains(s@, p@),
{
    let pv = to_chars(p);
    contains_exec(s, pv.as_slice())
}

/// Whether two character sequences are equal.
pub fn chars_equal(a: &[char], b: &[char]) -> (r: bool)
    ensures
        r == (a@ == b@),
{
    if a.len() != b.len() {
        return false;
    }
    let mut i: usize = 0;
    while i < a.len()
        invariant
            a@.len() == b@.len(),
            i <= a@.len(),
            forall|k: int| 0 <= k < i ==> a@[k] == b@[k],
        decreases a@.len() - i,
    {
        if a[i] != b[i] {
            return false;
        }
        i = i + 1;
    }
    assert(a@ =~= b@);
    true
}

/// The character sequences that a sequence of character vectors holds.
pub open spec fn char_views(v: Seq<Vec<char>>) -> Seq<Seq<char>> {
    v.map_values(|x: Vec<char>| x@)
}

/// The lines of `s`, as `str::lines` yields them.
pub fn split_lines(s: &[char]) -> (lines: Vec<Vec<char>>)
    ensures
        char_views(lines@) == lines_of(s@),
{
    let mut lines: Vec<Vec<char>> = Vec::new();
    let mut st: usize = 0;
    let mut i: usize = 0;
    while i < s.len()
        invariant
            st <= i <= s@.len(),
            lines_of(s@) == char_views(lines@) + lines_from(s@, st as int),
            forall|j: int| st <= j < i ==> s@[j] != '\n',
        decreases s@.len() - i,
    {
        if s[i] == '\n' {
            let ghost before = char_views(lines@);
            proof {
                lemma_next_line_feed_skip(s@, st as int, i as int);
            }
            let mut line = copy_range(s, st, i);
            if line.len() > 0 && line[line.len() - 1] == '\r' {
                line.pop();
            }
            assert(line@ == strip_carriage_return(s@.subrange(st as int, i as int)));
            lines.push(line);
            assert(char_views(lines@) =~= before.push(
                strip_carriage_return(s@.subrange(st as int, i as int)),
            ));
            assert(lines_of(s@) =~= char_views(lines@) + lines_from(s@, i + 1));
            st = i + 1;
        }
        i = i + 1;
    }
    if st < s.len() {
        let ghost before = char_views(lines@);
        proof {
            lemma_next_line_feed_skip(s@, st as int, s@.len() as int);
        }
        let line = copy_range(s, st, s.len());
        lines.push(line);
        assert(char_views(lines@) =~= before.push(s@.subrange(st as int, s@.len() as int)));
        assert(lines_of(s@) =~= char_views(lines@));
    } else {
        assert(lines_of(s@) =~= char_views(lines@));
    }
    lines
}

/// Reads an unsigned 32-bit number as `u32::from_str` does.
pub fn parse_u32(s: &[char]) -> (r: Option<u32>)
    ensures
        r == parse_u32_spec(s@),
{
    let start: usize = if s.len() > 0 && s[0] == '+' {
        1
    } else {
        0
    };
    let ghost d = unsigned_digits(s@);
    assert(d =~= s@.subrange(start as int, s@.len() as int));
    if start >= s.len() {
        assert(d.len() == 0);
        assert(parse_u32_spec(s@) is None);
        return None;
    }
    // All characters must be digits.
    let mut i = start;
    while i < s.len()
        invariant
            start <= i <= s@.len(),
            d == unsigned_digits(s@),
            d =~= s@.subrange(start as int, s@.len() as int),
            forall|j: int| 0 <= j < i - start ==> #[trigger] is_ascii_digit(d[j]),
        decreases s@.len() - i,
    {
        if !(s[i] >= '0' && s[i] <= '9') {
            assert(!is_ascii_digit(d[i - start]));
            assert(!all_digits(d));
            return None;
        }
        i = i + 1;
    }
    // The value must fit.
    let mut value: u64 = 0;
    let mut i = start;
    while i < s.len()
        invariant
            start <= i <= s@.len(),
            d == unsigned_digits(s@),
            d =~= s@.subrange(start as int, s@.len() as int),
            d.len() > 0,
            forall|j: int| 0 <= j < d.len() ==> #[trigger] is_ascii_digit(d[j]),
            value as int == digits_value(d.take(i - start)),
            value <= u32::MAX,
        decreases s@.len() - i,
    {
        let c = s[i];
        assert(is_ascii_digit(d[i - start]));
        let digit = (c as u32 - '0' as u32) as u64;
        proof {
            assert(d.take(i - start + 1) =~= d.take(i - start).push(c));
            lemma_digits_value_push(d.take(i - start), c);
        }
        assert(digit as int == c as int - '0' as int);
        value = value * 10 + digit;
        i = i + 1;
        assert(value as int == digits_value(d.take(i - start)));
        if value > u32::MAX as u64 {
            proof {
                lemma_digits_value_prefix(d, i - start);
                assert(digits_value(d) > u32::MAX);
            }
            return None;
        }
    }
    assert(d.take(d.len() as int) =~= d);
    Some(value as u32)
}

/// The decimal notation of a byte value.
pub fn decimal_u8(n: u8) -> (v: Vec<char>)
    ensures
        v@ == decimal(n as nat),
{
    let mut v: Vec<char> = Vec::new();
    if n >= 100 {
        v.push(((n / 100) + 48u8) as char);
    }
    if n >= 10 {
        v.push((((n / 10) % 10) + 48u8) as char);
    }
    v.push(((n % 10) + 48u8) as char);
    proof {
        let m = n as nat;
        if m >= 100 {
            assert(decimal(m / 100) =~= seq![digit_char(m / 100)]);
            assert(decimal(m / 10) =~= seq![digit_char(m / 100), digit_char((m / 10) % 10)]);
        } else if m >= 10 {
            assert(decimal(m / 10) =~= seq![digit_char(m / 10)]);
        }
    }
    assert(v@ =~= decimal(n as nat));
    v
}

} // verus!
