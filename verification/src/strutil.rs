//! Verified string helpers shared by the validators and parsers.
//!
//! Exec code works character-by-character through `vstd`'s string
//! operations; the spec functions here give the mathematical meaning
//! (splitting, trimming, searching) that the parser contracts use.

use vstd::prelude::*;
use vstd::string::*;

verus! {

/// ASCII whitespace, as trimmed from field values.
pub open spec fn is_ws_char(c: char) -> bool {
    c == ' ' || c == '\t' || c == '\n' || c == '\r'
}

/// Decimal digit.
pub open spec fn is_digit_char(c: char) -> bool {
    '0' <= c && c <= '9'
}

/// Index of the first occurrence of `d` in `s`, or `s.len()` if absent.
pub open spec fn first_index_of(s: Seq<char>, d: char) -> int
    decreases s.len(),
{
    if s.len() == 0 {
        0
    } else if s[0] == d {
        0
    } else {
        1 + first_index_of(s.drop_first(), d)
    }
}

/// `first_index_of` is a position in `0 ..= s.len()`; no earlier character
/// equals `d`, and the position itself holds `d` unless it is `s.len()`.
pub proof fn lemma_first_index_of(s: Seq<char>, d: char)
    ensures
        0 <= first_index_of(s, d) <= s.len(),
        forall|k: int| 0 <= k < first_index_of(s, d) ==> s[k] != d,
        first_index_of(s, d) < s.len() ==> s[first_index_of(s, d)] == d,
    decreases s.len(),
{
    if s.len() > 0 && s[0] != d {
        lemma_first_index_of(s.drop_first(), d);
        assert forall|k: int| 0 <= k < first_index_of(s, d) implies s[k] != d by {
            if k > 0 {
                assert(s.drop_first()[k - 1] == s[k]);
            }
        }
        if first_index_of(s, d) < s.len() {
            assert(s.drop_first()[first_index_of(s, d) - 1] == s[first_index_of(s, d)]);
        }
    }
}

/// The first index is determined by its two properties.
pub proof fn lemma_first_index_of_is(s: Seq<char>, d: char, i: int)
    requires
        0 <= i <= s.len(),
        forall|k: int| 0 <= k < i ==> s[k] != d,
        i < s.len() ==> s[i] == d,
    ensures
        first_index_of(s, d) == i,
    decreases s.len(),
{
    if s.len() == 0 {
    } else if s[0] == d {
    } else {
        assert(s[0] != d);
        assert(i != 0);
        assert forall|k: int| 0 <= k < i - 1 implies s.drop_first()[k] != d by {
            assert(s.drop_first()[k] == s[k + 1]);
        }
        if i - 1 < s.drop_first().len() {
            assert(s.drop_first()[i - 1] == s[i]);
        }
        lemma_first_index_of_is(s.drop_first(), d, i - 1);
    }
}

/// `s` contains the character `c`.
pub open spec fn contains_char(s: Seq<char>, c: char) -> bool {
    exists|i: int| 0 <= i < s.len() && s[i] == c
}

/// `s` contains `sub` as a contiguous subsequence.
pub open spec fn contains_seq(s: Seq<char>, sub: Seq<char>) -> bool {
    exists|i: int| 0 <= i && i + sub.len() <= s.len() && #[trigger] s.subrange(i, i + sub.len()) == sub
}

/// `s` begins with `pre`.
pub open spec fn starts_with(s: Seq<char>, pre: Seq<char>) -> bool {
    s.len() >= pre.len() && s.subrange(0, pre.len() as int) == pre
}

/// The pieces of `s` between occurrences of the delimiter `d`, in order.
/// Always at least one piece; delimiters themselves are dropped.
pub open spec fn split_on(s: Seq<char>, d: char) -> Seq<Seq<char>>
    decreases s.len(),
{
    let i = first_index_of(s, d);
    if 0 <= i < s.len() {
        seq![s.subrange(0, i)] + split_on(s.subrange(i + 1, s.len() as int), d)
    } else {
        seq![s]
    }
}

/// Splitting yields at least one piece.
pub proof fn lemma_split_on_len(s: Seq<char>, d: char)
    ensures
        split_on(s, d).len() >= 1,
    decreases s.len(),
{
    lemma_first_index_of(s, d);
    let i = first_index_of(s, d);
    if i != s.len() {
        lemma_split_on_len(s.subrange(i + 1, s.len() as int), d);
    }
}

/// Segments joined with a separator character.
pub open spec fn join_with(ps: Seq<Seq<char>>, d: char) -> Seq<char>
    decreases ps.len(),
{
    if ps.len() == 0 {
        Seq::empty()
    } else if ps.len() == 1 {
        ps[0]
    } else {
        join_with(ps.drop_last(), d) + seq![d] + ps.last()
    }
}

/// `s` with leading whitespace removed.
pub open spec fn trim_front(s: Seq<char>) -> Seq<char>
    decreases s.len(),
{
    if s.len() > 0 && is_ws_char(s[0]) {
        trim_front(s.drop_first())
    } else {
        s
    }
}

/// `s` with trailing whitespace removed.
pub open spec fn trim_back(s: Seq<char>) -> Seq<char>
    decreases s.len(),
{
    if s.len() > 0 && is_ws_char(s.last()) {
        trim_back(s.drop_last())
    } else {
        s
    }
}

/// `s` with whitespace removed from both ends.
pub open spec fn trim_spec(s: Seq<char>) -> Seq<char> {
    trim_back(trim_front(s))
}

/// If the first `i` characters are whitespace and the `i`-th is not,
/// the front-trimmed string is the suffix from `i`.
pub proof fn lemma_trim_front_is(s: Seq<char>, i: int)
    requires
        0 <= i <= s.len(),
        forall|k: int| 0 <= k < i ==> is_ws_char(s[k]),
        i < s.len() ==> !is_ws_char(s[i]),
    ensures
        trim_front(s) =~= s.subrange(i, s.len() as int),
    decreases s.len(),
{
    if s.len() == 0 {
    } else if is_ws_char(s[0]) {
        assert(i > 0 || !is_ws_char(s[0]) == false);
        if i == 0 {
            assert(!is_ws_char(s[0]));
        }
        assert forall|k: int| 0 <= k < i - 1 implies is_ws_char(s.drop_first()[k]) by {
            assert(s.drop_first()[k] == s[k + 1]);
        }
        if i - 1 < s.drop_first().len() {
            assert(s.drop_first()[i - 1] == s[i]);
        }
        lemma_trim_front_is(s.drop_first(), i - 1);
    } else {
        if i > 0 {
            assert(is_ws_char(s[0]));
        }
    }
}

/// If the characters after position `j` are whitespace and the `j`-th is
/// not (when present), the back-trimmed string is the prefix up to `j + 1`.
pub proof fn lemma_trim_back_is(s: Seq<char>, j: int)
    requires
        0 <= j + 1 <= s.len(),
        forall|k: int| j < k < s.len() ==> is_ws_char(s[k]),
        0 <= j ==> !is_ws_char(s[j]),
    ensures
        trim_back(s) =~= s.subrange(0, j + 1),
    decreases s.len(),
{
    if s.len() == 0 {
    } else if is_ws_char(s.last()) {
        assert(j < s.len() - 1);
        assert forall|k: int| j < k < s.drop_last().len() implies is_ws_char(s.drop_last()[k]) by {
            assert(s.drop_last()[k] == s[k]);
        }
        if 0 <= j {
            assert(s.drop_last()[j] == s[j]);
        }
        lemma_trim_back_is(s.drop_last(), j);
    } else {
        assert(j == s.len() - 1);
    }
}

/// Index of the first position where `sub` occurs in `s`, or `s.len()`
/// if it occurs nowhere.
pub open spec fn first_match_of(s: Seq<char>, sub: Seq<char>) -> int
    decreases s.len(),
{
    if starts_with(s, sub) {
        0
    } else if s.len() == 0 {
        0
    } else {
        1 + first_match_of(s.drop_first(), sub)
    }
}

/// `first_match_of` is in `0 ..= s.len()`; no earlier position matches,
/// and a match begins there unless the position is `s.len()`.
pub proof fn lemma_first_match_of(s: Seq<char>, sub: Seq<char>)
    requires
        sub.len() > 0,
    ensures
        0 <= first_match_of(s, sub) <= s.len(),
        forall|k: int|
            0 <= k < first_match_of(s, sub) && k + sub.len() <= s.len() ==> #[trigger] s.subrange(
                k,
                k + sub.len(),
            ) != sub,
        first_match_of(s, sub) < s.len() ==> first_match_of(s, sub) + sub.len() <= s.len()
            && s.subrange(first_match_of(s, sub), first_match_of(s, sub) + sub.len()) == sub,
    decreases s.len(),
{
    if starts_with(s, sub) {
    } else if s.len() == 0 {
    } else {
        lemma_first_match_of(s.drop_first(), sub);
        let f = first_match_of(s, sub);
        assert forall|k: int|
            0 <= k < f && k + sub.len() <= s.len() implies #[trigger] s.subrange(k, k + sub.len())
            != sub by {
            if k == 0 {
                assert(s.subrange(0, sub.len() as int) != sub);
            } else {
                assert(s.subrange(k, k + sub.len()) =~= s.drop_first().subrange(
                    k - 1,
                    k - 1 + sub.len(),
                ));
            }
        }
        if f < s.len() {
            assert(s.drop_first().subrange(f - 1, f - 1 + sub.len()) =~= s.subrange(
                f,
                f + sub.len(),
            ));
        }
    }
}

/// The first match position is determined by its two properties.
pub proof fn lemma_first_match_of_is(s: Seq<char>, sub: Seq<char>, i: int)
    requires
        sub.len() > 0,
        0 <= i <= s.len(),
        forall|k: int|
            0 <= k < i && k + sub.len() <= s.len() ==> #[trigger] s.subrange(k, k + sub.len())
                != sub,
        i < s.len() ==> i + sub.len() <= s.len() && s.subrange(i, i + sub.len()) == sub,
    ensures
        first_match_of(s, sub) == i,
    decreases s.len(),
{
    if starts_with(s, sub) {
        assert(s.subrange(0, sub.len() as int) == sub);
        if i > 0 {
            assert(s.subrange(0, 0 + sub.len() as int) != sub);
            assert(false);
        }
    } else if s.len() == 0 {
    } else {
        if s.len() >= sub.len() {
            assert(s.subrange(0, sub.len() as int) != sub);
        }
        assert(i != 0);
        let t = s.drop_first();
        assert forall|k: int|
            0 <= k < i - 1 && k + sub.len() <= t.len() implies #[trigger] t.subrange(
            k,
            k + sub.len(),
        ) != sub by {
            assert(t.subrange(k, k + sub.len()) =~= s.subrange(k + 1, k + 1 + sub.len()));
        }
        if i - 1 < t.len() {
            assert(t.subrange(i - 1, i - 1 + sub.len()) =~= s.subrange(i, i + sub.len()));
        }
        lemma_first_match_of_is(t, sub, i - 1);
    }
}

/// The numeric value of a decimal digit character (0 for non-digits).
pub open spec fn digit_val(c: char) -> int {
    if c == '0' {
        0
    } else if c == '1' {
        1
    } else if c == '2' {
        2
    } else if c == '3' {
        3
    } else if c == '4' {
        4
    } else if c == '5' {
        5
    } else if c == '6' {
        6
    } else if c == '7' {
        7
    } else if c == '8' {
        8
    } else if c == '9' {
        9
    } else {
        0
    }
}

/// The decimal digit character for a value below ten ('0' otherwise).
pub open spec fn digit_char_of(d: int) -> char {
    if d == 0 {
        '0'
    } else if d == 1 {
        '1'
    } else if d == 2 {
        '2'
    } else if d == 3 {
        '3'
    } else if d == 4 {
        '4'
    } else if d == 5 {
        '5'
    } else if d == 6 {
        '6'
    } else if d == 7 {
        '7'
    } else if d == 8 {
        '8'
    } else if d == 9 {
        '9'
    } else {
        '0'
    }
}

/// Digit characters and their values convert back and forth.
pub proof fn lemma_digit_roundtrip(c: char, d: int)
    ensures
        is_digit_char(c) ==> digit_char_of(digit_val(c)) == c,
        0 <= d < 10 ==> digit_val(digit_char_of(d)) == d && is_digit_char(digit_char_of(d)),
{
}

/// The number written by a sequence of decimal digits, most significant
/// first.
pub open spec fn seq_num(s: Seq<char>) -> int
    decreases s.len(),
{
    if s.len() == 0 {
        0
    } else {
        10 * seq_num(s.drop_last()) + digit_val(s.last())
    }
}

/// A digit string of length `n` writes a number below `10^n`; here up to
/// four digits, which covers every field a date holds.
pub proof fn lemma_seq_num_bound(s: Seq<char>)
    requires
        s.len() <= 4,
    ensures
        0 <= seq_num(s),
        s.len() <= 1 ==> seq_num(s) < 10,
        s.len() <= 2 ==> seq_num(s) < 100,
        s.len() <= 3 ==> seq_num(s) < 1000,
        s.len() <= 4 ==> seq_num(s) < 10000,
    decreases s.len(),
{
    if s.len() > 0 {
        lemma_seq_num_bound(s.drop_last());
    }
}

/// The digit at a position, read off a two-digit number.
pub proof fn lemma_seq_num_2(s: Seq<char>)
    requires
        s.len() == 2,
    ensures
        seq_num(s) == 10 * digit_val(s[0]) + digit_val(s[1]),
{
    let s1 = s.drop_last();
    assert(s1.drop_last() =~= Seq::<char>::empty());
    assert(seq_num(s1.drop_last()) == 0);
    assert(seq_num(s1) == digit_val(s1.last()));
    assert(s1.last() == s[0]);
    assert(s.last() == s[1]);
}

/// The digits of a four-digit number, read off its value.
pub proof fn lemma_seq_num_4(s: Seq<char>)
    requires
        s.len() == 4,
    ensures
        seq_num(s) == 1000 * digit_val(s[0]) + 100 * digit_val(s[1]) + 10 * digit_val(s[2])
            + digit_val(s[3]),
{
    let s3 = s.drop_last();
    let s2 = s3.drop_last();
    let s1 = s2.drop_last();
    assert(s1.drop_last() =~= Seq::<char>::empty());
    assert(seq_num(s1.drop_last()) == 0);
    assert(seq_num(s1) == digit_val(s1.last()));
    assert(seq_num(s2) == 10 * seq_num(s1) + digit_val(s2.last()));
    assert(seq_num(s3) == 10 * seq_num(s2) + digit_val(s3.last()));
    assert(s1.last() == s[0]);
    assert(s2.last() == s[1]);
    assert(s3.last() == s[2]);
    assert(s.last() == s[3]);
}

/// A filtered sequence keeps the first element that satisfies the
/// predicate at its front when everything is kept from the front.
pub proof fn lemma_filter_first<A>(s: Seq<A>, pred: spec_fn(A) -> bool)
    requires
        s.len() > 0,
        pred(s[0]),
    ensures
        s.filter(pred).len() > 0,
        s.filter(pred)[0] == s[0],
    decreases s.len(),
{
    reveal(Seq::filter);
    if s.len() == 1 {
        assert(s.drop_last().len() == 0);
        assert(s.last() == s[0]);
    } else {
        let d = s.drop_last();
        assert(d[0] == s[0]);
        lemma_filter_first(d, pred);
    }
}

/// Filtering keeps nothing when no element satisfies the predicate.
pub proof fn lemma_filter_none<A>(s: Seq<A>, pred: spec_fn(A) -> bool)
    requires
        forall|k: int| 0 <= k < s.len() ==> !pred(#[trigger] s[k]),
    ensures
        s.filter(pred).len() == 0,
    decreases s.len(),
{
    reveal(Seq::filter);
    if s.len() > 0 {
        assert forall|k: int| 0 <= k < s.drop_last().len() implies !pred(
            #[trigger] s.drop_last()[k],
        ) by {
            assert(s.drop_last()[k] == s[k]);
        }
        lemma_filter_none(s.drop_last(), pred);
        assert(!pred(s.last()));
    }
}

/// The last element satisfying the predicate, with nothing after it,
/// ends the filtered sequence.
pub proof fn lemma_filter_last<A>(s: Seq<A>, pred: spec_fn(A) -> bool, j: int)
    requires
        0 <= j < s.len(),
        pred(s[j]),
        forall|k: int| j < k < s.len() ==> !pred(#[trigger] s[k]),
    ensures
        s.filter(pred).len() > 0,
        s.filter(pred).last() == s[j],
    decreases s.len(),
{
    reveal(Seq::filter);
    if j == s.len() - 1 {
        assert(s.last() == s[j]);
    } else {
        let d = s.drop_last();
        assert(d[j] == s[j]);
        assert forall|k: int| j < k < d.len() implies !pred(#[trigger] d[k]) by {
            assert(d[k] == s[k]);
        }
        lemma_filter_last(d, pred, j);
        assert(!pred(s.last()));
    }
}

/// `s` with trailing ASCII whitespace removed.
pub fn trim_end_slice<'a>(s: &'a str) -> (r: &'a str)
    ensures
        r@ == trim_back(s@),
{
    let n = s.unicode_len();
    let mut j: usize = n;
    while j > 0 && is_ws(s.get_char(j - 1))
        invariant
            0 <= j <= n,
            n == s@.len(),
            forall|k: int| j <= k < n ==> is_ws_char(s@[k]),
        decreases j,
    {
        j -= 1;
    }
    proof {
        lemma_trim_back_is(s@, j - 1);
        assert(trim_back(s@) =~= s@.subrange(0, j as int));
    }
    s.substring_char(0, j)
}

/// Relies on `String::push`: appends exactly one character.
#[verifier::external_body]
pub fn push_char(s: &mut String, c: char)
    ensures
        final(s)@ == old(s)@ + seq![c],
{
    s.push(c);
}

/// The digit value of `c`, or `None` for any other character.
pub fn char_digit(c: char) -> (r: Option<u32>)
    ensures
        r is Some <==> is_digit_char(c),
        r is Some ==> r->0 == digit_val(c),
{
    match c {
        '0' => Some(0),
        '1' => Some(1),
        '2' => Some(2),
        '3' => Some(3),
        '4' => Some(4),
        '5' => Some(5),
        '6' => Some(6),
        '7' => Some(7),
        '8' => Some(8),
        '9' => Some(9),
        _ => None,
    }
}

/// Appends the decimal digit character for `d`.
pub fn push_digit(s: &mut String, d: u32)
    requires
        d < 10,
    ensures
        final(s)@ == old(s)@ + seq![digit_char_of(d as int)],
{
    match d {
        0 => push_char(s, '0'),
        1 => push_char(s, '1'),
        2 => push_char(s, '2'),
        3 => push_char(s, '3'),
        4 => push_char(s, '4'),
        5 => push_char(s, '5'),
        6 => push_char(s, '6'),
        7 => push_char(s, '7'),
        8 => push_char(s, '8'),
        _ => push_char(s, '9'),
    }
}

/// The number written by the digits of `s` between `from` and `to`,
/// or `None` if any character there is not a digit.
pub fn parse_num(s: &str, from: usize, to: usize) -> (r: Option<u32>)
    requires
        from <= to <= s@.len(),
        to - from <= 4,
    ensures
        r is Some <==> forall|k: int| from <= k < to ==> is_digit_char(s@[k]),
        r is Some ==> r->0 == seq_num(s@.subrange(from as int, to as int)),
{
    let mut acc: u32 = 0;
    let mut k: usize = from;
    while k < to
        invariant
            from <= k <= to <= s@.len(),
            to - from <= 4,
            forall|j: int| from <= j < k ==> is_digit_char(s@[j]),
            acc == seq_num(s@.subrange(from as int, k as int)),
            acc < 10000,
        decreases to - k,
    {
        let c = s.get_char(k);
        match char_digit(c) {
            None => {
                return None;
            },
            Some(d) => {
                proof {
                    let pre = s@.subrange(from as int, k as int);
                    let nxt = s@.subrange(from as int, k + 1 as int);
                    assert(nxt.drop_last() =~= pre);
                    assert(nxt.last() == s@[k as int]);
                    lemma_seq_num_bound(pre);
                }
                acc = acc * 10 + d;
                k += 1;
            },
        }
    }
    proof {
        lemma_seq_num_bound(s@.subrange(from as int, to as int));
    }
    Some(acc)
}

/// Index of the first occurrence of `d` in `s`, or the length of `s`.
pub fn find_char(s: &str, d: char) -> (r: usize)
    ensures
        r == first_index_of(s@, d),
{
    let n = s.unicode_len();
    let mut i: usize = 0;
    while i < n
        invariant
            0 <= i <= n,
            n == s@.len(),
            forall|k: int| 0 <= k < i ==> s@[k] != d,
        decreases n - i,
    {
        if s.get_char(i) == d {
            proof {
                lemma_first_index_of_is(s@, d, i as int);
            }
            return i;
        }
        i += 1;
    }
    proof {
        lemma_first_index_of_is(s@, d, n as int);
    }
    n
}

/// Whether `s` begins with `pre`.
pub fn starts_with_str(s: &str, pre: &str) -> (r: bool)
    ensures
        r == starts_with(s@, pre@),
{
    let n = s.unicode_len();
    let m = pre.unicode_len();
    if m > n {
        return false;
    }
    let mut j: usize = 0;
    while j < m
        invariant
            0 <= j <= m <= n,
            n == s@.len(),
            m == pre@.len(),
            forall|k: int| 0 <= k < j ==> s@[k] == pre@[k],
        decreases m - j,
    {
        if s.get_char(j) != pre.get_char(j) {
            assert(s@.subrange(0, m as int)[j as int] != pre@[j as int]);
            return false;
        }
        j += 1;
    }
    proof {
        assert(s@.subrange(0, m as int) =~= pre@);
    }
    true
}

/// Index of the first position where `sub` begins in `s`, or the length
/// of `s` if `sub` occurs nowhere.
pub fn find_sub(s: &str, sub: &str) -> (r: usize)
    requires
        sub@.len() > 0,
    ensures
        r == first_match_of(s@, sub@),
{
    let n = s.unicode_len();
    let m = sub.unicode_len();
    if m > n {
        proof {
            lemma_first_match_of_is(s@, sub@, n as int);
        }
        return n;
    }
    let mut i: usize = 0;
    while i <= n - m
        invariant
            0 <= i <= n,
            n == s@.len(),
            m == sub@.len(),
            0 < m <= n,
            forall|k: int|
                0 <= k < i && k + m <= n ==> #[trigger] s@.subrange(k, k + m as int) != sub@,
        decreases n - i,
    {
        let mut j: usize = 0;
        let mut matched = true;
        while j < m
            invariant
                0 <= j <= m,
                i + m <= n,
                n == s@.len(),
                m == sub@.len(),
                matched ==> forall|k: int| 0 <= k < j ==> s@[i + k] == sub@[k],
                !matched ==> s@.subrange(i as int, i + m as int) != sub@,
            decreases m - j,
        {
            if s.get_char(i + j) != sub.get_char(j) {
                assert(s@.subrange(i as int, i + m as int)[j as int] != sub@[j as int]);
                matched = false;
                j = m;
            } else {
                j += 1;
            }
        }
        if matched {
            proof {
                assert(s@.subrange(i as int, i + m as int) =~= sub@);
                lemma_first_match_of_is(s@, sub@, i as int);
            }
            return i;
        }
        i += 1;
    }
    proof {
        lemma_first_match_of_is(s@, sub@, n as int);
    }
    n
}

/// Whether `sub` occurs anywhere in `s`.
pub fn contains_sub(s: &str, sub: &str) -> (r: bool)
    requires
        sub@.len() > 0,
    ensures
        r == contains_seq(s@, sub@),
{
    let n = s.unicode_len();
    let f = find_sub(s, sub);
    proof {
        lemma_first_match_of(s@, sub@);
    }
    f < n
}

/// `s` with ASCII whitespace removed from both ends.
pub fn trim_slice<'a>(s: &'a str) -> (r: &'a str)
    ensures
        r@ == trim_spec(s@),
{
    let n = s.unicode_len();
    let mut i: usize = 0;
    while i < n && is_ws(s.get_char(i))
        invariant
            0 <= i <= n,
            n == s@.len(),
            forall|k: int| 0 <= k < i ==> is_ws_char(s@[k]),
        decreases n - i,
    {
        i += 1;
    }
    proof {
        lemma_trim_front_is(s@, i as int);
    }
    if i == n {
        let r = s.substring_char(i, n);
        proof {
            assert(trim_front(s@) =~= Seq::<char>::empty());
            assert(trim_back(trim_front(s@)) =~= Seq::<char>::empty());
        }
        return r;
    }
    let mut j: usize = n - 1;
    while j > i && is_ws(s.get_char(j))
        invariant
            i <= j < n,
            n == s@.len(),
            !is_ws_char(s@[i as int]),
            forall|k: int| j < k < n ==> is_ws_char(s@[k]),
        decreases j,
    {
        j -= 1;
    }
    proof {
        let t = s@.subrange(i as int, n as int);
        assert forall|k: int| (j - i) < k < t.len() implies is_ws_char(t[k]) by {
            assert(t[k] == s@[i + k]);
        }
        assert(t[j - i] == s@[j as int]);
        lemma_trim_back_is(t, j - i);
        assert(t.subrange(0, j - i + 1) =~= s@.subrange(i as int, j + 1 as int));
    }
    s.substring_char(i, j + 1)
}

/// Whether `c` is ASCII whitespace.
pub fn is_ws(c: char) -> (r: bool)
    ensures
        r == is_ws_char(c),
{
    c == ' ' || c == '\t' || c == '\n' || c == '\r'
}

/// The pieces of `s` between occurrences of `d`, in order.
pub fn split_str(s: &str, d: char) -> (r: Vec<String>)
    ensures
        r@.map_values(|p: String| p@) == split_on(s@, d),
        r@.len() >= 1,
{
    let n = s.unicode_len();
    let mut pieces: Vec<String> = Vec::new();
    let mut start: usize = 0;
    let mut i: usize = 0;
    proof {
        assert(s@.subrange(0, n as int) =~= s@);
        assert(pieces@.map_values(|p: String| p@) =~= Seq::<Seq<char>>::empty());
        assert(Seq::<Seq<char>>::empty() + split_on(s@, d) =~= split_on(s@, d));
    }
    while i < n
        invariant
            0 <= start <= i <= n,
            n == s@.len(),
            pieces@.map_values(|p: String| p@) + split_on(
                s@.subrange(start as int, n as int),
                d,
            ) =~= split_on(s@, d),
            forall|k: int| start <= k < i ==> s@[k] != d,
        decreases n - i,
    {
        if s.get_char(i) == d {
            let ghost old_pieces = pieces@;
            let piece = String::from_str(s.substring_char(start, i));
            pieces.push(piece);
            proof {
                lemma_split_on_at(s@, d, start as int, i as int);
                assert(pieces@.map_values(|p: String| p@) =~= old_pieces.map_values(
                    |p: String| p@,
                ) + seq![s@.subrange(start as int, i as int)]);
                lemma_split_on_len(s@.subrange(i + 1 as int, n as int), d);
            }
            start = i + 1;
        }
        i += 1;
    }
    let ghost old_pieces = pieces@;
    let piece = String::from_str(s.substring_char(start, n));
    pieces.push(piece);
    proof {
        lemma_split_on_at(s@, d, start as int, n as int);
        assert(pieces@.map_values(|p: String| p@) =~= old_pieces.map_values(|p: String| p@)
            + seq![s@.subrange(start as int, n as int)]);
        lemma_split_on_len(s@, d);
    }
    pieces
}

/// Unfolds `split_on` of the suffix of `s` beginning at `start`, when the
/// next delimiter at or after `start` sits at `i` (or is absent).
pub proof fn lemma_split_on_at(s: Seq<char>, d: char, start: int, i: int)
    requires
        0 <= start <= i <= s.len(),
        forall|k: int| start <= k < i ==> s[k] != d,
        i < s.len() ==> s[i] == d,
    ensures
        i < s.len() ==> split_on(s.subrange(start, s.len() as int), d) =~= seq![
            s.subrange(start, i),
        ] + split_on(s.subrange(i + 1, s.len() as int), d),
        i == s.len() ==> split_on(s.subrange(start, s.len() as int), d) =~= seq![
            s.subrange(start, i),
        ],
{
    let t = s.subrange(start, s.len() as int);
    assert forall|k: int| 0 <= k < i - start implies t[k] != d by {
        assert(t[k] == s[start + k]);
    }
    if i - start < t.len() {
        assert(t[i - start] == s[i]);
    }
    lemma_first_index_of_is(t, d, i - start);
    if i < s.len() {
        assert(t.subrange(0, i - start) =~= s.subrange(start, i));
        assert(t.subrange(i - start + 1, t.len() as int) =~= s.subrange(i + 1, s.len() as int));
    } else {
        assert(t.subrange(0, i - start) =~= t);
    }
}

/// Character-for-character string equality.
pub fn str_eq(a: &str, b: &str) -> (r: bool)
    ensures
        r == (a@ == b@),
{
    let alen = a.unicode_len();
    let blen = b.unicode_len();
    if alen != blen {
        assert(a@ != b@);
        return false;
    }
    let mut i: usize = 0;
    while i < alen
        invariant
            alen == a@.len(),
            alen == b@.len(),
            0 <= i <= alen,
            forall|k: int| 0 <= k < i ==> a@[k] == b@[k],
        decreases alen - i,
    {
        if a.get_char(i) != b.get_char(i) {
            return false;
        }
        i += 1;
    }
    proof {
        assert(a@ =~= b@);
    }
    true
}

} // verus!
