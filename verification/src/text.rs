//! Character-level helpers shared by the text heuristics: conversions
//! between strings and character vectors, decimal numbers, whitespace.

use vstd::prelude::*;

verus! {

/// The decimal digit character for `d` (`0 <= d < 10`).
pub open spec fn digit_char(d: int) -> char {
    if d == 0 { '0' } else if d == 1 { '1' } else if d == 2 { '2' } else if d == 3 { '3' }
    else if d == 4 { '4' } else if d == 5 { '5' } else if d == 6 { '6' } else if d == 7 { '7' }
    else if d == 8 { '8' } else { '9' }
}

/// `c` is one of `'0'..='9'`.
pub open spec fn is_digit(c: char) -> bool {
    '0' <= c && c <= '9'
}

/// Numeric value of a digit character.
pub open spec fn digit_value(c: char) -> int {
    (c as int) - ('0' as int)
}

/// Decimal representation of `n` without leading zeros.
pub open spec fn decimal(n: nat) -> Seq<char>
    decreases n,
{
    if n < 10 {
        seq![digit_char(n as int)]
    } else {
        decimal(n / 10).push(digit_char((n % 10) as int))
    }
}

/// Value of a sequence of decimal digits.
pub open spec fn digits_value(s: Seq<char>) -> nat
    decreases s.len(),
{
    if s.len() == 0 {
        0
    } else {
        (digits_value(s.drop_last()) * 10 + digit_value(s.last())) as nat
    }
}

/// Every character of `s` is a decimal digit.
pub open spec fn all_digits(s: Seq<char>) -> bool {
    forall|i: int| 0 <= i < s.len() ==> is_digit(#[trigger] s[i])
}

/// `c` has the Unicode White_Space property (what `char::is_whitespace`
/// tests).
pub open spec fn is_white_space(c: char) -> bool {
    ||| '\u{9}' <= c && c <= '\u{d}'
    ||| c == ' '
    ||| c == '\u{85}'
    ||| c == '\u{a0}'
    ||| c == '\u{1680}'
    ||| '\u{2000}' <= c && c <= '\u{200a}'
    ||| c == '\u{2028}'
    ||| c == '\u{2029}'
    ||| c == '\u{202f}'
    ||| c == '\u{205f}'
    ||| c == '\u{3000}'
}

/// Whitespace test on one character.
pub fn is_whitespace_char(c: char) -> (r: bool)
    ensures
        r == is_white_space(c),
{
    ('\u{9}' <= c && c <= '\u{d}') || c == ' ' || c == '\u{85}' || c == '\u{a0}' || c == '\u{1680}'
        || ('\u{2000}' <= c && c <= '\u{200a}') || c == '\u{2028}' || c == '\u{2029}' || c
        == '\u{202f}' || c == '\u{205f}' || c == '\u{3000}'
}

/// Decimal digit test on one character.
pub fn is_digit_char(c: char) -> (r: bool)
    ensures
        r == is_digit(c),
{
    '0' <= c && c <= '9'
}

/// Appends one character to a string (`String::push`).
#[verifier::external_body]
pub(crate) fn push_char(s: &mut String, c: char)
    ensures
        final(s)@ == old(s)@.push(c),
{
    s.push(c)
}

/// Lower-case form of a text, as `str::to_lowercase` gives it.
pub uninterp spec fn lowercase(s: Seq<char>) -> Seq<char>;

/// `str::to_lowercase`: the Unicode lower-case mapping of `s`.
#[verifier::external_body]
pub(crate) fn to_lowercase(s: &str) -> (r: String)
    ensures
        r@ == lowercase(s@),
{
    s.to_lowercase()
}

/// Equality of two string slices, through `String` equality.
pub(crate) fn str_equal(a: &str, b: &str) -> (r: bool)
    ensures
        r == (a@ == b@),
{
    a.to_owned() == b.to_owned()
}

/// The characters of a string slice, in order.
pub fn chars_of(s: &str) -> (v: Vec<char>)
    ensures
        v@ == s@,
{
    let mut v: Vec<char> = Vec::new();
    for c in it: s.chars()
        invariant
            v@ == it.seq().take(it.index() as int),
            it.seq() == s@,
    {
        v.push(c);
    }
    v
}

/// A string made of the characters `cs[from..to]`.
pub fn string_of_range(cs: &Vec<char>, from: usize, to: usize) -> (s: String)
    requires
        from <= to <= cs@.len(),
    ensures
        s@ == cs@.subrange(from as int, to as int),
{
    let mut s = String::new();
    let mut i = from;
    while i < to
        invariant
            from <= i <= to <= cs@.len(),
            s@ == cs@.subrange(from as int, i as int),
        decreases to - i,
    {
        push_char(&mut s, cs[i]);
        proof {
            assert(cs@.subrange(from as int, i + 1) =~= cs@.subrange(from as int, i as int).push(cs@[i as int]));
        }
        i = i + 1;
    }
    s
}

/// The characters `cs[from..to]`, as a vector.
pub fn sub_vec(cs: &Vec<char>, from: usize, to: usize) -> (v: Vec<char>)
    requires
        from <= to <= cs@.len(),
    ensures
        v@ == cs@.subrange(from as int, to as int),
{
    let mut v: Vec<char> = Vec::new();
    let mut i = from;
    while i < to
        invariant
            from <= i <= to <= cs@.len(),
            v@ == cs@.subrange(from as int, i as int),
        decreases to - i,
    {
        v.push(cs[i]);
        proof {
            assert(cs@.subrange(from as int, i + 1) =~= cs@.subrange(from as int, i as int).push(cs@[i as int]));
        }
        i = i + 1;
    }
    v
}

/// The digit character for `d`.
pub fn digit_to_char(d: usize) -> (c: char)
    requires
        d < 10,
    ensures
        c == digit_char(d as int),
{
    match d {
        0 => '0',
        1 => '1',
        2 => '2',
        3 => '3',
        4 => '4',
        5 => '5',
        6 => '6',
        7 => '7',
        8 => '8',
        _ => '9',
    }
}

/// Appends the decimal representation of `n` to `s`.
pub fn push_decimal(s: &mut String, n: usize)
    ensures
        final(s)@ == old(s)@ + decimal(n as nat),
    decreases n,
{
    if n < 10 {
        push_char(s, digit_to_char(n));
        assert(final(s)@ =~= old(s)@ + decimal(n as nat));
    } else {
        push_decimal(s, n / 10);
        push_char(s, digit_to_char(n % 10));
        assert(final(s)@ =~= old(s)@ + decimal(n as nat));
    }
}

/// `s` without its leading whitespace.
pub open spec fn trim_start(s: Seq<char>) -> Seq<char>
    decreases s.len(),
{
    if s.len() > 0 && is_white_space(s[0]) {
        trim_start(s.drop_first())
    } else {
        s
    }
}

/// `s` without its trailing whitespace.
pub open spec fn trim_end(s: Seq<char>) -> Seq<char>
    decreases s.len(),
{
    if s.len() > 0 && is_white_space(s.last()) {
        trim_end(s.drop_last())
    } else {
        s
    }
}

/// `s` without leading and trailing whitespace (what `str::trim` gives).
pub open spec fn trim(s: Seq<char>) -> Seq<char> {
    trim_end(trim_start(s))
}

proof fn lemma_trim_start_step(cs: Seq<char>, a: int, b: int)
    requires
        0 <= a < b <= cs.len(),
        is_white_space(cs[a]),
    ensures
        trim_start(cs.subrange(a, b)) == trim_start(cs.subrange(a + 1, b)),
{
    assert(cs.subrange(a, b).drop_first() =~= cs.subrange(a + 1, b));
}

proof fn lemma_trim_end_step(cs: Seq<char>, a: int, b: int)
    requires
        0 <= a < b <= cs.len(),
        is_white_space(cs[b - 1]),
    ensures
        trim_end(cs.subrange(a, b)) == trim_end(cs.subrange(a, b - 1)),
{
    assert(cs.subrange(a, b).drop_last() =~= cs.subrange(a, b - 1));
}

/// Bounds of the trimmed part of `cs[from..to]`.
pub fn trim_bounds(cs: &Vec<char>, from: usize, to: usize) -> (r: (usize, usize))
    requires
        from <= to <= cs@.len(),
    ensures
        from <= r.0 <= r.1 <= to,
        cs@.subrange(r.0 as int, r.1 as int) == trim(cs@.subrange(from as int, to as int)),
{
    let mut a = from;
    while a < to && is_whitespace_char(cs[a])
        invariant
            from <= a <= to <= cs@.len(),
            trim_start(cs@.subrange(from as int, to as int)) == trim_start(cs@.subrange(a as int, to as int)),
        decreases to - a,
    {
        proof { lemma_trim_start_step(cs@, a as int, to as int); }
        a = a + 1;
    }
    proof {
        if a < to {
            assert(cs@.subrange(a as int, to as int)[0] == cs@[a as int]);
        }
        assert(trim_start(cs@.subrange(a as int, to as int)) == cs@.subrange(a as int, to as int));
    }
    let mut b = to;
    while b > a && is_whitespace_char(cs[b - 1])
        invariant
            from <= a <= b <= to <= cs@.len(),
            trim(cs@.subrange(from as int, to as int)) == trim_end(cs@.subrange(a as int, b as int)),
        decreases b - a,
    {
        proof { lemma_trim_end_step(cs@, a as int, b as int); }
        b = b - 1;
    }
    proof {
        if b > a {
            assert(cs@.subrange(a as int, b as int).last() == cs@[b - 1]);
        }
    }
    (a, b)
}

/// Index of the first `c` in `cs[from..to]`, if any.
pub fn find_char(cs: &Vec<char>, from: usize, to: usize, c: char) -> (r: Option<usize>)
    requires
        from <= to <= cs@.len(),
    ensures
        match r {
            Some(i) => from <= i < to && cs@[i as int] == c && forall|j: int| from <= j < i ==> cs@[j] != c,
            None => forall|j: int| from <= j < to ==> cs@[j] != c,
        },
{
    let mut i = from;
    while i < to
        invariant
            from <= i <= to <= cs@.len(),
            forall|j: int| from <= j < i ==> cs@[j] != c,
        decreases to - i,
    {
        if cs[i] == c {
            return Some(i);
        }
        i = i + 1;
    }
    None
}

/// Index of the first `c` in `s`.
pub open spec fn first_index(s: Seq<char>, c: char) -> Option<int>
    decreases s.len(),
{
    if s.len() == 0 {
        None
    } else if s[0] == c {
        Some(0)
    } else {
        match first_index(s.drop_first(), c) {
            Some(i) => Some(i + 1),
            None => None,
        }
    }
}

/// `first_index` read off a scan of `cs[from..to]`.
pub proof fn lemma_first_index_range(cs: Seq<char>, from: int, to: int, c: char, r: Option<usize>)
    requires
        0 <= from <= to <= cs.len(),
        match r {
            Some(i) => from <= i < to && cs[i as int] == c && forall|j: int| from <= j < i ==> cs[j] != c,
            None => forall|j: int| from <= j < to ==> cs[j] != c,
        },
    ensures
        first_index(cs.subrange(from, to), c) == match r {
            Some(i) => Some(i as int - from),
            None => None::<int>,
        },
    decreases to - from,
{
    if from < to {
        assert(cs.subrange(from, to)[0] == cs[from]);
        assert(cs.subrange(from, to).drop_first() =~= cs.subrange(from + 1, to));
        match r {
            Some(i) => {
                if i > from {
                    lemma_first_index_range(cs, from + 1, to, c, r);
                }
            },
            None => {
                lemma_first_index_range(cs, from + 1, to, c, r);
            },
        }
    }
}

/// What separates the pieces of a split.
#[derive(Debug, Clone, Copy, PartialEq, Eq, Structural)]
pub enum Separator {
    /// One given character.
    Char(char),
    /// Any whitespace character.
    Whitespace,
}

/// `c` separates pieces under `sep`.
pub open spec fn is_separator(sep: Separator, c: char) -> bool {
    match sep {
        Separator::Char(x) => c == x,
        Separator::Whitespace => is_white_space(c),
    }
}

/// `c` separates pieces under `sep`.
pub fn separates(sep: Separator, c: char) -> (r: bool)
    ensures
        r == is_separator(sep, c),
{
    match sep {
        Separator::Char(x) => c == x,
        Separator::Whitespace => is_whitespace_char(c),
    }
}

/// Pieces of `s` between the separators, and the piece still open at the
/// end, scanning from the left.
pub open spec fn split_scan(s: Seq<char>, sep: Separator) -> (Seq<Seq<char>>, Seq<char>)
    decreases s.len(),
{
    if s.len() == 0 {
        (Seq::empty(), Seq::empty())
    } else {
        let (done, cur) = split_scan(s.drop_last(), sep);
        if is_separator(sep, s.last()) {
            (done.push(cur), Seq::empty())
        } else {
            (done, cur.push(s.last()))
        }
    }
}

/// All pieces of `s` between separators (what `str::split` yields for a
/// character separator).
pub open spec fn split_pieces(s: Seq<char>, sep: Separator) -> Seq<Seq<char>> {
    split_scan(s, sep).0.push(split_scan(s, sep).1)
}

/// The non-empty pieces of `ps`, in order.
pub open spec fn non_empty(ps: Seq<Seq<char>>) -> Seq<Seq<char>>
    decreases ps.len(),
{
    if ps.len() == 0 {
        ps
    } else if ps.last().len() > 0 {
        non_empty(ps.drop_last()).push(ps.last())
    } else {
        non_empty(ps.drop_last())
    }
}

/// The non-empty pieces of `s` between separators (for whitespace: what
/// `str::split_whitespace` yields).
pub open spec fn parts(s: Seq<char>, sep: Separator) -> Seq<Seq<char>> {
    non_empty(split_pieces(s, sep))
}

/// Bounds in `cs` of the non-empty pieces of `cs[from..to]` between
/// separators.
pub fn part_bounds(cs: &Vec<char>, from: usize, to: usize, sep: Separator) -> (r: Vec<(usize, usize)>)
    requires
        from <= to <= cs@.len(),
    ensures
        r@.len() == parts(cs@.subrange(from as int, to as int), sep).len(),
        forall|k: int| 0 <= k < r@.len() ==> {
            &&& from <= (#[trigger] r@[k]).0 < r@[k].1 <= to
            &&& cs@.subrange(r@[k].0 as int, r@[k].1 as int) == parts(cs@.subrange(from as int, to as int), sep)[k]
        },
{
    let ghost s = cs@.subrange(from as int, to as int);
    let mut r: Vec<(usize, usize)> = Vec::new();
    let mut start: usize = from;
    let mut i: usize = from;
    let ghost mut done: Seq<Seq<char>> = Seq::empty();
    while i < to
        invariant
            from <= start <= i <= to <= cs@.len(),
            s == cs@.subrange(from as int, to as int),
            split_scan(s.take(i - from), sep) == (done, cs@.subrange(start as int, i as int)),
            r@.len() == non_empty(done).len(),
            forall|k: int| 0 <= k < r@.len() ==> {
                &&& from <= (#[trigger] r@[k]).0 < r@[k].1 <= i
                &&& cs@.subrange(r@[k].0 as int, r@[k].1 as int) == non_empty(done)[k]
            },
        decreases to - i,
    {
        proof {
            assert(s.take(i + 1 - from).drop_last() =~= s.take(i - from));
            assert(s.take(i + 1 - from).last() == cs@[i as int]);
        }
        if separates(sep, cs[i]) {
            let ghost piece = cs@.subrange(start as int, i as int);
            proof {
                assert(done.push(piece).drop_last() =~= done);
            }
            if start < i {
                r.push((start, i));
            }
            proof {
                done = done.push(piece);
            }
            start = i + 1;
            proof {
                assert(cs@.subrange(start as int, i + 1) =~= Seq::<char>::empty());
            }
        } else {
            proof {
                assert(cs@.subrange(start as int, i + 1) =~= cs@.subrange(start as int, i as int).push(cs@[i as int]));
            }
        }
        i = i + 1;
    }
    proof {
        assert(s.take(to - from) =~= s);
        let piece = cs@.subrange(start as int, to as int);
        assert(done.push(piece).drop_last() =~= done);
    }
    if start < to {
        r.push((start, to));
    }
    r
}

/// `pat` occurs in `s` at position `i`.
pub open spec fn occurs_at(s: Seq<char>, pat: Seq<char>, i: int) -> bool {
    0 <= i && i + pat.len() <= s.len() && s.subrange(i, i + pat.len()) == pat
}

/// Position of the first occurrence of `pat` in `s`.
pub open spec fn first_occurrence(s: Seq<char>, pat: Seq<char>) -> Option<int> {
    if exists|i: int| occurs_at(s, pat, i) {
        Some(choose|i: int| occurs_at(s, pat, i) && forall|j: int| 0 <= j < i ==> !occurs_at(s, pat, j))
    } else {
        None
    }
}

/// The first occurrence is an occurrence, and none comes before it.
pub proof fn lemma_first_occurrence(s: Seq<char>, pat: Seq<char>)
    ensures
        first_occurrence(s, pat) matches Some(p) ==> occurs_at(s, pat, p)
            && forall|j: int| 0 <= j < p ==> !occurs_at(s, pat, j),
        first_occurrence(s, pat) is None ==> forall|j: int| !occurs_at(s, pat, j),
{
    if exists|i: int| occurs_at(s, pat, i) {
        let w = choose|i: int| occurs_at(s, pat, i);
        lemma_least_occurrence(s, pat, w);
    }
}

proof fn lemma_least_occurrence(s: Seq<char>, pat: Seq<char>, w: int)
    requires
        occurs_at(s, pat, w),
    ensures
        exists|i: int| occurs_at(s, pat, i) && forall|j: int| 0 <= j < i ==> !occurs_at(s, pat, j),
    decreases w,
{
    if exists|j: int| 0 <= j < w && occurs_at(s, pat, j) {
        let j = choose|j: int| 0 <= j < w && occurs_at(s, pat, j);
        lemma_least_occurrence(s, pat, j);
    }
}

/// `pat` occurs in `cs` at `i`.
fn occurs_at_exec(cs: &Vec<char>, pat: &Vec<char>, i: usize) -> (r: bool)
    requires
        i + pat@.len() <= cs@.len(),
    ensures
        r == occurs_at(cs@, pat@, i as int),
{
    let n = cs.len();
    let mut k: usize = 0;
    while k < pat.len()
        invariant
            k <= pat@.len(),
            n == cs@.len(),
            i + pat@.len() <= cs@.len(),
            forall|j: int| 0 <= j < k ==> cs@[i + j] == pat@[j],
        decreases pat.len() - k,
    {
        if cs[i + k] != pat[k] {
            assert(cs@.subrange(i as int, i + pat@.len())[k as int] == cs@[i + k]);
            return false;
        }
        k = k + 1;
    }
    assert(cs@.subrange(i as int, i + pat@.len()) =~= pat@);
    true
}

/// Position of the first occurrence of `pat` in `cs`.
pub fn find_seq(cs: &Vec<char>, pat: &Vec<char>) -> (r: Option<usize>)
    ensures
        match r {
            Some(i) => first_occurrence(cs@, pat@) == Some(i as int),
            None => first_occurrence(cs@, pat@) is None,
        },
{
    if pat.len() > cs.len() {
        return None;
    }
    let last = cs.len() - pat.len();
    let mut i: usize = 0;
    loop
        invariant
            pat@.len() <= cs@.len(),
            last == cs@.len() - pat@.len(),
            i <= last,
            forall|j: int| 0 <= j < i ==> !occurs_at(cs@, pat@, j),
        decreases last - i,
    {
        if occurs_at_exec(cs, pat, i) {
            return Some(i);
        }
        if i == last {
            proof {
                assert forall|j: int| !occurs_at(cs@, pat@, j) by {
                    if j > last {
                        assert(!(j + pat@.len() <= cs@.len()));
                    }
                }
            }
            return None;
        }
        i = i + 1;
    }
}

/// `s` with every trailing repetition of `pat` removed (what
/// `str::trim_end_matches` does with a non-empty string pattern).
pub open spec fn strip_suffixes(s: Seq<char>, pat: Seq<char>) -> Seq<char>
    decreases s.len(),
{
    if pat.len() > 0 && pat.len() <= s.len() && s.subrange(s.len() - pat.len(), s.len() as int) == pat {
        strip_suffixes(s.subrange(0, s.len() - pat.len()), pat)
    } else {
        s
    }
}

/// End of `cs[from..to]` once every trailing repetition of `pat` is removed.
pub fn strip_suffixes_end(cs: &Vec<char>, from: usize, to: usize, pat: &Vec<char>) -> (e: usize)
    requires
        from <= to <= cs@.len(),
        pat@.len() > 0,
    ensures
        from <= e <= to,
        cs@.subrange(from as int, e as int) == strip_suffixes(cs@.subrange(from as int, to as int), pat@),
{
    let mut e = to;
    while e - from >= pat.len() && occurs_at_exec(cs, pat, e - pat.len())
        invariant
            from <= e <= to <= cs@.len(),
            pat@.len() > 0,
            strip_suffixes(cs@.subrange(from as int, to as int), pat@) == strip_suffixes(cs@.subrange(from as int, e as int), pat@),
        decreases e,
    {
        proof {
            let t = cs@.subrange(from as int, e as int);
            assert(t.subrange(t.len() - pat@.len(), t.len() as int) =~= cs@.subrange(e - pat@.len(), e as int));
            assert(t.subrange(0, t.len() - pat@.len()) =~= cs@.subrange(from as int, e - pat@.len()));
        }
        e = e - pat.len();
    }
    proof {
        let t = cs@.subrange(from as int, e as int);
        if pat@.len() <= t.len() {
            assert(t.subrange(t.len() - pat@.len(), t.len() as int) =~= cs@.subrange(e - pat@.len(), e as int));
        }
    }
    e
}

/// What `u32::from_str` accepts: an optional `+` followed by at least one
/// decimal digit and nothing else, with a value that fits in 32 bits.
pub open spec fn parse_u32_spec(s: Seq<char>) -> Option<u32> {
    let d = if s.len() > 0 && s[0] == '+' { s.drop_first() } else { s };
    if d.len() > 0 && all_digits(d) && digits_value(d) <= u32::MAX {
        Some(digits_value(d) as u32)
    } else {
        None
    }
}

proof fn lemma_digits_value_step(cs: Seq<char>, a: int, i: int)
    requires
        0 <= a <= i < cs.len(),
        is_digit(cs[i]),
    ensures
        digits_value(cs.subrange(a, i + 1)) == digits_value(cs.subrange(a, i)) * 10 + digit_value(cs[i]),
{
    assert(cs.subrange(a, i + 1).drop_last() =~= cs.subrange(a, i));
    assert(cs.subrange(a, i + 1).last() == cs[i]);
}

proof fn lemma_digits_value_monotone(cs: Seq<char>, a: int, i: int, j: int)
    requires
        0 <= a <= i <= j <= cs.len(),
        all_digits(cs.subrange(a, j)),
    ensures
        digits_value(cs.subrange(a, i)) <= digits_value(cs.subrange(a, j)),
    decreases j - i,
{
    if i < j {
        assert(cs.subrange(a, j)[j - 1 - a] == cs[j - 1]);
        assert(all_digits(cs.subrange(a, j - 1))) by {
            assert forall|k: int| 0 <= k < j - 1 - a implies is_digit(#[trigger] cs.subrange(a, j - 1)[k]) by {
                assert(cs.subrange(a, j - 1)[k] == cs.subrange(a, j)[k]);
            }
        }
        lemma_digits_value_monotone(cs, a, i, j - 1);
        lemma_digits_value_step(cs, a, j - 1);
    }
}

/// Parse `cs[from..to]` as `u32::from_str` does.
pub fn parse_u32_range(cs: &Vec<char>, from: usize, to: usize) -> (r: Option<u32>)
    requires
        from <= to <= cs@.len(),
    ensures
        r == parse_u32_spec(cs@.subrange(from as int, to as int)),
{
    let ghost s = cs@.subrange(from as int, to as int);
    let mut a = from;
    if a < to && cs[a] == '+' {
        assert(s[0] == cs@[from as int]);
        a = a + 1;
        assert(s.drop_first() =~= cs@.subrange(a as int, to as int));
    } else {
        if a < to {
            assert(s[0] == cs@[from as int]);
        }
        assert(s =~= cs@.subrange(a as int, to as int));
    }
    let ghost d = cs@.subrange(a as int, to as int);
    assert(d == (if s.len() > 0 && s[0] == '+' { s.drop_first() } else { s }));
    if a == to {
        return None;
    }
    let mut value: u64 = 0;
    let mut i = a;
    while i < to
        invariant
            a <= i <= to <= cs@.len(),
            d == cs@.subrange(a as int, to as int),
            s == cs@.subrange(from as int, to as int),
            d == (if s.len() > 0 && s[0] == '+' { s.drop_first() } else { s }),
            all_digits(cs@.subrange(a as int, i as int)),
            value == digits_value(cs@.subrange(a as int, i as int)),
            value <= u32::MAX,
        decreases to - i,
    {
        let c = cs[i];
        if !is_digit_char(c) {
            proof {
                assert(d[i - a] == c);
                assert(!all_digits(d));
            }
            return None;
        }
        proof {
            lemma_digits_value_step(cs@, a as int, i as int);
            assert forall|k: int| 0 <= k < i + 1 - a implies is_digit(#[trigger] cs@.subrange(a as int, i + 1)[k]) by {
                if k < i - a {
                    assert(cs@.subrange(a as int, i + 1)[k] == cs@.subrange(a as int, i as int)[k]);
                }
            }
        }
        let dv: u64 = (c as u32 - '0' as u32) as u64;
        value = value * 10 + dv;
        if value > 0xffff_ffff {
            proof {
                assert forall|k: int| 0 <= k < i + 1 - a implies is_digit(#[trigger] cs@.subrange(a as int, i + 1)[k]) by {}
                if all_digits(d) {
                    lemma_digits_value_monotone(cs@, a as int, i + 1, to as int);
                }
            }
            return None;
        }
        i = i + 1;
    }
    Some(value as u32)
}

} // verus!
