//! Character-sequence helpers shared by the parsers: the view of a string is
//! its `Seq<char>`, and every helper here is stated over that view.
use vstd::prelude::*;

verus! {

/// `char::is_whitespace`: the characters with the Unicode `White_Space` property.
pub open spec fn is_space(c: char) -> bool {
    let v = c as u32;
    ||| v == 0x20
    ||| 0x09 <= v <= 0x0d
    ||| v == 0x85
    ||| v == 0xa0
    ||| v == 0x1680
    ||| 0x2000 <= v <= 0x200a
    ||| v == 0x2028
    ||| v == 0x2029
    ||| v == 0x202f
    ||| v == 0x205f
    ||| v == 0x3000
}

/// `char::is_whitespace`.
pub fn is_space_char(c: char) -> (r: bool)
    ensures
        r == is_space(c),
{
    let v = c as u32;
    v == 0x20 || (0x09 <= v && v <= 0x0d) || v == 0x85 || v == 0xa0 || v == 0x1680 || (0x2000
        <= v && v <= 0x200a) || v == 0x2028 || v == 0x2029 || v == 0x202f || v == 0x205f || v
        == 0x3000
}

/// The characters of a string slice, in order.
pub fn chars_of(s: &str) -> (v: Vec<char>)
    ensures
        v@ == s@,
{
    let n = s.unicode_len();
    let mut v: Vec<char> = Vec::new();
    let mut i: usize = 0;
    while i < n
        invariant
            n == s@.len(),
            i <= n,
            v@ == s@.subrange(0, i as int),
        decreases n - i,
    {
        let c = s.get_char(i);
        v.push(c);
        i = i + 1;
        assert(v@ =~= s@.subrange(0, i as int));
    }
    assert(v@ =~= s@);
    v
}

/// `String::from_iter` over characters: the string made of exactly these characters.
#[verifier::external_body]
pub fn string_from_chars(v: &[char]) -> (s: String)
    ensures
        s@ == v@,
{
    v.iter().collect()
}

/// Index of the first occurrence of `c` in `s`.
pub open spec fn is_first_index(s: Seq<char>, c: char, i: int) -> bool {
    &&& 0 <= i < s.len()
    &&& s[i] == c
    &&& forall|j: int| 0 <= j < i ==> s[j] != c
}

/// Index of the last occurrence of `c` in `s`.
pub open spec fn is_last_index(s: Seq<char>, c: char, i: int) -> bool {
    &&& 0 <= i < s.len()
    &&& s[i] == c
    &&& forall|j: int| i < j < s.len() ==> s[j] != c
}

/// `str::split_once` with a character separator.
pub open spec fn split_once(s: Seq<char>, c: char) -> Option<(Seq<char>, Seq<char>)> {
    if exists|i: int| is_first_index(s, c, i) {
        let i = choose|i: int| is_first_index(s, c, i);
        Some((s.take(i), s.skip(i + 1)))
    } else {
        None
    }
}

/// `str::rsplit_once` with a character separator.
pub open spec fn rsplit_once(s: Seq<char>, c: char) -> Option<(Seq<char>, Seq<char>)> {
    if exists|i: int| is_last_index(s, c, i) {
        let i = choose|i: int| is_last_index(s, c, i);
        Some((s.take(i), s.skip(i + 1)))
    } else {
        None
    }
}

/// The position of the first `c` in `s`.
pub fn first_index_of(s: &[char], c: char) -> (r: Option<usize>)
    ensures
        match r {
            Some(i) => is_first_index(s@, c, i as int),
            None => !s@.contains(c),
        },
{
    let mut i: usize = 0;
    while i < s.len()
        invariant
            i <= s@.len(),
            forall|j: int| 0 <= j < i ==> s@[j] != c,
        decreases s.len() - i,
    {
        if s[i] == c {
            return Some(i);
        }
        i = i + 1;
    }
    None
}

/// The position of the last `c` in `s`.
pub fn last_index_of(s: &[char], c: char) -> (r: Option<usize>)
    ensures
        match r {
            Some(i) => is_last_index(s@, c, i as int),
            None => !s@.contains(c),
        },
{
    let mut i: usize = s.len();
    while i > 0
        invariant
            i <= s@.len(),
            forall|j: int| i <= j < s@.len() ==> s@[j] != c,
        decreases i,
    {
        if s[i - 1] == c {
            return Some(i - 1);
        }
        i = i - 1;
    }
    None
}

/// A character has one first position.
pub proof fn lemma_first_index_unique(s: Seq<char>, c: char, i: int, k: int)
    requires
        is_first_index(s, c, i),
        is_first_index(s, c, k),
    ensures
        i == k,
{
}

/// A character has one last position.
pub proof fn lemma_last_index_unique(s: Seq<char>, c: char, i: int, k: int)
    requires
        is_last_index(s, c, i),
        is_last_index(s, c, k),
    ensures
        i == k,
{
}

/// The two halves around the first `c`, as `str::split_once` gives them.
pub fn split_once_at(s: &[char], c: char) -> (r: Option<(Vec<char>, Vec<char>)>)
    ensures
        match r {
            Some((a, b)) => split_once(s@, c) == Some((a@, b@)),
            None => split_once(s@, c).is_none(),
        },
{
    match first_index_of(s, c) {
        Some(i) => {
            proof {
                let k = choose|k: int| is_first_index(s@, c, k);
                lemma_first_index_unique(s@, c, i as int, k);
            }
            let n = s.len();
            assert(i < n);
            let a = slice_range(s, 0, i);
            let b = slice_range(s, i + 1, n);
            assert(a@ =~= s@.take(i as int));
            assert(b@ =~= s@.skip(i + 1));
            Some((a, b))
        },
        None => {
            assert(!exists|i: int| is_first_index(s@, c, i));
            None
        },
    }
}

/// The two halves around the last `c`, as `str::rsplit_once` gives them.
pub fn rsplit_once_at(s: &[char], c: char) -> (r: Option<(Vec<char>, Vec<char>)>)
    ensures
        match r {
            Some((a, b)) => rsplit_once(s@, c) == Some((a@, b@)),
            None => rsplit_once(s@, c).is_none(),
        },
{
    match last_index_of(s, c) {
        Some(i) => {
            proof {
                let k = choose|k: int| is_last_index(s@, c, k);
                lemma_last_index_unique(s@, c, i as int, k);
            }
            let n = s.len();
            assert(i < n);
            let a = slice_range(s, 0, i);
            let b = slice_range(s, i + 1, n);
            assert(a@ =~= s@.take(i as int));
            assert(b@ =~= s@.skip(i + 1));
            Some((a, b))
        },
        None => {
            assert(!exists|i: int| is_last_index(s@, c, i));
            None
        },
    }
}

/// A copy of `s[from..to]`.
pub fn slice_range<T: Copy>(s: &[T], from: usize, to: usize) -> (r: Vec<T>)
    requires
        from <= to <= s@.len(),
    ensures
        r@ == s@.subrange(from as int, to as int),
{
    let mut r: Vec<T> = Vec::new();
    let mut i = from;
    while i < to
        invariant
            from <= i <= to <= s@.len(),
            r@ == s@.subrange(from as int, i as int),
        decreases to - i,
    {
        r.push(s[i]);
        i = i + 1;
        assert(r@ =~= s@.subrange(from as int, i as int));
    }
    r
}

/// `str::trim_start`: drops the leading whitespace.
pub open spec fn trim_start(s: Seq<char>) -> Seq<char>
    decreases s.len(),
{
    if s.len() > 0 && is_space(s[0]) {
        trim_start(s.drop_first())
    } else {
        s
    }
}

/// `str::trim_end`: drops the trailing whitespace.
pub open spec fn trim_end(s: Seq<char>) -> Seq<char>
    decreases s.len(),
{
    if s.len() > 0 && is_space(s.last()) {
        trim_end(s.drop_last())
    } else {
        s
    }
}

/// `str::trim`: drops whitespace at both ends.
pub open spec fn trim(s: Seq<char>) -> Seq<char> {
    trim_end(trim_start(s))
}

/// The characters of `s` without whitespace at either end.
pub fn trimmed(s: &[char]) -> (r: Vec<char>)
    ensures
        r@ == trim(s@),
{
    let mut i: usize = 0;
    assert(s@.skip(0) =~= s@);
    while i < s.len() && is_space_char(s[i])
        invariant
            i <= s@.len(),
            trim_start(s@) == trim_start(s@.skip(i as int)),
        decreases s.len() - i,
    {
        assert(s@.skip(i as int).drop_first() =~= s@.skip(i + 1));
        i = i + 1;
    }
    let ghost start = s@.skip(i as int);
    assert(trim_start(start) == start);
    let mut j: usize = s.len();
    while j > i && is_space_char(s[j - 1])
        invariant
            i <= j <= s@.len(),
            start == s@.skip(i as int),
            trim_end(start) == trim_end(s@.subrange(i as int, j as int)),
        decreases j,
    {
        assert(s@.subrange(i as int, j as int).drop_last() =~= s@.subrange(
            i as int,
            j - 1,
        ));
        j = j - 1;
    }
    assert(s@.skip(i as int) =~= s@.subrange(i as int, s@.len() as int));
    let r = slice_range(s, i, j);
    assert(trim_end(r@) == r@);
    r
}

/// `char::to_ascii_lowercase`.
pub open spec fn ascii_lower(c: char) -> char {
    if 'A' <= c && c <= 'Z' {
        ((c as u32) + 32) as char
    } else {
        c
    }
}

/// `str::eq_ignore_ascii_case`.
pub open spec fn eq_ignore_ascii_case(a: Seq<char>, b: Seq<char>) -> bool {
    &&& a.len() == b.len()
    &&& forall|i: int| 0 <= i < a.len() ==> ascii_lower(a[i]) == ascii_lower(b[i])
}

/// `char::to_ascii_lowercase`.
pub fn lower_char(c: char) -> (r: char)
    ensures
        r == ascii_lower(c),
{
    if 'A' <= c && c <= 'Z' {
        let v: u32 = (c as u32) + 32;
        assert(v <= 0x7a);
        char_from_ascii(v)
    } else {
        c
    }
}

/// The character with an ASCII code point.
pub fn char_from_ascii(v: u32) -> (c: char)
    requires
        v < 0x80,
    ensures
        c == v as char,
{
    let b: u8 = v as u8;
    b as char
}

/// `eq_ignore_ascii_case` on character slices.
pub fn eq_ignore_case(a: &[char], b: &[char]) -> (r: bool)
    ensures
        r == eq_ignore_ascii_case(a@, b@),
{
    if a.len() != b.len() {
        return false;
    }
    let mut i: usize = 0;
    while i < a.len()
        invariant
            a@.len() == b@.len(),
            i <= a@.len(),
            forall|j: int| 0 <= j < i ==> ascii_lower(a@[j]) == ascii_lower(b@[j]),
        decreases a.len() - i,
    {
        if lower_char(a[i]) != lower_char(b[i]) {
            return false;
        }
        i = i + 1;
    }
    true
}

/// Characters equal to a string literal's.
pub fn chars_eq(a: &[char], b: &[char]) -> (r: bool)
    ensures
        r == (a@ == b@),
{
    if a.len() != b.len() {
        return false;
    }
    let mut i: usize = 0;
    while i < a.len()
        invariant
            a@.len() == b@.len(),
            i <= a@.len(),
            forall|j: int| 0 <= j < i ==> a@[j] == b@[j],
        decreases a.len() - i,
    {
        if a[i] != b[i] {
            return false;
        }
        i = i + 1;
    }
    assert(a@ =~= b@);
    true
}


/// The views of a vector of character vectors.
pub open spec fn views(v: Seq<Vec<char>>) -> Seq<Seq<char>> {
    v.map_values(|w: Vec<char>| w@)
}

/// Length of the run of non-whitespace characters that starts `s`.
pub open spec fn word_len(s: Seq<char>) -> nat
    decreases s.len(),
{
    if s.len() == 0 || is_space(s[0]) {
        0
    } else {
        1 + word_len(s.drop_first())
    }
}

/// `str::split_whitespace`: the maximal runs of non-whitespace characters.
pub open spec fn words(s: Seq<char>) -> Seq<Seq<char>>
    decreases s.len(),
{
    if s.len() == 0 {
        seq![]
    } else if is_space(s[0]) {
        words(s.drop_first())
    } else {
        let n = 1 + word_len(s.drop_first());
        proof {
            lemma_word_len_bound(s.drop_first());
        }
        seq![s.take(n as int)] + words(s.skip(n as int))
    }
}

/// A word is no longer than the text it starts.
pub proof fn lemma_word_len_bound(s: Seq<char>)
    ensures
        word_len(s) <= s.len(),
    decreases s.len(),
{
    if s.len() > 0 && !is_space(s[0]) {
        lemma_word_len_bound(s.drop_first());
    }
}

proof fn lemma_word_len(s: Seq<char>, m: int)
    requires
        0 <= m <= s.len(),
        forall|k: int| 0 <= k < m ==> !is_space(s[k]),
        m == s.len() || is_space(s[m]),
    ensures
        word_len(s) == m,
    decreases m,
{
    if m > 0 {
        lemma_word_len(s.drop_first(), m - 1);
    }
}

/// The whitespace-separated words of `s`, in order.
pub fn split_words(s: &[char]) -> (r: Vec<Vec<char>>)
    ensures
        views(r@) == words(s@),
{
    let n = s.len();
    let mut out: Vec<Vec<char>> = Vec::new();
    let mut i: usize = 0;
    assert(s@.skip(0) =~= s@);
    assert(views(out@) =~= Seq::<Seq<char>>::empty());
    while i < n
        invariant
            n == s@.len(),
            i <= n,
            words(s@) == views(out@) + words(s@.skip(i as int)),
        decreases n - i,
    {
        let ghost rest = s@.skip(i as int);
        if is_space_char(s[i]) {
            assert(rest.drop_first() =~= s@.skip(i + 1));
            i = i + 1;
        } else {
            let mut j: usize = i + 1;
            while j < n && !is_space_char(s[j])
                invariant
                    i < j <= n,
                    n == s@.len(),
                    forall|k: int| i <= k < j ==> !is_space(s@[k]),
                decreases n - j,
            {
                j = j + 1;
            }
            proof {
                lemma_word_len(rest.drop_first(), j - i - 1);
                assert(rest.take(j - i) =~= s@.subrange(i as int, j as int));
                assert(rest.skip(j - i) =~= s@.skip(j as int));
            }
            let w = slice_range(s, i, j);
            let ghost before = views(out@);
            out.push(w);
            assert(views(out@) =~= before.push(w@));
            assert(words(rest) == seq![w@] + words(s@.skip(j as int)));
            assert(words(s@) =~= views(out@) + words(s@.skip(j as int)));
            i = j;
        }
    }
    assert(s@.skip(n as int) =~= Seq::<char>::empty());
    assert(views(out@) =~= views(out@) + Seq::<Seq<char>>::empty());
    out
}

/// A carriage return followed by a line feed starts at `i`.
pub open spec fn crlf_at(s: Seq<char>, i: int) -> bool {
    0 <= i && i + 1 < s.len() && s[i] == '\r' && s[i + 1] == '\n'
}

/// `i` is the position of the first CRLF in `s`.
pub open spec fn first_crlf(s: Seq<char>, i: int) -> bool {
    crlf_at(s, i) && forall|j: int| 0 <= j < i ==> !crlf_at(s, j)
}

/// `str::split("\r\n")`.
pub open spec fn crlf_lines(s: Seq<char>) -> Seq<Seq<char>>
    decreases s.len(),
{
    if exists|i: int| first_crlf(s, i) {
        let i = choose|i: int| first_crlf(s, i);
        seq![s.take(i)] + crlf_lines(s.skip(i + 2))
    } else {
        seq![s]
    }
}

/// The pieces of `s` between `"\r\n"` separators, in order.
pub fn split_crlf(s: &[char]) -> (r: Vec<Vec<char>>)
    ensures
        views(r@) == crlf_lines(s@),
{
    let n = s.len();
    let mut out: Vec<Vec<char>> = Vec::new();
    let mut start: usize = 0;
    let mut i: usize = 0;
    assert(s@.skip(0) =~= s@);
    assert(views(out@) =~= Seq::<Seq<char>>::empty());
    while i < n
        invariant
            n == s@.len(),
            start <= i <= n,
            crlf_lines(s@) == views(out@) + crlf_lines(s@.skip(start as int)),
            forall|j: int| start <= j < i ==> !crlf_at(s@, j),
        decreases n - i,
    {
        if i + 1 < n && s[i] == '\r' && s[i + 1] == '\n' {
            let ghost rest = s@.skip(start as int);
            proof {
                assert(crlf_at(rest, i - start));
                assert forall|j: int| 0 <= j < i - start implies !crlf_at(rest, j) by {
                    assert(!crlf_at(s@, start + j));
                }
                assert(first_crlf(rest, i - start));
                let k = choose|k: int| first_crlf(rest, k);
                assert(k == i - start) by {
                    if k < i - start {
                        assert(crlf_at(s@, start + k));
                    }
                    if k > i - start {
                        assert(crlf_at(rest, i - start));
                    }
                }
                assert(rest.take(i - start) =~= s@.subrange(start as int, i as int));
                assert(rest.skip(i - start + 2) =~= s@.skip(i + 2));
            }
            let line = slice_range(s, start, i);
            let ghost before = views(out@);
            out.push(line);
            assert(views(out@) =~= before.push(line@));
            assert(crlf_lines(s@) =~= views(out@) + crlf_lines(s@.skip(i + 2)));
            i = i + 2;
            start = i;
        } else {
            i = i + 1;
        }
    }
    let ghost rest = s@.skip(start as int);
    assert(!exists|k: int| first_crlf(rest, k)) by {
        if exists|k: int| first_crlf(rest, k) {
            let k = choose|k: int| first_crlf(rest, k);
            assert(crlf_at(s@, start + k));
        }
    }
    let last = slice_range(s, start, n);
    assert(last@ =~= rest);
    let ghost before = views(out@);
    out.push(last);
    assert(views(out@) =~= before.push(last@));
    assert(crlf_lines(s@) =~= views(out@));
    out
}

/// `str::trim_end_matches` with a non-empty string pattern: strips the
/// suffix as often as it ends the text.
pub open spec fn trim_suffix_repeatedly(s: Seq<char>, suffix: Seq<char>) -> Seq<char>
    decreases s.len(),
{
    if suffix.len() > 0 && suffix.len() <= s.len() && s.skip(s.len() - suffix.len()) == suffix {
        trim_suffix_repeatedly(s.take(s.len() - suffix.len()), suffix)
    } else {
        s
    }
}

/// `str::trim_end_matches` with a text pattern.
pub fn trim_end_matching(s: &[char], suffix: &[char]) -> (r: Vec<char>)
    ensures
        r@ == trim_suffix_repeatedly(s@, suffix@),
{
    let m = suffix.len();
    let mut end: usize = s.len();
    assert(s@.take(end as int) =~= s@);
    if m == 0 {
        return slice_range(s, 0, end);
    }
    loop
        invariant
            m == suffix@.len(),
            m > 0,
            end <= s@.len(),
            trim_suffix_repeatedly(s@, suffix@) == trim_suffix_repeatedly(
                s@.take(end as int),
                suffix@,
            ),
        ensures
            end <= s@.len(),
            trim_suffix_repeatedly(s@, suffix@) == s@.take(end as int),
        decreases end,
    {
        let ghost cur = s@.take(end as int);
        if m > end {
            break;
        }
        let mut k: usize = 0;
        let mut same = true;
        while k < m
            invariant
                m == suffix@.len(),
                m <= end <= s@.len(),
                k <= m,
                same == (forall|q: int| 0 <= q < k ==> s@[end - m + q] == suffix@[q]),
            decreases m - k,
        {
            if s[end - m + k] != suffix[k] {
                same = false;
            }
            k = k + 1;
        }
        if same {
            assert(cur.skip(cur.len() - m) =~= suffix@);
            assert(cur.take(cur.len() - m) =~= s@.take(end - m));
            end = end - m;
        } else {
            assert(cur.skip(cur.len() - m) != suffix@) by {
                let q = choose|q: int| 0 <= q < m && s@[end - m + q] != suffix@[q];
                assert(cur.skip(cur.len() - m)[q] == s@[end - m + q]);
            }
            break;
        }
    }
    let r = slice_range(s, 0, end);
    assert(r@ =~= s@.take(end as int));
    r
}

/// The character of a decimal digit.
pub open spec fn digit_char(d: nat) -> char {
    (48 + d) as char
}

/// The decimal numeral of `n`, as `{}` formats an unsigned integer.
pub open spec fn decimal(n: nat) -> Seq<char>
    decreases n,
{
    if n < 10 {
        seq![digit_char(n)]
    } else {
        decimal(n / 10).push(digit_char(n % 10))
    }
}

/// The decimal numeral of `n`.
pub fn decimal_chars(n: u64) -> (r: Vec<char>)
    ensures
        r@ == decimal(n as nat),
    decreases n,
{
    if n < 10 {
        let c = char_from_ascii((48 + n) as u32);
        let mut v: Vec<char> = Vec::new();
        v.push(c);
        assert(v@ =~= seq![digit_char(n as nat)]);
        v
    } else {
        let mut v = decimal_chars(n / 10);
        let d = n % 10;
        let c = char_from_ascii((48 + d) as u32);
        v.push(c);
        v
    }
}

/// The value of a string of ASCII decimal digits.
pub open spec fn digits_value(s: Seq<char>) -> nat
    decreases s.len(),
{
    if s.len() == 0 {
        0
    } else {
        digits_value(s.drop_last()) * 10 + ((s.last() as u32) - 48) as nat
    }
}

/// An ASCII decimal digit.
pub open spec fn is_digit(c: char) -> bool {
    '0' <= c && c <= '9'
}

/// Every character is an ASCII decimal digit.
pub open spec fn all_digits(s: Seq<char>) -> bool {
    forall|i: int| 0 <= i < s.len() ==> is_digit(s[i])
}

/// `u16::from_str`: an optional `+`, then one or more ASCII digits whose value fits.
pub open spec fn parse_u16(s: Seq<char>) -> Option<u16> {
    let digits = if s.len() > 0 && s[0] == '+' {
        s.drop_first()
    } else {
        s
    };
    if digits.len() == 0 || !all_digits(digits) || digits_value(digits) > 0xffff {
        None
    } else {
        Some(digits_value(digits) as u16)
    }
}

proof fn lemma_digits_value_grows(s: Seq<char>, k: int)
    requires
        0 <= k <= s.len(),
        all_digits(s),
    ensures
        digits_value(s.take(k)) <= digits_value(s),
    decreases s.len() - k,
{
    if k < s.len() {
        lemma_digits_value_grows(s, k + 1);
        assert(s.take(k + 1).drop_last() =~= s.take(k));
    } else {
        assert(s.take(k) =~= s);
    }
}

/// Parses a port number the way `str::parse::<u16>` does.
pub fn parse_port(s: &[char]) -> (r: Option<u16>)
    ensures
        r == parse_u16(s@),
{
    let n = s.len();
    let start: usize = if n > 0 && s[0] == '+' {
        1
    } else {
        0
    };
    let ghost digits = s@.skip(start as int);
    assert(digits == (if s@.len() > 0 && s@[0] == '+' {
        s@.drop_first()
    } else {
        s@
    }));
    if start == n {
        return None;
    }
    let mut value: u32 = 0;
    let mut i: usize = start;
    while i < n
        invariant
            start < n,
            n == s@.len(),
            start <= i <= n,
            digits == s@.skip(start as int),
            digits == (if s@.len() > 0 && s@[0] == '+' {
                s@.drop_first()
            } else {
                s@
            }),
            forall|k: int| 0 <= k < i - start ==> is_digit(digits[k]),
            value == digits_value(digits.take(i - start)),
            value <= 0xffff,
        decreases n - i,
    {
        let c = s[i];
        assert(digits[i - start] == c);
        if c < '0' || c > '9' {
            assert(!all_digits(digits));
            return None;
        }
        assert(digits.take(i - start + 1).drop_last() =~= digits.take(i - start));
        let d: u32 = (c as u32) - 48;
        let next: u32 = value * 10 + d;
        if next > 0xffff {
            proof {
                assert(forall|k: int| 0 <= k < i - start + 1 ==> is_digit(digits[k]));
                assert(digits.take(i - start + 1).last() == c);
                assert(digits_value(digits.take(i - start + 1)) == next);
                if all_digits(digits) {
                    lemma_digits_value_grows(digits, i - start + 1);
                }
            }
            return None;
        }
        value = next;
        i = i + 1;
    }
    assert(digits.take(n - start) =~= digits);
    Some(value as u16)
}


/// `u32::from_str`: an optional `+`, then one or more ASCII digits whose value fits.
pub open spec fn parse_u32(s: Seq<char>) -> Option<u32> {
    let digits = if s.len() > 0 && s[0] == '+' {
        s.drop_first()
    } else {
        s
    };
    if digits.len() == 0 || !all_digits(digits) || digits_value(digits) > 0xffff_ffff {
        None
    } else {
        Some(digits_value(digits) as u32)
    }
}

/// Parses a number the way `str::parse::<u32>` does.
pub fn parse_number(s: &[char]) -> (r: Option<u32>)
    ensures
        r == parse_u32(s@),
{
    let n = s.len();
    let start: usize = if n > 0 && s[0] == '+' {
        1
    } else {
        0
    };
    let ghost digits = s@.skip(start as int);
    assert(digits == (if s@.len() > 0 && s@[0] == '+' {
        s@.drop_first()
    } else {
        s@
    }));
    if start == n {
        return None;
    }
    let mut value: u64 = 0;
    let mut i: usize = start;
    while i < n
        invariant
            start < n,
            n == s@.len(),
            start <= i <= n,
            digits == s@.skip(start as int),
            digits == (if s@.len() > 0 && s@[0] == '+' {
                s@.drop_first()
            } else {
                s@
            }),
            forall|k: int| 0 <= k < i - start ==> is_digit(digits[k]),
            value == digits_value(digits.take(i - start)),
            value <= 0xffff_ffff,
        decreases n - i,
    {
        let c = s[i];
        assert(digits[i - start] == c);
        if c < '0' || c > '9' {
            assert(!all_digits(digits));
            return None;
        }
        assert(digits.take(i - start + 1).drop_last() =~= digits.take(i - start));
        let d: u64 = (c as u32) as u64 - 48;
        let next: u64 = value * 10 + d;
        if next > 0xffff_ffff {
            proof {
                assert(forall|k: int| 0 <= k < i - start + 1 ==> is_digit(digits[k]));
                assert(digits.take(i - start + 1).last() == c);
                assert(digits_value(digits.take(i - start + 1)) == next);
                if all_digits(digits) {
                    lemma_digits_value_grows(digits, i - start + 1);
                }
            }
            return None;
        }
        value = next;
        i = i + 1;
    }
    assert(digits.take(n - start) =~= digits);
    Some(value as u32)
}

/// Appends the characters of `s`.
pub fn extend_chars(out: &mut Vec<char>, s: &[char])
    ensures
        final(out)@ == old(out)@ + s@,
{
    let ghost start = old(out)@;
    let mut i: usize = 0;
    while i < s.len()
        invariant
            i <= s@.len(),
            out@ == start + s@.take(i as int),
        decreases s.len() - i,
    {
        out.push(s[i]);
        i = i + 1;
        assert(out@ =~= start + s@.take(i as int));
    }
    assert(s@.take(i as int) =~= s@);
}

/// `core::str::from_utf8` followed by `str::chars`: the characters that the
/// bytes encode, or `None` where they are not UTF-8.
#[verifier::external_body]
pub fn utf8_chars(bytes: &[u8]) -> (r: Option<Vec<char>>)
    ensures
        r.is_some() == vstd::utf8::valid_utf8(bytes@),
        r matches Some(c) ==> c@ == vstd::utf8::decode_utf8(bytes@),
{
    core::str::from_utf8(bytes).ok().map(|s| s.chars().collect())
}

/// The UTF-8 encoding of characters.
pub fn utf8_bytes(chars: &[char]) -> (r: Vec<u8>)
    ensures
        r@ == vstd::utf8::encode_utf8(chars@),
{
    let s = string_from_chars(chars);
    let b = s.as_str().as_bytes();
    vstd::slice::slice_to_vec(b)
}


/// What `str::to_lowercase` gives for a text (Unicode case mapping).
pub uninterp spec fn lowercase(s: Seq<char>) -> Seq<char>;

/// What `str::to_uppercase` gives for a text (Unicode case mapping).
pub uninterp spec fn uppercase(s: Seq<char>) -> Seq<char>;

/// Calls `str::to_lowercase`; the contract claims only that the result is
/// the one named by `lowercase`.
#[verifier::external_body]
pub fn to_lowercase(s: &str) -> (r: String)
    ensures
        r@ == lowercase(s@),
{
    s.to_lowercase()
}

/// Calls `str::to_uppercase`; the contract claims only that the result is
/// the one named by `uppercase`.
#[verifier::external_body]
pub fn to_uppercase(s: &str) -> (r: String)
    ensures
        r@ == uppercase(s@),
{
    s.to_uppercase()
}

/// Lexicographic order of texts by code point, the order of `String`'s
/// `Ord` (UTF-8 preserves code point order).
pub open spec fn text_le(a: Seq<char>, b: Seq<char>) -> bool
    decreases a.len(),
{
    if a.len() == 0 {
        true
    } else if b.len() == 0 {
        false
    } else if a[0] != b[0] {
        (a[0] as u32) < (b[0] as u32)
    } else {
        text_le(a.drop_first(), b.drop_first())
    }
}

/// Of any two texts, one comes first.
pub proof fn lemma_text_le_total(a: Seq<char>, b: Seq<char>)
    ensures
        text_le(a, b) || text_le(b, a),
    decreases a.len(),
{
    if a.len() > 0 && b.len() > 0 {
        if a[0] == b[0] {
            lemma_text_le_total(a.drop_first(), b.drop_first());
        } else {
            let x = a[0] as u32;
            let y = b[0] as u32;
            vstd::utf8::char_u32_cast(a[0], x);
            vstd::utf8::char_u32_cast(b[0], y);
            assert(x != y);
        }
    }
}

/// The order of texts is transitive.
pub proof fn lemma_text_le_transitive(a: Seq<char>, b: Seq<char>, c: Seq<char>)
    requires
        text_le(a, b),
        text_le(b, c),
    ensures
        text_le(a, c),
    decreases a.len(),
{
    if a.len() > 0 && b.len() > 0 && c.len() > 0 && a[0] == b[0] && b[0] == c[0] {
        lemma_text_le_transitive(a.drop_first(), b.drop_first(), c.drop_first());
    }
}

/// Texts that come before each other are equal.
pub proof fn lemma_text_le_antisymmetric(a: Seq<char>, b: Seq<char>)
    requires
        text_le(a, b),
        text_le(b, a),
    ensures
        a == b,
    decreases a.len(),
{
    if a.len() == 0 {
        assert(b.len() == 0);
        assert(a =~= b);
    } else {
        lemma_text_le_antisymmetric(a.drop_first(), b.drop_first());
        assert(a =~= seq![a[0]] + a.drop_first());
        assert(b =~= seq![b[0]] + b.drop_first());
    }
}

/// Compares two texts in `text_le` order.
pub fn chars_le(a: &[char], b: &[char]) -> (r: bool)
    ensures
        r == text_le(a@, b@),
{
    let mut i: usize = 0;
    assert(a@.skip(0) =~= a@);
    assert(b@.skip(0) =~= b@);
    loop
        invariant
            i <= a@.len(),
            i <= b@.len(),
            text_le(a@, b@) == text_le(a@.skip(i as int), b@.skip(i as int)),
        decreases a@.len() - i,
    {
        if i == a.len() {
            return true;
        }
        if i == b.len() {
            return false;
        }
        if a[i] != b[i] {
            return (a[i] as u32) < (b[i] as u32);
        }
        assert(a@.skip(i as int).drop_first() =~= a@.skip(i + 1));
        assert(b@.skip(i as int).drop_first() =~= b@.skip(i + 1));
        i = i + 1;
    }
}

} // verus!
