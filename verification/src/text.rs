//! Character-level groundwork for the log parser: whitespace trimming,
//! string equality, splitting on a separator, and decimal parsing, each
//! specified over `Seq<char>` views.

use vstd::prelude::*;

verus! {

/// A whitespace character: the Unicode `White_Space` set, as
/// `char::is_whitespace` recognises it.
pub open spec fn is_space(c: char) -> bool {
    ||| c == ' '
    ||| c == '\t'
    ||| c == '\n'
    ||| c == '\u{b}'
    ||| c == '\u{c}'
    ||| c == '\r'
    ||| c == '\u{85}'
    ||| c == '\u{a0}'
    ||| c == '\u{1680}'
    ||| ('\u{2000}' <= c && c <= '\u{200a}')
    ||| c == '\u{2028}'
    ||| c == '\u{2029}'
    ||| c == '\u{202f}'
    ||| c == '\u{205f}'
    ||| c == '\u{3000}'
}

/// Decides `is_space`.
pub fn is_space_char(c: char) -> (r: bool)
    ensures
        r == is_space(c),
{
    c == ' ' || c == '\t' || c == '\n' || c == '\u{b}' || c == '\u{c}' || c == '\r'
        || c == '\u{85}' || c == '\u{a0}' || c == '\u{1680}'
        || ('\u{2000}' <= c && c <= '\u{200a}') || c == '\u{2028}' || c == '\u{2029}'
        || c == '\u{202f}' || c == '\u{205f}' || c == '\u{3000}'
}

/// `s` without its leading whitespace.
pub open spec fn trim_front(s: Seq<char>) -> Seq<char>
    decreases s.len(),
{
    if s.len() > 0 && is_space(s[0]) {
        trim_front(s.drop_first())
    } else {
        s
    }
}

/// `s` without its trailing whitespace.
pub open spec fn trim_back(s: Seq<char>) -> Seq<char>
    decreases s.len(),
{
    if s.len() > 0 && is_space(s.last()) {
        trim_back(s.drop_last())
    } else {
        s
    }
}

/// `s` without surrounding whitespace, as `str::trim` returns it.
pub open spec fn trim(s: Seq<char>) -> Seq<char> {
    trim_back(trim_front(s))
}

proof fn lemma_trim_front_range(s: Seq<char>, i: int)
    requires
        0 <= i <= s.len(),
        forall|j: int| 0 <= j < i ==> is_space(#[trigger] s[j]),
        i == s.len() || !is_space(s[i]),
    ensures
        trim_front(s) == s.subrange(i, s.len() as int),
    decreases i,
{
    if i == 0 {
        assert(s.subrange(0, s.len() as int) =~= s);
    } else {
        let t = s.drop_first();
        assert(forall|j: int| 0 <= j < i - 1 ==> is_space(#[trigger] t[j]));
        lemma_trim_front_range(t, i - 1);
        assert(t.subrange(i - 1, t.len() as int) =~= s.subrange(i, s.len() as int));
    }
}

proof fn lemma_trim_back_range(s: Seq<char>, i: int)
    requires
        0 <= i <= s.len(),
        forall|j: int| i <= j < s.len() ==> is_space(#[trigger] s[j]),
        i == 0 || !is_space(s[i - 1]),
    ensures
        trim_back(s) == s.subrange(0, i),
    decreases s.len() - i,
{
    if i == s.len() {
        assert(s.subrange(0, i) =~= s);
    } else {
        let t = s.drop_last();
        assert(forall|j: int| i <= j < t.len() ==> is_space(#[trigger] t[j]));
        lemma_trim_back_range(t, i);
        assert(t.subrange(0, i) =~= s.subrange(0, i));
    }
}

/// Returns the slice of `s` with surrounding whitespace removed.
pub fn trim_str<'a>(s: &'a str) -> (r: &'a str)
    ensures
        r@ == trim(s@),
{
    let len = s.unicode_len();
    let mut start: usize = 0;
    while start < len && is_space_char(s.get_char(start))
        invariant
            0 <= start <= len,
            len == s@.len(),
            forall|j: int| 0 <= j < start ==> is_space(#[trigger] s@[j]),
        decreases len - start,
    {
        start = start + 1;
    }
    let mut end: usize = len;
    while end > start && is_space_char(s.get_char(end - 1))
        invariant
            start <= end <= len,
            len == s@.len(),
            forall|j: int| end <= j < len ==> is_space(#[trigger] s@[j]),
        decreases end,
    {
        end = end - 1;
    }
    proof {
        lemma_trim_front_range(s@, start as int);
        let f = s@.subrange(start as int, len as int);
        assert(forall|j: int| end - start <= j < f.len() ==> is_space(#[trigger] f[j]));
        lemma_trim_back_range(f, end - start);
        assert(f.subrange(0, end - start) =~= s@.subrange(start as int, end as int));
    }
    s.substring_char(start, end)
}

/// Decides whether two string slices hold the same characters.
pub fn str_eq(a: &str, b: &str) -> (r: bool)
    ensures
        r == (a@ == b@),
{
    let alen = a.unicode_len();
    let blen = b.unicode_len();
    if alen != blen {
        return false;
    }
    let mut i: usize = 0;
    while i < alen
        invariant
            0 <= i <= alen,
            alen == a@.len(),
            alen == b@.len(),
            forall|j: int| 0 <= j < i ==> a@[j] == b@[j],
        decreases alen - i,
    {
        if a.get_char(i) != b.get_char(i) {
            return false;
        }
        i = i + 1;
    }
    proof {
        assert(a@ =~= b@);
    }
    true
}

/// The segments of `s` between occurrences of `sep`, as `str::split`
/// yields them: splitting the empty sequence gives one empty segment,
/// and adjacent separators enclose an empty segment.
pub open spec fn split_char(s: Seq<char>, sep: char) -> Seq<Seq<char>>
    decreases s.len(),
{
    if s.len() == 0 {
        seq![Seq::<char>::empty()]
    } else if s[0] == sep {
        seq![Seq::<char>::empty()] + split_char(s.drop_first(), sep)
    } else {
        let rest = split_char(s.drop_first(), sep);
        seq![seq![s[0]] + rest[0]] + rest.drop_first()
    }
}

/// Splitting yields at least one segment.
pub proof fn lemma_split_char_nonempty(s: Seq<char>, sep: char)
    ensures
        split_char(s, sep).len() >= 1,
    decreases s.len(),
{
    if s.len() > 0 {
        lemma_split_char_nonempty(s.drop_first(), sep);
    }
}

/// A sequence free of the separator splits into itself alone.
pub proof fn lemma_split_char_no_sep(s: Seq<char>, sep: char)
    requires
        forall|j: int| 0 <= j < s.len() ==> s[j] != sep,
    ensures
        split_char(s, sep) == seq![s],
    decreases s.len(),
{
    if s.len() == 0 {
        assert(split_char(s, sep) =~~= seq![s]);
    } else {
        let t = s.drop_first();
        lemma_split_char_no_sep(t, sep);
        lemma_split_char_nonempty(t, sep);
        assert(seq![s[0]] + split_char(t, sep)[0] =~= s);
        assert(split_char(s, sep) =~~= seq![s]);
    }
}

/// Splitting a sequence that opens with a separator-free segment, the
/// separator, and a remainder yields that segment followed by the split
/// of the remainder.
pub proof fn lemma_split_char_step(pre: Seq<char>, post: Seq<char>, sep: char)
    requires
        forall|j: int| 0 <= j < pre.len() ==> pre[j] != sep,
    ensures
        split_char(pre + seq![sep] + post, sep) == seq![pre] + split_char(post, sep),
    decreases pre.len(),
{
    let s = pre + seq![sep] + post;
    if pre.len() == 0 {
        assert(s[0] == sep);
        assert(s.drop_first() =~= post);
        assert(seq![Seq::<char>::empty()] + split_char(post, sep) =~~= seq![pre] + split_char(
            post,
            sep,
        ));
    } else {
        let tpre = pre.drop_first();
        assert(s[0] == pre[0]);
        assert(s[0] != sep);
        assert(s.drop_first() =~= tpre + seq![sep] + post);
        lemma_split_char_step(tpre, post, sep);
        let rest = split_char(s.drop_first(), sep);
        lemma_split_char_nonempty(post, sep);
        assert(rest[0] == tpre);
        assert(seq![s[0]] + rest[0] =~= pre);
        assert(rest.drop_first() =~= split_char(post, sep));
        assert(split_char(s, sep) =~~= seq![pre] + split_char(post, sep));
    }
}

/// The character views of a sequence of string slices.
pub open spec fn str_views(v: Seq<&str>) -> Seq<Seq<char>> {
    v.map_values(|t: &str| t@)
}

/// Splits `s` on `sep`, as `str::split` does.
pub fn split_str<'a>(s: &'a str, sep: char) -> (r: Vec<&'a str>)
    ensures
        str_views(r@) == split_char(s@, sep),
{
    let len = s.unicode_len();
    let mut r: Vec<&str> = Vec::new();
    let mut seg_start: usize = 0;
    let mut i: usize = 0;
    proof {
        assert(s@.subrange(0, len as int) =~= s@);
        assert(str_views(r@) + split_char(s@, sep) =~~= split_char(s@, sep));
    }
    while i < len
        invariant
            0 <= seg_start <= i <= len,
            len == s@.len(),
            forall|j: int| seg_start <= j < i ==> s@[j] != sep,
            split_char(s@, sep) == str_views(r@) + split_char(
                s@.subrange(seg_start as int, len as int),
                sep,
            ),
        decreases len - i,
    {
        if s.get_char(i) == sep {
            let seg = s.substring_char(seg_start, i);
            proof {
                let tail = s@.subrange(seg_start as int, len as int);
                let pre = s@.subrange(seg_start as int, i as int);
                let post = s@.subrange(i as int + 1, len as int);
                assert(tail =~= pre + seq![sep] + post);
                lemma_split_char_step(pre, post, sep);
                assert(str_views(r@.push(seg)) =~= str_views(r@) + seq![pre]);
                assert(str_views(r@) + (seq![pre] + split_char(post, sep)) =~= str_views(
                    r@.push(seg),
                ) + split_char(post, sep));
            }
            r.push(seg);
            seg_start = i + 1;
        }
        i = i + 1;
    }
    let seg = s.substring_char(seg_start, len);
    proof {
        let tail = s@.subrange(seg_start as int, len as int);
        lemma_split_char_no_sep(tail, sep);
        assert(str_views(r@.push(seg)) =~= str_views(r@) + seq![tail]);
    }
    r.push(seg);
    r
}

/// An ASCII decimal digit.
pub open spec fn is_digit(c: char) -> bool {
    '0' <= c && c <= '9'
}

/// The value of one decimal digit.
pub open spec fn digit_val(c: char) -> int {
    c as int - '0' as int
}

/// Every character is a decimal digit.
pub open spec fn all_digits(s: Seq<char>) -> bool {
    forall|j: int| 0 <= j < s.len() ==> is_digit(#[trigger] s[j])
}

/// The value of `s` read as a decimal numeral, most significant digit first.
pub open spec fn digits_val(s: Seq<char>) -> int
    decreases s.len(),
{
    if s.len() == 0 {
        0
    } else {
        digits_val(s.drop_last()) * 10 + digit_val(s.last())
    }
}

/// `s` without one leading plus sign, the digits `u64::from_str` reads.
pub open spec fn strip_sign(s: Seq<char>) -> Seq<char> {
    if s.len() > 0 && s[0] == '+' {
        s.drop_first()
    } else {
        s
    }
}

/// Whether `s.parse::<u64>()` succeeds: an optional leading `+`, then at
/// least one decimal digit, with a value that fits in `u64`.
pub open spec fn parses_as_u64(s: Seq<char>) -> bool {
    let d = strip_sign(s);
    d.len() > 0 && all_digits(d) && digits_val(d) <= u64::MAX
}

/// The number `s` denotes, where `parses_as_u64(s)` holds.
pub open spec fn u64_value(s: Seq<char>) -> int {
    digits_val(strip_sign(s))
}

proof fn lemma_digits_val_bounds(s: Seq<char>)
    requires
        all_digits(s),
    ensures
        digits_val(s) >= 0,
        forall|m: int| 0 <= m <= s.len() ==> digits_val(#[trigger] s.take(m)) <= digits_val(s),
    decreases s.len(),
{
    if s.len() == 0 {
        assert forall|m: int| 0 <= m <= s.len() implies digits_val(#[trigger] s.take(m))
            <= digits_val(s) by {
            assert(s.take(m) =~= s);
        }
    } else {
        let t = s.drop_last();
        assert(all_digits(t));
        lemma_digits_val_bounds(t);
        assert(digit_val(s.last()) >= 0);
        assert forall|m: int| 0 <= m <= s.len() implies digits_val(#[trigger] s.take(m))
            <= digits_val(s) by {
            if m == s.len() {
                assert(s.take(m) =~= s);
            } else {
                assert(s.take(m) =~= t.take(m));
            }
        }
    }
}

/// Parses `s` as `str::parse::<u64>` does: `Some` exactly when `s` is an
/// optional `+` followed by one or more decimal digits whose value fits.
pub fn parse_u64_str(s: &str) -> (r: Option<u64>)
    ensures
        match r {
            Some(v) => parses_as_u64(s@) && v == u64_value(s@),
            None => !parses_as_u64(s@),
        },
{
    let len = s.unicode_len();
    let start: usize = if len > 0 && s.get_char(0) == '+' {
        1
    } else {
        0
    };
    let ghost d = strip_sign(s@);
    proof {
        assert(d =~= s@.subrange(start as int, len as int));
    }
    if start >= len {
        return None;
    }
    let mut acc: u64 = 0;
    let mut i: usize = start;
    while i < len
        invariant
            start <= i <= len,
            len == s@.len(),
            d == strip_sign(s@),
            d == s@.subrange(start as int, len as int),
            all_digits(d.take(i - start)),
            acc == digits_val(d.take(i - start)),
        decreases len - i,
    {
        let c = s.get_char(i);
        if c < '0' || c > '9' {
            proof {
                assert(d[i - start] == c);
                assert(!all_digits(d));
            }
            return None;
        }
        let dv: u64 = ((c as u32) - ('0' as u32)) as u64;
        proof {
            assert(d.take(i - start + 1).drop_last() =~= d.take(i - start));
            assert(d.take(i - start + 1).last() == c);
        }
        let shifted = match acc.checked_mul(10) {
            Some(x) => x,
            None => {
                proof {
                    lemma_overflow_means_no_parse(d, i - start, acc as int, dv as int);
                }
                return None;
            },
        };
        acc = match shifted.checked_add(dv) {
            Some(x) => x,
            None => {
                proof {
                    lemma_overflow_means_no_parse(d, i - start, acc as int, dv as int);
                }
                return None;
            },
        };
        i = i + 1;
    }
    proof {
        assert(d.take(i - start) =~= d);
    }
    Some(acc)
}

proof fn lemma_overflow_means_no_parse(d: Seq<char>, k: int, acc: int, dv: int)
    requires
        0 <= k < d.len(),
        all_digits(d.take(k)),
        is_digit(d[k]),
        acc == digits_val(d.take(k)),
        dv == digit_val(d[k]),
        acc * 10 + dv > u64::MAX,
    ensures
        all_digits(d) ==> digits_val(d) > u64::MAX,
{
    if all_digits(d) {
        lemma_digits_val_bounds(d);
        assert(d.take(k + 1).drop_last() =~= d.take(k));
        assert(d.take(k + 1).last() == d[k]);
        assert(digits_val(d.take(k + 1)) == acc * 10 + dv);
        assert(digits_val(d) >= digits_val(d.take(k + 1)));
    }
}

} // verus!
