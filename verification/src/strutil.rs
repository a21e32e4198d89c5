//! Verified text utilities: ASCII case mapping, splitting on a separator,
//! joining, trimming, substring search, and decimal numerals. Everything is
//! specified over `Seq<char>` views.

use vstd::prelude::*;

verus! {

// ---------------------------------------------------------------------------
// ASCII case mapping
// ---------------------------------------------------------------------------
pub open spec fn is_upper_alpha(c: char) -> bool {
    'A' <= c && c <= 'Z'
}

pub open spec fn is_lower_alpha(c: char) -> bool {
    'a' <= c && c <= 'z'
}

/// The ASCII upper-case image of one character; everything else is unchanged.
pub open spec fn upper_char(c: char) -> char {
    if is_lower_alpha(c) {
        ((c as u32) - 32) as char
    } else {
        c
    }
}

/// The ASCII lower-case image of one character; everything else is unchanged.
pub open spec fn lower_char(c: char) -> char {
    if is_upper_alpha(c) {
        ((c as u32) + 32) as char
    } else {
        c
    }
}

pub open spec fn to_upper(s: Seq<char>) -> Seq<char> {
    s.map_values(|c: char| upper_char(c))
}

pub open spec fn to_lower(s: Seq<char>) -> Seq<char> {
    s.map_values(|c: char| lower_char(c))
}

pub fn upper_char_exec(c: char) -> (r: char)
    ensures
        r == upper_char(c),
{
    if 'a' <= c && c <= 'z' {
        match char::from_u32((c as u32) - 32) {
            Some(u) => u,
            None => {
                proof {
                    assert(false);
                }
                c
            },
        }
    } else {
        c
    }
}

pub fn lower_char_exec(c: char) -> (r: char)
    ensures
        r == lower_char(c),
{
    if 'A' <= c && c <= 'Z' {
        match char::from_u32((c as u32) + 32) {
            Some(u) => u,
            None => {
                proof {
                    assert(false);
                }
                c
            },
        }
    } else {
        c
    }
}

pub fn ascii_upper(s: &str) -> (r: String)
    ensures
        r@ == to_upper(s@),
{
    let n: usize = s.unicode_len();
    let mut r = String::new();
    let mut i: usize = 0;
    while i < n
        invariant
            i <= n,
            n == s@.len(),
            r@ == to_upper(s@.subrange(0, i as int)),
        decreases n - i,
    {
        let c = s.get_char(i);
        r.push(upper_char_exec(c));
        proof {
            assert(to_upper(s@.subrange(0, i + 1 as int)) =~= to_upper(
                s@.subrange(0, i as int),
            ).push(upper_char(s@[i as int])));
        }
        i = i + 1;
    }
    proof {
        assert(s@.subrange(0, n as int) =~= s@);
    }
    r
}

pub fn ascii_lower(s: &str) -> (r: String)
    ensures
        r@ == to_lower(s@),
{
    let n: usize = s.unicode_len();
    let mut r = String::new();
    let mut i: usize = 0;
    while i < n
        invariant
            i <= n,
            n == s@.len(),
            r@ == to_lower(s@.subrange(0, i as int)),
        decreases n - i,
    {
        let c = s.get_char(i);
        r.push(lower_char_exec(c));
        proof {
            assert(to_lower(s@.subrange(0, i + 1 as int)) =~= to_lower(
                s@.subrange(0, i as int),
            ).push(lower_char(s@[i as int])));
        }
        i = i + 1;
    }
    proof {
        assert(s@.subrange(0, n as int) =~= s@);
    }
    r
}

/// Case-insensitive comparison under ASCII case folding.
pub open spec fn eq_ignore_ascii_case(a: Seq<char>, b: Seq<char>) -> bool {
    to_upper(a) == to_upper(b)
}

pub fn str_eq_ignore_case(a: &str, b: &str) -> (r: bool)
    ensures
        r == eq_ignore_ascii_case(a@, b@),
{
    let ua = ascii_upper(a);
    let ub = ascii_upper(b);
    ua == ub
}

// ---------------------------------------------------------------------------
// Splitting and joining
// ---------------------------------------------------------------------------
/// The parts of `s` between occurrences of `sep`: always one part more than
/// there are separators, so the empty string splits to one empty part.
pub open spec fn split_at_seps(s: Seq<char>, sep: char) -> Seq<Seq<char>>
    decreases s.len(),
{
    if s.len() == 0 {
        seq![Seq::<char>::empty()]
    } else if s[0] == sep {
        seq![Seq::<char>::empty()] + split_at_seps(s.drop_first(), sep)
    } else {
        let rest = split_at_seps(s.drop_first(), sep);
        seq![seq![s[0]] + rest[0]] + rest.drop_first()
    }
}

pub proof fn lemma_split_len(s: Seq<char>, sep: char)
    ensures
        split_at_seps(s, sep).len() >= 1,
    decreases s.len(),
{
    if s.len() > 0 {
        lemma_split_len(s.drop_first(), sep);
    }
}

/// A separator-free string splits to just itself.
pub proof fn lemma_split_sep_free(s: Seq<char>, sep: char)
    requires
        forall|i: int| 0 <= i < s.len() ==> s[i] != sep,
    ensures
        split_at_seps(s, sep) =~= seq![s],
    decreases s.len(),
{
    if s.len() > 0 {
        assert(s[0] != sep);
        assert(forall|i: int|
            0 <= i < s.drop_first().len() ==> #[trigger] s.drop_first()[i] == s[i + 1]);
        lemma_split_sep_free(s.drop_first(), sep);
        let rest = split_at_seps(s.drop_first(), sep);
        assert(split_at_seps(s, sep) == seq![seq![s[0]] + rest[0]] + rest.drop_first());
        assert(rest[0] == s.drop_first());
        assert(rest.drop_first() =~= Seq::<Seq<char>>::empty());
        assert(seq![s[0]] + s.drop_first() =~= s);
        assert(seq![seq![s[0]] + rest[0]] + rest.drop_first() =~= seq![s]);
    } else {
        assert(s =~= Seq::<char>::empty());
    }
}

/// Splitting distributes over a separator: the parts of `a + sep + b` are the
/// parts of `a` followed by the parts of `b`.
pub proof fn lemma_split_concat(a: Seq<char>, b: Seq<char>, sep: char)
    ensures
        split_at_seps(a + seq![sep] + b, sep) =~= split_at_seps(a, sep) + split_at_seps(b, sep),
    decreases a.len(),
{
    let s = a + seq![sep] + b;
    if a.len() == 0 {
        assert(s[0] == sep);
        assert(s.drop_first() =~= b);
    } else {
        lemma_split_concat(a.drop_first(), b, sep);
        lemma_split_len(a.drop_first(), sep);
        lemma_split_len(b, sep);
        assert(s.drop_first() =~= a.drop_first() + seq![sep] + b);
        if a[0] == sep {
        } else {
            let rest = split_at_seps(s.drop_first(), sep);
            let ra = split_at_seps(a.drop_first(), sep);
            assert(rest[0] == ra[0]);
            assert(rest.drop_first() =~= ra.drop_first() + split_at_seps(b, sep));
        }
    }
}

/// Splits `s` at every occurrence of `sep`.
pub fn split_str(s: &str, sep: char) -> (r: Vec<String>)
    ensures
        r.deep_view() == split_at_seps(s@, sep),
{
    let n: usize = s.unicode_len();
    let mut parts: Vec<String> = Vec::new();
    proof {
        assert(s@.subrange(0, n as int) =~= s@);
        assert(parts.deep_view() =~= Seq::<Seq<char>>::empty());
        assert(parts.deep_view() + split_at_seps(s@, sep) =~= split_at_seps(s@, sep));
    }
    let mut start: usize = 0;
    let mut i: usize = 0;
    while i < n
        invariant
            start <= i <= n,
            n == s@.len(),
            split_at_seps(s@, sep) =~= parts.deep_view() + split_at_seps(
                s@.subrange(start as int, n as int),
                sep,
            ),
            forall|j: int| start <= j < i ==> s@[j] != sep,
        decreases n - i,
    {
        let c = s.get_char(i);
        if c == sep {
            let ghost prev = parts.deep_view();
            let piece = s.substring_char(start, i).to_owned();
            parts.push(piece);
            proof {
                assert(parts.deep_view() =~= prev.push(piece@));
                let aa = s@.subrange(start as int, i as int);
                let bb = s@.subrange(i + 1 as int, n as int);
                assert(s@.subrange(start as int, n as int) =~= aa + seq![sep] + bb);
                lemma_split_concat(aa, bb, sep);
                lemma_split_sep_free(aa, sep);
            }
            start = i + 1;
        }
        i = i + 1;
    }
    let ghost prev = parts.deep_view();
    let piece = s.substring_char(start, n).to_owned();
    parts.push(piece);
    proof {
        assert(parts.deep_view() =~= prev.push(piece@));
        lemma_split_sep_free(s@.subrange(start as int, n as int), sep);
    }
    parts
}

/// The parts interleaved with `sep`: the inverse of splitting.
pub open spec fn join_with(parts: Seq<Seq<char>>, sep: Seq<char>) -> Seq<char>
    decreases parts.len(),
{
    if parts.len() == 0 {
        Seq::<char>::empty()
    } else if parts.len() == 1 {
        parts[0]
    } else {
        parts[0] + sep + join_with(parts.drop_first(), sep)
    }
}

pub proof fn lemma_join_push(parts: Seq<Seq<char>>, sep: Seq<char>, last: Seq<char>)
    requires
        parts.len() >= 1,
    ensures
        join_with(parts.push(last), sep) =~= join_with(parts, sep) + sep + last,
    decreases parts.len(),
{
    if parts.len() == 1 {
        assert(parts.push(last).drop_first() =~= seq![last]);
        assert(parts.push(last)[0] == parts[0]);
        assert(join_with(seq![last], sep) == last);
        assert(join_with(parts.push(last), sep) == parts[0] + sep + last);
    } else {
        lemma_join_push(parts.drop_first(), sep, last);
        assert(parts.push(last).drop_first() =~= parts.drop_first().push(last));
        assert(parts.push(last)[0] == parts[0]);
        let df = parts.drop_first();
        assert(join_with(parts.push(last), sep) == parts[0] + sep + join_with(df.push(last), sep));
        assert(join_with(df.push(last), sep) == join_with(df, sep) + sep + last);
        assert(join_with(parts, sep) == parts[0] + sep + join_with(df, sep));
        assert(parts[0] + sep + (join_with(df, sep) + sep + last) =~= (parts[0] + sep + join_with(
            df,
            sep,
        )) + sep + last);
    }
}

/// Joins the strings with the separator between neighbours.
pub fn join_strings(parts: &Vec<String>, sep: &str) -> (r: String)
    ensures
        r@ == join_with(parts.deep_view(), sep@),
{
    let mut r = String::new();
    let mut i: usize = 0;
    while i < parts.len()
        invariant
            i <= parts.len(),
            r@ == join_with(parts.deep_view().subrange(0, i as int), sep@),
        decreases parts.len() - i,
    {
        if i > 0 {
            r.append(sep);
        }
        r.append(parts[i].as_str());
        proof {
            let dv = parts.deep_view();
            assert(dv.subrange(0, i + 1 as int) =~= dv.subrange(0, i as int).push(dv[i as int]));
            if i > 0 {
                lemma_join_push(dv.subrange(0, i as int), sep@, dv[i as int]);
            }
        }
        i = i + 1;
    }
    proof {
        assert(parts.deep_view().subrange(0, parts.len() as int) =~= parts.deep_view());
    }
    r
}

/// Joins three pieces of text.
pub fn concat3(a: &str, b: &str, c: &str) -> (r: String)
    ensures
        r@ == a@ + b@ + c@,
{
    let mut m = a.to_owned();
    m.append(b);
    m.append(c);
    m
}

/// Joins five pieces of text.
pub fn concat5(a: &str, b: &str, c: &str, d: &str, e: &str) -> (r: String)
    ensures
        r@ == a@ + b@ + c@ + d@ + e@,
{
    let mut m = a.to_owned();
    m.append(b);
    m.append(c);
    m.append(d);
    m.append(e);
    m
}

// ---------------------------------------------------------------------------
// Trimming
// ---------------------------------------------------------------------------
/// Drops every leading character equal to `c`.
pub open spec fn trim_left_char(s: Seq<char>, c: char) -> Seq<char>
    decreases s.len(),
{
    if s.len() > 0 && s[0] == c {
        trim_left_char(s.drop_first(), c)
    } else {
        s
    }
}

/// Drops every trailing character equal to `c`.
pub open spec fn trim_right_char(s: Seq<char>, c: char) -> Seq<char>
    decreases s.len(),
{
    if s.len() > 0 && s.last() == c {
        trim_right_char(s.drop_last(), c)
    } else {
        s
    }
}

pub open spec fn trim_char(s: Seq<char>, c: char) -> Seq<char> {
    trim_right_char(trim_left_char(s, c), c)
}

proof fn lemma_trim_left_range(s: Seq<char>, c: char, start: int)
    requires
        0 <= start <= s.len(),
        forall|j: int| 0 <= j < start ==> s[j] == c,
    ensures
        trim_left_char(s, c) == trim_left_char(s.subrange(start, s.len() as int), c),
    decreases start,
{
    if start > 0 {
        assert(s.len() > 0 && s[0] == c);
        assert(s.drop_first() =~= s.subrange(1, s.len() as int));
        lemma_trim_left_range(s.subrange(1, s.len() as int), c, start - 1);
        assert(s.subrange(1, s.len() as int).subrange(start - 1, s.len() - 1) =~= s.subrange(
            start,
            s.len() as int,
        ));
    } else {
        assert(s.subrange(0, s.len() as int) =~= s);
    }
}

proof fn lemma_trim_right_range(s: Seq<char>, c: char, end: int)
    requires
        0 <= end <= s.len(),
        forall|j: int| end <= j < s.len() ==> s[j] == c,
    ensures
        trim_right_char(s, c) == trim_right_char(s.subrange(0, end), c),
    decreases s.len() - end,
{
    if end < s.len() {
        assert(s.len() > 0 && s.last() == c);
        assert(s.drop_last() =~= s.subrange(0, s.len() - 1));
        lemma_trim_right_range(s.subrange(0, s.len() - 1), c, end);
        assert(s.subrange(0, s.len() - 1).subrange(0, end) =~= s.subrange(0, end));
    } else {
        assert(s.subrange(0, s.len() as int) =~= s);
    }
}

/// Strips `c` from both ends of `s`, as many as stand there.
pub fn trim_matches_char(s: &str, c: char) -> (r: String)
    ensures
        r@ == trim_char(s@, c),
{
    let n: usize = s.unicode_len();
    let mut start: usize = 0;
    while start < n && s.get_char(start) == c
        invariant
            start <= n,
            n == s@.len(),
            forall|j: int| 0 <= j < start ==> s@[j] == c,
        decreases n - start,
    {
        start = start + 1;
    }
    let mut end: usize = n;
    while end > start && s.get_char(end - 1) == c
        invariant
            start <= end <= n,
            n == s@.len(),
            forall|j: int| end <= j < n ==> s@[j] == c,
        decreases end,
    {
        end = end - 1;
    }
    let r = s.substring_char(start, end).to_owned();
    proof {
        lemma_trim_left_range(s@, c, start as int);
        let tail = s@.subrange(start as int, n as int);
        if end > start {
            // the middle keeps a character different from `c` at each end
            assert(tail[0] != c);
            assert(trim_left_char(s@, c) == tail);
            lemma_trim_right_range(tail, c, end - start);
            assert(tail.subrange(0, end - start) =~= s@.subrange(start as int, end as int));
            assert(s@.subrange(start as int, end as int).len() > 0);
            assert(s@.subrange(start as int, end as int).last() != c);
        } else {
            assert(tail =~= Seq::<char>::empty()) by {
                if tail.len() > 0 {
                    assert(s@[start as int] == c);
                    assert(tail[0] == c);
                }
            }
            assert(s@.subrange(start as int, end as int) =~= Seq::<char>::empty());
        }
    }
    r
}

// ---------------------------------------------------------------------------
// Substring search and simple predicates
// ---------------------------------------------------------------------------
/// `needle` occurs contiguously somewhere in `s`.
pub open spec fn contains_seq(s: Seq<char>, needle: Seq<char>) -> bool {
    exists|i: int|
        0 <= i && i + needle.len() <= s.len() && #[trigger] s.subrange(i, i + needle.len())
            == needle
}

pub fn contains_str(s: &str, needle: &str) -> (r: bool)
    ensures
        r == contains_seq(s@, needle@),
{
    let n: usize = s.unicode_len();
    let m: usize = needle.unicode_len();
    if m > n {
        proof {
            if contains_seq(s@, needle@) {
                let i = choose|i: int|
                    0 <= i && i + needle@.len() <= s@.len() && #[trigger] s@.subrange(
                        i,
                        i + needle@.len(),
                    ) == needle@;
                assert(false);
            }
        }
        return false;
    }
    if m == 0 {
        proof {
            assert(s@.subrange(0, 0 + needle@.len() as int) =~= needle@);
        }
        return true;
    }
    let mut i: usize = 0;
    while i <= n - m
        invariant
            1 <= m <= n,
            n == s@.len(),
            m == needle@.len(),
            i <= n - m + 1,
            forall|k: int| 0 <= k < i ==> #[trigger] s@.subrange(k, k + needle@.len()) != needle@,
        decreases n - i,
    {
        let piece = s.substring_char(i, i + m).to_owned();
        let nd = needle.to_owned();
        if piece == nd {
            proof {
                assert(s@.subrange(i as int, i + needle@.len()) == needle@);
            }
            return true;
        }
        i = i + 1;
    }
    proof {
        assert(forall|k: int|
            0 <= k && k + needle@.len() <= s@.len() ==> #[trigger] s@.subrange(
                k,
                k + needle@.len(),
            ) != needle@);
    }
    false
}

pub fn starts_with_char(s: &str, c: char) -> (r: bool)
    ensures
        r == (s@.len() > 0 && s@[0] == c),
{
    if s.unicode_len() == 0 {
        false
    } else {
        s.get_char(0) == c
    }
}

// ---------------------------------------------------------------------------
// Decimal numerals
// ---------------------------------------------------------------------------
pub open spec fn is_digit_char(c: char) -> bool {
    '0' <= c && c <= '9'
}

pub open spec fn digit_value(c: char) -> int {
    c as int - '0' as int
}

pub open spec fn all_digits(s: Seq<char>) -> bool {
    forall|i: int| 0 <= i < s.len() ==> is_digit_char(#[trigger] s[i])
}

/// The number a digit string denotes, most significant digit first.
pub open spec fn digits_value(s: Seq<char>) -> int
    decreases s.len(),
{
    if s.len() == 0 {
        0
    } else {
        10 * digits_value(s.drop_last()) + digit_value(s.last())
    }
}

proof fn lemma_digits_value_nonneg(s: Seq<char>)
    requires
        all_digits(s),
    ensures
        digits_value(s) >= 0,
    decreases s.len(),
{
    if s.len() > 0 {
        lemma_digits_value_nonneg(s.drop_last());
    }
}

proof fn lemma_digits_value_extend(s: Seq<char>, k: int)
    requires
        all_digits(s),
        0 <= k <= s.len(),
    ensures
        digits_value(s) >= digits_value(s.subrange(0, k)),
    decreases s.len() - k,
{
    if k < s.len() {
        lemma_digits_value_extend(s, k + 1);
        let p = s.subrange(0, k + 1);
        assert(p.drop_last() =~= s.subrange(0, k));
        lemma_digits_value_nonneg(s.subrange(0, k));
        assert(digits_value(p) == 10 * digits_value(s.subrange(0, k)) + digit_value(p.last()));
    } else {
        assert(s.subrange(0, k) =~= s);
    }
}

/// Parses an unsigned decimal numeral: every character a digit, at least one,
/// and the value at most `u64::MAX`.
pub fn parse_u64_digits(s: &str) -> (r: Option<u64>)
    ensures
        match r {
            Some(v) => s@.len() > 0 && all_digits(s@) && v as int == digits_value(s@),
            None => s@.len() == 0 || !all_digits(s@) || digits_value(s@) > u64::MAX,
        },
{
    let n: usize = s.unicode_len();
    if n == 0 {
        return None;
    }
    let mut acc: u64 = 0;
    let mut i: usize = 0;
    while i < n
        invariant
            i <= n,
            n == s@.len(),
            all_digits(s@.subrange(0, i as int)),
            acc as int == digits_value(s@.subrange(0, i as int)),
        decreases n - i,
    {
        let c = s.get_char(i);
        if !('0' <= c && c <= '9') {
            return None;
        }
        let d: u64 = ((c as u32) - 48) as u64;
        proof {
            assert(s@.subrange(0, i + 1 as int).drop_last() =~= s@.subrange(0, i as int));
        }
        if acc > (u64::MAX - d) / 10 {
            proof {
                let md = (u64::MAX - d) as int;
                assert(md == 10 * (md / 10) + md % 10);
                assert(10 * (acc as int) + d as int > u64::MAX);
                assert(digits_value(s@.subrange(0, i + 1 as int)) > u64::MAX);
                if all_digits(s@) {
                    assert(is_digit_char(s@[i as int]));
                    assert(all_digits(s@.subrange(0, i + 1 as int))) by {
                        assert(forall|j: int|
                            0 <= j < i + 1 ==> is_digit_char(
                                #[trigger] s@.subrange(0, i + 1 as int)[j],
                            ));
                    }
                    lemma_digits_value_extend(s@, i + 1);
                    assert(s@.subrange(0, s@.len() as int) =~= s@);
                }
            }
            return None;
        }
        proof {
            assert(forall|j: int|
                0 <= j < i + 1 ==> is_digit_char(#[trigger] s@.subrange(0, i + 1 as int)[j]));
        }
        acc = acc * 10 + d;
        i = i + 1;
    }
    proof {
        assert(s@.subrange(0, n as int) =~= s@);
    }
    Some(acc)
}

/// The canonical decimal numeral of `v`: no sign, no leading zero.
pub open spec fn dec_digit(v: nat) -> char {
    (('0' as u32) + v as u32) as char
}

pub open spec fn u64_string(v: nat) -> Seq<char>
    decreases v,
{
    if v < 10 {
        seq![dec_digit(v)]
    } else {
        u64_string(v / 10).push(dec_digit(v % 10))
    }
}

fn dec_digit_exec(v: u64) -> (r: char)
    requires
        v < 10,
    ensures
        r == dec_digit(v as nat),
{
    match char::from_u32(48 + (v as u32)) {
        Some(c) => c,
        None => {
            proof {
                assert(false);
            }
            '0'
        },
    }
}

pub fn u64_to_string(v: u64) -> (r: String)
    ensures
        r@ == u64_string(v as nat),
    decreases v,
{
    if v < 10 {
        let mut r = String::new();
        r.push(dec_digit_exec(v));
        proof {
            assert(Seq::<char>::empty().push(dec_digit(v as nat)) =~= seq![dec_digit(v as nat)]);
        }
        r
    } else {
        let mut r = u64_to_string(v / 10);
        r.push(dec_digit_exec(v % 10));
        r
    }
}

/// The canonical decimal numeral of a signed value: a minus sign where it is
/// negative, then the numeral of the magnitude.
pub open spec fn i64_string(v: int) -> Seq<char> {
    if v < 0 {
        seq!['-'] + u64_string((-v) as nat)
    } else {
        u64_string(v as nat)
    }
}

pub fn i64_to_string(v: i64) -> (r: String)
    ensures
        r@ == i64_string(v as int),
{
    if v >= 0 {
        u64_to_string(v as u64)
    } else {
        let mag: u64 = if v == i64::MIN {
            9223372036854775808u64
        } else {
            (-v) as u64
        };
        let mut r = String::new();
        r.push('-');
        let tail = u64_to_string(mag);
        r.append(tail.as_str());
        proof {
            assert(Seq::<char>::empty().push('-') + u64_string(mag as nat) =~= seq!['-']
                + u64_string(mag as nat));
        }
        r
    }
}

/// A signed 64-bit numeral as Rust reads one: an optional sign, then digits,
/// the value within the type's range.
pub open spec fn i64_of_str(s: Seq<char>) -> Option<int> {
    let neg = s.len() > 0 && s[0] == '-';
    let ds = if s.len() > 0 && (s[0] == '-' || s[0] == '+') {
        s.drop_first()
    } else {
        s
    };
    if ds.len() > 0 && all_digits(ds) {
        let m = if neg {
            -digits_value(ds)
        } else {
            digits_value(ds)
        };
        if i64::MIN <= m <= i64::MAX {
            Some(m)
        } else {
            None
        }
    } else {
        None
    }
}

pub fn parse_i64(s: &str) -> (r: Option<i64>)
    ensures
        match r {
            Some(v) => i64_of_str(s@) == Some(v as int),
            None => i64_of_str(s@) is None,
        },
{
    let n: usize = s.unicode_len();
    if n == 0 {
        return None;
    }
    let first = s.get_char(0);
    let neg = first == '-';
    let digits = if first == '-' || first == '+' {
        s.substring_char(1, n)
    } else {
        s.substring_char(0, n)
    };
    proof {
        if first == '-' || first == '+' {
            assert(s@.subrange(1, n as int) =~= s@.drop_first());
        } else {
            assert(s@.subrange(0, n as int) =~= s@);
        }
    }
    match parse_u64_digits(digits) {
        None => {
            proof {
                let ds = if s@[0] == '-' || s@[0] == '+' {
                    s@.drop_first()
                } else {
                    s@
                };
                if ds.len() > 0 && all_digits(ds) {
                    // the magnitude overflows u64, so it is far outside i64
                    assert(digits_value(ds) > u64::MAX);
                }
            }
            None
        },
        Some(m) => {
            if neg {
                if m <= 9223372036854775807u64 {
                    Some(-(m as i64))
                } else if m == 9223372036854775808u64 {
                    Some(i64::MIN)
                } else {
                    None
                }
            } else {
                if m <= 9223372036854775807u64 {
                    Some(m as i64)
                } else {
                    None
                }
            }
        },
    }
}

/// An unsigned numeral as Rust reads a `u16`: an optional plus sign, then
/// digits, the value at most `u16::MAX`.
pub open spec fn u16_of_str(s: Seq<char>) -> Option<int> {
    let ds = if s.len() > 0 && s[0] == '+' {
        s.drop_first()
    } else {
        s
    };
    if ds.len() > 0 && all_digits(ds) && digits_value(ds) <= u16::MAX {
        Some(digits_value(ds))
    } else {
        None
    }
}

pub fn parse_u16(s: &str) -> (r: Option<u16>)
    ensures
        match r {
            Some(v) => u16_of_str(s@) == Some(v as int),
            None => u16_of_str(s@) is None,
        },
{
    let n: usize = s.unicode_len();
    if n == 0 {
        return None;
    }
    let digits = if s.get_char(0) == '+' {
        s.substring_char(1, n)
    } else {
        s.substring_char(0, n)
    };
    proof {
        if s@[0] == '+' {
            assert(s@.subrange(1, n as int) =~= s@.drop_first());
        } else {
            assert(s@.subrange(0, n as int) =~= s@);
        }
    }
    match parse_u64_digits(digits) {
        None => {
            proof {
                let ds = if s@[0] == '+' {
                    s@.drop_first()
                } else {
                    s@
                };
                if ds.len() > 0 && all_digits(ds) && digits_value(ds) <= u16::MAX {
                    assert(digits_value(ds) <= u64::MAX);
                }
            }
            None
        },
        Some(m) => {
            if m <= 65535u64 {
                Some(m as u16)
            } else {
                None
            }
        },
    }
}


/// A raw parameter text brought toward the JSON number grammar, keeping the
/// value a double parse would read: a leading plus sign is dropped, and a bare
/// leading or trailing dot is padded with a zero.
pub open spec fn normalize_number_text(s: Seq<char>) -> Seq<char> {
    let sign: Seq<char> = if s.len() > 0 && s[0] == '-' {
        seq!['-']
    } else {
        Seq::<char>::empty()
    };
    let mag = if s.len() > 0 && (s[0] == '+' || s[0] == '-') {
        s.drop_first()
    } else {
        s
    };
    let m1 = if mag.len() >= 2 && mag[0] == '.' {
        seq!['0'] + mag
    } else {
        mag
    };
    let m2 = if m1.len() >= 2 && m1.last() == '.' {
        m1.push('0')
    } else {
        m1
    };
    sign + m2
}

/// Normalizes a number's text: drops a leading plus, pads a bare leading or
/// trailing dot with a zero.
pub fn normalize_number_token(raw: &str) -> (r: String)
    ensures
        r@ == normalize_number_text(raw@),
{
    let n: usize = raw.unicode_len();
    if n == 0 {
        let r = raw.to_owned();
        proof {
            assert(normalize_number_text(raw@) =~= raw@);
        }
        return r;
    }
    let c0 = raw.get_char(0);
    let neg = c0 == '-';
    let signed = c0 == '+' || c0 == '-';
    let mag = if signed {
        raw.substring_char(1, n)
    } else {
        raw.substring_char(0, n)
    };
    proof {
        if signed {
            assert(raw@.subrange(1, n as int) =~= raw@.drop_first());
        } else {
            assert(raw@.subrange(0, n as int) =~= raw@);
        }
    }
    let mlen: usize = mag.unicode_len();
    let leading = mlen >= 2 && mag.get_char(0) == '.';
    let trailing = mlen >= 2 && mag.get_char(mlen - 1) == '.';
    let mut out = String::new();
    if neg {
        out.push('-');
    }
    if leading {
        out.push('0');
    }
    out.append(mag);
    if trailing {
        out.push('0');
    }
    proof {
        let spec_mag = if raw@.len() > 0 && (raw@[0] == '+' || raw@[0] == '-') {
            raw@.drop_first()
        } else {
            raw@
        };
        let m1 = if spec_mag.len() >= 2 && spec_mag[0] == '.' {
            seq!['0'] + spec_mag
        } else {
            spec_mag
        };
        assert(mag@ == spec_mag);
        if leading {
            assert(m1.len() >= 2 && m1.last() == '.' <==> trailing);
        }
        assert(out@ =~= normalize_number_text(raw@));
    }
    out
}

// ---------------------------------------------------------------------------
// Whitespace and header values
// ---------------------------------------------------------------------------
/// The characters Rust's `char::is_whitespace` accepts: the Unicode
/// White_Space code points.
pub open spec fn is_ws_char(c: char) -> bool {
    c == ' ' || c == '\t' || c == '\n' || c == '\u{B}' || c == '\u{C}' || c == '\r' || c == '\u{85}'
        || c == '\u{A0}' || c == '\u{1680}' || ('\u{2000}' <= c && c <= '\u{200A}') || c
        == '\u{2028}' || c == '\u{2029}' || c == '\u{202F}' || c == '\u{205F}' || c == '\u{3000}'
}

pub fn is_ws_char_exec(c: char) -> (r: bool)
    ensures
        r == is_ws_char(c),
{
    c == ' ' || c == '\t' || c == '\n' || c == '\u{B}' || c == '\u{C}' || c == '\r' || c == '\u{85}'
        || c == '\u{A0}' || c == '\u{1680}' || ('\u{2000}' <= c && c <= '\u{200A}') || c
        == '\u{2028}' || c == '\u{2029}' || c == '\u{202F}' || c == '\u{205F}' || c == '\u{3000}'
}

/// Drops every leading whitespace character.
pub open spec fn trim_left_ws(s: Seq<char>) -> Seq<char>
    decreases s.len(),
{
    if s.len() > 0 && is_ws_char(s[0]) {
        trim_left_ws(s.drop_first())
    } else {
        s
    }
}

/// Drops every trailing whitespace character.
pub open spec fn trim_right_ws(s: Seq<char>) -> Seq<char>
    decreases s.len(),
{
    if s.len() > 0 && is_ws_char(s.last()) {
        trim_right_ws(s.drop_last())
    } else {
        s
    }
}

pub open spec fn trim_ws(s: Seq<char>) -> Seq<char> {
    trim_right_ws(trim_left_ws(s))
}

proof fn lemma_trim_left_ws_range(s: Seq<char>, start: int)
    requires
        0 <= start <= s.len(),
        forall|j: int| 0 <= j < start ==> is_ws_char(#[trigger] s[j]),
    ensures
        trim_left_ws(s) == trim_left_ws(s.subrange(start, s.len() as int)),
    decreases start,
{
    if start > 0 {
        assert(s.len() > 0 && is_ws_char(s[0]));
        assert(s.drop_first() =~= s.subrange(1, s.len() as int));
        lemma_trim_left_ws_range(s.subrange(1, s.len() as int), start - 1);
        assert(s.subrange(1, s.len() as int).subrange(start - 1, s.len() - 1) =~= s.subrange(
            start,
            s.len() as int,
        ));
    } else {
        assert(s.subrange(0, s.len() as int) =~= s);
    }
}

proof fn lemma_trim_right_ws_range(s: Seq<char>, end: int)
    requires
        0 <= end <= s.len(),
        forall|j: int| end <= j < s.len() ==> is_ws_char(#[trigger] s[j]),
    ensures
        trim_right_ws(s) == trim_right_ws(s.subrange(0, end)),
    decreases s.len() - end,
{
    if end < s.len() {
        assert(s.len() > 0 && is_ws_char(s.last()));
        assert(s.drop_last() =~= s.subrange(0, s.len() - 1));
        lemma_trim_right_ws_range(s.subrange(0, s.len() - 1), end);
        assert(s.subrange(0, s.len() - 1).subrange(0, end) =~= s.subrange(0, end));
    } else {
        assert(s.subrange(0, s.len() as int) =~= s);
    }
}

/// Strips whitespace from both ends, as Rust's `str::trim` does.
pub fn trim_str(s: &str) -> (r: String)
    ensures
        r@ == trim_ws(s@),
{
    let n: usize = s.unicode_len();
    let mut start: usize = 0;
    while start < n && is_ws_char_exec(s.get_char(start))
        invariant
            start <= n,
            n == s@.len(),
            forall|j: int| 0 <= j < start ==> is_ws_char(#[trigger] s@[j]),
        decreases n - start,
    {
        start = start + 1;
    }
    let mut end: usize = n;
    while end > start && is_ws_char_exec(s.get_char(end - 1))
        invariant
            start <= end <= n,
            n == s@.len(),
            forall|j: int| end <= j < n ==> is_ws_char(#[trigger] s@[j]),
        decreases end,
    {
        end = end - 1;
    }
    let r = s.substring_char(start, end).to_owned();
    proof {
        lemma_trim_left_ws_range(s@, start as int);
        let tail = s@.subrange(start as int, n as int);
        if end > start {
            assert(!is_ws_char(tail[0]));
            assert(trim_left_ws(s@) == tail);
            lemma_trim_right_ws_range(tail, end - start);
            assert(tail.subrange(0, end - start) =~= s@.subrange(start as int, end as int));
            assert(s@.subrange(start as int, end as int).len() > 0);
            assert(!is_ws_char(s@.subrange(start as int, end as int).last()));
        } else {
            assert(tail =~= Seq::<char>::empty()) by {
                if tail.len() > 0 {
                    assert(is_ws_char(s@[start as int]));
                    assert(is_ws_char(tail[0]));
                }
            }
            assert(s@.subrange(start as int, end as int) =~= Seq::<char>::empty());
        }
    }
    r
}

/// A string an HTTP header can carry: no control characters but the tab, and
/// no delete character; everything from the space upward passes.
pub open spec fn valid_header_value_char(c: char) -> bool {
    c == '\t' || (32 <= c as u32 && c as u32 != 127)
}

pub open spec fn valid_header_value(s: Seq<char>) -> bool {
    forall|i: int| 0 <= i < s.len() ==> valid_header_value_char(#[trigger] s[i])
}

pub fn is_valid_header_value(s: &str) -> (r: bool)
    ensures
        r == valid_header_value(s@),
{
    let n: usize = s.unicode_len();
    let mut i: usize = 0;
    while i < n
        invariant
            i <= n,
            n == s@.len(),
            forall|j: int| 0 <= j < i ==> valid_header_value_char(#[trigger] s@[j]),
        decreases n - i,
    {
        let c = s.get_char(i);
        if !(c == '\t' || (32 <= c as u32 && c as u32 != 127)) {
            return false;
        }
        i = i + 1;
    }
    true
}

} // verus!
