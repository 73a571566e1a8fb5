//! String helpers shared by the wire codec, the log writers and the log
//! parsers: separator-based splitting and joining, decimal formatting and
//! parsing, substring search, trimming and lexicographic sorting.

use vstd::multiset::Multiset;
use vstd::prelude::*;
use vstd::string::*;

verus! {

/// The tokens obtained by cutting `s` at every occurrence of `sep`.
/// Mirrors `str::split` on a single-character pattern: the result always
/// holds at least one token, and consecutive separators yield empty tokens.
pub open spec fn split_chars(s: Seq<char>, sep: char) -> Seq<Seq<char>>
    decreases s.len(),
{
    if s.len() == 0 {
        seq![Seq::<char>::empty()]
    } else if s[0] == sep {
        seq![Seq::<char>::empty()] + split_chars(s.drop_first(), sep)
    } else {
        let rest = split_chars(s.drop_first(), sep);
        seq![seq![s[0]] + rest[0]] + rest.drop_first()
    }
}

pub proof fn lemma_split_len(s: Seq<char>, sep: char)
    ensures
        split_chars(s, sep).len() >= 1,
    decreases s.len(),
{
    if s.len() != 0 {
        lemma_split_len(s.drop_first(), sep);
    }
}

/// A separator-free string is a single token.
pub proof fn lemma_split_no_sep(s: Seq<char>, sep: char)
    requires
        forall|i: int| 0 <= i < s.len() ==> s[i] != sep,
    ensures
        split_chars(s, sep) == seq![s],
    decreases s.len(),
{
    if s.len() == 0 {
        assert(split_chars(s, sep) =~~= seq![s]);
    } else {
        lemma_split_no_sep(s.drop_first(), sep);
        assert(seq![s[0]] + s.drop_first() =~= s);
        assert(split_chars(s, sep) =~~= seq![s]);
    }
}

/// Splitting cuts independently on each side of a separator occurrence.
pub proof fn lemma_split_concat(a: Seq<char>, b: Seq<char>, sep: char)
    ensures
        split_chars(a + seq![sep] + b, sep) == split_chars(a, sep) + split_chars(b, sep),
    decreases a.len(),
{
    lemma_split_len(b, sep);
    if a.len() == 0 {
        assert(a + seq![sep] + b =~= seq![sep] + b);
        assert((seq![sep] + b).drop_first() =~= b);
        assert(split_chars(a + seq![sep] + b, sep) =~~= split_chars(a, sep) + split_chars(b, sep));
    } else {
        lemma_split_concat(a.drop_first(), b, sep);
        lemma_split_len(a.drop_first(), sep);
        let s = a + seq![sep] + b;
        assert(s[0] == a[0]);
        assert(s.drop_first() =~= a.drop_first() + seq![sep] + b);
        if a[0] == sep {
            assert(split_chars(s, sep) =~~= split_chars(a, sep) + split_chars(b, sep));
        } else {
            let rest = split_chars(a.drop_first() + seq![sep] + b, sep);
            let ra = split_chars(a.drop_first(), sep);
            assert(rest[0] == ra[0]);
            assert(rest.drop_first() =~= ra.drop_first() + split_chars(b, sep));
            assert(split_chars(s, sep) =~~= split_chars(a, sep) + split_chars(b, sep));
        }
    }
}

/// Cuts `s` at every occurrence of `sep`, as `str::split` does on a
/// single-character pattern.
pub fn split_on(s: &str, sep: char) -> (r: Vec<String>)
    ensures
        r@.len() == split_chars(s@, sep).len(),
        forall|i: int| 0 <= i < r@.len() ==> #[trigger] r@[i]@ == split_chars(s@, sep)[i],
{
    let len = s.unicode_len();
    let mut r: Vec<String> = Vec::new();
    let mut start: usize = 0;
    let mut i: usize = 0;
    proof {
        assert(s@.subrange(0, len as int) =~= s@);
        assert(r@.map_values(|t: String| t@) =~= Seq::<Seq<char>>::empty());
    }
    while i < len
        invariant
            0 <= start <= i <= len,
            len == s@.len(),
            forall|k: int| start <= k < i ==> s@[k] != sep,
            split_chars(s@, sep) == r@.map_values(|t: String| t@) + split_chars(
                s@.subrange(start as int, len as int),
                sep,
            ),
        decreases len - i,
    {
        let c = s.get_char(i);
        if c == sep {
            let token = s.substring_char(start, i).to_owned();
            proof {
                let head = s@.subrange(start as int, i as int);
                let tail = s@.subrange(i + 1, len as int);
                assert(s@.subrange(start as int, len as int) =~= head + seq![sep] + tail);
                lemma_split_concat(head, tail, sep);
                lemma_split_no_sep(head, sep);
                assert(r@.push(token).map_values(|t: String| t@) =~= r@.map_values(
                    |t: String| t@,
                ).push(token@));
                assert(r@.map_values(|t: String| t@).push(head) + split_chars(tail, sep) =~= r@
                    .map_values(|t: String| t@) + (seq![head] + split_chars(tail, sep)));
            }
            r.push(token);
            start = i + 1;
        }
        i = i + 1;
    }
    let token = s.substring_char(start, len).to_owned();
    proof {
        let head = s@.subrange(start as int, len as int);
        lemma_split_no_sep(head, sep);
        assert(r@.push(token).map_values(|t: String| t@) =~= r@.map_values(
            |t: String| t@,
        ).push(head));
        assert(r@.map_values(|t: String| t@) + seq![head] =~= r@.map_values(
            |t: String| t@,
        ).push(head));
    }
    r.push(token);
    r
}

/// The concatenation of `parts` with `sep` between consecutive parts.
pub open spec fn join_chars(parts: Seq<Seq<char>>, sep: Seq<char>) -> Seq<char>
    decreases parts.len(),
{
    if parts.len() == 0 {
        Seq::empty()
    } else if parts.len() == 1 {
        parts[0]
    } else {
        parts[0] + sep + join_chars(parts.drop_first(), sep)
    }
}

pub proof fn lemma_join_push(parts: Seq<Seq<char>>, x: Seq<char>, sep: Seq<char>)
    ensures
        join_chars(parts.push(x), sep) == if parts.len() == 0 {
            x
        } else {
            join_chars(parts, sep) + sep + x
        },
    decreases parts.len(),
{
    if parts.len() == 0 {
        assert(parts.push(x)[0] == x);
    } else {
        lemma_join_push(parts.drop_first(), x, sep);
        assert(parts.push(x).drop_first() =~~= parts.drop_first().push(x));
        assert(parts.push(x)[0] == parts[0]);
        if parts.len() == 1 {
            assert(join_chars(parts.push(x), sep) =~= join_chars(parts, sep) + sep + x);
        } else {
            assert(parts[0] + sep + (join_chars(parts.drop_first(), sep) + sep + x) =~= (parts[0]
                + sep + join_chars(parts.drop_first(), sep)) + sep + x);
        }
    }
}

/// Joins `parts` with `sep` between consecutive parts, as `[&str]::join`
/// does.
pub fn join_with(parts: &Vec<String>, sep: &str) -> (r: String)
    ensures
        r@ == join_chars(parts@.map_values(|t: String| t@), sep@),
{
    let mut r = String::new();
    let mut i: usize = 0;
    let ghost views = parts@.map_values(|t: String| t@);
    proof {
        assert(views.take(0) =~~= Seq::<Seq<char>>::empty());
    }
    while i < parts.len()
        invariant
            0 <= i <= parts@.len(),
            views == parts@.map_values(|t: String| t@),
            r@ == join_chars(views.take(i as int), sep@),
        decreases parts@.len() - i,
    {
        if i > 0 {
            r.append(sep);
        }
        r.append(parts[i].as_str());
        proof {
            assert(views.take(i + 1) =~~= views.take(i as int).push(views[i as int]));
            lemma_join_push(views.take(i as int), views[i as int], sep@);
        }
        i = i + 1;
    }
    proof {
        assert(views.take(parts@.len() as int) =~~= views);
    }
    r
}

/// The decimal digit character for a value below ten.
pub open spec fn digit_char(d: int) -> char {
    if d == 0 {
        '0'
    } else if d == 1 {
        '1'
    } else if d == 2 {
        '2'
    } else if d == 3 {
        '3'
    } else if d == 4 {
        '4'
    } else if d == 5 {
        '5'
    } else if d == 6 {
        '6'
    } else if d == 7 {
        '7'
    } else if d == 8 {
        '8'
    } else {
        '9'
    }
}

/// The decimal rendering of `n`, most significant digit first, without
/// leading zeros (a single `'0'` for zero).
pub open spec fn dec_digits(n: nat) -> Seq<char>
    decreases n,
{
    if n < 10 {
        seq![digit_char(n as int)]
    } else {
        dec_digits(n / 10).push(digit_char((n % 10) as int))
    }
}

fn digit_str(d: u64) -> (r: &'static str)
    requires
        d < 10,
    ensures
        r@ == seq![digit_char(d as int)],
{
    proof {
        reveal_strlit("0");
        reveal_strlit("1");
        reveal_strlit("2");
        reveal_strlit("3");
        reveal_strlit("4");
        reveal_strlit("5");
        reveal_strlit("6");
        reveal_strlit("7");
        reveal_strlit("8");
        reveal_strlit("9");
    }
    match d {
        0 => "0",
        1 => "1",
        2 => "2",
        3 => "3",
        4 => "4",
        5 => "5",
        6 => "6",
        7 => "7",
        8 => "8",
        _ => "9",
    }
}

/// Renders `n` in decimal, as `u64`'s display formatting does.
pub fn u64_to_string(n: u64) -> (r: String)
    ensures
        r@ == dec_digits(n as nat),
    decreases n,
{
    if n < 10 {
        digit_str(n).to_owned()
    } else {
        let front = u64_to_string(n / 10);
        let r = front.concat(digit_str(n % 10));
        proof {
            assert(dec_digits((n as nat) / 10).push(digit_char((n % 10) as int)) =~= dec_digits(
                (n as nat) / 10,
            ) + seq![digit_char((n % 10) as int)]);
        }
        r
    }
}

/// Whether `c` is an ASCII decimal digit.
pub open spec fn is_dec_digit(c: char) -> bool {
    48 <= c as u32 <= 57
}

pub open spec fn all_dec_digits(s: Seq<char>) -> bool {
    forall|i: int| 0 <= i < s.len() ==> is_dec_digit(#[trigger] s[i])
}

/// The value of a digit string read in base ten.
pub open spec fn dec_value(s: Seq<char>) -> int
    decreases s.len(),
{
    if s.len() == 0 {
        0
    } else {
        dec_value(s.drop_last()) * 10 + (s.last() as u32 - 48)
    }
}

pub proof fn lemma_dec_value_nonneg(s: Seq<char>)
    requires
        all_dec_digits(s),
    ensures
        dec_value(s) >= 0,
    decreases s.len(),
{
    if s.len() > 0 {
        assert(all_dec_digits(s.drop_last()));
        lemma_dec_value_nonneg(s.drop_last());
    }
}

/// Reading more digits can only increase the value.
pub proof fn lemma_dec_value_prefix_le(s: Seq<char>, i: int)
    requires
        all_dec_digits(s),
        0 <= i <= s.len(),
    ensures
        dec_value(s.subrange(0, i)) <= dec_value(s),
    decreases s.len() - i,
{
    if i < s.len() {
        lemma_dec_value_prefix_le(s, i + 1);
        let p = s.subrange(0, i + 1);
        assert(p.drop_last() =~= s.subrange(0, i));
        assert(all_dec_digits(s.subrange(0, i)));
        lemma_dec_value_nonneg(s.subrange(0, i));
        assert(dec_value(s.subrange(0, i)) <= dec_value(p)) by {
            assert(dec_value(p) == dec_value(s.subrange(0, i)) * 10 + (p.last() as u32 - 48));
        }
    } else {
        assert(s.subrange(0, i) =~= s);
    }
}

/// Reads `s` as a decimal `u64`. Succeeds exactly on non-empty all-digit
/// strings whose value fits.
pub fn parse_u64(s: &str) -> (r: Option<u64>)
    ensures
        match r {
            Some(v) => s@.len() > 0 && all_dec_digits(s@) && v == dec_value(s@),
            None => s@.len() == 0 || !all_dec_digits(s@) || dec_value(s@) > u64::MAX,
        },
{
    let len = s.unicode_len();
    if len == 0 {
        return None;
    }
    let mut acc: u64 = 0;
    let mut i: usize = 0;
    proof {
        assert(s@.subrange(0, 0) =~= Seq::<char>::empty());
    }
    while i < len
        invariant
            0 <= i <= len,
            len == s@.len(),
            all_dec_digits(s@.subrange(0, i as int)),
            acc == dec_value(s@.subrange(0, i as int)),
        decreases len - i,
    {
        let c = s.get_char(i);
        let cv = c as u32;
        if cv < 48 || cv > 57 {
            return None;
        }
        let d = (cv - 48) as u64;
        if acc > (u64::MAX - d) / 10 {
            proof {
                let p = s@.subrange(0, i + 1);
                assert(p.drop_last() =~= s@.subrange(0, i as int));
                assert(all_dec_digits(p));
                assert(dec_value(p) == acc * 10 + d);
                assert(acc * 10 + d > u64::MAX) by (nonlinear_arith)
                    requires
                        acc > (u64::MAX - d) / 10,
                        0 <= d < 10,
                {}
                if all_dec_digits(s@) {
                    assert(p =~= s@.subrange(0, i + 1));
                    lemma_dec_value_prefix_le(s@, i + 1);
                }
            }
            return None;
        }
        proof {
            assert(acc * 10 + d <= u64::MAX) by (nonlinear_arith)
                requires
                    acc <= (u64::MAX - d) / 10,
                    0 <= d < 10,
            {}
            let p = s@.subrange(0, i + 1);
            assert(p.drop_last() =~= s@.subrange(0, i as int));
            assert(all_dec_digits(p));
        }
        acc = acc * 10 + d;
        i = i + 1;
    }
    proof {
        assert(s@.subrange(0, len as int) =~= s@);
    }
    Some(acc)
}

/// Character-wise string equality, as `str`'s `==`.
pub fn str_eq(a: &str, b: &str) -> (r: bool)
    ensures
        r == (a@ == b@),
{
    let alen = a.unicode_len();
    let blen = b.unicode_len();
    if alen != blen {
        return false;
    }
    let mut i: usize = 0;
    while i < alen
        invariant
            0 <= i <= alen,
            alen == a@.len(),
            alen == b@.len(),
            forall|k: int| 0 <= k < i ==> a@[k] == b@[k],
        decreases alen - i,
    {
        if a.get_char(i) != b.get_char(i) {
            return false;
        }
        i = i + 1;
    }
    proof {
        assert(a@ =~= b@);
    }
    true
}

/// Whether `needle` occurs in `hay` starting at position `i`.
pub open spec fn contains_at(hay: Seq<char>, needle: Seq<char>, i: int) -> bool {
    0 <= i && i + needle.len() <= hay.len() && hay.subrange(i, i + needle.len()) == needle
}

/// Whether `needle` occurs anywhere in `hay`.
pub open spec fn contains_seq(hay: Seq<char>, needle: Seq<char>) -> bool {
    exists|i: int| contains_at(hay, needle, i)
}

/// Substring search, as `str::contains` on a string pattern.
pub fn str_contains(hay: &str, needle: &str) -> (r: bool)
    ensures
        r == contains_seq(hay@, needle@),
{
    let hlen = hay.unicode_len();
    let nlen = needle.unicode_len();
    if nlen > hlen {
        proof {
            assert(forall|i: int| !contains_at(hay@, needle@, i));
        }
        return false;
    }
    if nlen == 0 {
        proof {
            assert(hay@.subrange(0, 0) =~= needle@);
            assert(contains_at(hay@, needle@, 0));
        }
        return true;
    }
    let mut i: usize = 0;
    while i <= hlen - nlen
        invariant
            0 <= i <= hlen,
            0 < nlen <= hlen,
            hlen == hay@.len(),
            nlen == needle@.len(),
            forall|k: int| 0 <= k < i ==> !contains_at(hay@, needle@, k),
        decreases hlen - i,
    {
        let mut j: usize = 0;
        let mut matched = true;
        while j < nlen
            invariant
                0 <= j <= nlen,
                i + nlen <= hlen,
                hlen == hay@.len(),
                nlen == needle@.len(),
                matched ==> forall|k: int| 0 <= k < j ==> hay@[i + k] == needle@[k],
                !matched ==> !contains_at(hay@, needle@, i as int),
            decreases nlen - j,
        {
            if matched && hay.get_char(i + j) != needle.get_char(j) {
                proof {
                    assert(hay@.subrange(i as int, i + nlen) != needle@) by {
                        assert(hay@.subrange(i as int, i + nlen)[j as int] == hay@[i + j]);
                    }
                }
                matched = false;
            }
            j = j + 1;
        }
        if matched {
            proof {
                assert(hay@.subrange(i as int, i + nlen) =~= needle@);
                assert(contains_at(hay@, needle@, i as int));
            }
            return true;
        }
        i = i + 1;
    }
    proof {
        assert(forall|k: int| contains_at(hay@, needle@, k) ==> 0 <= k <= hlen - nlen);
    }
    false
}

/// The whitespace characters that field trimming removes.
pub open spec fn is_space_char(c: char) -> bool {
    c == ' ' || c == '\t' || c == '\r' || c == '\n'
}

/// Number of leading whitespace characters.
pub open spec fn leading_spaces(s: Seq<char>) -> int
    decreases s.len(),
{
    if s.len() == 0 || !is_space_char(s[0]) {
        0
    } else {
        1 + leading_spaces(s.drop_first())
    }
}

/// Number of trailing whitespace characters.
pub open spec fn trailing_spaces(s: Seq<char>) -> int
    decreases s.len(),
{
    if s.len() == 0 || !is_space_char(s.last()) {
        0
    } else {
        1 + trailing_spaces(s.drop_last())
    }
}

/// `s` with leading and trailing whitespace removed.
pub open spec fn trim_chars(s: Seq<char>) -> Seq<char> {
    let a = leading_spaces(s);
    let b = s.len() - trailing_spaces(s);
    if a <= b {
        s.subrange(a, b)
    } else {
        Seq::empty()
    }
}

proof fn lemma_leading_spaces_at(s: Seq<char>, i: int)
    requires
        0 <= i <= s.len(),
        forall|k: int| 0 <= k < i ==> is_space_char(#[trigger] s[k]),
        i == s.len() || !is_space_char(s[i]),
    ensures
        leading_spaces(s) == i,
    decreases i,
{
    if i == 0 {
    } else {
        assert(is_space_char(s[0]));
        lemma_leading_spaces_at(s.drop_first(), i - 1);
    }
}

proof fn lemma_trailing_spaces_at(s: Seq<char>, j: int)
    requires
        0 <= j <= s.len(),
        forall|k: int| j <= k < s.len() ==> is_space_char(#[trigger] s[k]),
        j == 0 || !is_space_char(s[j - 1]),
    ensures
        trailing_spaces(s) == s.len() - j,
    decreases s.len() - j,
{
    if j == s.len() {
    } else {
        assert(is_space_char(s.last()));
        assert(s.drop_last()[j - 1] == s[j - 1] || j == 0);
        lemma_trailing_spaces_at(s.drop_last(), j);
    }
}

/// Removes leading and trailing whitespace, as `str::trim` does on fields
/// of the log files.
pub fn trim_spaces(s: &str) -> (r: String)
    ensures
        r@ == trim_chars(s@),
{
    let len = s.unicode_len();
    let mut a: usize = 0;
    while a < len && is_space(s.get_char(a))
        invariant
            0 <= a <= len,
            len == s@.len(),
            forall|k: int| 0 <= k < a ==> is_space_char(#[trigger] s@[k]),
        decreases len - a,
    {
        a = a + 1;
    }
    proof {
        lemma_leading_spaces_at(s@, a as int);
    }
    let mut b: usize = len;
    while b > a && is_space(s.get_char(b - 1))
        invariant
            a <= b <= len,
            len == s@.len(),
            forall|k: int| b <= k < len ==> is_space_char(#[trigger] s@[k]),
        decreases b,
    {
        b = b - 1;
    }
    if b == a {
        // Only whitespace (or nothing) remains: the first scan stopped at a
        // non-space or at the end, and the second scanned down to `a`, so the
        // whole string is whitespace.
        proof {
            assert(a == len);
            lemma_trailing_spaces_at(s@, 0);
            assert(trim_chars(s@) =~= Seq::<char>::empty());
        }
        String::new()
    } else {
        proof {
            lemma_trailing_spaces_at(s@, b as int);
        }
        s.substring_char(a, b).to_owned()
    }
}

fn is_space(c: char) -> (r: bool)
    ensures
        r == is_space_char(c),
{
    c == ' ' || c == '\t' || c == '\r' || c == '\n'
}

/// Lexicographic order on character sequences, by code point; on ASCII
/// strings this coincides with the byte order `str`'s comparison uses.
pub open spec fn lex_le(a: Seq<char>, b: Seq<char>) -> bool
    decreases a.len(),
{
    if a.len() == 0 {
        true
    } else if b.len() == 0 {
        false
    } else if (a[0] as u32) < (b[0] as u32) {
        true
    } else if (a[0] as u32) > (b[0] as u32) {
        false
    } else {
        lex_le(a.drop_first(), b.drop_first())
    }
}

pub proof fn lemma_lex_total(a: Seq<char>, b: Seq<char>)
    ensures
        lex_le(a, b) || lex_le(b, a),
    decreases a.len(),
{
    if a.len() != 0 && b.len() != 0 && a[0] as u32 == b[0] as u32 {
        lemma_lex_total(a.drop_first(), b.drop_first());
    }
}

pub proof fn lemma_lex_trans(a: Seq<char>, b: Seq<char>, c: Seq<char>)
    requires
        lex_le(a, b),
        lex_le(b, c),
    ensures
        lex_le(a, c),
    decreases a.len(),
{
    if a.len() != 0 && b.len() != 0 && c.len() != 0 && a[0] as u32 == b[0] as u32 && b[0] as u32
        == c[0] as u32 {
        lemma_lex_trans(a.drop_first(), b.drop_first(), c.drop_first());
    }
}

/// Lexicographic comparison, as `str`'s `<=` on ASCII strings.
pub fn str_le(a: &str, b: &str) -> (r: bool)
    ensures
        r == lex_le(a@, b@),
{
    let alen = a.unicode_len();
    let blen = b.unicode_len();
    let mut i: usize = 0;
    proof {
        assert(a@.subrange(0, alen as int) =~= a@);
        assert(b@.subrange(0, blen as int) =~= b@);
    }
    loop
        invariant
            0 <= i <= alen,
            i <= blen,
            alen == a@.len(),
            blen == b@.len(),
            lex_le(a@, b@) == lex_le(
                a@.subrange(i as int, alen as int),
                b@.subrange(i as int, blen as int),
            ),
        decreases alen - i,
    {
        if i == alen {
            proof {
                assert(a@.subrange(i as int, alen as int).len() == 0);
            }
            return true;
        }
        if i == blen {
            proof {
                assert(b@.subrange(i as int, blen as int).len() == 0);
                assert(a@.subrange(i as int, alen as int).len() > 0);
            }
            return false;
        }
        let ca = a.get_char(i);
        let cb = b.get_char(i);
        proof {
            let ra = a@.subrange(i as int, alen as int);
            let rb = b@.subrange(i as int, blen as int);
            assert(ra[0] == a@[i as int]);
            assert(rb[0] == b@[i as int]);
            assert(ra.drop_first() =~= a@.subrange(i + 1, alen as int));
            assert(rb.drop_first() =~= b@.subrange(i + 1, blen as int));
        }
        if (ca as u32) < (cb as u32) {
            return true;
        }
        if (ca as u32) > (cb as u32) {
            return false;
        }
        i = i + 1;
    }
}

pub open spec fn sorted_lex(s: Seq<Seq<char>>) -> bool {
    forall|i: int, j: int| 0 <= i < j < s.len() ==> lex_le(#[trigger] s[i], #[trigger] s[j])
}

/// Sorts the strings lexicographically, as `Vec::sort` on ASCII strings:
/// the result is ordered and holds the same strings.
pub fn sort_strings(v: &Vec<String>) -> (r: Vec<String>)
    ensures
        sorted_lex(r@.map_values(|t: String| t@)),
        r@.map_values(|t: String| t@).to_multiset() == v@.map_values(
            |t: String| t@,
        ).to_multiset(),
{
    broadcast use vstd::seq_lib::group_to_multiset_ensures;

    let ghost in_views = v@.map_values(|t: String| t@);
    let mut work: Vec<String> = v.clone();
    proof {
        assert forall|k: int| 0 <= k < work@.len() implies (#[trigger] work@[k])@ == in_views[k] by {
            assert(cloned::<String>(v@[k], work@[k]));
        }
        assert(work@.map_values(|t: String| t@) =~= in_views);
    }
    let mut out: Vec<String> = Vec::new();
    while work.len() > 0
        invariant
            out@.map_values(|t: String| t@).to_multiset().add(
                work@.map_values(|t: String| t@).to_multiset(),
            ) =~= in_views.to_multiset(),
            forall|p: int, q: int|
                0 <= p < q < out@.len() ==> lex_le((#[trigger] out@[p])@, (#[trigger] out@[q])@),
            forall|p: int, q: int|
                0 <= p < out@.len() && 0 <= q < work@.len() ==> lex_le(
                    (#[trigger] out@[p])@,
                    (#[trigger] work@[q])@,
                ),
        decreases work@.len(),
    {
        let mut m: usize = 0;
        let mut j: usize = 1;
        proof {
            lemma_lex_total(work@[0]@, work@[0]@);
        }
        while j < work.len()
            invariant
                0 <= m < j <= work@.len(),
                forall|k: int| 0 <= k < j ==> lex_le(work@[m as int]@, (#[trigger] work@[k])@),
            decreases work@.len() - j,
        {
            if str_le(work[j].as_str(), work[m].as_str()) {
                proof {
                    assert forall|k: int| 0 <= k < j + 1 implies lex_le(
                        work@[j as int]@,
                        (#[trigger] work@[k])@,
                    ) by {
                        if k < j {
                            lemma_lex_trans(work@[j as int]@, work@[m as int]@, work@[k]@);
                        } else {
                            lemma_lex_total(work@[j as int]@, work@[j as int]@);
                        }
                    }
                }
                m = j;
            } else {
                proof {
                    lemma_lex_total(work@[j as int]@, work@[m as int]@);
                }
            }
            j = j + 1;
        }
        let ghost old_work = work@;
        let ghost old_out = out@;
        let x = work.remove(m);
        out.push(x);
        proof {
            assert(work@.map_values(|t: String| t@) =~= old_work.map_values(
                |t: String| t@,
            ).remove(m as int));
            assert(out@.map_values(|t: String| t@) =~= old_out.map_values(
                |t: String| t@,
            ).push(x@));
            let ow = old_work.map_values(|t: String| t@);
            let oo = old_out.map_values(|t: String| t@);
            ow.to_multiset_ensures();
            oo.to_multiset_ensures();
            assert(oo.push(x@).to_multiset() =~= oo.to_multiset().insert(x@));
            assert(ow.remove(m as int).to_multiset() =~= ow.to_multiset().remove(ow[m as int]));
            assert(ow.to_multiset().count(x@) > 0) by {
                assert(ow[m as int] == x@);
                assert(ow.contains(x@));
            }
            assert(out@.map_values(|t: String| t@).to_multiset().add(
                work@.map_values(|t: String| t@).to_multiset(),
            ) =~= in_views.to_multiset());
            assert forall|p: int, q: int|
                0 <= p < out@.len() && 0 <= q < work@.len() implies lex_le(
                (#[trigger] out@[p])@,
                (#[trigger] work@[q])@,
            ) by {
                assert(work@[q] == if q < m { old_work[q] } else { old_work[q + 1] });
                if p < out@.len() - 1 {
                    assert(out@[p] == old_out[p]);
                } else {
                    assert(out@[p] == old_work[m as int]);
                }
            }
            assert forall|p: int, q: int| 0 <= p < q < out@.len() implies lex_le(
                (#[trigger] out@[p])@,
                (#[trigger] out@[q])@,
            ) by {
                if q < out@.len() - 1 {
                    assert(out@[p] == old_out[p]);
                    assert(out@[q] == old_out[q]);
                } else {
                    assert(out@[q] == old_work[m as int]);
                    assert(out@[p] == old_out[p]);
                }
            }
        }
    }
    proof {
        work@.map_values(|t: String| t@).to_multiset_ensures();
        assert(work@.map_values(|t: String| t@).to_multiset() =~= Multiset::<Seq<char>>::empty());
        assert(out@.map_values(|t: String| t@).to_multiset() =~= in_views.to_multiset());
        let views = out@.map_values(|t: String| t@);
        assert forall|p: int, q: int| 0 <= p < q < views.len() implies lex_le(
            views[p],
            views[q],
        ) by {
            assert(views[p] == out@[p]@);
            assert(views[q] == out@[q]@);
        }
        assert(sorted_lex(views));
    }
    out
}

} // verus!
