use vstd::prelude::*;

verus! {

/// Builds a `String` holding exactly the given characters.
/// Trusted: std's `FromIterator<&char>` for `String` appends each character in order.
#[verifier::external_body]
pub(crate) fn string_from_chars(v: &Vec<char>) -> (r: String)
    ensures
        r@ == v@,
{
    v.iter().collect()
}

/// The character whose code is the ASCII byte `b`.
/// Trusted: std's `From<u8>` for `char` maps a byte to the character with that code point.
#[verifier::external_body]
pub(crate) fn ascii_char(b: u8) -> (r: char)
    ensures
        r as u32 == b as u32,
{
    char::from(b)
}

/// What `{:?}` writes for a text: the text in double quotes, with std's debug escapes.
pub uninterp spec fn debug_escaped(s: Seq<char>) -> Seq<char>;

/// Trusted: `<str as Debug>::fmt`, through `format!("{:?}")`; its result is named
/// `debug_escaped` of the argument.
#[verifier::external_body]
pub(crate) fn debug_quote(s: &str) -> (r: String)
    ensures
        r@ == debug_escaped(s@),
{
    format!("{:?}", s)
}

/// The characters of a string slice, in order.
pub fn str_chars(s: &str) -> (r: Vec<char>)
    ensures
        r@ == s@,
{
    let n = s.unicode_len();
    let mut out: Vec<char> = Vec::new();
    let mut i: usize = 0;
    while i < n
        invariant
            n == s@.len(),
            i <= n,
            out@ == s@.subrange(0, i as int),
        decreases n - i,
    {
        let c = s.get_char(i);
        out.push(c);
        i = i + 1;
        assert(out@ =~= s@.subrange(0, i as int));
    }
    assert(out@ =~= s@);
    out
}

/// Appends all characters of `src` to `dst`.
pub fn push_all(dst: &mut Vec<char>, src: &Vec<char>)
    ensures
        final(dst)@ == old(dst)@ + src@,
{
    let mut i: usize = 0;
    while i < src.len()
        invariant
            i <= src@.len(),
            dst@ == old(dst)@ + src@.subrange(0, i as int),
        decreases src@.len() - i,
    {
        dst.push(src[i]);
        i = i + 1;
        assert(dst@ =~= old(dst)@ + src@.subrange(0, i as int));
    }
    assert(src@.subrange(0, i as int) =~= src@);
}

/// Appends the characters of a string slice to `dst`.
pub fn push_str_chars(dst: &mut Vec<char>, s: &str)
    ensures
        final(dst)@ == old(dst)@ + s@,
{
    let v = str_chars(s);
    push_all(dst, &v);
}

/// Whether two character vectors hold the same characters.
pub fn chars_eq(a: &Vec<char>, b: &Vec<char>) -> (r: bool)
    ensures
        r == (a@ == b@),
{
    if a.len() != b.len() {
        return false;
    }
    let mut i: usize = 0;
    while i < a.len()
        invariant
            a@.len() == b@.len(),
            i <= a@.len(),
            forall|j: int| 0 <= j < i ==> a@[j] == b@[j],
        decreases a@.len() - i,
    {
        if a[i] != b[i] {
            return false;
        }
        i = i + 1;
    }
    assert(a@ =~= b@);
    true
}

/// The character of a decimal digit 0..9.
pub open spec fn digit_char(d: int) -> char {
    ((48 + d) as u32) as char
}

/// Decimal text of a natural number, without sign or leading zeros.
pub open spec fn dec(n: nat) -> Seq<char>
    decreases n,
{
    if n < 10 {
        seq![digit_char(n as int)]
    } else {
        dec(n / 10).push(digit_char((n % 10) as int))
    }
}

/// Appends the decimal text of `n`.
pub fn push_dec(out: &mut Vec<char>, n: u64)
    ensures
        final(out)@ == old(out)@ + dec(n as nat),
    decreases n,
{
    if n >= 10 {
        push_dec(out, n / 10);
    }
    let d = ascii_char((48 + n % 10) as u8);
    out.push(d);
    assert(out@ =~= old(out)@ + dec(n as nat));
}

/// Decimal text of an integer: a minus sign before negative numbers.
pub open spec fn signed_dec(n: int) -> Seq<char> {
    if n < 0 {
        seq!['-'] + dec((-n) as nat)
    } else {
        dec(n as nat)
    }
}

/// Appends the decimal text of `n`, with a minus sign when negative.
pub fn push_signed(out: &mut Vec<char>, n: i64)
    ensures
        final(out)@ == old(out)@ + signed_dec(n as int),
{
    if n < 0 {
        out.push('-');
        let m: u64 = if n == i64::MIN {
            9_223_372_036_854_775_808u64
        } else {
            (-n) as u64
        };
        push_dec(out, m);
        assert(out@ =~= old(out)@ + signed_dec(n as int));
    } else {
        push_dec(out, n as u64);
    }
}

/// Whether `c` is an ASCII decimal digit.
pub open spec fn is_digit(c: char) -> bool {
    '0' <= c <= '9'
}

/// The value of an ASCII decimal digit.
pub open spec fn digit_value(c: char) -> int {
    (c as u32) - 48
}

/// Unicode white space, as `char::is_whitespace` and `str::split_whitespace` see it.
pub open spec fn is_ws(c: char) -> bool {
    ||| '\u{9}' <= c <= '\u{d}'
    ||| c == ' '
    ||| c == '\u{85}'
    ||| c == '\u{a0}'
    ||| c == '\u{1680}'
    ||| '\u{2000}' <= c <= '\u{200a}'
    ||| c == '\u{2028}'
    ||| c == '\u{2029}'
    ||| c == '\u{202f}'
    ||| c == '\u{205f}'
    ||| c == '\u{3000}'
}

pub fn is_whitespace(c: char) -> (r: bool)
    ensures
        r == is_ws(c),
{
    ('\u{9}' <= c && c <= '\u{d}') || c == ' ' || c == '\u{85}' || c == '\u{a0}' || c == '\u{1680}'
        || ('\u{2000}' <= c && c <= '\u{200a}') || c == '\u{2028}' || c == '\u{2029}' || c
        == '\u{202f}' || c == '\u{205f}' || c == '\u{3000}'
}

/// Left-to-right scan that splits at white space: the finished fields and the field in progress.
pub open spec fn ws_scan(s: Seq<char>) -> (Seq<Seq<char>>, Seq<char>)
    decreases s.len(),
{
    if s.len() == 0 {
        (Seq::empty(), Seq::empty())
    } else {
        let (acc, cur) = ws_scan(s.drop_last());
        if is_ws(s.last()) {
            if cur.len() > 0 {
                (acc.push(cur), Seq::empty())
            } else {
                (acc, Seq::empty())
            }
        } else {
            (acc, cur.push(s.last()))
        }
    }
}

/// The non-empty white-space separated fields of `s`, as `str::split_whitespace` yields them.
pub open spec fn ws_fields(s: Seq<char>) -> Seq<Seq<char>> {
    let (acc, cur) = ws_scan(s);
    if cur.len() > 0 {
        acc.push(cur)
    } else {
        acc
    }
}

/// Left-to-right scan that splits at `sep`.
pub open spec fn sep_scan(s: Seq<char>, sep: char) -> (Seq<Seq<char>>, Seq<char>)
    decreases s.len(),
{
    if s.len() == 0 {
        (Seq::empty(), Seq::empty())
    } else {
        let (acc, cur) = sep_scan(s.drop_last(), sep);
        if s.last() == sep {
            (acc.push(cur), Seq::empty())
        } else {
            (acc, cur.push(s.last()))
        }
    }
}

/// The pieces of `s` between occurrences of `sep`, empty ones included, as `str::split` yields them.
pub open spec fn sep_split(s: Seq<char>, sep: char) -> Seq<Seq<char>> {
    let (acc, cur) = sep_scan(s, sep);
    acc.push(cur)
}

/// Text without white space is one field in progress.
pub proof fn lemma_ws_scan_plain(t: Seq<char>)
    requires
        forall|i: int| 0 <= i < t.len() ==> !is_ws(#[trigger] t[i]),
    ensures
        ws_scan(t) == (Seq::<Seq<char>>::empty(), t),
    decreases t.len(),
{
    if t.len() > 0 {
        lemma_ws_scan_plain(t.drop_last());
        assert(t.drop_last().push(t.last()) =~= t);
    }
}

/// Splitting at white space continues across a concatenation when no field is in progress.
pub proof fn lemma_ws_scan_concat(a: Seq<char>, b: Seq<char>)
    requires
        ws_scan(a).1.len() == 0,
    ensures
        ws_scan(a + b) == (ws_scan(a).0 + ws_scan(b).0, ws_scan(b).1),
    decreases b.len(),
{
    if b.len() == 0 {
        assert(a + b =~= a);
        assert(ws_scan(a).0 + ws_scan(b).0 =~= ws_scan(a).0);
    } else {
        lemma_ws_scan_concat(a, b.drop_last());
        assert((a + b).drop_last() =~= a + b.drop_last());
        assert((a + b).last() == b.last());
        let (acc, cur) = ws_scan(b.drop_last());
        assert((ws_scan(a).0 + acc).push(cur) =~= ws_scan(a).0 + acc.push(cur));
    }
}

/// Text without the separator is one piece in progress.
pub proof fn lemma_sep_scan_plain(t: Seq<char>, sep: char)
    requires
        forall|i: int| 0 <= i < t.len() ==> #[trigger] t[i] != sep,
    ensures
        sep_scan(t, sep) == (Seq::<Seq<char>>::empty(), t),
    decreases t.len(),
{
    if t.len() > 0 {
        lemma_sep_scan_plain(t.drop_last(), sep);
        assert(t.drop_last().push(t.last()) =~= t);
    }
}

/// Splitting at a separator continues across a concatenation when no piece is in progress.
pub proof fn lemma_sep_scan_concat(a: Seq<char>, b: Seq<char>, sep: char)
    requires
        sep_scan(a, sep).1.len() == 0,
    ensures
        sep_scan(a + b, sep) == (sep_scan(a, sep).0 + sep_scan(b, sep).0, sep_scan(b, sep).1),
    decreases b.len(),
{
    if b.len() == 0 {
        assert(a + b =~= a);
        assert(sep_scan(a, sep).0 + sep_scan(b, sep).0 =~= sep_scan(a, sep).0);
    } else {
        lemma_sep_scan_concat(a, b.drop_last(), sep);
        assert((a + b).drop_last() =~= a + b.drop_last());
        assert((a + b).last() == b.last());
        let (acc, cur) = sep_scan(b.drop_last(), sep);
        assert((sep_scan(a, sep).0 + acc).push(cur) =~= sep_scan(a, sep).0 + acc.push(cur));
    }
}

/// Whether the vectors of `v` hold the sequences of `s`.
pub open spec fn vecs_hold(v: Seq<Vec<char>>, s: Seq<Seq<char>>) -> bool {
    v.len() == s.len() && forall|j: int| 0 <= j < v.len() ==> #[trigger] v[j]@ == s[j]
}

/// The white-space separated fields of `s`.
pub fn split_whitespace(s: &Vec<char>) -> (r: Vec<Vec<char>>)
    ensures
        vecs_hold(r@, ws_fields(s@)),
{
    let mut acc: Vec<Vec<char>> = Vec::new();
    let mut cur: Vec<char> = Vec::new();
    let mut i: usize = 0;
    while i < s.len()
        invariant
            i <= s@.len(),
            vecs_hold(acc@, ws_scan(s@.subrange(0, i as int)).0),
            cur@ == ws_scan(s@.subrange(0, i as int)).1,
        decreases s@.len() - i,
    {
        let c = s[i];
        proof {
            assert(s@.subrange(0, i + 1).drop_last() =~= s@.subrange(0, i as int));
        }
        if is_whitespace(c) {
            if cur.len() > 0 {
                acc.push(cur);
                cur = Vec::new();
            }
        } else {
            cur.push(c);
        }
        i = i + 1;
    }
    assert(s@.subrange(0, i as int) =~= s@);
    if cur.len() > 0 {
        acc.push(cur);
    }
    acc
}

/// The pieces of `s` between occurrences of `sep`.
pub fn split_at_char(s: &Vec<char>, sep: char) -> (r: Vec<Vec<char>>)
    ensures
        vecs_hold(r@, sep_split(s@, sep)),
{
    let mut acc: Vec<Vec<char>> = Vec::new();
    let mut cur: Vec<char> = Vec::new();
    let mut i: usize = 0;
    while i < s.len()
        invariant
            i <= s@.len(),
            vecs_hold(acc@, sep_scan(s@.subrange(0, i as int), sep).0),
            cur@ == sep_scan(s@.subrange(0, i as int), sep).1,
        decreases s@.len() - i,
    {
        let c = s[i];
        proof {
            assert(s@.subrange(0, i + 1).drop_last() =~= s@.subrange(0, i as int));
        }
        if c == sep {
            acc.push(cur);
            cur = Vec::new();
        } else {
            cur.push(c);
        }
        i = i + 1;
    }
    assert(s@.subrange(0, i as int) =~= s@);
    acc.push(cur);
    acc
}

/// Value of a run of decimal digits.
pub open spec fn digits_value(d: Seq<char>) -> nat
    decreases d.len(),
{
    if d.len() == 0 {
        0
    } else {
        (digits_value(d.drop_last()) * 10 + digit_value(d.last())) as nat
    }
}

pub open spec fn all_digits(d: Seq<char>) -> bool {
    forall|j: int| 0 <= j < d.len() ==> is_digit(#[trigger] d[j])
}

/// `u16::from_str`: an optional `+`, then at least one digit, with a value that fits.
pub open spec fn parse_u16(s: Seq<char>) -> Option<u16> {
    let d = if s.len() > 0 && s[0] == '+' {
        s.drop_first()
    } else {
        s
    };
    if d.len() > 0 && all_digits(d) && digits_value(d) <= 65535 {
        Some(digits_value(d) as u16)
    } else {
        None
    }
}

proof fn lemma_digits_value_monotone(d: Seq<char>, i: int)
    requires
        0 <= i <= d.len(),
        all_digits(d),
    ensures
        digits_value(d.subrange(0, i)) <= digits_value(d),
    decreases d.len() - i,
{
    if i == d.len() {
        assert(d.subrange(0, i) =~= d);
    } else {
        lemma_digits_value_monotone(d, i + 1);
        assert(d.subrange(0, i + 1).drop_last() =~= d.subrange(0, i));
        assert(is_digit(d[i]));
    }
}

/// Parses a 16-bit unsigned decimal number.
pub fn parse_u16_chars(s: &Vec<char>) -> (r: Option<u16>)
    ensures
        r == parse_u16(s@),
{
    let mut start: usize = 0;
    if s.len() > 0 && s[0] == '+' {
        start = 1;
    }
    let ghost d = if s@.len() > 0 && s@[0] == '+' {
        s@.drop_first()
    } else {
        s@
    };
    assert(d =~= s@.subrange(start as int, s@.len() as int));
    if start >= s.len() {
        return None;
    }
    let mut value: u32 = 0;
    let mut i: usize = start;
    while i < s.len()
        invariant
            start <= i <= s@.len(),
            d =~= s@.subrange(start as int, s@.len() as int),
            d == (if s@.len() > 0 && s@[0] == '+' {
                s@.drop_first()
            } else {
                s@
            }),
            all_digits(d.subrange(0, i - start)),
            value == digits_value(d.subrange(0, i - start)),
            value <= 65535,
        decreases s@.len() - i,
    {
        let c = s[i];
        if !('0' <= c && c <= '9') {
            proof {
                assert(d[i - start] == c);
                assert(!is_digit(d[i - start]));
                assert(!all_digits(d));
            }
            return None;
        }
        let dv = (c as u32) - 48;
        proof {
            assert(d.subrange(0, i + 1 - start).drop_last() =~= d.subrange(0, i - start));
            assert(d.subrange(0, i + 1 - start).last() == c);
        }
        let nv = value * 10 + dv;
        i = i + 1;
        if nv > 65535 {
            proof {
                assert(digits_value(d.subrange(0, i - start)) == nv);
                if all_digits(d) {
                    lemma_digits_value_monotone(d, i - start);
                }
            }
            return None;
        }
        value = nv;
    }
    assert(d.subrange(0, i - start) =~= d);
    Some(value as u16)
}


/// Whether `c` is alphabetic or numeric in Unicode's sense.
pub uninterp spec fn unicode_alphanumeric(c: char) -> bool;

/// Trusted: std's `char::is_alphanumeric`. Its result is named; of ASCII characters exactly
/// the letters and digits are alphanumeric.
#[verifier::external_body]
pub(crate) fn is_alphanumeric(c: char) -> (r: bool)
    ensures
        r == unicode_alphanumeric(c),
        (c as u32) < 128 ==> (r <==> (is_digit(c) || ('a' <= c <= 'z') || ('A' <= c <= 'Z'))),
{
    c.is_alphanumeric()
}

/// `s` without leading white space.
pub open spec fn trim_start(s: Seq<char>) -> Seq<char>
    decreases s.len(),
{
    if s.len() > 0 && is_ws(s[0]) {
        trim_start(s.drop_first())
    } else {
        s
    }
}

/// `s` without trailing white space.
pub open spec fn trim_end(s: Seq<char>) -> Seq<char>
    decreases s.len(),
{
    if s.len() > 0 && is_ws(s.last()) {
        trim_end(s.drop_last())
    } else {
        s
    }
}

/// `s` without leading and trailing white space, as `str::trim` gives it.
pub open spec fn trim(s: Seq<char>) -> Seq<char> {
    trim_end(trim_start(s))
}

/// `s` without leading and trailing occurrences of `c`, as `str::trim_matches(c)` gives it.
pub open spec fn trim_char(s: Seq<char>, c: char) -> Seq<char> {
    trim_char_end(trim_char_start(s, c), c)
}

pub open spec fn trim_char_start(s: Seq<char>, c: char) -> Seq<char>
    decreases s.len(),
{
    if s.len() > 0 && s[0] == c {
        trim_char_start(s.drop_first(), c)
    } else {
        s
    }
}

pub open spec fn trim_char_end(s: Seq<char>, c: char) -> Seq<char>
    decreases s.len(),
{
    if s.len() > 0 && s.last() == c {
        trim_char_end(s.drop_last(), c)
    } else {
        s
    }
}

/// `s` with the non-overlapping occurrences of `pat`, found left to right, removed (as
/// `str::replace(pat, "")` gives it).
pub open spec fn remove_all(s: Seq<char>, pat: Seq<char>) -> Seq<char>
    decreases s.len(),
{
    if pat.len() == 0 || s.len() < pat.len() {
        s
    } else if s.subrange(0, pat.len() as int) == pat {
        remove_all(s.subrange(pat.len() as int, s.len() as int), pat)
    } else {
        seq![s[0]] + remove_all(s.drop_first(), pat)
    }
}

/// Whether `pat` occurs in `s`.
pub open spec fn contains_seq(s: Seq<char>, pat: Seq<char>) -> bool {
    exists|i: int| 0 <= i && i + pat.len() <= s.len() && #[trigger] s.subrange(i, i + pat.len()) == pat
}

/// The index of the first `c` in `s`.
pub open spec fn find_char(s: Seq<char>, c: char) -> Option<int>
    decreases s.len(),
{
    if s.len() == 0 {
        None
    } else if s[0] == c {
        Some(0)
    } else {
        match find_char(s.drop_first(), c) {
            Some(i) => Some(i + 1),
            None => None,
        }
    }
}

/// Whether `v[i..i + pat.len()]` equals `pat`.
fn matches_at(v: &Vec<char>, i: usize, pat: &Vec<char>) -> (r: bool)
    requires
        i + pat@.len() <= v@.len(),
    ensures
        r == (v@.subrange(i as int, i + pat@.len()) == pat@),
{
    let n = v.len();
    let mut j: usize = 0;
    while j < pat.len()
        invariant
            j <= pat@.len(),
            i + pat@.len() <= v@.len(),
            n == v@.len(),
            forall|t: int| 0 <= t < j ==> v@[i + t] == pat@[t],
        decreases pat@.len() - j,
    {
        if v[i + j] != pat[j] {
            assert(v@.subrange(i as int, i + pat@.len())[j as int] != pat@[j as int]);
            return false;
        }
        j = j + 1;
    }
    assert(v@.subrange(i as int, i + pat@.len()) =~= pat@);
    true
}

/// `v` with the occurrences of `pat` removed, left to right.
pub fn remove_pattern(v: &Vec<char>, pat: &Vec<char>) -> (r: Vec<char>)
    ensures
        r@ == remove_all(v@, pat@),
{
    let mut out: Vec<char> = Vec::new();
    if pat.len() == 0 {
        push_all(&mut out, v);
        assert(out@ =~= v@);
        return out;
    }
    let mut i: usize = 0;
    assert(v@.subrange(0, v@.len() as int) =~= v@);
    while i < v.len()
        invariant
            i <= v@.len(),
            pat@.len() > 0,
            out@ + remove_all(v@.subrange(i as int, v@.len() as int), pat@) == remove_all(v@, pat@),
        decreases v@.len() - i,
    {
        let ghost rest = v@.subrange(i as int, v@.len() as int);
        if pat.len() <= v.len() - i && matches_at(v, i, pat) {
            proof {
                assert(rest.subrange(0, pat@.len() as int) =~= v@.subrange(i as int, i + pat@.len()));
                assert(rest.subrange(pat@.len() as int, rest.len() as int) =~= v@.subrange(i + pat@.len(), v@.len() as int));
            }
            i = i + pat.len();
        } else {
            proof {
                if rest.len() >= pat@.len() {
                    assert(rest.subrange(0, pat@.len() as int) =~= v@.subrange(i as int, i + pat@.len()));
                }
                assert(rest.drop_first() =~= v@.subrange(i + 1, v@.len() as int));
            }
            out.push(v[i]);
            i = i + 1;
            assert(out@ + remove_all(v@.subrange(i as int, v@.len() as int), pat@) =~= remove_all(v@, pat@));
        }
    }
    assert(v@.subrange(i as int, v@.len() as int) =~= Seq::<char>::empty());
    assert(out@ =~= out@ + remove_all(Seq::<char>::empty(), pat@));
    out
}

/// Whether `pat` occurs in `v`.
pub fn contains_pattern(v: &Vec<char>, pat: &Vec<char>) -> (r: bool)
    ensures
        r == contains_seq(v@, pat@),
{
    if pat.len() > v.len() {
        return false;
    }
    if pat.len() == 0 {
        assert(v@.subrange(0, 0int + pat@.len()) =~= pat@);
        return true;
    }
    let mut i: usize = 0;
    let n = v.len();
    let last = v.len() - pat.len();
    while i <= last
        invariant
            n == v@.len(),
            pat@.len() <= v@.len(),
            last == v@.len() - pat@.len(),
            pat@.len() > 0,
            i <= last + 1,
            forall|t: int| 0 <= t < i ==> #[trigger] v@.subrange(t, t + pat@.len()) != pat@,
        decreases last + 1 - i,
    {
        if matches_at(v, i, pat) {
            return true;
        }
        i = i + 1;
    }
    false
}

/// `v` without leading and trailing white space.
pub fn trim_chars(v: &Vec<char>) -> (r: Vec<char>)
    ensures
        r@ == trim(v@),
{
    let mut start: usize = 0;
    assert(v@.subrange(0, v@.len() as int) =~= v@);
    while start < v.len() && is_whitespace(v[start])
        invariant
            start <= v@.len(),
            trim_start(v@) == trim_start(v@.subrange(start as int, v@.len() as int)),
        decreases v@.len() - start,
    {
        assert(v@.subrange(start as int, v@.len() as int).drop_first() =~= v@.subrange(start + 1, v@.len() as int));
        start = start + 1;
    }
    let mut end: usize = v.len();
    let ghost t = v@.subrange(start as int, v@.len() as int);
    assert(trim_start(t) == t);
    while end > start && is_whitespace(v[end - 1])
        invariant
            start <= end <= v@.len(),
            t == v@.subrange(start as int, v@.len() as int),
            trim_end(t) == trim_end(v@.subrange(start as int, end as int)),
        decreases end,
    {
        assert(v@.subrange(start as int, end as int).drop_last() =~= v@.subrange(start as int, end - 1));
        end = end - 1;
    }
    let mut out: Vec<char> = Vec::new();
    let mut i: usize = start;
    while i < end
        invariant
            start <= i <= end,
            end <= v@.len(),
            out@ == v@.subrange(start as int, i as int),
        decreases end - i,
    {
        out.push(v[i]);
        i = i + 1;
        assert(out@ =~= v@.subrange(start as int, i as int));
    }
    out
}

/// `v` without leading and trailing occurrences of `c`.
pub fn trim_char_chars(v: &Vec<char>, c: char) -> (r: Vec<char>)
    ensures
        r@ == trim_char(v@, c),
{
    let mut start: usize = 0;
    assert(v@.subrange(0, v@.len() as int) =~= v@);
    while start < v.len() && v[start] == c
        invariant
            start <= v@.len(),
            trim_char_start(v@, c) == trim_char_start(v@.subrange(start as int, v@.len() as int), c),
        decreases v@.len() - start,
    {
        assert(v@.subrange(start as int, v@.len() as int).drop_first() =~= v@.subrange(start + 1, v@.len() as int));
        start = start + 1;
    }
    let mut end: usize = v.len();
    let ghost t = v@.subrange(start as int, v@.len() as int);
    assert(trim_char_start(t, c) == t);
    while end > start && v[end - 1] == c
        invariant
            start <= end <= v@.len(),
            t == v@.subrange(start as int, v@.len() as int),
            trim_char_end(t, c) == trim_char_end(v@.subrange(start as int, end as int), c),
        decreases end,
    {
        assert(v@.subrange(start as int, end as int).drop_last() =~= v@.subrange(start as int, end - 1));
        end = end - 1;
    }
    let mut out: Vec<char> = Vec::new();
    let mut i: usize = start;
    while i < end
        invariant
            start <= i <= end,
            end <= v@.len(),
            out@ == v@.subrange(start as int, i as int),
        decreases end - i,
    {
        out.push(v[i]);
        i = i + 1;
        assert(out@ =~= v@.subrange(start as int, i as int));
    }
    out
}

/// The index of the first `c` in `v`.
pub fn find_char_index(v: &Vec<char>, c: char) -> (r: Option<usize>)
    ensures
        match find_char(v@, c) {
            Some(i) => r == Some(i as usize),
            None => r is None,
        },
        r matches Some(i) ==> i < v@.len() && find_char(v@, c) == Some(i as int),
{
    let mut i: usize = 0;
    assert(v@.subrange(0, v@.len() as int) =~= v@);
    while i < v.len()
        invariant
            i <= v@.len(),
            find_char(v@, c) == match find_char(v@.subrange(i as int, v@.len() as int), c) {
                Some(j) => Some(j + i),
                None => None,
            },
        decreases v@.len() - i,
    {
        assert(v@.subrange(i as int, v@.len() as int).drop_first() =~= v@.subrange(i + 1, v@.len() as int));
        if v[i] == c {
            return Some(i);
        }
        i = i + 1;
    }
    None
}

/// `v` from index `a` up to (not including) `b`.
pub fn slice_chars(v: &Vec<char>, a: usize, b: usize) -> (r: Vec<char>)
    requires
        a <= b <= v@.len(),
    ensures
        r@ == v@.subrange(a as int, b as int),
{
    let mut out: Vec<char> = Vec::new();
    let mut i: usize = a;
    while i < b
        invariant
            a <= i <= b,
            b <= v@.len(),
            out@ == v@.subrange(a as int, i as int),
        decreases b - i,
    {
        out.push(v[i]);
        i = i + 1;
        assert(out@ =~= v@.subrange(a as int, i as int));
    }
    out
}


/// `from_str` for an unsigned integer type whose largest value is `max`: an optional `+`,
/// then at least one digit, with a value that fits.
pub open spec fn parse_uint(s: Seq<char>, max: nat) -> Option<nat> {
    let d = if s.len() > 0 && s[0] == '+' {
        s.drop_first()
    } else {
        s
    };
    if d.len() > 0 && all_digits(d) && digits_value(d) <= max {
        Some(digits_value(d))
    } else {
        None
    }
}

/// Parses an unsigned decimal number of at most `max`.
pub fn parse_uint_chars(s: &Vec<char>, max: u64) -> (r: Option<u64>)
    ensures
        match parse_uint(s@, max as nat) {
            Some(v) => r == Some(v as u64),
            None => r is None,
        },
{
    let mut start: usize = 0;
    if s.len() > 0 && s[0] == '+' {
        start = 1;
    }
    let ghost d = if s@.len() > 0 && s@[0] == '+' {
        s@.drop_first()
    } else {
        s@
    };
    assert(d =~= s@.subrange(start as int, s@.len() as int));
    if start >= s.len() {
        return None;
    }
    let mut value: u128 = 0;
    let mut i: usize = start;
    while i < s.len()
        invariant
            start <= i <= s@.len(),
            d =~= s@.subrange(start as int, s@.len() as int),
            d == (if s@.len() > 0 && s@[0] == '+' {
                s@.drop_first()
            } else {
                s@
            }),
            all_digits(d.subrange(0, i - start)),
            value == digits_value(d.subrange(0, i - start)),
            value <= max,
        decreases s@.len() - i,
    {
        let c = s[i];
        if !('0' <= c && c <= '9') {
            proof {
                assert(d[i - start] == c);
                assert(!is_digit(d[i - start]));
                assert(!all_digits(d));
            }
            return None;
        }
        let dv = (c as u32 - 48) as u128;
        proof {
            assert(d.subrange(0, i + 1 - start).drop_last() =~= d.subrange(0, i - start));
            assert(d.subrange(0, i + 1 - start).last() == c);
        }
        let nv = value * 10 + dv;
        i = i + 1;
        if nv > max as u128 {
            proof {
                assert(digits_value(d.subrange(0, i - start)) == nv);
                if all_digits(d) {
                    lemma_digits_value_monotone(d, i - start);
                }
            }
            return None;
        }
        value = nv;
    }
    assert(d.subrange(0, i - start) =~= d);
    Some(value as u64)
}

/// The pieces of `parts` joined with single spaces.
pub open spec fn join_spaced(parts: Seq<Seq<char>>) -> Seq<char>
    decreases parts.len(),
{
    if parts.len() == 0 {
        Seq::empty()
    } else if parts.len() == 1 {
        parts[0]
    } else {
        join_spaced(parts.drop_last()) + seq![' '] + parts.last()
    }
}

} // verus!
