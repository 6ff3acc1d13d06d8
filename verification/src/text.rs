//! Character-level string operations with their mathematical models.

use vstd::prelude::*;

verus! {

/// `char::is_whitespace`: the Unicode `White_Space` property.
pub open spec fn is_ws(c: char) -> bool {
    ||| c == '\t'
    ||| c == '\n'
    ||| c == '\x0B'
    ||| c == '\x0C'
    ||| c == '\r'
    ||| c == ' '
    ||| c == '\u{85}'
    ||| c == '\u{A0}'
    ||| c == '\u{1680}'
    ||| ('\u{2000}' <= c && c <= '\u{200A}')
    ||| c == '\u{2028}'
    ||| c == '\u{2029}'
    ||| c == '\u{202F}'
    ||| c == '\u{205F}'
    ||| c == '\u{3000}'
}

/// Whitespace check with the same meaning as `is_ws`.
pub fn is_whitespace_char(c: char) -> (b: bool)
    ensures
        b == is_ws(c),
{
    c == '\t' || c == '\n' || c == '\x0B' || c == '\x0C' || c == '\r' || c == ' ' || c
        == '\u{85}' || c == '\u{A0}' || c == '\u{1680}' || ('\u{2000}' <= c && c <= '\u{200A}')
        || c == '\u{2028}' || c == '\u{2029}' || c == '\u{202F}' || c == '\u{205F}' || c
        == '\u{3000}'
}

/// `s` without its leading whitespace.
pub open spec fn trim_start_seq(s: Seq<char>) -> Seq<char>
    decreases s.len(),
{
    if s.len() > 0 && is_ws(s[0]) {
        trim_start_seq(s.drop_first())
    } else {
        s
    }
}

/// `s` without its trailing whitespace.
pub open spec fn trim_end_seq(s: Seq<char>) -> Seq<char>
    decreases s.len(),
{
    if s.len() > 0 && is_ws(s.last()) {
        trim_end_seq(s.drop_last())
    } else {
        s
    }
}

/// `str::trim`: `s` without leading and trailing whitespace.
pub open spec fn trim_seq(s: Seq<char>) -> Seq<char> {
    trim_end_seq(trim_start_seq(s))
}

/// The pieces of `s` between the occurrences of `sep`, as `str::split` yields them.
pub open spec fn split_seq(s: Seq<char>, sep: char) -> Seq<Seq<char>>
    decreases s.len(),
{
    if s.len() == 0 {
        seq![Seq::<char>::empty()]
    } else {
        let rest = split_seq(s.drop_first(), sep);
        if s[0] == sep {
            seq![Seq::<char>::empty()] + rest
        } else {
            rest.update(0, seq![s[0]] + rest[0])
        }
    }
}

pub proof fn lemma_split_nonempty(s: Seq<char>, sep: char)
    ensures
        split_seq(s, sep).len() >= 1,
    decreases s.len(),
{
    if s.len() > 0 {
        lemma_split_nonempty(s.drop_first(), sep);
    }
}

/// Splitting `a`, a separator and `b` gives the pieces of `a` followed by those of `b`.
pub proof fn lemma_split_join(a: Seq<char>, b: Seq<char>, sep: char)
    ensures
        split_seq(a + seq![sep] + b, sep) == split_seq(a, sep) + split_seq(b, sep),
    decreases a.len(),
{
    let s = a + seq![sep] + b;
    if a.len() == 0 {
        assert(s.drop_first() =~= b);
        assert(s[0] == sep);
    } else {
        let a1 = a.drop_first();
        assert(s.drop_first() =~= a1 + seq![sep] + b);
        assert(s[0] == a[0]);
        lemma_split_join(a1, b, sep);
        lemma_split_nonempty(a1, sep);
        if a[0] != sep {
            let x = seq![a[0]] + split_seq(a1, sep)[0];
            assert((split_seq(a1, sep) + split_seq(b, sep)).update(0, x) =~= split_seq(a1, sep).update(
                0,
                x,
            ) + split_seq(b, sep));
        } else {
            assert(seq![Seq::<char>::empty()] + (split_seq(a1, sep) + split_seq(b, sep)) =~= (seq![
                Seq::<char>::empty(),
            ] + split_seq(a1, sep)) + split_seq(b, sep));
        }
    }
}

proof fn lemma_trim_start_skip(s: Seq<char>, i: int)
    requires
        0 <= i < s.len(),
        is_ws(s[i]),
    ensures
        trim_start_seq(s.skip(i)) == trim_start_seq(s.skip(i + 1)),
{
    assert(s.skip(i).drop_first() =~= s.skip(i + 1));
}

proof fn lemma_trim_end_take(s: Seq<char>, j: int)
    requires
        0 < j <= s.len(),
        is_ws(s[j - 1]),
    ensures
        trim_end_seq(s.take(j)) == trim_end_seq(s.take(j - 1)),
{
    assert(s.take(j).drop_last() =~= s.take(j - 1));
}

/// The characters `from..to` of `s` as an owned string.
pub fn substring(s: &str, from: usize, to: usize) -> (r: String)
    requires
        from <= to <= s@.len(),
    ensures
        r@ == s@.subrange(from as int, to as int),
{
    String::from_str(s.substring_char(from, to))
}

/// `str::trim`.
pub fn trim(s: &str) -> (r: String)
    ensures
        r@ == trim_seq(s@),
{
    let n = s.unicode_len();
    let mut i: usize = 0;
    assert(s@.skip(0) =~= s@);
    while i < n && is_whitespace_char(s.get_char(i))
        invariant
            n == s@.len(),
            i <= n,
            trim_start_seq(s@) == trim_start_seq(s@.skip(i as int)),
        decreases n - i,
    {
        proof {
            lemma_trim_start_skip(s@, i as int);
        }
        i = i + 1;
    }
    let ghost t = s@.skip(i as int);
    assert(trim_start_seq(t) == t);
    let mut j: usize = n;
    assert(t.take((j - i) as int) =~= t);
    while j > i && is_whitespace_char(s.get_char(j - 1))
        invariant
            n == s@.len(),
            i <= j <= n,
            t == s@.skip(i as int),
            trim_end_seq(t) == trim_end_seq(t.take((j - i) as int)),
        decreases j,
    {
        proof {
            assert(t[(j - 1 - i) as int] == s@[j - 1]);
            lemma_trim_end_take(t, (j - i) as int);
        }
        j = j - 1;
    }
    assert(t.take((j - i) as int) =~= s@.subrange(i as int, j as int));
    substring(s, i, j)
}


/// `pieces` with `prefix` put in front of its first piece.
pub open spec fn prepend_first(prefix: Seq<char>, pieces: Seq<Seq<char>>) -> Seq<Seq<char>> {
    pieces.update(0, prefix + pieces[0])
}

/// `str::split` on a single character, collected into owned strings.
pub fn split_char(s: &str, sep: char) -> (v: Vec<String>)
    ensures
        v.deep_view() == split_seq(s@, sep),
{
    let n = s.unicode_len();
    let mut pieces: Vec<String> = Vec::new();
    let mut start: usize = 0;
    let mut i: usize = 0;
    assert(s@.skip(0) =~= s@);
    assert(s@.subrange(0, 0) =~= Seq::<char>::empty());
    proof {
        lemma_split_nonempty(s@, sep);
    }
    assert(prepend_first(Seq::<char>::empty(), split_seq(s@, sep)) =~= split_seq(s@, sep));
    assert(pieces.deep_view() + split_seq(s@, sep) =~= split_seq(s@, sep));
    while i < n
        invariant
            n == s@.len(),
            start <= i <= n,
            split_seq(s@, sep) == pieces.deep_view() + prepend_first(
                s@.subrange(start as int, i as int),
                split_seq(s@.skip(i as int), sep),
            ),
        decreases n - i,
    {
        let c = s.get_char(i);
        let ghost rest = s@.skip(i as int);
        let ghost tail = s@.skip(i + 1);
        let ghost cur = s@.subrange(start as int, i as int);
        assert(rest.drop_first() =~= tail);
        proof {
            lemma_split_nonempty(tail, sep);
        }
        if c == sep {
            let piece = substring(s, start, i);
            let ghost old_pieces = pieces.deep_view();
            pieces.push(piece);
            assert(pieces.deep_view() =~= old_pieces.push(cur));
            start = i + 1;
            i = i + 1;
            assert(s@.subrange(start as int, i as int) =~= Seq::<char>::empty());
            assert(prepend_first(Seq::<char>::empty(), split_seq(tail, sep)) =~= split_seq(tail, sep));
            assert(prepend_first(cur, split_seq(rest, sep)) =~= seq![cur] + split_seq(tail, sep));
            assert(old_pieces + prepend_first(cur, split_seq(rest, sep)) =~= pieces.deep_view()
                + prepend_first(s@.subrange(start as int, i as int), split_seq(tail, sep)));
        } else {
            assert(rest[0] == c);
            assert(split_seq(rest, sep) == split_seq(tail, sep).update(
                0,
                seq![c] + split_seq(tail, sep)[0],
            ));
            let ghost x = split_seq(tail, sep);
            assert((cur + seq![c]) + x[0] =~= cur + (seq![c] + x[0]));
            i = i + 1;
            assert(s@.subrange(start as int, i as int) =~= cur + seq![c]);
            assert(prepend_first(cur, split_seq(rest, sep)) =~= prepend_first(
                s@.subrange(start as int, i as int),
                split_seq(tail, sep),
            ));
        }
    }
    let last = substring(s, start, n);
    let ghost old_pieces = pieces.deep_view();
    assert(s@.skip(n as int) =~= Seq::<char>::empty());
    assert(prepend_first(s@.subrange(start as int, n as int), split_seq(Seq::<char>::empty(), sep))
        =~= seq![last@]);
    pieces.push(last);
    assert(pieces.deep_view() =~= old_pieces.push(last@));
    pieces
}


/// An ASCII decimal digit.
pub open spec fn is_digit(c: char) -> bool {
    '0' <= c && c <= '9'
}

pub open spec fn all_digits(s: Seq<char>) -> bool {
    forall|i: int| 0 <= i < s.len() ==> #[trigger] is_digit(s[i])
}

pub open spec fn digit_val(c: char) -> int {
    c as int - '0' as int
}

/// The number that the decimal digits `s` write.
pub open spec fn digits_value(s: Seq<char>) -> int
    decreases s.len(),
{
    if s.len() == 0 {
        0
    } else {
        digits_value(s.drop_last()) * 10 + digit_val(s.last())
    }
}

/// A non-empty run of decimal digits and its value.
pub open spec fn unsigned_digits(s: Seq<char>) -> Option<int> {
    if s.len() > 0 && all_digits(s) {
        Some(digits_value(s))
    } else {
        None
    }
}

/// The value that `FromStr` of a signed integer type reads, before the range check:
/// an optional `+` or `-`, then one or more ASCII digits.
pub open spec fn signed_value(s: Seq<char>) -> Option<int> {
    if s.len() > 0 && s[0] == '-' {
        match unsigned_digits(s.drop_first()) {
            Some(v) => Some(-v),
            None => None,
        }
    } else if s.len() > 0 && s[0] == '+' {
        unsigned_digits(s.drop_first())
    } else {
        unsigned_digits(s)
    }
}

/// The value that `FromStr` of an unsigned integer type reads, before the range
/// check: an optional `+`, then one or more ASCII digits.
pub open spec fn unsigned_value(s: Seq<char>) -> Option<int> {
    if s.len() > 0 && s[0] == '+' {
        unsigned_digits(s.drop_first())
    } else {
        unsigned_digits(s)
    }
}

/// `s.parse::<i32>().ok()`.
pub open spec fn parse_i32_spec(s: Seq<char>) -> Option<i32> {
    match signed_value(s) {
        Some(v) => if i32::MIN <= v <= i32::MAX {
            Some(v as i32)
        } else {
            None
        },
        None => None,
    }
}

/// `s.parse::<u64>().ok()`.
pub open spec fn parse_u64_spec(s: Seq<char>) -> Option<u64> {
    match unsigned_value(s) {
        Some(v) => if v <= u64::MAX {
            Some(v as u64)
        } else {
            None
        },
        None => None,
    }
}

pub proof fn lemma_digits_value_nonneg(s: Seq<char>)
    requires
        all_digits(s),
    ensures
        digits_value(s) >= 0,
    decreases s.len(),
{
    if s.len() > 0 {
        assert(is_digit(s[s.len() - 1]));
        assert(all_digits(s.drop_last())) by {
            assert forall|k: int| 0 <= k < s.drop_last().len() implies #[trigger] is_digit(
                s.drop_last()[k],
            ) by {
                assert(s.drop_last()[k] == s[k]);
            }
        }
        lemma_digits_value_nonneg(s.drop_last());
    }
}

pub open spec fn digits_cap() -> int {
    0x1_0000_0000_0000_0000
}

pub open spec fn min_int(a: int, b: int) -> int {
    if a <= b {
        a
    } else {
        b
    }
}

/// Reads the digits `s[from..]`: `None` unless they are one or more ASCII digits,
/// else their value, capped at 2^64.
fn read_digits(s: &str, from: usize) -> (r: Option<u128>)
    requires
        from <= s@.len(),
    ensures
        r is None <==> unsigned_digits(s@.skip(from as int)) is None,
        r is Some ==> unsigned_digits(s@.skip(from as int))->0 >= 0,
        r is Some ==> r->0 <= digits_cap(),
        r is Some && r->0 < digits_cap() ==> r->0 == unsigned_digits(s@.skip(from as int))->0,
        r is Some && r->0 == digits_cap() ==> unsigned_digits(s@.skip(from as int))->0
            >= digits_cap(),
{
    let n = s.unicode_len();
    if from == n {
        return None;
    }
    let mut acc: u128 = 0;
    let mut i: usize = from;
    assert(s@.subrange(from as int, from as int) =~= Seq::<char>::empty());
    while i < n
        invariant
            n == s@.len(),
            from < n,
            from <= i <= n,
            all_digits(s@.subrange(from as int, i as int)),
            acc == min_int(digits_value(s@.subrange(from as int, i as int)), digits_cap()),
        decreases n - i,
    {
        let c = s.get_char(i);
        let ghost prev = s@.subrange(from as int, i as int);
        let ghost next = s@.subrange(from as int, i + 1);
        if !('0' <= c && c <= '9') {
            assert(!is_digit(s@.skip(from as int)[i - from]));
            return None;
        }
        assert(next.drop_last() =~= prev);
        assert(next.last() == c);
        let d = (c as u32 - '0' as u32) as u128;
        assert(d == digit_val(c));
        acc = acc * 10 + d;
        if acc > 0x1_0000_0000_0000_0000u128 {
            acc = 0x1_0000_0000_0000_0000u128;
        }
        i = i + 1;
        assert(all_digits(next)) by {
            assert forall|k: int| 0 <= k < next.len() implies #[trigger] is_digit(next[k]) by {
                if k < prev.len() {
                    assert(next[k] == prev[k]);
                }
            }
        }
        assert(digits_value(next) == digits_value(prev) * 10 + digit_val(c));
    }
    assert(s@.subrange(from as int, n as int) =~= s@.skip(from as int));
    proof {
        lemma_digits_value_nonneg(s@.skip(from as int));
    }
    Some(acc)
}

/// `s.parse::<i32>().ok()`: an optional sign, then ASCII digits, in range.
pub fn parse_i32(s: &str) -> (r: Option<i32>)
    ensures
        r == parse_i32_spec(s@),
{
    let n = s.unicode_len();
    let minus = n > 0 && s.get_char(0) == '-';
    let plus = n > 0 && s.get_char(0) == '+';
    if minus {
        assert(s@.skip(1) =~= s@.drop_first());
        match read_digits(s, 1) {
            Some(v) => {
                if v <= 0x8000_0000u128 {
                    let w = v as i64;
                    Some((-w) as i32)
                } else {
                    None
                }
            },
            None => None,
        }
    } else if plus {
        assert(s@.skip(1) =~= s@.drop_first());
        match read_digits(s, 1) {
            Some(v) => {
                if v <= 0x7fff_ffffu128 {
                    Some(v as i32)
                } else {
                    None
                }
            },
            None => None,
        }
    } else {
        assert(s@.skip(0) =~= s@);
        match read_digits(s, 0) {
            Some(v) => {
                if v <= 0x7fff_ffffu128 {
                    Some(v as i32)
                } else {
                    None
                }
            },
            None => None,
        }
    }
}

/// `s.parse::<u64>().ok()`: an optional `+`, then ASCII digits, in range.
pub fn parse_u64(s: &str) -> (r: Option<u64>)
    ensures
        r == parse_u64_spec(s@),
{
    let n = s.unicode_len();
    let plus = n > 0 && s.get_char(0) == '+';
    let from: usize = if plus {
        1
    } else {
        0
    };
    assert(s@.skip(1) =~= s@.drop_first());
    assert(s@.skip(0) =~= s@);
    assert(unsigned_value(s@) == unsigned_digits(s@.skip(from as int)));
    match read_digits(s, from) {
        Some(v) => {
            if v <= 0xffff_ffff_ffff_ffffu128 {
                Some(v as u64)
            } else {
                None
            }
        },
        None => None,
    }
}


/// The ASCII digit for `d` in `0..10`.
pub open spec fn digit_char(d: int) -> char {
    (d + '0' as int) as char
}

/// The decimal representation of `n`, without leading zeros.
pub open spec fn decimal_seq(n: nat) -> Seq<char>
    decreases n,
{
    if n < 10 {
        seq![digit_char(n as int)]
    } else {
        decimal_seq(n / 10).push(digit_char((n % 10) as int))
    }
}

/// `n.to_string()` for an integer `n`.
pub open spec fn int_to_decimal(n: int) -> Seq<char> {
    if n < 0 {
        seq!['-'] + decimal_seq((-n) as nat)
    } else {
        decimal_seq(n as nat)
    }
}

fn digit_str(d: u64) -> (r: &'static str)
    requires
        d < 10,
    ensures
        r@ == seq![digit_char(d as int)],
{
    if d == 0 {
        proof { reveal_strlit("0"); }
        "0"
    } else if d == 1 {
        proof { reveal_strlit("1"); }
        "1"
    } else if d == 2 {
        proof { reveal_strlit("2"); }
        "2"
    } else if d == 3 {
        proof { reveal_strlit("3"); }
        "3"
    } else if d == 4 {
        proof { reveal_strlit("4"); }
        "4"
    } else if d == 5 {
        proof { reveal_strlit("5"); }
        "5"
    } else if d == 6 {
        proof { reveal_strlit("6"); }
        "6"
    } else if d == 7 {
        proof { reveal_strlit("7"); }
        "7"
    } else if d == 8 {
        proof { reveal_strlit("8"); }
        "8"
    } else {
        proof { reveal_strlit("9"); }
        "9"
    }
}

fn push_decimal(n: u64, out: &mut String)
    ensures
        final(out)@ == old(out)@ + decimal_seq(n as nat),
    decreases n,
{
    if n >= 10 {
        push_decimal(n / 10, out);
    }
    let ghost mid = out@;
    out.append(digit_str(n % 10));
    assert(decimal_seq(n as nat) == if n < 10 {
        seq![digit_char(n as int)]
    } else {
        decimal_seq((n / 10) as nat).push(digit_char((n % 10) as int))
    });
    if n < 10 {
        assert(out@ =~= old(out)@ + decimal_seq(n as nat));
    } else {
        assert(out@ =~= old(out)@ + decimal_seq(n as nat));
    }
}

/// `n.to_string()` for an `i64`.
pub fn i64_to_string(n: i64) -> (r: String)
    ensures
        r@ == int_to_decimal(n as int),
{
    let mut out = String::new();
    if n < 0 {
        out.append("-");
        proof { reveal_strlit("-"); }
        let m: u64 = if n == i64::MIN {
            0x8000_0000_0000_0000u64
        } else {
            (-n) as u64
        };
        push_decimal(m, &mut out);
        assert(out@ =~= seq!['-'] + decimal_seq((-n) as nat));
    } else {
        push_decimal(n as u64, &mut out);
        assert(out@ =~= decimal_seq(n as nat));
    }
    out
}

/// `n.to_string()` for an `i32`.
pub fn i32_to_string(n: i32) -> (r: String)
    ensures
        r@ == int_to_decimal(n as int),
{
    i64_to_string(n as i64)
}

/// `n.to_string()` for a `usize`.
pub fn usize_to_string(n: usize) -> (r: String)
    ensures
        r@ == int_to_decimal(n as int),
{
    let mut out = String::new();
    push_decimal(n as u64, &mut out);
    assert(out@ =~= decimal_seq(n as nat));
    out
}

pub proof fn lemma_decimal_digits(n: nat)
    ensures
        decimal_seq(n).len() >= 1,
        all_digits(decimal_seq(n)),
        digits_value(decimal_seq(n)) == n,
    decreases n,
{
    if n >= 10 {
        lemma_decimal_digits(n / 10);
        let s = decimal_seq(n);
        let p = decimal_seq(n / 10);
        assert(s.drop_last() =~= p);
        assert(s.last() == digit_char((n % 10) as int));
        assert(digit_val(digit_char((n % 10) as int)) == n % 10);
        assert(digits_value(s) == digits_value(p) * 10 + digit_val(s.last()));
        assert(n == (n / 10) * 10 + n % 10);
        assert(digits_value(p) == n / 10);
        assert(digits_value(s) == n);
        assert(all_digits(s)) by {
            assert forall|k: int| 0 <= k < s.len() implies #[trigger] is_digit(s[k]) by {
                if k < p.len() {
                    assert(s[k] == p[k]);
                }
            }
        }
    } else {
        let s = decimal_seq(n);
        assert(s.drop_last() =~= Seq::<char>::empty());
        assert(digit_val(digit_char(n as int)) == n);
        assert(digits_value(Seq::<char>::empty()) == 0);
        assert(digits_value(s) == n);
    }
}

/// Reading back what `to_string` wrote gives the number again.
pub proof fn lemma_parse_i32_of_decimal(n: i32)
    ensures
        parse_i32_spec(int_to_decimal(n as int)) == Some(n),
{
    if n < 0 {
        let m = (-n) as nat;
        lemma_decimal_digits(m);
        let s = int_to_decimal(n as int);
        assert(s.drop_first() =~= decimal_seq(m));
        assert(is_digit(decimal_seq(m)[0]));
    } else {
        lemma_decimal_digits(n as nat);
        assert(is_digit(decimal_seq(n as nat)[0]));
    }
}


/// `p` is a prefix of `s`.
pub open spec fn has_prefix(s: Seq<char>, p: Seq<char>) -> bool {
    p.len() <= s.len() && s.take(p.len() as int) == p
}

/// `p` is a suffix of `s`.
pub open spec fn has_suffix(s: Seq<char>, p: Seq<char>) -> bool {
    p.len() <= s.len() && s.skip(s.len() - p.len()) == p
}

/// `str::starts_with`.
pub fn starts_with(s: &str, p: &str) -> (b: bool)
    ensures
        b == has_prefix(s@, p@),
{
    let n = s.unicode_len();
    let m = p.unicode_len();
    if m > n {
        return false;
    }
    let mut i: usize = 0;
    while i < m
        invariant
            n == s@.len(),
            m == p@.len(),
            m <= n,
            i <= m,
            forall|k: int| 0 <= k < i ==> s@[k] == p@[k],
        decreases m - i,
    {
        if s.get_char(i) != p.get_char(i) {
            assert(s@.take(m as int)[i as int] != p@[i as int]);
            return false;
        }
        i = i + 1;
    }
    assert(s@.take(m as int) =~= p@);
    true
}

/// `str::ends_with`.
pub fn ends_with(s: &str, p: &str) -> (b: bool)
    ensures
        b == has_suffix(s@, p@),
{
    let n = s.unicode_len();
    let m = p.unicode_len();
    if m > n {
        return false;
    }
    let off = n - m;
    let mut i: usize = 0;
    while i < m
        invariant
            n == s@.len(),
            m == p@.len(),
            off == n - m,
            i <= m,
            forall|k: int| 0 <= k < i ==> s@[off + k] == p@[k],
        decreases m - i,
    {
        if s.get_char(off + i) != p.get_char(i) {
            assert(s@.skip(off as int)[i as int] != p@[i as int]);
            return false;
        }
        i = i + 1;
    }
    assert(s@.skip(off as int) =~= p@);
    true
}

/// Index of the first `c` in `s` at or after `i`.
pub open spec fn find_char_from(s: Seq<char>, c: char, i: int) -> Option<int>
    decreases s.len() - i,
{
    if i < 0 || i >= s.len() {
        None
    } else if s[i] == c {
        Some(i)
    } else {
        find_char_from(s, c, i + 1)
    }
}

/// Index of the first `c` in `s`.
pub open spec fn find_char(s: Seq<char>, c: char) -> Option<int> {
    find_char_from(s, c, 0)
}

/// Index of the last `c` in `s`.
pub open spec fn rfind_char(s: Seq<char>, c: char) -> Option<int>
    decreases s.len(),
{
    if s.len() == 0 {
        None
    } else if s.last() == c {
        Some(s.len() - 1)
    } else {
        rfind_char(s.drop_last(), c)
    }
}

pub proof fn lemma_find_char_from(s: Seq<char>, c: char, i: int)
    requires
        0 <= i <= s.len(),
    ensures
        find_char_from(s, c, i) matches Some(k) ==> i <= k < s.len() && s[k] == c && forall|j: int|
            i <= j < k ==> s[j] != c,
        find_char_from(s, c, i) is None ==> forall|j: int| i <= j < s.len() ==> s[j] != c,
    decreases s.len() - i,
{
    if i < s.len() && s[i] != c {
        lemma_find_char_from(s, c, i + 1);
    }
}

pub proof fn lemma_rfind_char(s: Seq<char>, c: char)
    ensures
        rfind_char(s, c) matches Some(k) ==> 0 <= k < s.len() && s[k] == c && forall|j: int|
            k < j < s.len() ==> s[j] != c,
        rfind_char(s, c) is None ==> forall|j: int| 0 <= j < s.len() ==> s[j] != c,
    decreases s.len(),
{
    if s.len() > 0 && s.last() != c {
        lemma_rfind_char(s.drop_last(), c);
        assert forall|j: int| 0 <= j < s.len() - 1 implies s[j] == s.drop_last()[j] by {}
    }
}

/// Position of the first `c` in `s`.
pub fn find_char_index(s: &str, c: char) -> (r: Option<usize>)
    ensures
        r matches Some(k) ==> find_char(s@, c) == Some(k as int),
        r is None ==> find_char(s@, c) is None,
{
    let n = s.unicode_len();
    let mut i: usize = 0;
    while i < n
        invariant
            n == s@.len(),
            i <= n,
            find_char(s@, c) == find_char_from(s@, c, i as int),
        decreases n - i,
    {
        if s.get_char(i) == c {
            return Some(i);
        }
        i = i + 1;
    }
    None
}

/// Position of the last `c` in `s`.
pub fn rfind_char_index(s: &str, c: char) -> (r: Option<usize>)
    ensures
        r matches Some(k) ==> rfind_char(s@, c) == Some(k as int),
        r is None ==> rfind_char(s@, c) is None,
{
    let n = s.unicode_len();
    let mut j: usize = n;
    assert(s@.take(n as int) =~= s@);
    while j > 0
        invariant
            n == s@.len(),
            j <= n,
            rfind_char(s@, c) == rfind_char(s@.take(j as int), c),
        decreases j,
    {
        assert(s@.take(j as int).last() == s@[j - 1]);
        if s.get_char(j - 1) == c {
            return Some(j - 1);
        }
        assert(s@.take(j as int).drop_last() =~= s@.take(j - 1));
        j = j - 1;
    }
    None
}

/// `p` occurs in `s` at position `i`.
pub open spec fn matches_at(s: Seq<char>, p: Seq<char>, i: int) -> bool {
    0 <= i && i + p.len() <= s.len() && s.subrange(i, i + p.len()) == p
}

/// Position of the first occurrence of `p` in `s` at or after `i`.
pub open spec fn find_from(s: Seq<char>, p: Seq<char>, i: int) -> Option<int>
    decreases s.len() + 1 - i,
{
    if i < 0 || i + p.len() > s.len() {
        None
    } else if matches_at(s, p, i) {
        Some(i)
    } else {
        find_from(s, p, i + 1)
    }
}

/// `str::replacen(p, r, 1)`: the first occurrence of `p` replaced by `r`.
pub open spec fn replace_first_seq(s: Seq<char>, p: Seq<char>, r: Seq<char>) -> Seq<char> {
    match find_from(s, p, 0) {
        Some(i) => s.take(i) + r + s.skip(i + p.len()),
        None => s,
    }
}

fn matches_at_exec(s: &str, n: usize, p: &str, m: usize, i: usize) -> (b: bool)
    requires
        n == s@.len(),
        m == p@.len(),
        i + m <= n,
    ensures
        b == matches_at(s@, p@, i as int),
{
    let mut k: usize = 0;
    while k < m
        invariant
            n == s@.len(),
            m == p@.len(),
            i + m <= n,
            k <= m,
            forall|t: int| 0 <= t < k ==> s@[i + t] == p@[t],
        decreases m - k,
    {
        if s.get_char(i + k) != p.get_char(k) {
            assert(s@.subrange(i as int, i + m)[k as int] != p@[k as int]);
            return false;
        }
        k = k + 1;
    }
    assert(s@.subrange(i as int, i + m) =~= p@);
    true
}

/// Position of the first occurrence of `p` in `s`.
pub fn find_str(s: &str, p: &str) -> (r: Option<usize>)
    ensures
        r matches Some(k) ==> find_from(s@, p@, 0) == Some(k as int),
        r is None ==> find_from(s@, p@, 0) is None,
{
    let n = s.unicode_len();
    let m = p.unicode_len();
    if m > n {
        return None;
    }
    let last = n - m;
    let mut i: usize = 0;
    loop
        invariant
            n == s@.len(),
            m == p@.len(),
            last == n - m,
            i <= last,
            find_from(s@, p@, 0) == find_from(s@, p@, i as int),
        decreases last - i,
    {
        if matches_at_exec(s, n, p, m, i) {
            return Some(i);
        }
        if i == last {
            assert(find_from(s@, p@, i + 1) is None);
            return None;
        }
        i = i + 1;
    }
}

/// `s.replacen(p, r, 1)`.
pub fn replace_first(s: &str, p: &str, r: &str) -> (out: String)
    ensures
        out@ == replace_first_seq(s@, p@, r@),
{
    match find_str(s, p) {
        Some(i) => {
            let n = s.unicode_len();
            let m = p.unicode_len();
            proof {
                lemma_find_from_bounds(s@, p@, 0);
            }
            let mut out = substring(s, 0, i);
            out.append(r);
            let tail = substring(s, i + m, n);
            out.append(tail.as_str());
            assert(s@.take(i as int) =~= s@.subrange(0, i as int));
            assert(s@.skip(i + m) =~= s@.subrange(i + m, n as int));
            out
        },
        None => String::from_str(s),
    }
}

pub proof fn lemma_find_from_bounds(s: Seq<char>, p: Seq<char>, i: int)
    ensures
        find_from(s, p, i) matches Some(k) ==> i <= k && matches_at(s, p, k),
    decreases s.len() + 1 - i,
{
    if !(i < 0 || i + p.len() > s.len()) && !matches_at(s, p, i) {
        lemma_find_from_bounds(s, p, i + 1);
    }
}


/// `a == b` on string slices.
pub fn str_eq(a: &str, b: &str) -> (r: bool)
    ensures
        r == (a@ == b@),
{
    let n = a.unicode_len();
    let m = b.unicode_len();
    if n != m {
        return false;
    }
    let r = starts_with(a, b);
    assert(a@.take(m as int) =~= a@);
    r
}

/// An owned copy of `s`.
pub fn copy_string(s: &String) -> (r: String)
    ensures
        r@ == s@,
{
    s.clone()
}

/// An owned copy of an optional string.
pub fn copy_opt_string(s: &Option<String>) -> (r: Option<String>)
    ensures
        r.deep_view() == s.deep_view(),
{
    match s {
        Some(v) => Some(v.clone()),
        None => None,
    }
}

/// An owned copy of a list of header name/value pairs.
pub fn copy_pairs(v: &Vec<(String, String)>) -> (r: Vec<(String, String)>)
    ensures
        r.deep_view() == v.deep_view(),
{
    let mut r: Vec<(String, String)> = Vec::new();
    let mut i: usize = 0;
    while i < v.len()
        invariant
            i <= v.len(),
            r.deep_view() == v.deep_view().take(i as int),
        decreases v.len() - i,
    {
        let a = v[i].0.clone();
        let b = v[i].1.clone();
        let ghost old_r = r.deep_view();
        r.push((a, b));
        assert(r.deep_view() =~= old_r.push(v.deep_view()[i as int]));
        assert(v.deep_view().take(i + 1) =~= v.deep_view().take(i as int).push(
            v.deep_view()[i as int],
        ));
        i = i + 1;
    }
    assert(v.deep_view().take(v.len() as int) =~= v.deep_view());
    r
}

/// An owned copy of optional header pairs.
pub fn copy_opt_pairs(v: &Option<Vec<(String, String)>>) -> (r: Option<Vec<(String, String)>>)
    ensures
        r.deep_view() == v.deep_view(),
{
    match v {
        Some(p) => Some(copy_pairs(p)),
        None => None,
    }
}

} // verus!
