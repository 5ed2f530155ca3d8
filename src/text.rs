//! Character-level helpers: XML text escaping, decimal integers and the
//! lexical form of doubles.
use vstd::prelude::*;

verus! {

/// The text of one character after XML character-data escaping.
pub open spec fn escape_char_spec(c: char) -> Seq<char> {
    if c == '&' {
        seq!['&', 'a', 'm', 'p', ';']
    } else if c == '<' {
        seq!['&', 'l', 't', ';']
    } else if c == '>' {
        seq!['&', 'g', 't', ';']
    } else {
        seq![c]
    }
}

/// `s` with `&`, `<` and `>` replaced by their entity references.
pub open spec fn escape_spec(s: Seq<char>) -> Seq<char>
    decreases s.len(),
{
    if s.len() == 0 {
        Seq::empty()
    } else {
        escape_spec(s.drop_last()) + escape_char_spec(s.last())
    }
}

/// Escaping leaves text without `&`, `<` and `>` as it is, so such names
/// and strings stand on the wire verbatim.
pub proof fn lemma_escape_plain(s: Seq<char>)
    requires
        forall|i: int| 0 <= i < s.len() ==> #[trigger] s[i] != '&' && s[i] != '<' && s[i] != '>',
    ensures
        escape_spec(s) == s,
    decreases s.len(),
{
    if s.len() > 0 {
        lemma_escape_plain(s.drop_last());
        assert(s.drop_last().push(s.last()) =~= s);
    } else {
        assert(s =~= Seq::<char>::empty());
    }
}

/// Relies on `String::push`: appends one character.
#[verifier::external_body]
pub(crate) fn push_char(s: &mut String, c: char)
    ensures
        final(s)@ == old(s)@.push(c),
{
    s.push(c)
}

/// Relies on `xml::escape::escape_str_pcdata`: each of the bytes `<`, `>`
/// and `&` is replaced by `&lt;`, `&gt;` and `&amp;`, everything else is
/// copied.
#[verifier::external_body]
fn escape_pcdata(s: &str) -> (r: String)
    ensures
        r@ == escape_spec(s@),
{
    xml::escape::escape_str_pcdata(s).into_owned()
}

/// Appends the escaped form of `s` to `out`.
pub fn escape_str(out: &mut String, s: &str)
    ensures
        final(out)@ == old(out)@ + escape_spec(s@),
{
    let e = escape_pcdata(s);
    out.append(e.as_str());
}

/// Appends the escaped form of one character.
pub fn escape_char(out: &mut String, v: char)
    ensures
        final(out)@ == old(out)@ + escape_spec(seq![v]),
{
    let mut s = String::new();
    push_char(&mut s, v);
    assert(s@ =~= seq![v]);
    escape_str(out, s.as_str());
}

/// The characters of `s`, in order.
pub fn chars_of(s: &str) -> (r: Vec<char>)
    ensures
        r@ == s@,
{
    let mut r: Vec<char> = Vec::new();
    for c in it: s.chars()
        invariant
            r@ == it.seq().take(it.index() as int),
    {
        r.push(c);
    }
    r
}


pub open spec fn is_digit(c: char) -> bool {
    '0' <= c && c <= '9'
}

pub open spec fn digit_value(c: char) -> int {
    c as int - '0' as int
}

pub open spec fn digit_char(d: int) -> char {
    (d + '0' as int) as char
}

pub open spec fn all_digits(s: Seq<char>) -> bool {
    forall|i: int| 0 <= i < s.len() ==> is_digit(#[trigger] s[i])
}

/// The number that a string of decimal digits denotes.
pub open spec fn digits_value(s: Seq<char>) -> int
    decreases s.len(),
{
    if s.len() == 0 {
        0
    } else {
        digits_value(s.drop_last()) * 10 + digit_value(s.last())
    }
}

/// The integer that `s` denotes in decimal: an optional sign followed by at
/// least one digit, and nothing else.
pub open spec fn decimal_value(s: Seq<char>) -> Option<int> {
    if s.len() > 0 && (s[0] == '-' || s[0] == '+') {
        let rest = s.drop_first();
        if rest.len() > 0 && all_digits(rest) {
            if s[0] == '-' {
                Some(-digits_value(rest))
            } else {
                Some(digits_value(rest))
            }
        } else {
            None
        }
    } else if s.len() > 0 && all_digits(s) {
        Some(digits_value(s))
    } else {
        None
    }
}

/// The shortest decimal digits of a natural number.
pub open spec fn nat_text(n: nat) -> Seq<char>
    decreases n,
{
    if n < 10 {
        seq![digit_char(n as int)]
    } else {
        nat_text(n / 10).push(digit_char((n % 10) as int))
    }
}

/// The decimal text of an integer: a minus sign for negative values, no
/// sign otherwise, no leading zeros.
pub open spec fn int_text(n: int) -> Seq<char> {
    if n < 0 {
        seq!['-'] + nat_text((-n) as nat)
    } else {
        nat_text(n as nat)
    }
}

proof fn lemma_digit_char(d: int)
    requires
        0 <= d < 10,
    ensures
        is_digit(digit_char(d)),
        digit_value(digit_char(d)) == d,
{
}

proof fn lemma_nat_text(n: nat)
    ensures
        nat_text(n).len() > 0,
        all_digits(nat_text(n)),
        digits_value(nat_text(n)) == n,
        nat_text(n)[0] != '-' && nat_text(n)[0] != '+',
    decreases n,
{
    lemma_digit_char((n % 10) as int);
    if n < 10 {
        assert(nat_text(n).drop_last() =~= Seq::<char>::empty());
        assert(digits_value(Seq::<char>::empty()) == 0);
    } else {
        lemma_nat_text(n / 10);
        let t = nat_text(n);
        assert(t.drop_last() == nat_text(n / 10));
        assert(n == (n / 10) * 10 + n % 10) by (nonlinear_arith);
        assert forall|i: int| 0 <= i < t.len() implies is_digit(#[trigger] t[i]) by {
            if i < t.len() - 1 {
                assert(t[i] == nat_text(n / 10)[i]);
            }
        }
    }
}

/// Decimal text read back gives the integer that was written.
pub proof fn lemma_int_text_round_trip(n: int)
    ensures
        decimal_value(int_text(n)) == Some(n),
{
    if n < 0 {
        let m = (-n) as nat;
        lemma_nat_text(m);
        assert(int_text(n).drop_first() == nat_text(m));
    } else {
        lemma_nat_text(n as nat);
    }
}

/// Appends the decimal digits of `m`.
pub fn write_nat(out: &mut String, m: u64)
    ensures
        final(out)@ == old(out)@ + nat_text(m as nat),
    decreases m,
{
    if m >= 10 {
        write_nat(out, m / 10);
    }
    let d: u8 = (m % 10) as u8;
    push_char(out, (48u8 + d) as char);
    proof {
        if m >= 10 {
            assert(nat_text(m as nat) == nat_text((m / 10) as nat).push(digit_char((m % 10) as int)));
        }
    }
    assert(final(out)@ =~= old(out)@ + nat_text(m as nat));
}

/// Appends the decimal text of `n`.
pub fn write_int(out: &mut String, n: i32)
    ensures
        final(out)@ == old(out)@ + int_text(n as int),
{
    if n < 0 {
        push_char(out, '-');
        let m: u64 = (-(n as i64)) as u64;
        write_nat(out, m);
    } else {
        write_nat(out, n as u64);
    }
}


/// What `decimal_value` gives when it lies in `lo..=hi`, and nothing else.
pub open spec fn decimal_in(s: Seq<char>, lo: int, hi: int) -> Option<int> {
    match decimal_value(s) {
        Some(n) => if lo <= n && n <= hi {
            Some(n)
        } else {
            None
        },
        None => None,
    }
}

proof fn lemma_digits_value_prefix(s: Seq<char>, k: int)
    requires
        all_digits(s),
        0 <= k <= s.len(),
    ensures
        0 <= digits_value(s.take(k)) <= digits_value(s),
    decreases s.len(),
{
    if s.len() > 0 {
        let p = s.drop_last();
        assert(all_digits(p)) by {
            assert forall|i: int| 0 <= i < p.len() implies is_digit(#[trigger] p[i]) by {
                assert(p[i] == s[i]);
            }
        }
        assert(is_digit(s[s.len() - 1]));
        if k < s.len() {
            lemma_digits_value_prefix(p, k);
            assert(s.take(k) == p.take(k));
        } else {
            lemma_digits_value_prefix(p, p.len() as int);
            assert(p.take(p.len() as int) == p);
            assert(s.take(k) == s);
        }
    } else {
        assert(s.take(k) =~= s);
    }
}

const DECIMAL_CAP: i128 = 0x4_0000_0000_0000_0000;

/// Reads a decimal integer (optional sign, then digits) that lies in
/// `lo..=hi`.
pub fn parse_decimal(s: &Vec<char>, lo: i128, hi: i128) -> (r: Option<i128>)
    requires
        -0x2_0000_0000_0000_0000 <= lo,
        hi <= 0x2_0000_0000_0000_0000,
    ensures
        r matches Some(n) ==> decimal_in(s@, lo as int, hi as int) == Some(n as int),
        r is None ==> decimal_in(s@, lo as int, hi as int) is None,
{
    let len = s.len();
    let mut neg = false;
    let mut start: usize = 0;
    if len > 0 && (s[0] == '-' || s[0] == '+') {
        neg = s[0] == '-';
        start = 1;
    }
    if start >= len {
        return None;
    }
    let ghost body = s@.subrange(start as int, len as int);
    assert(start == 1 ==> body =~= s@.drop_first());
    assert(start == 0 ==> body =~= s@);
    assert(decimal_value(s@) == if all_digits(body) {
        Some(
            if neg {
                -digits_value(body)
            } else {
                digits_value(body)
            },
        )
    } else {
        None::<int>
    });
    let mut i: usize = start;
    let mut acc: i128 = 0;
    while i < len
        invariant
            start <= i <= len,
            len == s@.len(),
            body == s@.subrange(start as int, len as int),
            all_digits(body.take(i - start)),
            acc == digits_value(body.take(i - start)),
            0 <= acc <= DECIMAL_CAP,
            -0x2_0000_0000_0000_0000 <= lo,
            hi <= 0x2_0000_0000_0000_0000,
            decimal_value(s@) == if all_digits(body) {
                Some(
                    if neg {
                        -digits_value(body)
                    } else {
                        digits_value(body)
                    },
                )
            } else {
                None::<int>
            },
        decreases len - i,
    {
        let c = s[i];
        if !('0' <= c && c <= '9') {
            assert(body[i - start] == c);
            assert(!all_digits(body));
            return None;
        }
        let d: i128 = (c as u32 - 48u32) as i128;
        proof {
            let t = body.take(i - start + 1);
            assert(t.drop_last() == body.take(i - start));
            assert(t.last() == c);
            assert(all_digits(t)) by {
                assert forall|j: int| 0 <= j < t.len() implies is_digit(#[trigger] t[j]) by {
                    if j < t.len() - 1 {
                        assert(t[j] == body.take(i - start)[j]);
                    }
                }
            }
        }
        acc = acc * 10 + d;
        if acc > DECIMAL_CAP {
            proof {
                if all_digits(body) {
                    lemma_digits_value_prefix(body, i - start + 1);
                    assert(digits_value(body) > DECIMAL_CAP);
                }
            }
            return None;
        }
        i = i + 1;
    }
    assert(body.take(i - start) == body);
    let v: i128 = if neg {
        -acc
    } else {
        acc
    };
    if lo <= v && v <= hi {
        Some(v)
    } else {
        None
    }
}


pub open spec fn count_digits(s: Seq<char>) -> nat
    decreases s.len(),
{
    if s.len() == 0 {
        0
    } else {
        count_digits(s.drop_last()) + if is_digit(s.last()) {
            1nat
        } else {
            0nat
        }
    }
}

pub open spec fn count_dots(s: Seq<char>) -> nat
    decreases s.len(),
{
    if s.len() == 0 {
        0
    } else {
        count_dots(s.drop_last()) + if s.last() == '.' {
            1nat
        } else {
            0nat
        }
    }
}

pub open spec fn is_sign(c: char) -> bool {
    c == '+' || c == '-'
}

/// `s` without a leading sign.
pub open spec fn unsigned_part(s: Seq<char>) -> Seq<char> {
    if s.len() > 0 && is_sign(s[0]) {
        s.drop_first()
    } else {
        s
    }
}

pub open spec fn is_exp_mark(c: char) -> bool {
    c == 'e' || c == 'E'
}

/// The index of the first exponent mark of `s`, or its length.
pub open spec fn exp_index(s: Seq<char>) -> int
    decreases s.len(),
{
    if s.len() == 0 {
        0
    } else if is_exp_mark(s[0]) {
        0
    } else {
        1 + exp_index(s.drop_first())
    }
}

/// Digits with at most one decimal point, and at least one digit.
pub open spec fn mantissa_text(m: Seq<char>) -> bool {
    count_digits(m) >= 1 && count_dots(m) <= 1 && count_digits(m) + count_dots(m) == m.len()
}

/// An optional sign followed by at least one digit.
pub open spec fn exponent_text(e: Seq<char>) -> bool {
    let d = unsigned_part(e);
    d.len() > 0 && count_digits(d) == d.len()
}

/// The decimal form of a finite double: an optional sign, a mantissa and an
/// optional exponent (`-12.5`, `.5`, `3.`, `1e-7`).
pub open spec fn double_text(s: Seq<char>) -> bool {
    let b = unsigned_part(s);
    let k = exp_index(b);
    if k < b.len() {
        mantissa_text(b.take(k)) && exponent_text(b.skip(k + 1))
    } else {
        mantissa_text(b)
    }
}

proof fn lemma_counts_bounded(s: Seq<char>)
    ensures
        count_digits(s) + count_dots(s) <= s.len(),
    decreases s.len(),
{
    if s.len() > 0 {
        lemma_counts_bounded(s.drop_last());
    }
}

/// Counts the digits and the decimal points of `s[from..to]`.
fn count_kinds(s: &Vec<char>, from: usize, to: usize) -> (r: (usize, usize))
    requires
        from <= to <= s@.len(),
    ensures
        r.0 == count_digits(s@.subrange(from as int, to as int)),
        r.1 == count_dots(s@.subrange(from as int, to as int)),
{
    let mut digits: usize = 0;
    let mut dots: usize = 0;
    let mut i: usize = from;
    while i < to
        invariant
            from <= i <= to <= s@.len(),
            digits == count_digits(s@.subrange(from as int, i as int)),
            dots == count_dots(s@.subrange(from as int, i as int)),
        decreases to - i,
    {
        let c = s[i];
        proof {
            let t = s@.subrange(from as int, i + 1);
            assert(t.drop_last() == s@.subrange(from as int, i as int));
            assert(t.last() == c);
            lemma_counts_bounded(s@.subrange(from as int, i as int));
        }
        if '0' <= c && c <= '9' {
            digits = digits + 1;
        } else if c == '.' {
            dots = dots + 1;
        }
        i = i + 1;
    }
    (digits, dots)
}

proof fn lemma_exp_index(s: Seq<char>, i: int)
    requires
        0 <= i <= s.len(),
        forall|j: int| 0 <= j < i ==> !is_exp_mark(#[trigger] s[j]),
    ensures
        i == s.len() ==> exp_index(s) == s.len(),
        i < s.len() && is_exp_mark(s[i]) ==> exp_index(s) == i,
    decreases i,
{
    if i > 0 {
        let t = s.drop_first();
        assert forall|j: int| 0 <= j < i - 1 implies !is_exp_mark(#[trigger] t[j]) by {
            assert(t[j] == s[j + 1]);
        }
        lemma_exp_index(t, i - 1);
    }
}

/// Whether `s` is the decimal form of a finite double.
pub fn is_double_text(s: &Vec<char>) -> (r: bool)
    ensures
        r == double_text(s@),
{
    let n = s.len();
    let a: usize = if n > 0 && (s[0] == '+' || s[0] == '-') {
        1
    } else {
        0
    };
    let ghost b = unsigned_part(s@);
    assert(b =~= s@.subrange(a as int, n as int));
    let mut k: usize = a;
    while k < n && !(s[k] == 'e' || s[k] == 'E')
        invariant
            a <= k <= n,
            n == s@.len(),
            b == s@.subrange(a as int, n as int),
            forall|j: int| 0 <= j < k - a ==> !is_exp_mark(#[trigger] b[j]),
        decreases n - k,
    {
        assert(b[k - a] == s@[k as int]);
        k = k + 1;
    }
    proof {
        if k < n {
            assert(b[k - a] == s@[k as int]);
        }
        lemma_exp_index(b, k - a);
        assert(b.take(k - a) =~= s@.subrange(a as int, k as int));
    }
    let (dg, dt) = count_kinds(s, a, k);
    proof {
        lemma_counts_bounded(s@.subrange(a as int, k as int));
    }
    if !(dg >= 1 && dt <= 1 && dg + dt == k - a) {
        return false;
    }
    if k == n {
        assert(b.take(k - a) =~= b);
        return true;
    }
    let e: usize = if k + 1 < n && (s[k + 1] == '+' || s[k + 1] == '-') {
        k + 2
    } else {
        k + 1
    };
    assert(unsigned_part(b.skip(k - a + 1)) =~= s@.subrange(e as int, n as int));
    let (dg2, _dt2) = count_kinds(s, e, n);
    e < n && dg2 == n - e
}

/// `c` is the lower-case ASCII letter `w`, in either case.
pub open spec fn letter_is(c: char, w: char) -> bool {
    c == w || ('A' <= c && c <= 'Z' && c as u32 + 32 == w as u32)
}

/// `b` spells the lower-case word `w`, letters in either case.
pub open spec fn word_is(b: Seq<char>, w: Seq<char>) -> bool {
    b.len() == w.len() && forall|i: int| 0 <= i < b.len() ==> letter_is(#[trigger] b[i], w[i])
}

/// The spellings of non-finite doubles that double parsing also takes: an
/// optional sign, then `inf`, `infinity` or `nan`, in any case.
pub open spec fn special_double_text(s: Seq<char>) -> bool {
    let b = unsigned_part(s);
    word_is(b, "inf"@) || word_is(b, "infinity"@) || word_is(b, "nan"@)
}

/// Whether `s[a..]` spells the lower-case word `w`.
fn word_at(s: &Vec<char>, a: usize, w: &str) -> (r: bool)
    requires
        a <= s@.len(),
    ensures
        r == word_is(s@.subrange(a as int, s@.len() as int), w@),
{
    let wc = chars_of(w);
    let n = s.len();
    let ghost b = s@.subrange(a as int, n as int);
    if n - a != wc.len() {
        return false;
    }
    let mut i: usize = 0;
    while i < wc.len()
        invariant
            i <= wc@.len(),
            wc@ == w@,
            n == s@.len(),
            n - a == wc@.len(),
            b == s@.subrange(a as int, n as int),
            forall|j: int| 0 <= j < i ==> letter_is(#[trigger] b[j], wc@[j]),
        decreases wc@.len() - i,
    {
        let c = s[a + i];
        let d = wc[i];
        assert(b[i as int] == c);
        if !(c == d || ('A' <= c && c <= 'Z' && c as u32 + 32 == d as u32)) {
            return false;
        }
        i = i + 1;
    }
    true
}

/// Whether `s` spells a non-finite double.
pub fn is_special_double_text(s: &Vec<char>) -> (r: bool)
    ensures
        r == special_double_text(s@),
{
    let n = s.len();
    let a: usize = if n > 0 && (s[0] == '+' || s[0] == '-') {
        1
    } else {
        0
    };
    assert(unsigned_part(s@) =~= s@.subrange(a as int, n as int));
    word_at(s, a, "inf") || word_at(s, a, "infinity") || word_at(s, a, "nan")
}

/// The text of a double as double parsing takes it: decimal form, or a
/// spelling of infinity or NaN.
pub open spec fn float_text(s: Seq<char>) -> bool {
    double_text(s) || special_double_text(s)
}

/// Whether `s` is the text of a double.
pub fn is_float_text(s: &Vec<char>) -> (r: bool)
    ensures
        r == float_text(s@),
{
    is_double_text(s) || is_special_double_text(s)
}

} // verus!
