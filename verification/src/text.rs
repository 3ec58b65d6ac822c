//! Text helpers: characters, decimal numbers, trimming and splitting.
use vstd::prelude::*;

verus! {

/// `String::push` appends one character to the end of the text.
pub assume_specification[ String::push ](s: &mut String, c: char)
    ensures
        final(s)@ == old(s)@.push(c),
;

/// Text equality by content.
pub fn same_text(a: &str, b: &str) -> (res: bool)
    ensures
        res == (a@ == b@),
{
    a.to_owned() == b.to_owned()
}

/// Character `i` as a number, zero past the end.
pub open spec fn char_at(s: Seq<char>, i: int) -> int {
    if 0 <= i < s.len() {
        s[i] as int
    } else {
        0
    }
}

/// A number made of the length and the first characters of a text, by which
/// literals are told apart.
pub open spec fn text_key(s: Seq<char>) -> int {
    s.len() + 0x80 * char_at(s, 0) + 0x4000 * char_at(s, 1) + 0x20_0000 * char_at(s, 2)
        + 0x1000_0000 * char_at(s, 3) + 0x8_0000_0000 * char_at(s, 4) + 0x400_0000_0000 * char_at(
        s,
        5,
    ) + 0x2_0000_0000_0000 * char_at(s, 6) + 0x100_0000_0000_0000 * char_at(s, 7)
}

/// The characters of a text, in order.
pub fn chars_of(s: &str) -> (res: Vec<char>)
    ensures
        res@ == s@,
{
    let mut out: Vec<char> = Vec::new();
    for c in it: s.chars()
        invariant
            it.seq() == s@,
            out@ == s@.take(it.index() as int),
    {
        out.push(c);
    }
    out
}

/// The text made of the characters `v[from..to]`.
pub fn text_between(v: &Vec<char>, from: usize, to: usize) -> (res: String)
    requires
        from <= to <= v@.len(),
    ensures
        res@ == v@.subrange(from as int, to as int),
{
    let mut out: String = String::new();
    let mut i: usize = from;
    while i < to
        invariant
            from <= i <= to <= v@.len(),
            out@ == v@.subrange(from as int, i as int),
        decreases to - i,
    {
        out.push(v[i]);
        i += 1;
        assert(v@.subrange(from as int, i as int) == v@.subrange(from as int, i - 1).push(v@[i - 1]));
    }
    out
}

/// `a` followed by `b`.
pub fn joined(a: &str, b: &str) -> (res: String)
    ensures
        res@ == a@ + b@,
{
    a.to_owned().concat(b)
}

/// The text that `{:?}` prints of a text.
pub uninterp spec fn debug_text(s: Seq<char>) -> Seq<char>;

/// `format!` with `{:?}`: the text in double quotes, with what needs escaping
/// escaped. The result is named, not spelled out.
#[verifier::external_body]
pub(crate) fn quoted(s: &str) -> (res: String)
    ensures
        res@ == debug_text(s@),
{
    format!("{s:?}")
}

/// `a`, then `s` in quotes, then `b`.
pub fn around(a: &str, s: &str, b: &str) -> (res: String)
    ensures
        res@ == a@ + debug_text(s@) + b@,
{
    let mut out: String = joined(a, quoted(s).as_str());
    out.append(b);
    out
}

/// `a`, then `s` in quotes.
pub fn ahead_of(a: &str, s: &str) -> (res: String)
    ensures
        res@ == a@ + debug_text(s@),
{
    joined(a, quoted(s).as_str())
}

/// `a`, then `s`, then `b`.
pub fn between(a: &str, s: &str, b: &str) -> (res: String)
    ensures
        res@ == a@ + s@ + b@,
{
    let mut out: String = joined(a, s);
    out.append(b);
    out
}

// ---------------------------------------------------------------------------
// Decimal numbers
// ---------------------------------------------------------------------------

pub open spec fn is_digit(c: char) -> bool {
    '0' <= c <= '9'
}

pub open spec fn all_digits(s: Seq<char>) -> bool {
    forall|i: int| 0 <= i < s.len() ==> is_digit(#[trigger] s[i])
}

/// The number that a run of decimal digits denotes.
pub open spec fn digits_value(s: Seq<char>) -> nat
    decreases s.len(),
{
    if s.len() == 0 {
        0
    } else {
        10 * digits_value(s.drop_last()) + (s.last() as nat - '0' as nat) as nat
    }
}

/// The number an unsigned integer text denotes: one or more decimal digits,
/// with an optional leading plus sign.
pub open spec fn unsigned_text(s: Seq<char>) -> Option<nat> {
    let body = if s.len() > 0 && s[0] == '+' {
        s.skip(1)
    } else {
        s
    };
    if body.len() > 0 && all_digits(body) {
        Some(digits_value(body))
    } else {
        None
    }
}

/// The decimal writing of a number, without leading zeros.
pub open spec fn decimal_text(n: nat) -> Seq<char>
    decreases n,
{
    if n < 10 {
        seq![digit_char(n)]
    } else {
        decimal_text(n / 10).push(digit_char(n % 10))
    }
}

pub open spec fn digit_char(d: nat) -> char {
    (d + '0' as nat) as char
}

/// What reading back an integer's decimal writing gives.
pub proof fn decimal_reads_back(n: nat)
    ensures
        unsigned_text(decimal_text(n)) == Some(n),
{
    lemma_decimal_digits(n);
    assert(!is_digit('+'));
}

proof fn lemma_decimal_digits(n: nat)
    ensures
        decimal_text(n).len() > 0,
        all_digits(decimal_text(n)),
        digits_value(decimal_text(n)) == n,
    decreases n,
{
    if n >= 10 {
        lemma_decimal_digits(n / 10);
        assert(decimal_text(n).drop_last() == decimal_text(n / 10));
    } else {
        reveal_with_fuel(digits_value, 2);
        assert(decimal_text(n).drop_last().len() == 0);
    }
}

proof fn lemma_digits_prefix(s: Seq<char>, i: int)
    requires
        all_digits(s),
        0 <= i <= s.len(),
    ensures
        digits_value(s.take(i)) <= digits_value(s),
    decreases s.len() - i,
{
    if i < s.len() {
        lemma_digits_prefix(s, i + 1);
        assert(s.take(i + 1).drop_last() == s.take(i));
    } else {
        assert(s.take(i) == s);
    }
}

fn digit_value(c: char) -> (res: Option<u64>)
    ensures
        is_digit(c) ==> res == Some((c as u64 - '0' as u64) as u64) && res->0 < 10,
        !is_digit(c) ==> res is None,
{
    if '0' <= c && c <= '9' {
        Some(c as u64 - '0' as u64)
    } else {
        None
    }
}

/// Reads a run of decimal digits that fits in 64 bits.
fn parse_digits(v: &Vec<char>, from: usize) -> (res: Option<u64>)
    requires
        from <= v@.len(),
    ensures
        match res {
            Some(n) => v@.len() > from && all_digits(v@.skip(from as int)) && n == digits_value(
                v@.skip(from as int),
            ),
            None => v@.len() == from || !all_digits(v@.skip(from as int)) || digits_value(
                v@.skip(from as int),
            ) > u64::MAX,
        },
{
    if from == v.len() {
        return None;
    }
    let ghost s = v@.skip(from as int);
    let mut n: u64 = 0;
    let mut over: bool = false;
    let mut i: usize = from;
    while i < v.len()
        invariant
            from <= i <= v@.len(),
            s == v@.skip(from as int),
            all_digits(s.take(i - from)),
            over ==> digits_value(s.take(i - from)) > u64::MAX,
            !over ==> n == digits_value(s.take(i - from)),
        decreases v@.len() - i,
    {
        assert(s.take(i - from + 1).drop_last() == s.take(i - from));
        assert(s.take(i - from + 1).last() == v@[i as int]);
        match digit_value(v[i]) {
            None => {
                assert(!is_digit(s[i - from]));
                return None;
            },
            Some(d) => {
                if n > (u64::MAX - d) / 10 {
                    over = true;
                }
                if !over {
                    n = n * 10 + d;
                }
            },
        }
        i += 1;
    }
    assert(s.take(i - from) == s);
    if over {
        None
    } else {
        Some(n)
    }
}

/// Reads an unsigned integer as text; nothing if the text is not one, or if
/// the number does not fit in 64 bits.
pub fn parse_u64(s: &str) -> (res: Option<u64>)
    ensures
        match unsigned_text(s@) {
            Some(n) if n <= u64::MAX => res == Some(n as u64),
            _ => res is None,
        },
{
    let v = chars_of(s);
    if v.len() > 0 && v[0] == '+' {
        parse_digits(&v, 1)
    } else {
        assert(v@.skip(0) == v@);
        parse_digits(&v, 0)
    }
}

/// The decimal writing of `n`.
pub fn decimal(n: u64) -> (res: String)
    ensures
        res@ == decimal_text(n as nat),
    decreases n,
{
    let mut out: String = if n < 10 {
        String::new()
    } else {
        decimal(n / 10)
    };
    out.push(digit(n % 10));
    out
}

/// A whole number in decimal, with a minus sign if it is negative.
pub open spec fn signed_text(n: int) -> Seq<char> {
    if n < 0 {
        "-"@ + decimal_text((-n) as nat)
    } else {
        decimal_text(n as nat)
    }
}

/// The decimal writing of a number that may be negative.
pub fn signed_decimal(n: i32) -> (res: String)
    ensures
        res@ == signed_text(n as int),
{
    if n < 0 {
        joined("-", decimal((-(n as i64)) as u64).as_str())
    } else {
        decimal(n as u64)
    }
}

/// Quoted texts with commas and blanks between them.
pub open spec fn quoted_list(v: Seq<Seq<char>>) -> Seq<char>
    decreases v.len(),
{
    if v.len() == 0 {
        seq![]
    } else if v.len() == 1 {
        debug_text(v[0])
    } else {
        quoted_list(v.drop_last()) + ", "@ + debug_text(v.last())
    }
}

/// A list of texts, quoted, in brackets.
pub fn bracketed(v: &Vec<String>) -> (res: String)
    ensures
        res@ == "["@ + quoted_list(views(v@)) + "]"@,
{
    let mut out = String::new();
    let mut i: usize = 0;
    let ghost all = views(v@);
    while i < v.len()
        invariant
            i <= v@.len(),
            all == views(v@),
            out@ == quoted_list(all.take(i as int)),
        decreases v@.len() - i,
    {
        assert(all.take(i + 1).drop_last() == all.take(i as int));
        assert(all.take(i + 1).last() == v@[i as int]@);
        if i > 0 {
            out.append(", ");
        } else {
            assert(all.take(1)[0] == v@[0]@);
        }
        out.append(quoted(v[i].as_str()).as_str());
        i += 1;
    }
    assert(all.take(i as int) == all);
    between("[", out.as_str(), "]")
}

fn digit(d: u64) -> (res: char)
    requires
        d < 10,
    ensures
        res == digit_char(d as nat),
{
    (d as u8 + 48u8) as char
}

// ---------------------------------------------------------------------------
// The writing of floating-point numbers
// ---------------------------------------------------------------------------

pub open spec fn is_sign(c: char) -> bool {
    c == '+' || c == '-'
}

/// `s` without a leading sign.
pub open spec fn unsigned_part(s: Seq<char>) -> Seq<char> {
    if s.len() > 0 && is_sign(s[0]) {
        s.skip(1)
    } else {
        s
    }
}

/// Digits, with at most one point among or around them and at least one digit.
pub open spec fn is_mantissa(s: Seq<char>) -> bool {
    ||| s.len() > 0 && all_digits(s)
    ||| exists|d: int|
        {
            &&& 0 <= d < s.len()
            &&& #[trigger] s[d] == '.'
            &&& s.len() > 1
            &&& all_digits(s.take(d))
            &&& all_digits(s.skip(d + 1))
        }
}

/// Nothing, or an exponent.
pub open spec fn is_exponent(s: Seq<char>) -> bool {
    ||| s.len() == 0
    ||| (s[0] == 'e' || s[0] == 'E') && unsigned_part(s.skip(1)).len() > 0 && all_digits(
        unsigned_part(s.skip(1)),
    )
}

/// `s` is the word `lower`, in any case.
pub open spec fn is_word(s: Seq<char>, lower: Seq<char>) -> bool {
    &&& s.len() == lower.len()
    &&& forall|i: int|
        0 <= i < s.len() ==> #[trigger] s[i] == lower[i] || s[i] as int == lower[i] as int - 32
}

/// The writing of a floating-point number: an optional sign, then `inf`,
/// `infinity` or `nan` in any case, or a mantissa with an optional exponent.
pub open spec fn is_float_text(s: Seq<char>) -> bool {
    let b = unsigned_part(s);
    ||| is_word(b, seq!['i', 'n', 'f'])
    ||| is_word(b, seq!['i', 'n', 'f', 'i', 'n', 'i', 't', 'y'])
    ||| is_word(b, seq!['n', 'a', 'n'])
    ||| exists|m: int| 0 <= m <= b.len() && #[trigger] is_mantissa(b.take(m)) && is_exponent(b.skip(m))
}

fn is_digit_char(c: char) -> (res: bool)
    ensures
        res == is_digit(c),
{
    '0' <= c && c <= '9'
}

/// The end of the run of digits that starts at `from`.
fn digits_end(v: &Vec<char>, from: usize) -> (res: usize)
    requires
        from <= v@.len(),
    ensures
        from <= res <= v@.len(),
        all_digits(v@.subrange(from as int, res as int)),
        res < v@.len() ==> !is_digit(v@[res as int]),
{
    let mut i: usize = from;
    while i < v.len() && is_digit_char(v[i])
        invariant
            from <= i <= v@.len(),
            forall|j: int| from <= j < i ==> is_digit(#[trigger] v@[j]),
        decreases v@.len() - i,
    {
        i += 1;
    }
    i
}

/// Whether `c` is the letter `lower` in either case.
fn letter_matches(c: char, lower: char) -> (res: bool)
    requires
        'a' <= lower <= 'z',
    ensures
        res == (c == lower || c as int == lower as int - 32),
{
    c == lower || c as u32 == lower as u32 - 32
}

fn word_at(v: &Vec<char>, from: usize, lower: &[char]) -> (res: bool)
    requires
        from <= v@.len(),
        forall|i: int| 0 <= i < lower@.len() ==> 'a' <= #[trigger] lower@[i] <= 'z',
    ensures
        res == is_word(v@.skip(from as int), lower@),
{
    if v.len() - from != lower.len() {
        return false;
    }
    let mut i: usize = 0;
    let ghost s = v@.skip(from as int);
    while i < lower.len()
        invariant
            from + lower@.len() == v.len(),
            s == v@.skip(from as int),
            i <= lower@.len(),
            forall|i: int| 0 <= i < lower@.len() ==> 'a' <= #[trigger] lower@[i] <= 'z',
            forall|j: int|
                0 <= j < i ==> #[trigger] s[j] == lower@[j] || s[j] as int == lower@[j] as int - 32,
        decreases lower@.len() - i,
    {
        let c: char = v[from + i];
        assert(s[i as int] == c);
        assert('a' <= lower@[i as int] <= 'z');
        if !letter_matches(c, lower[i]) {
            return false;
        }
        i += 1;
    }
    true
}

/// The end of a mantissa's characters at `from`, and whether they form one.
fn mantissa_end(v: &Vec<char>, from: usize) -> (res: (usize, bool))
    requires
        from <= v@.len(),
    ensures
        from <= res.0 <= v@.len(),
        res.1 ==> is_mantissa(v@.subrange(from as int, res.0 as int)),
        forall|m: int|
            from <= m <= v@.len() && #[trigger] is_mantissa(v@.subrange(from as int, m)) ==> res.1
                && (m == res.0 || m < v@.len() && (is_digit(v@[m]) || v@[m] == '.')),
{
    let a = digits_end(v, from);
    let ghost s = v@.skip(from as int);
    let mut end: usize = a;
    let mut ok: bool = a > from;
    let dot: bool = a < v.len() && v[a] == '.';
    if dot {
        end = digits_end(v, a + 1);
        ok = a > from || end > a + 1;
    }
    proof {
        let t = v@.subrange(from as int, end as int);
        if ok {
            if dot {
                assert(t[a - from] == '.');
                assert(t.take(a - from) == v@.subrange(from as int, a as int));
                assert(t.skip(a - from + 1) == v@.subrange(a + 1, end as int));
            }
            assert(is_mantissa(t));
        }
        assert forall|m: int|
            from <= m <= v@.len() && #[trigger] is_mantissa(v@.subrange(from as int, m)) implies ok
            && (m == end || m < v@.len() && (is_digit(v@[m]) || v@[m] == '.')) by {
            let u = v@.subrange(from as int, m);
            assert forall|j: int| from <= j < a implies is_digit(#[trigger] v@[j]) by {
                assert(v@[j] == v@.subrange(from as int, a as int)[j - from]);
            }
            if all_digits(u) {
                if m > a {
                    assert(u[a - from] == v@[a as int]);
                    assert(is_digit(u[a - from]));
                }
                assert(m <= a);
                assert(a > from);
                if m < a {
                    assert(is_digit(v@[m]));
                }
            } else {
                let d = choose|d: int|
                    {
                        &&& 0 <= d < u.len()
                        &&& #[trigger] u[d] == '.'
                        &&& u.len() > 1
                        &&& all_digits(u.take(d))
                        &&& all_digits(u.skip(d + 1))
                    };
                assert(u[d] == v@[from + d]);
                if from + d < a {
                    assert(is_digit(v@[from + d]));
                }
                if from + d > a {
                    assert(u.take(d)[a - from] == v@[a as int]);
                    assert(is_digit(u.take(d)[a - from]));
                }
                assert(from + d == a);
                assert(dot);
                assert forall|j: int| a < j < end implies is_digit(#[trigger] v@[j]) by {
                    assert(v@[j] == v@.subrange(a + 1, end as int)[j - a - 1]);
                }
                if m > end {
                    assert(u.skip(d + 1)[end - a - 1] == v@[end as int]);
                    assert(is_digit(u.skip(d + 1)[end - a - 1]));
                }
                assert(m <= end);
                if m < end {
                    assert(is_digit(v@[m]));
                }
            }
        }
    }
    (end, ok)
}

fn exponent_at(v: &Vec<char>, from: usize) -> (res: bool)
    requires
        from <= v@.len(),
    ensures
        res == is_exponent(v@.skip(from as int)),
{
    let ghost s = v@.skip(from as int);
    if from == v.len() {
        return true;
    }
    if v[from] != 'e' && v[from] != 'E' {
        return false;
    }
    let mut i: usize = from + 1;
    assert(s.skip(1) == v@.skip(from + 1));
    if i < v.len() && (v[i] == '+' || v[i] == '-') {
        i += 1;
        assert(s.skip(1).skip(1) == v@.skip(from + 2));
    }
    assert(unsigned_part(s.skip(1)) == v@.skip(i as int));
    let end = digits_end(v, i);
    proof {
        let z = v@.skip(i as int);
        if end == v@.len() {
            assert(v@.subrange(i as int, end as int) == z);
        } else {
            assert(z[end - i] == v@[end as int]);
        }
    }
    end > i && end == v.len()
}

/// Whether a text is the writing of a floating-point number.
pub fn is_float(s: &str) -> (res: bool)
    ensures
        res == is_float_text(s@),
{
    let v = chars_of(s);
    let start: usize = if v.len() > 0 && (v[0] == '+' || v[0] == '-') {
        1
    } else {
        0
    };
    assert(unsigned_part(s@) == v@.skip(start as int));
    let ghost b = v@.skip(start as int);
    let inf: [char; 3] = ['i', 'n', 'f'];
    let infinity: [char; 8] = ['i', 'n', 'f', 'i', 'n', 'i', 't', 'y'];
    let nan: [char; 3] = ['n', 'a', 'n'];
    assert(inf@ == seq!['i', 'n', 'f']);
    assert(infinity@ == seq!['i', 'n', 'f', 'i', 'n', 'i', 't', 'y']);
    assert(nan@ == seq!['n', 'a', 'n']);
    if word_at(&v, start, inf.as_slice()) || word_at(&v, start, infinity.as_slice()) || word_at(
        &v,
        start,
        nan.as_slice(),
    ) {
        return true;
    }
    let (end, ok) = mantissa_end(&v, start);
    let res: bool = ok && exponent_at(&v, end);
    proof {
        assert forall|m: int| 0 <= m <= b.len() implies #[trigger] b.take(m) == v@.subrange(
            start as int,
            start + m,
        ) by {}
        assert forall|m: int| 0 <= m <= b.len() implies #[trigger] b.skip(m) == v@.skip(start + m) by {}
        if res {
            let m = end - start;
            assert(is_mantissa(b.take(m)) && is_exponent(b.skip(m)));
        } else {
            assert forall|m: int| 0 <= m <= b.len() && #[trigger] is_mantissa(b.take(m)) implies !is_exponent(
                b.skip(m),
            ) by {
                assert(is_mantissa(v@.subrange(start as int, start + m)));
                if start + m != end {
                    assert(b.skip(m)[0] == v@[start + m]);
                }
            }
        }
    }
    res
}

// ---------------------------------------------------------------------------
// White space
// ---------------------------------------------------------------------------

/// The characters with the Unicode `White_Space` property.
pub open spec fn white_space(c: char) -> bool {
    let n = c as int;
    ||| 0x09 <= n <= 0x0d
    ||| n == 0x20
    ||| n == 0x85
    ||| n == 0xa0
    ||| n == 0x1680
    ||| 0x2000 <= n <= 0x200a
    ||| n == 0x2028
    ||| n == 0x2029
    ||| n == 0x202f
    ||| n == 0x205f
    ||| n == 0x3000
}

pub fn is_white_space(c: char) -> (res: bool)
    ensures
        res == white_space(c),
{
    let n: u32 = c as u32;
    (0x09 <= n && n <= 0x0d) || n == 0x20 || n == 0x85 || n == 0xa0 || n == 0x1680 || (0x2000 <= n
        && n <= 0x200a) || n == 0x2028 || n == 0x2029 || n == 0x202f || n == 0x205f || n == 0x3000
}

/// `s` without its leading white space.
pub open spec fn trimmed_front(s: Seq<char>) -> Seq<char>
    decreases s.len(),
{
    if s.len() > 0 && white_space(s.first()) {
        trimmed_front(s.skip(1))
    } else {
        s
    }
}

/// `s` without its trailing white space.
pub open spec fn trimmed_back(s: Seq<char>) -> Seq<char>
    decreases s.len(),
{
    if s.len() > 0 && white_space(s.last()) {
        trimmed_back(s.drop_last())
    } else {
        s
    }
}

/// `s` without the white space around it.
pub open spec fn trimmed(s: Seq<char>) -> Seq<char> {
    trimmed_back(trimmed_front(s))
}

/// The text without the white space around it.
pub fn trim(s: &str) -> (res: String)
    ensures
        res@ == trimmed(s@),
{
    let v = chars_of(s);
    let mut a: usize = 0;
    assert(s@.skip(0) == s@);
    while a < v.len() && is_white_space(v[a])
        invariant
            a <= v@.len(),
            v@ == s@,
            trimmed_front(s@) == trimmed_front(s@.skip(a as int)),
        decreases v@.len() - a,
    {
        assert(s@.skip(a as int).skip(1) == s@.skip(a + 1));
        a += 1;
    }
    let ghost t = s@.skip(a as int);
    assert(trimmed_front(s@) == t);
    let mut b: usize = v.len();
    assert(s@.subrange(a as int, b as int) == t);
    while b > a && is_white_space(v[b - 1])
        invariant
            a <= b <= v@.len(),
            v@ == s@,
            trimmed_back(t) == trimmed_back(s@.subrange(a as int, b as int)),
        decreases b,
    {
        assert(s@.subrange(a as int, b as int).drop_last() == s@.subrange(a as int, b - 1));
        b -= 1;
    }
    text_between(&v, a, b)
}

/// Only white space.
pub open spec fn blank(s: Seq<char>) -> bool {
    forall|i: int| 0 <= i < s.len() ==> white_space(#[trigger] s[i])
}

proof fn lemma_trimmed_front(a: Seq<char>, s: Seq<char>)
    requires
        blank(a),
        s.len() == 0 || !white_space(s.first()),
    ensures
        trimmed_front(a + s) == s,
    decreases a.len(),
{
    if a.len() > 0 {
        assert(white_space(a[0]));
        let rest = a.skip(1);
        assert forall|i: int| 0 <= i < rest.len() implies white_space(#[trigger] rest[i]) by {
            assert(rest[i] == a[i + 1]);
        }
        assert((a + s).skip(1) == rest + s);
        lemma_trimmed_front(rest, s);
    } else {
        assert(a + s == s);
    }
}

proof fn lemma_trimmed_back(s: Seq<char>, b: Seq<char>)
    requires
        blank(b),
        s.len() == 0 || !white_space(s.last()),
    ensures
        trimmed_back(s + b) == s,
    decreases b.len(),
{
    if b.len() > 0 {
        assert(white_space(b[b.len() - 1]));
        let rest = b.drop_last();
        assert forall|i: int| 0 <= i < rest.len() implies white_space(#[trigger] rest[i]) by {
            assert(rest[i] == b[i]);
        }
        assert((s + b).drop_last() == s + rest);
        assert((s + b).last() == b.last());
        lemma_trimmed_back(s, rest);
    } else {
        assert(s + b == s);
    }
}

/// Trimming takes the white space in front of a text and behind it, and nothing that
/// stands between.
pub proof fn trimming_takes_what_is_around(a: Seq<char>, s: Seq<char>, b: Seq<char>)
    requires
        blank(a),
        blank(b),
        s.len() > 0,
        !white_space(s.first()),
        !white_space(s.last()),
    ensures
        trimmed(a + s + b) == s,
        trimmed(a).len() == 0,
{
    assert(a + s + b == a + (s + b));
    lemma_trimmed_front(a, s + b);
    lemma_trimmed_back(s, b);
    lemma_trimmed_front(a, seq![]);
    assert(a + seq![] == a);
}

// ---------------------------------------------------------------------------
// Splitting
// ---------------------------------------------------------------------------

/// The position of the first `c` in `s`, or the length of `s` without one.
pub open spec fn first_index(s: Seq<char>, c: char) -> int
    decreases s.len(),
{
    if s.len() == 0 || s.first() == c {
        0
    } else {
        1 + first_index(s.skip(1), c)
    }
}

/// The pieces of `s` between the occurrences of `c`.
pub open spec fn pieces(s: Seq<char>, c: char) -> Seq<Seq<char>>
    decreases s.len(),
{
    let i = first_index(s, c);
    if 0 <= i < s.len() {
        seq![s.take(i)] + pieces(s.skip(i + 1), c)
    } else {
        seq![s]
    }
}

pub proof fn lemma_first_index(s: Seq<char>, c: char)
    ensures
        0 <= first_index(s, c) <= s.len(),
        forall|j: int| 0 <= j < first_index(s, c) ==> s[j] != c,
        first_index(s, c) < s.len() ==> s[first_index(s, c)] == c,
    decreases s.len(),
{
    if s.len() > 0 && s.first() != c {
        lemma_first_index(s.skip(1), c);
        assert forall|j: int| 0 <= j < first_index(s, c) implies s[j] != c by {
            if j > 0 {
                assert(s[j] == s.skip(1)[j - 1]);
            }
        }
    }
}

pub proof fn lemma_first_index_is(s: Seq<char>, c: char, i: int)
    requires
        0 <= i <= s.len(),
        forall|j: int| 0 <= j < i ==> s[j] != c,
        i < s.len() ==> s[i] == c,
    ensures
        first_index(s, c) == i,
{
    lemma_first_index(s, c);
    let k = first_index(s, c);
    if k < i {
        assert(s[k] != c);
    }
    if i < k {
        assert(s[i] != c);
    }
}

/// Where the first `c` at or after `from` is, or the end of `v`.
pub fn find_from(v: &Vec<char>, from: usize, c: char) -> (res: usize)
    requires
        from <= v@.len(),
    ensures
        res == from + first_index(v@.skip(from as int), c),
        from <= res <= v@.len(),
{
    let mut i: usize = from;
    while i < v.len() && v[i] != c
        invariant
            from <= i <= v@.len(),
            forall|j: int| from <= j < i ==> v@[j] != c,
        decreases v@.len() - i,
    {
        i += 1;
    }
    proof {
        lemma_first_index_is(v@.skip(from as int), c, i - from);
    }
    i
}

/// The contents of each text of a sequence.
pub open spec fn views(v: Seq<String>) -> Seq<Seq<char>> {
    v.map_values(|s: String| s@)
}

/// The pieces of a text between the occurrences of a character.
pub fn split(s: &str, c: char) -> (res: Vec<String>)
    ensures
        views(res@) == pieces(s@, c),
{
    let v = chars_of(s);
    let mut out: Vec<String> = Vec::new();
    let mut from: usize = 0;
    assert(v@.skip(0) == v@);
    assert(views(out@) + pieces(v@, c) == pieces(v@, c));
    loop
        invariant_except_break
            from <= v@.len(),
            v@ == s@,
            views(out@) + pieces(v@.skip(from as int), c) == pieces(s@, c),
        ensures
            views(out@) == pieces(s@, c),
        decreases v@.len() - from,
    {
        let i = find_from(&v, from, c);
        let ghost before = views(out@);
        let piece = text_between(&v, from, i);
        let ghost t = v@.skip(from as int);
        assert(v@.subrange(from as int, i as int) == t.take(i - from));
        out.push(piece);
        assert(views(out@) == before.push(piece@));
        if i == v.len() {
            assert(t.take(i - from) == t);
            assert(views(out@) == before + seq![t]);
            break;
        }
        assert(t.skip(i - from + 1) == v@.skip(i + 1));
        assert(before + (seq![t.take(i - from)] + pieces(v@.skip(i + 1), c)) == before.push(
            piece@,
        ) + pieces(v@.skip(i + 1), c));
        from = i + 1;
    }
    out
}

// ---------------------------------------------------------------------------
// Joining
// ---------------------------------------------------------------------------

/// The fields with `c` between them.
pub open spec fn joined_by(fields: Seq<Seq<char>>, c: char) -> Seq<char>
    decreases fields.len(),
{
    if fields.len() == 0 {
        seq![]
    } else if fields.len() == 1 {
        fields[0]
    } else {
        fields[0] + seq![c] + joined_by(fields.skip(1), c)
    }
}

/// Splitting joined fields gives the fields back, as long as none of them holds
/// the separator.
pub proof fn split_undoes_join(fields: Seq<Seq<char>>, c: char)
    requires
        fields.len() > 0,
        forall|i: int| 0 <= i < fields.len() ==> !(#[trigger] fields[i]).contains(c),
    ensures
        pieces(joined_by(fields, c), c) == fields,
    decreases fields.len(),
{
    let s = joined_by(fields, c);
    assert(!fields[0].contains(c));
    assert forall|j: int| 0 <= j < fields[0].len() implies s[j] != c by {
        assert(fields[0].contains(fields[0][j]));
        assert(s[j] == fields[0][j]);
    }
    let n = fields[0].len() as int;
    if fields.len() == 1 {
        lemma_first_index_is(s, c, n);
        assert(fields == seq![s]);
    } else {
        assert(s[n] == c);
        lemma_first_index_is(s, c, n);
        assert(s.take(n) == fields[0]);
        let rest = fields.skip(1);
        assert(s.skip(n + 1) == joined_by(rest, c));
        assert forall|i: int| 0 <= i < rest.len() implies !(#[trigger] rest[i]).contains(c) by {
            assert(rest[i] == fields[i + 1]);
        }
        split_undoes_join(rest, c);
        assert(seq![fields[0]] + rest == fields);
    }
}

/// The fields with `c` between them.
pub fn join(fields: &Vec<String>, c: char) -> (res: String)
    ensures
        res@ == joined_by(views(fields@), c),
{
    let ghost all = views(fields@);
    let mut out: String = String::new();
    let mut i: usize = 0;
    assert(all.skip(0) == all);
    assert(out@ + joined_by(all, c) == joined_by(all, c));
    while i < fields.len()
        invariant
            i <= fields@.len(),
            all == views(fields@),
            joined_by(all, c) == out@ + joined_by(all.skip(i as int), c),
        decreases fields@.len() - i,
    {
        let ghost before = out@;
        out.append(fields[i].as_str());
        assert(all.skip(i as int)[0] == fields@[i as int]@);
        assert(all.skip(i as int).skip(1) == all.skip(i + 1));
        if i + 1 < fields.len() {
            out.push(c);
        }
        i += 1;
        assert(joined_by(all, c) == out@ + joined_by(all.skip(i as int), c));
    }
    out
}

/// The pieces of a text hold no separator, and joining them gives the text back.
pub proof fn join_undoes_split(s: Seq<char>, c: char)
    ensures
        joined_by(pieces(s, c), c) == s,
        pieces(s, c).len() > 0,
        forall|i: int| 0 <= i < pieces(s, c).len() ==> !(#[trigger] pieces(s, c)[i]).contains(c),
    decreases s.len(),
{
    let i = first_index(s, c);
    lemma_first_index(s, c);
    if i < s.len() {
        let rest = s.skip(i + 1);
        join_undoes_split(rest, c);
        assert(pieces(s, c).skip(1) == pieces(rest, c));
        assert(s == s.take(i) + seq![c] + rest);
        assert forall|k: int| 0 <= k < pieces(s, c).len() implies !(
        #[trigger] pieces(s, c)[k]).contains(c) by {
            if k > 0 {
                assert(pieces(s, c)[k] == pieces(rest, c)[k - 1]);
            } else {
                assert(pieces(s, c)[0] == s.take(i));
            }
        }
    }
}

/// The lines one after the other, each with a line end.
pub open spec fn lines_text(lines: Seq<Seq<char>>) -> Seq<char>
    decreases lines.len(),
{
    if lines.len() == 0 {
        seq![]
    } else {
        lines_text(lines.drop_last()) + lines.last() + seq!['\n']
    }
}

pub proof fn lemma_lines_append(a: Seq<Seq<char>>, b: Seq<Seq<char>>)
    ensures
        lines_text(a + b) == lines_text(a) + lines_text(b),
    decreases b.len(),
{
    if b.len() == 0 {
        assert(a + b == a);
        assert(lines_text(a) + lines_text(b) == lines_text(a));
    } else {
        lemma_lines_append(a, b.drop_last());
        assert((a + b).drop_last() == a + b.drop_last());
        assert((a + b).last() == b.last());
        assert(lines_text(a + b) == lines_text(a) + lines_text(b));
    }
}

/// The first piece of a text is what stands in front of the first separator.
pub proof fn lemma_first_piece(a: Seq<char>, rest: Seq<char>, c: char)
    requires
        !a.contains(c),
    ensures
        pieces(a + seq![c] + rest, c) == seq![a] + pieces(rest, c),
{
    let s = a + seq![c] + rest;
    assert forall|j: int| 0 <= j < a.len() implies s[j] != c by {
        assert(a.contains(a[j]));
    }
    assert(s[a.len() as int] == c);
    lemma_first_index_is(s, c, a.len() as int);
    assert(s.take(a.len() as int) == a);
    assert(s.skip((a.len() + 1) as int) == rest);
}

/// A text without the separator is one piece.
pub proof fn lemma_no_separator(a: Seq<char>, c: char)
    requires
        !a.contains(c),
    ensures
        pieces(a, c) == seq![a],
{
    assert forall|j: int| 0 <= j < a.len() implies a[j] != c by {
        assert(a.contains(a[j]));
    }
    lemma_first_index_is(a, c, a.len() as int);
}

/// Every character of a number's decimal writing is a digit.
pub proof fn lemma_decimal_digit(n: nat, i: int)
    requires
        0 <= i < decimal_text(n).len(),
    ensures
        is_digit(decimal_text(n)[i]),
{
    lemma_decimal_digits(n);
}

/// Splitting lines at their ends gives the lines back, and nothing after the last
/// end, as long as no line holds a line end.
pub proof fn lines_read_back(lines: Seq<Seq<char>>)
    requires
        forall|i: int| 0 <= i < lines.len() ==> !(#[trigger] lines[i]).contains('\n'),
    ensures
        pieces(lines_text(lines), '\n') == lines.push(seq![]),
    decreases lines.len(),
{
    if lines.len() == 0 {
        assert(lines.push(seq![]) == seq![Seq::<char>::empty()]);
    } else {
        let rest = lines.skip(1);
        assert forall|i: int| 0 <= i < rest.len() implies !(#[trigger] rest[i]).contains('\n') by {
            assert(rest[i] == lines[i + 1]);
        }
        lines_read_back(rest);
        assert(lines == seq![lines[0]] + rest);
        lemma_lines_append(seq![lines[0]], rest);
        assert(seq![lines[0]].drop_last().len() == 0);
        reveal_with_fuel(lines_text, 2);
        assert(lines_text(seq![lines[0]]) == lines[0] + seq!['\n']);
        assert(!lines[0].contains('\n'));
        lemma_first_piece(lines[0], lines_text(rest), '\n');
        assert(seq![lines[0]] + rest.push(seq![]) == lines.push(seq![]));
    }
}

/// The decimal writing of a number holds digits only.
pub proof fn lemma_decimal_is_plain(n: nat, c: char)
    requires
        !is_digit(c),
    ensures
        !decimal_text(n).contains(c),
        decimal_text(n).len() > 0,
{
    lemma_decimal_digits(n);
    if decimal_text(n).contains(c) {
        let i = choose|i: int| 0 <= i < decimal_text(n).len() && decimal_text(n)[i] == c;
        assert(is_digit(decimal_text(n)[i]));
    }
}

/// Joined fields hold a character only if a field does, or if it is the separator.
pub proof fn lemma_joined_is_plain(fields: Seq<Seq<char>>, sep: char, c: char)
    requires
        c != sep,
        forall|i: int| 0 <= i < fields.len() ==> !(#[trigger] fields[i]).contains(c),
    ensures
        !joined_by(fields, sep).contains(c),
    decreases fields.len(),
{
    let s = joined_by(fields, sep);
    if fields.len() > 1 {
        let rest = fields.skip(1);
        assert forall|i: int| 0 <= i < rest.len() implies !(#[trigger] rest[i]).contains(c) by {
            assert(rest[i] == fields[i + 1]);
        }
        lemma_joined_is_plain(rest, sep, c);
        assert(!fields[0].contains(c));
        if s.contains(c) {
            let i = choose|i: int| 0 <= i < s.len() && s[i] == c;
            if i < fields[0].len() {
                assert(fields[0].contains(fields[0][i]));
            } else if i > fields[0].len() {
                let t = joined_by(rest, sep);
                assert(s[i] == t[i - fields[0].len() - 1]);
                assert(t.contains(t[i - fields[0].len() - 1]));
            }
        }
    } else if fields.len() == 1 {
        assert(!fields[0].contains(c));
    }
}

// ---------------------------------------------------------------------------
// Padding
// ---------------------------------------------------------------------------

/// `s` with as many `c` in front as it takes to be `width` long.
pub open spec fn padded(s: Seq<char>, width: nat, c: char) -> Seq<char> {
    if s.len() >= width {
        s
    } else {
        Seq::new((width - s.len()) as nat, |i: int| c) + s
    }
}

/// Pads a text in front.
pub fn pad(s: &str, width: usize, c: char) -> (res: String)
    ensures
        res@ == padded(s@, width as nat, c),
{
    let v = chars_of(s);
    let n: usize = v.len();
    let mut out: String = String::new();
    let mut i: usize = 0;
    assert(out@ == Seq::new(0, |i: int| c));
    if n < width {
        while i < width - n
            invariant
                i <= width - n,
                n < width,
                out@ == Seq::new(i as nat, |i: int| c),
            decreases width - n - i,
        {
            out.push(c);
            i += 1;
            assert(out@ == Seq::new(i as nat, |i: int| c));
        }
    }
    out.append(s);
    out
}

// ---------------------------------------------------------------------------
// Searching
// ---------------------------------------------------------------------------

/// `t` stands in `s` at place `i`.
pub open spec fn stands_at(s: Seq<char>, t: Seq<char>, i: int) -> bool {
    0 <= i && i + t.len() <= s.len() && s.subrange(i, i + t.len()) == t
}

fn matches_at(s: &Vec<char>, t: &Vec<char>, i: usize) -> (res: bool)
    requires
        i <= s@.len(),
    ensures
        res == stands_at(s@, t@, i as int),
{
    let n: usize = s.len();
    if t.len() > n - i {
        return false;
    }
    let mut j: usize = 0;
    while j < t.len()
        invariant
            j <= t@.len(),
            n == s@.len(),
            i + t@.len() <= n,
            forall|k: int| 0 <= k < j ==> s@[i + k] == #[trigger] t@[k],
        decreases t@.len() - j,
    {
        if s[i + j] != t[j] {
            assert(s@.subrange(i as int, i + t@.len())[j as int] != t@[j as int]);
            return false;
        }
        j += 1;
    }
    assert(s@.subrange(i as int, i + t@.len()) == t@);
    true
}

/// Whether a text starts with another.
pub fn starts_with(s: &str, t: &str) -> (res: bool)
    ensures
        res == stands_at(s@, t@, 0),
{
    let v = chars_of(s);
    let w = chars_of(t);
    matches_at(&v, &w, 0)
}

/// Whether a text holds another.
pub fn contains_text(s: &str, t: &str) -> (res: bool)
    ensures
        res == exists|i: int| #[trigger] stands_at(s@, t@, i),
{
    let v = chars_of(s);
    let w = chars_of(t);
    let mut i: usize = 0;
    while i < v.len()
        invariant
            i <= v@.len(),
            v@ == s@,
            w@ == t@,
            forall|k: int| 0 <= k < i ==> !#[trigger] stands_at(s@, t@, k),
        decreases v@.len() - i,
    {
        if matches_at(&v, &w, i) {
            return true;
        }
        i += 1;
    }
    matches_at(&v, &w, i)
}

/// Padding keeps the text at the end, puts nothing but the filling in front of it, and
/// makes it as long as was asked for unless it is longer already.
pub proof fn padding_goes_in_front(s: &str, width: usize, c: char, res: String, i: int)
    requires
        call_ensures(pad, (s, width, c), res),
    ensures
        res@.len() >= width,
        res@.len() == width || res@ == s@,
        res@.skip(res@.len() - s@.len()) == s@,
        0 <= i < res@.len() - s@.len() ==> res@[i] == c,
{
}

proof fn lemma_zeros_are_nothing(k: nat, s: Seq<char>)
    ensures
        digits_value(Seq::new(k, |i: int| '0') + s) == digits_value(s),
    decreases k + s.len(),
{
    let z = Seq::new(k, |i: int| '0');
    let t = z + s;
    if s.len() > 0 {
        assert(t.drop_last() == z + s.drop_last());
        lemma_zeros_are_nothing(k, s.drop_last());
    } else if k > 0 {
        let y = Seq::new((k - 1) as nat, |i: int| '0');
        assert(t.drop_last() == y + s);
        lemma_zeros_are_nothing((k - 1) as nat, s);
    } else {
        assert(t == s);
    }
}

/// A number that is padded with zeros reads as the number.
pub(crate) proof fn lemma_padded_reads(n: nat, width: nat)
    requires
        width == 2 && n < 100 || width == 4 && n < 10_000,
    ensures
        padded(decimal_text(n), width, '0').len() == width,
        digits_value(padded(decimal_text(n), width, '0')) == n,
{
    reveal_with_fuel(decimal_text, 5);
    let d = decimal_text(n);
    lemma_decimal_digits(n);
    assert(d.len() <= width);
    lemma_zeros_are_nothing((width - d.len()) as nat, d);
}

/// A number is read from its decimal writing, with a plus sign in front or without,
/// as long as 64 bits hold it; anything with another character is none.
pub proof fn decimal_numbers_are_read(n: nat, s: &str, res: Option<u64>, i: int)
    requires
        call_ensures(parse_u64, (s,), res),
    ensures
        s@ == decimal_text(n) || s@ == seq!['+'] + decimal_text(n) ==> res == if n <= u64::MAX {
            Some(n as u64)
        } else {
            None
        },
        s@.len() == 0 ==> res is None,
        1 <= i < s@.len() && !is_digit(s@[i]) ==> res is None,
        s@.len() > 0 && !is_digit(s@[0]) && s@[0] != '+' ==> res is None,
{
    decimal_reads_back(n);
    lemma_decimal_digits(n);
    if s@ == seq!['+'] + decimal_text(n) {
        assert(s@.skip(1) == decimal_text(n));
    }
    if 1 <= i < s@.len() && !is_digit(s@[i]) {
        if s@[0] == '+' {
            assert(s@.skip(1)[i - 1] == s@[i]);
        }
    }
    if s@.len() > 0 && !is_digit(s@[0]) && s@[0] != '+' {
        assert(!all_digits(s@));
    }
}

/// No two numbers are written alike, and the sign is that of the number.
pub proof fn signed_numbers_are_told_apart(a: i32, b: i32, ta: String, tb: String)
    requires
        call_ensures(signed_decimal, (a,), ta),
        call_ensures(signed_decimal, (b,), tb),
    ensures
        ta@ == tb@ ==> a == b,
        ta@.len() > 0 && (ta@[0] == '-' <==> a < 0),
        a >= 0 ==> unsigned_text(ta@) == Some(a as nat),
        a < 0 ==> unsigned_text(ta@.skip(1)) == Some((-a) as nat),
{
    reveal_strlit("-");
    lemma_signed(a as int);
    lemma_signed(b as int);
}

proof fn lemma_signed(n: int)
    ensures
        ({
            let t = signed_text(n);
            &&& t.len() > 0
            &&& t[0] == '-' <==> n < 0
            &&& n >= 0 ==> unsigned_text(t) == Some(n as nat)
            &&& n < 0 ==> unsigned_text(t.skip(1)) == Some((-n) as nat)
        }),
{
    reveal_strlit("-");
    if n < 0 {
        let d = decimal_text((-n) as nat);
        decimal_reads_back((-n) as nat);
        assert(signed_text(n).skip(1) == d);
    } else {
        decimal_reads_back(n as nat);
        lemma_decimal_digits(n as nat);
        lemma_decimal_digit(n as nat, 0);
    }
}

/// Digits are a number, with a point among them or at either end too, with a sign in
/// front or an exponent behind.
pub proof fn numbers_can_be_written_so(
    sign: Seq<char>,
    whole: Seq<char>,
    part: Seq<char>,
    tail: Seq<char>,
    plain: &str,
    pointed: &str,
    a: bool,
    b: bool,
)
    requires
        sign.len() == 0 || sign == seq!['+'] || sign == seq!['-'],
        all_digits(whole),
        all_digits(part),
        whole.len() + part.len() > 0,
        tail.len() == 0 || ((tail == seq!['e'] + part || tail == seq!['E'] + part || tail
            == seq!['e', '-'] + part || tail == seq!['e', '+'] + part) && part.len() > 0),
        plain@ == sign + whole + tail,
        pointed@ == sign + (whole + seq!['.'] + part) + tail,
        call_ensures(is_float, (plain,), a),
        call_ensures(is_float, (pointed,), b),
    ensures
        whole.len() > 0 ==> a,
        b,
{
    lemma_exponent(tail, part);
    let m = whole + seq!['.'] + part;
    let d = whole.len() as int;
    assert(m[d] == '.');
    assert(m.take(d) == whole);
    assert(m.skip(d + 1) == part);
    assert(is_mantissa(m));
    lemma_signed_float(sign, m, tail);
    if whole.len() > 0 {
        assert(is_mantissa(whole));
        lemma_signed_float(sign, whole, tail);
    }
}

proof fn lemma_exponent(tail: Seq<char>, part: Seq<char>)
    requires
        all_digits(part),
        tail.len() == 0 || ((tail == seq!['e'] + part || tail == seq!['E'] + part || tail
            == seq!['e', '-'] + part || tail == seq!['e', '+'] + part) && part.len() > 0),
    ensures
        is_exponent(tail),
{
    if tail.len() > 0 {
        assert(is_digit(part[0]));
        let t = tail.skip(1);
        if tail == seq!['e'] + part || tail == seq!['E'] + part {
            assert(t == part);
        } else {
            assert(t.skip(1) == part);
        }
    }
}

proof fn lemma_signed_float(sign: Seq<char>, m: Seq<char>, tail: Seq<char>)
    requires
        sign.len() == 0 || sign == seq!['+'] || sign == seq!['-'],
        is_mantissa(m),
        is_exponent(tail),
    ensures
        is_float_text(sign + m + tail),
{
    let s = sign + m + tail;
    let b = m + tail;
    assert(m.len() > 0);
    assert(is_digit(m[0]) || m[0] == '.') by {
        if !(m.len() > 0 && all_digits(m)) {
            let d = choose|d: int|
                {
                    &&& 0 <= d < m.len()
                    &&& #[trigger] m[d] == '.'
                    &&& m.len() > 1
                    &&& all_digits(m.take(d))
                    &&& all_digits(m.skip(d + 1))
                };
            if d > 0 {
                assert(m.take(d)[0] == m[0]);
            }
        }
    }
    if sign.len() == 0 {
        assert(s == b);
        assert(s[0] == m[0]);
        assert(unsigned_part(s) == b);
    } else {
        assert(s[0] == sign[0]);
        assert(s.skip(1) == b);
    }
    assert(b.take(m.len() as int) == m);
    assert(b.skip(m.len() as int) == tail);
}

/// A text without a digit is no number, unless it has the letters of one of the three
/// words; so a point, a sign or an exponent alone is none, and nothing is none.
pub proof fn numbers_need_a_digit(s: &str, res: bool)
    requires
        call_ensures(is_float, (s,), res),
        forall|i: int| 0 <= i < s@.len() ==> !is_digit(#[trigger] s@[i]),
        forall|i: int| 0 <= i < s@.len() ==> #[trigger] s@[i] != 'n' && s@[i] != 'N',
    ensures
        !res,
{
    let b = unsigned_part(s@);
    assert forall|i: int| 0 <= i < b.len() implies !is_digit(#[trigger] b[i]) && b[i] != 'n' && b[i]
        != 'N' by {
        if b.len() < s@.len() {
            assert(b[i] == s@[i + 1]);
        } else {
            assert(b[i] == s@[i]);
        }
    }
    if res {
        let inf = seq!['i', 'n', 'f'];
        let infinity = seq!['i', 'n', 'f', 'i', 'n', 'i', 't', 'y'];
        let nan = seq!['n', 'a', 'n'];
        if is_word(b, inf) {
            assert(b[1] == inf[1] || b[1] as int == inf[1] as int - 32);
        } else if is_word(b, infinity) {
            assert(b[1] == infinity[1] || b[1] as int == infinity[1] as int - 32);
        } else if is_word(b, nan) {
            assert(b[0] == nan[0] || b[0] as int == nan[0] as int - 32);
        } else {
            let m = choose|m: int|
                0 <= m <= b.len() && #[trigger] is_mantissa(b.take(m)) && is_exponent(b.skip(m));
            let t = b.take(m);
            if t.len() > 0 && all_digits(t) {
                assert(is_digit(t[0]));
                assert(t[0] == b[0]);
            } else {
                let d = choose|d: int|
                    {
                        &&& 0 <= d < t.len()
                        &&& #[trigger] t[d] == '.'
                        &&& t.len() > 1
                        &&& all_digits(t.take(d))
                        &&& all_digits(t.skip(d + 1))
                    };
                if d > 0 {
                    assert(is_digit(t.take(d)[0]));
                    assert(t.take(d)[0] == b[0]);
                } else {
                    assert(is_digit(t.skip(1)[0]));
                    assert(t.skip(1)[0] == b[1]);
                }
            }
        }
    }
}

/// A list in brackets grows at its end: one more text is quoted behind a comma and a
/// blank.
pub proof fn bracketed_lists_grow_at_the_end(
    v: Vec<String>,
    more: Vec<String>,
    s: &str,
    a: String,
    b: String,
)
    requires
        v@.len() > 0,
        views(more@) == views(v@).push(s@),
        call_ensures(bracketed, (&v,), a),
        call_ensures(bracketed, (&more,), b),
    ensures
        a@.len() >= 2,
        a@[0] == '[' && a@.last() == ']',
        b@ == a@.drop_last() + ", "@ + debug_text(s@) + "]"@,
{
    reveal_strlit("[");
    reveal_strlit("]");
    let x = views(v@);
    assert(x.len() == v@.len());
    assert(x.push(s@).drop_last() == x);
    assert(a@.drop_last() == "["@ + quoted_list(x));
    assert(b@ == a@.drop_last() + ", "@ + debug_text(s@) + "]"@);
}

/// White space is what Unicode says it is: the five control characters of the line and
/// the page, the blank, the next line, and the blanks of other widths and scripts.
pub proof fn white_space_is_unicodes(c: char, res: bool)
    requires
        call_ensures(is_white_space, (c,), res),
    ensures
        res <==> (c == '\t' || c == '\n' || c == '\u{b}' || c == '\u{c}' || c == '\r' || c == ' '
            || c == '\u{85}' || c == '\u{a0}' || c == '\u{1680}' || ('\u{2000}' <= c <= '\u{200a}')
            || c == '\u{2028}' || c == '\u{2029}' || c == '\u{202f}' || c == '\u{205f}' || c
            == '\u{3000}'),
{
}

} // verus!
