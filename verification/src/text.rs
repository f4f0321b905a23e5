//! Character-level helpers shared by identity, route, and field validation.
use vstd::prelude::*;

verus! {

/// Unicode `Cc` (control) code points: `U+0000..=U+001F` and `U+007F..=U+009F`.
pub open spec fn is_control_char(c: char) -> bool {
    (c as u32) <= 0x1f || (0x7f <= (c as u32) && (c as u32) <= 0x9f)
}

/// Whether any character of the sequence is a control character.
pub open spec fn has_control(s: Seq<char>) -> bool {
    exists|i: int| 0 <= i < s.len() && is_control_char(#[trigger] s[i])
}

/// Lexicographic order of character sequences by scalar value; for UTF-8
/// strings this is the same order as byte-wise string comparison.
pub open spec fn chars_before(a: Seq<char>, b: Seq<char>) -> bool
    decreases a.len(),
{
    if a.len() == 0 {
        b.len() > 0
    } else if b.len() == 0 {
        false
    } else if a[0] != b[0] {
        a[0] < b[0]
    } else {
        chars_before(a.drop_first(), b.drop_first())
    }
}

pub proof fn lemma_before_irreflexive(a: Seq<char>)
    ensures
        !chars_before(a, a),
    decreases a.len(),
{
    if a.len() > 0 {
        lemma_before_irreflexive(a.drop_first());
    }
}

pub proof fn lemma_before_asymmetric(a: Seq<char>, b: Seq<char>)
    ensures
        chars_before(a, b) ==> !chars_before(b, a),
    decreases a.len(),
{
    if a.len() > 0 && b.len() > 0 && a[0] == b[0] {
        lemma_before_asymmetric(a.drop_first(), b.drop_first());
    }
}

pub proof fn lemma_before_total(a: Seq<char>, b: Seq<char>)
    ensures
        a != b ==> chars_before(a, b) || chars_before(b, a),
    decreases a.len(),
{
    if a.len() == 0 && b.len() == 0 {
        assert(a =~= b);
    } else if a.len() > 0 && b.len() > 0 && a[0] == b[0] {
        lemma_before_total(a.drop_first(), b.drop_first());
        if a.drop_first() == b.drop_first() {
            assert(a.len() == b.drop_first().len() + 1);
            assert forall|i: int| 0 <= i < a.len() implies a[i] == b[i] by {
                if i > 0 {
                    assert(a[i] == a.drop_first()[i - 1]);
                    assert(b[i] == b.drop_first()[i - 1]);
                }
            }
            assert(a =~= b);
        }
    }
}

pub proof fn lemma_before_transitive(a: Seq<char>, b: Seq<char>, c: Seq<char>)
    ensures
        chars_before(a, b) && chars_before(b, c) ==> chars_before(a, c),
    decreases a.len(),
{
    if a.len() > 0 && b.len() > 0 && c.len() > 0 {
        lemma_before_transitive(a.drop_first(), b.drop_first(), c.drop_first());
    }
}

/// Three-way result of comparing two keys.
#[derive(Clone, Copy, Debug, PartialEq, Eq, Structural)]
pub enum KeyOrder {
    Less,
    Equal,
    Greater,
}

/// Compare two strings by scalar value.
pub fn compare_strs(a: &str, b: &str) -> (r: KeyOrder)
    ensures
        (r == KeyOrder::Less) == chars_before(a@, b@),
        (r == KeyOrder::Equal) == (a@ == b@),
        (r == KeyOrder::Greater) == chars_before(b@, a@),
{
    let la = a.unicode_len();
    let lb = b.unicode_len();
    let mut i: usize = 0;
    proof {
        assert(a@.skip(0) =~= a@);
        assert(b@.skip(0) =~= b@);
        lemma_before_asymmetric(a@, b@);
        lemma_before_irreflexive(a@);
        lemma_before_total(a@, b@);
    }
    while i < la && i < lb
        invariant
            la == a@.len(),
            lb == b@.len(),
            i <= la,
            i <= lb,
            forall|j: int| 0 <= j < i ==> a@[j] == b@[j],
            chars_before(a@, b@) == chars_before(a@.skip(i as int), b@.skip(i as int)),
            chars_before(b@, a@) == chars_before(b@.skip(i as int), a@.skip(i as int)),
        decreases la - i,
    {
        let ca = a.get_char(i);
        let cb = b.get_char(i);
        assert(a@.skip(i as int)[0] == ca);
        assert(b@.skip(i as int)[0] == cb);
        if ca != cb {
            assert(a@[i as int] != b@[i as int]);
            if ca < cb {
                proof {
                    lemma_before_asymmetric(a@, b@);
                }
                return KeyOrder::Less;
            } else {
                proof {
                    lemma_before_asymmetric(b@, a@);
                }
                return KeyOrder::Greater;
            }
        }
        assert(a@.skip(i as int).drop_first() =~= a@.skip(i + 1));
        assert(b@.skip(i as int).drop_first() =~= b@.skip(i + 1));
        i = i + 1;
    }
    if la == lb {
        assert(a@ =~= b@);
        proof {
            lemma_before_irreflexive(a@);
        }
        KeyOrder::Equal
    } else if la < lb {
        assert(a@.skip(i as int).len() == 0);
        assert(b@.skip(i as int).len() > 0);
        proof {
            lemma_before_asymmetric(a@, b@);
        }
        KeyOrder::Less
    } else {
        assert(b@.skip(i as int).len() == 0);
        assert(a@.skip(i as int).len() > 0);
        proof {
            lemma_before_asymmetric(b@, a@);
        }
        KeyOrder::Greater
    }
}

/// Exact string equality by characters.
pub fn str_eq(a: &str, b: &str) -> (r: bool)
    ensures
        r == (a@ == b@),
{
    compare_strs(a, b) == KeyOrder::Equal
}

/// Whether a string holds a control character.
pub fn contains_control(s: &str) -> (r: bool)
    ensures
        r == has_control(s@),
{
    let n = s.unicode_len();
    let mut i: usize = 0;
    while i < n
        invariant
            n == s@.len(),
            i <= n,
            forall|j: int| 0 <= j < i ==> !is_control_char(s@[j]),
        decreases n - i,
    {
        let c = s.get_char(i);
        let code = c as u32;
        if code <= 0x1f || (0x7f <= code && code <= 0x9f) {
            assert(is_control_char(s@[i as int]));
            return true;
        }
        i = i + 1;
    }
    false
}


/// Unicode `White_Space` code points.
pub open spec fn is_whitespace_char(c: char) -> bool {
    let u = c as u32;
    (0x9 <= u && u <= 0xd) || u == 0x20 || u == 0x85 || u == 0xa0 || u == 0x1680 || (0x2000 <= u
        && u <= 0x200a) || u == 0x2028 || u == 0x2029 || u == 0x202f || u == 0x205f || u == 0x3000
}

/// Whether a character is Unicode whitespace.
pub fn is_whitespace(c: char) -> (r: bool)
    ensures
        r == is_whitespace_char(c),
{
    let u = c as u32;
    (0x9 <= u && u <= 0xd) || u == 0x20 || u == 0x85 || u == 0xa0 || u == 0x1680 || (0x2000 <= u
        && u <= 0x200a) || u == 0x2028 || u == 0x2029 || u == 0x202f || u == 0x205f || u == 0x3000
}

/// Index of the first non-whitespace character (the length when there is none).
pub open spec fn trim_start(s: Seq<char>) -> int {
    if exists|i: int| 0 <= i < s.len() && !is_whitespace_char(#[trigger] s[i]) {
        choose|i: int|
            0 <= i < s.len() && !is_whitespace_char(s[i]) && forall|j: int|
                0 <= j < i ==> is_whitespace_char(#[trigger] s[j])
    } else {
        s.len() as int
    }
}

/// One past the last non-whitespace character (zero when there is none).
pub open spec fn trim_end(s: Seq<char>) -> int {
    if exists|i: int| 0 <= i < s.len() && !is_whitespace_char(#[trigger] s[i]) {
        (choose|l: int|
            0 <= l < s.len() && !is_whitespace_char(s[l]) && forall|j: int|
                l < j < s.len() ==> is_whitespace_char(#[trigger] s[j])) + 1
    } else {
        0
    }
}

/// The sequence without leading and trailing whitespace.
pub open spec fn trim_whitespace(s: Seq<char>) -> Seq<char> {
    if trim_start(s) < trim_end(s) {
        s.subrange(trim_start(s), trim_end(s))
    } else {
        Seq::empty()
    }
}

/// The characters of a string.
pub fn chars_of(s: &str) -> (r: Vec<char>)
    ensures
        r@ == s@,
{
    let n = s.unicode_len();
    let mut out: Vec<char> = Vec::new();
    let mut i: usize = 0;
    while i < n
        invariant
            n == s@.len(),
            i <= n,
            out@ == s@.subrange(0, i as int),
        decreases n - i,
    {
        out.push(s.get_char(i));
        i = i + 1;
    }
    assert(out@ =~= s@);
    out
}

/// The characters of `s` without leading and trailing whitespace.
pub fn trim_chars(s: &str) -> (r: Vec<char>)
    ensures
        r@ == trim_whitespace(s@),
{
    let v = chars_of(s);
    let n = v.len();
    let mut a: usize = 0;
    while a < n && is_whitespace(v[a])
        invariant
            n == v@.len(),
            v@ == s@,
            a <= n,
            forall|j: int| 0 <= j < a ==> is_whitespace_char(#[trigger] v@[j]),
        decreases n - a,
    {
        a = a + 1;
    }
    if a == n {
        assert(!exists|i: int| 0 <= i < s@.len() && !is_whitespace_char(#[trigger] s@[i]));
        return Vec::new();
    }
    let mut e: usize = n;
    while e > a && is_whitespace(v[e - 1])
        invariant
            n == v@.len(),
            v@ == s@,
            a < n,
            !is_whitespace_char(v@[a as int]),
            a < e <= n,
            forall|j: int| e <= j < n ==> is_whitespace_char(#[trigger] v@[j]),
        decreases e,
    {
        e = e - 1;
    }
    let ghost sv = s@;
    proof {
        assert(!is_whitespace_char(sv[a as int]));
        let ts = trim_start(sv);
        assert(0 <= ts < sv.len() && !is_whitespace_char(sv[ts]) && forall|j: int|
            0 <= j < ts ==> is_whitespace_char(#[trigger] sv[j]));
        if ts < a {
            assert(is_whitespace_char(sv[ts]));
        }
        if a < ts {
            assert(is_whitespace_char(sv[a as int]));
        }
        assert(!is_whitespace_char(sv[e - 1]) && forall|j: int|
            e - 1 < j < sv.len() ==> is_whitespace_char(#[trigger] sv[j]));
        let te = trim_end(sv);
        assert(0 < te <= sv.len() && !is_whitespace_char(sv[te - 1]) && forall|j: int|
            te <= j < sv.len() ==> is_whitespace_char(#[trigger] sv[j]));
        if te < e {
            assert(is_whitespace_char(sv[e - 1]));
        }
        if e < te {
            assert(is_whitespace_char(sv[te - 1]));
        }
    }
    let mut out: Vec<char> = Vec::new();
    let mut i: usize = a;
    while i < e
        invariant
            v@ == s@,
            a <= i <= e <= n,
            n == v@.len(),
            out@ == v@.subrange(a as int, i as int),
        decreases e - i,
    {
        out.push(v[i]);
        i = i + 1;
    }
    out
}

/// ASCII case folding of one character, as a code point.
pub open spec fn fold_code(c: char) -> u32 {
    if 65 <= (c as u32) && (c as u32) <= 90 {
        ((c as u32) + 32) as u32
    } else {
        c as u32
    }
}

/// ASCII case folding of a character sequence, as code points.
pub open spec fn folded(s: Seq<char>) -> Seq<u32> {
    s.map_values(|c: char| fold_code(c))
}

/// ASCII case folding of characters, as code points.
pub fn fold_chars(v: &Vec<char>) -> (r: Vec<u32>)
    ensures
        r@ == folded(v@),
{
    let mut out: Vec<u32> = Vec::new();
    let mut i: usize = 0;
    while i < v.len()
        invariant
            i <= v@.len(),
            out@ == folded(v@.subrange(0, i as int)),
        decreases v@.len() - i,
    {
        let u = v[i] as u32;
        let f: u32 = if 65 <= u && u <= 90 {
            u + 32
        } else {
            u
        };
        out.push(f);
        assert(folded(v@.subrange(0, i + 1)) =~= folded(v@.subrange(0, i as int)).push(f));
        i = i + 1;
    }
    assert(v@.subrange(0, v@.len() as int) =~= v@);
    out
}

/// Whether `needle` occurs contiguously in `hay`.
pub open spec fn contains_seq<T>(hay: Seq<T>, needle: Seq<T>) -> bool {
    exists|i: int| 0 <= i && i + needle.len() <= hay.len() && #[trigger] hay.subrange(i, i + needle.len()) == needle
}

/// Whether `needle` occurs contiguously in `hay`.
pub fn contains_codes(hay: &Vec<u32>, needle: &Vec<u32>) -> (r: bool)
    ensures
        r == contains_seq(hay@, needle@),
{
    let n = hay.len();
    let m = needle.len();
    if m > n {
        assert forall|i: int| 0 <= i && i + m <= n implies #[trigger] hay@.subrange(i, i + m) != needle@ by {}
        return false;
    }
    let mut i: usize = 0;
    while i <= n - m
        invariant
            n == hay@.len(),
            m == needle@.len(),
            m <= n,
            i <= n - m + 1,
            forall|k: int| 0 <= k < i ==> #[trigger] hay@.subrange(k, k + m) != needle@,
        decreases n - m + 1 - i,
    {
        let mut j: usize = 0;
        let mut same = true;
        while j < m
            invariant
                n == hay@.len(),
                m == needle@.len(),
                i + m <= n,
                j <= m,
                same == forall|t: int| 0 <= t < j ==> hay@[i + t] == needle@[t],
            decreases m - j,
        {
            if hay[i + j] != needle[j] {
                same = false;
            }
            j = j + 1;
        }
        if same {
            assert(hay@.subrange(i as int, i + m) =~= needle@);
            return true;
        }
        assert(hay@.subrange(i as int, i + m) != needle@) by {
            let t = choose|t: int| 0 <= t < m && hay@[i + t] != needle@[t];
            assert(hay@.subrange(i as int, i + m)[t] == hay@[i + t]);
        }
        i = i + 1;
    }
    false
}

/// Whether two code sequences are equal.
pub fn codes_eq(a: &Vec<u32>, b: &Vec<u32>) -> (r: bool)
    ensures
        r == (a@ == b@),
{
    if a.len() != b.len() {
        return false;
    }
    let mut i: usize = 0;
    while i < a.len()
        invariant
            a@.len() == b@.len(),
            i <= a@.len(),
            forall|t: int| 0 <= t < i ==> a@[t] == b@[t],
        decreases a@.len() - i,
    {
        if a[i] != b[i] {
            return false;
        }
        i = i + 1;
    }
    assert(a@ =~= b@);
    true
}

/// The decimal digit character of `d`.
pub open spec fn digit_char(d: int) -> char {
    if d == 0 { '0' } else if d == 1 { '1' } else if d == 2 { '2' } else if d == 3 { '3' } else if d == 4 { '4' }
    else if d == 5 { '5' } else if d == 6 { '6' } else if d == 7 { '7' } else if d == 8 { '8' } else { '9' }
}

/// The decimal notation of a natural number, without leading zeros.
pub open spec fn decimal(n: nat) -> Seq<char>
    decreases n,
{
    if n < 10 {
        seq![digit_char(n as int)]
    } else {
        decimal(n / 10) + seq![digit_char((n % 10) as int)]
    }
}

/// The decimal notation of an integer, with a leading `-` when negative.
pub open spec fn signed_decimal(v: int) -> Seq<char> {
    if v < 0 {
        seq!['-'] + decimal((-v) as nat)
    } else {
        decimal(v as nat)
    }
}

fn digit_str(d: u64) -> (r: &'static str)
    requires
        d < 10,
    ensures
        r@ == seq![digit_char(d as int)],
{
    proof {
        reveal_strlit("0");
        reveal_strlit("1");
        reveal_strlit("2");
        reveal_strlit("3");
        reveal_strlit("4");
        reveal_strlit("5");
        reveal_strlit("6");
        reveal_strlit("7");
        reveal_strlit("8");
        reveal_strlit("9");
    }
    if d == 0 { "0" } else if d == 1 { "1" } else if d == 2 { "2" } else if d == 3 { "3" } else if d == 4 { "4" }
    else if d == 5 { "5" } else if d == 6 { "6" } else if d == 7 { "7" } else if d == 8 { "8" } else { "9" }
}

/// The decimal notation of `n`.
pub fn decimal_string(n: u64) -> (r: String)
    ensures
        r@ == decimal(n as nat),
    decreases n,
{
    if n < 10 {
        String::from_str(digit_str(n))
    } else {
        let mut s = decimal_string(n / 10);
        s.append(digit_str(n % 10));
        s
    }
}

/// The decimal notation of `v`, with a leading `-` when negative.
pub fn signed_decimal_string(v: i64) -> (r: String)
    ensures
        r@ == signed_decimal(v as int),
{
    if v < 0 {
        let magnitude: u64 = if v == i64::MIN {
            9223372036854775808u64
        } else {
            (-v) as u64
        };
        proof {
            reveal_strlit("-");
        }
        let mut s = String::from_str("-");
        s.append(decimal_string(magnitude).as_str());
        s
    } else {
        decimal_string(v as u64)
    }
}

/// Whether every character is an ASCII digit.
pub open spec fn all_digits(s: Seq<char>) -> bool {
    forall|i: int| 0 <= i < s.len() ==> '0' <= #[trigger] s[i] <= '9'
}

/// The value of a sequence of ASCII digits.
pub open spec fn digits_value(s: Seq<char>) -> int
    decreases s.len(),
{
    if s.len() == 0 {
        0
    } else {
        digits_value(s.drop_last()) * 10 + (s.last() as int - '0' as int)
    }
}

/// The signed 64-bit integer that `s` denotes: an optional `+` or `-`, then
/// one or more ASCII digits, whose value fits in 64 bits; `None` otherwise.
pub open spec fn parsed_i64(s: Seq<char>) -> Option<int> {
    let neg = s.len() > 0 && s[0] == '-';
    let body = if s.len() > 0 && (s[0] == '-' || s[0] == '+') {
        s.drop_first()
    } else {
        s
    };
    if body.len() == 0 || !all_digits(body) {
        None
    } else {
        let v = if neg {
            -digits_value(body)
        } else {
            digits_value(body)
        };
        if i64::MIN <= v <= i64::MAX {
            Some(v)
        } else {
            None
        }
    }
}

proof fn lemma_digits_grow(s: Seq<char>, i: int)
    requires
        all_digits(s),
        0 <= i <= s.len(),
    ensures
        0 <= digits_value(s.take(i)) <= digits_value(s),
    decreases s.len() - i,
{
    if i == s.len() {
        assert(s.take(i) =~= s);
        lemma_digits_nonneg(s);
    } else {
        lemma_digits_grow(s, i + 1);
        assert(s.take(i + 1).drop_last() =~= s.take(i));
        lemma_digits_nonneg(s.take(i));
    }
}

proof fn lemma_digits_nonneg(s: Seq<char>)
    requires
        all_digits(s),
    ensures
        digits_value(s) >= 0,
    decreases s.len(),
{
    if s.len() > 0 {
        assert(all_digits(s.drop_last()));
        lemma_digits_nonneg(s.drop_last());
    }
}

/// Parse a signed 64-bit decimal integer.
pub fn parse_i64(s: &str) -> (r: Option<i64>)
    ensures
        match r {
            Some(v) => parsed_i64(s@) == Some(v as int),
            None => parsed_i64(s@) is None,
        },
{
    let v = chars_of(s);
    let n = v.len();
    let neg = n > 0 && v[0] == '-';
    let start: usize = if n > 0 && (v[0] == '-' || v[0] == '+') {
        1
    } else {
        0
    };
    let ghost body = if s@.len() > 0 && (s@[0] == '-' || s@[0] == '+') {
        s@.drop_first()
    } else {
        s@
    };
    assert(body =~= v@.subrange(start as int, n as int));
    if start == n {
        return None;
    }
    let mut magnitude: u64 = 0;
    let mut i: usize = start;
    while i < n
        invariant
            start <= i <= n,
            v@ == s@,
            n == v@.len(),
            body == v@.subrange(start as int, n as int),
            body == if s@.len() > 0 && (s@[0] == '-' || s@[0] == '+') {
                s@.drop_first()
            } else {
                s@
            },
            neg == (s@.len() > 0 && s@[0] == '-'),
            magnitude as int == digits_value(body.take(i - start)),
            magnitude <= 9223372036854775808u64,
            all_digits(body.take(i - start)),
        decreases n - i,
    {
        let c = v[i];
        let ghost k = i - start;
        assert(body[k] == c);
        if c < '0' || c > '9' {
            assert(!('0' <= body[k] <= '9'));
            assert(!all_digits(body));
            assert(parsed_i64(s@) is None);
            return None;
        }
        let d = (c as u32 - '0' as u32) as u64;
        assert(body.take(k + 1).drop_last() =~= body.take(k));
        assert(body.take(k + 1).last() == c);
        assert(all_digits(body.take(k + 1)));
        if magnitude > 922337203685477580u64 || (magnitude == 922337203685477580u64 && d > 8) {
            proof {
                assert(digits_value(body.take(k + 1)) == magnitude * 10 + d);
                assert(digits_value(body.take(k + 1)) > 9223372036854775808);
                if all_digits(body) {
                    lemma_digits_grow(body, k + 1);
                    assert(digits_value(body) > 9223372036854775808);
                }
                assert(parsed_i64(s@) is None);
            }
            return None;
        }
        magnitude = magnitude * 10 + d;
        i = i + 1;
    }
    assert(body.take(n - start) =~= body);
    if neg {
        if magnitude == 9223372036854775808u64 {
            Some(i64::MIN)
        } else {
            Some(-(magnitude as i64))
        }
    } else {
        if magnitude > 9223372036854775807u64 {
            None
        } else {
            Some(magnitude as i64)
        }
    }
}

/// The number of UTF-8 bytes of a string.
pub fn utf8_byte_len(s: &str) -> (r: u128)
    ensures
        r == vstd::utf8::encode_utf8(s@).len(),
{
    let v = chars_of(s);
    let n = v.len();
    let mut acc: u128 = 0;
    let mut i: usize = n;
    assert(s@.skip(n as int) =~= Seq::<char>::empty());
    while i > 0
        invariant
            i <= n,
            n == v@.len(),
            v@ == s@,
            acc == vstd::utf8::encode_utf8(s@.skip(i as int)).len(),
            acc <= 4 * (n - i),
        decreases i,
    {
        let c = v[i - 1];
        let code = c as u32;
        let w: u128 = if code <= 0x7F {
            1
        } else if code <= 0x7FF {
            2
        } else if code <= 0xFFFF {
            3
        } else {
            4
        };
        let ghost t = s@.skip(i - 1);
        assert(t[0] == c);
        assert(t.drop_first() =~= s@.skip(i as int));
        proof {
            vstd::utf8::char_is_scalar(c);
        }
        assert(vstd::utf8::encode_scalar(code).len() == w);
        acc = acc + w;
        i = i - 1;
    }
    assert(s@.skip(0) =~= s@);
    acc
}

} // verus!
