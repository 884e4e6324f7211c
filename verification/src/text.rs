//! Text helpers: decimal notation, whitespace, and the splitting and searching
//! of strings that the event records need.

use vstd::prelude::*;

verus! {

// ---------------------------------------------------------------------------
// Decimal notation
// ---------------------------------------------------------------------------

/// The ASCII digit for `d` (0 to 9).
pub open spec fn digit_char(d: int) -> char {
    ((48 + d) as u32) as char
}

/// Decimal notation of a natural number, without leading zeros.
pub open spec fn decimal(n: nat) -> Seq<char>
    decreases n,
{
    if n < 10 {
        seq![digit_char(n as int)]
    } else {
        decimal(n / 10).push(digit_char((n % 10) as int))
    }
}

pub open spec fn is_digit_char(c: char) -> bool {
    48 <= (c as int) <= 57
}

/// Decimal notation has at least one character, and only digits.
pub proof fn lemma_decimal_digits(n: nat)
    ensures
        decimal(n).len() >= 1,
        forall|i: int| 0 <= i < decimal(n).len() ==> is_digit_char(#[trigger] decimal(n)[i]),
    decreases n,
{
    if n >= 10 {
        lemma_decimal_digits(n / 10);
    }
}

/// Zero-padded decimal notation has only digits, at least `width` of them and at least one.
pub proof fn lemma_zero_padded_digits(n: nat, width: nat)
    ensures
        zero_padded(n, width).len() >= width,
        zero_padded(n, width).len() >= 1,
        forall|i: int|
            0 <= i < zero_padded(n, width).len() ==> is_digit_char(#[trigger] zero_padded(n, width)[i]),
        width <= 1 ==> zero_padded(n, width) == decimal(n),
{
    lemma_decimal_digits(n);
    let ds = decimal(n);
    if ds.len() < width {
        let z = zeros((width - ds.len()) as nat);
        assert forall|i: int| 0 <= i < zero_padded(n, width).len() implies is_digit_char(
            #[trigger] zero_padded(n, width)[i],
        ) by {
            if i < z.len() {
            } else {
                assert(zero_padded(n, width)[i] == ds[i - z.len()]);
            }
        }
    }
}

/// A number below 100 has at most two decimal digits.
pub proof fn lemma_decimal_below_100(n: nat)
    requires
        n < 100,
    ensures
        decimal(n).len() <= 2,
        zero_padded(n, 2).len() == 2,
{
    if n >= 10 {
        assert(decimal(n / 10).len() == 1);
    }
}

/// `k` zero digits.
pub open spec fn zeros(k: nat) -> Seq<char> {
    Seq::new(k, |i: int| '0')
}

/// Decimal notation of `n`, with zeros in front up to `width` characters.
pub open spec fn zero_padded(n: nat, width: nat) -> Seq<char> {
    let ds = decimal(n);
    if ds.len() >= width {
        ds
    } else {
        zeros((width - ds.len()) as nat) + ds
    }
}

/// Decimal notation of an integer, with a minus sign when it is negative.
pub open spec fn signed_decimal(n: int) -> Seq<char> {
    if n < 0 {
        seq!['-'] + decimal((-n) as nat)
    } else {
        decimal(n as nat)
    }
}

/// What `format!("{:0w$}", n)` writes: the sign counts towards the width.
pub open spec fn signed_zero_padded(n: int, width: nat) -> Seq<char> {
    if n < 0 {
        seq!['-'] + zero_padded((-n) as nat, (width - 1) as nat)
    } else {
        zero_padded(n as nat, width)
    }
}

/// The one-character text of digit `d`.
fn digit_text(d: u64) -> (r: &'static str)
    requires
        d < 10,
    ensures
        r@ == seq![digit_char(d as int)],
{
    proof {
        reveal_strlit("0");
        reveal_strlit("1");
        reveal_strlit("2");
        reveal_strlit("3");
        reveal_strlit("4");
        reveal_strlit("5");
        reveal_strlit("6");
        reveal_strlit("7");
        reveal_strlit("8");
        reveal_strlit("9");
    }
    if d == 0 {
        "0"
    } else if d == 1 {
        "1"
    } else if d == 2 {
        "2"
    } else if d == 3 {
        "3"
    } else if d == 4 {
        "4"
    } else if d == 5 {
        "5"
    } else if d == 6 {
        "6"
    } else if d == 7 {
        "7"
    } else if d == 8 {
        "8"
    } else {
        "9"
    }
}

/// Decimal text of `n`, without leading zeros.
fn decimal_text(n: u64) -> (r: String)
    ensures
        r@ == decimal(n as nat),
    decreases n,
{
    if n < 10 {
        digit_text(n).to_owned()
    } else {
        let mut r = decimal_text(n / 10);
        r.append(digit_text(n % 10));
        r
    }
}

/// Decimal text of `n`, with zeros in front up to `width` characters.
fn zero_padded_text(n: u64, width: usize) -> (r: String)
    ensures
        r@ == zero_padded(n as nat, width as nat),
{
    let ds = decimal_text(n);
    let len = ds.as_str().unicode_len();
    if len >= width {
        return ds;
    }
    let mut r = String::new();
    let mut i: usize = 0;
    while i < width - len
        invariant
            len < width,
            i <= width - len,
            r@ == zeros(i as nat),
        decreases width - len - i,
    {
        r.append("0");
        i = i + 1;
        proof { reveal_strlit("0"); }
        assert(r@ =~= zeros(i as nat));
    }
    r.append(ds.as_str());
    r
}

/// Decimal text of `n`, as `u32`'s `Display` writes it.
pub(crate) fn u32_text(n: u32) -> (r: String)
    ensures
        r@ == decimal(n as nat),
{
    decimal_text(n as u64)
}

/// Decimal text of `n`, zero-padded to two digits, as `format!("{:02}", n)` writes it.
pub(crate) fn u32_text_pad2(n: u32) -> (r: String)
    ensures
        r@ == zero_padded(n as nat, 2),
{
    zero_padded_text(n as u64, 2)
}

/// Decimal text of `n` with a minus sign when it is negative, as `i64`'s `Display`
/// writes it.
pub(crate) fn i64_text(n: i64) -> (r: String)
    ensures
        r@ == signed_decimal(n as int),
{
    if n < 0 {
        let magnitude = (0i128 - n as i128) as u64;
        let mut r = "-".to_owned();
        proof { reveal_strlit("-"); }
        r.append(decimal_text(magnitude).as_str());
        r
    } else {
        decimal_text(n as u64)
    }
}

/// Decimal text of `n`, as `i32`'s `Display` writes it.
pub(crate) fn i32_text(n: i32) -> (r: String)
    ensures
        r@ == signed_decimal(n as int),
{
    i64_text(n as i64)
}

/// Decimal text of `n`, zero-padded to four characters with a minus sign counting as
/// one of them, as `format!("{:04}", n)` writes it.
pub(crate) fn i32_text_pad4(n: i32) -> (r: String)
    ensures
        r@ == signed_zero_padded(n as int, 4),
{
    if n < 0 {
        let magnitude = (0i64 - n as i64) as u64;
        let mut r = "-".to_owned();
        proof { reveal_strlit("-"); }
        r.append(zero_padded_text(magnitude, 3).as_str());
        r
    } else {
        zero_padded_text(n as u64, 4)
    }
}

// ---------------------------------------------------------------------------
// Parsing a u32 from bytes, as `str::parse::<u32>` does
// ---------------------------------------------------------------------------

pub open spec fn is_digit_byte(b: u8) -> bool {
    48 <= b <= 57
}

pub open spec fn all_digit_bytes(b: Seq<u8>) -> bool {
    forall|i: int| 0 <= i < b.len() ==> is_digit_byte(#[trigger] b[i])
}

/// The number that a string of decimal digits stands for.
pub open spec fn digits_value(b: Seq<u8>) -> nat
    decreases b.len(),
{
    if b.len() == 0 {
        0
    } else {
        digits_value(b.drop_last()) * 10 + (b.last() - 48) as nat
    }
}

/// What `<u32 as FromStr>::from_str` gives for the UTF-8 bytes `b`: an optional `+`, then
/// one or more ASCII digits, whose value fits in a `u32`.
pub open spec fn parse_u32_spec(b: Seq<u8>) -> Option<u32> {
    let digits = if b.len() > 0 && b[0] == 43 { b.drop_first() } else { b };
    if digits.len() > 0 && all_digit_bytes(digits) && digits_value(digits) <= u32::MAX {
        Some(digits_value(digits) as u32)
    } else {
        None
    }
}

proof fn lemma_digits_value_grows(b: Seq<u8>, k: int)
    requires
        0 <= k <= b.len(),
        all_digit_bytes(b),
    ensures
        digits_value(b.subrange(0, k)) <= digits_value(b),
    decreases b.len() - k,
{
    if k < b.len() {
        lemma_digits_value_grows(b, k + 1);
        assert(b.subrange(0, k + 1).drop_last() =~= b.subrange(0, k));
    } else {
        assert(b.subrange(0, k) =~= b);
    }
}

/// The bytes of a text of ASCII characters, one per character.
pub open spec fn ascii_bytes(s: Seq<char>) -> Seq<u8> {
    s.map_values(|c: char| c as u8)
}

proof fn lemma_digit_char_byte(d: int)
    requires
        0 <= d < 10,
    ensures
        digit_char(d) as u8 == 48 + d,
{
    let u = (48 + d) as u32;
    assert(u as char as u32 == u);
}

proof fn lemma_digits_value_of_decimal(n: nat)
    ensures
        all_digit_bytes(ascii_bytes(decimal(n))),
        digits_value(ascii_bytes(decimal(n))) == n,
    decreases n,
{
    lemma_decimal_digits(n);
    let b = ascii_bytes(decimal(n));
    assert forall|i: int| 0 <= i < b.len() implies is_digit_byte(#[trigger] b[i]) by {
        assert(is_digit_char(decimal(n)[i]));
    }
    lemma_digit_char_byte((n % 10) as int);
    if n >= 10 {
        lemma_digits_value_of_decimal(n / 10);
        assert(b.drop_last() =~= ascii_bytes(decimal(n / 10)));
        assert(b.last() == digit_char((n % 10) as int) as u8);
        assert(digits_value(b) == digits_value(b.drop_last()) * 10 + (b.last() - 48) as nat);
        assert(n == (n / 10) * 10 + n % 10);
    } else {
        assert(b.drop_last() =~= Seq::<u8>::empty());
        assert(b.last() == digit_char(n as int) as u8);
        assert(digits_value(b) == digits_value(b.drop_last()) * 10 + (b.last() - 48) as nat);
    }
}

proof fn lemma_digits_value_zeros(k: nat)
    ensures
        digits_value(ascii_bytes(zeros(k))) == 0,
    decreases k,
{
    if k > 0 {
        lemma_digits_value_zeros((k - 1) as nat);
        assert(ascii_bytes(zeros(k)).drop_last() =~= ascii_bytes(zeros((k - 1) as nat)));
    }
}

proof fn lemma_digits_value_leading_zeros(z: Seq<u8>, b: Seq<u8>)
    requires
        digits_value(z) == 0,
    ensures
        digits_value(z + b) == digits_value(b),
    decreases b.len(),
{
    if b.len() == 0 {
        assert(z + b =~= z);
    } else {
        lemma_digits_value_leading_zeros(z, b.drop_last());
        assert((z + b).drop_last() =~= z + b.drop_last());
    }
}

/// Zero-padded decimal text, encoded in UTF-8, is read back by `str::parse::<u32>` as
/// its number.
pub proof fn lemma_parse_zero_padded(n: nat, width: nat)
    requires
        n <= u32::MAX,
    ensures
        vstd::utf8::encode_utf8(zero_padded(n, width)) == ascii_bytes(zero_padded(n, width)),
        parse_u32_spec(ascii_bytes(zero_padded(n, width))) == Some(n as u32),
{
    lemma_zero_padded_digits(n, width);
    let t = zero_padded(n, width);
    assert(vstd::utf8::is_ascii_chars(t)) by {
        assert forall|i: int| 0 <= i < t.len() implies '\0' <= #[trigger] t[i] <= '\u{7f}' by {
            assert(is_digit_char(t[i]));
        }
    }
    vstd::utf8::is_ascii_chars_encode_utf8(t);
    assert(vstd::utf8::encode_utf8(t) =~= ascii_bytes(t));
    lemma_digits_value_of_decimal(n);
    let ds = decimal(n);
    let b = ascii_bytes(t);
    if ds.len() < width {
        let z = zeros((width - ds.len()) as nat);
        lemma_digits_value_zeros((width - ds.len()) as nat);
        assert(b =~= ascii_bytes(z) + ascii_bytes(ds));
        lemma_digits_value_leading_zeros(ascii_bytes(z), ascii_bytes(ds));
    }
    assert(is_digit_char(t[0]));
    assert forall|i: int| 0 <= i < b.len() implies is_digit_byte(#[trigger] b[i]) by {
        assert(is_digit_char(t[i]));
    }
}

/// Parses the bytes `b[start..end]` as `str::parse::<u32>` does.
pub fn parse_u32(b: &[u8], start: usize, end: usize) -> (r: Option<u32>)
    requires
        start <= end <= b@.len(),
    ensures
        r == parse_u32_spec(b@.subrange(start as int, end as int)),
{
    let ghost s = b@.subrange(start as int, end as int);
    let mut i = start;
    if i < end && b[i] == 43 {
        i = i + 1;
    }
    let ghost digits = b@.subrange(i as int, end as int);
    assert(digits =~= (if s.len() > 0 && s[0] == 43 { s.drop_first() } else { s }));
    if i == end {
        return None;
    }
    let first = i;
    let mut acc: u32 = 0;
    while i < end
        invariant
            first <= i <= end <= b@.len(),
            first < end,
            s == b@.subrange(start as int, end as int),
            digits == b@.subrange(first as int, end as int),
            digits =~= (if s.len() > 0 && s[0] == 43 { s.drop_first() } else { s }),
            all_digit_bytes(b@.subrange(first as int, i as int)),
            acc as nat == digits_value(b@.subrange(first as int, i as int)),
        decreases end - i,
    {
        let c = b[i];
        assert(b@.subrange(first as int, i + 1).drop_last() =~= b@.subrange(first as int, i as int));
        if c < 48 || c > 57 {
            assert(digits[i - first] == c);
            assert(!is_digit_byte(digits[i - first]));
            return None;
        }
        let d = (c - 48) as u32;
        if acc > 429496729 || (acc == 429496729 && d > 5) {
            proof {
                assert(all_digit_bytes(b@.subrange(first as int, i + 1)));
                assert(digits_value(b@.subrange(first as int, i + 1))
                    == acc as nat * 10 + (c - 48) as nat);
                assert(digits_value(b@.subrange(first as int, i + 1)) > u32::MAX);
                if all_digit_bytes(digits) {
                    assert(digits.subrange(0, i + 1 - first) =~= b@.subrange(first as int, i + 1));
                    lemma_digits_value_grows(digits, i + 1 - first);
                }
            }
            return None;
        }
        acc = acc * 10 + d;
        i = i + 1;
    }
    assert(b@.subrange(first as int, i as int) =~= digits);
    Some(acc)
}


// ---------------------------------------------------------------------------
// Characters of a string
// ---------------------------------------------------------------------------

/// The characters of `s`, in order.
pub fn chars_of(s: &str) -> (r: Vec<char>)
    ensures
        r@ == s@,
{
    let n = s.unicode_len();
    let mut r: Vec<char> = Vec::new();
    let mut i: usize = 0;
    while i < n
        invariant
            n == s@.len(),
            i <= n,
            r@ == s@.subrange(0, i as int),
        decreases n - i,
    {
        let c = s.get_char(i);
        r.push(c);
        i = i + 1;
        assert(r@ =~= s@.subrange(0, i as int));
    }
    assert(r@ =~= s@);
    r
}

/// An owned copy of the characters `s[from..to]`.
pub fn substring(s: &str, from: usize, to: usize) -> (r: String)
    requires
        from <= to <= s@.len(),
    ensures
        r@ == s@.subrange(from as int, to as int),
{
    s.substring_char(from, to).to_owned()
}

/// Whether two strings hold the same characters.
pub fn same_text(a: &str, b: &str) -> (r: bool)
    ensures
        r == (a@ == b@),
{
    a.to_owned() == b.to_owned()
}

// ---------------------------------------------------------------------------
// Searching
// ---------------------------------------------------------------------------

/// Index of the first `c` in `s` at or after `from`, or `s.len()` when there is none.
pub open spec fn index_of_from(s: Seq<char>, c: char, from: int) -> int
    decreases s.len() - from,
{
    if from >= s.len() {
        s.len() as int
    } else if s[from] == c {
        from
    } else {
        index_of_from(s, c, from + 1)
    }
}

pub proof fn lemma_index_of_from(s: Seq<char>, c: char, from: int)
    requires
        0 <= from <= s.len(),
    ensures
        from <= index_of_from(s, c, from) <= s.len(),
        forall|k: int| from <= k < index_of_from(s, c, from) ==> s[k] != c,
        index_of_from(s, c, from) < s.len() ==> s[index_of_from(s, c, from)] == c,
    decreases s.len() - from,
{
    if from < s.len() && s[from] != c {
        lemma_index_of_from(s, c, from + 1);
    }
}

/// Position of the first `c` in `v` at or after `from`, or `v.len()`.
pub fn find_char(v: &Vec<char>, c: char, from: usize) -> (r: usize)
    requires
        from <= v@.len(),
    ensures
        r == index_of_from(v@, c, from as int),
{
    let mut i = from;
    while i < v.len()
        invariant
            from <= i <= v@.len(),
            index_of_from(v@, c, from as int) == index_of_from(v@, c, i as int),
        decreases v@.len() - i,
    {
        if v[i] == c {
            return i;
        }
        i = i + 1;
    }
    i
}

/// Whether `t` starts with `p`.
pub open spec fn has_prefix(t: Seq<char>, p: Seq<char>) -> bool {
    p.len() <= t.len() && t.subrange(0, p.len() as int) == p
}

/// Whether `p` occurs in `t` from position `at`.
pub open spec fn occurs_at(t: Seq<char>, p: Seq<char>, at: int) -> bool {
    0 <= at && at + p.len() <= t.len() && t.subrange(at, at + p.len()) == p
}

/// Whether `p` occurs somewhere in `t`, as `str::contains` answers.
pub open spec fn contains_text(t: Seq<char>, p: Seq<char>) -> bool {
    exists|at: int| occurs_at(t, p, at)
}

/// Whether `t` holds `p` from position `at`.
pub fn matches_at(t: &Vec<char>, p: &Vec<char>, at: usize) -> (r: bool)
    ensures
        r == occurs_at(t@, p@, at as int),
{
    if at > t.len() || p.len() > t.len() - at {
        return false;
    }
    let mut k: usize = 0;
    while k < p.len()
        invariant
            at + p@.len() <= t@.len(),
            t@.len() <= usize::MAX,
            k <= p@.len(),
            forall|j: int| 0 <= j < k ==> t@[at + j] == p@[j],
        decreases p@.len() - k,
    {
        if t[at + k] != p[k] {
            assert(t@.subrange(at as int, at + p@.len())[k as int] != p@[k as int]);
            return false;
        }
        k = k + 1;
    }
    assert(t@.subrange(at as int, at + p@.len()) =~= p@);
    true
}

/// Whether `p` occurs in `t`.
pub fn contains(t: &str, p: &str) -> (r: bool)
    ensures
        r == contains_text(t@, p@),
{
    let tv = chars_of(t);
    let pv = chars_of(p);
    let mut at: usize = 0;
    while at < tv.len()
        invariant
            tv@ == t@,
            pv@ == p@,
            at <= tv@.len(),
            forall|j: int| 0 <= j < at ==> !occurs_at(t@, p@, j),
        decreases tv@.len() - at,
    {
        if matches_at(&tv, &pv, at) {
            return true;
        }
        at = at + 1;
    }
    if matches_at(&tv, &pv, at) {
        return true;
    }
    assert forall|j: int| !occurs_at(t@, p@, j) by {
        if 0 <= j < at {
        }
    }
    false
}

/// Whether `t` starts with `p`.
pub fn starts_with(t: &str, p: &str) -> (r: bool)
    ensures
        r == has_prefix(t@, p@),
{
    let tv = chars_of(t);
    let pv = chars_of(p);
    matches_at(&tv, &pv, 0)
}

// ---------------------------------------------------------------------------
// Splitting
// ---------------------------------------------------------------------------

/// The pieces of `s[from..]` between occurrences of `c`, as `str::split` yields them.
pub open spec fn split_from(s: Seq<char>, c: char, from: int) -> Seq<Seq<char>>
    decreases s.len() - from,
{
    if from < 0 || from > s.len() {
        seq![]
    } else {
        let i = index_of_from(s, c, from);
        if i >= s.len() {
            seq![s.subrange(from, s.len() as int)]
        } else {
            proof {
                lemma_index_of_from(s, c, from);
            }
            seq![s.subrange(from, i)] + split_from(s, c, i + 1)
        }
    }
}

/// `s.split(c)`: the pieces of `s` between occurrences of `c`; there is always one.
pub open spec fn split_on(s: Seq<char>, c: char) -> Seq<Seq<char>> {
    split_from(s, c, 0)
}

/// The pieces of `s` between occurrences of `c`, in order.
pub fn split(s: &str, c: char) -> (r: Vec<String>)
    ensures
        r@.map_values(|p: String| p@) == split_on(s@, c),
{
    let v = chars_of(s);
    let mut parts: Vec<String> = Vec::new();
    let mut start: usize = 0;
    loop
        invariant
            v@ == s@,
            start <= v@.len(),
            split_on(s@, c) == parts@.map_values(|p: String| p@) + split_from(s@, c, start as int),
        decreases v@.len() - start,
    {
        let i = find_char(&v, c, start);
        proof {
            lemma_index_of_from(s@, c, start as int);
        }
        let piece = substring(s, start, i);
        let ghost before = parts@.map_values(|p: String| p@);
        parts.push(piece);
        assert(parts@.map_values(|p: String| p@) =~= before.push(piece@));
        if i == v.len() {
            assert(split_from(s@, c, start as int) =~= seq![piece@]);
            assert(split_on(s@, c) =~= parts@.map_values(|p: String| p@));
            return parts;
        }
        assert(split_from(s@, c, start as int) =~= seq![piece@] + split_from(s@, c, i + 1));
        start = i + 1;
    }
}


// ---------------------------------------------------------------------------
// Whitespace and words
// ---------------------------------------------------------------------------

/// The characters with the Unicode `White_Space` property.
pub open spec fn is_white_space(c: char) -> bool {
    let v = c as int;
    ||| 9 <= v <= 13
    ||| v == 32
    ||| v == 133
    ||| v == 160
    ||| v == 5760
    ||| 8192 <= v <= 8202
    ||| v == 8232
    ||| v == 8233
    ||| v == 8239
    ||| v == 8287
    ||| v == 12288
}

/// Whether `c` has the Unicode `White_Space` property, as `char::is_whitespace` tells.
pub(crate) fn char_is_whitespace(c: char) -> (r: bool)
    ensures
        r == is_white_space(c),
{
    let v = c as u32;
    (9 <= v && v <= 13) || v == 32 || v == 133 || v == 160 || v == 5760 || (8192 <= v && v <= 8202)
        || v == 8232 || v == 8233 || v == 8239 || v == 8287 || v == 12288
}

/// Index of the first whitespace character of `s` at or after `from`, or `s.len()`.
pub open spec fn word_end(s: Seq<char>, from: int) -> int
    decreases s.len() - from,
{
    if from >= s.len() {
        s.len() as int
    } else if is_white_space(s[from]) {
        from
    } else {
        word_end(s, from + 1)
    }
}

pub proof fn lemma_word_end(s: Seq<char>, from: int)
    requires
        0 <= from <= s.len(),
    ensures
        from <= word_end(s, from) <= s.len(),
        from < s.len() && !is_white_space(s[from]) ==> from < word_end(s, from),
    decreases s.len() - from,
{
    if from < s.len() && !is_white_space(s[from]) {
        lemma_word_end(s, from + 1);
    }
}

/// The maximal runs of non-whitespace characters of `s[from..]`, as
/// `str::split_whitespace` yields them.
pub open spec fn words_from(s: Seq<char>, from: int) -> Seq<Seq<char>>
    decreases s.len() - from,
{
    if from < 0 || from >= s.len() {
        seq![]
    } else if is_white_space(s[from]) {
        words_from(s, from + 1)
    } else {
        let e = word_end(s, from);
        proof {
            lemma_word_end(s, from);
        }
        seq![s.subrange(from, e)] + words_from(s, e)
    }
}

/// `s.split_whitespace()`.
pub open spec fn words(s: Seq<char>) -> Seq<Seq<char>> {
    words_from(s, 0)
}

/// The words of `s`: its maximal runs of non-whitespace characters.
pub fn split_whitespace(s: &str) -> (r: Vec<String>)
    ensures
        r@.map_values(|p: String| p@) == words(s@),
{
    let v = chars_of(s);
    let mut parts: Vec<String> = Vec::new();
    let mut i: usize = 0;
    while i < v.len()
        invariant
            v@ == s@,
            i <= v@.len(),
            words(s@) == parts@.map_values(|p: String| p@) + words_from(s@, i as int),
        decreases v@.len() - i,
    {
        if char_is_whitespace(v[i]) {
            i = i + 1;
        } else {
            let mut j = i;
            while j < v.len() && !char_is_whitespace(v[j])
                invariant
                    v@ == s@,
                    i <= j <= v@.len(),
                    word_end(s@, i as int) == word_end(s@, j as int),
                decreases v@.len() - j,
            {
                j = j + 1;
            }
            proof {
                lemma_word_end(s@, i as int);
            }
            let piece = substring(s, i, j);
            let ghost before = parts@.map_values(|p: String| p@);
            parts.push(piece);
            assert(parts@.map_values(|p: String| p@) =~= before.push(piece@));
            assert(words_from(s@, i as int) =~= seq![piece@] + words_from(s@, j as int));
            i = j;
        }
    }
    assert(words_from(s@, i as int) =~= Seq::<Seq<char>>::empty());
    assert(words(s@) =~= parts@.map_values(|p: String| p@));
    parts
}

proof fn lemma_word_end_shift(s: Seq<char>, k: int, from: int)
    requires
        0 <= k <= s.len(),
        0 <= from,
    ensures
        word_end(s, k + from) == k + word_end(s.subrange(k, s.len() as int), from),
    decreases s.len() - k - from,
{
    if k + from < s.len() && !is_white_space(s[k + from]) {
        lemma_word_end_shift(s, k, from + 1);
    }
}

/// Words of a suffix: `words_from` counts positions in the whole text.
pub proof fn lemma_words_shift(s: Seq<char>, k: int, from: int)
    requires
        0 <= k <= s.len(),
        0 <= from,
    ensures
        words_from(s, k + from) == words_from(s.subrange(k, s.len() as int), from),
    decreases s.len() - k - from,
{
    let t = s.subrange(k, s.len() as int);
    if k + from < s.len() {
        if is_white_space(s[k + from]) {
            lemma_words_shift(s, k, from + 1);
        } else {
            lemma_word_end_shift(s, k, from);
            lemma_word_end(s, k + from);
            lemma_word_end(t, from);
            let e = word_end(t, from);
            lemma_words_shift(s, k, e);
            assert(s.subrange(k + from, k + e) =~= t.subrange(from, e));
        }
    }
}

pub open spec fn no_white_space(a: Seq<char>) -> bool {
    forall|i: int| 0 <= i < a.len() ==> !is_white_space(#[trigger] a[i])
}

/// A word followed by whitespace or by nothing is the first word of the text.
pub proof fn lemma_words_word_then(a: Seq<char>, rest: Seq<char>)
    requires
        a.len() > 0,
        no_white_space(a),
        rest.len() == 0 || is_white_space(rest[0]),
    ensures
        words(a + rest) == seq![a] + words(rest),
{
    let s = a + rest;
    assert forall|j: int| 0 <= j <= a.len() implies word_end(s, j) == a.len() by {
        lemma_word_end_upto(s, j, a.len() as int);
    }
    lemma_words_shift(s, a.len() as int, 0);
    assert(s.subrange(a.len() as int, s.len() as int) =~= rest);
    assert(s.subrange(0, a.len() as int) =~= a);
}

proof fn lemma_word_end_upto(s: Seq<char>, j: int, e: int)
    requires
        0 <= j <= e <= s.len(),
        forall|i: int| j <= i < e ==> !is_white_space(#[trigger] s[i]),
        e == s.len() || is_white_space(s[e]),
    ensures
        word_end(s, j) == e,
    decreases e - j,
{
    if j < e {
        lemma_word_end_upto(s, j + 1, e);
    }
}

/// Whitespace in front of a text adds no word.
pub proof fn lemma_words_skip_space(c: char, rest: Seq<char>)
    requires
        is_white_space(c),
    ensures
        words(seq![c] + rest) == words(rest),
{
    let s = seq![c] + rest;
    lemma_words_shift(s, 1, 0);
    assert(s.subrange(1, s.len() as int) =~= rest);
}

/// A text without whitespace is one word, or none when it is empty.
pub proof fn lemma_words_single(a: Seq<char>)
    requires
        a.len() > 0,
        no_white_space(a),
    ensures
        words(a) == seq![a],
{
    lemma_words_word_then(a, Seq::empty());
    assert(a + Seq::<char>::empty() =~= a);
    assert(words(Seq::<char>::empty()) =~= Seq::<Seq<char>>::empty());
    assert(seq![a] + Seq::<Seq<char>>::empty() =~= seq![a]);
}

// ---------------------------------------------------------------------------
// Replacing
// ---------------------------------------------------------------------------

/// Text in which `p` does not occur from `from` on is left as it is.
pub proof fn lemma_replace_without_occurrence(s: Seq<char>, p: Seq<char>, t: Seq<char>, from: int)
    requires
        p.len() > 0,
        0 <= from <= s.len(),
        forall|i: int| from <= i ==> !occurs_at(s, p, i),
    ensures
        replace_from(s, p, t, from) == s.subrange(from, s.len() as int),
    decreases s.len() - from,
{
    if from < s.len() {
        lemma_replace_without_occurrence(s, p, t, from + 1);
        assert(seq![s[from]] + s.subrange(from + 1, s.len() as int) =~= s.subrange(from, s.len() as int));
    }
}

/// `s[from..]` with every occurrence of `p`, found from the left without overlap,
/// replaced by `t`, as `str::replace` does.
pub open spec fn replace_from(s: Seq<char>, p: Seq<char>, t: Seq<char>, from: int) -> Seq<char>
    decreases s.len() - from,
{
    if from < 0 || from >= s.len() || p.len() == 0 {
        s.subrange(from, s.len() as int)
    } else if occurs_at(s, p, from) {
        t + replace_from(s, p, t, from + p.len())
    } else {
        seq![s[from]] + replace_from(s, p, t, from + 1)
    }
}

/// `s.replace(p, t)` for a non-empty pattern `p`.
pub open spec fn replace_all(s: Seq<char>, p: Seq<char>, t: Seq<char>) -> Seq<char> {
    replace_from(s, p, t, 0)
}

/// `s` with every occurrence of `p` (searched from the left, without overlap) replaced by `t`.
pub fn replace(s: &str, p: &str, t: &str) -> (r: String)
    requires
        p@.len() > 0,
    ensures
        r@ == replace_all(s@, p@, t@),
{
    let v = chars_of(s);
    let pv = chars_of(p);
    let mut out = String::new();
    let mut i: usize = 0;
    while i < v.len()
        invariant
            v@ == s@,
            pv@ == p@,
            p@.len() > 0,
            i <= v@.len(),
            replace_all(s@, p@, t@) == out@ + replace_from(s@, p@, t@, i as int),
        decreases v@.len() - i,
    {
        if matches_at(&v, &pv, i) {
            out.append(t);
            i = i + pv.len();
        } else {
            out.append(s.substring_char(i, i + 1));
            assert(s@.subrange(i as int, i + 1) =~= seq![s@[i as int]]);
            i = i + 1;
        }
    }
    assert(replace_from(s@, p@, t@, i as int) =~= Seq::<char>::empty());
    assert(out@ =~= out@ + Seq::<char>::empty());
    out
}

// ---------------------------------------------------------------------------
// Letter case
// ---------------------------------------------------------------------------

pub open spec fn is_ascii_char(c: char) -> bool {
    (c as int) < 128
}

pub open spec fn all_ascii(s: Seq<char>) -> bool {
    forall|i: int| 0 <= i < s.len() ==> is_ascii_char(#[trigger] s[i])
}

pub open spec fn is_ascii_upper(c: char) -> bool {
    65 <= (c as int) <= 90
}

pub open spec fn is_ascii_letter(c: char) -> bool {
    65 <= (c as int) <= 90 || 97 <= (c as int) <= 122
}

/// `c` with an ASCII capital letter made small.
pub open spec fn ascii_lower_char(c: char) -> char {
    if is_ascii_upper(c) {
        ((c as int + 32) as u32) as char
    } else {
        c
    }
}

/// `s` with its ASCII capital letters made small.
pub open spec fn ascii_lower(s: Seq<char>) -> Seq<char> {
    s.map_values(|c: char| ascii_lower_char(c))
}

/// Whether `a` and `b` are equal when ASCII letter case is ignored, as
/// `str::eq_ignore_ascii_case` answers.
pub open spec fn eq_ignore_ascii_case(a: Seq<char>, b: Seq<char>) -> bool {
    ascii_lower(a) == ascii_lower(b)
}

/// `s` with its ASCII capital letters made small.
pub fn ascii_lowercase_chars(s: &str) -> (r: Vec<char>)
    ensures
        r@ == ascii_lower(s@),
{
    let v = chars_of(s);
    let mut r: Vec<char> = Vec::new();
    let mut i: usize = 0;
    while i < v.len()
        invariant
            v@ == s@,
            i <= v@.len(),
            r@ =~= ascii_lower(s@.subrange(0, i as int)),
        decreases v@.len() - i,
    {
        let c = v[i];
        let lc = if 'A' <= c && c <= 'Z' {
            ((c as u8) + 32) as char
        } else {
            c
        };
        r.push(lc);
        i = i + 1;
        assert(ascii_lower(s@.subrange(0, i as int)) =~= ascii_lower(s@.subrange(0, i - 1)).push(
            ascii_lower_char(c),
        ));
    }
    assert(s@.subrange(0, i as int) =~= s@);
    r
}

/// Whether `a` and `b` are equal when ASCII letter case is ignored.
pub fn text_eq_ignore_ascii_case(a: &str, b: &str) -> (r: bool)
    ensures
        r == eq_ignore_ascii_case(a@, b@),
{
    let la = ascii_lowercase_chars(a);
    let lb = ascii_lowercase_chars(b);
    if la.len() != lb.len() {
        assert(la@.len() != lb@.len());
        return false;
    }
    let mut i: usize = 0;
    while i < la.len()
        invariant
            la@ == ascii_lower(a@),
            lb@ == ascii_lower(b@),
            la@.len() == lb@.len(),
            i <= la@.len(),
            forall|j: int| 0 <= j < i ==> la@[j] == lb@[j],
        decreases la@.len() - i,
    {
        if la[i] != lb[i] {
            return false;
        }
        i = i + 1;
    }
    assert(la@ =~= lb@);
    true
}

/// What `str::to_lowercase` gives: the Unicode lowercase mapping of each character.
pub uninterp spec fn unicode_lowercase(s: Seq<char>) -> Seq<char>;

/// `str::to_lowercase`. Its result is named by `unicode_lowercase`; on ASCII text it
/// maps the capital letters `A`..`Z` to `a`..`z` and keeps every other character,
/// as its documentation states. Nothing is said here of the other characters.
#[verifier::external_body]
pub(crate) fn to_lowercase(s: &str) -> (r: String)
    ensures
        r@ == unicode_lowercase(s@),
        all_ascii(s@) ==> r@ == ascii_lower(s@),
{
    s.to_lowercase()
}

} // verus!
