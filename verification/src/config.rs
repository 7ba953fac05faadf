//! Configuration of the gateway: parsing of the string-form inputs and the
//! allow-list policy queries.

use vstd::prelude::*;
use vstd::string::*;

verus! {

/// Default payload size limit (10 kilobytes)
pub const DEFAULT_PAYLOAD_LIMIT_BYTES: u32 = 10 * 1024;

/// Default maximum number of app connections that the gateway will maintain concurrently.
pub const DEFAULT_MAX_APP_CONNECTIONS: u32 = 50;

/// Default timeout for zome calls, in milliseconds.
pub const DEFAULT_ZOME_CALL_TIMEOUT_MS: u64 = 10 * 1000;

/// Errors when parsing config arguments.
#[derive(Debug, Clone)]
pub enum ConfigParseError {
    /// A numeric field did not parse as an integer; carries the offending input.
    IntParseError(String),
    /// Other parsing error.
    Other(String),
}

/// Result of parsing config arguments.
pub type ConfigParseResult<T> = Result<T, ConfigParseError>;

/// Whether a character is a decimal digit.
pub open spec fn is_digit(c: char) -> bool {
    48 <= c as int && c as int <= 57
}

/// The numeric value of a decimal digit character.
pub open spec fn digit_val(c: char) -> int {
    c as int - 48
}

/// Whether every character of the sequence is a decimal digit.
pub open spec fn all_digits(s: Seq<char>) -> bool {
    forall|i: int| 0 <= i < s.len() ==> is_digit(#[trigger] s[i])
}

/// The numeric value of a sequence of decimal digits.
pub open spec fn digits_val(s: Seq<char>) -> int
    decreases s.len(),
{
    if s.len() == 0 {
        0
    } else {
        digits_val(s.drop_last()) * 10 + digit_val(s.last())
    }
}

/// The digit part of an integer literal: everything after an optional leading
/// plus sign.
pub open spec fn int_digits(s: Seq<char>) -> Seq<char> {
    if s.len() > 0 && s[0] == '+' {
        s.skip(1)
    } else {
        s
    }
}

/// Whether a string parses as an unsigned integer no greater than `max`:
/// an optional plus sign, then at least one digit, with a value in range.
pub open spec fn uint_str_ok(s: Seq<char>, max: int) -> bool {
    let d = int_digits(s);
    d.len() > 0 && all_digits(d) && digits_val(d) <= max
}

/// The value of a string that parses as an unsigned integer.
pub open spec fn uint_str_val(s: Seq<char>) -> int {
    digits_val(int_digits(s))
}

proof fn lemma_digits_val_nonneg(s: Seq<char>)
    requires
        all_digits(s),
    ensures
        digits_val(s) >= 0,
    decreases s.len(),
{
    if s.len() > 0 {
        assert(all_digits(s.drop_last())) by {
            assert(forall|i: int|
                0 <= i < s.drop_last().len() ==> s.drop_last()[i] == #[trigger] s[i]);
        }
        lemma_digits_val_nonneg(s.drop_last());
    }
}

/// Appending digits to a digit string never decreases its value.
proof fn lemma_digits_val_extend(s: Seq<char>, i: int)
    requires
        all_digits(s),
        0 <= i <= s.len(),
    ensures
        digits_val(s.take(i)) <= digits_val(s),
    decreases s.len() - i,
{
    if i < s.len() {
        let t = s.take(i + 1);
        assert(all_digits(t)) by {
            assert(forall|k: int| 0 <= k < t.len() ==> t[k] == #[trigger] s[k]);
        }
        assert(t.drop_last() =~= s.take(i));
        assert(all_digits(s.take(i))) by {
            assert(forall|k: int|
                0 <= k < s.take(i).len() ==> s.take(i)[k] == #[trigger] s[k]);
        }
        lemma_digits_val_nonneg(s.take(i));
        assert(digits_val(t) == digits_val(s.take(i)) * 10 + digit_val(t.last()));
        assert(digits_val(s.take(i)) * 10 >= digits_val(s.take(i)));
        assert(digit_val(t.last()) >= 0);
        lemma_digits_val_extend(s, i + 1);
    } else {
        assert(s.take(i) =~= s);
    }
}

proof fn lemma_mul10_le(v: int, m: int, d: int)
    requires
        0 <= d <= m,
        0 <= v <= (m - d) / 10,
    ensures
        v * 10 + d <= m,
{
    assert(v * 10 <= ((m - d) / 10) * 10) by (nonlinear_arith)
        requires
            0 <= v <= (m - d) / 10,
    ;
    assert(((m - d) / 10) * 10 <= m - d) by (nonlinear_arith)
        requires
            m - d >= 0,
    ;
}

proof fn lemma_mul10_gt(v: int, m: int, d: int)
    requires
        0 <= d,
        d <= m,
        v > (m - d) / 10,
    ensures
        v * 10 + d > m,
{
    assert(v * 10 >= ((m - d) / 10) * 10 + 10) by (nonlinear_arith)
        requires
            v > (m - d) / 10,
    ;
    assert(((m - d) / 10) * 10 + 10 > m - d) by (nonlinear_arith)
        requires
            m - d >= 0,
    ;
}

/// Parse a string as a `u64`: an optional leading plus sign followed by at
/// least one decimal digit, rejecting values that overflow.
pub fn parse_u64_str(s: &str) -> (r: Result<u64, ConfigParseError>)
    ensures
        r is Ok <==> uint_str_ok(s@, u64::MAX as int),
        r matches Ok(v) ==> v as int == uint_str_val(s@),
        r matches Err(e) ==> e matches ConfigParseError::IntParseError(m) && m@ == s@,
{
    let len = s.unicode_len();
    let start: usize = if len > 0 && s.get_char(0) == '+' {
        1
    } else {
        0
    };
    let ghost digits = int_digits(s@);
    proof {
        assert(digits =~= s@.skip(start as int));
    }
    if start == len {
        return Err(ConfigParseError::IntParseError(s.to_owned()));
    }
    let mut v: u64 = 0;
    let mut i: usize = start;
    while i < len
        invariant
            len == s@.len(),
            start <= i <= len,
            start < len,
            digits == s@.skip(start as int),
            digits == int_digits(s@),
            all_digits(digits.take(i - start)),
            v as int == digits_val(digits.take(i - start)),
        decreases len - i,
    {
        let c = s.get_char(i);
        let u = c as u32;
        if u < 48 || u > 57 {
            proof {
                assert(digits[i - start] == s@[i as int]);
                assert(!is_digit(digits[i - start]));
                if all_digits(digits) {
                    assert(is_digit(digits[i - start]));
                }
                assert(!uint_str_ok(s@, u64::MAX as int));
            }
            return Err(ConfigParseError::IntParseError(s.to_owned()));
        }
        let d: u64 = (u - 48) as u64;
        if v > (u64::MAX - d) / 10 {
            proof {
                let t = digits.take(i - start + 1);
                assert(t.drop_last() =~= digits.take(i - start));
                assert(t.last() == digits[i - start]);
                assert(digits[i - start] == s@[i as int]);
                lemma_mul10_gt(v as int, u64::MAX as int, d as int);
                assert(digits_val(t) > u64::MAX as int);
                if all_digits(digits) {
                    lemma_digits_val_extend(digits, i - start + 1);
                    assert(digits_val(digits) > u64::MAX as int);
                }
                assert(!uint_str_ok(s@, u64::MAX as int));
            }
            return Err(ConfigParseError::IntParseError(s.to_owned()));
        }
        proof {
            lemma_mul10_le(v as int, u64::MAX as int, d as int);
            let t = digits.take(i - start + 1);
            assert(t.drop_last() =~= digits.take(i - start));
            assert(t.last() == digits[i - start]);
            assert(digits[i - start] == s@[i as int]);
            assert(all_digits(t)) by {
                assert(forall|k: int|
                    0 <= k < t.len() ==> t[k] == #[trigger] digits.take(i - start + 1)[k]);
            }
        }
        v = v * 10 + d;
        i = i + 1;
    }
    proof {
        assert(digits.take(len - start) =~= digits);
    }
    Ok(v)
}

/// Parse a string as a `u32` in the same format as [`parse_u64_str`].
pub fn parse_u32_str(s: &str) -> (r: Result<u32, ConfigParseError>)
    ensures
        r is Ok <==> uint_str_ok(s@, u32::MAX as int),
        r matches Ok(v) ==> v as int == uint_str_val(s@),
        r matches Err(e) ==> e matches ConfigParseError::IntParseError(m) && m@ == s@,
{
    match parse_u64_str(s) {
        Ok(v) => {
            if v <= u32::MAX as u64 {
                Ok(v as u32)
            } else {
                Err(ConfigParseError::IntParseError(s.to_owned()))
            }
        },
        Err(e) => Err(e),
    }
}

/// Whether a character counts as trimmable whitespace: the characters with
/// the Unicode white-space property, the set that `char::is_whitespace`
/// matches.
pub open spec fn is_space_char(c: char) -> bool {
    (9 <= c as int && c as int <= 13) || c == ' ' || c == '\u{85}' || c == '\u{a0}' || c
        == '\u{1680}' || (0x2000 <= c as int && c as int <= 0x200a) || c == '\u{2028}' || c
        == '\u{2029}' || c == '\u{202f}' || c == '\u{205f}' || c == '\u{3000}'
}

/// The sequence with leading and trailing whitespace removed.
pub open spec fn trim_spec(s: Seq<char>) -> Seq<char>
    decreases s.len(),
{
    if s.len() > 0 && is_space_char(s[0]) {
        trim_spec(s.skip(1))
    } else if s.len() > 0 && is_space_char(s.last()) {
        trim_spec(s.drop_last())
    } else {
        s
    }
}

/// The index of the first occurrence of `c`, or the length of the sequence if
/// `c` does not occur.
pub open spec fn first_at(s: Seq<char>, c: char) -> int
    decreases s.len(),
{
    if s.len() == 0 {
        0
    } else if s[0] == c {
        0
    } else {
        1 + first_at(s.skip(1), c)
    }
}

proof fn lemma_first_at_is(s: Seq<char>, c: char, i: int)
    requires
        0 <= i <= s.len(),
        forall|k: int| 0 <= k < i ==> s[k] != c,
        i == s.len() || s[i] == c,
    ensures
        first_at(s, c) == i,
    decreases s.len(),
{
    if s.len() == 0 {
    } else if i == 0 {
    } else {
        assert(s[0] != c);
        lemma_first_at_is(s.skip(1), c, i - 1);
    }
}

/// The segments of a sequence split at every occurrence of `c`. An input
/// without any `c` yields one segment; each separator begins a new one.
pub open spec fn split_at_char(s: Seq<char>, c: char) -> Seq<Seq<char>>
    decreases s.len(),
{
    let i = first_at(s, c);
    if 0 <= i < s.len() {
        seq![s.take(i)] + split_at_char(s.skip(i + 1), c)
    } else {
        seq![s]
    }
}

/// Whether a character counts as trimmable whitespace.
pub fn is_space(c: char) -> (r: bool)
    ensures
        r == is_space_char(c),
{
    let u = c as u32;
    (9 <= u && u <= 13) || u == 32 || u == 0x85 || u == 0xa0 || u == 0x1680 || (0x2000 <= u && u
        <= 0x200a) || u == 0x2028 || u == 0x2029 || u == 0x202f || u == 0x205f || u == 0x3000
}

/// Remove leading and trailing whitespace.
pub fn trim_str(s: &str) -> (r: &str)
    ensures
        r@ == trim_spec(s@),
{
    let len = s.unicode_len();
    let mut a: usize = 0;
    proof {
        assert(s@.skip(0) =~= s@);
    }
    while a < len && is_space(s.get_char(a))
        invariant
            len == s@.len(),
            0 <= a <= len,
            trim_spec(s@) == trim_spec(s@.skip(a as int)),
        decreases len - a,
    {
        proof {
            assert(s@.skip(a as int)[0] == s@[a as int]);
            assert(s@.skip(a as int).skip(1) =~= s@.skip(a + 1 as int));
        }
        a = a + 1;
    }
    let mut b: usize = len;
    proof {
        assert(s@.subrange(a as int, len as int) =~= s@.skip(a as int));
    }
    while b > a && is_space(s.get_char(b - 1))
        invariant
            len == s@.len(),
            0 <= a <= b <= len,
            a == len || !is_space_char(s@[a as int]),
            trim_spec(s@) == trim_spec(s@.subrange(a as int, b as int)),
        decreases b,
    {
        proof {
            let t = s@.subrange(a as int, b as int);
            assert(t[0] == s@[a as int]);
            assert(t.last() == s@[b - 1 as int]);
            assert(t.drop_last() =~= s@.subrange(a as int, b - 1 as int));
        }
        b = b - 1;
    }
    proof {
        let t = s@.subrange(a as int, b as int);
        if t.len() > 0 {
            assert(t[0] == s@[a as int]);
            assert(t.last() == s@[b - 1 as int]);
        }
        assert(trim_spec(t) == t);
    }
    s.substring_char(a, b)
}

/// Whether two string slices hold the same characters.
pub fn str_eq(a: &str, b: &str) -> (r: bool)
    ensures
        r == (a@ == b@),
{
    let alen = a.unicode_len();
    let blen = b.unicode_len();
    if alen != blen {
        return false;
    }
    let mut i: usize = 0;
    while i < alen
        invariant
            alen == a@.len(),
            alen == b@.len(),
            0 <= i <= alen,
            forall|k: int| 0 <= k < i ==> a@[k] == b@[k],
        decreases alen - i,
    {
        if a.get_char(i) != b.get_char(i) {
            return false;
        }
        i = i + 1;
    }
    proof {
        assert(a@ =~= b@);
    }
    true
}

/// The views of a sequence of strings.
pub open spec fn views_of(v: Seq<String>) -> Seq<Seq<char>> {
    v.map_values(|x: String| x@)
}

/// Lexicographic order on character sequences, by code point, with a proper
/// prefix ordered first.
pub open spec fn seq_char_lt(a: Seq<char>, b: Seq<char>) -> bool
    decreases a.len() + b.len(),
{
    if b.len() == 0 {
        false
    } else if a.len() == 0 {
        true
    } else if (a[0] as int) < (b[0] as int) {
        true
    } else if (a[0] as int) > (b[0] as int) {
        false
    } else {
        seq_char_lt(a.skip(1), b.skip(1))
    }
}

/// Whether `a` is lexicographically before `b`.
pub fn str_lt(a: &str, b: &str) -> (r: bool)
    ensures
        r == seq_char_lt(a@, b@),
{
    let alen = a.unicode_len();
    let blen = b.unicode_len();
    let mut i: usize = 0;
    proof {
        assert(a@.skip(0) =~= a@);
        assert(b@.skip(0) =~= b@);
    }
    while i < alen && i < blen
        invariant
            alen == a@.len(),
            blen == b@.len(),
            0 <= i <= alen,
            0 <= i <= blen,
            seq_char_lt(a@, b@) == seq_char_lt(a@.skip(i as int), b@.skip(i as int)),
        decreases alen - i,
    {
        let ca = a.get_char(i);
        let cb = b.get_char(i);
        proof {
            assert(a@.skip(i as int)[0] == a@[i as int]);
            assert(b@.skip(i as int)[0] == b@[i as int]);
            assert(a@.skip(i as int).skip(1) =~= a@.skip(i + 1 as int));
            assert(b@.skip(i as int).skip(1) =~= b@.skip(i + 1 as int));
        }
        if (ca as u32) < (cb as u32) {
            return true;
        }
        if (ca as u32) > (cb as u32) {
            return false;
        }
        i = i + 1;
    }
    i == alen && i < blen
}

/// One step of collecting identifiers: a segment is trimmed, and kept unless
/// it is empty or already present.
pub open spec fn collect_id_step(acc: Seq<Seq<char>>, seg: Seq<char>) -> Seq<Seq<char>> {
    let t = trim_spec(seg);
    if t.len() == 0 || acc.contains(t) {
        acc
    } else {
        acc.push(t)
    }
}

/// Collect the trimmed, non-empty, first-occurrence identifiers of a list of
/// segments, in order.
pub open spec fn collect_ids(acc: Seq<Seq<char>>, segs: Seq<Seq<char>>) -> Seq<Seq<char>>
    decreases segs.len(),
{
    if segs.len() == 0 {
        acc
    } else {
        collect_ids(collect_id_step(acc, segs[0]), segs.skip(1))
    }
}

/// The application identifiers denoted by a comma-separated string: each
/// element trimmed, empty elements dropped, duplicates collapsed to their
/// first occurrence.
pub open spec fn allowed_app_ids_of(s: Seq<char>) -> Seq<Seq<char>> {
    collect_ids(Seq::empty(), split_at_char(s, ','))
}

/// Collection of app ids that are permitted to connect to the gateway
#[derive(Debug, Clone)]
pub struct AllowedAppIds(pub Vec<String>);

impl AllowedAppIds {
    /// The identifiers as character sequences, in order.
    pub open spec fn ids(&self) -> Seq<Seq<char>> {
        views_of(self.0@)
    }

    /// Whether the given identifier is in the list.
    pub open spec fn allows(&self, id: Seq<char>) -> bool {
        self.ids().contains(id)
    }

    /// The number of identifiers in the list.
    pub fn len(&self) -> (r: usize)
        ensures
            r == self.ids().len(),
    {
        self.0.len()
    }

    /// Whether the given identifier is in the list.
    pub fn contains(&self, id: &str) -> (r: bool)
        ensures
            r == self.allows(id@),
    {
        let n = self.0.len();
        let mut k: usize = 0;
        while k < n
            invariant
                n == self.0@.len(),
                0 <= k <= n,
                forall|j: int| 0 <= j < k ==> #[trigger] self.0@[j]@ != id@,
            decreases n - k,
        {
            if str_eq(self.0[k].as_str(), id) {
                proof {
                    assert(self.ids()[k as int] == id@);
                }
                return true;
            }
            k = k + 1;
        }
        proof {
            assert(forall|j: int| 0 <= j < self.ids().len() ==> self.ids()[j] == self.0@[j]@);
            if self.ids().contains(id@) {
                let j = choose|j: int| 0 <= j < self.ids().len() && self.ids()[j] == id@;
                assert(self.0@[j]@ == id@);
            }
        }
        false
    }

    /// Parse a comma-separated list of application identifiers: each element
    /// is trimmed, empty elements are dropped, and duplicates are collapsed.
    pub fn from_str(s: &str) -> (r: ConfigParseResult<Self>)
        ensures
            r matches Ok(ids) && ids.ids() == allowed_app_ids_of(s@),
    {
        let len = s.unicode_len();
        let mut result: Vec<String> = Vec::new();
        let mut pos: usize = 0;
        proof {
            assert(s@.skip(0) =~= s@);
            assert(views_of(result@) =~= Seq::<Seq<char>>::empty());
        }
        loop
            invariant_except_break
                allowed_app_ids_of(s@) == collect_ids(
                    views_of(result@),
                    split_at_char(s@.skip(pos as int), ','),
                ),
            invariant
                len == s@.len(),
                0 <= pos <= len,
            ensures
                views_of(result@) == allowed_app_ids_of(s@),
            decreases len + 1 - pos,
        {
            // Find the end of the current segment.
            let mut j: usize = pos;
            while j < len && s.get_char(j) != ','
                invariant
                    len == s@.len(),
                    pos <= j <= len,
                    forall|k: int| pos <= k < j ==> s@[k] != ',',
                decreases len - j,
            {
                j = j + 1;
            }
            let ghost rest = s@.skip(pos as int);
            let ghost acc0 = views_of(result@);
            proof {
                assert(forall|k: int| 0 <= k < j - pos ==> rest[k] == #[trigger] s@[k + pos]);
                assert(j == len || rest[j - pos] == s@[j as int]);
                lemma_first_at_is(rest, ',', j - pos);
            }
            let seg = s.substring_char(pos, j);
            let t = trim_str(seg);
            proof {
                assert(seg@ =~= rest.take(j - pos));
            }
            if t.unicode_len() > 0 {
                let mut seen = false;
                let n = result.len();
                let mut k: usize = 0;
                while k < n
                    invariant
                        n == result@.len(),
                        0 <= k <= n,
                        seen <==> exists|j2: int| 0 <= j2 < k && #[trigger] result@[j2]@ == t@,
                    decreases n - k,
                {
                    if str_eq(result[k].as_str(), t) {
                        seen = true;
                        proof {
                            assert(result@[k as int]@ == t@);
                        }
                        k = n;
                    } else {
                        k = k + 1;
                    }
                }
                proof {
                    assert(seen <==> acc0.contains(t@)) by {
                        if seen {
                            let j2 = choose|j2: int| 0 <= j2 < n && #[trigger] result@[j2]@ == t@;
                            assert(acc0[j2] == t@);
                        }
                        if acc0.contains(t@) {
                            let j2 = choose|j2: int|
                                0 <= j2 < acc0.len() && acc0[j2] == t@;
                            assert(result@[j2]@ == t@);
                        }
                    }
                }
                if !seen {
                    result.push(t.to_owned());
                    proof {
                        assert(views_of(result@) =~= acc0.push(t@));
                    }
                }
            }
            proof {
                // Processing this segment performed one step of `collect_ids`.
                let segval = rest.take(j - pos);
                assert(t@ == trim_spec(segval));
                if t@.len() == 0 {
                    assert(views_of(result@) == acc0);
                    assert(collect_id_step(acc0, segval) == acc0);
                } else if acc0.contains(t@) {
                    assert(views_of(result@) == acc0);
                    assert(collect_id_step(acc0, segval) == acc0);
                } else {
                    assert(views_of(result@) == acc0.push(t@));
                    assert(collect_id_step(acc0, segval) == acc0.push(t@));
                }
                assert(views_of(result@) == collect_id_step(acc0, segval));
            }
            if j == len {
                proof {
                    assert(rest.take(j - pos) =~= rest);
                    let segs = split_at_char(rest, ',');
                    assert(segs =~= seq![rest]);
                    assert(segs[0] == rest);
                    assert(segs.skip(1) =~= Seq::<Seq<char>>::empty());
                    let acc1 = collect_id_step(acc0, rest);
                    assert(collect_ids(acc0, segs) == collect_ids(acc1, segs.skip(1)));
                    assert(collect_ids(acc1, Seq::<Seq<char>>::empty()) == acc1);
                }
                break;
            }
            proof {
                let segs = split_at_char(rest, ',');
                assert(segs[0] == rest.take(j - pos));
                assert(segs.skip(1) =~= split_at_char(rest.skip(j - pos + 1), ','));
                assert(rest.skip(j - pos + 1) =~= s@.skip(j + 1 as int));
                assert(collect_ids(acc0, segs) == collect_ids(
                    views_of(result@),
                    split_at_char(s@.skip(j + 1 as int), ','),
                ));
            }
            pos = j + 1;
        }
        Ok(AllowedAppIds(result))
    }
}

proof fn lemma_dec_str_digits(n: int)
    requires
        n >= 0,
    ensures
        crate::error::dec_str_of(n).len() > 0,
        all_digits(crate::error::dec_str_of(n)),
        digits_val(crate::error::dec_str_of(n)) == n,
        crate::error::dec_str_of(n)[0] != '+',
    decreases n,
{
    let s = crate::error::dec_str_of(n);
    if n < 10 {
        assert(crate::error::hex_digit(n) as int == 48 + n);
        assert(s =~= seq![crate::error::hex_digit(n)]);
        assert(s.drop_last() =~= Seq::<char>::empty());
        assert(s.last() == crate::error::hex_digit(n));
        assert(digits_val(Seq::<char>::empty()) == 0);
        assert(digits_val(s) == digits_val(s.drop_last()) * 10 + digit_val(s.last()));
        assert(digits_val(s) == n);
    } else {
        lemma_dec_str_digits(n / 10);
        assert(crate::error::hex_digit(n % 10) as int == 48 + n % 10);
        vstd::arithmetic::div_mod::lemma_fundamental_div_mod(n, 10);
        let head = crate::error::dec_str_of(n / 10);
        assert(s =~= head.push(crate::error::hex_digit(n % 10)));
        assert(s.drop_last() =~= head);
        assert(s.last() == crate::error::hex_digit(n % 10));
        assert(digits_val(s) == digits_val(head) * 10 + digit_val(crate::error::hex_digit(n % 10)));
        assert(s[0] == head[0]);
        assert forall|i: int| 0 <= i < s.len() implies is_digit(#[trigger] s[i]) by {
            if i < head.len() {
                assert(s[i] == head[i]);
            } else {
                assert(s[i] == crate::error::hex_digit(n % 10));
            }
        }
    }
}

/// Law: configuration idempotence for the numeric fields. A value within
/// range parses back from its decimal rendering unchanged.
pub proof fn lemma_numeric_round_trip(n: int)
    requires
        0 <= n <= u64::MAX,
    ensures
        uint_str_ok(crate::error::dec_str_of(n), u64::MAX as int),
        uint_str_val(crate::error::dec_str_of(n)) == n,
{
    lemma_dec_str_digits(n);
    let s = crate::error::dec_str_of(n);
    assert(int_digits(s) == s);
}

/// The identifiers joined with commas: the documented configuration format
/// for an allow list.
pub open spec fn join_ids(ids: Seq<Seq<char>>) -> Seq<char>
    decreases ids.len(),
{
    if ids.len() == 0 {
        Seq::empty()
    } else if ids.len() == 1 {
        ids[0]
    } else {
        ids[0] + seq![','] + join_ids(ids.skip(1))
    }
}

/// An identifier that the configuration format can carry verbatim: non-empty,
/// without commas, and without leading or trailing whitespace.
pub open spec fn clean_id(s: Seq<char>) -> bool {
    s.len() > 0 && !s.contains(',') && !is_space_char(s[0]) && !is_space_char(s.last())
}

fn join_ids_from(v: &Vec<String>, i: usize) -> (r: String)
    requires
        i <= v@.len(),
    ensures
        r@ == join_ids(views_of(v@).skip(i as int)),
    decreases v@.len() - i,
{
    let ghost ids = views_of(v@).skip(i as int);
    if i == v.len() {
        proof {
            assert(ids =~= Seq::<Seq<char>>::empty());
        }
        String::new()
    } else if i + 1 == v.len() {
        proof {
            assert(ids.len() == 1);
            assert(ids[0] == v@[i as int]@);
        }
        v[i].clone()
    } else {
        let mut s = v[i].clone();
        s.append(",");
        let rest = join_ids_from(v, i + 1);
        s.append(rest.as_str());
        proof {
            reveal_strlit(",");
            assert(","@ =~= seq![',']);
            assert(ids[0] == v@[i as int]@);
            assert(ids.skip(1) =~= views_of(v@).skip(i + 1 as int));
            assert(s@ =~= ids[0] + seq![','] + join_ids(ids.skip(1)));
        }
        s
    }
}

impl AllowedAppIds {
    /// Write the list in the documented configuration format: the
    /// identifiers joined with commas.
    pub fn to_config_string(&self) -> (r: String)
        ensures
            r@ == join_ids(self.ids()),
    {
        proof {
            assert(views_of(self.0@).skip(0) =~= views_of(self.0@));
        }
        join_ids_from(&self.0, 0)
    }
}

proof fn lemma_trim_clean(s: Seq<char>)
    requires
        s.len() > 0,
        !is_space_char(s[0]),
        !is_space_char(s.last()),
    ensures
        trim_spec(s) == s,
{
}

proof fn lemma_split_join(ids: Seq<Seq<char>>, c: char)
    requires
        ids.len() >= 1,
        forall|k: int, p: int|
            0 <= k < ids.len() && 0 <= p < ids[k].len() ==> #[trigger] ids[k][p] != c,
    ensures
        split_at_char(join_ids_sep(ids, c), c) == ids,
    decreases ids.len(),
{
    let s = join_ids_sep(ids, c);
    if ids.len() == 1 {
        assert(s == ids[0]);
        assert(forall|p: int| 0 <= p < s.len() ==> #[trigger] s[p] != c);
        lemma_first_at_is(s, c, s.len() as int);
        assert(split_at_char(s, c) =~= seq![ids[0]]);
        assert(seq![ids[0]] =~= ids);
    } else {
        let head = ids[0];
        let rest = join_ids_sep(ids.skip(1), c);
        assert(s == head + seq![c] + rest);
        assert(forall|p: int| 0 <= p < head.len() ==> #[trigger] head[p] != c);
        assert forall|p: int| 0 <= p < head.len() implies #[trigger] s[p] != c by {
            assert(s[p] == head[p]);
        }
        assert(s[head.len() as int] == c);
        lemma_first_at_is(s, c, head.len() as int);
        assert(s.take(head.len() as int) =~= head);
        assert(s.skip(head.len() + 1 as int) =~= rest);
        assert forall|k: int, p: int|
            0 <= k < ids.skip(1).len() && 0 <= p < ids.skip(1)[k].len() implies #[trigger] ids.skip(
            1,
        )[k][p] != c by {
            assert(ids.skip(1)[k] == ids[k + 1]);
        }
        lemma_split_join(ids.skip(1), c);
        assert(split_at_char(s, c) =~= seq![head] + split_at_char(rest, c));
        assert(seq![head] + ids.skip(1) =~= ids);
    }
}

/// The same join, generic in the separator, for reuse in proofs.
pub open spec fn join_ids_sep(ids: Seq<Seq<char>>, c: char) -> Seq<char>
    decreases ids.len(),
{
    if ids.len() == 0 {
        Seq::empty()
    } else if ids.len() == 1 {
        ids[0]
    } else {
        ids[0] + seq![c] + join_ids_sep(ids.skip(1), c)
    }
}

proof fn lemma_join_is_join_sep(ids: Seq<Seq<char>>)
    ensures
        join_ids(ids) == join_ids_sep(ids, ','),
    decreases ids.len(),
{
    if ids.len() > 1 {
        lemma_join_is_join_sep(ids.skip(1));
    }
}

proof fn lemma_collect_clean(acc: Seq<Seq<char>>, segs: Seq<Seq<char>>)
    requires
        forall|k: int| 0 <= k < segs.len() ==> clean_id(#[trigger] segs[k]),
        forall|k: int, j: int| 0 <= k < j < segs.len() ==> segs[k] != segs[j],
        forall|k: int| 0 <= k < segs.len() ==> !acc.contains(#[trigger] segs[k]),
    ensures
        collect_ids(acc, segs) == acc + segs,
    decreases segs.len(),
{
    if segs.len() == 0 {
        assert(acc + segs =~= acc);
    } else {
        let head = segs[0];
        lemma_trim_clean(head);
        assert(collect_id_step(acc, head) == acc.push(head));
        let acc2 = acc.push(head);
        assert forall|k: int| 0 <= k < segs.skip(1).len() implies clean_id(
            #[trigger] segs.skip(1)[k],
        ) && !acc2.contains(segs.skip(1)[k]) by {
            assert(segs.skip(1)[k] == segs[k + 1]);
            assert(!acc.contains(segs[k + 1]));
            if acc2.contains(segs[k + 1]) {
                let j = choose|j: int| 0 <= j < acc2.len() && acc2[j] == segs[k + 1];
                if j < acc.len() {
                    assert(acc[j] == segs[k + 1]);
                } else {
                    assert(segs[0] == segs[k + 1]);
                }
            }
        }
        assert(forall|k: int, j: int|
            0 <= k < j < segs.skip(1).len() ==> segs.skip(1)[k] != segs.skip(1)[j]) by {
            assert(forall|k: int|
                0 <= k < segs.skip(1).len() ==> segs.skip(1)[k] == #[trigger] segs[k + 1]);
        }
        lemma_collect_clean(acc2, segs.skip(1));
        assert(acc.push(head) + segs.skip(1) =~= acc + segs);
    }
}

/// Law: configuration idempotence for the application allow list. A list of
/// distinct identifiers that the format can carry verbatim — non-empty,
/// comma-free, with no surrounding whitespace — parses back from its
/// serialized form unchanged.
pub proof fn lemma_allowed_app_ids_round_trip(ids: Seq<Seq<char>>)
    requires
        forall|i: int| 0 <= i < ids.len() ==> clean_id(#[trigger] ids[i]),
        forall|i: int, j: int| 0 <= i < j < ids.len() ==> ids[i] != ids[j],
    ensures
        allowed_app_ids_of(join_ids(ids)) == ids,
{
    lemma_join_is_join_sep(ids);
    if ids.len() == 0 {
        let s = join_ids(ids);
        assert(s =~= Seq::<char>::empty());
        lemma_first_at_is(s, ',', 0);
        assert(split_at_char(s, ',') =~= seq![s]);
        assert(trim_spec(s) == s);
        let segs = seq![s];
        assert(segs[0] == s);
        assert(segs.skip(1) =~= Seq::<Seq<char>>::empty());
        assert(collect_id_step(Seq::empty(), s) =~= Seq::<Seq<char>>::empty());
        assert(collect_ids(Seq::<Seq<char>>::empty(), segs) == collect_ids(
            collect_id_step(Seq::empty(), s),
            segs.skip(1),
        ));
        assert(collect_ids(
            Seq::<Seq<char>>::empty(),
            Seq::<Seq<char>>::empty(),
        ) == Seq::<Seq<char>>::empty());
        assert(allowed_app_ids_of(join_ids(ids)) =~= ids);
    } else {
        assert forall|k: int, p: int|
            0 <= k < ids.len() && 0 <= p < ids[k].len() implies #[trigger] ids[k][p] != ',' by {
            assert(clean_id(ids[k]));
            if ids[k][p] == ',' {
                assert(ids[k].contains(','));
            }
        }
        lemma_split_join(ids, ',');
        lemma_collect_clean(Seq::empty(), ids);
        assert(Seq::<Seq<char>>::empty() + ids =~= ids);
    }
}

/// Represents a function within a Holochain zome that can be called through the gateway
#[derive(Debug, Clone)]
pub struct ZomeFn {
    /// Name of the zome containing the function
    pub zome_name: String,
    /// Name of the specific function within the zome
    pub fn_name: String,
}

impl PartialEq for ZomeFn {
    fn eq(&self, other: &ZomeFn) -> (r: bool) {
        str_eq(self.zome_name.as_str(), other.zome_name.as_str()) && str_eq(
            self.fn_name.as_str(),
            other.fn_name.as_str(),
        )
    }
}

impl vstd::std_specs::cmp::PartialEqSpecImpl for ZomeFn {
    open spec fn obeys_eq_spec() -> bool {
        true
    }

    open spec fn eq_spec(&self, other: &ZomeFn) -> bool {
        self.zome_name@ == other.zome_name@ && self.fn_name@ == other.fn_name@
    }
}

/// Controls which functions can be called.
#[derive(Debug, Clone)]
pub enum AllowedFns {
    /// Only specific functions are allowed.
    Restricted(Vec<ZomeFn>),
    /// All functions are allowed for all zomes.
    All,
}

/// The mathematical value of an [`AllowedFns`]: either everything, or a list
/// of (zome name, function name) pairs.
pub enum AllowedFnsSpec {
    /// Only the listed pairs are allowed.
    Restricted(Seq<(Seq<char>, Seq<char>)>),
    /// All functions are allowed.
    All,
}

/// The (zome name, function name) views of a sequence of zome functions.
pub open spec fn zome_fn_views(v: Seq<ZomeFn>) -> Seq<(Seq<char>, Seq<char>)> {
    v.map_values(|z: ZomeFn| (z.zome_name@, z.fn_name@))
}

/// The mathematical value of an [`AllowedFns`].
pub open spec fn afns_view(a: AllowedFns) -> AllowedFnsSpec {
    match a {
        AllowedFns::All => AllowedFnsSpec::All,
        AllowedFns::Restricted(v) => AllowedFnsSpec::Restricted(zome_fn_views(v@)),
    }
}

/// The error text for a pair without a slash separator.
pub open spec fn pair_parse_err(seg: Seq<char>) -> Seq<char> {
    "Failed to parse the zome name and function name from value: "@ + seg
}

/// The error text for a pair with an empty zome or function name.
pub open spec fn pair_empty_err(seg: Seq<char>) -> Seq<char> {
    "Zome name or function name is empty for value: "@ + seg
}

/// Parse one comma-segment as a `zome/function` pair: the segment is trimmed
/// and split at the first slash, and both sides must be non-empty.
pub open spec fn parse_zome_fn(seg: Seq<char>) -> Result<(Seq<char>, Seq<char>), Seq<char>> {
    let t = trim_spec(seg);
    let i = first_at(t, '/');
    if i >= t.len() {
        Err(pair_parse_err(seg))
    } else {
        let z = t.take(i);
        let f = t.skip(i + 1);
        if z.len() == 0 || f.len() == 0 {
            Err(pair_empty_err(seg))
        } else {
            Ok((z, f))
        }
    }
}

/// Collect the parsed pairs of a list of segments, collapsing duplicates to
/// their first occurrence; any malformed segment fails the whole list.
pub open spec fn collect_zome_fns(
    acc: Seq<(Seq<char>, Seq<char>)>,
    segs: Seq<Seq<char>>,
) -> Result<Seq<(Seq<char>, Seq<char>)>, Seq<char>>
    decreases segs.len(),
{
    if segs.len() == 0 {
        Ok(acc)
    } else {
        match parse_zome_fn(segs[0]) {
            Err(m) => Err(m),
            Ok(p) => collect_zome_fns(
                if acc.contains(p) {
                    acc
                } else {
                    acc.push(p)
                },
                segs.skip(1),
            ),
        }
    }
}

/// The allowed functions denoted by a string: a lone asterisk means all
/// functions, anything else is a comma-separated list of `zome/function`
/// pairs.
pub open spec fn allowed_fns_of(s: Seq<char>) -> Result<AllowedFnsSpec, Seq<char>> {
    let t = trim_spec(s);
    if t.len() == 1 && t[0] == '*' {
        Ok(AllowedFnsSpec::All)
    } else {
        match collect_zome_fns(Seq::empty(), split_at_char(t, ',')) {
            Ok(ps) => Ok(AllowedFnsSpec::Restricted(ps)),
            Err(m) => Err(m),
        }
    }
}

impl AllowedFns {
    /// Parse an allowed-functions description: the literal `*` (after
    /// trimming) allows everything; otherwise a comma-separated list of
    /// `zome_name/fn_name` pairs, each side non-empty, with any malformed
    /// pair failing the whole input.
    pub fn from_str(s: &str) -> (r: ConfigParseResult<AllowedFns>)
        ensures
            match allowed_fns_of(s@) {
                Ok(v) => r matches Ok(a) && afns_view(a) == v,
                Err(m) => r matches Err(ConfigParseError::Other(mm)) && mm@ == m,
            },
    {
        let t = trim_str(s);
        let len = t.unicode_len();
        if len == 1 && t.get_char(0) == '*' {
            return Ok(AllowedFns::All);
        }
        let mut result: Vec<ZomeFn> = Vec::new();
        let mut pos: usize = 0;
        proof {
            assert(t@.skip(0) =~= t@);
            assert(zome_fn_views(result@) =~= Seq::<(Seq<char>, Seq<char>)>::empty());
        }
        loop
            invariant_except_break
                collect_zome_fns(Seq::empty(), split_at_char(t@, ',')) == collect_zome_fns(
                    zome_fn_views(result@),
                    split_at_char(t@.skip(pos as int), ','),
                ),
            invariant
                len == t@.len(),
                0 <= pos <= len,
                !(trim_spec(s@).len() == 1 && trim_spec(s@)[0] == '*'),
                t@ == trim_spec(s@),
            ensures
                collect_zome_fns(Seq::empty(), split_at_char(t@, ',')) == Ok::<_, Seq<char>>(
                    zome_fn_views(result@),
                ),
            decreases len + 1 - pos,
        {
            // Find the end of the current segment.
            let mut j: usize = pos;
            while j < len && t.get_char(j) != ','
                invariant
                    len == t@.len(),
                    pos <= j <= len,
                    forall|k: int| pos <= k < j ==> t@[k] != ',',
                decreases len - j,
            {
                j = j + 1;
            }
            let ghost rest = t@.skip(pos as int);
            let ghost acc0 = zome_fn_views(result@);
            proof {
                assert(forall|k: int| 0 <= k < j - pos ==> rest[k] == #[trigger] t@[k + pos]);
                assert(j == len || rest[j - pos] == t@[j as int]);
                lemma_first_at_is(rest, ',', j - pos);
            }
            let seg = t.substring_char(pos, j);
            let st = trim_str(seg);
            let ghost segval = rest.take(j - pos);
            proof {
                assert(seg@ =~= segval);
            }
            // Split the trimmed segment at the first slash.
            let stlen = st.unicode_len();
            let mut si: usize = 0;
            while si < stlen && st.get_char(si) != '/'
                invariant
                    stlen == st@.len(),
                    0 <= si <= stlen,
                    forall|k: int| 0 <= k < si ==> st@[k] != '/',
                decreases stlen - si,
            {
                si = si + 1;
            }
            proof {
                lemma_first_at_is(st@, '/', si as int);
            }
            if si == stlen {
                let mut msg = String::from_str(
                    "Failed to parse the zome name and function name from value: ",
                );
                msg.append(seg);
                proof {
                    assert(parse_zome_fn(segval) == Err::<(Seq<char>, Seq<char>), _>(
                        pair_parse_err(segval),
                    ));
                }
                return Err(ConfigParseError::Other(msg));
            }
            if si == 0 || si + 1 == stlen {
                let mut msg = String::from_str("Zome name or function name is empty for value: ");
                msg.append(seg);
                proof {
                    assert(st@.take(si as int).len() == 0 || st@.skip(si + 1 as int).len() == 0);
                    assert(parse_zome_fn(segval) == Err::<(Seq<char>, Seq<char>), _>(
                        pair_empty_err(segval),
                    ));
                }
                return Err(ConfigParseError::Other(msg));
            }
            let zname = st.substring_char(0, si);
            let fname = st.substring_char(si + 1, stlen);
            let ghost pair = (st@.take(si as int), st@.skip(si + 1 as int));
            proof {
                assert(zname@ =~= pair.0);
                assert(fname@ =~= pair.1);
                assert(parse_zome_fn(segval) == Ok::<_, Seq<char>>(pair));
            }
            let mut seen = false;
            let n = result.len();
            let mut k: usize = 0;
            while k < n
                invariant
                    n == result@.len(),
                    0 <= k <= n,
                    zname@ == pair.0,
                    fname@ == pair.1,
                    seen <==> exists|j2: int|
                        0 <= j2 < k && #[trigger] result@[j2].zome_name@ == pair.0
                            && result@[j2].fn_name@ == pair.1,
                decreases n - k,
            {
                if str_eq(result[k].zome_name.as_str(), zname) && str_eq(
                    result[k].fn_name.as_str(),
                    fname,
                ) {
                    seen = true;
                    proof {
                        assert(result@[k as int].zome_name@ == pair.0);
                        assert(result@[k as int].fn_name@ == pair.1);
                    }
                    k = n;
                } else {
                    k = k + 1;
                }
            }
            proof {
                assert(seen <==> acc0.contains(pair)) by {
                    if seen {
                        let j2 = choose|j2: int|
                            0 <= j2 < n && #[trigger] result@[j2].zome_name@ == pair.0
                                && result@[j2].fn_name@ == pair.1;
                        assert(acc0[j2] == pair);
                    }
                    if acc0.contains(pair) {
                        let j2 = choose|j2: int| 0 <= j2 < acc0.len() && acc0[j2] == pair;
                        assert(result@[j2].zome_name@ == pair.0);
                        assert(result@[j2].fn_name@ == pair.1);
                    }
                }
            }
            if !seen {
                result.push(ZomeFn { zome_name: zname.to_owned(), fn_name: fname.to_owned() });
                proof {
                    assert(zome_fn_views(result@) =~= acc0.push(pair));
                }
            }
            proof {
                assert(zome_fn_views(result@) == if acc0.contains(pair) {
                    acc0
                } else {
                    acc0.push(pair)
                });
            }
            if j == len {
                proof {
                    assert(segval =~= rest);
                    let segs = split_at_char(rest, ',');
                    assert(segs =~= seq![rest]);
                    assert(segs[0] == rest);
                    assert(segs.skip(1) =~= Seq::<Seq<char>>::empty());
                    let acc1 = zome_fn_views(result@);
                    assert(collect_zome_fns(acc0, segs) == collect_zome_fns(acc1, segs.skip(1)));
                    assert(collect_zome_fns(acc1, Seq::<Seq<char>>::empty())
                        == Ok::<_, Seq<char>>(acc1));
                }
                break;
            }
            proof {
                let segs = split_at_char(rest, ',');
                assert(segs[0] == segval);
                assert(segs.skip(1) =~= split_at_char(rest.skip(j - pos + 1), ','));
                assert(rest.skip(j - pos + 1) =~= t@.skip(j + 1 as int));
            }
            pos = j + 1;
        }
        Ok(AllowedFns::Restricted(result))
    }
}

/// The configuration text of one `zome/function` pair.
pub open spec fn pair_text(p: (Seq<char>, Seq<char>)) -> Seq<char> {
    p.0 + seq!['/'] + p.1
}

/// The configuration text of a list of pairs: the pair texts joined with
/// commas.
pub open spec fn join_pairs(ps: Seq<(Seq<char>, Seq<char>)>) -> Seq<char> {
    join_ids_sep(ps.map_values(|p: (Seq<char>, Seq<char>)| pair_text(p)), ',')
}

/// The configuration text of an allowed-functions value: a lone asterisk for
/// everything, else the listed pairs.
pub open spec fn allowed_fns_text(v: AllowedFnsSpec) -> Seq<char> {
    match v {
        AllowedFnsSpec::All => seq!['*'],
        AllowedFnsSpec::Restricted(ps) => join_pairs(ps),
    }
}

/// A pair that the configuration format can carry verbatim: both sides
/// non-empty and comma-free, the zome name slash-free, and no whitespace at
/// the outer ends.
pub open spec fn clean_pair(p: (Seq<char>, Seq<char>)) -> bool {
    p.0.len() > 0 && p.1.len() > 0 && !p.0.contains('/') && !p.0.contains(',') && !p.1.contains(
        ',',
    ) && !is_space_char(p.0[0]) && !is_space_char(p.1.last())
}

fn join_pairs_from(v: &Vec<ZomeFn>, i: usize) -> (r: String)
    requires
        i <= v@.len(),
    ensures
        r@ == join_ids_sep(
            zome_fn_views(v@).skip(i as int).map_values(
                |p: (Seq<char>, Seq<char>)| pair_text(p),
            ),
            ',',
        ),
    decreases v@.len() - i,
{
    let ghost texts = zome_fn_views(v@).skip(i as int).map_values(
        |p: (Seq<char>, Seq<char>)| pair_text(p),
    );
    if i == v.len() {
        proof {
            assert(texts =~= Seq::<Seq<char>>::empty());
        }
        String::new()
    } else {
        let mut s = v[i].zome_name.clone();
        s.append("/");
        s.append(v[i].fn_name.as_str());
        proof {
            reveal_strlit("/");
            assert("/"@ =~= seq!['/']);
            assert(texts[0] == pair_text((v@[i as int].zome_name@, v@[i as int].fn_name@)));
            assert(s@ =~= texts[0]);
        }
        if i + 1 == v.len() {
            proof {
                assert(texts.len() == 1);
            }
            s
        } else {
            s.append(",");
            let rest = join_pairs_from(v, i + 1);
            s.append(rest.as_str());
            proof {
                reveal_strlit(",");
                assert(","@ =~= seq![',']);
                assert(texts.skip(1) =~= zome_fn_views(v@).skip(i + 1 as int).map_values(
                    |p: (Seq<char>, Seq<char>)| pair_text(p),
                ));
                assert(s@ =~= texts[0] + seq![','] + join_ids_sep(texts.skip(1), ','));
            }
            s
        }
    }
}

impl AllowedFns {
    /// Write the allowed functions in the documented configuration format:
    /// a lone asterisk for everything, else the `zome/function` pairs joined
    /// with commas.
    pub fn to_config_string(&self) -> (r: String)
        ensures
            r@ == allowed_fns_text(afns_view(*self)),
    {
        match self {
            AllowedFns::All => {
                proof {
                    reveal_strlit("*");
                    assert("*"@ =~= seq!['*']);
                }
                String::from_str("*")
            },
            AllowedFns::Restricted(fns) => {
                proof {
                    assert(zome_fn_views(fns@).skip(0) =~= zome_fn_views(fns@));
                }
                join_pairs_from(fns, 0)
            },
        }
    }
}

proof fn lemma_join_ends(ids: Seq<Seq<char>>, c: char)
    requires
        ids.len() >= 1,
        forall|k: int| 0 <= k < ids.len() ==> (#[trigger] ids[k]).len() > 0,
    ensures
        join_ids_sep(ids, c).len() >= ids[0].len(),
        join_ids_sep(ids, c)[0] == ids[0][0],
        join_ids_sep(ids, c).last() == ids.last().last(),
    decreases ids.len(),
{
    if ids.len() > 1 {
        assert(forall|k: int|
            0 <= k < ids.skip(1).len() ==> (#[trigger] ids.skip(1)[k]).len() > 0) by {
            assert(forall|k: int|
                0 <= k < ids.skip(1).len() ==> ids.skip(1)[k] == #[trigger] ids[k + 1]);
        }
        lemma_join_ends(ids.skip(1), c);
        assert(ids.skip(1)[0] == ids[1]);
        assert(ids.skip(1).last() == ids.last());
    }
}

proof fn lemma_parse_clean_pair(p: (Seq<char>, Seq<char>))
    requires
        clean_pair(p),
    ensures
        parse_zome_fn(pair_text(p)) == Ok::<(Seq<char>, Seq<char>), Seq<char>>(p),
{
    let t = pair_text(p);
    assert(t[0] == p.0[0]);
    assert(t.last() == p.1.last());
    lemma_trim_clean(t);
    assert forall|k: int| 0 <= k < p.0.len() implies #[trigger] t[k] != '/' by {
        assert(t[k] == p.0[k]);
        if p.0[k] == '/' {
            assert(p.0.contains('/'));
        }
    }
    assert(t[p.0.len() as int] == '/');
    lemma_first_at_is(t, '/', p.0.len() as int);
    assert(t.take(p.0.len() as int) =~= p.0);
    assert(t.skip(p.0.len() + 1 as int) =~= p.1);
}

proof fn lemma_collect_pairs_clean(
    acc: Seq<(Seq<char>, Seq<char>)>,
    ps: Seq<(Seq<char>, Seq<char>)>,
)
    requires
        forall|k: int| 0 <= k < ps.len() ==> clean_pair(#[trigger] ps[k]),
        forall|k: int, j: int| 0 <= k < j < ps.len() ==> ps[k] != ps[j],
        forall|k: int| 0 <= k < ps.len() ==> !acc.contains(#[trigger] ps[k]),
    ensures
        collect_zome_fns(acc, ps.map_values(|p: (Seq<char>, Seq<char>)| pair_text(p)))
            == Ok::<Seq<(Seq<char>, Seq<char>)>, Seq<char>>(acc + ps),
    decreases ps.len(),
{
    let segs = ps.map_values(|p: (Seq<char>, Seq<char>)| pair_text(p));
    if ps.len() == 0 {
        assert(segs =~= Seq::<Seq<char>>::empty());
        assert(acc + ps =~= acc);
    } else {
        let head = ps[0];
        assert(segs[0] == pair_text(head));
        lemma_parse_clean_pair(head);
        let acc2 = acc.push(head);
        assert forall|k: int| 0 <= k < ps.skip(1).len() implies clean_pair(
            #[trigger] ps.skip(1)[k],
        ) && !acc2.contains(ps.skip(1)[k]) by {
            assert(ps.skip(1)[k] == ps[k + 1]);
            assert(!acc.contains(ps[k + 1]));
            if acc2.contains(ps[k + 1]) {
                let j = choose|j: int| 0 <= j < acc2.len() && acc2[j] == ps[k + 1];
                if j < acc.len() {
                    assert(acc[j] == ps[k + 1]);
                } else {
                    assert(ps[0] == ps[k + 1]);
                }
            }
        }
        assert(forall|k: int, j: int|
            0 <= k < j < ps.skip(1).len() ==> ps.skip(1)[k] != ps.skip(1)[j]) by {
            assert(forall|k: int|
                0 <= k < ps.skip(1).len() ==> ps.skip(1)[k] == #[trigger] ps[k + 1]);
        }
        lemma_collect_pairs_clean(acc2, ps.skip(1));
        assert(segs.skip(1) =~= ps.skip(1).map_values(|p: (Seq<char>, Seq<char>)| pair_text(p)));
        assert(acc.push(head) + ps.skip(1) =~= acc + ps);
    }
}

/// Law: configuration idempotence for the allowed functions. A non-empty
/// list of distinct pairs that the format can carry verbatim parses back
/// from its serialized form unchanged, and the wildcard parses back as the
/// unrestricted value. (An empty restricted list is the one value the format
/// cannot express: its serialization is the empty string, which does not
/// parse.)
pub proof fn lemma_allowed_fns_round_trip(ps: Seq<(Seq<char>, Seq<char>)>)
    requires
        ps.len() >= 1,
        forall|k: int| 0 <= k < ps.len() ==> clean_pair(#[trigger] ps[k]),
        forall|k: int, j: int| 0 <= k < j < ps.len() ==> ps[k] != ps[j],
    ensures
        allowed_fns_of(allowed_fns_text(AllowedFnsSpec::Restricted(ps))) == Ok::<
            AllowedFnsSpec,
            Seq<char>,
        >(AllowedFnsSpec::Restricted(ps)),
{
    let segs = ps.map_values(|p: (Seq<char>, Seq<char>)| pair_text(p));
    let s = join_ids_sep(segs, ',');
    assert forall|k: int| 0 <= k < segs.len() implies (#[trigger] segs[k]).len() > 0 by {
        assert(segs[k] == pair_text(ps[k]));
    }
    lemma_join_ends(segs, ',');
    assert(segs[0] == pair_text(ps[0]));
    assert(segs.last() == pair_text(ps[ps.len() - 1]));
    assert(s[0] == ps[0].0[0]);
    assert(s.last() == ps[ps.len() - 1].1.last());
    lemma_trim_clean(s);
    // The serialized list is never the wildcard: a pair text has at least
    // three characters.
    assert(segs[0].len() >= 3);
    assert(s.len() >= 3);
    // Splitting on commas recovers the pair texts.
    assert forall|k: int, q: int|
        0 <= k < segs.len() && 0 <= q < segs[k].len() implies #[trigger] segs[k][q] != ',' by {
        let p = ps[k];
        assert(segs[k] == pair_text(p));
        if q < p.0.len() {
            assert(segs[k][q] == p.0[q]);
            if p.0[q] == ',' {
                assert(p.0.contains(','));
            }
        } else if q == p.0.len() {
            assert(segs[k][q] == '/');
        } else {
            assert(segs[k][q] == p.1[q - p.0.len() - 1]);
            if p.1[q - p.0.len() - 1] == ',' {
                assert(p.1.contains(','));
            }
        }
    }
    lemma_split_join(segs, ',');
    lemma_collect_pairs_clean(Seq::empty(), ps);
    assert(Seq::<(Seq<char>, Seq<char>)>::empty() + ps =~= ps);
}

/// Law: configuration idempotence for the unrestricted value. The wildcard
/// text parses back as the unrestricted allowed functions.
pub proof fn lemma_allowed_fns_wildcard_round_trip()
    ensures
        allowed_fns_of(allowed_fns_text(AllowedFnsSpec::All)) == Ok::<AllowedFnsSpec, Seq<char>>(
            AllowedFnsSpec::All,
        ),
{
    let s = allowed_fns_text(AllowedFnsSpec::All);
    assert(s == seq!['*']);
    assert(!is_space_char(s[0]));
    assert(s.last() == '*');
    lemma_trim_clean(s);
}

/// The set of functions that signing credentials are granted for, mirroring
/// the conductor's capability grant: everything, or an explicit list.
#[derive(Debug, Clone)]
pub enum GrantedFunctions {
    /// All functions on all zomes.
    All,
    /// Only the listed (zome, function) pairs.
    Listed(Vec<ZomeFn>),
}

impl GrantedFunctions {
    /// Whether this grant covers the given zome function.
    pub open spec fn permits(&self, zome: Seq<char>, f: Seq<char>) -> bool {
        match self {
            GrantedFunctions::All => true,
            GrantedFunctions::Listed(v) => zome_fn_views(v@).contains((zome, f)),
        }
    }
}

/// Translate an allowed-functions policy entry into the granted-functions
/// value that signing credentials are requested with: the grant covers
/// exactly the pairs that the policy allows.
pub fn granted_functions_for(a: &AllowedFns) -> (r: GrantedFunctions)
    ensures
        forall|z: Seq<char>, f: Seq<char>| #[trigger]
            r.permits(z, f) <==> pair_allowed(afns_view(*a), z, f),
{
    match a {
        AllowedFns::All => GrantedFunctions::All,
        AllowedFns::Restricted(fns) => {
            let n = fns.len();
            let mut out: Vec<ZomeFn> = Vec::new();
            let mut k: usize = 0;
            while k < n
                invariant
                    n == fns@.len(),
                    0 <= k <= n,
                    out@.len() == k,
                    forall|j: int|
                        0 <= j < k ==> #[trigger] out@[j].zome_name@ == fns@[j].zome_name@
                            && out@[j].fn_name@ == fns@[j].fn_name@,
                decreases n - k,
            {
                out.push(
                    ZomeFn {
                        zome_name: fns[k].zome_name.clone(),
                        fn_name: fns[k].fn_name.clone(),
                    },
                );
                k = k + 1;
            }
            proof {
                assert(zome_fn_views(out@) =~= zome_fn_views(fns@));
            }
            GrantedFunctions::Listed(out)
        },
    }
}

/// Law: allow-list monotonicity. When the policy allows calling a function
/// of a zome in an application, the policy holds an entry for that
/// application, and that entry — the one that [`granted_functions_for`]
/// translates into the grant requested for every provisioned cell when the
/// application is connected — permits exactly that pair.
pub proof fn lemma_allow_list_monotonicity(
    cfg: Configuration,
    app: Seq<char>,
    zome: Seq<char>,
    f: Seq<char>,
)
    requires
        cfg.fn_allowed_spec(app, zome, f),
    ensures
        lookup_fns(cfg.allowed_fns@, app) matches Some(v) && pair_allowed(v, zome, f),
{
}

/// A resolved network address, as host text and port.
#[derive(Debug, Clone)]
pub struct SocketAddress {
    /// The host part, in textual form.
    pub host: String,
    /// The port.
    pub port: u16,
}

/// Main configuration structure for the HTTP Gateway.
#[derive(Debug, Clone)]
pub struct Configuration {
    /// Address of the conductor's administrative websocket endpoint.
    pub admin_socket_addr: SocketAddress,
    /// Maximum size in bytes that request payloads can be
    pub payload_limit_bytes: u32,
    /// Controls which applications are permitted to connect to the gateway
    pub allowed_app_ids: AllowedAppIds,
    /// Maps application IDs to their allowed function configurations; the
    /// first entry for an id is the one that counts.
    pub allowed_fns: Vec<(String, AllowedFns)>,
    /// Maximum number of app connections that the gateway will maintain concurrently.
    pub max_app_connections: u32,
    /// Timeout for zome calls, in milliseconds.
    pub zome_call_timeout_ms: u64,
}

/// The allowed functions recorded for an application id: the first entry with
/// that key, if any.
pub open spec fn lookup_fns(m: Seq<(String, AllowedFns)>, k: Seq<char>) -> Option<AllowedFnsSpec>
    decreases m.len(),
{
    if m.len() == 0 {
        None
    } else if m[0].0@ == k {
        Some(afns_view(m[0].1))
    } else {
        lookup_fns(m.skip(1), k)
    }
}

/// Whether an allowed-functions value permits the given pair.
pub open spec fn pair_allowed(v: AllowedFnsSpec, zome: Seq<char>, f: Seq<char>) -> bool {
    match v {
        AllowedFnsSpec::All => true,
        AllowedFnsSpec::Restricted(ps) => ps.contains((zome, f)),
    }
}

/// Find the allowed functions recorded for an application id.
fn lookup_allowed_fns<'a>(m: &'a Vec<(String, AllowedFns)>, key: &str) -> (r: Option<
    &'a AllowedFns,
>)
    ensures
        match r {
            None => lookup_fns(m@, key@) is None,
            Some(a) => lookup_fns(m@, key@) == Some(afns_view(*a)),
        },
{
    let n = m.len();
    let mut k: usize = 0;
    proof {
        assert(m@.skip(0) =~= m@);
    }
    while k < n
        invariant
            n == m@.len(),
            0 <= k <= n,
            lookup_fns(m@, key@) == lookup_fns(m@.skip(k as int), key@),
        decreases n - k,
    {
        proof {
            assert(m@.skip(k as int)[0] == m@[k as int]);
            assert(m@.skip(k as int).skip(1) =~= m@.skip(k + 1 as int));
        }
        if str_eq(m[k].0.as_str(), key) {
            return Some(&m[k].1);
        }
        k = k + 1;
    }
    None
}

impl Configuration {
    /// Whether the policy allows calling the given function of the given
    /// zome in the given application.
    pub open spec fn fn_allowed_spec(&self, app: Seq<char>, zome: Seq<char>, f: Seq<char>) -> bool {
        match lookup_fns(self.allowed_fns@, app) {
            None => false,
            Some(v) => pair_allowed(v, zome, f),
        }
    }

    /// Check if the app_id is in the allowed list
    pub fn is_app_allowed(&self, app_id: &str) -> (r: bool)
        ensures
            r == self.allowed_app_ids.allows(app_id@),
    {
        self.allowed_app_ids.contains(app_id)
    }

    /// Get the allowed functions for a given app_id
    pub fn get_allowed_functions(&self, app_id: &str) -> (r: Option<&AllowedFns>)
        ensures
            match r {
                None => lookup_fns(self.allowed_fns@, app_id@) is None,
                Some(a) => lookup_fns(self.allowed_fns@, app_id@) == Some(afns_view(*a)),
            },
    {
        lookup_allowed_fns(&self.allowed_fns, app_id)
    }

    /// Check if a function of an app is allowed
    pub fn is_function_allowed(&self, app_id: &str, zome_name: &str, fn_name: &str) -> (r: bool)
        ensures
            r == self.fn_allowed_spec(app_id@, zome_name@, fn_name@),
    {
        match self.get_allowed_functions(app_id) {
            None => false,
            Some(allowed_fns) => match allowed_fns {
                AllowedFns::All => true,
                AllowedFns::Restricted(zome_fns) => {
                    let ghost pair = (zome_name@, fn_name@);
                    let ghost views = zome_fn_views(zome_fns@);
                    let n = zome_fns.len();
                    let mut k: usize = 0;
                    let mut found = false;
                    while k < n
                        invariant
                            n == zome_fns@.len(),
                            0 <= k <= n,
                            found <==> exists|j: int|
                                0 <= j < k && #[trigger] zome_fns@[j].zome_name@ == zome_name@
                                    && zome_fns@[j].fn_name@ == fn_name@,
                        decreases n - k,
                    {
                        if str_eq(zome_fns[k].zome_name.as_str(), zome_name) && str_eq(
                            zome_fns[k].fn_name.as_str(),
                            fn_name,
                        ) {
                            found = true;
                            proof {
                                assert(zome_fns@[k as int].zome_name@ == zome_name@);
                                assert(zome_fns@[k as int].fn_name@ == fn_name@);
                            }
                            k = n;
                        } else {
                            k = k + 1;
                        }
                    }
                    proof {
                        assert(found <==> views.contains(pair)) by {
                            if found {
                                let j = choose|j: int|
                                    0 <= j < n && #[trigger] zome_fns@[j].zome_name@ == zome_name@
                                        && zome_fns@[j].fn_name@ == fn_name@;
                                assert(views[j] == pair);
                            }
                            if views.contains(pair) {
                                let j = choose|j: int|
                                    0 <= j < views.len() && views[j] == pair;
                                assert(zome_fns@[j].zome_name@ == zome_name@);
                                assert(zome_fns@[j].fn_name@ == fn_name@);
                            }
                        }
                    }
                    found
                },
            },
        }
    }
}

/// Whether a numeric configuration string is acceptable: empty (the default
/// applies) or a valid unsigned integer within `max`.
pub open spec fn num_ok(s: Seq<char>, max: int) -> bool {
    s.len() == 0 || uint_str_ok(s, max)
}

/// The value a numeric configuration string denotes, given its default.
pub open spec fn num_val(s: Seq<char>, default: int) -> int {
    if s.len() == 0 {
        default
    } else {
        uint_str_val(s)
    }
}

/// The first identifier of the list without an entry in the allowed-functions
/// map, if any.
pub open spec fn first_missing(ids: Seq<Seq<char>>, m: Seq<(String, AllowedFns)>) -> Option<
    Seq<char>,
>
    decreases ids.len(),
{
    if ids.len() == 0 {
        None
    } else if lookup_fns(m, ids[0]) is None {
        Some(ids[0])
    } else {
        first_missing(ids.skip(1), m)
    }
}

/// The error text for an allowed application without allowed functions.
pub open spec fn missing_fns_err(id: Seq<char>) -> Seq<char> {
    id + " is not present in allowed_fns"@
}

impl Configuration {
    /// Creates a new [`Configuration`] by parsing and validating the provided string inputs.
    ///
    /// Empty numeric strings fall back to the documented defaults. Every
    /// identifier in the allowed applications list must have an entry in the
    /// allowed-functions map.
    pub fn try_new(
        admin_socket_addr: SocketAddress,
        payload_limit_bytes: &str,
        allowed_app_ids: &str,
        allowed_fns: Vec<(String, AllowedFns)>,
        max_app_connections: &str,
        zome_call_timeout: &str,
    ) -> (r: ConfigParseResult<Configuration>)
        ensures
            !num_ok(payload_limit_bytes@, u32::MAX as int) ==> (r matches Err(
                ConfigParseError::IntParseError(m),
            ) && m@ == payload_limit_bytes@),
            num_ok(payload_limit_bytes@, u32::MAX as int) ==> (match first_missing(
                allowed_app_ids_of(allowed_app_ids@),
                allowed_fns@,
            ) {
                Some(id) => r matches Err(ConfigParseError::Other(m)) && m@ == missing_fns_err(
                    id,
                ),
                None => true,
            }),
            (num_ok(payload_limit_bytes@, u32::MAX as int) && first_missing(
                allowed_app_ids_of(allowed_app_ids@),
                allowed_fns@,
            ) is None && !num_ok(max_app_connections@, u32::MAX as int)) ==> (r matches Err(
                ConfigParseError::IntParseError(m),
            ) && m@ == max_app_connections@),
            (num_ok(payload_limit_bytes@, u32::MAX as int) && first_missing(
                allowed_app_ids_of(allowed_app_ids@),
                allowed_fns@,
            ) is None && num_ok(max_app_connections@, u32::MAX as int) && !num_ok(
                zome_call_timeout@,
                u64::MAX as int,
            )) ==> (r matches Err(ConfigParseError::IntParseError(m)) && m@ == zome_call_timeout@),
            (num_ok(payload_limit_bytes@, u32::MAX as int) && first_missing(
                allowed_app_ids_of(allowed_app_ids@),
                allowed_fns@,
            ) is None && num_ok(max_app_connections@, u32::MAX as int) && num_ok(
                zome_call_timeout@,
                u64::MAX as int,
            )) ==> (r matches Ok(c) && c.admin_socket_addr == admin_socket_addr
                && c.payload_limit_bytes as int == num_val(
                payload_limit_bytes@,
                DEFAULT_PAYLOAD_LIMIT_BYTES as int,
            ) && c.allowed_app_ids.ids() == allowed_app_ids_of(allowed_app_ids@)
                && c.allowed_fns == allowed_fns && c.max_app_connections as int == num_val(
                max_app_connections@,
                DEFAULT_MAX_APP_CONNECTIONS as int,
            ) && c.zome_call_timeout_ms as int == num_val(
                zome_call_timeout@,
                DEFAULT_ZOME_CALL_TIMEOUT_MS as int,
            )),
    {
        let payload_limit = if payload_limit_bytes.unicode_len() == 0 {
            DEFAULT_PAYLOAD_LIMIT_BYTES
        } else {
            match parse_u32_str(payload_limit_bytes) {
                Ok(v) => v,
                Err(e) => {
                    return Err(e);
                },
            }
        };

        let app_ids = match AllowedAppIds::from_str(allowed_app_ids) {
            Ok(ids) => ids,
            Err(e) => {
                return Err(e);
            },
        };

        let ghost ids = app_ids.ids();
        let n = app_ids.0.len();
        let mut k: usize = 0;
        proof {
            assert(ids.skip(0) =~= ids);
        }
        while k < n
            invariant
                n == app_ids.0@.len(),
                0 <= k <= n,
                num_ok(payload_limit_bytes@, u32::MAX as int),
                ids == app_ids.ids(),
                ids == allowed_app_ids_of(allowed_app_ids@),
                first_missing(ids, allowed_fns@) == first_missing(
                    ids.skip(k as int),
                    allowed_fns@,
                ),
            decreases n - k,
        {
            proof {
                assert(ids.skip(k as int)[0] == ids[k as int]);
                assert(ids.skip(k as int).skip(1) =~= ids.skip(k + 1 as int));
                assert(ids[k as int] == app_ids.0@[k as int]@);
            }
            if lookup_allowed_fns(&allowed_fns, app_ids.0[k].as_str()).is_none() {
                proof {
                    assert(first_missing(ids.skip(k as int), allowed_fns@) == Some(
                        ids[k as int],
                    ));
                }
                let mut msg = app_ids.0[k].clone();
                msg.append(" is not present in allowed_fns");
                return Err(ConfigParseError::Other(msg));
            }
            k = k + 1;
        }

        let max_conns = if max_app_connections.unicode_len() == 0 {
            DEFAULT_MAX_APP_CONNECTIONS
        } else {
            match parse_u32_str(max_app_connections) {
                Ok(v) => v,
                Err(e) => {
                    return Err(e);
                },
            }
        };

        let timeout_ms = if zome_call_timeout.unicode_len() == 0 {
            DEFAULT_ZOME_CALL_TIMEOUT_MS
        } else {
            match parse_u64_str(zome_call_timeout) {
                Ok(v) => v,
                Err(e) => {
                    return Err(e);
                },
            }
        };

        Ok(
            Configuration {
                admin_socket_addr,
                payload_limit_bytes: payload_limit,
                allowed_app_ids: app_ids,
                allowed_fns,
                max_app_connections: max_conns,
                zome_call_timeout_ms: timeout_ms,
            },
        )
    }
}

} // verus!
