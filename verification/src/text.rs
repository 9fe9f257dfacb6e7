//! Text primitives: character sequences, decimal numbers, prefixes and lines.

use vstd::prelude::*;
use vstd::utf8::char_u32_cast;

verus! {

/// The characters of `s`, in order.
pub fn chars_of(s: &str) -> (cs: Vec<char>)
    ensures
        cs@ == s@,
{
    let mut cs: Vec<char> = Vec::new();
    for c in it: s.chars()
        invariant
            it.seq() == s@,
            cs@ == s@.take(it.index() as int),
    {
        cs.push(c);
    }
    assert(s@.take(s@.len() as int) == s@);
    cs
}

/// The text made of the characters `cs[from..to]`.
pub fn text_of(cs: &[char], from: usize, to: usize) -> (s: String)
    requires
        from <= to <= cs@.len(),
    ensures
        s@ == cs@.subrange(from as int, to as int),
{
    let mut s = String::new();
    let mut i: usize = from;
    while i < to
        invariant
            from <= i <= to <= cs@.len(),
            s@ == cs@.subrange(from as int, i as int),
        decreases to - i,
    {
        s.push(cs[i]);
        i += 1;
    }
    s
}

/// ASCII lower case of one character; every other character is its own lower case.
pub open spec fn lower_char(c: char) -> char {
    if 'A' <= c && c <= 'Z' {
        (c as u8 + 32) as char
    } else {
        c
    }
}

pub fn to_lower_char(c: char) -> (r: char)
    ensures
        r == lower_char(c),
{
    if 'A' <= c && c <= 'Z' {
        (c as u8 + 32) as char
    } else {
        c
    }
}

/// The decimal digit of `d`, for `d < 10`.
pub open spec fn digit(d: nat) -> char {
    (48 + d) as char
}

/// The decimal notation of `n`, without leading zeros.
pub open spec fn decimal(n: nat) -> Seq<char>
    decreases n,
{
    if n < 10 {
        seq![digit(n)]
    } else {
        decimal(n / 10).push(digit(n % 10))
    }
}

/// Appends the decimal notation of `n`.
pub fn push_decimal(out: &mut String, n: u64)
    ensures
        final(out)@ == old(out)@ + decimal(n as nat),
    decreases n,
{
    if n >= 10 {
        push_decimal(out, n / 10);
    }
    out.push((48 + (n % 10) as u8) as char);
}

/// The decimal notation of `n`, with a minus sign in front of a negative number.
pub open spec fn signed_decimal(n: int) -> Seq<char> {
    if n < 0 {
        seq!['-'] + decimal((-n) as nat)
    } else {
        decimal(n as nat)
    }
}

/// Appends the decimal notation of `n`.
pub fn push_signed_decimal(out: &mut String, n: i64)
    ensures
        final(out)@ == old(out)@ + signed_decimal(n as int),
{
    if n < 0 {
        out.push('-');
        push_decimal(out, (-(n as i128)) as u64);
    } else {
        push_decimal(out, n as u64);
    }
}

pub open spec fn is_digit(c: char) -> bool {
    '0' <= c && c <= '9'
}

pub open spec fn all_digits(s: Seq<char>) -> bool {
    forall|i: int| 0 <= i < s.len() ==> is_digit(#[trigger] s[i])
}

/// The number that a sequence of decimal digits denotes.
pub open spec fn digits_value(s: Seq<char>) -> nat
    decreases s.len(),
{
    if s.len() == 0 {
        0
    } else {
        digits_value(s.drop_last()) * 10 + (s.last() as nat - 48) as nat
    }
}

/// The number denoted by an optional `+` and at least one decimal digit, if it is at most `max`.
pub open spec fn unsigned_value(s: Seq<char>, max: nat) -> Option<nat> {
    let digits = if s.len() > 0 && s[0] == '+' {
        s.drop_first()
    } else {
        s
    };
    if digits.len() > 0 && all_digits(digits) && digits_value(digits) <= max {
        Some(digits_value(digits))
    } else {
        None
    }
}

/// More digits never denote a smaller number.
proof fn lemma_digits_value_grows(s: Seq<char>, n: int)
    requires
        0 <= n <= s.len(),
        all_digits(s),
    ensures
        digits_value(s.take(n)) <= digits_value(s),
    decreases s.len() - n,
{
    if n < s.len() {
        lemma_digits_value_grows(s, n + 1);
        assert(s.take(n + 1).drop_last() == s.take(n));
        assert(is_digit(s[n]));
    } else {
        assert(s.take(n) == s);
    }
}

/// Reads `cs[from..]` as an unsigned decimal number of at most `max`.
pub fn parse_unsigned(cs: &[char], from: usize, max: u64) -> (r: Option<u64>)
    requires
        from <= cs@.len(),
    ensures
        r matches Some(v) ==> unsigned_value(cs@.skip(from as int), max as nat) == Some(v as nat),
        r is None ==> unsigned_value(cs@.skip(from as int), max as nat) is None,
{
    let ghost whole = cs@.skip(from as int);
    let mut start: usize = from;
    if from < cs.len() && cs[from] == '+' {
        start = from + 1;
    }
    let ghost digits = if whole.len() > 0 && whole[0] == '+' {
        whole.drop_first()
    } else {
        whole
    };
    assert(digits == cs@.skip(start as int));
    if start == cs.len() {
        return None;
    }
    let mut value: u128 = 0;
    let mut i: usize = start;
    while i < cs.len()
        invariant
            start <= i <= cs@.len(),
            digits == cs@.skip(start as int),
            all_digits(digits.take(i - start)),
            value == digits_value(digits.take(i - start)),
            value <= max,
            digits.len() > 0,
            whole == cs@.skip(from as int),
            digits == (if whole.len() > 0 && whole[0] == '+' {
                whole.drop_first()
            } else {
                whole
            }),
        decreases cs@.len() - i,
    {
        let c = cs[i];
        let ghost n = i - start;
        assert(digits[n] == c);
        if !('0' <= c && c <= '9') {
            assert(!is_digit(digits[n]));
            return None;
        }
        assert(digits.take(n + 1).drop_last() == digits.take(n));
        value = value * 10 + (c as u8 - 48) as u128;
        assert(all_digits(digits.take(n + 1))) by {
            assert forall|k: int| 0 <= k < n + 1 implies is_digit(
                #[trigger] digits.take(n + 1)[k],
            ) by {
                if k < n {
                    assert(is_digit(digits.take(n)[k]));
                }
            }
        }
        if value > max as u128 {
            proof {
                if all_digits(digits) {
                    lemma_digits_value_grows(digits, n + 1);
                }
            }
            return None;
        }
        i += 1;
    }
    assert(digits.take(digits.len() as int) == digits);
    Some(value as u64)
}

/// The position of the first `c` in `s`, or the length of `s` where there is none.
pub open spec fn first_index<T>(s: Seq<T>, c: T) -> int
    decreases s.len(),
{
    if s.len() == 0 || s[0] == c {
        0
    } else {
        1 + first_index(s.drop_first(), c)
    }
}

/// `first_index` is the only position with nothing equal to `c` before it and `c` (or the end) at it.
pub proof fn lemma_first_index<T>(s: Seq<T>, c: T, i: int)
    requires
        0 <= i <= s.len(),
        i < s.len() ==> s[i] == c,
        forall|j: int| 0 <= j < i ==> s[j] != c,
    ensures
        first_index(s, c) == i,
    decreases i,
{
    if i > 0 {
        assert(s[0] != c);
        assert forall|j: int| 0 <= j < i - 1 implies s.drop_first()[j] != c by {
            assert(s[j + 1] != c);
        }
        lemma_first_index(s.drop_first(), c, i - 1);
    }
}

/// The position of the first `c` at or after `from`, or the length of `cs`.
pub fn find_char(cs: &[char], from: usize, c: char) -> (r: usize)
    requires
        from <= cs@.len(),
    ensures
        from <= r <= cs@.len(),
        r - from == first_index(cs@.skip(from as int), c),
        forall|j: int| from <= j < r ==> cs@[j] != c,
        r < cs@.len() ==> cs@[r as int] == c,
{
    let mut i: usize = from;
    while i < cs.len() && cs[i] != c
        invariant
            from <= i <= cs@.len(),
            forall|j: int| from <= j < i ==> cs@[j] != c,
        decreases cs@.len() - i,
    {
        i += 1;
    }
    proof {
        let s = cs@.skip(from as int);
        assert forall|j: int| 0 <= j < i - from implies s[j] != c by {
            assert(cs@[from + j] != c);
        }
        lemma_first_index(s, c, i - from);
    }
    i
}

/// The position of the first `b` at or after `from`, or the length of `bs`.
pub fn find_byte(bs: &[u8], from: usize, b: u8) -> (r: usize)
    requires
        from <= bs@.len(),
    ensures
        from <= r <= bs@.len(),
        r - from == first_index(bs@.skip(from as int), b),
{
    let mut i: usize = from;
    while i < bs.len() && bs[i] != b
        invariant
            from <= i <= bs@.len(),
            forall|j: int| from <= j < i ==> bs@[j] != b,
        decreases bs@.len() - i,
    {
        i += 1;
    }
    proof {
        let s = bs@.skip(from as int);
        assert forall|j: int| 0 <= j < i - from implies s[j] != b by {
            assert(bs@[from + j] != b);
        }
        lemma_first_index(s, b, i - from);
    }
    i
}

/// What stands behind the last `c` in `s`, or all of `s` where there is none.
pub open spec fn after_last(s: Seq<char>, c: char) -> Seq<char>
    decreases s.len(),
{
    let i = first_index(s, c);
    if 0 <= i < s.len() {
        after_last(s.skip(i + 1), c)
    } else {
        s
    }
}

/// The start of what stands behind the last `c` in `cs[from..to]`.
pub fn last_start(cs: &[char], from: usize, to: usize, c: char) -> (r: usize)
    requires
        from <= to <= cs@.len(),
    ensures
        from <= r <= to,
        cs@.subrange(r as int, to as int) == after_last(cs@.subrange(from as int, to as int), c),
{
    let ghost whole = cs@.subrange(from as int, to as int);
    let mut start: usize = from;
    let mut i: usize = from;
    while i < to
        invariant
            from <= start <= i <= to <= cs@.len(),
            whole == cs@.subrange(from as int, to as int),
            after_last(cs@.subrange(start as int, to as int), c) == after_last(whole, c),
            forall|j: int| start <= j < i ==> cs@[j] != c,
        decreases to - i,
    {
        if cs[i] == c {
            proof {
                let rest = cs@.subrange(start as int, to as int);
                assert forall|j: int| 0 <= j < i - start implies rest[j] != c by {
                    assert(cs@[start + j] != c);
                }
                lemma_first_index(rest, c, i - start);
                assert(rest.skip(i - start + 1) == cs@.subrange(i + 1, to as int));
            }
            start = i + 1;
        }
        i += 1;
    }
    proof {
        let rest = cs@.subrange(start as int, to as int);
        assert forall|j: int| 0 <= j < rest.len() implies rest[j] != c by {
            assert(cs@[start + j] != c);
        }
        lemma_first_index(rest, c, rest.len() as int);
    }
    start
}

/// Whether `p` stands in `s` at position `i`.
pub open spec fn occurs_at<T>(s: Seq<T>, p: Seq<T>, i: int) -> bool {
    0 <= i && i + p.len() <= s.len() && s.subrange(i, i + p.len()) == p
}

/// Whether `p` stands somewhere in `s`.
pub open spec fn occurs<T>(s: Seq<T>, p: Seq<T>) -> bool {
    exists|i: int| occurs_at(s, p, i)
}

pub fn chars_occur_at(cs: &[char], p: &[char], at: usize) -> (r: bool)
    requires
        at <= cs@.len(),
    ensures
        r == occurs_at(cs@, p@, at as int),
{
    if p.len() > cs.len() - at {
        return false;
    }
    let mut k: usize = 0;
    while k < p.len()
        invariant
            at <= cs@.len(),
            k <= p@.len() <= cs.len() - at,
            forall|j: int| 0 <= j < k ==> cs@[at + j] == p@[j],
        decreases p@.len() - k,
    {
        if cs[at + k] != p[k] {
            assert(cs@.subrange(at as int, at + p@.len())[k as int] != p@[k as int]);
            return false;
        }
        k += 1;
    }
    assert(cs@.subrange(at as int, at + p@.len()) =~= p@);
    true
}

pub fn chars_occur(cs: &[char], p: &[char]) -> (r: bool)
    ensures
        r == occurs(cs@, p@),
{
    let mut i: usize = 0;
    while i <= cs.len()
        invariant
            i <= cs@.len() + 1,
            forall|j: int| 0 <= j < i ==> !occurs_at(cs@, p@, j),
        decreases cs@.len() + 1 - i,
    {
        if chars_occur_at(cs, p, i) {
            return true;
        }
        if i == cs.len() {
            return false;
        }
        i += 1;
    }
    false
}

pub fn bytes_occur_at(bs: &[u8], p: &[u8], at: usize) -> (r: bool)
    requires
        at <= bs@.len(),
    ensures
        r == occurs_at(bs@, p@, at as int),
{
    if p.len() > bs.len() - at {
        return false;
    }
    let mut k: usize = 0;
    while k < p.len()
        invariant
            at <= bs@.len(),
            k <= p@.len() <= bs.len() - at,
            forall|j: int| 0 <= j < k ==> bs@[at + j] == p@[j],
        decreases p@.len() - k,
    {
        if bs[at + k] != p[k] {
            assert(bs@.subrange(at as int, at + p@.len())[k as int] != p@[k as int]);
            return false;
        }
        k += 1;
    }
    assert(bs@.subrange(at as int, at + p@.len()) =~= p@);
    true
}

pub fn bytes_occur(bs: &[u8], p: &[u8]) -> (r: bool)
    ensures
        r == occurs(bs@, p@),
{
    let mut i: usize = 0;
    while i <= bs.len()
        invariant
            i <= bs@.len() + 1,
            forall|j: int| 0 <= j < i ==> !occurs_at(bs@, p@, j),
        decreases bs@.len() + 1 - i,
    {
        if bytes_occur_at(bs, p, i) {
            return true;
        }
        if i == bs.len() {
            return false;
        }
        i += 1;
    }
    false
}

/// ASCII lower case of one byte; every other byte is its own lower case.
pub open spec fn lower_byte(b: u8) -> u8 {
    if 65 <= b && b <= 90 {
        (b + 32) as u8
    } else {
        b
    }
}

/// `s` in ASCII lower case.
pub open spec fn lower_bytes(s: Seq<u8>) -> Seq<u8> {
    Seq::new(s.len(), |i: int| lower_byte(s[i]))
}

pub fn to_lower_bytes(bs: &[u8]) -> (r: Vec<u8>)
    ensures
        r@ == lower_bytes(bs@),
{
    let mut r: Vec<u8> = Vec::new();
    let mut i: usize = 0;
    while i < bs.len()
        invariant
            i <= bs@.len(),
            r@ == lower_bytes(bs@).take(i as int),
        decreases bs@.len() - i,
    {
        let b: u8 = bs[i];
        if 65 <= b && b <= 90 {
            r.push(b + 32);
        } else {
            r.push(b);
        }
        i += 1;
    }
    r
}

/// Appends `bytes`.
pub fn push_bytes(out: &mut Vec<u8>, bytes: &[u8])
    ensures
        final(out)@ == old(out)@ + bytes@,
{
    let mut i: usize = 0;
    while i < bytes.len()
        invariant
            i <= bytes@.len(),
            out@ == old(out)@ + bytes@.take(i as int),
        decreases bytes@.len() - i,
    {
        out.push(bytes[i]);
        i += 1;
    }
    assert(bytes@.take(i as int) == bytes@);
}

/// `s` in ASCII lower case.
pub open spec fn lower(s: Seq<char>) -> Seq<char> {
    Seq::new(s.len(), |i: int| lower_char(s[i]))
}

pub fn to_lower(cs: &[char]) -> (r: Vec<char>)
    ensures
        r@ == lower(cs@),
{
    let mut r: Vec<char> = Vec::new();
    let mut i: usize = 0;
    while i < cs.len()
        invariant
            i <= cs@.len(),
            r@ == lower(cs@).take(i as int),
        decreases cs@.len() - i,
    {
        r.push(to_lower_char(cs[i]));
        i += 1;
    }
    r
}

/// Whether two texts are the same up to ASCII case.
pub fn same_ignoring_case(a: &str, b: &str) -> (r: bool)
    ensures
        r == (lower(a@) == lower(b@)),
{
    let x = to_lower(chars_of(a).as_slice());
    let y = to_lower(chars_of(b).as_slice());
    if x.len() != y.len() {
        return false;
    }
    assert(x@.subrange(0, y@.len() as int) == x@);
    chars_occur_at(x.as_slice(), y.as_slice(), 0)
}

/// `s` without any leading repetitions of `p`.
pub open spec fn strip_prefixes(s: Seq<char>, p: Seq<char>) -> Seq<char>
    decreases s.len(),
{
    if p.len() > 0 && occurs_at(s, p, 0) {
        strip_prefixes(s.skip(p.len() as int), p)
    } else {
        s
    }
}

/// The position in `cs` behind the repetitions of `p` that stand at `from`.
pub fn skip_prefixes(cs: &[char], from: usize, p: &[char]) -> (r: usize)
    requires
        from <= cs@.len(),
        p@.len() > 0,
    ensures
        from <= r <= cs@.len(),
        cs@.skip(r as int) == strip_prefixes(cs@.skip(from as int), p@),
{
    let mut i: usize = from;
    while chars_occur_at(cs, p, i)
        invariant
            from <= i <= cs@.len(),
            p@.len() > 0,
            strip_prefixes(cs@.skip(i as int), p@) == strip_prefixes(cs@.skip(from as int), p@),
        decreases cs@.len() - i,
    {
        let ghost rest = cs@.skip(i as int);
        assert(rest.subrange(0, p@.len() as int) == cs@.subrange(i as int, i + p@.len()));
        assert(rest.skip(p@.len() as int) == cs@.skip(i + p@.len()));
        assert(i + p.len() <= cs.len());
        i += p.len();
    }
    proof {
        let rest = cs@.skip(i as int);
        if occurs_at(rest, p@, 0) {
            assert(rest.subrange(0, p@.len() as int) == cs@.subrange(i as int, i + p@.len()));
        }
    }
    i
}

/// `s` without any trailing repetitions of `c`.
pub open spec fn strip_trailing(s: Seq<char>, c: char) -> Seq<char>
    decreases s.len(),
{
    if s.len() > 0 && s.last() == c {
        strip_trailing(s.drop_last(), c)
    } else {
        s
    }
}

/// The end of `cs[from..]` without its trailing repetitions of `c`.
pub fn trailing_start(cs: &[char], from: usize, c: char) -> (r: usize)
    requires
        from <= cs@.len(),
    ensures
        from <= r <= cs@.len(),
        cs@.subrange(from as int, r as int) == strip_trailing(cs@.skip(from as int), c),
{
    let mut end: usize = cs.len();
    assert(cs@.subrange(from as int, end as int) == cs@.skip(from as int));
    while end > from && cs[end - 1] == c
        invariant
            from <= end <= cs@.len(),
            strip_trailing(cs@.subrange(from as int, end as int), c) == strip_trailing(
                cs@.skip(from as int),
                c,
            ),
        decreases end,
    {
        assert(cs@.subrange(from as int, end as int).drop_last() == cs@.subrange(
            from as int,
            end - 1,
        ));
        end -= 1;
    }
    end
}

/// A character in a Prometheus label value: a backslash goes before a double
/// quote and a backslash, and a line feed is written as `\n`.
pub open spec fn label_char(c: char) -> Seq<char> {
    if c == '"' || c == '\\' {
        seq!['\\', c]
    } else if c == '\n' {
        seq!['\\', 'n']
    } else {
        seq![c]
    }
}

/// `s` as it stands in a Prometheus label value.
pub open spec fn label_escaped(s: Seq<char>) -> Seq<char>
    decreases s.len(),
{
    if s.len() == 0 {
        s
    } else {
        label_escaped(s.drop_last()) + label_char(s.last())
    }
}

pub fn escape_label(s: &str) -> (r: String)
    ensures
        r@ == label_escaped(s@),
{
    let cs = chars_of(s);
    let mut r = String::new();
    let mut i: usize = 0;
    while i < cs.len()
        invariant
            i <= cs@.len(),
            cs@ == s@,
            r@ == label_escaped(s@.take(i as int)),
        decreases cs@.len() - i,
    {
        assert(s@.take(i + 1).drop_last() == s@.take(i as int));
        let c = cs[i];
        let ghost before = r@;
        if c == '"' || c == '\\' {
            r.push('\\');
            r.push(c);
        } else if c == '\n' {
            r.push('\\');
            r.push('n');
        } else {
            r.push(c);
        }
        assert(r@ == before + label_char(c));
        i += 1;
    }
    assert(s@.take(i as int) == s@);
    r
}

/// Reads a Prometheus label value whose opening quote was read: the value and
/// what follows the closing quote.
pub open spec fn read_label(t: Seq<char>) -> Option<(Seq<char>, Seq<char>)>
    decreases t.len(),
{
    if t.len() == 0 || t[0] == '\n' {
        None
    } else if t[0] == '"' {
        Some((Seq::empty(), t.skip(1)))
    } else {
        let (c, n): (Option<char>, int) = if t[0] != '\\' {
            (Some(t[0]), 1)
        } else if t.len() > 1 && (t[1] == '"' || t[1] == '\\') {
            (Some(t[1]), 2)
        } else if t.len() > 1 && t[1] == 'n' {
            (Some('\n'), 2)
        } else {
            (None, 1)
        };
        match (c, read_label(t.skip(n))) {
            (Some(c), Some((value, rest))) => Some((seq![c] + value, rest)),
            _ => None,
        }
    }
}

proof fn lemma_label_escaped_front(s: Seq<char>)
    requires
        s.len() > 0,
    ensures
        label_escaped(s) == label_char(s[0]) + label_escaped(s.drop_first()),
    decreases s.len(),
{
    if s.len() == 1 {
        assert(s.drop_last() == Seq::<char>::empty());
        assert(s.drop_first() == Seq::<char>::empty());
        assert(label_escaped(s) == label_char(s[0]) + label_escaped(s.drop_first()));
    } else {
        lemma_label_escaped_front(s.drop_last());
        assert(s.drop_last().drop_first() == s.drop_first().drop_last());
        assert(label_escaped(s) == label_char(s[0]) + label_escaped(s.drop_first()));
    }
}

/// Whatever a text holds, reading the label value that it was written into gives
/// it back, and the value ends just where it was ended.
pub proof fn law_label_reads_back(s: Seq<char>, rest: Seq<char>)
    ensures
        read_label(label_escaped(s) + seq!['"'] + rest) == Some((s, rest)),
    decreases s.len(),
{
    let t = label_escaped(s) + seq!['"'] + rest;
    if s.len() == 0 {
        assert(t.skip(1) == rest);
        assert(s == Seq::<char>::empty());
    } else {
        let tail = s.drop_first();
        lemma_label_escaped_front(s);
        law_label_reads_back(tail, rest);
        let after = label_escaped(tail) + seq!['"'] + rest;
        let own = label_char(s[0]);
        assert(t == own + after);
        assert(t.skip(own.len() as int) == after);
        assert forall|k: int| 0 <= k < own.len() implies #[trigger] t[k] == own[k] by {}
        assert(seq![s[0]] + tail == s);
    }
}

/// The first line of `s`: what stands before the first line feed, without one
/// carriage return right before it.
pub open spec fn first_line(s: Seq<u8>) -> Seq<u8> {
    let end = first_index(s, 10u8);
    if 0 < end < s.len() && s[end - 1] == 13 {
        s.take(end - 1)
    } else {
        s.take(end)
    }
}

/// The end of the first line of `bs`.
pub fn first_line_end(bs: &[u8]) -> (r: usize)
    ensures
        r <= bs@.len(),
        bs@.take(r as int) == first_line(bs@),
{
    let end = find_byte(bs, 0, 10);
    assert(bs@.skip(0) == bs@);
    if 0 < end && end < bs.len() && bs[end - 1] == 13 {
        end - 1
    } else {
        end
    }
}

/// Whether a carriage return and a line feed stand at position `i`.
pub open spec fn crlf_at(s: Seq<u8>, i: int) -> bool {
    0 <= i && i + 1 < s.len() && s[i] == 13 && s[i + 1] == 10
}

pub open spec fn crlf() -> Seq<u8> {
    seq![13u8, 10u8]
}

/// The position of the first CRLF in `s`, or the length of `s`.
pub open spec fn line_end(s: Seq<u8>) -> int
    decreases s.len(),
{
    if s.len() == 0 || crlf_at(s, 0) {
        0
    } else {
        1 + line_end(s.drop_first())
    }
}

pub proof fn lemma_line_end_bound(s: Seq<u8>)
    ensures
        0 <= line_end(s) <= s.len(),
        line_end(s) < s.len() ==> crlf_at(s, line_end(s)),
        forall|j: int| 0 <= j < line_end(s) ==> !crlf_at(s, j),
    decreases s.len(),
{
    if s.len() > 0 && !crlf_at(s, 0) {
        let t = s.drop_first();
        lemma_line_end_bound(t);
        assert forall|j: int| 0 <= j < line_end(s) implies !crlf_at(s, j) by {
            if j > 0 {
                assert(!crlf_at(t, j - 1));
            }
        }
        if line_end(s) < s.len() {
            assert(crlf_at(t, line_end(t)));
        }
    }
}

pub proof fn lemma_line_end(s: Seq<u8>, i: int)
    requires
        0 <= i <= s.len(),
        i < s.len() ==> crlf_at(s, i),
        forall|j: int| 0 <= j < i ==> !crlf_at(s, j),
    ensures
        line_end(s) == i,
{
    lemma_line_end_bound(s);
    let e = line_end(s);
    if e < i {
        assert(!crlf_at(s, e));
    } else if i < e {
        assert(!crlf_at(s, i));
    }
}

/// The pieces of `s` between CRLFs.
pub open spec fn split_lines(s: Seq<u8>) -> Seq<Seq<u8>>
    decreases s.len(),
    via split_lines_decreases
{
    let end = line_end(s);
    if end < s.len() {
        seq![s.take(end)] + split_lines(s.skip(end + 2))
    } else {
        seq![s]
    }
}

#[via_fn]
proof fn split_lines_decreases(s: Seq<u8>) {
    lemma_line_end_bound(s);
}

/// The end of the line that starts at `from`: the next CRLF, or the end of `bs`.
pub fn find_line_end(bs: &[u8], from: usize) -> (r: usize)
    requires
        from <= bs@.len(),
    ensures
        from <= r <= bs@.len(),
        r - from == line_end(bs@.skip(from as int)),
        r < bs@.len() ==> r + 2 <= bs@.len(),
{
    let mut i: usize = from;
    let ghost rest = bs@.skip(from as int);
    while i < bs.len() && !(bs.len() - i >= 2 && bs[i] == 13 && bs[i + 1] == 10)
        invariant
            from <= i <= bs@.len(),
            rest == bs@.skip(from as int),
            forall|j: int| 0 <= j < i - from ==> !crlf_at(rest, j),
        decreases bs@.len() - i,
    {
        assert(!crlf_at(rest, i - from));
        i += 1;
    }
    proof {
        lemma_line_end(rest, i - from);
    }
    i
}

pub proof fn lemma_decimal_digits(n: nat)
    ensures
        decimal(n).len() > 0,
        all_digits(decimal(n)),
        digits_value(decimal(n)) == n,
    decreases n,
{
    if n < 10 {
        assert(decimal(n) == seq![digit(n)]);
        assert(digits_value(decimal(n).drop_last()) == 0);
    } else {
        lemma_decimal_digits(n / 10);
        let front = decimal(n / 10);
        let all = decimal(n);
        assert(all.drop_last() == front);
        assert forall|i: int| 0 <= i < all.len() implies is_digit(#[trigger] all[i]) by {
            if i < front.len() {
                assert(is_digit(front[i]));
            }
        }
    }
}

/// A number in decimal notation is read as itself.
pub proof fn law_decimal_reads_back(n: nat, max: nat)
    requires
        n <= max,
    ensures
        unsigned_value(decimal(n), max) == Some(n),
{
    lemma_decimal_digits(n);
    assert(is_digit(decimal(n)[0]));
}

/// Lower case changes the letters `A` to `Z` only, each to the letter 32 code points
/// further on, and keeps every place.
pub proof fn law_lower_case(s: Seq<char>, i: int)
    requires
        0 <= i < s.len(),
    ensures
        lower(s).len() == s.len(),
        65 <= s[i] as u32 <= 90 ==> lower(s)[i] as u32 == s[i] as u32 + 32,
        !(65 <= s[i] as u32 <= 90) ==> lower(s)[i] == s[i],
        !(65 <= lower(s)[i] as u32 <= 90),
{
    let c = s[i];
    if 'A' <= c && c <= 'Z' {
        assert(c as u8 as u32 == c as u32);
    }
}

/// Two texts are the same up to case just if they are of one length and differ, if
/// at all, in the case of letters.
pub proof fn law_same_up_to_case(a: Seq<char>, b: Seq<char>)
    ensures
        lower(a) == lower(b) <==> a.len() == b.len() && forall|i: int|
            0 <= i < a.len() ==> #[trigger] a[i] == b[i] || (65 <= a[i] as u32 <= 90 && b[i] as u32
                == a[i] as u32 + 32) || (65 <= b[i] as u32 <= 90 && a[i] as u32 == b[i] as u32
                + 32),
{
    if lower(a) == lower(b) {
        assert(lower(a).len() == lower(b).len());
        assert forall|i: int| 0 <= i < a.len() implies #[trigger] a[i] == b[i] || (65
            <= a[i] as u32 <= 90 && b[i] as u32 == a[i] as u32 + 32) || (65 <= b[i] as u32 <= 90
            && a[i] as u32 == b[i] as u32 + 32) by {
            assert(lower(a)[i] == lower(b)[i]);
            law_lower_case(a, i);
            law_lower_case(b, i);
            char_u32_cast(a[i], a[i] as u32);
            char_u32_cast(b[i], b[i] as u32);
        }
    }
    if a.len() == b.len() && forall|i: int|
        0 <= i < a.len() ==> #[trigger] a[i] == b[i] || (65 <= a[i] as u32 <= 90 && b[i] as u32
            == a[i] as u32 + 32) || (65 <= b[i] as u32 <= 90 && a[i] as u32 == b[i] as u32 + 32) {
        assert forall|i: int| 0 <= i < a.len() implies lower(a)[i] == lower(b)[i] by {
            law_lower_case(a, i);
            law_lower_case(b, i);
            assert(a[i] == b[i] || (65 <= a[i] as u32 <= 90 && b[i] as u32 == a[i] as u32 + 32)
                || (65 <= b[i] as u32 <= 90 && a[i] as u32 == b[i] as u32 + 32));
            char_u32_cast(lower(a)[i], lower(a)[i] as u32);
            char_u32_cast(lower(b)[i], lower(b)[i] as u32);
        }
        assert(lower(a) == lower(b));
    }
}

/// Lower case of bytes changes the bytes 65 to 90 only, each by 32.
pub proof fn law_lower_case_of_bytes(s: Seq<u8>, i: int)
    requires
        0 <= i < s.len(),
    ensures
        lower_bytes(s).len() == s.len(),
        65 <= s[i] <= 90 ==> lower_bytes(s)[i] == s[i] + 32,
        !(65 <= s[i] <= 90) ==> lower_bytes(s)[i] == s[i],
{
}

/// Decimal notation puts the last digit behind the notation of the tenth, and a
/// number below ten is its digit alone.
pub proof fn law_decimal_is_positional(n: nat)
    ensures
        decimal(n).len() > 0,
        decimal(n).last() as u32 == 48 + n % 10,
        n < 10 ==> decimal(n).len() == 1,
        n >= 10 ==> decimal(n).drop_last() == decimal(n / 10),
{
    if n >= 10 {
        assert(decimal(n).drop_last() == decimal(n / 10));
    }
    let d = n % 10;
    assert(digit(d) as u32 == 48 + d);
}

/// A minus sign stands in front of a negative number, and of no other.
pub proof fn law_signed_decimal(n: int)
    ensures
        n >= 0 ==> signed_decimal(n) == decimal(n as nat),
        n < 0 ==> signed_decimal(n).len() > 0 && signed_decimal(n)[0] == '-' && signed_decimal(
            n,
        ).drop_first() == decimal((0 - n) as nat),
{
    if n < 0 {
        assert(signed_decimal(n).drop_first() == decimal((0 - n) as nat));
    }
}

/// A text is read as a number just if it is made of digits, perhaps behind one
/// plus sign; one more digit makes the number ten times as large and adds itself.
pub proof fn law_number_reading(s: Seq<char>, c: char, max: nat)
    ensures
        unsigned_value(Seq::empty(), max) is None,
        unsigned_value(seq!['+'], max) is None,
        48 <= c as u32 <= 57 && c as u32 - 48 <= max ==> unsigned_value(seq![c], max) == Some(
            (c as u32 - 48) as nat,
        ),
        !(48 <= c as u32 <= 57) && s.len() > 0 ==> unsigned_value(s.push(c), max) is None,
        48 <= c as u32 <= 57 ==> match unsigned_value(s, max) {
            Some(v) => unsigned_value(s.push(c), max) == (if v * 10 + (c as u32 - 48) <= max {
                Some((v * 10 + (c as u32 - 48)) as nat)
            } else {
                None
            }),
            None => s.len() > 0 && s != seq!['+'] ==> unsigned_value(s.push(c), max) is None,
        },
        s.len() > 0 && s[0] != '+' ==> unsigned_value(seq!['+'] + s, max) == unsigned_value(s, max),
{
    let t = s.push(c);
    let plus = seq!['+'];
    assert(plus.drop_first() == Seq::<char>::empty());
    assert(seq![c].drop_last() == Seq::<char>::empty());
    assert(digits_value(Seq::<char>::empty()) == 0);
    assert(digits_value(seq![c]) == (c as nat - 48) as nat);
    assert((seq!['+'] + s).drop_first() == s);
    if 48 <= c as u32 <= 57 {
        assert(all_digits(seq![c]));
        assert(seq![c][0] == c);
    }
    if s.len() > 0 {
        let d = if s[0] == '+' {
            s.drop_first()
        } else {
            s
        };
        let e = if t[0] == '+' {
            t.drop_first()
        } else {
            t
        };
        assert(e == d.push(c));
        assert(e.drop_last() == d);
        assert(e.last() == c);
        if is_digit(c) && all_digits(d) {
            assert forall|i: int| 0 <= i < e.len() implies is_digit(#[trigger] e[i]) by {
                if i < d.len() {
                    assert(is_digit(d[i]));
                }
            }
        }
        if all_digits(e) {
            assert forall|i: int| 0 <= i < d.len() implies is_digit(#[trigger] d[i]) by {
                assert(is_digit(e[i]));
            }
            assert(is_digit(e[d.len() as int]));
        }
        if d.len() == 0 {
            assert(s == seq!['+']);
        }
        assert(digits_value(e) == digits_value(d) * 10 + (c as nat - 48) as nat);
    }
}

/// The first index of something is where it stands for the first time, or the end.
pub proof fn law_first_index<T>(s: Seq<T>, c: T)
    ensures
        0 <= first_index(s, c) <= s.len(),
        first_index(s, c) < s.len() ==> s[first_index(s, c)] == c,
        forall|j: int| 0 <= j < first_index(s, c) ==> #[trigger] s[j] != c,
    decreases s.len(),
{
    if s.len() > 0 && s[0] != c {
        let t = s.drop_first();
        law_first_index(t, c);
        assert forall|j: int| 0 <= j < first_index(s, c) implies #[trigger] s[j] != c by {
            if j > 0 {
                assert(t[j - 1] != c);
            }
        }
    }
}

/// What stands behind the last `c` holds no `c`; it is all of the text, or stands at
/// its end right behind a `c`.
pub proof fn law_after_last(s: Seq<char>, c: char)
    ensures
        ({
            let r = after_last(s, c);
            let start = s.len() - r.len();
            &&& 0 <= start
            &&& r == s.skip(start)
            &&& start > 0 ==> s[start - 1] == c
            &&& forall|i: int| 0 <= i < r.len() ==> #[trigger] r[i] != c
        }),
    decreases s.len(),
{
    law_first_index(s, c);
    let i = first_index(s, c);
    if i < s.len() {
        let t = s.skip(i + 1);
        law_after_last(t, c);
        let r = after_last(t, c);
        assert(t.skip(t.len() - r.len()) == s.skip(s.len() - r.len()));
        if t.len() - r.len() > 0 {
            assert(t[t.len() - r.len() - 1] == s[s.len() - r.len() - 1]);
        }
    } else {
        assert(s.skip(0) == s);
    }
}

/// `p` stands in `s` at `i` just if each of its elements stands there.
pub proof fn law_occurrence<T>(s: Seq<T>, p: Seq<T>, i: int)
    ensures
        occurs_at(s, p, i) <==> 0 <= i && i + p.len() <= s.len() && forall|k: int|
            0 <= k < p.len() ==> s[i + k] == #[trigger] p[k],
        occurs_at(s, p, i) ==> occurs(s, p),
{
    if occurs_at(s, p, i) {
        assert forall|k: int| 0 <= k < p.len() implies s[i + k] == #[trigger] p[k] by {
            assert(s.subrange(i, i + p.len())[k] == p[k]);
        }
    }
    if 0 <= i && i + p.len() <= s.len() && forall|k: int|
        0 <= k < p.len() ==> s[i + k] == #[trigger] p[k] {
        assert(s.subrange(i, i + p.len()) =~= p);
    }
}

/// What was stripped of a prefix does not start with it any more, and only
/// repetitions of it were taken away.
pub proof fn law_prefixes_are_stripped(s: Seq<char>, p: Seq<char>)
    requires
        p.len() > 0,
    ensures
        !occurs_at(strip_prefixes(s, p), p, 0),
        strip_prefixes(p + s, p) == strip_prefixes(s, p),
        !occurs_at(s, p, 0) ==> strip_prefixes(s, p) == s,
    decreases s.len(),
{
    assert((p + s).subrange(0, p.len() as int) == p);
    assert((p + s).skip(p.len() as int) == s);
    if occurs_at(s, p, 0) {
        law_prefixes_are_stripped(s.skip(p.len() as int), p);
    }
}

/// What was stripped at its end does not end with that character any more, and
/// only repetitions of it were taken away.
pub proof fn law_end_is_stripped(s: Seq<char>, c: char)
    ensures
        strip_trailing(s, c).len() > 0 ==> strip_trailing(s, c).last() != c,
        strip_trailing(s.push(c), c) == strip_trailing(s, c),
        s.len() > 0 && s.last() != c ==> strip_trailing(s, c) == s,
        s.len() == 0 ==> strip_trailing(s, c) == s,
    decreases s.len(),
{
    assert(s.push(c).drop_last() == s);
    if s.len() > 0 && s.last() == c {
        law_end_is_stripped(s.drop_last(), c);
    }
}

/// The first line holds no line feed, starts the text, and is followed by a line end
/// (a line feed, or a carriage return and a line feed) or by nothing.
pub proof fn law_first_line(s: Seq<u8>)
    ensures
        ({
            let l = first_line(s);
            let rest = s.skip(l.len() as int);
            &&& l.len() <= s.len()
            &&& l == s.take(l.len() as int)
            &&& forall|i: int| 0 <= i < l.len() ==> #[trigger] l[i] != 10
            &&& rest.len() > 0 ==> rest[0] == 10 || (rest.len() > 1 && rest[0] == 13 && rest[1]
                == 10)
            &&& rest.len() > 0 && rest[0] == 10 && l.len() > 0 ==> l.last() != 13
        }),
{
    law_first_index(s, 10u8);
}

/// The pieces of a text, put together again with CRLFs between them, are the text.
pub proof fn law_pieces_join(s: Seq<u8>)
    ensures
        split_lines(s).len() > 0,
        joined_by_crlf(split_lines(s)) == s,
    decreases s.len(),
{
    lemma_line_end_bound(s);
    let end = line_end(s);
    let all = split_lines(s);
    if end < s.len() {
        let rest = s.skip(end + 2);
        law_pieces_join(rest);
        assert(all.drop_first() == split_lines(rest));
        assert(all.len() > 1);
        assert(s == s.take(end) + seq![13u8, 10u8] + rest) by {
            assert(crlf_at(s, end));
        }
    } else {
        assert(all.len() == 1);
    }
}

/// Lines with CRLFs between them.
pub open spec fn joined_by_crlf(lines: Seq<Seq<u8>>) -> Seq<u8>
    decreases lines.len(),
{
    if lines.len() == 0 {
        Seq::empty()
    } else if lines.len() == 1 {
        lines[0]
    } else {
        lines[0] + seq![13u8, 10u8] + joined_by_crlf(lines.drop_first())
    }
}

/// No piece holds a CRLF.
pub proof fn law_pieces_are_lines(s: Seq<u8>, k: int, i: int)
    requires
        0 <= k < split_lines(s).len(),
        0 <= i,
        i + 1 < split_lines(s)[k].len(),
    ensures
        !(split_lines(s)[k][i] == 13 && split_lines(s)[k][i + 1] == 10),
    decreases s.len(),
{
    lemma_line_end_bound(s);
    let end = line_end(s);
    if end < s.len() {
        if k == 0 {
            assert(!crlf_at(s, i));
        } else {
            assert(split_lines(s)[k] == split_lines(s.skip(end + 2))[k - 1]);
            law_pieces_are_lines(s.skip(end + 2), k - 1, i);
        }
    } else {
        assert(!crlf_at(s, i));
    }
}

} // verus!
