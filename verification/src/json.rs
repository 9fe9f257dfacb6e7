//! JSON: values, their text, and how the text is read.

use crate::text::{chars_of, decimal, push_decimal, push_signed_decimal, signed_decimal};
use crate::text::{all_digits, digits_value, is_digit, lemma_decimal_digits};
use vstd::prelude::*;

verus! {

/// The lower-case hexadecimal digit of `d`, for `d < 16`.
pub open spec fn hex_digit(d: int) -> char {
    if d < 10 {
        (48 + d) as char
    } else {
        (87 + d) as char
    }
}

/// The value of a hexadecimal digit, in lower case.
pub open spec fn hex_digit_value(c: char) -> Option<int> {
    if '0' <= c && c <= '9' {
        Some(c as int - 48)
    } else if 'a' <= c && c <= 'f' {
        Some(c as int - 87)
    } else {
        None
    }
}

/// A character in a JSON string: a backslash goes before a double quote and a
/// backslash, and a control character is written by its number.
pub open spec fn json_char(c: char) -> Seq<char> {
    if c == '"' || c == '\\' {
        seq!['\\', c]
    } else if '\0' <= c && c <= '\u{1f}' {
        seq!['\\', 'u', '0', '0', hex_digit(c as int / 16), hex_digit(c as int % 16)]
    } else {
        seq![c]
    }
}

/// `s` as it stands in a JSON string.
pub open spec fn json_escaped(s: Seq<char>) -> Seq<char>
    decreases s.len(),
{
    if s.len() == 0 {
        s
    } else {
        json_escaped(s.drop_last()) + json_char(s.last())
    }
}

pub fn escape_json(s: &str) -> (r: String)
    ensures
        r@ == json_escaped(s@),
{
    let cs = chars_of(s);
    let mut r = String::new();
    let mut i: usize = 0;
    while i < cs.len()
        invariant
            i <= cs@.len(),
            cs@ == s@,
            r@ == json_escaped(s@.take(i as int)),
        decreases cs@.len() - i,
    {
        assert(s@.take(i + 1).drop_last() == s@.take(i as int));
        let c = cs[i];
        let ghost before = r@;
        if c == '"' || c == '\\' {
            r.push('\\');
            r.push(c);
        } else if '\0' <= c && c <= '\u{1f}' {
            let n: u8 = c as u8;
            r.push('\\');
            r.push('u');
            r.push('0');
            r.push('0');
            r.push((48 + n / 16) as char);
            if n % 16 < 10 {
                r.push((48 + n % 16) as char);
            } else {
                r.push((87 + n % 16) as char);
            }
        } else {
            r.push(c);
        }
        assert(r@ == before + json_char(c));
        i += 1;
    }
    assert(s@.take(i as int) == s@);
    r
}

/// Reads a JSON string whose opening quote was read: its value and what follows
/// the closing quote.
pub open spec fn read_json_string(t: Seq<char>) -> Option<(Seq<char>, Seq<char>)>
    decreases t.len(),
{
    if t.len() == 0 {
        None
    } else if t[0] == '"' {
        Some((Seq::empty(), t.skip(1)))
    } else {
        let (c, n): (Option<char>, int) = if '\0' <= t[0] && t[0] <= '\u{1f}' {
            (None, 1)
        } else if t[0] != '\\' {
            (Some(t[0]), 1)
        } else if t.len() > 1 && (t[1] == '"' || t[1] == '\\') {
            (Some(t[1]), 2)
        } else if t.len() > 5 && t[1] == 'u' && t[2] == '0' && t[3] == '0' {
            match (hex_digit_value(t[4]), hex_digit_value(t[5])) {
                (Some(a), Some(b)) => (Some((a * 16 + b) as char), 6),
                _ => (None, 1),
            }
        } else {
            (None, 1)
        };
        match (c, read_json_string(t.skip(n))) {
            (Some(c), Some((value, rest))) => Some((seq![c] + value, rest)),
            _ => None,
        }
    }
}

proof fn lemma_json_escaped_front(s: Seq<char>)
    requires
        s.len() > 0,
    ensures
        json_escaped(s) == json_char(s[0]) + json_escaped(s.drop_first()),
    decreases s.len(),
{
    if s.len() == 1 {
        assert(s.drop_last() == Seq::<char>::empty());
        assert(s.drop_first() == Seq::<char>::empty());
        assert(json_escaped(s) == json_char(s[0]) + json_escaped(s.drop_first()));
    } else {
        lemma_json_escaped_front(s.drop_last());
        assert(s.drop_last().drop_first() == s.drop_first().drop_last());
        assert(json_escaped(s) == json_char(s[0]) + json_escaped(s.drop_first()));
    }
}

/// Whatever a text holds, reading the JSON string that it was written into gives
/// it back, and the string ends just where it was ended.
pub proof fn law_json_string_reads_back(s: Seq<char>, rest: Seq<char>)
    ensures
        read_json_string(json_escaped(s) + seq!['"'] + rest) == Some((s, rest)),
    decreases s.len(),
{
    let t = json_escaped(s) + seq!['"'] + rest;
    if s.len() == 0 {
        assert(t.skip(1) == rest);
        assert(s == Seq::<char>::empty());
    } else {
        let tail = s.drop_first();
        lemma_json_escaped_front(s);
        law_json_string_reads_back(tail, rest);
        let after = json_escaped(tail) + seq!['"'] + rest;
        let own = json_char(s[0]);
        assert(t == own + after);
        assert(t.skip(own.len() as int) == after);
        assert forall|k: int| 0 <= k < own.len() implies #[trigger] t[k] == own[k] by {}
        assert(seq![s[0]] + tail == s);
        let c = s[0];
        if c == '"' || c == '\\' {
            assert(t[0] == own[0] && t[1] == own[1]);
        } else if '\0' <= c && c <= '\u{1f}' {
            let x = c as int;
            assert(t[0] == own[0] && t[1] == own[1] && t[2] == own[2] && t[3] == own[3] && t[4]
                == own[4] && t[5] == own[5]);
            assert(hex_digit_value(hex_digit(x / 16)) == Some(x / 16));
            assert(hex_digit_value(hex_digit(x % 16)) == Some(x % 16));
            assert((x / 16 * 16 + x % 16) as char == c);
        } else {
            assert(t[0] == own[0]);
        }
    }
}

/// A JSON value; its numbers are whole.
pub enum Json {
    Number(int),
    Bool(bool),
    Text(Seq<char>),
    List(Seq<Json>),
    Object(Seq<Member>),
}

/// A member of a JSON object.
pub struct Member {
    pub key: Seq<char>,
    pub value: Json,
}

/// The text of a JSON value.
pub open spec fn json_text(v: Json) -> Seq<char>
    decreases v,
{
    match v {
        Json::Number(n) => signed_decimal(n),
        Json::Bool(b) => if b {
            "true"@
        } else {
            "false"@
        },
        Json::Text(s) => json_string(s),
        Json::List(items) => seq!['['] + items_text(items) + seq![']'],
        Json::Object(members) => seq!['{'] + members_text(members) + seq!['}'],
    }
}

/// A JSON string.
pub open spec fn json_string(s: Seq<char>) -> Seq<char> {
    seq!['"'] + json_escaped(s) + seq!['"']
}

/// The items of a list, separated by commas.
pub open spec fn items_text(items: Seq<Json>) -> Seq<char>
    decreases items,
{
    if items.len() == 0 {
        Seq::empty()
    } else if items.len() == 1 {
        json_text(items[0])
    } else {
        json_text(items[0]) + seq![','] + items_text(items.subrange(1, items.len() as int))
    }
}

/// The members of an object, separated by commas.
pub open spec fn members_text(members: Seq<Member>) -> Seq<char>
    decreases members,
{
    if members.len() == 0 {
        Seq::empty()
    } else {
        let first = json_string(members[0].key) + seq![':'] + json_text(members[0].value);
        if members.len() == 1 {
            first
        } else {
            first + seq![','] + members_text(members.subrange(1, members.len() as int))
        }
    }
}

/// How many digits `t` starts with.
pub open spec fn digit_run(t: Seq<char>) -> int
    decreases t.len(),
{
    if t.len() == 0 || !is_digit(t[0]) {
        0
    } else {
        1 + digit_run(t.drop_first())
    }
}

/// Whether `word` starts `t`.
pub open spec fn starts_with(t: Seq<char>, word: Seq<char>) -> bool {
    t.len() >= word.len() && t.take(word.len() as int) == word
}

/// Reads a whole number: a minus sign or not, and digits without a leading zero.
pub open spec fn read_number(t: Seq<char>) -> Option<(int, Seq<char>)> {
    let minus = t.len() > 0 && t[0] == '-';
    let u = if minus {
        t.drop_first()
    } else {
        t
    };
    let n = digit_run(u);
    if n == 0 || (n > 1 && u[0] == '0') {
        None
    } else {
        let value = digits_value(u.take(n)) as int;
        Some((if minus { -value } else { value }, u.skip(n)))
    }
}

/// Reads the JSON value that starts `t`, written without white space: the value and
/// what follows it.
pub open spec fn read_json(t: Seq<char>) -> Option<(Json, Seq<char>)>
    decreases t.len(), 1int,
{
    if t.len() == 0 {
        None
    } else if t[0] == '"' {
        match read_json_string(t.skip(1)) {
            Some((s, rest)) => Some((Json::Text(s), rest)),
            None => None,
        }
    } else if t[0] == '[' {
        if t.len() > 1 && t[1] == ']' {
            Some((Json::List(Seq::empty()), t.skip(2)))
        } else {
            match read_items(t.skip(1)) {
                Some((items, rest)) => Some((Json::List(items), rest)),
                None => None,
            }
        }
    } else if t[0] == '{' {
        if t.len() > 1 && t[1] == '}' {
            Some((Json::Object(Seq::empty()), t.skip(2)))
        } else {
            match read_members(t.skip(1)) {
                Some((members, rest)) => Some((Json::Object(members), rest)),
                None => None,
            }
        }
    } else if starts_with(t, "true"@) {
        Some((Json::Bool(true), t.skip(4)))
    } else if starts_with(t, "false"@) {
        Some((Json::Bool(false), t.skip(5)))
    } else {
        match read_number(t) {
            Some((n, rest)) => Some((Json::Number(n), rest)),
            None => None,
        }
    }
}

/// Reads one or more items of a list, and its closing bracket.
pub open spec fn read_items(t: Seq<char>) -> Option<(Seq<Json>, Seq<char>)>
    decreases t.len(), 2int,
{
    match read_json(t) {
        Some((item, rest)) => if 0 < rest.len() <= t.len() && rest[0] == ']' {
            Some((seq![item], rest.skip(1)))
        } else if 0 < rest.len() <= t.len() && rest[0] == ',' {
            match read_items(rest.skip(1)) {
                Some((items, end)) => Some((seq![item] + items, end)),
                None => None,
            }
        } else {
            None
        },
        None => None,
    }
}

/// Reads one or more members of an object, and its closing brace.
pub open spec fn read_members(t: Seq<char>) -> Option<(Seq<Member>, Seq<char>)>
    decreases t.len(), 2int,
{
    if t.len() == 0 || t[0] != '"' {
        None
    } else {
        match read_json_string(t.skip(1)) {
            Some((key, colon)) => if 0 < colon.len() < t.len() && colon[0] == ':' {
                match read_json(colon.skip(1)) {
                    Some((value, rest)) => if 0 < rest.len() <= t.len() && rest[0] == '}' {
                        Some((seq![Member { key, value }], rest.skip(1)))
                    } else if 0 < rest.len() <= t.len() && rest[0] == ',' {
                        match read_members(rest.skip(1)) {
                            Some((members, end)) => Some(
                                (seq![Member { key, value }] + members, end),
                            ),
                            None => None,
                        }
                    } else {
                        None
                    },
                    None => None,
                }
            } else {
                None
            },
            None => None,
        }
    }
}

proof fn lemma_digit_run(d: Seq<char>, rest: Seq<char>)
    requires
        all_digits(d),
        rest.len() > 0 ==> !is_digit(rest[0]),
    ensures
        digit_run(d + rest) == d.len(),
    decreases d.len(),
{
    if d.len() > 0 {
        assert(is_digit(d[0]));
        assert((d + rest).drop_first() == d.drop_first() + rest);
        assert forall|i: int| 0 <= i < d.drop_first().len() implies is_digit(
            #[trigger] d.drop_first()[i],
        ) by {
            assert(is_digit(d[i + 1]));
        }
        lemma_digit_run(d.drop_first(), rest);
    } else {
        assert(d + rest == rest);
    }
}

proof fn lemma_no_leading_zero(n: nat)
    ensures
        decimal(n).len() > 1 ==> decimal(n)[0] != '0',
    decreases n,
{
    if n >= 10 {
        lemma_no_leading_zero(n / 10);
        lemma_decimal_digits(n / 10);
        let front = decimal(n / 10);
        assert(decimal(n)[0] == front[0]);
        if front.len() == 1 {
            assert(n / 10 < 10) by {
                if n / 10 >= 10 {
                    lemma_decimal_digits(n / 10 / 10);
                }
            }
            assert(front[0] == (48 + n / 10) as char);
        }
    }
}

proof fn lemma_read_number(n: int, rest: Seq<char>)
    requires
        rest.len() > 0 ==> !is_digit(rest[0]),
    ensures
        read_number(signed_decimal(n) + rest) == Some((n, rest)),
        signed_decimal(n).len() > 0,
        signed_decimal(n)[0] == '-' || is_digit(signed_decimal(n)[0]),
{
    let m: nat = if n < 0 {
        (-n) as nat
    } else {
        n as nat
    };
    let d = decimal(m);
    let t = signed_decimal(n) + rest;
    lemma_decimal_digits(m);
    lemma_no_leading_zero(m);
    lemma_digit_run(d, rest);
    assert(is_digit(d[0]));
    let u = d + rest;
    if n < 0 {
        assert(t[0] == '-');
        assert(t.drop_first() == u);
    } else {
        assert(t == u);
        assert(t[0] == d[0]);
    }
    assert(u[0] == d[0]);
    assert(u.take(d.len() as int) == d);
    assert(u.skip(d.len() as int) == rest);
}

proof fn lemma_read_string(s: Seq<char>, rest: Seq<char>)
    ensures
        (json_string(s) + rest)[0] == '"',
        read_json_string((json_string(s) + rest).skip(1)) == Some((s, rest)),
{
    law_json_string_reads_back(s, rest);
    assert((json_string(s) + rest).skip(1) == json_escaped(s) + seq!['"'] + rest);
}

/// The first character of the text of a value tells what kind of value it is.
proof fn lemma_first_char(v: Json)
    ensures
        json_text(v).len() > 0,
        json_text(v)[0] != ']' && json_text(v)[0] != '}',
{
    reveal_strlit("true");
    reveal_strlit("false");
    match v {
        Json::Number(n) => lemma_read_number(n, Seq::empty()),
        _ => {},
    }
}

proof fn lemma_number_reads_back(n: int, rest: Seq<char>)
    requires
        rest.len() > 0 ==> !is_digit(rest[0]),
    ensures
        read_json(signed_decimal(n) + rest) == Some((Json::Number(n), rest)),
{
    let t = signed_decimal(n) + rest;
    reveal_strlit("true");
    reveal_strlit("false");
    lemma_read_number(n, rest);
    assert(t[0] == signed_decimal(n)[0]);
    if starts_with(t, "true"@) {
        assert(t.take(4)[0] == 't');
    }
    if starts_with(t, "false"@) {
        assert(t.take(5)[0] == 'f');
    }
}

proof fn lemma_bool_reads_back(b: bool, rest: Seq<char>)
    ensures
        read_json(json_text(Json::Bool(b)) + rest) == Some((Json::Bool(b), rest)),
{
    let t = json_text(Json::Bool(b)) + rest;
    reveal_strlit("true");
    reveal_strlit("false");
    if b {
        assert(t.take(4) == "true"@);
        assert(t.skip(4) == rest);
        assert(t[0] == 't');
    } else {
        assert(t.take(5) == "false"@);
        assert(t.skip(5) == rest);
        assert(t[0] == 'f');
        if starts_with(t, "true"@) {
            assert(t.take(4)[0] == 't');
        }
    }
}

proof fn lemma_read_list(items: Seq<Json>, rest: Seq<char>)
    requires
        items.len() > 0 ==> read_items(items_text(items) + seq![']'] + rest) == Some((items, rest)),
    ensures
        read_json(seq!['['] + items_text(items) + seq![']'] + rest) == Some(
            (Json::List(items), rest),
        ),
{
    let t = seq!['['] + items_text(items) + seq![']'] + rest;
    assert(t[0] == '[');
    if items.len() == 0 {
        assert(t[1] == ']');
        assert(t.skip(2) == rest);
        assert(items == Seq::<Json>::empty());
    } else {
        lemma_first_char(items[0]);
        assert(t.skip(1) == items_text(items) + seq![']'] + rest);
        assert(t[1] == json_text(items[0])[0]);
    }
}

proof fn lemma_read_object(members: Seq<Member>, rest: Seq<char>)
    requires
        members.len() > 0 ==> read_members(members_text(members) + seq!['}'] + rest) == Some(
            (members, rest),
        ),
    ensures
        read_json(seq!['{'] + members_text(members) + seq!['}'] + rest) == Some(
            (Json::Object(members), rest),
        ),
{
    let t = seq!['{'] + members_text(members) + seq!['}'] + rest;
    assert(t[0] == '{');
    if members.len() == 0 {
        assert(t[1] == '}');
        assert(t.skip(2) == rest);
        assert(members == Seq::<Member>::empty());
    } else {
        assert(t.skip(1) == members_text(members) + seq!['}'] + rest);
        assert(members_text(members)[0] == '"');
        assert(t[1] == '"');
    }
}

/// Whatever a JSON value holds, reading its text gives the value back, and the text
/// ends just where it was ended. (A digit behind a number would belong to it.)
pub proof fn law_json_reads_back(v: Json, rest: Seq<char>)
    requires
        rest.len() > 0 ==> !is_digit(rest[0]),
    ensures
        read_json(json_text(v) + rest) == Some((v, rest)),
    decreases v,
{
    match v {
        Json::Number(n) => lemma_number_reads_back(n, rest),
        Json::Bool(b) => lemma_bool_reads_back(b, rest),
        Json::Text(s) => lemma_read_string(s, rest),
        Json::List(items) => {
            if items.len() > 0 {
                lemma_items_read_back(items, rest);
            }
            lemma_read_list(items, rest);
        },
        Json::Object(members) => {
            if members.len() > 0 {
                lemma_members_read_back(members, rest);
            }
            lemma_read_object(members, rest);
        },
    }
}

proof fn lemma_items_read_back(items: Seq<Json>, rest: Seq<char>)
    requires
        items.len() > 0,
    ensures
        read_items(items_text(items) + seq![']'] + rest) == Some((items, rest)),
    decreases items,
{
    let t = items_text(items) + seq![']'] + rest;
    let own = json_text(items[0]);
    if items.len() == 1 {
        let end = seq![']'] + rest;
        law_json_reads_back(items[0], end);
        assert(t == own + end);
        assert(end.skip(1) == rest);
        assert(seq![items[0]] == items);
    } else {
        let tail = items.subrange(1, items.len() as int);
        let more = items_text(tail) + seq![']'] + rest;
        let end = seq![','] + more;
        law_json_reads_back(items[0], end);
        lemma_items_read_back(tail, rest);
        assert(t == own + end);
        assert(end.skip(1) == more);
        assert(seq![items[0]] + tail == items);
    }
}

proof fn lemma_members_read_back(members: Seq<Member>, rest: Seq<char>)
    requires
        members.len() > 0,
    ensures
        read_members(members_text(members) + seq!['}'] + rest) == Some((members, rest)),
    decreases members,
{
    let t = members_text(members) + seq!['}'] + rest;
    let key = members[0].key;
    let value = members[0].value;
    let own = json_text(value);
    let tail = members.subrange(1, members.len() as int);
    let more = members_text(tail) + seq!['}'] + rest;
    let end = if members.len() == 1 {
        seq!['}'] + rest
    } else {
        seq![','] + more
    };
    let colon = seq![':'] + (own + end);
    assert(t == json_string(key) + colon);
    lemma_read_string(key, colon);
    law_json_reads_back(value, end);
    assert(colon.skip(1) == own + end);
    let first = Member { key, value };
    assert(first == members[0]);
    if members.len() == 1 {
        assert(end.skip(1) == rest);
        assert(seq![first] == members);
    } else {
        lemma_members_read_back(tail, rest);
        assert(end.skip(1) == more);
        assert(seq![first] + tail == members);
    }
}

proof fn lemma_items_push(items: Seq<Json>, v: Json)
    ensures
        items_text(items.push(v)) == (if items.len() == 0 {
            json_text(v)
        } else {
            items_text(items) + seq![','] + json_text(v)
        }),
    decreases items.len(),
{
    let all = items.push(v);
    if items.len() == 0 {
        assert(all[0] == v);
    } else {
        let tail = items.subrange(1, items.len() as int);
        lemma_items_push(tail, v);
        assert(all.subrange(1, all.len() as int) == tail.push(v));
        assert(items_text(all) == items_text(items) + seq![','] + json_text(v));
    }
}

proof fn lemma_members_push(members: Seq<Member>, m: Member)
    ensures
        members_text(members.push(m)) == (if members.len() == 0 {
            Seq::empty()
        } else {
            members_text(members) + seq![',']
        }) + (json_string(m.key) + seq![':'] + json_text(m.value)),
    decreases members.len(),
{
    let all = members.push(m);
    let own = json_string(m.key) + seq![':'] + json_text(m.value);
    if members.len() == 0 {
        assert(all[0] == m);
        assert(Seq::<char>::empty() + own == own);
    } else {
        let tail = members.subrange(1, members.len() as int);
        lemma_members_push(tail, m);
        assert(all.subrange(1, all.len() as int) == tail.push(m));
        assert(members_text(all) == members_text(members) + seq![','] + own);
    }
}

fn push_json_string(out: &mut String, s: &str)
    ensures
        final(out)@ == old(out)@ + json_string(s@),
{
    out.push('"');
    out.push_str(escape_json(s).as_str());
    out.push('"');
    assert(out@ == old(out)@ + json_string(s@));
}

/// Writes a JSON object, member by member.
pub struct ObjectWriter {
    text: String,
    empty: bool,
    members: Ghost<Seq<Member>>,
}

impl ObjectWriter {
    /// The members so far.
    pub closed spec fn members(&self) -> Seq<Member> {
        self.members@
    }

    pub closed spec fn wf(&self) -> bool {
        &&& self.text@ == seq!['{'] + members_text(self.members@)
        &&& self.empty == (self.members@.len() == 0)
    }

    pub fn new() -> (r: Self)
        ensures
            r.wf(),
            r.members() == Seq::<Member>::empty(),
    {
        let mut text = String::new();
        text.push('{');
        let ghost none = Seq::<Member>::empty();
        assert(members_text(none) == Seq::<char>::empty());
        assert(text@ == seq!['{'] + members_text(none));
        ObjectWriter { text, empty: true, members: Ghost(none) }
    }

    fn field(&mut self, key: &str, value: &str, Ghost(v): Ghost<Json>)
        requires
            old(self).wf(),
            value@ == json_text(v),
        ensures
            final(self).wf(),
            final(self).members() == old(self).members().push(Member { key: key@, value: v }),
    {
        let ghost before = self.members@;
        let ghost m = Member { key: key@, value: v };
        let ghost start = self.text@;
        if !self.empty {
            self.text.push(',');
        }
        push_json_string(&mut self.text, key);
        self.text.push(':');
        self.text.push_str(value);
        self.empty = false;
        self.members = Ghost(before.push(m));
        proof {
            lemma_members_push(before, m);
            let own = json_string(m.key) + seq![':'] + json_text(m.value);
            if before.len() == 0 {
                assert(members_text(before) == Seq::<char>::empty());
            }
            assert(self.text@ == seq!['{'] + members_text(before.push(m)));
        }
    }

    pub fn number(&mut self, key: &str, value: u64)
        requires
            old(self).wf(),
        ensures
            final(self).wf(),
            final(self).members() == old(self).members().push(
                Member { key: key@, value: Json::Number(value as int) },
            ),
    {
        let mut text = String::new();
        push_decimal(&mut text, value);
        assert(text@ == decimal(value as nat));
        self.field(key, text.as_str(), Ghost(Json::Number(value as int)));
    }

    pub fn signed(&mut self, key: &str, value: i64)
        requires
            old(self).wf(),
        ensures
            final(self).wf(),
            final(self).members() == old(self).members().push(
                Member { key: key@, value: Json::Number(value as int) },
            ),
    {
        let mut text = String::new();
        push_signed_decimal(&mut text, value);
        assert(text@ == signed_decimal(value as int));
        self.field(key, text.as_str(), Ghost(Json::Number(value as int)));
    }

    pub fn boolean(&mut self, key: &str, value: bool)
        requires
            old(self).wf(),
        ensures
            final(self).wf(),
            final(self).members() == old(self).members().push(
                Member { key: key@, value: Json::Bool(value) },
            ),
    {
        if value {
            self.field(key, "true", Ghost(Json::Bool(value)));
        } else {
            self.field(key, "false", Ghost(Json::Bool(value)));
        }
    }

    pub fn text(&mut self, key: &str, value: &str)
        requires
            old(self).wf(),
        ensures
            final(self).wf(),
            final(self).members() == old(self).members().push(
                Member { key: key@, value: Json::Text(value@) },
            ),
    {
        let mut text = String::new();
        push_json_string(&mut text, value);
        assert(text@ == json_string(value@));
        self.field(key, text.as_str(), Ghost(Json::Text(value@)));
    }

    pub fn list(&mut self, key: &str, value: ListWriter)
        requires
            old(self).wf(),
            value.wf(),
        ensures
            final(self).wf(),
            final(self).members() == old(self).members().push(
                Member { key: key@, value: Json::List(value.items()) },
            ),
    {
        let mut text = value.text;
        text.push(']');
        let ghost v = Json::List(value.items@);
        assert(text@ == json_text(v));
        self.field(key, text.as_str(), Ghost(v));
    }

    /// The text of the object.
    pub fn finish(self) -> (r: String)
        requires
            self.wf(),
        ensures
            r@ == json_text(Json::Object(self.members())),
    {
        let mut text = self.text;
        text.push('}');
        assert(text@ == seq!['{'] + members_text(self.members@) + seq!['}']);
        text
    }
}

/// Writes a JSON list of objects, item by item.
pub struct ListWriter {
    text: String,
    empty: bool,
    items: Ghost<Seq<Json>>,
}

impl ListWriter {
    /// The items so far.
    pub closed spec fn items(&self) -> Seq<Json> {
        self.items@
    }

    pub closed spec fn wf(&self) -> bool {
        &&& self.text@ == seq!['['] + items_text(self.items@)
        &&& self.empty == (self.items@.len() == 0)
    }

    pub fn new() -> (r: Self)
        ensures
            r.wf(),
            r.items() == Seq::<Json>::empty(),
    {
        let mut text = String::new();
        text.push('[');
        let ghost none = Seq::<Json>::empty();
        assert(items_text(none) == Seq::<char>::empty());
        assert(text@ == seq!['['] + items_text(none));
        ListWriter { text, empty: true, items: Ghost(none) }
    }

    pub fn object(&mut self, value: ObjectWriter)
        requires
            old(self).wf(),
            value.wf(),
        ensures
            final(self).wf(),
            final(self).items() == old(self).items().push(Json::Object(value.members())),
    {
        let ghost before = self.items@;
        let ghost v = Json::Object(value.members@);
        let text = value.finish();
        if !self.empty {
            self.text.push(',');
        }
        self.text.push_str(text.as_str());
        self.empty = false;
        self.items = Ghost(before.push(v));
        proof {
            lemma_items_push(before, v);
            if before.len() == 0 {
                assert(items_text(before) == Seq::<char>::empty());
            }
            assert(self.text@ == seq!['['] + items_text(before.push(v)));
        }
    }
}

} // verus!
