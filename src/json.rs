//! JSON string literals: how a string is quoted on the wire, where a quoted
//! literal ends inside a line, and the calls into serde_json that quote and
//! unquote one.

use vstd::prelude::*;

verus! {

/// serde_json's error type, carried opaquely.
#[verifier::external_type_specification]
#[verifier::external_body]
pub struct ExJsonError(serde_json::Error);

/// The lowercase hexadecimal digit of `n`, for `n < 16`.
pub open spec fn hex_digit(n: u32) -> char {
    seq!['0', '1', '2', '3', '4', '5', '6', '7', '8', '9', 'a', 'b', 'c', 'd', 'e', 'f'][n as int]
}

/// How one character is written inside a JSON string literal: the quote, the
/// backslash and the control characters are escaped, everything else stands
/// as it is.
pub open spec fn escape_char(c: char) -> Seq<char> {
    if c == '"' {
        seq!['\\', '"']
    } else if c == '\\' {
        seq!['\\', '\\']
    } else if c == '\u{8}' {
        seq!['\\', 'b']
    } else if c == '\t' {
        seq!['\\', 't']
    } else if c == '\n' {
        seq!['\\', 'n']
    } else if c == '\u{c}' {
        seq!['\\', 'f']
    } else if c == '\r' {
        seq!['\\', 'r']
    } else if (c as u32) < 0x20 {
        seq!['\\', 'u', '0', '0', hex_digit((c as u32) / 16), hex_digit((c as u32) % 16)]
    } else {
        seq![c]
    }
}

/// The escaped body of a JSON string literal for `s`.
pub open spec fn escape(s: Seq<char>) -> Seq<char>
    decreases s.len(),
{
    if s.len() == 0 {
        Seq::empty()
    } else {
        escape_char(s[0]) + escape(s.drop_first())
    }
}

/// The compact JSON string literal for `s`, quotes included.
pub open spec fn quote(s: Seq<char>) -> Seq<char> {
    seq!['"'] + escape(s) + seq!['"']
}

/// Whether `t` is exactly the quoted form of some string.
pub open spec fn is_quoted(t: Seq<char>) -> bool {
    exists|s: Seq<char>| quote(s) == t
}

/// What serde_json reads from the JSON text `t` as a string, if it reads one.
pub uninterp spec fn json_string_value(t: Seq<char>) -> Option<Seq<char>>;

/// Relies on `serde_json::to_string` applied to a `str`: it writes the string
/// as one JSON literal, escaping exactly the characters that `escape_char`
/// names (serde_json's `ESCAPE` table, with lowercase hex digits); the
/// serializer writes into memory, so the error case cannot arise.
#[verifier::external_body]
pub(crate) fn json_quote(s: &str) -> (r: String)
    ensures
        r@ == quote(s@),
{
    serde_json::to_string(s).unwrap_or_default()
}

/// Relies on `serde_json::from_str::<String>`: it reads the JSON text `t` as
/// one string value, and reads back exactly the string that `to_string`
/// quoted.
#[verifier::external_body]
pub(crate) fn json_unquote(t: &str) -> (r: Result<String, serde_json::Error>)
    ensures
        r matches Ok(v) ==> json_string_value(t@) == Some(v@),
        r is Err ==> json_string_value(t@) is None,
        r matches Ok(v) ==> forall|s: Seq<char>| #[trigger] quote(s) == t@ ==> v@ == s,
        is_quoted(t@) ==> r is Ok,
{
    serde_json::from_str::<String>(t)
}

/// Scanning `t` from position `i` inside a string literal: the position of
/// the quote that closes it, stepping over each backslash escape as a pair.
pub open spec fn literal_close(t: Seq<char>, i: int) -> Option<int>
    decreases t.len() - i,
{
    if i < 0 || i >= t.len() {
        None
    } else if t[i] == '"' {
        Some(i)
    } else if t[i] == '\\' {
        if i + 1 < t.len() {
            literal_close(t, i + 2)
        } else {
            None
        }
    } else {
        literal_close(t, i + 1)
    }
}

/// The end (one past the closing quote) of the string literal that opens at
/// position `i` of `t`, if one opens and closes there.
pub open spec fn literal_end(t: Seq<char>, i: int) -> Option<int> {
    if 0 <= i < t.len() && t[i] == '"' {
        match literal_close(t, i + 1) {
            Some(j) => Some(j + 1),
            None => None,
        }
    } else {
        None
    }
}

/// Finds where the string literal opening at `start` ends.
pub fn find_literal_end(t: &Vec<char>, start: usize) -> (r: Option<usize>)
    ensures
        match r {
            Some(e) => literal_end(t@, start as int) == Some(e as int),
            None => literal_end(t@, start as int) is None,
        },
        r matches Some(e) ==> start < e <= t@.len(),
{
    if start >= t.len() || t[start] != '"' {
        return None;
    }
    let mut i: usize = start + 1;
    while i < t.len()
        invariant
            start < t.len(),
            t@[start as int] == '"',
            start < i,
            literal_close(t@, start + 1) == literal_close(t@, i as int),
        decreases t.len() - i,
    {
        if t[i] == '"' {
            return Some(i + 1);
        }
        if t[i] == '\\' {
            if t.len() - i < 2 {
                return None;
            }
            i = i + 2;
        } else {
            i = i + 1;
        }
    }
    None
}

/// A character of an escape sequence other than its leading backslash is
/// neither a quote nor a backslash, so the scan passes over it.
proof fn lemma_escape_char_scan(t: Seq<char>, i: int, c: char)
    requires
        0 <= i,
        i + escape_char(c).len() <= t.len(),
        t.subrange(i, i + escape_char(c).len()) == escape_char(c),
    ensures
        literal_close(t, i) == literal_close(t, i + escape_char(c).len()),
{
    let e = escape_char(c);
    assert(t[i] == e[0]);
    if e.len() == 1 {
        assert(e[0] == c);
        assert(c != '"' && c != '\\');
    } else if e.len() == 2 {
        assert(t[i] == '\\');
    } else {
        assert(t[i] == '\\');
        assert(t[i + 2] == e[2]);
        assert(t[i + 3] == e[3]);
        assert(t[i + 4] == e[4]);
        assert(t[i + 5] == e[5]);
        let hi = (c as u32) / 16;
        let lo = (c as u32) % 16;
        assert(hex_digit(hi) != '"' && hex_digit(hi) != '\\');
        assert(hex_digit(lo) != '"' && hex_digit(lo) != '\\');
        assert(literal_close(t, i + 5) == literal_close(t, i + 6));
        assert(literal_close(t, i + 4) == literal_close(t, i + 5));
        assert(literal_close(t, i + 3) == literal_close(t, i + 4));
        assert(literal_close(t, i + 2) == literal_close(t, i + 3));
    }
}

/// Scanning the escaped body of `s` stops at the quote right after it.
pub proof fn lemma_escape_scan(t: Seq<char>, i: int, s: Seq<char>)
    requires
        0 <= i,
        i + escape(s).len() < t.len(),
        t.subrange(i, i + escape(s).len()) == escape(s),
        t[i + escape(s).len()] == '"',
    ensures
        literal_close(t, i) == Some(i + escape(s).len()),
    decreases s.len(),
{
    if s.len() == 0 {
    } else {
        let e = escape_char(s[0]);
        let rest = escape(s.drop_first());
        assert(escape(s) == e + rest);
        assert(t.subrange(i, i + e.len()) == escape(s).subrange(0, e.len() as int));
        assert(escape(s).subrange(0, e.len() as int) == e);
        lemma_escape_char_scan(t, i, s[0]);
        assert(t.subrange(i + e.len(), i + e.len() + rest.len()) == escape(s).subrange(
            e.len() as int,
            escape(s).len() as int,
        ));
        assert(escape(s).subrange(e.len() as int, escape(s).len() as int) == rest);
        lemma_escape_scan(t, i + e.len(), s.drop_first());
    }
}

/// The literal that `quote(s)` writes at position `i` of `t` ends right after
/// its closing quote, whatever follows it.
pub proof fn lemma_quote_end(t: Seq<char>, i: int, s: Seq<char>)
    requires
        0 <= i,
        i + quote(s).len() <= t.len(),
        t.subrange(i, i + quote(s).len()) == quote(s),
    ensures
        literal_end(t, i) == Some(i + quote(s).len()),
{
    let q = quote(s);
    let n: int = escape(s).len() as int;
    assert(q.len() == n + 2);
    assert(t[i] == q[0]);
    assert(t[i + 1 + n] == q[n + 1]);
    assert(t.subrange(i + 1, i + 1 + n) == q.subrange(1, n + 1));
    assert(q.subrange(1, n + 1) == escape(s));
    lemma_escape_scan(t, i + 1, s);
}

} // verus!
