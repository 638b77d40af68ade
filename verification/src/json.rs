//! Lines of the telemetry log: small JSON texts out of finished values.
//!
//! Numbers reach this module already printed; it fixes which keys a line holds,
//! in which order, and how texts are quoted.

use vstd::prelude::*;
use vstd::string::*;
use crate::text::{append_decimal, decimal};

verus! {

/// The texts of a list of strings.
pub open spec fn texts(parts: Seq<String>) -> Seq<Seq<char>> {
    parts.map_values(|s: String| s@)
}

/// The texts one after the other with `sep` between neighbours.
pub open spec fn joined(parts: Seq<Seq<char>>, sep: Seq<char>) -> Seq<char>
    decreases parts.len(),
{
    if parts.len() == 0 {
        Seq::empty()
    } else if parts.len() == 1 {
        parts[0]
    } else {
        joined(parts.drop_last(), sep) + sep + parts.last()
    }
}

/// A copy of a text.
pub fn owned(s: &str) -> (out: String)
    ensures
        out@ == s@,
{
    String::from_str(s)
}

/// A number in decimal.
pub fn number(n: usize) -> (out: String)
    ensures
        out@ == decimal(n as nat),
{
    let mut out: String = String::new();
    append_decimal(&mut out, n);
    assert(out@ =~= decimal(n as nat));
    out
}

/// Joins texts with a separator.
pub fn join(parts: &Vec<String>, sep: &str) -> (out: String)
    ensures
        out@ == joined(texts(parts@), sep@),
{
    let mut out: String = String::new();
    let n: usize = parts.len();
    let mut i: usize = 0;
    while i < n
        invariant
            n == parts@.len(),
            i <= n,
            out@ == joined(texts(parts@.subrange(0, i as int)), sep@),
        decreases n - i,
    {
        if i > 0 {
            out.append(sep);
        }
        out.append(parts[i].as_str());
        i += 1;
        proof {
            let done = texts(parts@.subrange(0, i as int));
            assert(done.drop_last() =~= texts(parts@.subrange(0, i - 1)));
            assert(done.last() == parts@[i - 1]@);
            if i == 1 {
                assert(out@ =~= done[0]);
            }
        }
    }
    assert(parts@.subrange(0, n as int) =~= parts@);
    out
}

/// A JSON array of finished values.
pub open spec fn array_text(values: Seq<Seq<char>>) -> Seq<char> {
    "["@ + joined(values, ","@) + "]"@
}

/// A JSON array of finished values.
pub fn array(values: &Vec<String>) -> (out: String)
    ensures
        out@ == array_text(texts(values@)),
{
    let mut out: String = String::from_str("[");
    let body: String = join(values, ",");
    out.append(body.as_str());
    out.append("]");
    assert(out@ =~= array_text(texts(values@)));
    out
}

/// One member of a JSON object with a finished value.
pub open spec fn member_text(key: Seq<char>, value: Seq<char>) -> Seq<char> {
    "\""@ + key + "\":"@ + value
}

/// Keys and finished values of an object.
pub open spec fn members(fields: Seq<(Seq<char>, Seq<char>)>) -> Seq<Seq<char>> {
    fields.map_values(|f: (Seq<char>, Seq<char>)| member_text(f.0, f.1))
}

/// A JSON object of finished values, in the order given.
pub open spec fn object_text(fields: Seq<(Seq<char>, Seq<char>)>) -> Seq<char> {
    "{"@ + joined(members(fields), ","@) + "}"@
}

/// A field of an object under construction.
pub struct Field {
    pub key: String,
    pub value: String,
}

/// Keys and values of a list of fields.
pub open spec fn field_texts(fields: Seq<Field>) -> Seq<(Seq<char>, Seq<char>)> {
    fields.map_values(|f: Field| (f.key@, f.value@))
}

/// A field out of a key and a finished value.
pub fn field(key: &str, value: String) -> (f: Field)
    ensures
        f.key@ == key@,
        f.value@ == value@,
{
    Field { key: owned(key), value }
}

/// A JSON object of finished values.
pub fn object(fields: &Vec<Field>) -> (out: String)
    ensures
        out@ == object_text(field_texts(fields@)),
{
    let n: usize = fields.len();
    let mut parts: Vec<String> = Vec::new();
    let mut i: usize = 0;
    while i < n
        invariant
            n == fields@.len(),
            i <= n,
            parts@.len() == i,
            forall|k: int|
                0 <= k < i ==> (#[trigger] parts@[k])@ == member_text(
                    fields@[k].key@,
                    fields@[k].value@,
                ),
        decreases n - i,
    {
        let mut part: String = String::from_str("\"");
        part.append(fields[i].key.as_str());
        part.append("\":");
        part.append(fields[i].value.as_str());
        assert(part@ =~= member_text(fields@[i as int].key@, fields@[i as int].value@));
        parts.push(part);
        i += 1;
    }
    let mut out: String = String::from_str("{");
    let body: String = join(&parts, ",");
    out.append(body.as_str());
    out.append("}");
    assert(texts(parts@) =~= members(field_texts(fields@)));
    assert(out@ =~= object_text(field_texts(fields@)));
    out
}

/// What a character becomes inside a quoted text.
pub open spec fn escaped_char(c: char) -> Seq<char> {
    if c == '\\' {
        seq!['\\', '\\']
    } else if c == '"' {
        seq!['\\', '"']
    } else if c == '\n' {
        seq!['\\', 'n']
    } else if c == '\r' {
        seq!['\\', 'r']
    } else if c == '\t' {
        seq!['\\', 't']
    } else {
        seq![c]
    }
}

/// A text with its special characters escaped.
pub open spec fn escaped(s: Seq<char>) -> Seq<char>
    decreases s.len(),
{
    if s.len() == 0 {
        Seq::empty()
    } else {
        escaped(s.drop_last()) + escaped_char(s.last())
    }
}

/// Escapes the characters of a text that a JSON string cannot hold as they are.
pub fn escape(s: &str) -> (out: String)
    ensures
        out@ == escaped(s@),
{
    let mut out: String = String::new();
    let n: usize = s.unicode_len();
    let mut i: usize = 0;
    while i < n
        invariant
            n == s@.len(),
            i <= n,
            out@ == escaped(s@.subrange(0, i as int)),
        decreases n - i,
    {
        let c: char = s.get_char(i);
        let ghost before = out@;
        if c == '\\' {
            out.push('\\');
            out.push('\\');
        } else if c == '"' {
            out.push('\\');
            out.push('"');
        } else if c == '\n' {
            out.push('\\');
            out.push('n');
        } else if c == '\r' {
            out.push('\\');
            out.push('r');
        } else if c == '\t' {
            out.push('\\');
            out.push('t');
        } else {
            out.push(c);
        }
        assert(out@ =~= before + escaped_char(c));
        i += 1;
        assert(s@.subrange(0, i as int).drop_last() =~= s@.subrange(0, i - 1));
    }
    assert(s@.subrange(0, n as int) =~= s@);
    out
}

/// An escaped text holds no line break and no tab.
pub proof fn law_escaped_is_one_line(s: Seq<char>, i: int)
    requires
        0 <= i < escaped(s).len(),
    ensures
        escaped(s)[i] != '\n',
        escaped(s)[i] != '\r',
        escaped(s)[i] != '\t',
    decreases s.len(),
{
    let front = escaped(s.drop_last());
    if i < front.len() {
        law_escaped_is_one_line(s.drop_last(), i);
    } else {
        assert(escaped(s)[i] == escaped_char(s.last())[i - front.len()]);
    }
}

/// A log line that carries the fragment of one monitor.
pub open spec fn tagged_line(iter: nat, kind: Seq<char>, fragment: Seq<char>) -> Seq<char> {
    "{\"iter\":"@ + decimal(iter) + ",\"type\":\""@ + kind + "\","@ + fragment + "}"@
}

/// A log line that carries the fragment of one monitor.
pub fn tagged(iter: usize, kind: &str, fragment: &str) -> (out: String)
    ensures
        out@ == tagged_line(iter as nat, kind@, fragment@),
{
    let mut out: String = String::from_str("{\"iter\":");
    append_decimal(&mut out, iter);
    out.append(",\"type\":\"");
    out.append(kind);
    out.append("\",");
    out.append(fragment);
    out.append("}");
    assert(out@ =~= tagged_line(iter as nat, kind@, fragment@));
    out
}

/// A log line of type `monitor`.
pub fn monitor_line(iter: usize, fragment: &str) -> (out: String)
    ensures
        out@ == tagged_line(iter as nat, "monitor"@, fragment@),
{
    tagged(iter, "monitor", fragment)
}

} // verus!
