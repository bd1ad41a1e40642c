//! Texts and lists of detail rows written as JSON, for outputs that cannot
//! hold a list in a cell.

use crate::table::{char_text, nested_view, texts_view};
use vstd::prelude::*;
use vstd::string::*;

verus! {

/// The hexadecimal digit of a number below sixteen.
pub open spec fn hex_digit(n: int) -> char {
    if n == 0 {
        '0'
    } else if n == 1 {
        '1'
    } else if n == 2 {
        '2'
    } else if n == 3 {
        '3'
    } else if n == 4 {
        '4'
    } else if n == 5 {
        '5'
    } else if n == 6 {
        '6'
    } else if n == 7 {
        '7'
    } else if n == 8 {
        '8'
    } else if n == 9 {
        '9'
    } else if n == 10 {
        'a'
    } else if n == 11 {
        'b'
    } else if n == 12 {
        'c'
    } else if n == 13 {
        'd'
    } else if n == 14 {
        'e'
    } else {
        'f'
    }
}

/// How one character stands inside a JSON string: quotation mark and
/// backslash behind a backslash, line feed, carriage return and tab by
/// their letters, other control characters by their number, everything
/// else as it is.
pub open spec fn escaped_char(c: char) -> Seq<char> {
    if c == '"' {
        seq!['\\', '"']
    } else if c == '\\' {
        seq!['\\', '\\']
    } else if c == '\n' {
        seq!['\\', 'n']
    } else if c == '\r' {
        seq!['\\', 'r']
    } else if c == '\t' {
        seq!['\\', 't']
    } else if ' ' > c {
        seq!['\\', 'u', '0', '0', hex_digit(c as int / 16), hex_digit(c as int % 16)]
    } else {
        seq![c]
    }
}

/// How a text stands inside a JSON string.
pub open spec fn escaped(text: Seq<char>) -> Seq<char>
    decreases text.len(),
{
    if text.len() == 0 {
        Seq::empty()
    } else {
        escaped(text.drop_last()) + escaped_char(text.last())
    }
}

/// A text as a JSON string.
pub open spec fn json_string(text: Seq<char>) -> Seq<char> {
    seq!['"'] + escaped(text) + seq!['"']
}

/// The value that goes with the name at `at`: the text at the same place,
/// or the empty text when the detail row is too short.
pub open spec fn value_at(values: Seq<Seq<char>>, at: int) -> Seq<char> {
    if 0 <= at < values.len() {
        values[at]
    } else {
        Seq::empty()
    }
}

/// The first `count` members of a JSON object: name, colon, value, with
/// commas between the members.
pub open spec fn json_members(names: Seq<Seq<char>>, values: Seq<Seq<char>>, count: int) -> Seq<
    char,
>
    decreases count,
{
    if count <= 0 {
        Seq::empty()
    } else if count == 1 {
        json_string(names[0]) + seq![':'] + json_string(value_at(values, 0))
    } else {
        json_members(names, values, count - 1) + seq![','] + json_string(names[count - 1]) + seq![
            ':',
        ] + json_string(value_at(values, count - 1))
    }
}

/// A detail row as a JSON object, with the given names for its values.
pub open spec fn json_object(names: Seq<Seq<char>>, values: Seq<Seq<char>>) -> Seq<char> {
    seq!['{'] + json_members(names, values, names.len() as int) + seq!['}']
}

/// The first `count` detail rows as JSON objects, with commas between them.
pub open spec fn json_items(names: Seq<Seq<char>>, items: Seq<Seq<Seq<char>>>, count: int) -> Seq<
    char,
>
    decreases count,
{
    if count <= 0 {
        Seq::empty()
    } else if count == 1 {
        json_object(names, items[0])
    } else {
        json_items(names, items, count - 1) + seq![','] + json_object(names, items[count - 1])
    }
}

/// A list of detail rows as a JSON array of objects.
pub open spec fn json_array(names: Seq<Seq<char>>, items: Seq<Seq<Seq<char>>>) -> Seq<char> {
    seq!['['] + json_items(names, items, items.len() as int) + seq![']']
}

/// The text of a hexadecimal digit.
fn hex_text(n: u8) -> (text: &'static str)
    requires
        n < 16,
    ensures
        text@ == seq![hex_digit(n as int)],
{
    proof {
        reveal_strlit("0");
        reveal_strlit("1");
        reveal_strlit("2");
        reveal_strlit("3");
        reveal_strlit("4");
        reveal_strlit("5");
        reveal_strlit("6");
        reveal_strlit("7");
        reveal_strlit("8");
        reveal_strlit("9");
        reveal_strlit("a");
        reveal_strlit("b");
        reveal_strlit("c");
        reveal_strlit("d");
        reveal_strlit("e");
        reveal_strlit("f");
    }
    let text = if n == 0 {
        "0"
    } else if n == 1 {
        "1"
    } else if n == 2 {
        "2"
    } else if n == 3 {
        "3"
    } else if n == 4 {
        "4"
    } else if n == 5 {
        "5"
    } else if n == 6 {
        "6"
    } else if n == 7 {
        "7"
    } else if n == 8 {
        "8"
    } else if n == 9 {
        "9"
    } else if n == 10 {
        "a"
    } else if n == 11 {
        "b"
    } else if n == 12 {
        "c"
    } else if n == 13 {
        "d"
    } else if n == 14 {
        "e"
    } else {
        "f"
    };
    assert(text@ =~= seq![hex_digit(n as int)]);
    text
}

/// Adds one character to a JSON string under construction.
fn push_escaped(out: &mut String, c: char)
    ensures
        final(out)@ == old(out)@ + escaped_char(c),
{
    proof {
        reveal_strlit("\\\"");
        reveal_strlit("\\\\");
        reveal_strlit("\\n");
        reveal_strlit("\\r");
        reveal_strlit("\\t");
        reveal_strlit("\\u00");
    }
    if c == '"' {
        assert("\\\""@ =~= seq!['\\', '"']);
        out.append("\\\"");
    } else if c == '\\' {
        assert("\\\\"@ =~= seq!['\\', '\\']);
        out.append("\\\\");
    } else if c == '\n' {
        assert("\\n"@ =~= seq!['\\', 'n']);
        out.append("\\n");
    } else if c == '\r' {
        assert("\\r"@ =~= seq!['\\', 'r']);
        out.append("\\r");
    } else if c == '\t' {
        assert("\\t"@ =~= seq!['\\', 't']);
        out.append("\\t");
    } else if ' ' > c {
        let code = c as u8;
        let ghost start = out@;
        assert("\\u00"@ =~= seq!['\\', 'u', '0', '0']);
        out.append("\\u00");
        out.append(hex_text(code / 16));
        out.append(hex_text(code % 16));
        assert(out@ =~= start + escaped_char(c));
    } else {
        let one = char_text(c);
        out.append(one.as_str());
    }
}

/// Adds a text as a JSON string.
fn push_json_string(out: &mut String, text: &str)
    ensures
        final(out)@ == old(out)@ + json_string(text@),
{
    proof {
        reveal_strlit("\"");
        assert("\""@ =~= seq!['"']);
    }
    let ghost start = out@;
    out.append("\"");
    let length = text.unicode_len();
    let mut at: usize = 0;
    proof {
        assert(text@.take(0) == Seq::<char>::empty());
        assert(start + seq!['"'] + escaped(text@.take(0)) == start + seq!['"']);
    }
    while at < length
        invariant
            at <= length,
            length == text@.len(),
            out@ == start + seq!['"'] + escaped(text@.take(at as int)),
        decreases length - at,
    {
        let c = text.get_char(at);
        proof {
            assert(text@.take(at as int + 1).drop_last() == text@.take(at as int));
            assert(text@.take(at as int + 1).last() == c);
        }
        let ghost before = out@;
        push_escaped(out, c);
        proof {
            assert(out@ == start + seq!['"'] + (escaped(text@.take(at as int)) + escaped_char(c)));
        }
        at = at + 1;
    }
    proof {
        assert(text@.take(at as int) == text@);
    }
    out.append("\"");
    assert(out@ == start + json_string(text@));
}

/// Adds a detail row as a JSON object.
fn push_json_object(out: &mut String, names: &Vec<String>, values: &Vec<String>)
    ensures
        final(out)@ == old(out)@ + json_object(texts_view(names@), texts_view(values@)),
{
    proof {
        reveal_strlit("{");
        reveal_strlit("}");
        reveal_strlit(",");
        reveal_strlit(":");
        assert("{"@ =~= seq!['{']);
        assert("}"@ =~= seq!['}']);
        assert(","@ =~= seq![',']);
        assert(":"@ =~= seq![':']);
    }
    let ghost start = out@;
    let ghost keys = texts_view(names@);
    let ghost texts = texts_view(values@);
    out.append("{");
    let mut at: usize = 0;
    proof {
        assert(start + seq!['{'] + json_members(keys, texts, 0) == start + seq!['{']);
    }
    while at < names.len()
        invariant
            at <= names.len(),
            keys == texts_view(names@),
            texts == texts_view(values@),
            ","@ == seq![','],
            ":"@ == seq![':'],
            out@ == start + seq!['{'] + json_members(keys, texts, at as int),
        decreases names.len() - at,
    {
        let ghost before = out@;
        if at > 0 {
            out.append(",");
        }
        push_json_string(out, names[at].as_str());
        out.append(":");
        if at < values.len() {
            push_json_string(out, values[at].as_str());
        } else {
            push_json_string(out, "");
        }
        proof {
            reveal_strlit("");
            assert(""@ =~= Seq::<char>::empty());
            let member = json_string(keys[at as int]) + seq![':'] + json_string(
                value_at(texts, at as int),
            );
            if at == 0 {
                assert(out@ =~= start + seq!['{'] + member);
                assert(json_members(keys, texts, 1) =~= member);
            } else {
                assert(out@ =~= start + seq!['{'] + (json_members(keys, texts, at as int) + seq![
                    ',',
                ] + json_string(keys[at as int]) + seq![':'] + json_string(
                    value_at(texts, at as int),
                )));
            }
        }
        at = at + 1;
    }
    out.append("}");
    assert(out@ =~= start + json_object(keys, texts));
}

/// Writes a list of detail rows as a JSON array of objects: every detail
/// row becomes an object that gives each of its texts under the name of its
/// column. A detail row that is too short gives the empty text for the
/// names it has no text for; texts beyond the names are left out.
pub fn nested_json(names: &Vec<String>, items: &Vec<Vec<String>>) -> (out: String)
    ensures
        out@ == json_array(texts_view(names@), nested_view(items@)),
{
    proof {
        reveal_strlit("[");
        reveal_strlit("]");
        reveal_strlit(",");
        assert("["@ =~= seq!['[']);
        assert("]"@ =~= seq![']']);
        assert(","@ =~= seq![',']);
    }
    let ghost keys = texts_view(names@);
    let ghost rows = nested_view(items@);
    let mut out = "[".to_owned();
    let mut at: usize = 0;
    proof {
        assert(seq!['['] + json_items(keys, rows, 0) == seq!['[']);
    }
    while at < items.len()
        invariant
            at <= items.len(),
            keys == texts_view(names@),
            rows == nested_view(items@),
            ","@ == seq![','],
            out@ == seq!['['] + json_items(keys, rows, at as int),
        decreases items.len() - at,
    {
        if at > 0 {
            out.append(",");
        }
        push_json_object(&mut out, names, &items[at]);
        proof {
            let object = json_object(keys, rows[at as int]);
            if at == 0 {
                assert(out@ =~= seq!['['] + object);
                assert(json_items(keys, rows, 1) =~= object);
            } else {
                assert(out@ =~= seq!['['] + (json_items(keys, rows, at as int) + seq![','] + object));
            }
        }
        at = at + 1;
    }
    out.append("]");
    assert(out@ =~= json_array(keys, rows));
    out
}

} // verus!
