//! JSON text.

use vstd::prelude::*;
use vstd::string::*;

verus! {

/// Failure of the JSON serializer.
#[verifier::external_type_specification]
#[verifier::external_body]
pub struct ExJsonError(serde_json::Error);

/// The character of a hexadecimal digit.
pub open spec fn hex_digit(d: int) -> char {
    if d < 10 {
        (('0' as int) + d) as char
    } else {
        (('a' as int) + d - 10) as char
    }
}

/// A character as it stands in a JSON string.
pub open spec fn escaped(c: char) -> Seq<char> {
    let n = c as int;
    if c == '"' {
        seq!['\\', '"']
    } else if c == '\\' {
        seq!['\\', '\\']
    } else if n == 0x08 {
        seq!['\\', 'b']
    } else if n == 0x09 {
        seq!['\\', 't']
    } else if n == 0x0a {
        seq!['\\', 'n']
    } else if n == 0x0c {
        seq!['\\', 'f']
    } else if n == 0x0d {
        seq!['\\', 'r']
    } else if n < 0x20 {
        seq!['\\', 'u', '0', '0', hex_digit(n / 16), hex_digit(n % 16)]
    } else {
        seq![c]
    }
}

/// Characters as they stand in a JSON string.
pub open spec fn escaped_all(s: Seq<char>) -> Seq<char>
    decreases s.len(),
{
    if s.len() == 0 {
        Seq::empty()
    } else {
        escaped_all(s.drop_last()) + escaped(s.last())
    }
}

/// A text as a JSON string.
pub open spec fn string_text(s: Seq<char>) -> Seq<char> {
    seq!['"'] + escaped_all(s) + seq!['"']
}

/// Calls `serde_json::to_string` on a string slice: the text between quotes,
/// with quotes, backslashes and control characters escaped and everything else
/// as it is. Writing a string into memory does not fail.
#[verifier::external_body]
pub(crate) fn to_json_string(s: &str) -> (json: Result<String, serde_json::Error>)
    ensures
        json is Ok,
        json->Ok_0@ == string_text(s@),
{
    serde_json::to_string(s)
}

/// An assumption as a JSON object.
pub open spec fn assumption_text(assumption: (Seq<char>, Seq<char>)) -> Seq<char> {
    "{\"code\":"@ + string_text(assumption.0) + ",\"detail\":"@ + string_text(assumption.1) + "}"@
}

/// Assumptions as JSON objects with commas in between.
pub open spec fn assumption_items(list: Seq<(Seq<char>, Seq<char>)>) -> Seq<char>
    decreases list.len(),
{
    if list.len() == 0 {
        Seq::empty()
    } else if list.len() == 1 {
        assumption_text(list.last())
    } else {
        assumption_items(list.drop_last()) + ","@ + assumption_text(list.last())
    }
}

/// Assumptions as a JSON array.
pub open spec fn assumptions_text(list: Seq<(Seq<char>, Seq<char>)>) -> Seq<char> {
    "["@ + assumption_items(list) + "]"@
}

/// Codes and wordings as texts.
pub open spec fn texts(list: Seq<(&str, &str)>) -> Seq<(Seq<char>, Seq<char>)> {
    Seq::new(list.len(), |i: int| (list[i].0@, list[i].1@))
}

/// Appends an assumption, given by its code and its wording, as a JSON object.
fn push_assumption(out: &mut String, code: &str, detail: &str) -> (result: Result<
    (),
    serde_json::Error,
>)
    ensures
        result is Ok,
        final(out)@ == old(out)@ + assumption_text((code@, detail@)),
{
    let ghost before = out@;
    let code_json: String = match to_json_string(code) {
        Ok(text) => text,
        Err(e) => {
            return Err(e);
        },
    };
    let detail_json: String = match to_json_string(detail) {
        Ok(text) => text,
        Err(e) => {
            return Err(e);
        },
    };
    out.append("{\"code\":");
    out.append(code_json.as_str());
    out.append(",\"detail\":");
    out.append(detail_json.as_str());
    out.append("}");
    proof {
        assert(out@ =~= before + assumption_text((code@, detail@)));
    }
    Ok(())
}

/// Writes assumptions, given by their codes and wordings, as a JSON array.
pub fn write_assumptions(list: &Vec<(&str, &str)>) -> (json: Result<String, serde_json::Error>)
    ensures
        json matches Ok(text) && text@ == assumptions_text(texts(list@)),
{
    let ghost all = texts(list@);
    let mut out: String = String::from_str("[");
    let mut i: usize = 0;
    proof {
        assert(all.take(0) =~= Seq::empty());
        assert("["@ + Seq::<char>::empty() =~= "["@);
    }
    while i < list.len()
        invariant
            i <= list@.len(),
            all == texts(list@),
            out@ == "["@ + assumption_items(all.take(i as int)),
        decreases list@.len() - i,
    {
        proof {
            assert(all.take(i as int + 1).drop_last() =~= all.take(i as int));
        }
        if i > 0 {
            out.append(",");
        }
        let (code, detail) = list[i];
        match push_assumption(&mut out, code, detail) {
            Ok(_) => {},
            Err(e) => {
                return Err(e);
            },
        }
        proof {
            assert(all.take(i as int + 1).last() == (code@, detail@));
            assert(out@ =~= "["@ + assumption_items(all.take(i as int + 1)));
        }
        i = i + 1;
    }
    proof {
        assert(all.take(i as int) =~= all);
    }
    out.append("]");
    proof {
        assert(out@ =~= assumptions_text(all));
    }
    Ok(out)
}

/// Takes JSON text, and `null` where it could not be written.
pub fn or_null(json: Result<String, serde_json::Error>) -> (text: String)
    ensures
        text@ == match json {
            Ok(t) => t@,
            Err(_) => "null"@,
        },
{
    match json {
        Ok(text) => text,
        Err(_) => String::from_str("null"),
    }
}

} // verus!
