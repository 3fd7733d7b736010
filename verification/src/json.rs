use vstd::prelude::*;
use crate::digits::push_decimal;
use crate::digits::spec_dec_str;
use crate::multipart::PartResult;

verus! {

/// The lower-case hexadecimal digit character for a value below sixteen.
pub open spec fn spec_hex_char(d: u32) -> char {
    if d == 0 {
        '0'
    } else if d == 1 {
        '1'
    } else if d == 2 {
        '2'
    } else if d == 3 {
        '3'
    } else if d == 4 {
        '4'
    } else if d == 5 {
        '5'
    } else if d == 6 {
        '6'
    } else if d == 7 {
        '7'
    } else if d == 8 {
        '8'
    } else if d == 9 {
        '9'
    } else if d == 10 {
        'a'
    } else if d == 11 {
        'b'
    } else if d == 12 {
        'c'
    } else if d == 13 {
        'd'
    } else if d == 14 {
        'e'
    } else {
        'f'
    }
}

/// How one character reads inside a JSON string literal: quote and
/// backslash get a backslash escape, control characters a \u00XX escape,
/// everything else stands as itself.
pub open spec fn spec_escape_char(c: char) -> Seq<char> {
    if c == '"' {
        seq!['\\', '"']
    } else if c == '\\' {
        seq!['\\', '\\']
    } else if (c as u32) < 32 {
        seq!['\\', 'u', '0', '0', spec_hex_char((c as u32) / 16), spec_hex_char((c as u32) % 16)]
    } else {
        seq![c]
    }
}

/// A character sequence escaped for use inside a JSON string literal.
pub open spec fn spec_escape(s: Seq<char>) -> Seq<char>
    decreases s.len(),
{
    if s.len() == 0 {
        Seq::empty()
    } else {
        spec_escape(s.drop_last()) + spec_escape_char(s.last())
    }
}

/// One collected confirmation as the completion call's JSON object.
pub open spec fn spec_part_json(p: PartResult) -> Seq<char> {
    "{\"partNumber\":"@ + spec_dec_str(p.part_number as int) + ",\"etag\":\""@ + spec_escape(
        p.etag@,
    ) + "\"}"@
}

/// The comma-separated objects of the completion call's JSON array, in
/// the order the confirmations were collected.
pub open spec fn spec_parts_json_items(s: Seq<PartResult>) -> Seq<char>
    decreases s.len(),
{
    if s.len() == 0 {
        Seq::empty()
    } else if s.len() == 1 {
        spec_part_json(s[0])
    } else {
        spec_parts_json_items(s.drop_last()) + ","@ + spec_part_json(s.last())
    }
}

/// The completion call's whole JSON body: the collected confirmations as
/// an array, in collection order.
pub open spec fn spec_parts_json(s: Seq<PartResult>) -> Seq<char> {
    "["@ + spec_parts_json_items(s) + "]"@
}

/// Relies on String::push: it appends exactly the one given character.
#[verifier::external_body]
fn push_char(out: &mut String, c: char)
    ensures
        final(out)@ == old(out)@ + seq![c],
{
    out.push(c);
}

fn hex_str(d: u32) -> (r: &'static str)
    requires
        d < 16,
    ensures
        r@ == seq![spec_hex_char(d)],
{
    let r: &'static str = if d == 0 {
        "0"
    } else if d == 1 {
        "1"
    } else if d == 2 {
        "2"
    } else if d == 3 {
        "3"
    } else if d == 4 {
        "4"
    } else if d == 5 {
        "5"
    } else if d == 6 {
        "6"
    } else if d == 7 {
        "7"
    } else if d == 8 {
        "8"
    } else if d == 9 {
        "9"
    } else if d == 10 {
        "a"
    } else if d == 11 {
        "b"
    } else if d == 12 {
        "c"
    } else if d == 13 {
        "d"
    } else if d == 14 {
        "e"
    } else {
        "f"
    };
    proof {
        reveal_strlit("0");
        reveal_strlit("1");
        reveal_strlit("2");
        reveal_strlit("3");
        reveal_strlit("4");
        reveal_strlit("5");
        reveal_strlit("6");
        reveal_strlit("7");
        reveal_strlit("8");
        reveal_strlit("9");
        reveal_strlit("a");
        reveal_strlit("b");
        reveal_strlit("c");
        reveal_strlit("d");
        reveal_strlit("e");
        reveal_strlit("f");
        assert(r@ =~= seq![spec_hex_char(d)]);
    }
    r
}

/// Append `s` to `out`, escaped for a JSON string literal.
pub fn push_escaped(s: &str, out: &mut String)
    ensures
        final(out)@ == old(out)@ + spec_escape(s@),
{
    let n = s.unicode_len();
    let mut i: usize = 0;
    while i < n
        invariant
            n == s@.len(),
            i <= n,
            out@ == old(out)@ + spec_escape(s@.subrange(0, i as int)),
        decreases n - i,
    {
        let c = s.get_char(i);
        if c == '"' {
            out.append("\\\"");
            proof {
                reveal_strlit("\\\"");
                assert("\\\""@ =~= spec_escape_char(c));
            }
        } else if c == '\\' {
            out.append("\\\\");
            proof {
                reveal_strlit("\\\\");
                assert("\\\\"@ =~= spec_escape_char(c));
            }
        } else if (c as u32) < 32 {
            let u = c as u32;
            out.append("\\u00");
            out.append(hex_str(u / 16));
            out.append(hex_str(u % 16));
            proof {
                reveal_strlit("\\u00");
                assert("\\u00"@ + seq![spec_hex_char(u / 16)] + seq![spec_hex_char(u % 16)]
                    =~= spec_escape_char(c));
            }
        } else {
            push_char(out, c);
        }
        proof {
            assert(s@.subrange(0, i + 1).drop_last() =~= s@.subrange(0, i as int));
            assert(s@.subrange(0, i + 1).last() == s@[i as int]);
            assert(out@ =~= old(out)@ + spec_escape(s@.subrange(0, i + 1)));
        }
        i = i + 1;
    }
    proof {
        assert(s@.subrange(0, n as int) =~= s@);
    }
}

/// Append the JSON object for one confirmation to `out`.
fn push_part_json(p: &PartResult, out: &mut String)
    ensures
        final(out)@ == old(out)@ + spec_part_json(*p),
{
    out.append("{\"partNumber\":");
    push_decimal(p.part_number, out);
    out.append(",\"etag\":\"");
    push_escaped(p.etag.as_str(), out);
    out.append("\"}");
    proof {
        assert(out@ =~= old(out)@ + spec_part_json(*p));
    }
}

/// The completion call's JSON body for the collected confirmations, in
/// the order they were collected.
pub fn complete_body(parts: &Vec<PartResult>) -> (r: String)
    ensures
        r@ == spec_parts_json(parts@),
{
    let mut out = String::from_str("[");
    let n = parts.len();
    let mut i: usize = 0;
    proof {
        assert(out@ =~= "["@ + spec_parts_json_items(parts@.subrange(0, 0)));
    }
    while i < n
        invariant
            n == parts@.len(),
            i <= n,
            out@ == "["@ + spec_parts_json_items(parts@.subrange(0, i as int)),
        decreases n - i,
    {
        if i > 0 {
            out.append(",");
        }
        push_part_json(&parts[i], &mut out);
        proof {
            let pre = parts@.subrange(0, i as int);
            let cur = parts@.subrange(0, i + 1);
            assert(cur.drop_last() =~= pre);
            assert(cur.last() == parts@[i as int]);
            assert(out@ =~= "["@ + spec_parts_json_items(cur));
        }
        i = i + 1;
    }
    out.append("]");
    proof {
        assert(parts@.subrange(0, n as int) =~= parts@);
        assert(out@ =~= spec_parts_json(parts@));
    }
    out
}

} // verus!
