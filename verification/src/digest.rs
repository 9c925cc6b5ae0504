//! Content digests and the JSON fragments that identities are computed over.
use vstd::prelude::*;

verus! {

/// The lower-case hexadecimal BLAKE3 hash of bytes.
pub uninterp spec fn blake3_hex(bytes: Seq<u8>) -> Seq<char>;

/// Calls `blake3::hash` and `Hash::to_hex`. Its contract claims that the text is a
/// function of the bytes alone; what it is on given bytes is not stated.
#[verifier::external_body]
fn hash_hex(bytes: &[u8]) -> (result: String)
    ensures
        result@ == blake3_hex(bytes@),
{
    blake3::hash(bytes).to_hex().to_string()
}

/// The character of a hexadecimal digit.
pub open spec fn hex_digit(value: int) -> char {
    if value < 10 {
        (48 + value) as char
    } else {
        (87 + value) as char
    }
}

/// A character inside a JSON string.
pub open spec fn escaped_char(c: char) -> Seq<char> {
    let code = c as int;
    if code == 0x22 || code == 0x5c {
        seq!['\\', c]
    } else if code == 0x08 {
        seq!['\\', 'b']
    } else if code == 0x09 {
        seq!['\\', 't']
    } else if code == 0x0a {
        seq!['\\', 'n']
    } else if code == 0x0c {
        seq!['\\', 'f']
    } else if code == 0x0d {
        seq!['\\', 'r']
    } else if code < 0x20 {
        seq!['\\', 'u', '0', '0', hex_digit(code / 16), hex_digit(code % 16)]
    } else {
        seq![c]
    }
}

pub open spec fn escaped(content: Seq<char>) -> Seq<char>
    decreases content.len(),
{
    if content.len() == 0 {
        Seq::empty()
    } else {
        escaped_char(content[0]) + escaped(content.drop_first())
    }
}

/// The JSON string of a text.
pub open spec fn json_string(content: Seq<char>) -> Seq<char> {
    seq!['"'] + escaped(content) + seq!['"']
}

/// Calls `serde_json::to_string` on a `str`. Its contract claims that the result is
/// the text in double quotes, with quotes, backslashes and the controls below U+0020
/// escaped and every other character kept. Writing into memory does not fail.
#[verifier::external_body]
pub(crate) fn json_text(content: &str) -> (result: String)
    ensures
        result@ == json_string(content@),
{
    serde_json::to_string(content).expect("a string is serializable")
}

/// The digest text of bytes.
pub open spec fn digest_of_bytes(bytes: Seq<u8>) -> Seq<char> {
    "blake3:"@ + blake3_hex(bytes)
}

/// The digest text of a text's UTF-8 bytes.
pub open spec fn digest_of(content: Seq<char>) -> Seq<char> {
    digest_of_bytes(vstd::utf8::encode_utf8(content))
}

pub fn digest_bytes(bytes: &Vec<u8>) -> (result: String)
    ensures
        result@ == digest_of_bytes(bytes@),
{
    "blake3:".to_owned().concat(hash_hex(bytes.as_slice()).as_str())
}

pub fn digest_text(content: &str) -> (result: String)
    ensures
        result@ == digest_of(content@),
{
    "blake3:".to_owned().concat(hash_hex(content.as_bytes()).as_str())
}

/// The texts separated by commas.
pub open spec fn comma_joined(parts: Seq<Seq<char>>) -> Seq<char>
    decreases parts.len(),
{
    if parts.len() == 0 {
        Seq::empty()
    } else if parts.len() == 1 {
        parts[0]
    } else {
        comma_joined(parts.drop_last()) + ","@ + parts.last()
    }
}

/// Appends one more comma-separated part.
pub(crate) fn append_part(
    list: String,
    count: usize,
    part: &str,
    Ghost(parts): Ghost<Seq<Seq<char>>>,
) -> (result: String)
    requires
        list@ == comma_joined(parts),
        count == parts.len(),
    ensures
        result@ == comma_joined(parts.push(part@)),
{
    proof {
        assert(parts.push(part@).drop_last() =~= parts);
    }
    if count == 0 {
        let result = part.to_owned();
        assert(parts.push(part@)[0] == part@);
        result
    } else {
        list.concat(",").concat(part)
    }
}

proof fn lemma_escaped_char_read(a: char, a_rest: Seq<char>, b: char, b_rest: Seq<char>)
    requires
        escaped_char(a) + a_rest == escaped_char(b) + b_rest,
    ensures
        a == b,
        a_rest == b_rest,
{
    let left = escaped_char(a);
    let right = escaped_char(b);
    let whole = left + a_rest;
    assert(whole[0] == left[0] && whole[0] == right[0]);
    if left.len() > 1 && right.len() > 1 {
        assert(whole[1] == left[1] && whole[1] == right[1]);
        assert(left.len() == right.len());
        if left.len() == 6 {
            assert(whole[4] == left[4] && whole[4] == right[4]);
            assert(whole[5] == left[5] && whole[5] == right[5]);
            assert(hex_digit(a as int / 16) as int == hex_digit(b as int / 16) as int);
            assert(hex_digit(a as int % 16) as int == hex_digit(b as int % 16) as int);
            assert(a as int / 16 == b as int / 16);
            assert(a as int % 16 == b as int % 16);
        }
        assert(a as int == b as int);
    }
    assert(left.len() == right.len());
    assert(a as int == b as int);
    assert(a_rest =~= whole.skip(left.len() as int));
    assert(b_rest =~= whole.skip(right.len() as int));
}

proof fn lemma_escaped_read(a: Seq<char>, a_rest: Seq<char>, b: Seq<char>, b_rest: Seq<char>)
    requires
        escaped(a) + seq!['"'] + a_rest == escaped(b) + seq!['"'] + b_rest,
    ensures
        a == b,
        a_rest == b_rest,
    decreases a.len(),
{
    let left = escaped(a) + seq!['"'] + a_rest;
    let right = escaped(b) + seq!['"'] + b_rest;
    if a.len() == 0 {
        assert(left[0] == '"');
        if b.len() > 0 {
            assert(right[0] == escaped_char(b[0])[0]);
        }
        assert(a =~= b);
        assert(a_rest =~= left.skip(1));
        assert(b_rest =~= right.skip(1));
    } else if b.len() == 0 {
        assert(right[0] == '"');
        assert(left[0] == escaped_char(a[0])[0]);
    } else {
        let a_tail = escaped(a.drop_first()) + seq!['"'] + a_rest;
        let b_tail = escaped(b.drop_first()) + seq!['"'] + b_rest;
        assert(left =~= escaped_char(a[0]) + a_tail);
        assert(right =~= escaped_char(b[0]) + b_tail);
        lemma_escaped_char_read(a[0], a_tail, b[0], b_tail);
        lemma_escaped_read(a.drop_first(), a_rest, b.drop_first(), b_rest);
        assert(a =~= seq![a[0]] + a.drop_first());
        assert(b =~= seq![b[0]] + b.drop_first());
    }
}

/// A JSON string can be read back: two texts that agree and start with a JSON
/// string agree in its content and in the rest.
pub proof fn lemma_json_string_read(
    a: Seq<char>,
    a_rest: Seq<char>,
    b: Seq<char>,
    b_rest: Seq<char>,
)
    requires
        json_string(a) + a_rest == json_string(b) + b_rest,
    ensures
        a == b,
        a_rest == b_rest,
{
    let left = json_string(a) + a_rest;
    let right = json_string(b) + b_rest;
    assert(left.skip(1) =~= escaped(a) + seq!['"'] + a_rest);
    assert(right.skip(1) =~= escaped(b) + seq!['"'] + b_rest);
    lemma_escaped_read(a, a_rest, b, b_rest);
}

/// A list splits behind its first part.
pub proof fn lemma_comma_joined_first(parts: Seq<Seq<char>>)
    requires
        parts.len() > 1,
    ensures
        comma_joined(parts) == parts[0] + ","@ + comma_joined(parts.drop_first()),
    decreases parts.len(),
{
    let rest = parts.drop_first();
    if parts.len() == 2 {
        assert(comma_joined(parts.drop_last()) == parts[0]);
        assert(comma_joined(rest) == parts[1]);
    } else {
        lemma_comma_joined_first(parts.drop_last());
        assert(parts.drop_last().drop_first() =~= rest.drop_last());
        assert(comma_joined(parts) =~= parts[0] + ","@ + comma_joined(rest));
    }
}

/// Texts that agree behind a common beginning agree.
pub proof fn lemma_same_beginning(beginning: Seq<char>, left: Seq<char>, right: Seq<char>)
    requires
        beginning + left == beginning + right,
    ensures
        left == right,
{
    assert(left =~= (beginning + left).skip(beginning.len() as int));
    assert(right =~= (beginning + right).skip(beginning.len() as int));
}

/// Whether the codes of the admitted values can be read off the front of a text.
pub open spec fn readable<A>(code: spec_fn(A) -> Seq<char>, admitted: spec_fn(A) -> bool) -> bool {
    &&& forall|x: A, x_rest: Seq<char>, y: A, y_rest: Seq<char>|
        #![trigger code(x) + x_rest, code(y) + y_rest]
        admitted(x) && admitted(y) && code(x) + x_rest == code(y) + y_rest ==> x == y && x_rest
            == y_rest
    &&& forall|x: A| code(x).len() > 0 && (#[trigger] code(x))[0] != ']'
}

/// A JSON array of readable codes can be read back.
pub proof fn lemma_array_read<A>(
    code: spec_fn(A) -> Seq<char>,
    admitted: spec_fn(A) -> bool,
    a: Seq<A>,
    a_rest: Seq<char>,
    b: Seq<A>,
    b_rest: Seq<char>,
)
    requires
        readable(code, admitted),
        forall|i: int| 0 <= i < a.len() ==> admitted(#[trigger] a[i]),
        forall|i: int| 0 <= i < b.len() ==> admitted(#[trigger] b[i]),
        comma_joined(a.map_values(code)) + seq![']'] + a_rest == comma_joined(b.map_values(code))
            + seq![']'] + b_rest,
    ensures
        a == b,
        a_rest == b_rest,
    decreases a.len(),
{
    let left = comma_joined(a.map_values(code)) + seq![']'] + a_rest;
    let right = comma_joined(b.map_values(code)) + seq![']'] + b_rest;
    reveal_strlit(",");
    if a.len() > 0 {
        lemma_array_split(code, a, a_rest);
    }
    if b.len() > 0 {
        lemma_array_split(code, b, b_rest);
    }
    if a.len() == 0 || b.len() == 0 {
        if a.len() == 0 {
            assert(left[0] == ']');
        } else {
            assert(left[0] == code(a[0])[0]);
        }
        if b.len() == 0 {
            assert(right[0] == ']');
        } else {
            assert(right[0] == code(b[0])[0]);
        }
        assert(a =~= b);
        assert(a_rest =~= left.skip(1));
        assert(b_rest =~= right.skip(1));
    } else {
        let a_tail = array_tail(code, a, a_rest);
        let b_tail = array_tail(code, b, b_rest);
        assert(code(a[0]) + a_tail == code(b[0]) + b_tail);
        assert(a[0] == b[0] && a_tail == b_tail);
        if a.len() == 1 {
            assert(a_tail[0] == ']');
        } else {
            assert(a_tail[0] == ',');
        }
        if b.len() == 1 {
            assert(b_tail[0] == ']');
        } else {
            assert(b_tail[0] == ',');
        }
        if a.len() == 1 {
            assert(a =~= b);
            assert(a_rest =~= a_tail.skip(1));
            assert(b_rest =~= b_tail.skip(1));
        } else {
            let a_more = comma_joined(a.drop_first().map_values(code)) + seq![']'] + a_rest;
            let b_more = comma_joined(b.drop_first().map_values(code)) + seq![']'] + b_rest;
            assert(a_more =~= a_tail.skip(1));
            assert(b_more =~= b_tail.skip(1));
            lemma_array_read(code, admitted, a.drop_first(), a_rest, b.drop_first(), b_rest);
            assert(a =~= seq![a[0]] + a.drop_first());
            assert(b =~= seq![b[0]] + b.drop_first());
        }
    }
}

/// What follows the first element of a JSON array.
spec fn array_tail<A>(code: spec_fn(A) -> Seq<char>, items: Seq<A>, rest: Seq<char>) -> Seq<char> {
    if items.len() == 1 {
        seq![']'] + rest
    } else {
        ","@ + (comma_joined(items.drop_first().map_values(code)) + seq![']'] + rest)
    }
}

proof fn lemma_array_split<A>(code: spec_fn(A) -> Seq<char>, items: Seq<A>, rest: Seq<char>)
    requires
        items.len() > 0,
    ensures
        comma_joined(items.map_values(code)) + seq![']'] + rest == code(items[0]) + array_tail(
            code,
            items,
            rest,
        ),
{
    let parts = items.map_values(code);
    assert(parts.drop_first() =~= items.drop_first().map_values(code));
    if items.len() > 1 {
        lemma_comma_joined_first(parts);
    }
    assert(comma_joined(parts) + seq![']'] + rest =~= code(items[0]) + array_tail(
        code,
        items,
        rest,
    ));
}

} // verus!
