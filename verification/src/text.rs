//! Text: decimal numerals, ordering, blank tests and the token lemmas behind
//! the injectivity of structural identities.
use vstd::prelude::*;

verus! {

/// The character of a decimal digit.
pub open spec fn digit(value: nat) -> char {
    (48 + value) as char
}

/// The decimal numeral of a number, without leading zeros.
pub open spec fn decimal(value: nat) -> Seq<char>
    decreases value,
{
    if value < 10 {
        seq![digit(value)]
    } else {
        decimal(value / 10).push(digit(value % 10))
    }
}

/// Whether a character is white space (the Unicode `White_Space` property).
pub open spec fn white_space(c: char) -> bool {
    let code = c as int;
    ||| 0x9 <= code <= 0xd
    ||| code == 0x20
    ||| code == 0x85
    ||| code == 0xa0
    ||| code == 0x1680
    ||| 0x2000 <= code <= 0x200a
    ||| code == 0x2028
    ||| code == 0x2029
    ||| code == 0x202f
    ||| code == 0x205f
    ||| code == 0x3000
}

/// Whether a text holds nothing but white space.
pub open spec fn blank(text: Seq<char>) -> bool {
    forall|i: int| 0 <= i < text.len() ==> white_space(#[trigger] text[i])
}

/// The order of texts by their first differing character; a proper prefix comes first.
#[verifier::opaque]
pub open spec fn precedes(left: Seq<char>, right: Seq<char>) -> bool
    decreases left.len(),
{
    if right.len() == 0 {
        false
    } else if left.len() == 0 {
        true
    } else if left[0] != right[0] {
        (left[0] as int) < (right[0] as int)
    } else {
        precedes(left.drop_first(), right.drop_first())
    }
}

/// The texts joined end to end.
pub open spec fn joined(parts: Seq<Seq<char>>) -> Seq<char>
    decreases parts.len(),
{
    if parts.len() == 0 {
        Seq::empty()
    } else {
        joined(parts.drop_last()) + parts.last()
    }
}

/// Texts by their characters.
pub open spec fn text_models(texts: Seq<String>) -> Seq<Seq<char>> {
    texts.map_values(|entry: String| entry@)
}

/// The texts with another text between each two.
pub open spec fn joined_with(parts: Seq<Seq<char>>, between: Seq<char>) -> Seq<char>
    decreases parts.len(),
{
    if parts.len() == 0 {
        Seq::empty()
    } else if parts.len() == 1 {
        parts[0]
    } else {
        joined_with(parts.drop_last(), between) + between + parts.last()
    }
}

/// The number of bytes of a text in UTF-8.
pub open spec fn byte_length(text: Seq<char>) -> nat {
    vstd::utf8::encode_utf8(text).len()
}

pub open spec fn all_digits(text: Seq<char>) -> bool {
    forall|i: int| 0 <= i < text.len() ==> 48 <= (#[trigger] text[i]) as int <= 57
}

proof fn lemma_char_code(c: char)
    ensures
        c as u32 == c as int,
{
}

fn digit_text(value: u64) -> (result: &'static str)
    requires
        value < 10,
    ensures
        result@ == seq![digit(value as nat)],
{
    proof {
        reveal_strlit("0");
        reveal_strlit("1");
        reveal_strlit("2");
        reveal_strlit("3");
        reveal_strlit("4");
        reveal_strlit("5");
        reveal_strlit("6");
        reveal_strlit("7");
        reveal_strlit("8");
        reveal_strlit("9");
    }
    let result = if value == 0 {
        "0"
    } else if value == 1 {
        "1"
    } else if value == 2 {
        "2"
    } else if value == 3 {
        "3"
    } else if value == 4 {
        "4"
    } else if value == 5 {
        "5"
    } else if value == 6 {
        "6"
    } else if value == 7 {
        "7"
    } else if value == 8 {
        "8"
    } else {
        "9"
    };
    assert(result@ =~= seq![digit(value as nat)]);
    result
}

/// The decimal numeral of a number.
pub fn decimal_text(value: u64) -> (result: String)
    ensures
        result@ == decimal(value as nat),
    decreases value,
{
    if value < 10 {
        digit_text(value).to_owned()
    } else {
        let head = decimal_text(value / 10);
        let result = head.concat(digit_text(value % 10));
        assert(result@ =~= decimal((value / 10) as nat).push(digit((value % 10) as nat)));
        result
    }
}

/// The decimal numeral of a size.
pub fn size_text(value: usize) -> (result: String)
    ensures
        result@ == decimal(value as nat),
{
    decimal_text(value as u64)
}

/// The characters of a text.
pub fn characters(text: &str) -> (result: Vec<char>)
    ensures
        result@ == text@,
{
    broadcast use vstd::string::axiom_spec_iter;

    let mut result: Vec<char> = Vec::new();
    for c in walk: text.chars()
        invariant
            walk.seq() == text@,
            result@ == text@.take(walk.index() as int),
    {
        result.push(c);
    }
    assert(result@ =~= text@);
    result
}

/// The number of bytes of a text.
pub fn length_in_bytes(text: &str) -> (result: usize)
    ensures
        result == byte_length(text@),
{
    text.as_bytes().len()
}

/// Whether a text holds nothing but white space.
pub fn is_blank(text: &str) -> (result: bool)
    ensures
        result == blank(text@),
{
    let chars = characters(text);
    let mut index: usize = 0;
    while index < chars.len()
        invariant
            index <= chars.len(),
            chars@ == text@,
            forall|i: int| 0 <= i < index ==> white_space(#[trigger] text@[i]),
        decreases chars.len() - index,
    {
        let c: char = chars[index];
        let code: u32 = c as u32;
        proof {
            lemma_char_code(c);
        }
        let white: bool = (0x9 <= code && code <= 0xd) || code == 0x20 || code == 0x85 || code
            == 0xa0 || code == 0x1680 || (0x2000 <= code && code <= 0x200a) || code == 0x2028
            || code == 0x2029 || code == 0x202f || code == 0x205f || code == 0x3000;
        assert(white == white_space(text@[index as int]));
        if !white {
            return false;
        }
        index += 1;
    }
    true
}

/// Whether two texts are the same.
pub fn same_text(left: &str, right: &str) -> (result: bool)
    ensures
        result == (left@ == right@),
{
    let left_chars = characters(left);
    let right_chars = characters(right);
    if left_chars.len() != right_chars.len() {
        return false;
    }
    let mut index: usize = 0;
    while index < left_chars.len()
        invariant
            index <= left_chars.len(),
            left_chars@ == left@,
            right_chars@ == right@,
            left_chars.len() == right_chars.len(),
            forall|i: int| 0 <= i < index ==> left@[i] == right@[i],
        decreases left_chars.len() - index,
    {
        if left_chars[index] != right_chars[index] {
            assert(left@[index as int] != right@[index as int]);
            return false;
        }
        index += 1;
    }
    assert(left@ =~= right@);
    true
}

/// Whether `left` comes before `right`.
pub fn text_precedes(left: &str, right: &str) -> (result: bool)
    ensures
        result == precedes(left@, right@),
{
    proof {
        reveal_with_fuel(precedes, 2);
    }
    let left_chars = characters(left);
    let right_chars = characters(right);
    let mut index: usize = 0;
    assert(left_chars@.skip(0) =~= left@ && right_chars@.skip(0) =~= right@);
    while index < left_chars.len() && index < right_chars.len()
        invariant
            index <= left_chars.len(),
            index <= right_chars.len(),
            precedes(left@, right@) == precedes(
                left_chars@.skip(index as int),
                right_chars@.skip(index as int),
            ),
        decreases left_chars.len() - index,
    {
        proof {
            reveal_with_fuel(precedes, 2);
        }
        let ghost left_rest = left_chars@.skip(index as int);
        let ghost right_rest = right_chars@.skip(index as int);
        let a: char = left_chars[index];
        let b: char = right_chars[index];
        assert(left_rest[0] == a && right_rest[0] == b);
        if a != b {
            proof {
                lemma_char_code(a);
                lemma_char_code(b);
            }
            return (a as u32) < (b as u32);
        }
        assert(left_rest.drop_first() =~= left_chars@.skip(index + 1));
        assert(right_rest.drop_first() =~= right_chars@.skip(index + 1));
        index += 1;
    }
    index < right_chars.len()
}

/// Joins texts with another text between each two.
pub fn join_with(parts: &Vec<String>, between: &str) -> (result: String)
    ensures
        result@ == joined_with(text_models(parts@), between@),
{
    let ghost models = text_models(parts@);
    if parts.len() == 0 {
        let result = String::new();
        assert(result@ =~= joined_with(models, between@));
        return result;
    }
    let mut result = parts[0].clone();
    let mut index: usize = 1;
    proof {
        assert(models.take(1).len() == 1);
        assert(models.take(1)[0] == parts@[0]@);
    }
    while index < parts.len()
        invariant
            1 <= index <= parts@.len(),
            models == text_models(parts@),
            result@ == joined_with(models.take(index as int), between@),
        decreases parts.len() - index,
    {
        proof {
            let longer = models.take(index + 1);
            assert(longer.drop_last() =~= models.take(index as int));
            assert(longer.last() == parts@[index as int]@);
        }
        result = result.concat(between).concat(parts[index].as_str());
        index += 1;
    }
    assert(models.take(index as int) =~= models);
    result
}

pub proof fn lemma_precedes_irreflexive(text: Seq<char>)
    ensures
        !precedes(text, text),
    decreases text.len(),
{
    reveal_with_fuel(precedes, 2);
    if text.len() > 0 {
        lemma_precedes_irreflexive(text.drop_first());
    }
}

pub proof fn lemma_precedes_total(left: Seq<char>, right: Seq<char>)
    ensures
        left == right || precedes(left, right) || precedes(right, left),
    decreases left.len(),
{
    reveal_with_fuel(precedes, 2);
    if left.len() == 0 {
        assert(right.len() == 0 ==> left =~= right);
    } else if right.len() == 0 {
        assert(precedes(right, left));
    } else if left[0] != right[0] {
        assert(left[0] as int != right[0] as int);
        assert(precedes(left, right) || precedes(right, left));
    } else {
        lemma_precedes_total(left.drop_first(), right.drop_first());
        if left.drop_first() == right.drop_first() {
            assert(left =~= seq![left[0]] + left.drop_first());
            assert(right =~= seq![right[0]] + right.drop_first());
        }
    }
}

pub proof fn lemma_precedes_transitive(a: Seq<char>, b: Seq<char>, c: Seq<char>)
    requires
        precedes(a, b),
        precedes(b, c),
    ensures
        precedes(a, c),
    decreases a.len(),
{
    reveal_with_fuel(precedes, 2);
    if a.len() > 0 && a[0] == b[0] && b[0] == c[0] {
        lemma_precedes_transitive(a.drop_first(), b.drop_first(), c.drop_first());
    }
}

pub proof fn lemma_decimal_digits(value: nat)
    ensures
        all_digits(decimal(value)),
        decimal(value).len() >= 1,
    decreases value,
{
    if value >= 10 {
        lemma_decimal_digits(value / 10);
    }
}

pub proof fn lemma_decimal_injective(left: nat, right: nat)
    requires
        decimal(left) == decimal(right),
    ensures
        left == right,
    decreases left,
{
    lemma_decimal_digits(left);
    lemma_decimal_digits(right);
    assert(decimal(left).last() == decimal(right).last());
    assert(decimal(left).last() == digit(left % 10));
    assert(decimal(right).last() == digit(right % 10));
    assert(left % 10 == right % 10);
    if left >= 10 {
        lemma_decimal_digits(left / 10);
        assert(decimal(left).len() >= 2);
        assert(right >= 10);
        assert(decimal(left).drop_last() =~= decimal(left / 10));
        assert(decimal(right).drop_last() =~= decimal(right / 10));
        lemma_decimal_injective(left / 10, right / 10);
    } else if right >= 10 {
        lemma_decimal_digits(right / 10);
        assert(decimal(right).len() >= 2);
    }
}

/// A numeral that is followed by a separator can be read back: two texts that
/// agree and start with a numeral and a separator agree in the number and in the rest.
pub proof fn lemma_numeral_split(
    left: nat,
    left_rest: Seq<char>,
    right: nat,
    right_rest: Seq<char>,
    separator: char,
)
    requires
        decimal(left) + seq![separator] + left_rest == decimal(right) + seq![separator]
            + right_rest,
        !(48 <= separator as int <= 57),
    ensures
        left == right,
        left_rest == right_rest,
{
    lemma_decimal_digits(left);
    lemma_decimal_digits(right);
    let a = decimal(left);
    let b = decimal(right);
    let whole = a + seq![separator] + left_rest;
    assert(whole[a.len() as int] == separator);
    assert(whole[b.len() as int] == separator);
    if a.len() < b.len() {
        assert(whole[a.len() as int] == b[a.len() as int]);
    }
    if b.len() < a.len() {
        assert(whole[b.len() as int] == a[b.len() as int]);
    }
    assert(a =~= whole.take(a.len() as int));
    assert(b =~= whole.take(b.len() as int));
    lemma_decimal_injective(left, right);
    assert(left_rest =~= whole.skip(a.len() as int + 1));
    assert(right_rest =~= whole.skip(b.len() as int + 1));
}

proof fn lemma_byte_length_grows(text: Seq<char>, extra: Seq<char>)
    ensures
        byte_length(text + extra) == byte_length(text) + byte_length(extra),
        byte_length(extra) >= extra.len(),
    decreases text.len() + extra.len(),
{
    if text.len() > 0 {
        assert((text + extra).drop_first() =~= text.drop_first() + extra);
        lemma_byte_length_grows(text.drop_first(), extra);
    } else {
        assert(text + extra =~= extra);
        if extra.len() > 0 {
            lemma_byte_length_grows(Seq::empty(), extra.drop_first());
        }
    }
}

/// Two texts of the same byte length that start the same text are the same.
pub proof fn lemma_byte_prefix(
    left: Seq<char>,
    left_rest: Seq<char>,
    right: Seq<char>,
    right_rest: Seq<char>,
)
    requires
        left + left_rest == right + right_rest,
        byte_length(left) == byte_length(right),
    ensures
        left == right,
        left_rest == right_rest,
{
    let whole = left + left_rest;
    assert(left =~= whole.take(left.len() as int));
    assert(right =~= whole.take(right.len() as int));
    if left.len() < right.len() {
        let extra = right.skip(left.len() as int);
        assert(right =~= left + extra);
        lemma_byte_length_grows(left, extra);
    } else if right.len() < left.len() {
        let extra = left.skip(right.len() as int);
        assert(left =~= right + extra);
        lemma_byte_length_grows(right, extra);
    }
    assert(left_rest =~= whole.skip(left.len() as int));
    assert(right_rest =~= whole.skip(right.len() as int));
}

/// Joining may start at either end.
pub proof fn lemma_joined_first(parts: Seq<Seq<char>>)
    requires
        parts.len() > 0,
    ensures
        joined(parts) == parts[0] + joined(parts.drop_first()),
    decreases parts.len(),
{
    if parts.len() == 1 {
        assert(joined(parts.drop_last()) =~= Seq::<char>::empty());
        assert(joined(parts.drop_first()) =~= Seq::<char>::empty());
        assert(joined(parts) =~= parts[0] + joined(parts.drop_first()));
    } else {
        lemma_joined_first(parts.drop_last());
        assert(parts.drop_last().drop_first() =~= parts.drop_first().drop_last());
        assert(joined(parts) =~= parts[0] + joined(parts.drop_first()));
    }
}

} // verus!
