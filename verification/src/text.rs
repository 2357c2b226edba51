//! Text that the library writes and reads: numbers, paths, templates.
use vstd::prelude::*;
use vstd::string::StringExecFns;

verus! {

/// The character for a digit below sixteen.
pub open spec fn digit_char(digit: int) -> char {
    if digit == 0 {
        '0'
    } else if digit == 1 {
        '1'
    } else if digit == 2 {
        '2'
    } else if digit == 3 {
        '3'
    } else if digit == 4 {
        '4'
    } else if digit == 5 {
        '5'
    } else if digit == 6 {
        '6'
    } else if digit == 7 {
        '7'
    } else if digit == 8 {
        '8'
    } else if digit == 9 {
        '9'
    } else if digit == 10 {
        'a'
    } else if digit == 11 {
        'b'
    } else if digit == 12 {
        'c'
    } else if digit == 13 {
        'd'
    } else if digit == 14 {
        'e'
    } else {
        'f'
    }
}

/// A number in decimal, without leading zeros.
pub open spec fn decimal(n: nat) -> Seq<char>
    decreases n,
{
    if n < 10 {
        seq![digit_char(n as int)]
    } else {
        decimal(n / 10).push(digit_char((n % 10) as int))
    }
}

/// A whole number in decimal, with a minus sign where it is negative.
pub open spec fn signed_decimal(n: int) -> Seq<char> {
    if n < 0 {
        seq!['-'] + decimal((-n) as nat)
    } else {
        decimal(n as nat)
    }
}

/// The low `digits` hexadecimal digits of a number, lower case.
pub open spec fn hex(n: nat, digits: nat) -> Seq<char>
    decreases digits,
{
    if digits == 0 {
        Seq::empty()
    } else {
        hex(n / 16, (digits - 1) as nat).push(digit_char((n % 16) as int))
    }
}

fn push_digit(out: &mut String, digit: u8)
    requires
        digit < 16,
    ensures
        final(out)@ == old(out)@.push(digit_char(digit as int)),
{
    proof {
        reveal_strlit("0");
        reveal_strlit("1");
        reveal_strlit("2");
        reveal_strlit("3");
        reveal_strlit("4");
        reveal_strlit("5");
        reveal_strlit("6");
        reveal_strlit("7");
        reveal_strlit("8");
        reveal_strlit("9");
        reveal_strlit("a");
        reveal_strlit("b");
        reveal_strlit("c");
        reveal_strlit("d");
        reveal_strlit("e");
        reveal_strlit("f");
    }
    let text: &str = match digit {
        0 => "0",
        1 => "1",
        2 => "2",
        3 => "3",
        4 => "4",
        5 => "5",
        6 => "6",
        7 => "7",
        8 => "8",
        9 => "9",
        10 => "a",
        11 => "b",
        12 => "c",
        13 => "d",
        14 => "e",
        _ => "f",
    };
    assert(text@ =~= seq![digit_char(digit as int)]);
    out.append(text);
    assert(out@ =~= old(out)@.push(digit_char(digit as int)));
}

pub fn push_decimal(out: &mut String, n: u128)
    ensures
        final(out)@ == old(out)@ + decimal(n as nat),
    decreases n,
{
    if n >= 10 {
        push_decimal(out, n / 10);
    }
    push_digit(out, (n % 10) as u8);
    assert(out@ =~= old(out)@ + decimal(n as nat));
}

pub fn push_signed(out: &mut String, n: i64)
    ensures
        final(out)@ == old(out)@ + signed_decimal(n as int),
{
    if n < 0 {
        out.append("-");
        push_decimal(out, (-(n as i128)) as u128);
        proof {
            reveal_strlit("-");
        }
        assert(out@ =~= old(out)@ + signed_decimal(n as int));
    } else {
        push_decimal(out, n as u128);
    }
}

/// Appends a checksum as eight hexadecimal digits.
pub fn push_hex32(out: &mut String, n: u32)
    ensures
        final(out)@ == old(out)@ + hex(n as nat, 8),
{
    push_hex(out, n, 8);
}

fn push_hex(out: &mut String, n: u32, digits: u8)
    ensures
        final(out)@ == old(out)@ + hex(n as nat, digits as nat),
    decreases digits,
{
    if digits > 0 {
        push_hex(out, n / 16, digits - 1);
        push_digit(out, (n % 16) as u8);
    }
    assert(out@ =~= old(out)@ + hex(n as nat, digits as nat));
}

/// The characters of a text.
pub fn chars_of(text: &str) -> (chars: Vec<char>)
    ensures
        chars@ == text@,
{
    let mut chars: Vec<char> = Vec::new();
    for c in iter: text.chars()
        invariant
            iter.seq() == text@,
            chars@ == text@.take(iter.index() as int),
    {
        chars.push(c);
        assert(chars@ =~= text@.take(iter.index() + 1));
    }
    assert(text@.take(text@.len() as int) =~= text@);
    chars
}

pub fn same_text(left: &str, right: &str) -> (same: bool)
    ensures
        same == (left@ == right@),
{
    left.to_owned() == right.to_owned()
}

/// The characters from `from` on are those of `text`.
pub fn chars_are(chars: &Vec<char>, from: usize, to: usize, text: &str) -> (same: bool)
    requires
        from <= to <= chars.len(),
    ensures
        same == (chars@.subrange(from as int, to as int) == text@),
{
    let wanted: Vec<char> = chars_of(text);
    if wanted.len() != to - from {
        return false;
    }
    let mut i: usize = 0;
    while i < wanted.len()
        invariant
            from <= to <= chars.len(),
            wanted@ == text@,
            wanted.len() == to - from,
            i <= wanted.len(),
            forall|j: int| 0 <= j < i ==> chars@[from + j] == text@[j],
        decreases wanted.len() - i,
    {
        if chars[from + i] != wanted[i] {
            assert(chars@.subrange(from as int, to as int)[i as int] != text@[i as int]);
            return false;
        }
        i = i + 1;
    }
    assert(chars@.subrange(from as int, to as int) =~= text@);
    true
}

/// A path with one more part, as paths are written with `/`: a part that starts at
/// the root stands alone.
pub open spec fn joined_path(base: Seq<char>, part: Seq<char>) -> Seq<char> {
    if part.len() > 0 && part[0] == '/' {
        part
    } else if base.len() > 0 && base.last() != '/' {
        base.push('/') + part
    } else {
        base + part
    }
}

/// Joins a part to a path.
pub fn join_path(base: &str, part: &str) -> (path: String)
    ensures
        path@ == joined_path(base@, part@),
{
    let base_chars: Vec<char> = chars_of(base);
    let part_chars: Vec<char> = chars_of(part);
    if part_chars.len() > 0 && part_chars[0] == '/' {
        return part.to_owned();
    }
    let mut path: String = base.to_owned();
    if base_chars.len() > 0 && base_chars[base_chars.len() - 1] != '/' {
        path.append("/");
        proof {
            reveal_strlit("/");
            assert(path@ =~= base@.push('/'));
        }
    }
    path.append(part);
    path
}

/// `text` with every occurrence of `pattern` replaced, found from left to right
/// and without overlap.
pub open spec fn replaced(text: Seq<char>, pattern: Seq<char>, with: Seq<char>) -> Seq<char>
    decreases text.len(),
{
    if pattern.len() == 0 || text.len() < pattern.len() {
        text
    } else if text.take(pattern.len() as int) == pattern {
        with + replaced(text.skip(pattern.len() as int), pattern, with)
    } else {
        seq![text[0]] + replaced(text.skip(1), pattern, with)
    }
}

pub fn replace_all(text: &str, pattern: &str, with: &str) -> (result: String)
    requires
        pattern@.len() > 0,
    ensures
        result@ == replaced(text@, pattern@, with@),
{
    let chars: Vec<char> = chars_of(text);
    let size: usize = chars_of(pattern).len();
    let mut result: String = String::new();
    // Copied up to `copied`, searched up to `i`.
    let mut copied: usize = 0;
    let mut i: usize = 0;
    assert(text@.skip(0) =~= text@);
    assert(text@.subrange(0, 0) =~= Seq::<char>::empty());
    assert(result@ + text@.subrange(0, 0) + replaced(text@, pattern@, with@) =~= replaced(
        text@,
        pattern@,
        with@,
    ));
    while i < chars.len() && chars.len() - i >= size
        invariant
            chars@ == text@,
            size == pattern@.len(),
            size > 0,
            copied <= i <= chars.len(),
            result@ + text@.subrange(copied as int, i as int) + replaced(
                text@.skip(i as int),
                pattern@,
                with@,
            ) == replaced(text@, pattern@, with@),
        decreases chars.len() - i,
    {
        let ghost rest = text@.skip(i as int);
        assert(rest.take(size as int) =~= text@.subrange(i as int, i + size));
        if chars_are(&chars, i, i + size, pattern) {
            result.append(text.substring_char(copied, i));
            result.append(with);
            assert(rest.skip(size as int) =~= text@.skip(i + size));
            i = i + size;
            copied = i;
            assert(text@.subrange(copied as int, i as int) =~= Seq::<char>::empty());
        } else {
            assert(rest.skip(1) =~= text@.skip(i + 1));
            assert(rest[0] == text@[i as int]);
            assert(text@.subrange(copied as int, i + 1) =~= text@.subrange(copied as int, i as int).push(
                text@[i as int],
            ));
            assert(result@ + text@.subrange(copied as int, i + 1) + replaced(
                rest.skip(1),
                pattern@,
                with@,
            ) =~= result@ + text@.subrange(copied as int, i as int) + replaced(
                rest,
                pattern@,
                with@,
            ));
            i = i + 1;
        }
    }
    result.append(text.substring_char(copied, chars.len()));
    assert(text@.subrange(copied as int, text@.len() as int) =~= text@.subrange(
        copied as int,
        i as int,
    ) + text@.skip(i as int));
    result
}

/// Texts one after the other, with commas between them.
pub open spec fn comma_joined(fields: Seq<Seq<char>>) -> Seq<char>
    decreases fields.len(),
{
    if fields.len() == 0 {
        Seq::empty()
    } else if fields.len() == 1 {
        fields[0]
    } else {
        comma_joined(fields.drop_last()) + ","@ + fields.last()
    }
}

/// One row of a comma-separated file.
pub fn comma_row(fields: &Vec<String>) -> (row: String)
    ensures
        row@ == comma_joined(fields@.map_values(|field: String| field@)),
{
    let mut row: String = String::new();
    let ghost views = fields@.map_values(|field: String| field@);
    let mut i: usize = 0;
    while i < fields.len()
        invariant
            i <= fields.len(),
            views == fields@.map_values(|field: String| field@),
            row@ == comma_joined(views.take(i as int)),
        decreases fields.len() - i,
    {
        assert(views.take(i + 1).drop_last() =~= views.take(i as int));
        assert(views.take(i + 1).last() == fields@[i as int]@);
        if i > 0 {
            row.append(",");
        }
        row.append(fields[i].as_str());
        i = i + 1;
        assert(row@ =~= comma_joined(views.take(i as int)));
    }
    assert(views.take(views.len() as int) =~= views);
    row
}

/// A number as a text of its own.
pub fn decimal_text(n: u128) -> (text: String)
    ensures
        text@ == decimal(n as nat),
{
    let mut text: String = String::new();
    push_decimal(&mut text, n);
    assert(text@ =~= decimal(n as nat));
    text
}

pub fn signed_text(n: i64) -> (text: String)
    ensures
        text@ == signed_decimal(n as int),
{
    let mut text: String = String::new();
    push_signed(&mut text, n);
    assert(text@ =~= signed_decimal(n as int));
    text
}

pub fn hex32_text(n: u32) -> (text: String)
    ensures
        text@ == hex(n as nat, 8),
{
    let mut text: String = String::new();
    push_hex32(&mut text, n);
    assert(text@ =~= hex(n as nat, 8));
    text
}

/// The number that decimal digits stand for.
pub open spec fn decimal_value(digits: Seq<char>) -> int
    decreases digits.len(),
{
    if digits.len() == 0 {
        0
    } else {
        decimal_value(digits.drop_last()) * 10 + (digits.last() as int - '0' as int)
    }
}

/// A number can be read back from its decimal text.
pub proof fn law_decimal_reads_back(n: nat)
    ensures
        decimal_value(decimal(n)) == n,
    decreases n,
{
    let digits = decimal(n);
    if n < 10 {
        assert(digits.drop_last() =~= Seq::<char>::empty());
        assert(decimal_value(digits.drop_last()) == 0);
    } else {
        law_decimal_reads_back(n / 10);
        assert(digits.drop_last() =~= decimal(n / 10));
    }
}

/// The text holds the label with the value right behind it.
pub open spec fn says(text: Seq<char>, label: Seq<char>, value: Seq<char>) -> bool {
    exists|at: int|
        0 <= at && at + label.len() + value.len() <= text.len() && #[trigger] text.subrange(
            at,
            at + label.len() + value.len(),
        ) == label + value
}

/// What is said is still said when text is added on either side.
pub proof fn lemma_says(before: Seq<char>, label: Seq<char>, value: Seq<char>, after: Seq<char>)
    ensures
        says(before + label + value + after, label, value),
{
    let text = before + label + value + after;
    let at = before.len() as int;
    assert(text.subrange(at, at + label.len() + value.len()) =~= label + value);
}

/// A row starts with its first field, a comma behind it where more follow, and goes
/// on with the row of the others.
pub proof fn law_rows_start_with_their_first_field(fields: Seq<Seq<char>>)
    requires
        fields.len() > 0,
    ensures
        fields.len() == 1 ==> comma_joined(fields) == fields[0],
        fields.len() > 1 ==> comma_joined(fields) == fields[0] + ","@ + comma_joined(
            fields.drop_first(),
        ),
    decreases fields.len(),
{
    if fields.len() == 2 {
        assert(fields.drop_last() =~= seq![fields[0]]);
        assert(fields.drop_first() =~= seq![fields[1]]);
        assert(comma_joined(fields.drop_last()) == fields[0]);
        assert(comma_joined(fields.drop_first()) == fields[1]);
    } else if fields.len() > 2 {
        let front = fields.drop_last();
        law_rows_start_with_their_first_field(front);
        assert(front.drop_first() =~= fields.drop_first().drop_last());
        assert(comma_joined(fields) =~= fields[0] + ","@ + comma_joined(fields.drop_first()));
    }
}

/// The number that a sign stands for among hexadecimal digits.
pub open spec fn hex_digit_value(digit: char) -> int {
    if 'a' <= digit <= 'f' {
        digit as int - 'a' as int + 10
    } else {
        digit as int - '0' as int
    }
}

/// The number that hexadecimal digits stand for.
pub open spec fn hex_value(digits: Seq<char>) -> int
    decreases digits.len(),
{
    if digits.len() == 0 {
        0
    } else {
        hex_value(digits.drop_last()) * 16 + hex_digit_value(digits.last())
    }
}

/// A number below the next power of sixteen can be read back from its hexadecimal
/// digits, of which there are as many as were asked for.
pub proof fn law_hex_reads_back(n: nat, digits: nat)
    requires
        n < vstd::arithmetic::power::pow(16, digits),
    ensures
        hex(n, digits).len() == digits,
        hex_value(hex(n, digits)) == n,
        forall|i: int|
            0 <= i < digits ==> {
                let digit = #[trigger] hex(n, digits)[i];
                '0' <= digit <= '9' || 'a' <= digit <= 'f'
            },
    decreases digits,
{
    vstd::arithmetic::power::lemma_pow0(16);
    if digits > 0 {
        reveal(vstd::arithmetic::power::pow);
        let fewer = (digits - 1) as nat;
        law_hex_reads_back(n / 16, fewer);
        let text = hex(n, digits);
        assert(text.drop_last() =~= hex(n / 16, fewer));
        assert forall|i: int| 0 <= i < digits implies {
            let digit = #[trigger] text[i];
            '0' <= digit <= '9' || 'a' <= digit <= 'f'
        } by {
            if i < fewer {
                assert(text[i] == hex(n / 16, fewer)[i]);
            }
        }
    }
}

/// A negative number has a minus sign before its size, any other has none.
pub proof fn law_signed_decimal_reads_back(n: int)
    ensures
        n >= 0 ==> decimal_value(signed_decimal(n)) == n,
        n < 0 ==> signed_decimal(n)[0] == '-' && decimal_value(signed_decimal(n).skip(1)) == -n,
{
    if n < 0 {
        law_decimal_reads_back((-n) as nat);
        assert(signed_decimal(n).skip(1) =~= decimal((-n) as nat));
    } else {
        law_decimal_reads_back(n as nat);
    }
}

/// A number's digits are from zero to nine, and only zero starts with a zero.
pub proof fn law_decimal_has_no_leading_zero(n: nat)
    ensures
        decimal(n).len() > 0,
        n > 0 ==> decimal(n)[0] != '0',
        forall|i: int| 0 <= i < decimal(n).len() ==> '0' <= #[trigger] decimal(n)[i] <= '9',
    decreases n,
{
    if n >= 10 {
        law_decimal_has_no_leading_zero(n / 10);
        let (shorter, digits) = (decimal(n / 10), decimal(n));
        assert(digits[0] == shorter[0]);
        assert forall|i: int| 0 <= i < digits.len() implies '0' <= #[trigger] digits[i] <= '9' by {
            if i < shorter.len() {
                assert(digits[i] == shorter[i]);
            }
        }
    }
}

/// The pattern stands in the text at a place.
pub open spec fn occurs_at(text: Seq<char>, pattern: Seq<char>, at: int) -> bool {
    0 <= at && at + pattern.len() <= text.len() && text.subrange(at, at + pattern.len()) == pattern
}

/// A text in which the pattern does not occur stays as it is.
pub proof fn law_other_text_is_kept(text: Seq<char>, pattern: Seq<char>, with: Seq<char>)
    requires
        forall|at: int| !#[trigger] occurs_at(text, pattern, at),
    ensures
        replaced(text, pattern, with) == text,
    decreases text.len(),
{
    if pattern.len() > 0 && text.len() >= pattern.len() {
        assert(!occurs_at(text, pattern, 0));
        assert(text.take(pattern.len() as int) =~= text.subrange(0, pattern.len() as int));
        let rest = text.skip(1);
        assert forall|at: int| !#[trigger] occurs_at(rest, pattern, at) by {
            if occurs_at(rest, pattern, at) {
                assert(text.subrange(at + 1, at + 1 + pattern.len()) =~= rest.subrange(
                    at,
                    at + pattern.len(),
                ));
                assert(occurs_at(text, pattern, at + 1));
            }
        }
        law_other_text_is_kept(rest, pattern, with);
        assert(seq![text[0]] + rest =~= text);
    }
}

/// Where the pattern occurs first, what stands before it stays, the pattern is
/// replaced, and it goes on behind it.
pub proof fn law_the_first_occurrence_is_replaced(
    text: Seq<char>,
    pattern: Seq<char>,
    with: Seq<char>,
    at: int,
)
    requires
        pattern.len() > 0,
        occurs_at(text, pattern, at),
        forall|earlier: int| 0 <= earlier < at ==> !#[trigger] occurs_at(text, pattern, earlier),
    ensures
        replaced(text, pattern, with) == text.take(at) + with + replaced(
            text.skip(at + pattern.len()),
            pattern,
            with,
        ),
    decreases at,
{
    let size = pattern.len() as int;
    assert(text.take(size) =~= text.subrange(0, size));
    if at == 0 {
        assert(replaced(text, pattern, with) =~= text.take(at) + with + replaced(
            text.skip(at + size),
            pattern,
            with,
        ));
    } else {
        assert(!occurs_at(text, pattern, 0));
        let rest = text.skip(1);
        assert(rest.subrange(at - 1, at - 1 + size) =~= text.subrange(at, at + size));
        assert forall|earlier: int| 0 <= earlier < at - 1 implies !#[trigger] occurs_at(
            rest,
            pattern,
            earlier,
        ) by {
            assert(text.subrange(earlier + 1, earlier + 1 + size) =~= rest.subrange(
                earlier,
                earlier + size,
            ));
            assert(!occurs_at(text, pattern, earlier + 1));
        }
        law_the_first_occurrence_is_replaced(rest, pattern, with, at - 1);
        assert(rest.skip(at - 1 + size) =~= text.skip(at + size));
        assert(replaced(text, pattern, with) =~= text.take(at) + with + replaced(
            text.skip(at + size),
            pattern,
            with,
        ));
    }
}

/// A part that does not start at the root ends the path, and what was joined to
/// starts it; between them stands exactly one slash.
pub proof fn law_joined_paths(base: Seq<char>, part: Seq<char>)
    ensures
        part.len() > 0 && part[0] == '/' ==> joined_path(base, part) == part,
        base.len() == 0 ==> joined_path(base, part) == part,
        base.len() > 0 && base.last() != '/' && !(part.len() > 0 && part[0] == '/')
            ==> joined_path(base, part) == base + "/"@ + part,
        base.len() > 0 && base.last() == '/' && !(part.len() > 0 && part[0] == '/')
            ==> joined_path(base, part) == base + part,
{
    reveal_strlit("/");
    assert(base.len() > 0 ==> base.push('/') + part =~= base + "/"@ + part);
    assert(base.len() == 0 ==> base + part =~= part);
}

/// Eight hexadecimal digits hold any 32 bits.
pub proof fn lemma_hex32(n: u32)
    ensures
        hex(n as nat, 8).len() == 8,
        hex_value(hex(n as nat, 8)) == n,
{
    reveal_with_fuel(vstd::arithmetic::power::pow, 9);
    assert(vstd::arithmetic::power::pow(16, 8) == 0x1_0000_0000);
    law_hex_reads_back(n as nat, 8);
}

/// A start, and behind it each label with its value.
pub open spec fn labelled(
    start: Seq<char>,
    labels: Seq<Seq<char>>,
    values: Seq<Seq<char>>,
) -> Seq<char>
    decreases labels.len(),
{
    if labels.len() == 0 || values.len() == 0 {
        start
    } else {
        labelled(start, labels.drop_last(), values.drop_last()) + labels.last() + values.last()
    }
}

/// Labels and values one behind the other are all said.
pub proof fn lemma_labelled(start: Seq<char>, labels: Seq<Seq<char>>, values: Seq<Seq<char>>)
    requires
        labels.len() == values.len(),
    ensures
        start.is_prefix_of(labelled(start, labels, values)),
        forall|i: int|
            0 <= i < labels.len() ==> says(
                labelled(start, labels, values),
                #[trigger] labels[i],
                values[i],
            ),
    decreases labels.len(),
{
    if labels.len() > 0 {
        let (fewer, firsts) = (labels.drop_last(), values.drop_last());
        let before = labelled(start, fewer, firsts);
        let all = labelled(start, labels, values);
        lemma_labelled(start, fewer, firsts);
        assert forall|i: int| 0 <= i < labels.len() implies says(all, #[trigger] labels[i], values[i]) by {
            if i < fewer.len() {
                assert(says(before, fewer[i], firsts[i]));
                let (label, value) = (labels[i], values[i]);
                let at = choose|at: int|
                    0 <= at && at + label.len() + value.len() <= before.len()
                        && #[trigger] before.subrange(at, at + label.len() + value.len()) == label
                        + value;
                assert(all.subrange(at, at + label.len() + value.len()) =~= before.subrange(
                    at,
                    at + label.len() + value.len(),
                ));
            } else {
                lemma_says(before, labels[i], values[i], Seq::empty());
                assert(all =~= before + labels[i] + values[i] + Seq::<char>::empty());
            }
        }
    }
}

} // verus!
