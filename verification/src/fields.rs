//! The text of one line of a mesh description: fields and indices.

use vstd::prelude::*;

verus! {

/// The byte that separates fields.
pub const SPACE: u8 = 32;

/// Where the first space of `s` stands, or the length of `s` if it has none.
pub open spec fn first_space(s: Seq<u8>) -> int
    decreases s.len(),
{
    if s.len() == 0 || s[0] == SPACE {
        0
    } else {
        1 + first_space(s.drop_first())
    }
}

/// The fields of `s`: the stretches between its spaces. Each single space
/// separates two fields, so a text without a space is one field, and two
/// spaces in a row hold an empty field between them.
pub open spec fn split_fields(s: Seq<u8>) -> Seq<Seq<u8>>
    decreases s.len(),
{
    let n = first_space(s);
    if 0 <= n < s.len() {
        seq![s.take(n)] + split_fields(s.skip(n + 1))
    } else {
        seq![s]
    }
}

/// The texts of the fields held in `fields`.
pub open spec fn texts(fields: Seq<Vec<u8>>) -> Seq<Seq<u8>> {
    fields.map_values(|f: Vec<u8>| f@)
}

/// The number that the decimal digits `digits` write.
pub open spec fn decimal_value(digits: Seq<u8>) -> nat
    decreases digits.len(),
{
    if digits.len() == 0 {
        0
    } else {
        decimal_value(digits.drop_last()) * 10 + (digits.last() - 48) as nat
    }
}

/// Whether every byte of `s` is a decimal digit.
pub open spec fn all_digits(s: Seq<u8>) -> bool {
    forall|i: int| 0 <= i < s.len() ==> 48 <= #[trigger] s[i] <= 57
}

/// The digits of a field that may begin with a plus sign.
pub open spec fn unsigned_part(field: Seq<u8>) -> Seq<u8> {
    if field.len() > 0 && field[0] == 43 {
        field.skip(1)
    } else {
        field
    }
}

/// The index that a field writes: one or more decimal digits, with a plus
/// sign before them or none, whose value fits the machine word. Any other
/// field writes no index.
pub open spec fn field_index(field: Seq<u8>) -> Option<usize> {
    let digits = unsigned_part(field);
    if digits.len() > 0 && all_digits(digits) && decimal_value(digits) <= usize::MAX {
        Some(decimal_value(digits) as usize)
    } else {
        None
    }
}

/// The position of the first space is where a space stands with none before
/// it.
proof fn lemma_first_space(s: Seq<u8>, n: int)
    requires
        0 <= n <= s.len(),
        forall|k: int| 0 <= k < n ==> s[k] != SPACE,
        n == s.len() || s[n] == SPACE,
    ensures
        first_space(s) == n,
    decreases n,
{
    if n > 0 {
        let rest = s.drop_first();
        assert forall|k: int| 0 <= k < n - 1 implies rest[k] != SPACE by {
            assert(rest[k] == s[k + 1]);
        }
        lemma_first_space(rest, n - 1);
    }
}

/// A number does not shrink when digits are appended to it.
proof fn lemma_decimal_value_grows(digits: Seq<u8>, n: int)
    requires
        all_digits(digits),
        0 <= n <= digits.len(),
    ensures
        decimal_value(digits.take(n)) <= decimal_value(digits),
    decreases digits.len() - n,
{
    if n < digits.len() {
        let longer = digits.take(n + 1);
        assert(longer.drop_last() == digits.take(n));
        assert(longer.last() == digits[n]);
        assert(decimal_value(longer) >= decimal_value(digits.take(n)));
        lemma_decimal_value_grows(digits, n + 1);
    } else {
        assert(digits.take(n) == digits);
    }
}

/// Splits the text of `line` from position `from` on into its fields.
pub fn fields_from(line: &[u8], from: usize) -> (fields: Vec<Vec<u8>>)
    requires
        from <= line.len(),
    ensures
        texts(fields@) == split_fields(line@.skip(from as int)),
{
    let mut fields: Vec<Vec<u8>> = Vec::new();
    let mut current: Vec<u8> = Vec::new();
    let mut start: usize = from;
    let mut i: usize = from;
    while i < line.len()
        invariant
            from <= start <= i <= line.len(),
            current@ == line@.subrange(start as int, i as int),
            forall|k: int| start <= k < i ==> line[k] != SPACE,
            split_fields(line@.skip(from as int)) == texts(fields@) + split_fields(
                line@.skip(start as int),
            ),
        decreases line.len() - i,
    {
        let byte = line[i];
        if byte == SPACE {
            proof {
                let tail = line@.skip(start as int);
                lemma_first_space(tail, i - start);
                assert(tail.take(i - start) == current@);
                assert(tail.skip(i - start + 1) == line@.skip(i + 1));
                assert(texts(fields@.push(current)) == texts(fields@) + seq![current@]);
            }
            fields.push(current);
            current = Vec::new();
            start = i + 1;
        } else {
            current.push(byte);
            proof {
                assert(current@ == line@.subrange(start as int, i + 1));
            }
        }
        i = i + 1;
    }
    proof {
        let tail = line@.skip(start as int);
        lemma_first_space(tail, i - start);
        assert(tail == current@);
        assert(texts(fields@.push(current)) == texts(fields@) + seq![current@]);
    }
    fields.push(current);
    fields
}

/// Reads the index that `field` writes, if it writes one.
pub fn parse_index(field: &[u8]) -> (index: Option<usize>)
    ensures
        index == field_index(field@),
{
    let first: usize = if field.len() > 0 && field[0] == 43 {
        1
    } else {
        0
    };
    if first == field.len() {
        return None;
    }
    let ghost digits = unsigned_part(field@);
    let mut value: usize = 0;
    let mut i: usize = first;
    while i < field.len()
        invariant
            first <= i <= field.len(),
            first <= 1,
            digits == field@.skip(first as int),
            digits == unsigned_part(field@),
            all_digits(digits.take(i - first)),
            value == decimal_value(digits.take(i - first)),
        decreases field.len() - i,
    {
        let byte = field[i];
        if byte < 48 || byte > 57 {
            proof {
                assert(digits[i - first] == byte);
            }
            return None;
        }
        proof {
            let longer = digits.take(i - first + 1);
            assert(longer.drop_last() == digits.take(i - first));
            assert(longer.last() == byte);
            assert forall|k: int| 0 <= k < longer.len() implies 48 <= #[trigger] longer[k] <= 57 by {
                if k < i - first {
                    assert(digits.take(i - first)[k] == longer[k]);
                }
            }
            if value * 10 + (byte - 48) > usize::MAX {
                if all_digits(digits) {
                    lemma_decimal_value_grows(digits, i - first + 1);
                }
            }
        }
        let scaled = match value.checked_mul(10) {
            Some(s) => s,
            None => {
                return None;
            },
        };
        value = match scaled.checked_add((byte - 48) as usize) {
            Some(v) => v,
            None => {
                return None;
            },
        };
        i = i + 1;
    }
    proof {
        assert(digits.take(i - first) == digits);
    }
    Some(value)
}

} // verus!
