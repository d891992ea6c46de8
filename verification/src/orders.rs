//! The orders from which the host plans a sequence, and the text file that
//! holds them: one order to a line, four numbers with commas between them.

use vstd::prelude::*;

verus! {

/// One order: spend `t_us` microseconds on a band `bandwidth_hz` wide around
/// `freq_hz`, with `n` frequency changes.
#[derive(Clone, Copy, Debug, PartialEq, Eq, Structural)]
pub struct FrequencyOrder {
    pub t_us: u32,
    pub freq_hz: u32,
    pub bandwidth_hz: u32,
    pub n: usize,
}

#[derive(Clone, Copy, Debug, PartialEq, Eq, Structural)]
pub enum OrderError {
    /// A line does not hold four numbers with commas between them.
    Malformed,
    /// A number is too large for its field, or is not written in the digits 0 to 9.
    Number,
}

/// What a line of an order file has to hold somewhere: four runs of digits,
/// commas between them, white space allowed around the commas.
pub const ORDER_PATTERN: &'static str = r"(\d+)\s*,\s*(\d+)\s*,\s*(\d+)\s*,\s*(\d+)";

/// The lines of a text, as `str::lines` tells them apart.
pub uninterp spec fn lines_of(text: Seq<char>) -> Seq<Seq<char>>;

/// The bytes of a capture group of the first match of a pattern in a line,
/// as the regex crate finds it; nothing where the pattern is no regular
/// expression, the line holds no match, or the group took no part in it.
pub uninterp spec fn capture_group(
    pattern: Seq<char>,
    line: Seq<char>,
    group: usize,
) -> Option<Seq<u8>>;

/// `str::lines`: the lines of a text in order, without their line ends.
#[verifier::external_body]
fn split_lines(text: &str) -> (lines: Vec<String>)
    ensures
        lines@.len() == lines_of(text@).len(),
        forall|i: int| 0 <= i < lines@.len() ==> (#[trigger] lines@[i])@ == lines_of(text@)[i],
{
    text.lines().map(|line| line.to_string()).collect()
}

/// `regex::Regex::new`, `Regex::captures` and `Captures::get`: the bytes
/// that the capture group `group` of `pattern` matched in the first match
/// in `line`.
#[verifier::external_body]
fn captured(pattern: &str, line: &str, group: usize) -> (found: Option<Vec<u8>>)
    ensures
        found matches Some(bytes) ==> capture_group(pattern@, line@, group) == Some(bytes@),
        found is None ==> capture_group(pattern@, line@, group) is None,
{
    let re = regex::Regex::new(pattern).ok()?;
    let caps = re.captures(line)?;
    caps.get(group).map(|m| m.as_str().as_bytes().to_vec())
}

/// `byte` is one of the digits 0 to 9.
pub open spec fn is_digit(byte: u8) -> bool {
    0x30 <= byte <= 0x39
}

/// The number that a run of digits writes, most significant digit first.
pub open spec fn digits_value(digits: Seq<u8>) -> nat
    decreases digits.len(),
{
    if digits.len() == 0 {
        0
    } else {
        10 * digits_value(digits.drop_last()) + (digits.last() - 0x30) as nat
    }
}

/// Every byte is a digit.
pub open spec fn all_digits(s: Seq<u8>) -> bool {
    forall|i: int| 0 <= i < s.len() ==> is_digit(#[trigger] s[i])
}

/// `text` without a leading plus sign.
pub open spec fn unsigned_part(text: Seq<u8>) -> Seq<u8> {
    if text.len() > 0 && text[0] == 0x2b {
        text.skip(1)
    } else {
        text
    }
}

/// The number that `text` writes in decimal, if it is at most `max`: a plus
/// sign may lead, and at least one digit follows and nothing else.
pub open spec fn number_of(text: Seq<u8>, max: u64) -> Option<u64> {
    let digits = unsigned_part(text);
    if digits.len() > 0 && all_digits(digits) && digits_value(digits) <= max {
        Some(digits_value(digits) as u64)
    } else {
        None
    }
}

proof fn lemma_digits_value_grows(digits: Seq<u8>, n: int)
    requires
        0 <= n <= digits.len(),
        all_digits(digits),
    ensures
        digits_value(digits.take(n)) <= digits_value(digits),
    decreases digits.len() - n,
{
    if n < digits.len() {
        lemma_digits_value_grows(digits, n + 1);
        assert(digits.take(n + 1).drop_last() =~= digits.take(n));
    } else {
        assert(digits.take(n) =~= digits);
    }
}

/// Reads a decimal number of at most `max`.
pub fn parse_number(text: &[u8], max: u64) -> (value: Option<u64>)
    ensures
        value == number_of(text@, max),
{
    let start: usize = if text.len() > 0 && text[0] == 0x2b {
        1
    } else {
        0
    };
    let ghost digits = text@.skip(start as int);
    proof {
        assert(text@.skip(0) =~= text@);
    }
    if start == text.len() {
        return None;
    }
    let mut value: u64 = 0;
    let mut i: usize = start;
    while i < text.len()
        invariant
            start <= i <= text@.len(),
            digits == text@.skip(start as int),
            digits == unsigned_part(text@),
            forall|j: int| 0 <= j < i - start ==> is_digit(#[trigger] digits[j]),
            value == digits_value(digits.take(i - start)),
            value <= max,
        decreases text@.len() - i,
    {
        let byte = text[i];
        assert(digits[i - start] == byte);
        if byte < 0x30 || byte > 0x39 {
            proof {
                assert(!is_digit(digits[i - start]));
                assert(!all_digits(digits));
            }
            return None;
        }
        let digit = (byte - 0x30) as u64;
        proof {
            assert(digits.take(i - start + 1).drop_last() =~= digits.take(i - start));
            assert(digits.take(i - start + 1).last() == byte);
        }
        if digit > max || value > (max - digit) / 10 {
            proof {
                assert(digits_value(digits.take(i - start + 1)) == 10 * value + digit);
                assert(digits_value(digits.take(i - start + 1)) > max);
                if all_digits(digits) {
                    lemma_digits_value_grows(digits, i - start + 1);
                    assert(digits_value(digits) > max);
                }
            }
            return None;
        }
        value = value * 10 + digit;
        i += 1;
    }
    proof {
        assert(digits.take(i - start) =~= digits);
    }
    Some(value)
}

/// The order that four captured fields write, each read as a number that
/// fits its field. A field that was not captured makes the line malformed.
pub open spec fn order_of(
    t_us: Option<Seq<u8>>,
    freq_hz: Option<Seq<u8>>,
    bandwidth_hz: Option<Seq<u8>>,
    n: Option<Seq<u8>>,
) -> Result<FrequencyOrder, OrderError> {
    if t_us is None || freq_hz is None || bandwidth_hz is None || n is None {
        Err(OrderError::Malformed)
    } else if number_of(t_us->0, u32::MAX as u64) is None || number_of(
        freq_hz->0,
        u32::MAX as u64,
    ) is None || number_of(bandwidth_hz->0, u32::MAX as u64) is None || number_of(
        n->0,
        usize::MAX as u64,
    ) is None {
        Err(OrderError::Number)
    } else {
        Ok(
            FrequencyOrder {
                t_us: number_of(t_us->0, u32::MAX as u64)->0 as u32,
                freq_hz: number_of(freq_hz->0, u32::MAX as u64)->0 as u32,
                bandwidth_hz: number_of(bandwidth_hz->0, u32::MAX as u64)->0 as u32,
                n: number_of(n->0, usize::MAX as u64)->0 as usize,
            },
        )
    }
}

/// The order that a line writes.
pub open spec fn line_order(line: Seq<char>) -> Result<FrequencyOrder, OrderError> {
    order_of(
        capture_group(ORDER_PATTERN@, line, 1),
        capture_group(ORDER_PATTERN@, line, 2),
        capture_group(ORDER_PATTERN@, line, 3),
        capture_group(ORDER_PATTERN@, line, 4),
    )
}

/// Makes an order of four captured fields.
pub fn order_from(
    t_us: Option<Vec<u8>>,
    freq_hz: Option<Vec<u8>>,
    bandwidth_hz: Option<Vec<u8>>,
    n: Option<Vec<u8>>,
) -> (order: Result<FrequencyOrder, OrderError>)
    ensures
        order == order_of(
            match t_us {
                Some(b) => Some(b@),
                None => None,
            },
            match freq_hz {
                Some(b) => Some(b@),
                None => None,
            },
            match bandwidth_hz {
                Some(b) => Some(b@),
                None => None,
            },
            match n {
                Some(b) => Some(b@),
                None => None,
            },
        ),
{
    match (t_us, freq_hz, bandwidth_hz, n) {
        (Some(t), Some(f), Some(b), Some(n)) => {
            let t = parse_number(t.as_slice(), u32::MAX as u64);
            let f = parse_number(f.as_slice(), u32::MAX as u64);
            let b = parse_number(b.as_slice(), u32::MAX as u64);
            let n = parse_number(n.as_slice(), usize::MAX as u64);
            match (t, f, b, n) {
                (Some(t), Some(f), Some(b), Some(n)) => Ok(
                    FrequencyOrder {
                        t_us: t as u32,
                        freq_hz: f as u32,
                        bandwidth_hz: b as u32,
                        n: n as usize,
                    },
                ),
                _ => Err(OrderError::Number),
            }
        },
        _ => Err(OrderError::Malformed),
    }
}

/// The orders that lines write, in the order of the lines, or the error of
/// the first line that writes none.
pub open spec fn orders_of(lines: Seq<Seq<char>>) -> Result<Seq<FrequencyOrder>, OrderError>
    decreases lines.len(),
{
    if lines.len() == 0 {
        Ok(Seq::<FrequencyOrder>::empty())
    } else {
        match orders_of(lines.drop_last()) {
            Err(e) => Err(e),
            Ok(list) => match line_order(lines.last()) {
                Ok(order) => Ok(list.push(order)),
                Err(e) => Err(e),
            },
        }
    }
}

proof fn lemma_first_error_stays(lines: Seq<Seq<char>>, n: int, e: OrderError)
    requires
        0 <= n <= lines.len(),
        orders_of(lines.take(n)) == Err::<Seq<FrequencyOrder>, OrderError>(e),
    ensures
        orders_of(lines) == Err::<Seq<FrequencyOrder>, OrderError>(e),
    decreases lines.len() - n,
{
    if n < lines.len() {
        assert(lines.take(n + 1).drop_last() =~= lines.take(n));
        lemma_first_error_stays(lines, n + 1, e);
    } else {
        assert(lines.take(n) =~= lines);
    }
}

/// Reads an order file: every line gives one order, in the order of the
/// lines. The first line that gives none decides the error.
pub fn parse_orders(file: &str) -> (orders: Result<Vec<FrequencyOrder>, OrderError>)
    ensures
        orders matches Ok(list) ==> orders_of(lines_of(file@)) == Ok::<
            Seq<FrequencyOrder>,
            OrderError,
        >(list@),
        orders matches Err(e) ==> orders_of(lines_of(file@)) == Err::<
            Seq<FrequencyOrder>,
            OrderError,
        >(e),
{
    let lines = split_lines(file);
    let ghost texts = lines_of(file@);
    let mut out: Vec<FrequencyOrder> = Vec::new();
    let mut i: usize = 0;
    while i < lines.len()
        invariant
            i <= lines@.len(),
            texts == lines_of(file@),
            lines@.len() == texts.len(),
            forall|k: int| 0 <= k < lines@.len() ==> (#[trigger] lines@[k])@ == texts[k],
            orders_of(texts.take(i as int)) == Ok::<Seq<FrequencyOrder>, OrderError>(out@),
        decreases lines@.len() - i,
    {
        let line = lines[i].as_str();
        let order = order_from(
            captured(ORDER_PATTERN, line, 1),
            captured(ORDER_PATTERN, line, 2),
            captured(ORDER_PATTERN, line, 3),
            captured(ORDER_PATTERN, line, 4),
        );
        proof {
            assert(order == line_order(texts[i as int]));
            assert(texts.take(i + 1).drop_last() =~= texts.take(i as int));
            assert(texts.take(i + 1).last() == texts[i as int]);
        }
        match order {
            Ok(order) => out.push(order),
            Err(e) => {
                proof {
                    lemma_first_error_stays(texts, i + 1, e);
                }
                return Err(e);
            },
        }
        i += 1;
    }
    proof {
        assert(texts.take(i as int) =~= texts);
    }
    Ok(out)
}

} // verus!
