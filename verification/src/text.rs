use vstd::prelude::*;
use vstd::string::*;

verus! {

/// Whether two texts hold the same characters.
pub fn text_eq(a: &str, b: &str) -> (r: bool)
    ensures
        r == (a@ == b@),
{
    let x = String::from_str(a);
    let y = String::from_str(b);
    x == y
}

/// The texts of `parts` one after the other, with `sep` between neighbours.
pub open spec fn joined(parts: Seq<Seq<char>>, sep: Seq<char>) -> Seq<char>
    decreases parts.len(),
{
    if parts.len() == 0 {
        Seq::empty()
    } else if parts.len() == 1 {
        parts[0]
    } else {
        joined(parts.drop_last(), sep) + sep + parts.last()
    }
}

/// The views of a list of texts.
pub open spec fn texts(parts: Seq<String>) -> Seq<Seq<char>> {
    Seq::new(parts.len(), |i: int| parts[i]@)
}

/// Joins `parts` with `sep` between neighbours.
pub fn join_texts(parts: &Vec<String>, sep: &str) -> (r: String)
    ensures
        r@ == joined(texts(parts@), sep@),
{
    let mut out = String::new();
    let mut i: usize = 0;
    while i < parts.len()
        invariant
            i <= parts@.len(),
            out@ == joined(texts(parts@).take(i as int), sep@),
        decreases parts@.len() - i,
    {
        let ghost before = texts(parts@).take(i as int);
        let ghost after = texts(parts@).take(i + 1);
        proof {
            assert(after.drop_last() =~= before);
            assert(after.last() == parts@[i as int]@);
        }
        if i > 0 {
            out.append(sep);
        } else {
            proof {
                assert(out@ + parts@[i as int]@ =~= parts@[i as int]@);
            }
        }
        out.append(parts[i].as_str());
        i += 1;
    }
    proof {
        assert(texts(parts@).take(parts@.len() as int) =~= texts(parts@));
    }
    out
}

/// The character that stands for the digit `d`.
pub open spec fn digit_char(d: int) -> char {
    if d == 0 {
        '0'
    } else if d == 1 {
        '1'
    } else if d == 2 {
        '2'
    } else if d == 3 {
        '3'
    } else if d == 4 {
        '4'
    } else if d == 5 {
        '5'
    } else if d == 6 {
        '6'
    } else if d == 7 {
        '7'
    } else if d == 8 {
        '8'
    } else {
        '9'
    }
}

/// The digit that `c` stands for, if it is a decimal digit.
pub open spec fn digit_value(c: char) -> Option<int> {
    if c == '0' {
        Some(0)
    } else if c == '1' {
        Some(1)
    } else if c == '2' {
        Some(2)
    } else if c == '3' {
        Some(3)
    } else if c == '4' {
        Some(4)
    } else if c == '5' {
        Some(5)
    } else if c == '6' {
        Some(6)
    } else if c == '7' {
        Some(7)
    } else if c == '8' {
        Some(8)
    } else if c == '9' {
        Some(9)
    } else {
        None
    }
}

/// The number `n` written in decimal digits, without leading zeros.
pub open spec fn decimal(n: nat) -> Seq<char>
    decreases n,
{
    if n < 10 {
        seq![digit_char(n as int)]
    } else {
        decimal(n / 10).push(digit_char((n % 10) as int))
    }
}

/// The number that a text of decimal digits stands for; `None` where the
/// text is empty or holds anything but digits.
pub open spec fn decimal_value(t: Seq<char>) -> Option<nat>
    decreases t.len(),
{
    if t.len() == 0 {
        None
    } else {
        match digit_value(t.last()) {
            None => None,
            Some(d) => if t.len() == 1 {
                Some(d as nat)
            } else {
                match decimal_value(t.drop_last()) {
                    None => None,
                    Some(front) => Some((front * 10 + d) as nat),
                }
            },
        }
    }
}

/// Reading a number back from its decimal digits gives the number.
pub proof fn lemma_decimal_round_trip(n: nat)
    ensures
        decimal(n).len() >= 1,
        decimal_value(decimal(n)) == Some(n),
    decreases n,
{
    if n < 10 {
        assert(digit_value(digit_char(n as int)) == Some(n as int));
    } else {
        lemma_decimal_round_trip(n / 10);
        let front = decimal(n / 10);
        let d = (n % 10) as int;
        let whole = front.push(digit_char(d));
        assert(whole.last() == digit_char(d));
        assert(whole.drop_last() =~= front);
        assert(digit_value(digit_char(d)) == Some(d));
    }
}

/// A number in decimal digits begins with a digit, so what is read back
/// from it as an unsigned number is the number.
pub proof fn lemma_unsigned_round_trip(n: nat)
    ensures
        unsigned_value(decimal(n)) == Some(n),
    decreases n,
{
    lemma_decimal_round_trip(n);
    lemma_first_digit(n);
}

/// A whole number in decimal digits, with a minus sign where it is
/// negative.
pub open spec fn signed_decimal(n: int) -> Seq<char> {
    if n < 0 {
        "-"@ + decimal((-n) as nat)
    } else {
        decimal(n as nat)
    }
}

/// What is read back from a whole number as a signed number is the number.
pub proof fn lemma_signed_round_trip(n: int)
    ensures
        signed_value(signed_decimal(n)) == Some(n),
{
    reveal_strlit("-");
    if n < 0 {
        let digits = decimal((-n) as nat);
        lemma_decimal_round_trip((-n) as nat);
        assert(signed_decimal(n).skip(1) =~= digits);
        assert(signed_decimal(n)[0] == '-');
    } else {
        lemma_unsigned_round_trip(n as nat);
        lemma_first_digit(n as nat);
    }
}

proof fn lemma_first_digit(n: nat)
    ensures
        decimal(n).len() >= 1,
        decimal(n)[0] != '+',
        decimal(n)[0] != '-',
    decreases n,
{
    if n >= 10 {
        lemma_first_digit(n / 10);
    }
}

fn digit_text(d: u64) -> (r: &'static str)
    requires
        d < 10,
    ensures
        r@ == seq![digit_char(d as int)],
{
    proof {
        reveal_strlit("0");
        reveal_strlit("1");
        reveal_strlit("2");
        reveal_strlit("3");
        reveal_strlit("4");
        reveal_strlit("5");
        reveal_strlit("6");
        reveal_strlit("7");
        reveal_strlit("8");
        reveal_strlit("9");
    }
    let r = if d == 0 {
        "0"
    } else if d == 1 {
        "1"
    } else if d == 2 {
        "2"
    } else if d == 3 {
        "3"
    } else if d == 4 {
        "4"
    } else if d == 5 {
        "5"
    } else if d == 6 {
        "6"
    } else if d == 7 {
        "7"
    } else if d == 8 {
        "8"
    } else {
        "9"
    };
    assert(r@ =~= seq![digit_char(d as int)]);
    r
}

/// Writes `n` in decimal digits.
pub fn decimal_text(n: u64) -> (r: String)
    ensures
        r@ == decimal(n as nat),
    decreases n,
{
    if n < 10 {
        String::from_str(digit_text(n))
    } else {
        let mut out = decimal_text(n / 10);
        out.append(digit_text(n % 10));
        out
    }
}

/// Reads a number of at most `limit` from a text of decimal digits.
pub fn parse_decimal(t: &str, limit: u64) -> (r: Option<u64>)
    requires
        limit < 1_000_000_000_000_000,
    ensures
        r == match decimal_value(t@) {
            Some(v) => if v <= limit {
                Some(v as u64)
            } else {
                None
            },
            None => None,
        },
{
    let n = t.unicode_len();
    if n == 0 {
        return None;
    }
    let mut value: u64 = 0;
    let mut i: usize = 0;
    while i < n
        invariant
            i <= n,
            n == t@.len(),
            n > 0,
            limit < 1_000_000_000_000_000,
            value <= limit,
            i > 0 ==> decimal_value(t@.take(i as int)) == Some(value as nat),
            i == 0 ==> value == 0,
        decreases n - i,
    {
        let c = t.get_char(i);
        let ghost prefix = t@.take(i + 1);
        proof {
            assert(prefix.last() == c);
            assert(prefix.drop_last() =~= t@.take(i as int));
        }
        let d: u64 = match c {
            '0' => 0,
            '1' => 1,
            '2' => 2,
            '3' => 3,
            '4' => 4,
            '5' => 5,
            '6' => 6,
            '7' => 7,
            '8' => 8,
            '9' => 9,
            _ => {
                proof {
                    lemma_bad_digit(t@, i as int);
                }
                return None;
            },
        };
        assert(digit_value(c) == Some(d as int));
        let next = value * 10 + d;
        if next > limit {
            proof {
                assert(decimal_value(prefix) == Some(next as nat));
                lemma_value_grows(t@, i + 1);
            }
            return None;
        }
        value = next;
        i += 1;
    }
    proof {
        assert(t@.take(n as int) =~= t@);
    }
    Some(value)
}

/// A text with a character that is no digit stands for no number.
proof fn lemma_bad_digit(t: Seq<char>, i: int)
    requires
        0 <= i < t.len(),
        digit_value(t[i]).is_none(),
    ensures
        decimal_value(t).is_none(),
    decreases t.len(),
{
    if i == t.len() - 1 {
    } else {
        lemma_bad_digit(t.drop_last(), i);
    }
}

/// A text stands for at least as much as each of its beginnings.
proof fn lemma_value_grows(t: Seq<char>, k: int)
    requires
        1 <= k <= t.len(),
        decimal_value(t.take(k)).is_some(),
    ensures
        decimal_value(t) matches Some(v) ==> v >= decimal_value(t.take(k)).unwrap(),
    decreases t.len(),
{
    if k == t.len() {
        assert(t.take(k) =~= t);
    } else {
        assert(t.drop_last().take(k) =~= t.take(k));
        lemma_value_grows(t.drop_last(), k);
    }
}

/// Whether `c` is white space: one of the twenty-five characters to which
/// Unicode gives the property White_Space.
pub open spec fn is_white_space(c: char) -> bool {
    let n = c as u32;
    ||| 0x09 <= n <= 0x0d
    ||| n == 0x20
    ||| n == 0x85
    ||| n == 0xa0
    ||| n == 0x1680
    ||| 0x2000 <= n <= 0x200a
    ||| n == 0x2028
    ||| n == 0x2029
    ||| n == 0x202f
    ||| n == 0x205f
    ||| n == 0x3000
}

/// Whether `c` is white space.
pub fn white_space(c: char) -> (r: bool)
    ensures
        r == is_white_space(c),
{
    let n: u32 = c as u32;
    (0x09 <= n && n <= 0x0d) || n == 0x20 || n == 0x85 || n == 0xa0 || n == 0x1680 || (0x2000 <= n
        && n <= 0x200a) || n == 0x2028 || n == 0x2029 || n == 0x202f || n == 0x205f || n == 0x3000
}

/// A text without the white space that it begins with.
pub open spec fn trim_start(t: Seq<char>) -> Seq<char>
    decreases t.len(),
{
    if t.len() > 0 && is_white_space(t[0]) {
        trim_start(t.subrange(1, t.len() as int))
    } else {
        t
    }
}

/// A text without the white space that it ends with.
pub open spec fn trim_end(t: Seq<char>) -> Seq<char>
    decreases t.len(),
{
    if t.len() > 0 && is_white_space(t.last()) {
        trim_end(t.drop_last())
    } else {
        t
    }
}

/// A text without the white space at its two ends.
pub open spec fn trimmed(t: Seq<char>) -> Seq<char> {
    trim_end(trim_start(t))
}

/// Whether a text holds nothing but white space.
pub open spec fn is_blank(t: Seq<char>) -> bool {
    forall|i: int| 0 <= i < t.len() ==> is_white_space(#[trigger] t[i])
}

/// What is left of a text without its leading white space is a piece of the
/// text that does not begin with white space, and nothing is left of a blank
/// text only.
pub proof fn lemma_trim_start(t: Seq<char>)
    ensures
        trim_start(t).len() <= t.len(),
        trim_start(t) == t.subrange(t.len() - trim_start(t).len(), t.len() as int),
        trim_start(t).len() == 0 <==> is_blank(t),
        trim_start(t).len() > 0 ==> !is_white_space(trim_start(t)[0]),
    decreases t.len(),
{
    if t.len() > 0 && is_white_space(t[0]) {
        let rest = t.subrange(1, t.len() as int);
        lemma_trim_start(rest);
        let left = trim_start(rest);
        assert(left =~= t.subrange(t.len() - left.len(), t.len() as int));
        if is_blank(rest) {
            assert forall|i: int| 0 <= i < t.len() implies is_white_space(#[trigger] t[i]) by {
                if i > 0 {
                    assert(rest[i - 1] == t[i]);
                }
            }
        }
        if is_blank(t) {
            assert forall|i: int| 0 <= i < rest.len() implies is_white_space(
                #[trigger] rest[i],
            ) by {
                assert(rest[i] == t[i + 1]);
            }
        }
    } else {
        assert(t =~= t.subrange(0, t.len() as int));
        if t.len() > 0 {
            assert(!is_white_space(t[0]));
        }
    }
}

/// What is left of a text without its trailing white space is a piece of the
/// text that does not end with white space, and nothing is left of a blank
/// text only.
pub proof fn lemma_trim_end(t: Seq<char>)
    ensures
        trim_end(t).len() <= t.len(),
        trim_end(t) == t.subrange(0, trim_end(t).len() as int),
        trim_end(t).len() == 0 <==> is_blank(t),
        trim_end(t).len() > 0 ==> !is_white_space(trim_end(t).last()),
    decreases t.len(),
{
    if t.len() > 0 && is_white_space(t.last()) {
        let rest = t.drop_last();
        lemma_trim_end(rest);
        let left = trim_end(rest);
        assert(left =~= t.subrange(0, left.len() as int));
        if is_blank(rest) {
            assert forall|i: int| 0 <= i < t.len() implies is_white_space(#[trigger] t[i]) by {
                if i < t.len() - 1 {
                    assert(rest[i] == t[i]);
                }
            }
        }
        if is_blank(t) {
            assert forall|i: int| 0 <= i < rest.len() implies is_white_space(
                #[trigger] rest[i],
            ) by {
                assert(rest[i] == t[i]);
            }
        }
    } else {
        assert(t =~= t.subrange(0, t.len() as int));
        if t.len() > 0 {
            assert(!is_white_space(t[t.len() - 1]));
        }
    }
}

/// A trimmed text is a piece of the text that neither begins nor ends with
/// white space, and it is empty for a blank text only.
pub proof fn lemma_trimmed(t: Seq<char>)
    ensures
        trimmed(t).len() <= t.len(),
        trimmed(t).len() == 0 <==> is_blank(t),
        trimmed(t).len() > 0 ==> !is_white_space(trimmed(t)[0]) && !is_white_space(
            trimmed(t).last(),
        ),
        exists|from: int|
            0 <= from && from + trimmed(t).len() <= t.len() && trimmed(t) == #[trigger] t.subrange(
                from,
                from + trimmed(t).len(),
            ),
{
    let s = trim_start(t);
    lemma_trim_start(t);
    lemma_trim_end(s);
    let from = t.len() - s.len();
    assert(trimmed(t) =~= t.subrange(from, from + trimmed(t).len()));
    if s.len() > 0 {
        assert(!is_blank(s));
        assert(trimmed(t)[0] == s[0]);
    }
}

/// `str::trim` of the standard library: the text without the white space at
/// its two ends, where white space is what Unicode gives the property
/// White_Space.
#[verifier::external_body]
fn trim_text(t: &str) -> (r: &str)
    ensures
        r@ == trimmed(t@),
{
    t.trim()
}

/// Whether a text holds nothing but white space.
pub fn blank(t: &str) -> (r: bool)
    ensures
        r == is_blank(t@),
{
    proof {
        lemma_trimmed(t@);
    }
    trim_text(t).unicode_len() == 0
}

/// A text in upper case, as `str::to_uppercase` of the standard library
/// writes it.
pub uninterp spec fn uppercased(t: Seq<char>) -> Seq<char>;

/// `str::to_uppercase` of the standard library: the text in upper case.
/// The mapping is Unicode's, so the result goes by the name `uppercased`.
#[verifier::external_body]
pub(crate) fn to_upper(t: &str) -> (r: String)
    ensures
        r@ == uppercased(t@),
{
    t.to_uppercase()
}

/// What follows `prefix` in `text`, if `text` begins with it.
pub open spec fn after_prefix(text: Seq<char>, prefix: Seq<char>) -> Option<Seq<char>> {
    if prefix.len() <= text.len() && text.take(prefix.len() as int) == prefix {
        Some(text.skip(prefix.len() as int))
    } else {
        None
    }
}

/// What follows `prefix` in `text`, if `text` begins with it.
pub fn strip_prefix<'a>(text: &'a str, prefix: &str) -> (r: Option<&'a str>)
    ensures
        match r {
            Some(rest) => after_prefix(text@, prefix@) == Some(rest@),
            None => after_prefix(text@, prefix@) is None,
        },
{
    let n = text.unicode_len();
    let k = prefix.unicode_len();
    if k > n {
        return None;
    }
    let head = text.substring_char(0, k);
    assert(head@ =~= text@.take(k as int));
    if text_eq(head, prefix) {
        let rest = text.substring_char(k, n);
        assert(rest@ =~= text@.skip(k as int));
        Some(rest)
    } else {
        None
    }
}

/// The number that a text stands for as the standard library reads an
/// unsigned number: decimal digits, before which a plus sign may stand.
pub open spec fn unsigned_value(t: Seq<char>) -> Option<nat> {
    if t.len() > 0 && t[0] == '+' {
        decimal_value(t.skip(1))
    } else {
        decimal_value(t)
    }
}

/// The number that a text stands for as the standard library reads a signed
/// number: decimal digits, before which a plus or a minus sign may stand.
pub open spec fn signed_value(t: Seq<char>) -> Option<int> {
    if t.len() > 0 && t[0] == '-' {
        match decimal_value(t.skip(1)) {
            Some(v) => Some(-(v as int)),
            None => None,
        }
    } else {
        match unsigned_value(t) {
            Some(v) => Some(v as int),
            None => None,
        }
    }
}

/// Reads a number of at most 255.
pub fn parse_u8(t: &str) -> (r: Option<u8>)
    ensures
        r == match unsigned_value(t@) {
            Some(v) => if v <= 255 {
                Some(v as u8)
            } else {
                None
            },
            None => None,
        },
{
    let n = t.unicode_len();
    let digits = if n > 0 && t.get_char(0) == '+' {
        let rest = t.substring_char(1, n);
        assert(rest@ =~= t@.skip(1));
        rest
    } else {
        t
    };
    match parse_decimal(digits, 255) {
        Some(v) => Some(v as u8),
        None => None,
    }
}

/// Reads a whole number that 32 bits can hold.
pub fn parse_i32(t: &str) -> (r: Option<i32>)
    ensures
        r == match signed_value(t@) {
            Some(v) => if i32::MIN <= v <= i32::MAX {
                Some(v as i32)
            } else {
                None
            },
            None => None,
        },
{
    let n = t.unicode_len();
    if n > 0 && t.get_char(0) == '-' {
        let rest = t.substring_char(1, n);
        assert(rest@ =~= t@.skip(1));
        match parse_decimal(rest, 2147483648) {
            Some(v) => Some((-(v as i64)) as i32),
            None => None,
        }
    } else {
        let digits = if n > 0 && t.get_char(0) == '+' {
            let rest = t.substring_char(1, n);
            assert(rest@ =~= t@.skip(1));
            rest
        } else {
            t
        };
        match parse_decimal(digits, 2147483647) {
            Some(v) => Some(v as i32),
            None => None,
        }
    }
}

} // verus!
