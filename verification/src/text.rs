//! Numbers and bytes as text.
use vstd::prelude::*;
use vstd::string::*;

verus! {

/// `String::push`: appends one character.
pub assume_specification[ String::push ](s: &mut String, ch: char)
    ensures
        final(s)@ == old(s)@.push(ch),
;

/// The decimal digit for `d`.
pub open spec fn decimal_digit(d: nat) -> char {
    (48 + d) as char
}

/// `n` in decimal, without leading zeros.
pub open spec fn decimal(n: nat) -> Seq<char>
    decreases n,
{
    if n < 10 {
        seq![decimal_digit(n)]
    } else {
        decimal(n / 10).push(decimal_digit(n % 10))
    }
}

/// Appends `n` in decimal.
pub fn push_decimal(out: &mut String, n: u64)
    ensures
        final(out)@ == old(out)@ + decimal(n as nat),
    decreases n,
{
    if n >= 10 {
        push_decimal(out, n / 10);
    }
    let digit: u8 = 48 + (n % 10) as u8;
    out.push(digit as char);
}

/// The lower-case hexadecimal digit for `d`.
pub open spec fn hex_digit(d: nat) -> char {
    if d < 10 {
        (48 + d) as char
    } else {
        (87 + d) as char
    }
}

/// A byte as two lower-case hexadecimal digits.
pub open spec fn hex_byte(b: u8) -> Seq<char> {
    seq![hex_digit(b as nat / 16), hex_digit(b as nat % 16)]
}

fn push_hex_digit(out: &mut String, d: u8)
    requires
        d < 16,
    ensures
        final(out)@ == old(out)@.push(hex_digit(d as nat)),
{
    let code: u8 = if d < 10 {
        48 + d
    } else {
        87 + d
    };
    out.push(code as char);
}

/// Appends `b` as two lower-case hexadecimal digits.
pub fn push_hex(out: &mut String, b: u8)
    ensures
        final(out)@ == old(out)@ + hex_byte(b),
{
    push_hex_digit(out, b / 16);
    push_hex_digit(out, b % 16);
}

/// Bytes as pairs of hexadecimal digits with a space between neighbours.
pub open spec fn hex_dump_text(s: Seq<u8>) -> Seq<char>
    decreases s.len(),
{
    if s.len() == 0 {
        Seq::empty()
    } else if s.len() == 1 {
        hex_byte(s[0])
    } else {
        hex_dump_text(s.drop_last()).push(' ') + hex_byte(s.last())
    }
}

/// Dumps a byte buffer in hexadecimal.
pub fn hex_dump(buf: &[u8]) -> (r: String)
    ensures
        r@ == hex_dump_text(buf@),
{
    let mut out = String::new();
    let mut i: usize = 0;
    while i < buf.len()
        invariant
            i <= buf@.len(),
            out@ == hex_dump_text(buf@.take(i as int)),
        decreases buf@.len() - i,
    {
        if i > 0 {
            out.push(' ');
        }
        push_hex(&mut out, buf[i]);
        assert(buf@.take(i + 1).drop_last() == buf@.take(i as int));
        i += 1;
    }
    assert(buf@.take(i as int) == buf@);
    out
}

/// A byte as it shows in an escaped string: itself when it is a graphic ASCII
/// character or a space, else a backslash escape.
pub open spec fn escape_byte(b: u8) -> Seq<char> {
    if 0x20 <= b <= 0x7e {
        seq![b as char]
    } else if b == 0x00 {
        seq!['\\', '0']
    } else if b == 0x09 {
        seq!['\\', 't']
    } else if b == 0x0a {
        seq!['\\', 'n']
    } else if b == 0x0d {
        seq!['\\', 'r']
    } else {
        seq!['\\', 'x'] + hex_byte(b)
    }
}

/// The escapes of the bytes, one after the other.
pub open spec fn escape_text(s: Seq<u8>) -> Seq<char>
    decreases s.len(),
{
    if s.len() == 0 {
        Seq::empty()
    } else {
        escape_text(s.drop_last()) + escape_byte(s.last())
    }
}

fn push_escaped(out: &mut String, b: u8)
    ensures
        final(out)@ == old(out)@ + escape_byte(b),
{
    if 0x20 <= b && b <= 0x7e {
        out.push(b as char);
    } else {
        out.push('\\');
        if b == 0x00 {
            out.push('0');
        } else if b == 0x09 {
            out.push('t');
        } else if b == 0x0a {
            out.push('n');
        } else if b == 0x0d {
            out.push('r');
        } else {
            out.push('x');
            push_hex(out, b);
        }
    }
}

/// Shows a byte buffer as text, with everything unprintable escaped.
pub fn escape_string(buf: &[u8]) -> (r: String)
    ensures
        r@ == escape_text(buf@),
{
    let mut out = String::new();
    let mut i: usize = 0;
    while i < buf.len()
        invariant
            i <= buf@.len(),
            out@ == escape_text(buf@.take(i as int)),
        decreases buf@.len() - i,
    {
        push_escaped(&mut out, buf[i]);
        assert(buf@.take(i + 1).drop_last() == buf@.take(i as int));
        i += 1;
    }
    assert(buf@.take(i as int) == buf@);
    out
}

/// A dump has two digits for each byte and a space between neighbours.
pub proof fn law_hex_dump_length(s: Seq<u8>)
    ensures
        hex_dump_text(s).len() == if s.len() == 0 {
            0
        } else {
            3 * s.len() - 1
        },
    decreases s.len(),
{
    if s.len() > 1 {
        law_hex_dump_length(s.drop_last());
    }
}

/// Two buffers with the same dump are the same.
pub proof fn law_hex_dump_tells_buffers_apart(a: Seq<u8>, b: Seq<u8>)
    requires
        hex_dump_text(a) == hex_dump_text(b),
    ensures
        a == b,
    decreases a.len(),
{
    law_hex_dump_length(a);
    law_hex_dump_length(b);
    if a.len() > 0 {
        let t = hex_dump_text(a);
        let n = t.len() as int;
        assert(t.skip(n - 2) == hex_byte(a.last()));
        assert(t.skip(n - 2) == hex_byte(b.last()));
        assert(hex_byte(a.last())[0] == hex_byte(b.last())[0]);
        assert(hex_byte(a.last())[1] == hex_byte(b.last())[1]);
        assert(a.last() == b.last());
        if a.len() > 1 {
            assert(t.take(n - 3) == hex_dump_text(a.drop_last()));
            assert(t.take(n - 3) == hex_dump_text(b.drop_last()));
            law_hex_dump_tells_buffers_apart(a.drop_last(), b.drop_last());
            assert(a == a.drop_last().push(a.last()));
            assert(b == b.drop_last().push(b.last()));
        }
    }
}

/// An escaped string holds nothing but printable ASCII characters.
pub proof fn law_escaped_text_is_printable(s: Seq<u8>)
    ensures
        forall|i: int| 0 <= i < escape_text(s).len() ==> ' ' <= #[trigger] escape_text(s)[i] <= '~',
    decreases s.len(),
{
    if s.len() > 0 {
        law_escaped_text_is_printable(s.drop_last());
        let front = escape_text(s.drop_last());
        let back = escape_byte(s.last());
        assert(forall|j: int| 0 <= j < back.len() ==> ' ' <= #[trigger] back[j] <= '~');
        assert forall|i: int| 0 <= i < escape_text(s).len() implies ' ' <= #[trigger] escape_text(
            s,
        )[i] <= '~' by {
            if i < front.len() {
                assert(escape_text(s)[i] == front[i]);
            } else {
                assert(escape_text(s)[i] == back[i - front.len()]);
            }
        }
    }
}

/// A buffer of printable ASCII characters is shown as it stands.
pub proof fn law_printable_text_is_not_escaped(s: Seq<u8>)
    requires
        forall|i: int| 0 <= i < s.len() ==> 0x20 <= #[trigger] s[i] <= 0x7e,
    ensures
        escape_text(s) == s.map_values(|b: u8| b as char),
    decreases s.len(),
{
    if s.len() > 0 {
        law_printable_text_is_not_escaped(s.drop_last());
        assert(0x20 <= s[s.len() - 1] <= 0x7e);
    }
}

/// The digits, in order.
pub proof fn law_digits_are_in_order(d: nat)
    ensures
        d < 10 ==> decimal_digit(d) == "0123456789"@[d as int],
        d < 16 ==> hex_digit(d) == "0123456789abcdef"@[d as int],
{
    reveal_strlit("0123456789");
    reveal_strlit("0123456789abcdef");
}

/// One more digit behind a number makes ten times the number and the digit, and a
/// number of one digit is that digit.
pub proof fn law_decimal_digit_by_digit(n: nat, d: nat)
    requires
        d < 10,
    ensures
        decimal(d) == seq!["0123456789"@[d as int]],
        n > 0 ==> decimal(10 * n + d) == decimal(n) + seq!["0123456789"@[d as int]],
{
    law_digits_are_in_order(d);
    assert((10 * n + d) / 10 == n);
    assert((10 * n + d) % 10 == d);
}

/// The number that decimal digits denote.
pub open spec fn decimal_value(t: Seq<char>) -> int
    decreases t.len(),
{
    if t.len() == 0 {
        0
    } else {
        10 * decimal_value(t.drop_last()) + (t.last() as u32 - '0' as u32)
    }
}

/// A number is read back from its decimal text, which holds digits alone and opens with
/// a zero only for zero itself.
pub proof fn law_decimal_is_read_back(n: nat)
    ensures
        decimal_value(decimal(n)) == n,
        decimal(n).len() > 0,
        n > 0 ==> decimal(n)[0] != '0',
        forall|i: int| 0 <= i < decimal(n).len() ==> '0' <= #[trigger] decimal(n)[i] <= '9',
    decreases n,
{
    reveal_with_fuel(decimal_value, 2);
    if n < 10 {
        assert(decimal(n).drop_last() =~= Seq::empty());
    } else {
        law_decimal_is_read_back(n / 10);
        assert(decimal(n).drop_last() =~= decimal(n / 10));
        assert(decimal(n)[0] == decimal(n / 10)[0]);
        assert forall|i: int| 0 <= i < decimal(n).len() implies '0' <= #[trigger] decimal(n)[i]
            <= '9' by {
            if i < decimal(n / 10).len() {
                assert(decimal(n)[i] == decimal(n / 10)[i]);
            }
        }
    }
}

/// A byte shows its upper four bits first, then its lower four.
pub proof fn law_hex_byte_is_two_digits(high: nat, low: nat)
    requires
        high < 16,
        low < 16,
    ensures
        hex_byte((16 * high + low) as u8) == seq![
            "0123456789abcdef"@[high as int],
            "0123456789abcdef"@[low as int],
        ],
{
    law_digits_are_in_order(high);
    law_digits_are_in_order(low);
    assert((16 * high + low) / 16 == high);
    assert((16 * high + low) % 16 == low);
}

/// Each byte stands in a dump at three times its index: its two digits, and a space
/// where another byte follows.
pub proof fn law_hex_dump_byte_by_byte(s: Seq<u8>, i: int)
    requires
        0 <= i < s.len(),
    ensures
        hex_dump_text(s).subrange(3 * i, 3 * i + 2) == hex_byte(s[i]),
        i + 1 < s.len() ==> hex_dump_text(s)[3 * i + 2] == ' ',
    decreases s.len(),
{
    law_hex_dump_length(s);
    if s.len() > 1 {
        let front = s.drop_last();
        law_hex_dump_length(front);
        if i < front.len() {
            law_hex_dump_byte_by_byte(front, i);
            assert(hex_dump_text(s).subrange(3 * i, 3 * i + 2) =~= hex_dump_text(front).subrange(
                3 * i,
                3 * i + 2,
            ));
        } else {
            assert(hex_dump_text(s).subrange(3 * i, 3 * i + 2) =~= hex_byte(s[i]));
        }
    } else {
        assert(hex_dump_text(s).subrange(3 * i, 3 * i + 2) =~= hex_byte(s[i]));
    }
}

/// What follows a buffer is escaped behind it, as it would be alone.
pub proof fn law_escapes_follow_one_another(a: Seq<u8>, b: Seq<u8>)
    ensures
        escape_text(a + b) == escape_text(a) + escape_text(b),
    decreases b.len(),
{
    if b.len() == 0 {
        assert(a + b =~= a);
    } else {
        law_escapes_follow_one_another(a, b.drop_last());
        assert((a + b).drop_last() =~= a + b.drop_last());
        assert((a + b).last() == b.last());
        assert(escape_text(a + b) =~= escape_text(a) + escape_text(b));
    }
}

/// A byte from 0x20 to 0x7e shows as its character; zero, tab, line feed and carriage
/// return have escapes of their own, and every other byte shows as its two digits.
pub proof fn law_escape_of_a_byte(b: u8)
    ensures
        escape_text(Seq::empty()) == Seq::<char>::empty(),
        0x20 <= b <= 0x7e ==> escape_text(seq![b]) == seq![b as char],
        b == 0x00 ==> escape_text(seq![b]) == seq!['\\', '0'],
        b == 0x09 ==> escape_text(seq![b]) == seq!['\\', 't'],
        b == 0x0a ==> escape_text(seq![b]) == seq!['\\', 'n'],
        b == 0x0d ==> escape_text(seq![b]) == seq!['\\', 'r'],
        b > 0x7e || b < 0x20 && b != 0x00 && b != 0x09 && b != 0x0a && b != 0x0d ==> escape_text(
            seq![b],
        ) == seq!['\\', 'x'] + hex_byte(b),
{
    reveal_with_fuel(escape_text, 2);
    assert(seq![b].drop_last() =~= Seq::empty());
    assert(seq![b].last() == b);
    assert(escape_text(seq![b]) =~= escape_byte(b));
}

} // verus!
