//! The textual notation: the canonical form that an address is written in,
//! and the more permissive grammar that is read.

use vstd::prelude::*;
use vstd::string::StringExecFns;
use crate::address::MacAddress;
use crate::error::ParseError;
use crate::hex::{
    ascii_upper, hex_digit, hex_value, lemma_hex_value_ignores_case, lemma_upper_digit_value,
    upper_digit,
};

verus! {

/// The character at index `j` of the canonical form: every third character is
/// a colon, and the two before it are the high and the low digit of one octet.
pub open spec fn canonical_char(octets: Seq<u8>, j: int) -> char {
    if j % 3 == 2 {
        ':'
    } else if j % 3 == 0 {
        upper_digit(octets[j / 3] as int / 16)
    } else {
        upper_digit(octets[j / 3] as int % 16)
    }
}

/// The canonical form of six octets: six groups of two uppercase hexadecimal
/// digits with a colon between neighbouring groups, 17 characters in all.
pub open spec fn canonical_text(octets: Seq<u8>) -> Seq<char> {
    Seq::new(17, |j: int| canonical_char(octets, j))
}

/// The two characters that may stand before a group of digits.
pub open spec fn is_separator(c: char) -> bool {
    c == ' ' || c == ':'
}

/// Where the digits of the group read at `pos` begin: behind one separator,
/// if one stands at `pos`.
pub open spec fn group_start(s: Seq<char>, pos: int) -> int {
    if 0 <= pos < s.len() && is_separator(s[pos]) {
        pos + 1
    } else {
        pos
    }
}

/// Where reading goes on after the group read at `pos`.
pub open spec fn group_end(s: Seq<char>, pos: int) -> int {
    group_start(s, pos) + 2
}

/// Whether a group can be read at `pos`: two hexadecimal digits are there,
/// behind at most one separator.
pub open spec fn group_ok(s: Seq<char>, pos: int) -> bool {
    let d = group_start(s, pos);
    &&& 0 <= d
    &&& d + 2 <= s.len()
    &&& hex_value(s[d]) is Some
    &&& hex_value(s[d + 1]) is Some
}

/// The octet that the group read at `pos` stands for: sixteen times the first
/// digit plus the second.
pub open spec fn group_value(s: Seq<char>, pos: int) -> u8 {
    let d = group_start(s, pos);
    (hex_value(s[d]).unwrap() as int * 16 + hex_value(s[d + 1]).unwrap() as int) as u8
}

/// Where the group with index `k` is read, the groups before it having been
/// read from the start of the text one after the other.
pub open spec fn cursor(s: Seq<char>, k: nat) -> int
    decreases k,
{
    if k == 0 {
        0
    } else {
        group_end(s, cursor(s, (k - 1) as nat))
    }
}

/// What a text is read as: the six octets of its first six groups, if it holds
/// at least 12 characters and all six groups can be read. What follows the
/// sixth group is not looked at.
pub open spec fn parsed_octets(s: Seq<char>) -> Option<Seq<u8>> {
    if s.len() >= 12 && (forall|k: int| 0 <= k < 6 ==> group_ok(s, #[trigger] cursor(s, k as nat))) {
        Some(Seq::new(6, |k: int| group_value(s, cursor(s, k as nat))))
    } else {
        None
    }
}

/// A text in which one of the six groups cannot be read is not read at all.
pub proof fn lemma_group_fails(s: Seq<char>, k: int)
    requires
        0 <= k < 6,
        !group_ok(s, cursor(s, k as nat)),
    ensures
        parsed_octets(s) is None,
{
}

/// Only one separator is skipped before a group, and none between its two
/// digits: a text with a space or colon where a digit of one of its six
/// groups is due is not read.
pub proof fn lemma_separator_for_digit_fails(s: Seq<char>, k: int)
    requires
        0 <= k < 6,
        ({
            let d = group_start(s, cursor(s, k as nat));
            d + 2 <= s.len() && (is_separator(s[d]) || is_separator(s[d + 1]))
        }),
    ensures
        parsed_octets(s) is None,
{
    lemma_group_fails(s, k);
}

/// A text shorter than 12 characters is not read.
pub proof fn lemma_short_text_fails(s: Seq<char>)
    requires
        s.len() < 12,
    ensures
        parsed_octets(s) is None,
{
}

/// A group that can be read takes two or three characters, so where the first
/// `k` groups can be read they end within the text, between `2 * k` and
/// `3 * k` characters from its start.
pub proof fn lemma_cursor_bounds(s: Seq<char>, k: nat)
    requires
        k <= 6,
        forall|j: int| 0 <= j < k ==> group_ok(s, #[trigger] cursor(s, j as nat)),
    ensures
        2 * k <= cursor(s, k) <= 3 * k,
        cursor(s, k) <= s.len(),
    decreases k,
{
    if k > 0 {
        let before = (k - 1) as nat;
        lemma_cursor_bounds(s, before);
        assert(group_ok(s, cursor(s, before as int as nat)));
    }
}

/// A text of which all six groups can be read holds at least 12 characters:
/// the bound on the length rules out nothing that the groups would admit.
pub proof fn lemma_six_groups_take_twelve(s: Seq<char>)
    requires
        forall|k: int| 0 <= k < 6 ==> group_ok(s, #[trigger] cursor(s, k as nat)),
    ensures
        s.len() >= 12,
        parsed_octets(s) is Some,
{
    lemma_cursor_bounds(s, 6);
}

/// The text with each lowercase ASCII letter replaced by its uppercase form.
pub open spec fn ascii_upper_text(s: Seq<char>) -> Seq<char> {
    Seq::new(s.len(), |i: int| ascii_upper(s[i]))
}

/// The groups of a text are read at the same places whatever the case of its
/// letters, and each stands for the same octet, if for any.
proof fn lemma_groups_ignore_case(s: Seq<char>, k: nat)
    ensures
        cursor(ascii_upper_text(s), k) == cursor(s, k),
        group_ok(ascii_upper_text(s), cursor(s, k)) == group_ok(s, cursor(s, k)),
        group_ok(s, cursor(s, k)) ==> group_value(ascii_upper_text(s), cursor(s, k)) == group_value(
            s,
            cursor(s, k),
        ),
    decreases k,
{
    let u = ascii_upper_text(s);
    if k > 0 {
        lemma_groups_ignore_case(s, (k - 1) as nat);
    }
    let d = group_start(s, cursor(s, k));
    assert(group_start(u, cursor(s, k)) == d);
    if 0 <= d && d + 2 <= s.len() {
        lemma_hex_value_ignores_case(s[d]);
        lemma_hex_value_ignores_case(s[d + 1]);
    }
}

/// A text is read as its uppercase form is.
pub proof fn lemma_parse_ignores_case(s: Seq<char>)
    ensures
        parsed_octets(ascii_upper_text(s)) == parsed_octets(s),
{
    let u = ascii_upper_text(s);
    lemma_groups_ignore_case(s, 0);
    lemma_groups_ignore_case(s, 1);
    lemma_groups_ignore_case(s, 2);
    lemma_groups_ignore_case(s, 3);
    lemma_groups_ignore_case(s, 4);
    lemma_groups_ignore_case(s, 5);
    if parsed_octets(s) is Some {
        assert forall|k: int| 0 <= k < 6 implies group_ok(u, #[trigger] cursor(u, k as nat)) by {
            assert(group_ok(s, cursor(s, k as nat)));
        }
        assert(parsed_octets(u).unwrap() =~= parsed_octets(s).unwrap());
    } else if s.len() >= 12 {
        let k = choose|k: int| 0 <= k < 6 && !group_ok(s, #[trigger] cursor(s, k as nat));
        lemma_group_fails(u, k);
    }
}

/// Two texts that differ only in the case of their letters are read alike.
pub proof fn lemma_case_insensitive(s: Seq<char>, t: Seq<char>)
    requires
        ascii_upper_text(s) == ascii_upper_text(t),
    ensures
        parsed_octets(s) == parsed_octets(t),
{
    lemma_parse_ignores_case(s);
    lemma_parse_ignores_case(t);
}

/// Where the groups of a canonical form are read: the first at index 0, each
/// later one at the colon before its digits.
proof fn lemma_canonical_cursor(octets: Seq<u8>, k: nat)
    requires
        octets.len() == 6,
        k <= 6,
    ensures
        cursor(canonical_text(octets), k) == (if k == 0 { 0 } else { 3 * k - 1 }),
    decreases k,
{
    if k > 0 {
        let before = (k - 1) as nat;
        lemma_canonical_cursor(octets, before);
        lemma_upper_digit_value(octets[0] as int / 16);
    }
}

/// Reading the canonical form of six octets gives these six octets back.
pub proof fn lemma_text_round_trip(octets: Seq<u8>)
    requires
        octets.len() == 6,
    ensures
        parsed_octets(canonical_text(octets)) == Some(octets),
{
    let t = canonical_text(octets);
    assert forall|k: int| 0 <= k < 6 implies group_ok(t, #[trigger] cursor(t, k as nat))
        && group_value(t, cursor(t, k as nat)) == octets[k] by {
        lemma_canonical_cursor(octets, k as nat);
        lemma_upper_digit_value(octets[k] as int / 16);
        lemma_upper_digit_value(octets[k] as int % 16);
    }
    assert(parsed_octets(t).unwrap() =~= octets);
}

/// Whatever is read has six octets.
pub proof fn lemma_parsed_length(s: Seq<char>)
    requires
        parsed_octets(s) is Some,
    ensures
        parsed_octets(s).unwrap().len() == 6,
{
}

fn is_separator_char(c: char) -> (r: bool)
    ensures
        r == is_separator(c),
{
    c == ' ' || c == ':'
}

/// The one-character text that holds the uppercase digit of `n`.
fn upper_digit_str(n: u8) -> (r: &'static str)
    requires
        n < 16,
    ensures
        r@ == seq![upper_digit(n as int)],
{
    let table: &'static str = "0123456789ABCDEF";
    proof {
        reveal_strlit("0123456789ABCDEF");
    }
    let from: usize = n as usize;
    let digit = table.substring_char(from, from + 1);
    assert(digit@ =~= seq![upper_digit(n as int)]);
    digit
}

/// Appends the two uppercase digits of `b` to `out`.
fn append_octet(out: &mut String, b: u8)
    ensures
        final(out)@ == old(out)@ + seq![upper_digit(b as int / 16), upper_digit(b as int % 16)],
{
    out.append(upper_digit_str(b / 16));
    out.append(upper_digit_str(b % 16));
    assert(out@ =~= old(out)@ + seq![upper_digit(b as int / 16), upper_digit(b as int % 16)]);
}

impl MacAddress {
    /// Writes the address in its canonical form, as in `00:01:14:1E:28:32`.
    pub fn to_string(&self) -> (r: String)
        ensures
            r@ == canonical_text(self@),
    {
        let mut out = String::new();
        let mut i: usize = 0;
        while i < 6
            invariant
                i <= 6,
                out@.len() == (if i == 0 { 0 } else { 3 * i as int - 1 }),
                forall|j: int| 0 <= j < out@.len() ==> out@[j] == canonical_char(self@, j),
            decreases 6 - i,
        {
            if i > 0 {
                proof {
                    reveal_strlit(":");
                }
                out.append(":");
            }
            append_octet(&mut out, self.bytes[i]);
            i += 1;
        }
        assert(out@ =~= canonical_text(self@));
        out
    }
}

impl std::str::FromStr for MacAddress {
    type Err = ParseError;

    /// Reads an address from text. Each of the six octets is written as two
    /// hexadecimal digits in either case, and one space or colon may stand
    /// before each such pair. Anything after the sixth pair is ignored.
    fn from_str(s: &str) -> (r: Result<MacAddress, ParseError>)
        ensures
            match r {
                Ok(m) => parsed_octets(s@) == Some(m@),
                Err(_) => parsed_octets(s@) is None,
            },
            r matches Ok(m) ==> m@.len() == 6,
    {
        let n: usize = s.unicode_len();
        if n < 12 {
            return Err(ParseError);
        }
        let mut bytes: [u8; 6] = [0u8; 6];
        let mut pos: usize = 0;
        let mut i: usize = 0;
        while i < 6
            invariant
                n == s@.len(),
                i <= 6,
                pos <= n,
                pos as int == cursor(s@, i as nat),
                forall|k: int| 0 <= k < i ==> group_ok(s@, #[trigger] cursor(s@, k as nat)),
                forall|k: int| 0 <= k < i ==> bytes@[k] == group_value(s@, #[trigger] cursor(s@, k as nat)),
            decreases 6 - i,
        {
            if n - pos < 2 {
                proof {
                    lemma_group_fails(s@, i as int);
                }
                return Err(ParseError);
            }
            let mut left: char = s.get_char(pos);
            let mut right: char = s.get_char(pos + 1);
            let mut next: usize = pos + 2;
            if is_separator_char(left) {
                if n - pos < 3 {
                    proof {
                        lemma_group_fails(s@, i as int);
                    }
                    return Err(ParseError);
                }
                left = right;
                right = s.get_char(pos + 2);
                next = pos + 3;
            }
            let high: u8 = match hex_digit(left) {
                Some(v) => v,
                None => {
                    proof {
                        lemma_group_fails(s@, i as int);
                    }
                    return Err(ParseError);
                },
            };
            let low: u8 = match hex_digit(right) {
                Some(v) => v,
                None => {
                    proof {
                        lemma_group_fails(s@, i as int);
                    }
                    return Err(ParseError);
                },
            };
            bytes[i] = high * 16 + low;
            assert(group_ok(s@, cursor(s@, i as nat)));
            assert(cursor(s@, (i + 1) as nat) == next as int);
            pos = next;
            i += 1;
        }
        let m = MacAddress { bytes };
        assert(m@ =~= parsed_octets(s@).unwrap());
        Ok(m)
    }
}

} // verus!
