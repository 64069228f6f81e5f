//! Text: trimming, decimal numbers and hexadecimal digits.

use vstd::prelude::*;
use vstd::string::*;

verus! {

/// A character with the Unicode `White_Space` property.
pub open spec fn is_space(c: char) -> bool {
    let n = c as u32;
    ||| 0x9 <= n <= 0xD
    ||| n == 0x20
    ||| n == 0x85
    ||| n == 0xA0
    ||| n == 0x1680
    ||| 0x2000 <= n <= 0x200A
    ||| n == 0x2028
    ||| n == 0x2029
    ||| n == 0x202F
    ||| n == 0x205F
    ||| n == 0x3000
}

/// Whether a character is white space.
pub fn is_white_space(c: char) -> (r: bool)
    ensures
        r == is_space(c),
{
    let n: u32 = c as u32;
    (0x9 <= n && n <= 0xD) || n == 0x20 || n == 0x85 || n == 0xA0 || n == 0x1680 || (0x2000 <= n
        && n <= 0x200A) || n == 0x2028 || n == 0x2029 || n == 0x202F || n == 0x205F || n == 0x3000
}

/// Whether two texts are equal.
pub fn same_text(a: &str, b: &str) -> (r: bool)
    ensures
        r == (a@ == b@),
{
    let n: usize = a.unicode_len();
    if n != b.unicode_len() {
        return false;
    }
    let mut i: usize = 0;
    while i < n
        invariant
            i <= n,
            n == a@.len(),
            n == b@.len(),
            forall|k: int| 0 <= k < i ==> a@[k] == b@[k],
        decreases n - i,
    {
        if a.get_char(i) != b.get_char(i) {
            return false;
        }
        i = i + 1;
    }
    assert(a@ =~= b@);
    true
}

/// A text without its leading white space.
pub open spec fn trim_front(s: Seq<char>) -> Seq<char>
    decreases s.len(),
{
    if s.len() > 0 && is_space(s[0]) {
        trim_front(s.skip(1))
    } else {
        s
    }
}

/// A text without its trailing white space.
pub open spec fn trim_back(s: Seq<char>) -> Seq<char>
    decreases s.len(),
{
    if s.len() > 0 && is_space(s.last()) {
        trim_back(s.drop_last())
    } else {
        s
    }
}

/// A text without white space at either end.
pub open spec fn trimmed(s: Seq<char>) -> Seq<char> {
    trim_back(trim_front(s))
}

/// A text that has no white space at either end stays as it is.
pub proof fn law_trimmed_fixed(s: Seq<char>)
    requires
        s.len() > 0 ==> !is_space(s[0]) && !is_space(s.last()),
    ensures
        trimmed(s) == s,
{
}

/// A trimmed text has no white space at its end.
pub(crate) proof fn lemma_trim_back_end(s: Seq<char>)
    ensures
        trim_back(s).len() > 0 ==> !is_space(trim_back(s).last()),
    decreases s.len(),
{
    if s.len() > 0 && is_space(s.last()) {
        lemma_trim_back_end(s.drop_last());
    }
}

/// A text without white space at either end.
pub fn trim<'a>(s: &'a str) -> (r: &'a str)
    ensures
        r@ == trimmed(s@),
{
    let n: usize = s.unicode_len();
    let mut a: usize = 0;
    assert(s@.subrange(0, n as int) =~= s@);
    while a < n && is_white_space(s.get_char(a))
        invariant
            a <= n,
            n == s@.len(),
            trim_front(s@) == trim_front(s@.subrange(a as int, n as int)),
        decreases n - a,
    {
        assert(s@.subrange(a as int, n as int).skip(1) =~= s@.subrange(a + 1, n as int));
        a = a + 1;
    }
    let mut b: usize = n;
    assert(trim_front(s@) == s@.subrange(a as int, n as int));
    while b > a && is_white_space(s.get_char(b - 1))
        invariant
            a <= b <= n,
            n == s@.len(),
            trimmed(s@) == trim_back(s@.subrange(a as int, b as int)),
        decreases b,
    {
        assert(s@.subrange(a as int, b as int).drop_last() =~= s@.subrange(a as int, b - 1));
        b = b - 1;
    }
    s.substring_char(a, b)
}

/// The character of a digit.
pub open spec fn digit_char(d: nat) -> char {
    ('0' as u32 + d) as char
}

/// The decimal digits of a number, without leading zeros.
pub open spec fn decimal(n: nat) -> Seq<char>
    decreases n,
{
    if n < 10 {
        seq![digit_char(n)]
    } else {
        decimal(n / 10).push(digit_char(n % 10))
    }
}

/// Appends one digit.
fn push_digit(s: &mut String, d: u64)
    requires
        d < 10,
    ensures
        final(s)@ == old(s)@.push(digit_char(d as nat)),
{
    let t = match d {
        0 => "0",
        1 => "1",
        2 => "2",
        3 => "3",
        4 => "4",
        5 => "5",
        6 => "6",
        7 => "7",
        8 => "8",
        _ => "9",
    };
    proof {
        reveal_strlit("0");
        reveal_strlit("1");
        reveal_strlit("2");
        reveal_strlit("3");
        reveal_strlit("4");
        reveal_strlit("5");
        reveal_strlit("6");
        reveal_strlit("7");
        reveal_strlit("8");
        reveal_strlit("9");
    }
    s.append(t);
    assert(s@ =~= old(s)@.push(digit_char(d as nat)));
}

/// Appends the decimal digits of a number.
pub fn push_decimal(s: &mut String, n: u64)
    ensures
        final(s)@ == old(s)@ + decimal(n as nat),
    decreases n,
{
    if n < 10 {
        push_digit(s, n);
    } else {
        push_decimal(s, n / 10);
        push_digit(s, n % 10);
    }
    assert(s@ =~= old(s)@ + decimal(n as nat));
}

/// The first `k` of some sizes in words, separated by commas.
pub open spec fn list_items(v: Seq<usize>, k: nat) -> Seq<char>
    decreases k,
{
    if k == 0 {
        ""@
    } else if k == 1 {
        decimal(v[0] as nat)
    } else {
        list_items(v, (k - 1) as nat) + ", "@ + decimal(v[k - 1] as nat)
    }
}

/// A list of sizes in words: in brackets, separated by commas.
pub open spec fn list_words(v: Seq<usize>) -> Seq<char> {
    "["@ + list_items(v, v.len()) + "]"@
}

/// Appends a list of sizes.
pub fn push_list(s: &mut String, v: &Vec<usize>)
    ensures
        final(s)@ == old(s)@ + list_words(v@),
{
    let ghost before = s@ + "["@;
    s.append("[");
    proof {
        reveal_strlit("");
        assert(before + list_items(v@, 0) =~= before);
    }
    let mut k: usize = 0;
    while k < v.len()
        invariant
            k <= v@.len(),
            s@ == before + list_items(v@, k as nat),
        decreases v@.len() - k,
    {
        if k > 0 {
            s.append(", ");
        }
        push_decimal(s, v[k] as u64);
        k = k + 1;
        assert(s@ =~= before + list_items(v@, k as nat)) by {
            reveal_strlit("");
        }
    }
    s.append("]");
    assert(s@ =~= old(s)@ + list_words(v@));
}

/// The lower-case hexadecimal digit of a value.
pub open spec fn hex_char(d: nat) -> char {
    if d < 10 {
        ('0' as u32 + d) as char
    } else {
        ('a' as u32 + (d - 10)) as char
    }
}

/// The lower-case hexadecimal form of a byte string: two digits for each byte, the higher first.
pub open spec fn hex_text(bytes: Seq<u8>) -> Seq<char> {
    Seq::new(
        2 * bytes.len(),
        |i: int|
            hex_char(
                if i % 2 == 0 {
                    (bytes[i / 2] / 16) as nat
                } else {
                    (bytes[i / 2] % 16) as nat
                },
            ),
    )
}

/// Appends one hexadecimal digit.
fn push_hex_digit(s: &mut String, d: u8)
    requires
        d < 16,
    ensures
        final(s)@ == old(s)@.push(hex_char(d as nat)),
{
    if d < 10 {
        push_digit(s, d as u64);
    } else {
        let t = match d {
            10 => "a",
            11 => "b",
            12 => "c",
            13 => "d",
            14 => "e",
            _ => "f",
        };
        proof {
            reveal_strlit("a");
            reveal_strlit("b");
            reveal_strlit("c");
            reveal_strlit("d");
            reveal_strlit("e");
            reveal_strlit("f");
        }
        s.append(t);
        assert(s@ =~= old(s)@.push(hex_char(d as nat)));
    }
}

/// The lower-case hexadecimal form of a byte string.
pub fn hex(bytes: &[u8]) -> (s: String)
    ensures
        s@ == hex_text(bytes@),
{
    let mut s = String::new();
    let mut i: usize = 0;
    while i < bytes.len()
        invariant
            i <= bytes@.len(),
            s@ == hex_text(bytes@.take(i as int)),
        decreases bytes@.len() - i,
    {
        let ghost before = s@;
        push_hex_digit(&mut s, bytes[i] / 16);
        push_hex_digit(&mut s, bytes[i] % 16);
        i = i + 1;
        assert(s@ =~= hex_text(bytes@.take(i as int)));
    }
    assert(bytes@.take(i as int) =~= bytes@);
    s
}

/// Distinct byte strings have distinct hexadecimal forms.
pub proof fn law_hex_injective(a: Seq<u8>, b: Seq<u8>)
    requires
        hex_text(a) == hex_text(b),
    ensures
        a == b,
{
    assert(hex_text(a).len() == 2 * a.len());
    assert(hex_text(b).len() == 2 * b.len());
    assert(a.len() == b.len());
    assert forall|i: int| 0 <= i < a.len() implies a[i] == b[i] by {
        assert(hex_text(a)[2 * i] == hex_text(b)[2 * i]);
        assert(hex_text(a)[2 * i + 1] == hex_text(b)[2 * i + 1]);
        assert(hex_text(a)[2 * i] == hex_char((a[i] / 16) as nat));
        assert(hex_text(b)[2 * i] == hex_char((b[i] / 16) as nat));
        assert(hex_text(a)[2 * i + 1] == hex_char((a[i] % 16) as nat));
        assert(hex_text(b)[2 * i + 1] == hex_char((b[i] % 16) as nat));
    }
    assert(a =~= b);
}

/// White space is these twenty-five characters and no others.
pub proof fn law_space_characters(c: char)
    ensures
        is_space(c) <==> c == '\t' || c == '\n' || c == '\u{b}' || c == '\u{c}' || c == '\r' || c == ' '
            || c == '\u{85}' || c == '\u{a0}' || c == '\u{1680}' || c == '\u{2000}' || c == '\u{2001}'
            || c == '\u{2002}' || c == '\u{2003}' || c == '\u{2004}' || c == '\u{2005}'
            || c == '\u{2006}' || c == '\u{2007}' || c == '\u{2008}' || c == '\u{2009}'
            || c == '\u{200a}' || c == '\u{2028}' || c == '\u{2029}' || c == '\u{202f}'
            || c == '\u{205f}' || c == '\u{3000}',
{
}

/// White space at either end makes no difference to the trimmed text.
pub proof fn law_trimmed_absorbs(s: Seq<char>, c: char)
    requires
        is_space(c),
    ensures
        trimmed(seq![c] + s) == trimmed(s),
        trimmed(s.push(c)) == trimmed(s),
    decreases s.len(),
{
    assert((seq![c] + s).skip(1) =~= s);
    lemma_front_push(s, c);
}

/// Trimming the front of a text with white space behind it.
proof fn lemma_front_push(s: Seq<char>, c: char)
    requires
        is_space(c),
    ensures
        trim_back(trim_front(s.push(c))) == trim_back(trim_front(s)),
    decreases s.len(),
{
    if s.len() > 0 && is_space(s[0]) {
        assert(s.push(c).skip(1) =~= s.skip(1).push(c));
        lemma_front_push(s.skip(1), c);
    } else if s.len() == 0 {
        reveal_with_fuel(trim_front, 2);
        assert(s.push(c).skip(1) =~= s);
    } else {
        assert(s.push(c)[0] == s[0]);
        assert(s.push(c).drop_last() =~= s);
    }
}

/// The ten digits.
pub proof fn law_digit_characters()
    ensures
        digit_char(0) == '0',
        digit_char(1) == '1',
        digit_char(2) == '2',
        digit_char(3) == '3',
        digit_char(4) == '4',
        digit_char(5) == '5',
        digit_char(6) == '6',
        digit_char(7) == '7',
        digit_char(8) == '8',
        digit_char(9) == '9',
{
}

/// One more digit behind a number makes it ten times as large, plus the digit; and a number with more
/// than one digit does not begin with a zero.
pub proof fn law_decimal_grows(n: nat, d: nat)
    requires
        d < 10,
    ensures
        decimal(d) == seq![digit_char(d)],
        n > 0 ==> decimal(10 * n + d) == decimal(n).push(digit_char(d)),
        n > 0 ==> decimal(n)[0] != '0' && decimal(n).len() > 0,
{
    assert((10 * n + d) / 10 == n);
    assert((10 * n + d) % 10 == d);
    if n > 0 {
        lemma_decimal_front(n);
    }
}

/// A positive number does not begin with a zero.
proof fn lemma_decimal_front(n: nat)
    requires
        n > 0,
    ensures
        decimal(n).len() > 0,
        decimal(n)[0] != '0',
    decreases n,
{
    if n >= 10 {
        lemma_decimal_front(n / 10);
    }
}

/// An empty list is a pair of brackets, one item stands between them alone, and each further item
/// stands behind a comma and a blank.
pub proof fn law_list_grows(v: Seq<usize>, n: usize)
    ensures
        list_words(Seq::<usize>::empty()) == "["@ + ""@ + "]"@,
        list_words(seq![n]) == "["@ + decimal(n as nat) + "]"@,
        v.len() > 0 ==> list_words(v.push(n)) == "["@ + (list_items(v, v.len()) + ", "@ + decimal(
            n as nat,
        )) + "]"@,
        v.len() > 0 ==> list_words(v) == "["@ + list_items(v, v.len()) + "]"@,
{
    lemma_list_ext(v, v.push(n), v.len());
}

/// Lists that begin alike have the same first items.
proof fn lemma_list_ext(p: Seq<usize>, q: Seq<usize>, k: nat)
    requires
        k <= p.len(),
        k <= q.len(),
        forall|i: int| 0 <= i < k ==> p[i] == q[i],
    ensures
        list_items(p, k) == list_items(q, k),
    decreases k,
{
    if k > 0 {
        lemma_list_ext(p, q, (k - 1) as nat);
    }
}

/// The sixteen digits of the hexadecimal form.
pub proof fn law_hex_characters(d: nat)
    requires
        d < 16,
    ensures
        hex_char(d) == "0123456789abcdef"@[d as int],
{
    reveal_strlit("0123456789abcdef");
}

/// One more byte adds two digits: that of its upper half, and then that of its lower half.
pub proof fn law_hex_grows(bytes: Seq<u8>, b: u8)
    ensures
        hex_text(Seq::<u8>::empty()).len() == 0,
        hex_text(bytes.push(b)) == hex_text(bytes).push(hex_char((b / 16) as nat)).push(
            hex_char((b % 16) as nat),
        ),
{
    let n = bytes.len();
    let more = bytes.push(b);
    assert forall|i: int| 0 <= i < 2 * n + 2 implies #[trigger] hex_text(more)[i] == hex_text(
        bytes,
    ).push(hex_char((b / 16) as nat)).push(hex_char((b % 16) as nat))[i] by {
        if i < 2 * n {
            assert(more[i / 2] == bytes[i / 2]);
        } else {
            assert(i / 2 == n);
        }
    }
    assert(hex_text(more) =~= hex_text(bytes).push(hex_char((b / 16) as nat)).push(
        hex_char((b % 16) as nat),
    ));
}

} // verus!
