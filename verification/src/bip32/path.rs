//! Derivation paths and their text form.

use crate::text::{
    decimal, digit_char, is_space, law_trimmed_fixed, lemma_trim_back_end, push_decimal, trim,
    trim_back, trim_front, trimmed,
};
use vstd::prelude::*;
use vstd::string::*;

verus! {

/// Bit 31 of a derivation index marks a hardened child.
pub const HARDENED_BIT: u32 = 0x8000_0000;

/// An index with its hardened bit set.
pub open spec fn hardened(i: int) -> u32 {
    if i >= HARDENED_BIT {
        i as u32
    } else {
        (i + HARDENED_BIT) as u32
    }
}

/// The hardened bit in arithmetic.
proof fn lemma_hardened_bit(i: u32)
    ensures
        i | HARDENED_BIT == hardened(i as int),
        (i & HARDENED_BIT != 0) == (i >= HARDENED_BIT),
        i >= HARDENED_BIT ==> i & !HARDENED_BIT == i - HARDENED_BIT,
{
    assert(i < 0x8000_0000u32 ==> i | 0x8000_0000u32 == i + 0x8000_0000u32) by (bit_vector);
    assert(i >= 0x8000_0000u32 ==> i | 0x8000_0000u32 == i) by (bit_vector);
    assert((i & 0x8000_0000u32 != 0) == (i >= 0x8000_0000u32)) by (bit_vector);
    assert(i >= 0x8000_0000u32 ==> i & !0x8000_0000u32 == i - 0x8000_0000u32) by (bit_vector);
}

/// An index with its hardened bit set.
pub fn harden(i: u32) -> (r: u32)
    ensures
        r == hardened(i as int),
        r == i | 0x8000_0000,
{
    proof {
        lemma_hardened_bit(i);
    }
    i | HARDENED_BIT
}

/// A step of a derivation.
#[derive(Debug, Clone, Copy, PartialEq, Eq, Structural)]
pub enum ChildNumber {
    /// A normal child.
    Normal { index: u32 },
    /// A hardened child, without the hardened bit.
    Hardened { index: u32 },
}

/// The step of a raw index.
pub open spec fn child_of(i: u32) -> ChildNumber {
    if i >= HARDENED_BIT {
        ChildNumber::Hardened { index: (i - HARDENED_BIT) as u32 }
    } else {
        ChildNumber::Normal { index: i }
    }
}

/// The steps of a path.
pub open spec fn children_of(path: Seq<u32>) -> Seq<ChildNumber> {
    path.map_values(|i: u32| child_of(i))
}

/// The step of a raw index. Both kinds of index are below `2^31`, so there is no invalid one.
pub fn child_number(i: u32) -> (c: ChildNumber)
    ensures
        c == child_of(i),
        i < 0x8000_0000 ==> c == (ChildNumber::Normal { index: i }),
        i >= 0x8000_0000 ==> c == (ChildNumber::Hardened { index: (i - 0x8000_0000) as u32 }),
{
    proof {
        lemma_hardened_bit(i);
    }
    if i & HARDENED_BIT != 0 {
        ChildNumber::Hardened { index: i & !HARDENED_BIT }
    } else {
        ChildNumber::Normal { index: i }
    }
}

/// The steps of a path.
pub fn children(path: &[u32]) -> (v: Vec<ChildNumber>)
    ensures
        v@ == children_of(path@),
{
    let mut v: Vec<ChildNumber> = Vec::new();
    let mut i: usize = 0;
    while i < path.len()
        invariant
            i <= path@.len(),
            v@ == children_of(path@.take(i as int)),
        decreases path@.len() - i,
    {
        v.push(child_number(path[i]));
        i = i + 1;
        assert(v@ =~= children_of(path@.take(i as int)));
    }
    assert(path@.take(i as int) =~= path@);
    v
}

/// The text of one path element: its number, with an apostrophe when it is hardened.
pub open spec fn element_text(i: u32) -> Seq<char> {
    if i >= HARDENED_BIT {
        decimal((i - HARDENED_BIT) as nat).push('\'')
    } else {
        decimal(i as nat)
    }
}

/// The text of a path: `m`, and each element behind a slash.
pub open spec fn path_text(path: Seq<u32>) -> Seq<char>
    decreases path.len(),
{
    if path.len() == 0 {
        seq!['m']
    } else {
        path_text(path.drop_last()).push('/') + element_text(path.last())
    }
}

/// The text of a path, such as `m/44'/0'/0'/0/5`.
pub fn format_path(path: &[u32]) -> (s: String)
    ensures
        s@ == path_text(path@),
{
    let mut s = String::from_str("m");
    proof {
        reveal_strlit("m");
        reveal_strlit("/");
        reveal_strlit("'");
        assert(s@ =~= path_text(path@.take(0)));
    }
    let mut i: usize = 0;
    while i < path.len()
        invariant
            i <= path@.len(),
            s@ == path_text(path@.take(i as int)),
            "/"@ =~= seq!['/'],
            "'"@ =~= seq!['\''],
        decreases path@.len() - i,
    {
        let x: u32 = path[i];
        let ghost before = s@;
        proof {
            lemma_hardened_bit(x);
        }
        s.append("/");
        assert(s@ =~= before.push('/'));
        if x & HARDENED_BIT != 0 {
            push_decimal(&mut s, (x & !HARDENED_BIT) as u64);
            s.append("'");
            assert(s@ =~= before.push('/') + element_text(x));
        } else {
            push_decimal(&mut s, x as u64);
        }
        i = i + 1;
        assert(path@.take(i as int).drop_last() =~= path@.take(i - 1));
    }
    assert(path@.take(i as int) =~= path@);
    s
}

/// Why a text is no 32-bit number.
#[derive(Debug, Clone, Copy, PartialEq, Eq, Structural)]
pub enum NumberError {
    /// There are no digits.
    Empty,
    /// A character is no digit.
    InvalidDigit,
    /// The number does not fit.
    TooLarge,
}

impl NumberError {
    /// The error in words.
    pub open spec fn words(self) -> Seq<char> {
        match self {
            NumberError::Empty => "cannot parse integer from empty string"@,
            NumberError::InvalidDigit => "invalid digit found in string"@,
            NumberError::TooLarge => "number too large to fit in target type"@,
        }
    }

    /// The error in words.
    pub fn message(&self) -> (s: &'static str)
        ensures
            s@ == self.words(),
    {
        match self {
            NumberError::Empty => "cannot parse integer from empty string",
            NumberError::InvalidDigit => "invalid digit found in string",
            NumberError::TooLarge => "number too large to fit in target type",
        }
    }
}

/// A decimal digit.
pub open spec fn is_digit(c: char) -> bool {
    '0' <= c <= '9'
}

/// Reads digits behind a number already read: the first character that is no digit, or that makes
/// the number too large, decides the error.
pub open spec fn digits_value(s: Seq<char>, acc: nat) -> Result<u32, NumberError>
    decreases s.len(),
{
    if s.len() == 0 {
        Ok(acc as u32)
    } else if !is_digit(s[0]) {
        Err(NumberError::InvalidDigit)
    } else {
        let next = 10 * acc + (s[0] as u32 - '0' as u32) as nat;
        if next > u32::MAX {
            Err(NumberError::TooLarge)
        } else {
            digits_value(s.skip(1), next)
        }
    }
}

/// The number that a text stands for: digits, perhaps behind a plus sign.
pub open spec fn number_value(s: Seq<char>) -> Result<u32, NumberError> {
    if s.len() == 0 {
        Err(NumberError::Empty)
    } else if s.len() == 1 && s[0] == '+' {
        Err(NumberError::InvalidDigit)
    } else if s[0] == '+' {
        digits_value(s.skip(1), 0)
    } else {
        digits_value(s, 0)
    }
}

/// The number that a text stands for.
pub fn parse_number(s: &str) -> (r: Result<u32, NumberError>)
    ensures
        r == number_value(s@),
{
    let n: usize = s.unicode_len();
    if n == 0 {
        return Err(NumberError::Empty);
    }
    let plus: bool = s.get_char(0) == '+';
    if plus && n == 1 {
        return Err(NumberError::InvalidDigit);
    }
    let mut i: usize = if plus {
        1
    } else {
        0
    };
    assert(s@.skip(0) =~= s@);
    let mut acc: u64 = 0;
    while i < n
        invariant
            i <= n,
            n == s@.len(),
            acc <= u32::MAX,
            number_value(s@) == digits_value(s@.skip(i as int), acc as nat),
        decreases n - i,
    {
        let c: char = s.get_char(i);
        if !('0' <= c && c <= '9') {
            return Err(NumberError::InvalidDigit);
        }
        let d: u64 = (c as u32 - '0' as u32) as u64;
        acc = 10 * acc + d;
        if acc > 0xffff_ffff {
            return Err(NumberError::TooLarge);
        }
        assert(s@.skip(i as int).skip(1) =~= s@.skip(i + 1));
        i = i + 1;
    }
    Ok(acc as u32)
}

/// Why a text is no path.
#[derive(Debug, PartialEq, Eq)]
pub enum PathError {
    /// An element has no number.
    Invalid { part: String, reason: NumberError },
    /// A number is `2^31` or more.
    OutOfRange { index: u32 },
}

/// The error of one element, as a mathematical value.
pub ghost enum ElementFault {
    Invalid(Seq<char>, NumberError),
    OutOfRange(u32),
}

impl PathError {
    /// The error as a mathematical value.
    pub open spec fn fault(self) -> ElementFault {
        match self {
            PathError::Invalid { part, reason } => ElementFault::Invalid(part@, reason),
            PathError::OutOfRange { index } => ElementFault::OutOfRange(index),
        }
    }

    /// The error in words.
    pub open spec fn words(self) -> Seq<char> {
        match self {
            PathError::Invalid { part, reason } => "invalid path element '"@ + part@ + "': "@
                + reason.words(),
            PathError::OutOfRange { index } => "path element "@ + decimal(index as nat)
                + " out of range (must be < 2^31)"@,
        }
    }

    /// The error in words.
    pub fn message(&self) -> (s: String)
        ensures
            s@ == self.words(),
    {
        match self {
            PathError::Invalid { part, reason } => {
                let mut s = String::from_str("invalid path element '");
                s.append(part.as_str());
                s.append("': ");
                s.append(reason.message());
                s
            },
            PathError::OutOfRange { index } => {
                let mut s = String::from_str("path element ");
                push_decimal(&mut s, *index as u64);
                s.append(" out of range (must be < 2^31)");
                s
            },
        }
    }
}

/// A mark behind a hardened index.
pub open spec fn is_mark(c: char) -> bool {
    c == '\'' || c == 'h' || c == 'H'
}

/// The index that a trimmed path element stands for.
pub open spec fn trimmed_element(t: Seq<char>) -> Result<u32, ElementFault> {
    let mark = t.len() > 0 && is_mark(t.last());
    let digits = if mark {
        t.drop_last()
    } else {
        t
    };
    match number_value(digits) {
        Err(e) => Err(ElementFault::Invalid(t, e)),
        Ok(i) => if i >= HARDENED_BIT {
            Err(ElementFault::OutOfRange(i))
        } else if mark {
            Ok(hardened(i as int))
        } else {
            Ok(i)
        },
    }
}

/// The index that a path element stands for.
pub open spec fn element_value(part: Seq<char>) -> Result<u32, ElementFault> {
    trimmed_element(trimmed(part))
}

/// The index that a path element stands for.
pub fn parse_element(part: &str) -> (r: Result<u32, PathError>)
    ensures
        match r {
            Ok(i) => element_value(part@) == Ok::<u32, ElementFault>(i),
            Err(e) => element_value(part@) == Err::<u32, ElementFault>(e.fault()),
        },
{
    let t = trim(part);
    let n: usize = t.unicode_len();
    let mut mark: bool = false;
    if n > 0 {
        let c: char = t.get_char(n - 1);
        mark = c == '\'' || c == 'h' || c == 'H';
    }
    let digits = if mark {
        t.substring_char(0, n - 1)
    } else {
        t
    };
    assert(mark ==> digits@ =~= t@.drop_last());
    match parse_number(digits) {
        Err(reason) => Err(PathError::Invalid { part: String::from_str(t), reason }),
        Ok(i) => {
            if i >= HARDENED_BIT {
                Err(PathError::OutOfRange { index: i })
            } else if mark {
                Ok(harden(i))
            } else {
                Ok(i)
            }
        },
    }
}

/// A text without the `m/` at its front, however often it stands there.
pub open spec fn without_pairs(s: Seq<char>) -> Seq<char>
    decreases s.len(),
{
    if s.len() >= 2 && s[0] == 'm' && s[1] == '/' {
        without_pairs(s.skip(2))
    } else {
        s
    }
}

/// A text without the `m` at its front, however often it stands there.
pub open spec fn without_ms(s: Seq<char>) -> Seq<char>
    decreases s.len(),
{
    if s.len() >= 1 && s[0] == 'm' {
        without_ms(s.skip(1))
    } else {
        s
    }
}

/// What a path text holds behind its prefix.
pub open spec fn path_body(s: Seq<char>) -> Seq<char> {
    without_ms(without_pairs(trimmed(s)))
}

/// The position of the first slash, or the length where there is none.
pub open spec fn first_slash(s: Seq<char>) -> nat
    decreases s.len(),
{
    if s.len() == 0 || s[0] == '/' {
        0
    } else {
        1 + first_slash(s.skip(1))
    }
}

/// The parts of a text between its slashes.
pub open spec fn parts_of(s: Seq<char>) -> Seq<Seq<char>>
    decreases s.len(),
{
    if first_slash(s) < s.len() {
        seq![s.take(first_slash(s) as int)] + parts_of(s.skip(first_slash(s) as int + 1))
    } else {
        seq![s]
    }
}

/// The first slash is a slash, with none before it.
proof fn lemma_first_slash(s: Seq<char>)
    ensures
        first_slash(s) <= s.len(),
        first_slash(s) < s.len() ==> s[first_slash(s) as int] == '/',
        forall|i: int| 0 <= i < first_slash(s) ==> s[i] != '/',
    decreases s.len(),
{
    if s.len() > 0 && s[0] != '/' {
        lemma_first_slash(s.skip(1));
        assert forall|i: int| 0 <= i < first_slash(s) implies s[i] != '/' by {
            if i > 0 {
                assert(s[i] == s.skip(1)[i - 1]);
            }
        }
    }
}

/// A position with a slash, or at the end, and with no slash before it is the first slash.
proof fn lemma_is_first_slash(s: Seq<char>, k: nat)
    requires
        k <= s.len(),
        k < s.len() ==> s[k as int] == '/',
        forall|i: int| 0 <= i < k ==> s[i] != '/',
    ensures
        first_slash(s) == k,
{
    lemma_first_slash(s);
    let f = first_slash(s);
    if f < k {
        assert(s[f as int] != '/');
    } else if k < f {
        assert(s[k as int] != '/');
    }
}

/// The text behind its prefix.
fn strip_prefix<'a>(s: &'a str) -> (r: &'a str)
    ensures
        r@ == path_body(s@),
{
    let t = trim(s);
    let n: usize = t.unicode_len();
    let mut i: usize = 0;
    assert(t@.skip(0) =~= t@);
    while n - i >= 2 && t.get_char(i) == 'm' && t.get_char(i + 1) == '/'
        invariant
            i <= n,
            n == t@.len(),
            without_pairs(t@) == without_pairs(t@.skip(i as int)),
        decreases n - i,
    {
        assert(t@.skip(i as int).skip(2) =~= t@.skip(i + 2));
        i = i + 2;
    }
    assert(without_pairs(t@) == t@.skip(i as int));
    while i < n && t.get_char(i) == 'm'
        invariant
            i <= n,
            n == t@.len(),
            without_ms(without_pairs(t@)) == without_ms(t@.skip(i as int)),
        decreases n - i,
    {
        assert(t@.skip(i as int).skip(1) =~= t@.skip(i + 1));
        i = i + 1;
    }
    assert(t@.skip(i as int) =~= t@.subrange(i as int, n as int));
    t.substring_char(i, n)
}

/// A path is what the parts of a text stand for.
pub open spec fn parts_are(parts: Seq<Seq<char>>, path: Seq<u32>) -> bool {
    &&& path.len() == parts.len()
    &&& forall|i: int|
        0 <= i < path.len() ==> element_value(parts[i]) == Ok::<u32, ElementFault>(
            #[trigger] path[i],
        )
}

/// An error is that of the first part that has one.
pub open spec fn first_fault(parts: Seq<Seq<char>>, e: ElementFault) -> bool {
    exists|k: int|
        {
            &&& 0 <= k < parts.len()
            &&& #[trigger] element_value(parts[k]) == Err::<u32, ElementFault>(e)
            &&& forall|i: int| 0 <= i < k ==> (#[trigger] element_value(parts[i])) is Ok
        }
}

/// The path that a text stands for, where it stands for one: nothing behind the prefix is the empty
/// path; otherwise each part between slashes is an index.
pub open spec fn path_of(s: Seq<char>) -> Option<Seq<u32>> {
    let parts = parts_of(path_body(s));
    if path_body(s).len() == 0 {
        Some(Seq::empty())
    } else if forall|i: int| 0 <= i < parts.len() ==> (#[trigger] element_value(parts[i])) is Ok {
        Some(Seq::new(parts.len(), |i: int| element_value(parts[i])->Ok_0))
    } else {
        None
    }
}

/// The parts of a text stand for the path that the text stands for.
proof fn lemma_path_of(s: Seq<char>, path: Seq<u32>)
    requires
        path_body(s).len() > 0,
        parts_are(parts_of(path_body(s)), path),
    ensures
        path_of(s) == Some(path),
{
    let parts = parts_of(path_body(s));
    assert forall|i: int| 0 <= i < parts.len() implies (#[trigger] element_value(parts[i])) is Ok
        && element_value(parts[i])->Ok_0 == path[i] by {
        assert(element_value(parts[i]) == Ok::<u32, ElementFault>(path[i]));
    }
    assert(path_of(s).unwrap() =~= path);
}

/// Reads a path text such as `44'/0'/0'/0/5`, perhaps behind `m/`.
pub fn parse_path(s: &str) -> (r: Result<Vec<u32>, PathError>)
    ensures
        match r {
            Ok(path) => path_of(s@) == Some(path@),
            Err(e) => {
                &&& path_of(s@) is None
                &&& path_body(s@).len() > 0
                &&& first_fault(parts_of(path_body(s@)), e.fault())
            },
        },
{
    let t = strip_prefix(s);
    let n: usize = t.unicode_len();
    let mut path: Vec<u32> = Vec::new();
    if n == 0 {
        assert(path@ =~= Seq::<u32>::empty());
        return Ok(path);
    }
    let ghost parts = parts_of(t@);
    let mut from: usize = 0;
    assert(t@.skip(0) =~= t@);
    assert(parts.skip(0) =~= parts);
    loop
        invariant
            from <= n,
            n == t@.len(),
            n > 0,
            t@ == path_body(s@),
            parts == parts_of(t@),
            path@.len() < parts.len(),
            parts.skip(path@.len() as int) == parts_of(t@.skip(from as int)),
            forall|i: int|
                0 <= i < path@.len() ==> element_value(parts[i]) == Ok::<u32, ElementFault>(
                    #[trigger] path@[i],
                ),
        decreases n - from,
    {
        let mut to: usize = from;
        while to < n && t.get_char(to) != '/'
            invariant
                from <= to <= n,
                n == t@.len(),
                forall|i: int| from <= i < to ==> t@[i] != '/',
            decreases n - to,
        {
            to = to + 1;
        }
        let ghost rest = t@.skip(from as int);
        let ghost k = path@.len() as int;
        proof {
            lemma_is_first_slash(rest, (to - from) as nat);
            assert(rest.take(to - from) =~= t@.subrange(from as int, to as int));
            assert(parts_of(rest)[0] == rest.take(to - from));
            assert(parts[k] == parts.skip(k)[0]);
        }
        let part = t.substring_char(from, to);
        match parse_element(part) {
            Err(e) => {
                proof {
                    assert(element_value(parts[k]) == Err::<u32, ElementFault>(e.fault()));
                    assert forall|i: int| 0 <= i < k implies (#[trigger] element_value(
                        parts[i],
                    )) is Ok by {
                        assert(element_value(parts[i]) == Ok::<u32, ElementFault>(path@[i]));
                    }
                    assert(first_fault(parts, e.fault()));
                }
                return Err(e);
            },
            Ok(i) => {
                path.push(i);
            },
        }
        if to == n {
            proof {
                assert(parts_of(rest).len() == 1);
                assert(parts.len() == k + 1);
                assert(parts_are(parts, path@));
                lemma_path_of(s@, path@);
            }
            return Ok(path);
        }
        proof {
            assert(rest.skip(to - from + 1) =~= t@.skip(to + 1));
            assert(parts.skip(k + 1) =~= parts_of(rest).skip(1));
            assert(parts_of(rest).skip(1) =~= parts_of(t@.skip(to + 1)));
            assert(parts_of(t@.skip(to + 1)).len() > 0);
        }
        from = to + 1;
    }
}

/// The elements of a path, each behind a slash.
spec fn tail_text(path: Seq<u32>) -> Seq<char>
    decreases path.len(),
{
    if path.len() == 0 {
        seq![]
    } else {
        seq!['/'] + element_text(path[0]) + tail_text(path.skip(1))
    }
}

/// The digits of a number are digits, and there is one at least.
proof fn lemma_decimal_digits(n: nat)
    ensures
        decimal(n).len() > 0,
        forall|i: int| 0 <= i < decimal(n).len() ==> is_digit(#[trigger] decimal(n)[i]),
    decreases n,
{
    if n >= 10 {
        lemma_decimal_digits(n / 10);
    }
}

/// Reading one more digit behind digits already read.
proof fn lemma_digits_push(s: Seq<char>, c: char, acc: nat, v: u32)
    requires
        acc <= u32::MAX,
        digits_value(s, acc) == Ok::<u32, NumberError>(v),
    ensures
        digits_value(s.push(c), acc) == digits_value(seq![c], v as nat),
    decreases s.len(),
{
    if s.len() == 0 {
        assert(s.push(c) =~= seq![c]);
    } else {
        let next = 10 * acc + (s[0] as u32 - '0' as u32) as nat;
        lemma_digits_push(s.skip(1), c, next, v);
        assert(s.push(c).skip(1) =~= s.skip(1).push(c));
    }
}

/// The digits of a number are read as that number.
proof fn lemma_decimal_value(n: nat)
    requires
        n <= u32::MAX,
    ensures
        digits_value(decimal(n), 0) == Ok::<u32, NumberError>(n as u32),
    decreases n,
{
    reveal_with_fuel(digits_value, 2);
    if n < 10 {
        assert(decimal(n).skip(1) =~= seq![]);
    } else {
        lemma_decimal_value(n / 10);
        let c = digit_char(n % 10);
        lemma_digits_push(decimal(n / 10), c, 0, (n / 10) as u32);
        assert(seq![c].skip(1) =~= seq![]);
    }
}

/// The text of an element stands for that element, has no slash, and starts with a digit.
proof fn lemma_element(i: u32)
    ensures
        element_value(element_text(i)) == Ok::<u32, ElementFault>(i),
        element_text(i).len() > 0,
        is_digit(element_text(i)[0]),
        !is_space(element_text(i).last()),
        forall|k: int| 0 <= k < element_text(i).len() ==> element_text(i)[k] != '/',
{
    let n = if i >= HARDENED_BIT {
        (i - HARDENED_BIT) as nat
    } else {
        i as nat
    };
    lemma_decimal_digits(n);
    lemma_decimal_value(n);
    let t = element_text(i);
    assert(is_digit(decimal(n)[0]));
    assert(is_digit(decimal(n).last()));
    law_trimmed_fixed(t);
    if i >= HARDENED_BIT {
        assert(t.drop_last() =~= decimal(n));
    }
    assert forall|k: int| 0 <= k < t.len() implies t[k] != '/' by {
        if k < decimal(n).len() {
            assert(is_digit(decimal(n)[k]));
        }
    }
}

/// The last element stands at the end.
proof fn lemma_tail_last(path: Seq<u32>)
    requires
        path.len() > 0,
    ensures
        tail_text(path) == tail_text(path.drop_last()) + (seq!['/'] + element_text(path.last())),
    decreases path.len(),
{
    if path.len() == 1 {
        assert(path.skip(1) =~= seq![]);
        assert(path.drop_last() =~= seq![]);
        assert(tail_text(path) =~= tail_text(path.drop_last()) + (seq!['/'] + element_text(
            path.last(),
        )));
    } else {
        lemma_tail_last(path.skip(1));
        assert(path.skip(1).drop_last() =~= path.drop_last().skip(1));
        assert(path.skip(1).last() == path.last());
        assert(tail_text(path) =~= tail_text(path.drop_last()) + (seq!['/'] + element_text(
            path.last(),
        )));
    }
}

/// The text of a path is `m` and its elements behind slashes.
proof fn lemma_path_tail(path: Seq<u32>)
    ensures
        path_text(path) == seq!['m'] + tail_text(path),
    decreases path.len(),
{
    if path.len() == 0 {
        assert(path_text(path) =~= seq!['m'] + tail_text(path));
    } else {
        lemma_path_tail(path.drop_last());
        lemma_tail_last(path);
        assert(path_text(path) =~= seq!['m'] + tail_text(path));
    }
}

/// The parts of the elements, joined by slashes, are the elements.
proof fn lemma_parts(path: Seq<u32>)
    requires
        path.len() > 0,
    ensures
        parts_are(parts_of(tail_text(path).skip(1)), path),
    decreases path.len(),
{
    let s = tail_text(path).skip(1);
    let e = element_text(path[0]);
    let rest = tail_text(path.skip(1));
    lemma_element(path[0]);
    assert(s =~= e + rest);
    if path.len() == 1 {
        assert(rest =~= seq![]);
        assert(s =~= e);
        lemma_is_first_slash(s, s.len());
        assert(parts_of(s) =~= seq![e]);
        assert(parts_are(parts_of(s), path));
    } else {
        let tail = path.skip(1);
        lemma_parts(tail);
        assert(rest[0] == '/');
        assert(s[e.len() as int] == '/');
        lemma_is_first_slash(s, e.len());
        assert(s.take(e.len() as int) =~= e);
        assert(s.skip(e.len() as int + 1) =~= rest.skip(1));
        let parts = parts_of(rest.skip(1));
        assert(parts_of(s) =~= seq![e] + parts);
        assert forall|i: int| 0 <= i < path.len() implies element_value(parts_of(s)[i]) == Ok::<
            u32,
            ElementFault,
        >(#[trigger] path[i]) by {
            if i > 0 {
                assert(path[i] == tail[i - 1]);
                assert(parts_of(s)[i] == parts[i - 1]);
            }
        }
    }
}

/// Reading the text of a path gives back the path.
pub proof fn law_path_round_trip(path: Seq<u32>)
    ensures
        path_of(path_text(path)) == Some(path),
{
    let t = path_text(path);
    lemma_path_tail(path);
    if path.len() == 0 {
        reveal_with_fuel(without_ms, 2);
        law_trimmed_fixed(t);
        assert(t =~= seq!['m']);
        assert(t.skip(1) =~= seq![]);
        assert(path =~= Seq::<u32>::empty());
    } else {
        lemma_element(path[0]);
        lemma_element(path.last());
        lemma_tail_last(path);
        let tail = tail_text(path);
        assert(tail[0] == '/');
        assert(tail[1] == element_text(path[0])[0]);
        assert(t.last() == element_text(path.last()).last());
        law_trimmed_fixed(t);
        reveal_with_fuel(without_pairs, 2);
        assert(t.skip(2) =~= tail.skip(1));
        assert(t.skip(2)[0] == element_text(path[0])[0]);
        assert(path_body(t) == tail.skip(1));
        lemma_parts(path);
        lemma_path_of(t, path);
    }
}

/// Two texts that differ at most in the marks that they use.
pub open spec fn same_but_marks(a: Seq<char>, b: Seq<char>) -> bool {
    &&& a.len() == b.len()
    &&& forall|i: int|
        0 <= i < a.len() ==> #[trigger] a[i] == b[i] || (is_mark(a[i]) && is_mark(b[i]))
}

/// The shorter texts that reading works on differ in their marks alone, too.
proof fn lemma_marks_ends(a: Seq<char>, b: Seq<char>)
    requires
        same_but_marks(a, b),
    ensures
        same_but_marks(trim_front(a), trim_front(b)),
        same_but_marks(trim_back(a), trim_back(b)),
        same_but_marks(without_pairs(a), without_pairs(b)),
        same_but_marks(without_ms(a), without_ms(b)),
        first_slash(a) == first_slash(b),
        digits_alike(a, b),
    decreases a.len(),
{
    if a.len() > 0 {
        assert(a[0] == b[0] || (is_mark(a[0]) && is_mark(b[0])));
        assert(a.last() == b.last() || (is_mark(a.last()) && is_mark(b.last())));
        lemma_marks_cut(a, b, 1);
        lemma_marks_ends(a.skip(1), b.skip(1));
        assert(a.drop_last() =~= a.take(a.len() - 1));
        assert(b.drop_last() =~= b.take(b.len() - 1));
        lemma_marks_cut(a, b, a.len() - 1);
        lemma_marks_ends(a.drop_last(), b.drop_last());
        assert forall|acc: nat| #[trigger] digits_value(a, acc) == digits_value(b, acc) by {
            if is_digit(a[0]) {
                let next = 10 * acc + (a[0] as u32 - '0' as u32) as nat;
                assert(digits_value(a.skip(1), next) == digits_value(b.skip(1), next));
            }
        }
    }
    if a.len() > 1 {
        assert(a[1] == b[1] || (is_mark(a[1]) && is_mark(b[1])));
        lemma_marks_cut(a, b, 2);
        lemma_marks_ends(a.skip(2), b.skip(2));
    }
}

/// Two texts are read as the same number, or fail alike.
spec fn digits_alike(a: Seq<char>, b: Seq<char>) -> bool {
    forall|acc: nat| #[trigger] digits_value(a, acc) == digits_value(b, acc)
}

/// Texts that differ in their marks alone, cut at the same place.
proof fn lemma_marks_cut(a: Seq<char>, b: Seq<char>, k: int)
    requires
        same_but_marks(a, b),
        0 <= k <= a.len(),
    ensures
        same_but_marks(a.take(k), b.take(k)),
        same_but_marks(a.skip(k), b.skip(k)),
{
    assert forall|i: int| 0 <= i < a.skip(k).len() implies #[trigger] a.skip(k)[i] == b.skip(k)[i]
        || (is_mark(a.skip(k)[i]) && is_mark(b.skip(k)[i])) by {
        assert(a[k + i] == b[k + i] || (is_mark(a[k + i]) && is_mark(b[k + i])));
    }
    assert forall|i: int| 0 <= i < k implies #[trigger] a.take(k)[i] == b.take(k)[i] || (is_mark(
        a.take(k)[i],
    ) && is_mark(b.take(k)[i])) by {
        assert(a[i] == b[i] || (is_mark(a[i]) && is_mark(b[i])));
    }
}

/// Two elements that differ in their marks alone stand for the same index, or for none.
proof fn lemma_marks_element(a: Seq<char>, b: Seq<char>)
    requires
        same_but_marks(a, b),
    ensures
        (element_value(a) is Ok) == (element_value(b) is Ok),
        element_value(a) is Ok ==> element_value(a)->Ok_0 == element_value(b)->Ok_0,
{
    lemma_marks_ends(a, b);
    lemma_marks_ends(trim_front(a), trim_front(b));
    let (t, u) = (trimmed(a), trimmed(b));
    if t.len() > 0 {
        assert(t.last() == u.last() || (is_mark(t.last()) && is_mark(u.last())));
        lemma_marks_cut(t, u, t.len() - 1);
        assert(t.drop_last() =~= t.take(t.len() - 1));
        assert(u.drop_last() =~= u.take(u.len() - 1));
        lemma_marks_number(t.drop_last(), u.drop_last());
    }
    lemma_marks_number(t, u);
}

proof fn lemma_marks_number(a: Seq<char>, b: Seq<char>)
    requires
        same_but_marks(a, b),
    ensures
        number_value(a) == number_value(b),
{
    lemma_marks_ends(a, b);
    if a.len() > 0 {
        assert(a[0] == b[0] || (is_mark(a[0]) && is_mark(b[0])));
        lemma_marks_cut(a, b, 1);
        lemma_marks_ends(a.skip(1), b.skip(1));
        assert(digits_value(a, 0) == digits_value(b, 0));
        assert(digits_value(a.skip(1), 0) == digits_value(b.skip(1), 0));
    }
}

/// The parts of two texts that differ in their marks alone do so, too.
proof fn lemma_marks_parts(a: Seq<char>, b: Seq<char>)
    requires
        same_but_marks(a, b),
    ensures
        parts_of(a).len() == parts_of(b).len(),
        forall|i: int|
            0 <= i < parts_of(a).len() ==> same_but_marks(#[trigger] parts_of(a)[i], parts_of(b)[i]),
    decreases a.len(),
{
    lemma_marks_ends(a, b);
    let k = first_slash(a) as int;
    if k < a.len() {
        lemma_marks_cut(a, b, k);
        lemma_marks_cut(a, b, k + 1);
        lemma_marks_parts(a.skip(k + 1), b.skip(k + 1));
        assert forall|i: int| 0 <= i < parts_of(a).len() implies same_but_marks(
            #[trigger] parts_of(a)[i],
            parts_of(b)[i],
        ) by {
            if i > 0 {
                assert(parts_of(a)[i] == parts_of(a.skip(k + 1))[i - 1]);
                assert(parts_of(b)[i] == parts_of(b.skip(k + 1))[i - 1]);
            }
        }
    }
}

/// The three marks mean the same: a text in which some are written for others stands for the same
/// path, or for none as before.
pub proof fn law_marks_alike(a: Seq<char>, b: Seq<char>)
    requires
        same_but_marks(a, b),
    ensures
        path_of(a) == path_of(b),
{
    lemma_marks_ends(a, b);
    lemma_marks_ends(trim_front(a), trim_front(b));
    lemma_marks_ends(trimmed(a), trimmed(b));
    lemma_marks_ends(without_pairs(trimmed(a)), without_pairs(trimmed(b)));
    lemma_marks_parts(path_body(a), path_body(b));
    let (p, q) = (parts_of(path_body(a)), parts_of(path_body(b)));
    assert forall|i: int| 0 <= i < p.len() implies {
        &&& (#[trigger] element_value(p[i]) is Ok) == (element_value(q[i]) is Ok)
        &&& element_value(p[i]) is Ok ==> element_value(p[i])->Ok_0 == element_value(q[i])->Ok_0
    } by {
        lemma_marks_element(p[i], q[i]);
    }
    if path_body(a).len() == 0 {
        assert(path_of(b) == path_of(a));
    } else if path_of(a) is Some {
        assert forall|i: int| 0 <= i < q.len() implies (#[trigger] element_value(q[i])) is Ok by {
            assert(element_value(p[i]) is Ok);
        }
        assert(path_of(a).unwrap() =~= path_of(b).unwrap());
    } else {
        let i = choose|i: int| 0 <= i < p.len() && !((#[trigger] element_value(p[i])) is Ok);
        assert(!(element_value(q[i]) is Ok));
    }
}

/// The prefix `m/` is optional: a text without white space at its ends stands for the same path with
/// it, or for none as before.
pub proof fn law_prefix_optional(s: Seq<char>)
    requires
        trimmed(s) == s,
    ensures
        path_of(seq!['m', '/'] + s) == path_of(s),
{
    let t = seq!['m', '/'] + s;
    lemma_trim_back_end(trim_front(s));
    assert(s.len() > 0 ==> t.last() == s.last());
    law_trimmed_fixed(t);
    assert(t.skip(2) =~= s);
}

/// The prefix and the choice of marks together leave the path as it is.
pub proof fn law_prefix_and_marks(s: Seq<char>, t: Seq<char>)
    requires
        trimmed(s) == s,
        same_but_marks(s, t),
    ensures
        path_of(seq!['m', '/'] + t) == path_of(s),
{
    let (a, b) = (seq!['m', '/'] + s, seq!['m', '/'] + t);
    assert forall|i: int| 0 <= i < a.len() implies #[trigger] a[i] == b[i] || (is_mark(a[i])
        && is_mark(b[i])) by {
        if i >= 2 {
            assert(s[i - 2] == t[i - 2] || (is_mark(s[i - 2]) && is_mark(t[i - 2])));
        }
    }
    law_prefix_optional(s);
    law_marks_alike(a, b);
}

/// Hardening sets the top bit of an index and keeps the others.
pub proof fn law_hardened(i: u32)
    ensures
        hardened(i as int) >= 0x8000_0000,
        hardened(i as int) % 0x8000_0000 == i % 0x8000_0000,
        hardened(hardened(i as int) as int) == hardened(i as int),
{
}

/// The steps of a path are one for each index, in order: a hardened one exactly where the top bit is
/// set, and always with the other bits as its number.
pub proof fn law_children(path: Seq<u32>)
    ensures
        children_of(path).len() == path.len(),
        forall|k: int|
            0 <= k < path.len() ==> {
                let c = #[trigger] children_of(path)[k];
                &&& c is Hardened <==> path[k] >= 0x8000_0000
                &&& c is Hardened ==> c->Hardened_index == path[k] - 0x8000_0000
                &&& c is Normal ==> c->Normal_index == path[k]
            },
{
}

/// Different paths have different steps.
pub proof fn law_children_injective(a: Seq<u32>, b: Seq<u32>)
    requires
        children_of(a) == children_of(b),
    ensures
        a == b,
{
    assert(children_of(a).len() == children_of(b).len());
    assert(a.len() == children_of(a).len() && b.len() == children_of(b).len());
    assert forall|k: int| 0 <= k < a.len() implies a[k] == b[k] by {
        assert(children_of(a)[k] == child_of(a[k]));
        assert(children_of(b)[k] == child_of(b[k]));
    }
    assert(a =~= b);
}

/// How a path text grows: an index below `2^31` as its number behind a slash, and one from there on as
/// the number above `2^31`, with an apostrophe behind it.
pub proof fn law_path_text_grows(path: Seq<u32>, i: u32)
    ensures
        path_text(Seq::<u32>::empty()) == seq!['m'],
        i < 0x8000_0000 ==> path_text(path.push(i)) == path_text(path) + seq!['/'] + decimal(
            i as nat,
        ),
        i >= 0x8000_0000 ==> path_text(path.push(i)) == path_text(path) + seq!['/'] + decimal(
            (i - 0x8000_0000) as nat,
        ) + seq!['\''],
{
    assert(path.push(i).drop_last() =~= path);
    assert(path_text(path).push('/') =~= path_text(path) + seq!['/']);
    if i >= 0x8000_0000 {
        let d = decimal((i - 0x8000_0000) as nat);
        assert(path_text(path.push(i)) =~= path_text(path) + seq!['/'] + d + seq!['\'']);
    }
}

/// One more character behind digits already read.
proof fn lemma_digits_grow(s: Seq<char>, c: char, acc: nat)
    requires
        acc <= u32::MAX,
    ensures
        digits_value(s, acc) is Err ==> digits_value(s.push(c), acc) == digits_value(s, acc),
        digits_value(s, acc) is Ok ==> {
            let v = digits_value(s, acc)->Ok_0;
            let d = c as u32 - '0' as u32;
            digits_value(s.push(c), acc) == if !('0' <= c <= '9') {
                Err::<u32, NumberError>(NumberError::InvalidDigit)
            } else if 10 * v + d > 0xffff_ffff {
                Err(NumberError::TooLarge)
            } else {
                Ok((10 * v + d) as u32)
            }
        },
    decreases s.len(),
{
    reveal_with_fuel(digits_value, 2);
    if s.len() == 0 {
        assert(s.push(c) =~= seq![c]);
        assert(seq![c].skip(1) =~= seq![]);
    } else if is_digit(s[0]) {
        let next = 10 * acc + (s[0] as u32 - '0' as u32) as nat;
        assert(s.push(c).skip(1) =~= s.skip(1).push(c));
        if next <= u32::MAX {
            lemma_digits_grow(s.skip(1), c, next);
        }
    }
}

/// How a number is read, digit by digit. No text is no number, and neither is a plus sign alone; one
/// digit is its value, with or without a plus sign before it. Behind a number that was read, a further
/// digit makes it ten times as large plus the digit, unless it then needs more than 32 bits; any other
/// character is an error; and nothing behind an error mends it.
pub proof fn law_number_grows(s: Seq<char>, c: char)
    ensures
        number_value(Seq::<char>::empty()) == Err::<u32, NumberError>(NumberError::Empty),
        number_value(seq!['+']) == Err::<u32, NumberError>(NumberError::InvalidDigit),
        s.len() == 0 || s == seq!['+'] ==> number_value(s.push(c)) == if '0' <= c <= '9' {
            Ok::<u32, NumberError>((c as u32 - '0' as u32) as u32)
        } else {
            Err(NumberError::InvalidDigit)
        },
        s.len() > 0 && s != seq!['+'] && number_value(s) is Err ==> number_value(s.push(c))
            == number_value(s),
        number_value(s) is Ok ==> {
            let v = number_value(s)->Ok_0;
            let d = c as u32 - '0' as u32;
            number_value(s.push(c)) == if !('0' <= c <= '9') {
                Err::<u32, NumberError>(NumberError::InvalidDigit)
            } else if 10 * v + d > 0xffff_ffff {
                Err(NumberError::TooLarge)
            } else {
                Ok((10 * v + d) as u32)
            }
        },
{
    let t = s.push(c);
    reveal_with_fuel(digits_value, 2);
    if s.len() == 0 {
        assert(t =~= seq![c]);
        assert(t.skip(1) =~= seq![]);
    } else {
        assert(t[0] == s[0]);
        if s.len() == 1 && s[0] == '+' {
            assert(s =~= seq!['+']);
            assert(t.skip(1) =~= seq![c]);
            assert(seq![c].skip(1) =~= seq![]);
        } else if s[0] == '+' {
            assert(t.skip(1) =~= s.skip(1).push(c));
            lemma_digits_grow(s.skip(1), c, 0);
        } else {
            lemma_digits_grow(s, c, 0);
        }
    }
}

/// The decimal digits of a number are read as that number, also behind zeros.
pub proof fn law_decimal_is_read(n: u32, zeros: nat)
    ensures
        number_value(Seq::new(zeros, |i: int| '0') + decimal(n as nat)) == Ok::<u32, NumberError>(n),
    decreases zeros,
{
    let d = decimal(n as nat);
    lemma_decimal_digits(n as nat);
    lemma_decimal_value(n as nat);
    let s = Seq::new(zeros, |i: int| '0') + d;
    if zeros == 0 {
        assert(s =~= d);
        assert(is_digit(d[0]));
    } else {
        let less = Seq::new((zeros - 1) as nat, |i: int| '0') + d;
        law_decimal_is_read(n, (zeros - 1) as nat);
        assert(s.skip(1) =~= less);
        assert(s[0] == '0');
        assert(is_digit(less[0])) by {
            if zeros == 1 {
                assert(less =~= d);
                assert(is_digit(d[0]));
            } else {
                assert(less[0] == '0');
            }
        }
    }
}

/// What a part of a path stands for, where it has no white space at its ends. With no mark behind it,
/// a number below `2^31` stands for itself; with a mark, for the number with the top bit set. A larger
/// number is out of range, and any other text is no element.
pub proof fn law_element(p: Seq<char>, mark: char)
    requires
        p.len() > 0 ==> !is_space(p[0]) && !is_space(p.last()),
        p.len() > 0 ==> p.last() != '\'' && p.last() != 'h' && p.last() != 'H',
        mark == '\'' || mark == 'h' || mark == 'H',
    ensures
        match number_value(p) {
            Ok(n) => if n < 0x8000_0000 {
                &&& element_value(p) == Ok::<u32, ElementFault>(n)
                &&& element_value(p.push(mark)) == Ok::<u32, ElementFault>((n + 0x8000_0000) as u32)
            } else {
                &&& element_value(p) == Err::<u32, ElementFault>(ElementFault::OutOfRange(n))
                &&& element_value(p.push(mark)) == Err::<u32, ElementFault>(
                    ElementFault::OutOfRange(n),
                )
            },
            Err(e) => {
                &&& element_value(p) == Err::<u32, ElementFault>(ElementFault::Invalid(p, e))
                &&& element_value(p.push(mark)) == Err::<u32, ElementFault>(
                    ElementFault::Invalid(p.push(mark), e),
                )
            },
        },
{
    law_trimmed_fixed(p);
    law_trimmed_fixed(p.push(mark));
    assert(p.push(mark).drop_last() =~= p);
}

/// White space round a part makes no difference to what the part stands for.
pub proof fn law_element_spaces(p: Seq<char>, c: char)
    requires
        is_space(c),
    ensures
        element_value(seq![c] + p) == element_value(p),
        element_value(p.push(c)) == element_value(p),
{
    crate::text::law_trimmed_absorbs(p, c);
}

/// A text without a slash is one part, and a slash parts what stands before it from the parts behind it.
pub proof fn law_parts(a: Seq<char>, b: Seq<char>)
    requires
        forall|i: int| 0 <= i < a.len() ==> a[i] != '/',
    ensures
        parts_of(a) == seq![a],
        parts_of(a + seq!['/'] + b) == seq![a] + parts_of(b),
{
    let s = a + seq!['/'] + b;
    lemma_is_first_slash(a, a.len());
    lemma_is_first_slash(s, a.len());
    assert(s.take(a.len() as int) =~= a);
    assert(s.skip(a.len() as int + 1) =~= b);
}

/// A run of `m` at the front is no part of the body, unless it is the `m` of a prefix `m/`.
pub proof fn law_body_skips_ms(k: nat, r: Seq<char>)
    requires
        trimmed(Seq::new(k, |i: int| 'm') + r) == Seq::new(k, |i: int| 'm') + r,
        r.len() > 0 ==> r[0] != 'm',
        r.len() > 0 && k == 1 ==> r[0] != '/',
    ensures
        path_body(Seq::new(k, |i: int| 'm') + r) == r,
{
    let s = Seq::new(k, |i: int| 'm') + r;
    if s.len() >= 2 {
        if k >= 2 {
            assert(s[1] == 'm');
        } else if k == 1 {
            assert(s[1] == r[0]);
        } else {
            assert(s[0] == r[0]);
        }
    }
    lemma_skip_ms(k, r);
}

/// Removing a run of `m`.
proof fn lemma_skip_ms(k: nat, r: Seq<char>)
    requires
        r.len() > 0 ==> r[0] != 'm',
    ensures
        without_ms(Seq::new(k, |i: int| 'm') + r) == r,
    decreases k,
{
    let s = Seq::new(k, |i: int| 'm') + r;
    if k == 0 {
        assert(s =~= r);
    } else {
        assert(s[0] == 'm');
        assert(s.skip(1) =~= Seq::new((k - 1) as nat, |i: int| 'm') + r);
        lemma_skip_ms((k - 1) as nat, r);
    }
}

/// A text stands for a path exactly when nothing is left of it behind the prefix, and the path is empty,
/// or its parts stand for the indices of the path, one for one.
pub proof fn law_path_of_parts(s: Seq<char>, path: Seq<u32>)
    ensures
        path_body(s).len() == 0 ==> (path_of(s) == Some(path) <==> path.len() == 0),
        path_body(s).len() > 0 ==> (path_of(s) == Some(path) <==> {
            &&& path.len() == parts_of(path_body(s)).len()
            &&& forall|i: int|
                0 <= i < path.len() ==> element_value(parts_of(path_body(s))[i]) == Ok::<
                    u32,
                    ElementFault,
                >(#[trigger] path[i])
        }),
{
    let parts = parts_of(path_body(s));
    if path_body(s).len() == 0 {
        if path.len() == 0 {
            assert(path =~= Seq::<u32>::empty());
        }
    } else if parts_are(parts, path) {
        lemma_path_of(s, path);
    } else if path_of(s) == Some(path) {
        assert forall|i: int| 0 <= i < path.len() implies element_value(parts[i]) == Ok::<
            u32,
            ElementFault,
        >(#[trigger] path[i]) by {
            assert(element_value(parts[i]) is Ok);
        }
        assert(parts_are(parts, path));
    }
}

/// The error of a text is that of its first part that stands for no index: every part before it stands for
/// one, so the text stands for no path.
pub proof fn law_first_fault(s: Seq<char>, e: ElementFault)
    requires
        path_body(s).len() > 0,
        first_fault(parts_of(path_body(s)), e),
    ensures
        path_of(s) is None,
        exists|k: int|
            {
                &&& 0 <= k < parts_of(path_body(s)).len()
                &&& #[trigger] element_value(parts_of(path_body(s))[k]) == Err::<u32, ElementFault>(e)
                &&& forall|i: int|
                    0 <= i < k ==> (#[trigger] element_value(parts_of(path_body(s))[i])) is Ok
            },
{
    let parts = parts_of(path_body(s));
    let k = choose|k: int|
        {
            &&& 0 <= k < parts.len()
            &&& #[trigger] element_value(parts[k]) == Err::<u32, ElementFault>(e)
            &&& forall|i: int| 0 <= i < k ==> (#[trigger] element_value(parts[i])) is Ok
        };
    assert(element_value(parts[k]) == Err::<u32, ElementFault>(e));
}

} // verus!
