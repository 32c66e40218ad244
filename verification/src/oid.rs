//! Object identifiers and their dotted decimal text.

use vstd::prelude::*;
use vstd::slice::slice_to_vec;
use vstd::string::*;
use std::str::FromStr;
use crate::error::CodecError;

verus! {

/// An object identifier: a sequence of at least one sub-identifier.
///
/// Its view is the sequence of sub-identifiers.
#[derive(Debug, PartialEq, Eq, Hash)]
pub struct Oid {
    parts: Vec<u32>,
}

impl View for Oid {
    type V = Seq<u32>;

    closed spec fn view(&self) -> Seq<u32> {
        self.parts@
    }
}

impl Clone for Oid {
    fn clone(&self) -> (r: Self)
        ensures
            r@ == self@,
    {
        proof {
            use_type_invariant(self);
        }
        Oid { parts: slice_to_vec(self.parts.as_slice()) }
    }
}

impl Oid {
    #[verifier::type_invariant]
    spec fn nonempty(self) -> bool {
        self.parts@.len() >= 1
    }

    /// The identifier with the given sub-identifiers; an empty slice is no
    /// identifier.
    pub fn from_slice(parts: &[u32]) -> (r: Result<Oid, CodecError>)
        ensures
            match r {
                Ok(o) => {
                    &&& parts@.len() >= 1
                    &&& o@ == parts@
                },
                Err(e) => {
                    &&& parts@.len() == 0
                    &&& e == CodecError::InvalidIdentifier
                },
            },
    {
        if parts.len() == 0 {
            Err(CodecError::InvalidIdentifier)
        } else {
            Ok(Oid { parts: slice_to_vec(parts) })
        }
    }

    /// The identifier with the given sub-identifiers; an empty vector is no
    /// identifier.
    pub fn from_vec(parts: Vec<u32>) -> (r: Result<Oid, CodecError>)
        ensures
            match r {
                Ok(o) => {
                    &&& parts@.len() >= 1
                    &&& o@ == parts@
                },
                Err(e) => {
                    &&& parts@.len() == 0
                    &&& e == CodecError::InvalidIdentifier
                },
            },
    {
        if parts.len() == 0 {
            Err(CodecError::InvalidIdentifier)
        } else {
            Ok(Oid { parts })
        }
    }

    /// The sub-identifiers.
    pub fn parts(&self) -> (p: &[u32])
        ensures
            p@ == self@,
            p@.len() >= 1,
    {
        proof {
            use_type_invariant(self);
        }
        self.parts.as_slice()
    }

    /// The number of sub-identifiers.
    pub fn len(&self) -> (n: usize)
        ensures
            n == self@.len(),
            n >= 1,
    {
        proof {
            use_type_invariant(self);
        }
        self.parts.len()
    }

    /// This identifier with `sub` appended.
    pub fn child(&self, sub: u32) -> (r: Oid)
        ensures
            r@ == self@.push(sub),
    {
        let mut parts: Vec<u32> = slice_to_vec(self.parts.as_slice());
        parts.push(sub);
        Oid { parts }
    }
}

/// Whether `c` is a decimal digit.
pub open spec fn is_digit(c: char) -> bool {
    '0' <= c <= '9'
}

/// The number a decimal digit stands for.
pub open spec fn digit_value(c: char) -> nat {
    (c as int - '0' as int) as nat
}

/// The digit that stands for a number below ten.
pub open spec fn digit_char(d: nat) -> char {
    ('0' as int + d) as char
}

/// The number that `s` is a decimal numeral of: `s` has at least one
/// character, and all of them are digits. Leading zeros are allowed.
pub open spec fn numeral(s: Seq<char>) -> Option<nat>
    decreases s.len(),
{
    if s.len() == 0 || !is_digit(s.last()) {
        None
    } else if s.len() == 1 {
        Some(digit_value(s.last()))
    } else {
        match numeral(s.drop_last()) {
            Some(v) => Some(10 * v + digit_value(s.last())),
            None => None,
        }
    }
}

/// The place of the first dot in `s`, or the length of `s` if it has none.
pub open spec fn first_dot(s: Seq<char>) -> int
    decreases s.len(),
{
    if s.len() == 0 || s.first() == '.' {
        0
    } else {
        1 + first_dot(s.drop_first())
    }
}

/// The identifier that dotted decimal text stands for: numerals that fit in
/// 32 bits, with one dot between each two of them and none elsewhere.
pub open spec fn dotted(s: Seq<char>) -> Option<Seq<u32>>
    decreases s.len(),
    via dotted_decreases
{
    let end = first_dot(s);
    match numeral(s.take(end)) {
        None => None,
        Some(v) => if v > u32::MAX {
            None
        } else if end == s.len() {
            Some(seq![v as u32])
        } else {
            match dotted(s.skip(end + 1)) {
                Some(rest) => Some(seq![v as u32] + rest),
                None => None,
            }
        },
    }
}

#[via_fn]
proof fn dotted_decreases(s: Seq<char>) {
    lemma_first_dot_bounds(s);
}

/// The decimal numeral of `n`, without leading zeros.
pub open spec fn decimal_text(n: nat) -> Seq<char>
    decreases n,
{
    if n < 10 {
        seq![digit_char(n)]
    } else {
        decimal_text(n / 10).push(digit_char(n % 10))
    }
}

/// The dotted decimal text of an identifier; of no component, no text.
pub open spec fn dotted_text(parts: Seq<u32>) -> Seq<char>
    decreases parts.len(),
{
    if parts.len() == 0 {
        Seq::empty()
    } else if parts.len() == 1 {
        decimal_text(parts[0] as nat)
    } else {
        decimal_text(parts[0] as nat) + seq!['.'] + dotted_text(parts.drop_first())
    }
}

/// The first dot lies within the text or at its end, at a dot if within, and
/// no dot comes before it.
pub proof fn lemma_first_dot_bounds(s: Seq<char>)
    ensures
        0 <= first_dot(s) <= s.len(),
        first_dot(s) < s.len() ==> s[first_dot(s)] == '.',
        forall|i: int| 0 <= i < first_dot(s) ==> s[i] != '.',
    decreases s.len(),
{
    if s.len() == 0 || s.first() == '.' {
    } else {
        lemma_first_dot_bounds(s.drop_first());
        assert forall|i: int| 0 <= i < first_dot(s) implies s[i] != '.' by {
            if i > 0 {
                assert(s[i] == s.drop_first()[i - 1]);
            }
        }
    }
}

/// The place with no dot before it that is a dot or the end is the first
/// dot.
pub proof fn lemma_first_dot_at(s: Seq<char>, end: int)
    requires
        0 <= end <= s.len(),
        forall|i: int| 0 <= i < end ==> s[i] != '.',
        end < s.len() ==> s[end] == '.',
    ensures
        first_dot(s) == end,
{
    lemma_first_dot_bounds(s);
}

/// Every leading part of a numeral is a numeral of a number that is not
/// larger, and ends in a digit.
pub proof fn lemma_numeral_prefix(s: Seq<char>, k: int)
    requires
        1 <= k <= s.len(),
        numeral(s) is Some,
    ensures
        numeral(s.take(k)) is Some,
        numeral(s.take(k))->Some_0 <= numeral(s)->Some_0,
        is_digit(s[k - 1]),
    decreases s.len(),
{
    if k == s.len() {
        assert(s.take(k) =~= s);
    } else {
        assert(s.drop_last().take(k) =~= s.take(k));
        lemma_numeral_prefix(s.drop_last(), k);
    }
}

/// Text that stands for an identifier has only digits and dots.
pub proof fn lemma_dotted_chars(s: Seq<char>)
    requires
        dotted(s) is Some,
    ensures
        forall|i: int| 0 <= i < s.len() ==> is_digit(#[trigger] s[i]) || s[i] == '.',
    decreases s.len(),
{
    let end = first_dot(s);
    lemma_first_dot_bounds(s);
    assert forall|i: int| 0 <= i < s.len() implies is_digit(#[trigger] s[i]) || s[i] == '.' by {
        if i < end {
            lemma_numeral_prefix(s.take(end), i + 1);
        } else if i > end {
            lemma_dotted_chars(s.skip(end + 1));
            assert(s[i] == s.skip(end + 1)[i - end - 1]);
        }
    }
}

/// A decimal numeral is made of digits alone and stands for its number.
pub proof fn lemma_decimal_text(n: nat)
    ensures
        decimal_text(n).len() >= 1,
        numeral(decimal_text(n)) == Some(n),
        forall|i: int| 0 <= i < decimal_text(n).len() ==> is_digit(#[trigger] decimal_text(n)[i]),
    decreases n,
{
    let t = decimal_text(n);
    if n >= 10 {
        lemma_decimal_text(n / 10);
        assert(t.drop_last() =~= decimal_text(n / 10));
        assert(t.last() == digit_char(n % 10));
    }
}

/// The dotted decimal text of an identifier stands for that identifier.
pub proof fn lemma_text_roundtrip(parts: Seq<u32>)
    requires
        parts.len() >= 1,
    ensures
        dotted(dotted_text(parts)) == Some(parts),
    decreases parts.len(),
{
    let head = decimal_text(parts[0] as nat);
    let s = dotted_text(parts);
    lemma_decimal_text(parts[0] as nat);
    if parts.len() == 1 {
        lemma_first_dot_at(s, s.len() as int);
        assert(s.take(s.len() as int) =~= s);
        assert(seq![parts[0]] =~= parts);
    } else {
        let rest = dotted_text(parts.drop_first());
        assert(s =~= head + (seq!['.'] + rest));
        lemma_first_dot_at(s, head.len() as int);
        assert(s.take(head.len() as int) =~= head);
        assert(s.skip(head.len() as int + 1) =~= rest);
        lemma_text_roundtrip(parts.drop_first());
        assert(seq![parts[0]] + parts.drop_first() =~= parts);
    }
}

/// The identifier that the numerals up to some place stand for, followed by
/// what the text after that place stands for.
pub open spec fn then_dotted(done: Seq<u32>, rest: Option<Seq<u32>>) -> Option<Seq<u32>> {
    match rest {
        Some(more) => Some(done + more),
        None => None,
    }
}

/// The text of one digit.
fn digit_str(d: u32) -> (s: &'static str)
    requires
        d < 10,
    ensures
        s@ == seq![digit_char(d as nat)],
{
    proof {
        reveal_strlit("0");
        reveal_strlit("1");
        reveal_strlit("2");
        reveal_strlit("3");
        reveal_strlit("4");
        reveal_strlit("5");
        reveal_strlit("6");
        reveal_strlit("7");
        reveal_strlit("8");
        reveal_strlit("9");
    }
    let s = if d == 0 {
        "0"
    } else if d == 1 {
        "1"
    } else if d == 2 {
        "2"
    } else if d == 3 {
        "3"
    } else if d == 4 {
        "4"
    } else if d == 5 {
        "5"
    } else if d == 6 {
        "6"
    } else if d == 7 {
        "7"
    } else if d == 8 {
        "8"
    } else {
        "9"
    };
    assert(s@ =~= seq![digit_char(d as nat)]);
    s
}

/// The digits of `rev`, last first.
pub open spec fn digits_backwards(rev: Seq<u32>) -> Seq<char> {
    Seq::new(rev.len(), |i: int| digit_char(rev[rev.len() - 1 - i] as nat))
}

/// Appends the decimal numeral of `n` to `out`.
fn append_decimal(out: &mut String, n: u32)
    ensures
        final(out)@ == old(out)@ + decimal_text(n as nat),
{
    let mut rev: Vec<u32> = Vec::new();
    let mut m: u32 = n;
    while m >= 10
        invariant
            decimal_text(n as nat) == decimal_text(m as nat) + digits_backwards(rev@),
            forall|i: int| 0 <= i < rev@.len() ==> rev@[i] < 10,
        decreases m,
    {
        let ghost before = rev@;
        rev.push(m % 10);
        proof {
            assert(digits_backwards(rev@) =~= seq![digit_char((m % 10) as nat)]
                + digits_backwards(before));
            assert(decimal_text(m as nat) + digits_backwards(before) =~= decimal_text(
                (m / 10) as nat,
            ) + digits_backwards(rev@));
        }
        m = m / 10;
    }
    out.append(digit_str(m));
    let ghost head = out@;
    let mut i: usize = rev.len();
    while i > 0
        invariant
            0 <= i <= rev@.len(),
            forall|j: int| 0 <= j < rev@.len() ==> rev@[j] < 10,
            out@ == head + digits_backwards(rev@).take(rev@.len() - i),
        decreases i,
    {
        i -= 1;
        out.append(digit_str(rev[i]));
        assert(out@ =~= head + digits_backwards(rev@).take(rev@.len() - i));
    }
    assert(digits_backwards(rev@).take(rev@.len() as int) =~= digits_backwards(rev@));
    assert(out@ =~= old(out)@ + decimal_text(n as nat));
}

impl Oid {
    /// The identifier that dotted decimal text such as `1.3.6.1` stands for.
    ///
    /// Fails with `InvalidIdentifier` exactly when `text` is not made of
    /// numerals that fit in 32 bits with single dots between them.
    pub fn parse(text: &str) -> (r: Result<Oid, CodecError>)
        ensures
            match r {
                Ok(oid) => dotted(text@) == Some(oid@),
                Err(e) => {
                    &&& dotted(text@) is None
                    &&& e == CodecError::InvalidIdentifier
                },
            },
    {
        let ghost s = text@;
        if !text.is_ascii() {
            proof {
                if dotted(s) is Some {
                    lemma_dotted_chars(s);
                }
            }
            return Err(CodecError::InvalidIdentifier);
        }
        let bytes = text.as_bytes();
        proof {
            vstd::utf8::is_ascii_chars_encode_utf8(s);
        }
        let n: usize = bytes.len();
        let mut parts: Vec<u32> = Vec::new();
        let mut pos: usize = 0;
        assert(s.skip(0) =~= s);
        assert(parts@ + Seq::<u32>::empty() =~= parts@);
        loop
            invariant_except_break
                dotted(s) == then_dotted(parts@, dotted(s.skip(pos as int))),
            invariant
                0 <= pos <= n,
                s == text@,
                n == s.len(),
                bytes@.len() == n,
                forall|i: int| 0 <= i < n ==> s[i] as u8 == #[trigger] bytes@[i],
                forall|i: int| 0 <= i < n ==> '\0' <= #[trigger] s[i] <= '\u{7f}',
            ensures
                parts@.len() >= 1,
                dotted(s) == Some(parts@),
            decreases n - pos,
        {
            let ghost tail = s.skip(pos as int);
            let mut end: usize = pos;
            while end < n && bytes[end] != 0x2e
                invariant
                    pos <= end <= n,
                    n == s.len(),
                    bytes@.len() == n,
                    forall|i: int| 0 <= i < n ==> s[i] as u8 == #[trigger] bytes@[i],
                    forall|i: int| 0 <= i < n ==> '\0' <= #[trigger] s[i] <= '\u{7f}',
                    forall|i: int| pos <= i < end ==> s[i] != '.',
                decreases n - end,
            {
                assert(s[end as int] as u8 == bytes@[end as int]);
                end += 1;
            }
            proof {
                if end < n {
                    assert(s[end as int] as u8 == bytes@[end as int]);
                }
                lemma_first_dot_at(tail, end - pos);
                assert(tail.take(end - pos) =~= s.subrange(pos as int, end as int));
                if end < n {
                    assert(tail.skip(end - pos + 1) =~= s.skip(end + 1));
                }
            }
            let ghost piece = s.subrange(pos as int, end as int);
            assert(numeral(piece) is None ==> dotted(tail) is None);
            assert(numeral(piece) matches Some(v) && v > u32::MAX ==> dotted(tail) is None);
            assert(dotted(tail) is None ==> dotted(s) is None);
            if end == pos {
                return Err(CodecError::InvalidIdentifier);
            }
            let mut value: u64 = 0;
            let mut k: usize = pos;
            while k < end
                invariant
                    pos <= k <= end <= n,
                    s == text@,
                    n == s.len(),
                    bytes@.len() == n,
                    forall|i: int| 0 <= i < n ==> s[i] as u8 == #[trigger] bytes@[i],
                    forall|i: int| 0 <= i < n ==> '\0' <= #[trigger] s[i] <= '\u{7f}',
                    piece == s.subrange(pos as int, end as int),
                    value <= u32::MAX,
                    k == pos ==> value == 0,
                    k > pos ==> numeral(piece.take(k - pos)) == Some(value as nat),
                    dotted(tail) is None ==> dotted(s) is None,
                    numeral(piece) is None ==> dotted(tail) is None,
                    numeral(piece) matches Some(v) && v > u32::MAX ==> dotted(tail) is None,
                decreases end - k,
            {
                let b: u8 = bytes[k];
                assert(s[k as int] as u8 == b);
                assert(piece[k - pos] == s[k as int]);
                if b < 0x30 || b > 0x39 {
                    proof {
                        if numeral(piece) is Some {
                            lemma_numeral_prefix(piece, k - pos + 1);
                        }
                    }
                    return Err(CodecError::InvalidIdentifier);
                }
                let next: u64 = value * 10 + (b - 0x30) as u64;
                proof {
                    let longer = piece.take(k - pos + 1);
                    assert(longer.last() == s[k as int]);
                    assert(longer.drop_last() =~= piece.take(k - pos));
                    assert(numeral(longer) == Some(next as nat));
                    if numeral(piece) is Some {
                        lemma_numeral_prefix(piece, k - pos + 1);
                    }
                }
                if next > 0xffff_ffff {
                    return Err(CodecError::InvalidIdentifier);
                }
                value = next;
                k += 1;
            }
            assert(piece.take(end - pos) =~= piece);
            let ghost before = parts@;
            parts.push(value as u32);
            if end == n {
                assert(before + seq![value as u32] =~= parts@);
                break ;
            }
            proof {
                let rest = dotted(s.skip(end + 1));
                if let Some(more) = rest {
                    assert(before + (seq![value as u32] + more) =~= parts@ + more);
                }
            }
            pos = end + 1;
        }
        Oid::from_vec(parts)
    }

    /// The dotted decimal text of this identifier, such as `1.3.6.1`.
    pub fn to_string(&self) -> (text: String)
        ensures
            text@ == dotted_text(self@),
    {
        proof {
            use_type_invariant(self);
            reveal_strlit(".");
        }
        let n: usize = self.parts.len();
        let mut out = String::new();
        let mut j: usize = 0;
        assert(self@.skip(0) =~= self@);
        assert(out@ + dotted_text(self@) =~= dotted_text(self@));
        while j < n
            invariant
                0 <= j <= n,
                n == self@.len(),
                self.parts@ == self@,
                "."@ == seq!['.'],
                out@ + dotted_text(self@.skip(j as int)) == dotted_text(self@),
            decreases n - j,
        {
            let ghost before = out@;
            let ghost tail = self@.skip(j as int);
            append_decimal(&mut out, self.parts[j]);
            assert(tail.drop_first() =~= self@.skip(j + 1));
            if j + 1 < n {
                out.append(".");
                assert(before + dotted_text(tail) =~= out@ + dotted_text(self@.skip(j + 1)));
            } else {
                assert(dotted_text(self@.skip(j + 1)) =~= Seq::<char>::empty());
                assert(out@ + dotted_text(self@.skip(j + 1)) =~= before + dotted_text(tail));
            }
            j += 1;
        }
        assert(dotted_text(self@.skip(n as int)) =~= Seq::<char>::empty());
        assert(out@ =~= out@ + dotted_text(self@.skip(n as int)));
        out
    }
}

impl FromStr for Oid {
    type Err = CodecError;

    /// The identifier that dotted decimal text stands for; see [`Oid::parse`].
    fn from_str(s: &str) -> (r: Result<Self, CodecError>)
        ensures
            match r {
                Ok(oid) => dotted(s@) == Some(oid@),
                Err(e) => {
                    &&& dotted(s@) is None
                    &&& e == CodecError::InvalidIdentifier
                },
            },
    {
        Oid::parse(s)
    }
}

} // verus!
