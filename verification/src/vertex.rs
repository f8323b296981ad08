//! Vertices and the decimal numerals their coordinates are written in.

use vstd::prelude::*;

verus! {

/// Whether the byte is an ASCII digit.
pub open spec fn is_digit(b: u8) -> bool {
    0x30 <= b <= 0x39
}

/// Whether the byte is `+` or `-`.
pub open spec fn is_sign(b: u8) -> bool {
    b == 0x2b || b == 0x2d
}

/// The number of consecutive ASCII digits in `t` from index `from` on.
pub open spec fn digits_len(t: Seq<u8>, from: int) -> nat
    decreases t.len() - from,
{
    if 0 <= from < t.len() && is_digit(t[from]) {
        1 + digits_len(t, from + 1)
    } else {
        0
    }
}

/// The number that a run of ASCII digits spells in base ten.
pub open spec fn decimal(digits: Seq<u8>) -> nat
    decreases digits.len(),
{
    if digits.len() == 0 {
        0
    } else {
        decimal(digits.drop_last()) * 10 + (digits.last() - 0x30) as nat
    }
}

/// Whether `t` is a numeral: a sign, one or more digits and, optionally, a
/// point followed by one or more digits.
pub open spec fn is_numeral(t: Seq<u8>) -> bool {
    let whole = digits_len(t, 1) as int;
    let fraction = digits_len(t, 2 + whole) as int;
    &&& t.len() >= 2
    &&& is_sign(t[0])
    &&& whole >= 1
    &&& (1 + whole == t.len() || (t[1 + whole] == 0x2e && fraction >= 1 && 2 + whole + fraction
        == t.len()))
}

/// The number of digits that the numeral `t` has after its point.
pub open spec fn numeral_scale(t: Seq<u8>) -> nat {
    let whole = digits_len(t, 1) as int;
    if 1 + whole < t.len() {
        (t.len() - whole - 2) as nat
    } else {
        0
    }
}

/// The digits of the numeral `t`, its point left out, as a number.
///
/// The numeral stands for this number over ten to the power of its
/// scale, negated where its sign is `-`.
pub open spec fn numeral_mantissa(t: Seq<u8>) -> nat {
    let whole = digits_len(t, 1) as int;
    decimal(t.subrange(1, 1 + whole) + t.subrange(t.len() - numeral_scale(t), t.len() as int))
}

/// A run of digits from `from` on ends inside `t` or at its end, and holds digits only.
pub proof fn lemma_digits_len(t: Seq<u8>, from: int)
    requires
        0 <= from <= t.len(),
    ensures
        from + digits_len(t, from) <= t.len(),
        forall|i: int| from <= i < from + digits_len(t, from) ==> is_digit(#[trigger] t[i]),
        from + digits_len(t, from) < t.len() ==> !is_digit(t[from + digits_len(t, from)]),
    decreases t.len() - from,
{
    if from < t.len() && is_digit(t[from]) {
        lemma_digits_len(t, from + 1);
    }
}

/// A run of digits spells no less than any of its beginnings.
pub proof fn lemma_decimal_grows(digits: Seq<u8>, k: int)
    requires
        0 <= k <= digits.len(),
        forall|i: int| 0 <= i < digits.len() ==> is_digit(#[trigger] digits[i]),
    ensures
        decimal(digits.take(k)) <= decimal(digits),
    decreases digits.len() - k,
{
    if k < digits.len() {
        lemma_decimal_grows(digits, k + 1);
        assert(digits.take(k + 1).drop_last() =~= digits.take(k));
    } else {
        assert(digits.take(k) =~= digits);
    }
}

/// Goes on reading a number in base ten: `acc` is what the digits
/// `before` spell, and the digits of `text` from index `from` up to index
/// `to` follow them. Gives the number that all of them spell, unless it
/// is larger than a `u64` holds.
pub(crate) fn read_decimal(
    acc: u64,
    text: &[u8],
    from: usize,
    to: usize,
    Ghost(before): Ghost<Seq<u8>>,
) -> (value: Option<u64>)
    requires
        from <= to <= text.len(),
        acc == decimal(before),
        forall|i: int| 0 <= i < before.len() ==> is_digit(#[trigger] before[i]),
        forall|i: int| from <= i < to ==> is_digit(#[trigger] text@[i]),
    ensures
        match value {
            Some(n) => n == decimal(before + text@.subrange(from as int, to as int)),
            None => decimal(before + text@.subrange(from as int, to as int)) > u64::MAX,
        },
{
    let ghost digits = before + text@.subrange(from as int, to as int);
    let mut value = acc;
    let mut i = from;
    proof {
        assert(digits.take(before.len() as int) =~= before);
    }
    while i < to
        invariant
            from <= i <= to <= text.len(),
            digits == before + text@.subrange(from as int, to as int),
            forall|j: int| 0 <= j < digits.len() ==> is_digit(#[trigger] digits[j]),
            value == decimal(digits.take(before.len() + i - from)),
        decreases to - i,
    {
        let ghost k = before.len() + i - from;
        proof {
            assert(digits.take(k + 1).drop_last() =~= digits.take(k));
            assert(digits[k] == text@[i as int]);
            lemma_decimal_grows(digits, k + 1);
        }
        let digit = (text[i] - 0x30) as u64;
        if value > (u64::MAX - digit) / 10 {
            return None;
        }
        value = value * 10 + digit;
        i += 1;
    }
    proof {
        assert(digits.take(digits.len() as int) =~= digits);
    }
    Some(value)
}

/// A signed decimal numeral, kept exactly as it was written.
///
/// The text is what a floating-point conversion takes: converting is left to
/// the caller, so that nothing is rounded here.
#[derive(Debug, PartialEq, Eq)]
pub struct Number {
    text: Vec<u8>,
}

impl View for Number {
    type V = Seq<u8>;

    closed spec fn view(&self) -> Seq<u8> {
        self.text@
    }
}

impl Clone for Number {
    fn clone(&self) -> (copy: Self)
        ensures
            copy@ == self@,
    {
        proof {
            use_type_invariant(self);
        }
        Number { text: vstd::slice::slice_to_vec(self.text.as_slice()) }
    }
}

impl Number {
    #[verifier::type_invariant]
    spec fn well_formed(self) -> bool {
        is_numeral(self.text@)
    }

    /// The numeral that `text` spells, if it spells one.
    pub fn parse(text: &[u8]) -> (n: Option<Number>)
        ensures
            n is Some <==> is_numeral(text@),
            n matches Some(number) ==> number@ == text@,
    {
        let len = text.len();
        if len < 2 || !(text[0] == 0x2b || text[0] == 0x2d) {
            return None;
        }
        let whole_end = scan_digits(text, 1);
        if whole_end == 1 {
            return None;
        }
        if whole_end < len {
            if text[whole_end] != 0x2e {
                return None;
            }
            let fraction_end = scan_digits(text, whole_end + 1);
            if fraction_end == whole_end + 1 || fraction_end != len {
                return None;
            }
        }
        let copy = vstd::slice::slice_to_vec(text);
        Some(Number { text: copy })
    }

    /// The numeral that `text` is known to spell.
    pub(crate) fn from_numeral(text: &[u8]) -> (number: Number)
        requires
            is_numeral(text@),
        ensures
            number@ == text@,
    {
        Number { text: vstd::slice::slice_to_vec(text) }
    }

    /// The bytes of the numeral, sign first.
    pub fn as_bytes(&self) -> (text: &Vec<u8>)
        ensures
            text@ == self@,
            is_numeral(text@),
    {
        proof {
            use_type_invariant(self);
        }
        &self.text
    }

    /// The number of digits after the point: the numeral stands for a
    /// whole number of units of ten to the power of minus this.
    pub fn scale(&self) -> (scale: usize)
        ensures
            scale == numeral_scale(self@),
    {
        proof {
            use_type_invariant(self);
        }
        let whole_end = scan_digits(self.text.as_slice(), 1);
        if whole_end < self.text.len() {
            self.text.len() - whole_end - 1
        } else {
            0
        }
    }

    /// The digits of the numeral, its point left out, as a number,
    /// unless it is larger than a `u64` holds.
    ///
    /// The numeral stands for this number over ten to the power of
    /// [`scale`](Self::scale), negated where
    /// [`is_negative`](Self::is_negative) holds.
    pub fn mantissa(&self) -> (mantissa: Option<u64>)
        ensures
            match mantissa {
                Some(n) => n == numeral_mantissa(self@),
                None => numeral_mantissa(self@) > u64::MAX,
            },
    {
        proof {
            use_type_invariant(self);
            lemma_digits_len(self.text@, 1);
        }
        let text = self.text.as_slice();
        let len = text.len();
        let whole_end = scan_digits(text, 1);
        let fraction = if whole_end < len {
            whole_end + 1
        } else {
            len
        };
        proof {
            lemma_digits_len(text@, fraction as int);
            assert(Seq::<u8>::empty() + text@.subrange(1, whole_end as int) =~= text@.subrange(
                1,
                whole_end as int,
            ));
        }
        match read_decimal(0, text, 1, whole_end, Ghost(Seq::empty())) {
            Some(whole) => read_decimal(
                whole,
                text,
                fraction,
                len,
                Ghost(text@.subrange(1, whole_end as int)),
            ),
            None => {
                proof {
                    let whole = text@.subrange(1, whole_end as int);
                    let digits = whole + text@.subrange(fraction as int, len as int);
                    assert(digits.take(whole.len() as int) =~= whole);
                    lemma_decimal_grows(digits, whole.len() as int);
                }
                None
            },
        }
    }

    /// Whether the numeral is written with a minus sign.
    pub fn is_negative(&self) -> (negative: bool)
        ensures
            negative == (self@[0] == 0x2d),
    {
        proof {
            use_type_invariant(self);
        }
        self.text[0] == 0x2d
    }
}

/// The index at which the run of digits that starts at `from` ends.
pub fn scan_digits(text: &[u8], from: usize) -> (end: usize)
    requires
        from <= text.len(),
    ensures
        end == from + digits_len(text@, from as int),
        end <= text.len(),
{
    let mut end = from;
    proof {
        lemma_digits_len(text@, from as int);
    }
    while end < text.len() && 0x30 <= text[end] && text[end] <= 0x39
        invariant
            from <= end <= text.len(),
            from + digits_len(text@, from as int) == end + digits_len(text@, end as int),
        decreases text.len() - end,
    {
        end += 1;
    }
    end
}

/// A point of a plane: three coordinates.
#[derive(Debug, PartialEq, Eq)]
pub struct Vertex {
    /// East/West.
    pub x: Number,
    /// Up/Down.
    pub y: Number,
    /// North/South.
    pub z: Number,
}

/// A vertex as a mathematical value: the text of its three numerals.
pub struct VertexView {
    pub x: Seq<u8>,
    pub y: Seq<u8>,
    pub z: Seq<u8>,
}

impl View for Vertex {
    type V = VertexView;

    open spec fn view(&self) -> VertexView {
        VertexView { x: self.x@, y: self.y@, z: self.z@ }
    }
}

impl Clone for Vertex {
    fn clone(&self) -> (copy: Self)
        ensures
            copy@ == self@,
    {
        Vertex { x: self.x.clone(), y: self.y.clone(), z: self.z.clone() }
    }
}

impl VertexView {
    /// Whether all three coordinates are numerals.
    pub open spec fn well_formed(self) -> bool {
        is_numeral(self.x) && is_numeral(self.y) && is_numeral(self.z)
    }
}

/// Three vertices that make a triangle.
#[derive(Clone, Debug)]
pub struct TriangleMesh(pub Vertex, pub Vertex, pub Vertex);

} // verus!
