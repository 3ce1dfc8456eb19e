//! Values shared by every stage: integer literals, spans and spanned values.
use vstd::prelude::*;
use vstd::string::StringSliceAdditionalSpecFns;

verus! {

/// The bytes of a string literal, as they stand in UTF-8.
pub open spec fn lit(s: &str) -> Seq<u8> {
    s.spec_bytes()
}

/// A half-open byte range `[start, end)` into one source text.
#[derive(Debug, Clone, Copy, PartialEq, Eq, Structural)]
pub struct Span {
    pub start: usize,
    pub end: usize,
}

impl Span {
    /// Whether the span is one of a text of `len` bytes: it does not end
    /// before it starts, nor behind the text.
    pub open spec fn within(&self, len: int) -> bool {
        self.start <= self.end && self.end <= len
    }

    /// The span from `start` to `end`.
    pub fn new(start: usize, end: usize) -> (r: Span)
        ensures
            r.start == start,
            r.end == end,
    {
        Span { start, end }
    }
}

/// An integer literal: a non-negative magnitude in the widest unsigned width,
/// or a value of the widest signed width.
#[derive(Debug, Clone, Copy, PartialEq, Eq, Structural)]
pub enum VarInt {
    Pos(u64),
    Neg(i64),
}

/// The ASCII digit that stands for `d`, for `d` below ten.
pub open spec fn digit_byte(d: nat) -> u8 {
    (0x30 + d) as u8
}

/// The decimal digits of `n`, most significant first, without leading zeros.
pub open spec fn decimal(n: nat) -> Seq<u8>
    decreases n,
{
    if n < 10 {
        seq![digit_byte(n)]
    } else {
        decimal(n / 10).push(digit_byte(n % 10))
    }
}

/// Appends the decimal digits of `n` to `out`.
pub fn push_decimal(out: &mut Vec<u8>, n: u128)
    ensures
        final(out)@ == old(out)@ + decimal(n as nat),
    decreases n,
{
    if n < 10 {
        let d: u8 = 0x30u8 + (n as u8);
        out.push(d);
        assert(final(out)@ =~= old(out)@ + decimal(n as nat));
    } else {
        push_decimal(out, n / 10);
        let d: u8 = 0x30u8 + ((n % 10) as u8);
        out.push(d);
        assert(final(out)@ =~= old(out)@ + decimal(n as nat));
    }
}

impl VarInt {
    /// The mathematical value of the literal.
    pub open spec fn value(&self) -> int {
        match *self {
            VarInt::Pos(p) => p as int,
            VarInt::Neg(n) => n as int,
        }
    }

    /// The decimal text of the literal, with a minus sign where it is negative.
    pub open spec fn text(&self) -> Seq<u8> {
        if self.value() < 0 {
            lit("-") + decimal((-self.value()) as nat)
        } else {
            decimal(self.value() as nat)
        }
    }

    /// Appends the decimal text of the literal to `out`.
    pub fn write_text(&self, out: &mut Vec<u8>)
        ensures
            final(out)@ == old(out)@ + self.text(),
    {
        match *self {
            VarInt::Pos(p) => {
                push_decimal(out, p as u128);
            },
            VarInt::Neg(n) => {
                if n < 0 {
                    out.extend_from_slice("-".as_bytes());
                    let magnitude: u128 = ((-(n + 1)) as u128) + 1;
                    push_decimal(out, magnitude);
                    assert(final(out)@ =~= old(out)@ + self.text());
                } else {
                    push_decimal(out, n as u128);
                }
            },
        }
    }

    /// The decimal text of the literal.
    pub fn to_text(&self) -> (r: Vec<u8>)
        ensures
            r@ == self.text(),
    {
        let mut out: Vec<u8> = Vec::new();
        self.write_text(&mut out);
        assert(out@ =~= self.text());
        out
    }
}

/// A value paired with the span it was derived from.
#[derive(Debug, Clone, Copy, PartialEq)]
pub struct Spanned<T> {
    pub inner: T,
    pub span: Span,
}

impl<T> Spanned<T> {
    /// Pairs a value with its span.
    #[must_use]
    pub fn new(inner: T, span: Span) -> (r: Self)
        ensures
            r.inner == inner,
            r.span == span,
    {
        Self { inner, span }
    }

    /// The span.
    pub fn as_span(&self) -> (r: Span)
        ensures
            r == self.span,
    {
        self.span
    }

    /// The value and the span, apart.
    pub fn split(self) -> (r: (T, Span))
        ensures
            r.0 == self.inner,
            r.1 == self.span,
    {
        (self.inner, self.span)
    }
}

impl<T: View> View for Spanned<T> {
    type V = Spanned<T::V>;

    open spec fn view(&self) -> Spanned<T::V> {
        Spanned { inner: self.inner@, span: self.span }
    }
}

impl<T> From<(T, Span)> for Spanned<T> {
    fn from(pair: (T, Span)) -> (r: Self) {
        Self { inner: pair.0, span: pair.1 }
    }
}

impl<T> vstd::std_specs::convert::FromSpecImpl<(T, Span)> for Spanned<T> {
    open spec fn obeys_from_spec() -> bool {
        true
    }

    open spec fn from_spec(pair: (T, Span)) -> Self {
        Spanned { inner: pair.0, span: pair.1 }
    }
}

} // verus!
