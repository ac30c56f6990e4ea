//! A slicer over another slicer, which changes each value on its way out:
//! days into milliseconds, and timestamps of other units into microseconds.

use crate::bytes::{
    as_signed, as_unsigned, i64_as_unsigned, le_bytes, le_value, lemma_pow256_values, push_u64_le,
    read_u32_le, read_u64_le, u32_as_signed, u64_as_signed,
};
use crate::error::{LayoutReason, ParquetResult};
use crate::slicer::DataPageSlicer;
use vstd::arithmetic::div_mod::{lemma_fundamental_div_mod, lemma_mul_mod_noop_left};
use vstd::prelude::*;

verus! {

/// A change of unit that is applied to each value of a page.
#[derive(Debug, Clone, Copy, PartialEq, Eq, Structural)]
pub enum ValueConversion {
    /// Days since the epoch, in 32 bits, become milliseconds since the epoch.
    DateDaysToMillis,
    /// Nanoseconds become microseconds: divided by 1000, towards zero.
    TimestampNanosToMicros,
    /// Milliseconds become microseconds: multiplied by 1000, modulo two to the 64th.
    TimestampMillisToMicros,
}

/// The milliseconds of a day.
pub const MILLIS_PER_DAY: i64 = 86_400_000;

/// The number of bytes of a value before the change.
pub open spec fn source_width(conversion: ValueConversion) -> nat {
    match conversion {
        ValueConversion::DateDaysToMillis => 4,
        _ => 8,
    }
}

/// The quotient of `a` by the positive `b`, rounded towards zero.
pub open spec fn trunc_div(a: int, b: int) -> int {
    if a >= 0 {
        a / b
    } else {
        -((-a) / b)
    }
}

/// The number that `x` becomes.
pub open spec fn converted_number(conversion: ValueConversion, x: int) -> int {
    match conversion {
        ValueConversion::DateDaysToMillis => x * 86_400_000,
        ValueConversion::TimestampNanosToMicros => trunc_div(x, 1000),
        ValueConversion::TimestampMillisToMicros => x * 1000,
    }
}

/// The eight bytes that the value `raw` becomes. A value that is shorter
/// than the change expects becomes zero.
pub open spec fn convert_value(conversion: ValueConversion, raw: Seq<u8>) -> Seq<u8> {
    let width = source_width(conversion);
    if raw.len() < width {
        le_bytes(0, 8)
    } else {
        let x = as_signed(le_value(raw.subrange(0, width as int)), width);
        le_bytes(as_unsigned(converted_number(conversion, x), 8), 8)
    }
}

/// The values of `inner`, each changed.
pub open spec fn converted_values(conversion: ValueConversion, inner: Seq<Seq<u8>>) -> Seq<
    Seq<u8>,
> {
    Seq::new(inner.len(), |i: int| convert_value(conversion, inner[i]))
}

/// The 64-bit pattern that the value `raw` becomes.
fn convert_to_pattern(conversion: ValueConversion, raw: &[u8]) -> (pattern: u64)
    ensures
        le_bytes(pattern as nat, 8) == convert_value(conversion, raw@),
{
    proof {
        lemma_pow256_values();
    }
    match conversion {
        ValueConversion::DateDaysToMillis => {
            if raw.len() < 4 {
                return 0;
            }
            let days: i32 = u32_as_signed(read_u32_le(raw, 0));
            i64_as_unsigned(days as i64 * MILLIS_PER_DAY)
        },
        ValueConversion::TimestampNanosToMicros => {
            if raw.len() < 8 {
                return 0;
            }
            let nanos: i64 = u64_as_signed(read_u64_le(raw, 0));
            let micros: i64 = if nanos >= 0 {
                nanos / 1000
            } else {
                let size: u64 = (-(nanos + 1)) as u64 + 1;
                -((size / 1000) as i64)
            };
            i64_as_unsigned(micros)
        },
        ValueConversion::TimestampMillisToMicros => {
            if raw.len() < 8 {
                return 0;
            }
            let pattern: u64 = read_u64_le(raw, 0);
            let wide: u128 = pattern as u128 * 1000;
            let low: u64 = (wide % 0x1_0000_0000_0000_0000) as u64;
            proof {
                let x = as_signed(pattern as nat, 8);
                let m = 0x1_0000_0000_0000_0000int;
                assert(pattern as int == x % m) by {
                    if x < 0 {
                        assert(x + m == pattern);
                        lemma_fundamental_div_mod(x, m);
                        assert(x % m == pattern as int) by (nonlinear_arith)
                            requires
                                x + m == pattern,
                                0 <= pattern < m,
                                m == 0x1_0000_0000_0000_0000int,
                        ;
                    }
                }
                lemma_mul_mod_noop_left(x, 1000, m);
                assert((x % m) * 1000 % m == (x * 1000) % m);
            }
            low
        },
    }
}

/// A slicer that hands out the values of another, each changed.
pub struct ValueConvertSlicer<T: DataPageSlicer> {
    inner: T,
    conversion: ValueConversion,
    scratch: Vec<u8>,
}

impl<T: DataPageSlicer> ValueConvertSlicer<T> {
    /// A slicer that hands out the values of `inner`, each changed by `conversion`.
    pub fn new(inner: T, conversion: ValueConversion) -> (slicer: Self)
        requires
            inner.inv(),
        ensures
            slicer.inv(),
            slicer.values() == converted_values(conversion, inner.values()),
            slicer.cursor() == inner.cursor(),
            slicer.end_reason() == inner.end_reason(),
            slicer.declared_rows() == inner.declared_rows(),
            slicer.size_estimate() == inner.size_estimate(),
    {
        ValueConvertSlicer { inner, conversion, scratch: Vec::new() }
    }
}

impl<T: DataPageSlicer> DataPageSlicer for ValueConvertSlicer<T> {
    closed spec fn inv(&self) -> bool {
        self.inner.inv()
    }

    closed spec fn values(&self) -> Seq<Seq<u8>> {
        converted_values(self.conversion, self.inner.values())
    }

    closed spec fn cursor(&self) -> Option<nat> {
        self.inner.cursor()
    }

    closed spec fn end_reason(&self) -> LayoutReason {
        self.inner.end_reason()
    }

    closed spec fn declared_rows(&self) -> usize {
        self.inner.declared_rows()
    }

    closed spec fn size_estimate(&self) -> usize {
        self.inner.size_estimate()
    }

    fn next_into(&mut self, dest: &mut Vec<u8>) -> (ok: bool) {
        self.scratch.clear();
        if !self.inner.next_into(&mut self.scratch) {
            return false;
        }
        let pattern: u64 = convert_to_pattern(self.conversion, self.scratch.as_slice());
        push_u64_le(dest, pattern);
        proof {
            assert(self.scratch@ =~= old(self).inner.values()[old(self).inner.cursor().unwrap() as int]);
        }
        true
    }

    fn skip(&mut self, count: usize) {
        self.inner.skip(count);
    }

    fn count(&self) -> (rows: usize) {
        self.inner.count()
    }

    fn data_size(&self) -> (size: usize) {
        self.inner.data_size()
    }

    fn result(&self) -> (res: ParquetResult<()>) {
        self.inner.result()
    }
}

} // verus!
