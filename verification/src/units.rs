//! Size units and the fixed-point formatting of byte counts.
use vstd::prelude::*;

use crate::text::{spec_decimal, spec_digit, decimal_string, push_decimal};

verus! {

/// The unit a byte count is displayed in. Each unit scales by a fixed
/// power of 1024; the selection applies uniformly to every record of a run.
#[derive(Copy, Clone, PartialEq, Eq, Structural, Debug)]
pub enum SizeUnit {
    Bytes,
    Kilobytes,
    Megabytes,
    Gigabytes,
}

impl SizeUnit {
    /// Number of bytes that one of this unit stands for.
    pub open spec fn spec_divisor(self) -> nat {
        match self {
            SizeUnit::Bytes => 1,
            SizeUnit::Kilobytes => 1024,
            SizeUnit::Megabytes => 1024 * 1024,
            SizeUnit::Gigabytes => 1024 * 1024 * 1024,
        }
    }

    pub fn divisor(self) -> (r: u64)
        ensures
            r == self.spec_divisor(),
    {
        match self {
            SizeUnit::Bytes => 1,
            SizeUnit::Kilobytes => 1024,
            SizeUnit::Megabytes => 1024 * 1024,
            SizeUnit::Gigabytes => 1024 * 1024 * 1024,
        }
    }

    /// The suffix that `format_size` appends after the number.
    pub open spec fn spec_suffix(self) -> Seq<char> {
        match self {
            SizeUnit::Bytes => seq!['B'],
            SizeUnit::Kilobytes => seq!['K', 'B'],
            SizeUnit::Megabytes => seq!['M', 'B'],
            SizeUnit::Gigabytes => seq!['G', 'B'],
        }
    }

    pub fn suffix(self) -> (r: &'static str)
        ensures
            r@ == self.spec_suffix(),
    {
        proof {
            reveal_strlit("B");
            reveal_strlit("KB");
            reveal_strlit("MB");
            reveal_strlit("GB");
        }
        let r = match self {
            SizeUnit::Bytes => "B",
            SizeUnit::Kilobytes => "KB",
            SizeUnit::Megabytes => "MB",
            SizeUnit::Gigabytes => "GB",
        };
        proof {
            assert(r@ =~= self.spec_suffix());
        }
        r
    }

    /// The unit's long name, as the run announcement spells it.
    pub open spec fn spec_long_name(self) -> Seq<char> {
        match self {
            SizeUnit::Bytes => seq!['B', 'y', 't', 'e', 's'],
            SizeUnit::Kilobytes => seq!['K', 'i', 'l', 'o', 'B', 'y', 't', 'e', 's'],
            SizeUnit::Megabytes => seq!['M', 'e', 'g', 'a', 'b', 'y', 't', 'e', 's'],
            SizeUnit::Gigabytes => seq!['G', 'i', 'g', 'a', 'b', 'y', 't', 'e', 's'],
        }
    }

    pub fn long_name(self) -> (r: &'static str)
        ensures
            r@ == self.spec_long_name(),
    {
        proof {
            reveal_strlit("Bytes");
            reveal_strlit("KiloBytes");
            reveal_strlit("Megabytes");
            reveal_strlit("Gigabytes");
        }
        let r = match self {
            SizeUnit::Bytes => "Bytes",
            SizeUnit::Kilobytes => "KiloBytes",
            SizeUnit::Megabytes => "Megabytes",
            SizeUnit::Gigabytes => "Gigabytes",
        };
        proof {
            assert(r@ =~= self.spec_long_name());
        }
        r
    }
}

/// The scaled size in hundredths of the unit, rounded to the nearest
/// hundredth with halves rounding up.
pub open spec fn spec_hundredths(size: nat, unit: SizeUnit) -> nat {
    (100 * size + unit.spec_divisor() / 2) / unit.spec_divisor()
}

/// The displayed numeric portion of `format_size`, in hundredths of the
/// active unit. Bytes are shown as an exact integer, so their numeric
/// portion is the count itself.
pub open spec fn spec_numeric_hundredths(size: nat, unit: SizeUnit) -> nat {
    if unit == SizeUnit::Bytes {
        100 * size
    } else {
        spec_hundredths(size, unit)
    }
}

/// The display string for `size` bytes in `unit`: the exact integer and
/// `B` for bytes, otherwise the scaled value with exactly two fractional
/// digits and the unit's suffix.
pub open spec fn spec_format_size(size: nat, unit: SizeUnit) -> Seq<char> {
    if unit == SizeUnit::Bytes {
        spec_decimal(size) + seq![' ', 'B']
    } else {
        let h = spec_hundredths(size, unit);
        spec_decimal(h / 100) + seq!['.', spec_digit((h % 100) / 10), spec_digit(h % 10)]
            + seq![' '] + unit.spec_suffix()
    }
}

/// Formats a byte count in the given unit.
pub fn format_size(size: u64, unit: SizeUnit) -> (r: String)
    ensures
        r@ == spec_format_size(size as nat, unit),
{
    if unit == SizeUnit::Bytes {
        let mut out = decimal_string(size);
        proof {
            reveal_strlit(" B");
            assert(" B"@ =~= seq![' ', 'B']);
        }
        out.append(" B");
        out
    } else {
        let d: u64 = unit.divisor();
        let h128: u128 = ((size as u128) * 100 + (d as u128) / 2) / (d as u128);
        proof {
            lemma_hundredths_fits(size as nat, unit);
        }
        let h: u64 = h128 as u64;
        let mut out = decimal_string(h / 100);
        proof {
            reveal_strlit(".");
            assert("."@ =~= seq!['.']);
            reveal_strlit(" ");
            assert(" "@ =~= seq![' ']);
        }
        out.append(".");
        push_decimal_pair(&mut out, h % 100);
        out.append(" ");
        out.append(unit.suffix());
        proof {
            assert(out@ =~= spec_format_size(size as nat, unit));
        }
        out
    }
}

/// Appends a value below 100 as exactly two digits.
fn push_decimal_pair(out: &mut String, f: u64)
    requires
        f < 100,
    ensures
        final(out)@ == old(out)@ + seq![spec_digit((f / 10) as nat), spec_digit((f % 10) as nat)],
{
    push_decimal(out, f / 10);
    push_decimal(out, f % 10);
}

/// A scaled unit keeps the hundredths below `u64::MAX`, so the fixed-point
/// arithmetic in `format_size` cannot overflow.
proof fn lemma_hundredths_fits(size: nat, unit: SizeUnit)
    requires
        size <= u64::MAX,
        unit != SizeUnit::Bytes,
    ensures
        spec_hundredths(size, unit) < u64::MAX,
{
    let d = unit.spec_divisor();
    assert(d >= 1024 && d / 2 <= 1024 * 1024 * 1024);
    let x = 100 * size + d / 2;
    vstd::arithmetic::div_mod::lemma_div_is_ordered_by_denominator(x as int, 1024, d as int);
    assert((x as int) < 1024 * (u64::MAX as int));
    vstd::arithmetic::div_mod::lemma_multiply_divide_lt(x as int, 1024, u64::MAX as int);
}

/// The size display is digits, a point, a space and the suffix: never a
/// newline.
pub proof fn lemma_format_size_free_of_newline(size: nat, unit: SizeUnit)
    ensures
        !spec_format_size(size, unit).contains('\n'),
{
    let s = spec_format_size(size, unit);
    if unit == SizeUnit::Bytes {
        crate::text::lemma_decimal_free_of_newline(size);
        if s.contains('\n') {
            let k = choose|k: int| 0 <= k < s.len() && s[k] == '\n';
            let d = spec_decimal(size);
            if k < d.len() {
                assert(s[k] == d[k]);
            }
        }
    } else {
        let h = spec_hundredths(size, unit);
        crate::text::lemma_decimal_free_of_newline(h / 100);
        if s.contains('\n') {
            let k = choose|k: int| 0 <= k < s.len() && s[k] == '\n';
            let d = spec_decimal(h / 100);
            if k < d.len() {
                assert(s[k] == d[k]);
            } else if k < d.len() + 3 {
                assert(s[k] == seq!['.', spec_digit((h % 100) / 10), spec_digit(h % 10)][k
                    - d.len()]);
                assert(spec_digit((h % 100) / 10) != '\n');
                assert(spec_digit(h % 10) != '\n');
            } else if k == d.len() + 3 {
                assert(s[k] == ' ');
            } else {
                assert(s[k] == unit.spec_suffix()[k - d.len() - 4]);
            }
        }
    }
}

/// Doubling the byte count doubles the numeric portion that `format_size`
/// displays, to within one hundredth of the unit; for bytes, where the
/// display is an exact integer, the doubling is exact.
pub proof fn lemma_format_size_doubling(size: nat, unit: SizeUnit)
    ensures
        spec_numeric_hundredths(2 * size, unit) >= 2 * spec_numeric_hundredths(size, unit) - 1,
        spec_numeric_hundredths(2 * size, unit) <= 2 * spec_numeric_hundredths(size, unit) + 1,
        unit == SizeUnit::Bytes ==> spec_numeric_hundredths(2 * size, unit) == 2
            * spec_numeric_hundredths(size, unit),
{
    if unit != SizeUnit::Bytes {
        let d = unit.spec_divisor() as int;
        let h = d / 2;
        assert(d == 2 * h && h >= 512);
        let s = size as int;
        let a = 100 * s + h;
        let n = 200 * s + h;
        vstd::arithmetic::div_mod::lemma_fundamental_div_mod(a, d);
        let q = a / d;
        let r = a % d;
        assert(0 <= r < d && a == q * d + r);
        assert(spec_hundredths(size, unit) == q);
        assert(spec_hundredths(2 * size, unit) == n / d);
        vstd::arithmetic::div_mod::lemma_div_pos_is_pos(n, d);
        if 2 * r < h {
            assert(n == (2 * q - 1) * d + (2 * r + h)) by (nonlinear_arith)
                requires
                    a == q * d + r,
                    d == 2 * h,
                    a == 100 * s + h,
                    n == 200 * s + h,
            ;
            vstd::arithmetic::div_mod::lemma_fundamental_div_mod_converse(n, d, 2 * q - 1, 2 * r + h);
        } else if 2 * r - h < d {
            assert(n == (2 * q) * d + (2 * r - h)) by (nonlinear_arith)
                requires
                    a == q * d + r,
                    d == 2 * h,
                    a == 100 * s + h,
                    n == 200 * s + h,
            ;
            vstd::arithmetic::div_mod::lemma_fundamental_div_mod_converse(n, d, 2 * q, 2 * r - h);
        } else {
            assert(n == (2 * q + 1) * d + (2 * r - h - d)) by (nonlinear_arith)
                requires
                    a == q * d + r,
                    d == 2 * h,
                    a == 100 * s + h,
                    n == 200 * s + h,
            ;
            vstd::arithmetic::div_mod::lemma_fundamental_div_mod_converse(
                n,
                d,
                2 * q + 1,
                2 * r - h - d,
            );
        }
    }
}

} // verus!
