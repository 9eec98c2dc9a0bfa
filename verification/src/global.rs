//! Small decision helpers around the engine: classifying an input path from
//! its probes, rendering a duration as `HH:MM:SS.mmm` text, and comparing
//! dotted version strings numerically.

use vstd::prelude::*;

use crate::errors::{Error, PathError};
use crate::text::{ascii_view, find_byte, lemma_ascii_bytes_utf8, string_from_utf8};
use core::cmp::Ordering;
use vstd::slice::slice_subrange;
use vstd::string::{StrSliceExecFns, StringSliceAdditionalSpecFns};

verus! {

/// What kind of thing an input path points at.
#[derive(Debug, Clone, Copy, PartialEq, Eq, Hash, Structural)]
pub enum FileDir {
    File,
    Directory,
}

/// How an input is classified from its probes: missing paths are rejected, a
/// regular file wins over a directory, and anything else is unknown.
pub open spec fn spec_what(exists: bool, is_file: bool, is_dir: bool) -> Result<FileDir, Error> {
    if !exists {
        Err(Error::Path(PathError::Missing))
    } else if is_file {
        Ok(FileDir::File)
    } else if is_dir {
        Ok(FileDir::Directory)
    } else {
        Err(Error::Path(PathError::UnknownKind))
    }
}

impl FileDir {
    /// Classify an input from three probes of its path: whether it exists,
    /// is a regular file, is a directory.
    pub fn what(exists: bool, is_file: bool, is_dir: bool) -> (r: Result<FileDir, Error>)
        ensures
            r == spec_what(exists, is_file, is_dir),
    {
        if !exists {
            Err(Error::Path(PathError::Missing))
        } else if is_file {
            Ok(FileDir::File)
        } else if is_dir {
            Ok(FileDir::Directory)
        } else {
            Err(Error::Path(PathError::UnknownKind))
        }
    }
}

/// Whether `b` is an ASCII decimal digit.
pub open spec fn is_digit(b: u8) -> bool {
    0x30 <= b <= 0x39
}

/// The decimal digits of `n`, most significant first, as ASCII bytes.
pub open spec fn spec_decimal_digits(n: nat) -> Seq<u8>
    decreases n,
{
    if n < 10 {
        seq![(0x30 + n) as u8]
    } else {
        spec_decimal_digits(n / 10).push((0x30 + n % 10) as u8)
    }
}

/// `d` left-padded with ASCII zeros to at least `width` bytes.
pub open spec fn spec_zero_pad(d: Seq<u8>, width: int) -> Seq<u8> {
    if d.len() >= width {
        d
    } else {
        Seq::new((width - d.len()) as nat, |i: int| 0x30u8) + d
    }
}

/// The `HH:MM:SS.mmm` rendering of a duration, as ASCII bytes: hours,
/// minutes and seconds two digits wide (hours wider when needed), the
/// milliseconds three.
pub open spec fn spec_duration_bytes(total_secs: nat, millis: nat) -> Seq<u8> {
    spec_zero_pad(spec_decimal_digits(total_secs / 3600), 2) + seq![0x3au8] + spec_zero_pad(
        spec_decimal_digits((total_secs % 3600) / 60),
        2,
    ) + seq![0x3au8] + spec_zero_pad(spec_decimal_digits(total_secs % 60), 2) + seq![0x2eu8]
        + spec_zero_pad(spec_decimal_digits(millis), 3)
}

/// The `HH:MM:SS.mmm` rendering of a duration, as text.
pub open spec fn spec_format_duration(total_secs: nat, millis: nat) -> Seq<char> {
    ascii_view(spec_duration_bytes(total_secs, millis))
}

/// Decimal digits are ASCII digit bytes.
proof fn lemma_decimal_digits_ascii(n: nat)
    ensures
        forall|i: int|
            0 <= i < spec_decimal_digits(n).len() ==> is_digit(#[trigger] spec_decimal_digits(n)[i]),
    decreases n,
{
    if n < 10 {
        assert(is_digit((0x30 + n) as u8));
    } else {
        lemma_decimal_digits_ascii(n / 10);
        let d = spec_decimal_digits(n);
        let prev = spec_decimal_digits(n / 10);
        assert forall|i: int| 0 <= i < d.len() implies is_digit(#[trigger] d[i]) by {
            if i < prev.len() {
                assert(d[i] == prev[i]);
            } else {
                assert(d[i] == (0x30 + n % 10) as u8);
            }
        }
    }
}

/// Tail-style formulation of the digit expansion: the digits of `v`
/// followed by `acc`.
spec fn spec_digits_rec(v: nat, acc: Seq<u8>) -> Seq<u8>
    decreases v,
{
    if v < 10 {
        seq![(0x30 + v) as u8] + acc
    } else {
        spec_digits_rec(v / 10, seq![(0x30 + v % 10) as u8] + acc)
    }
}

/// The tail-style expansion agrees with [`spec_decimal_digits`].
proof fn lemma_digits_rec(v: nat, acc: Seq<u8>)
    ensures
        spec_digits_rec(v, acc) == spec_decimal_digits(v) + acc,
    decreases v,
{
    if v < 10 {
        assert(spec_digits_rec(v, acc) =~= spec_decimal_digits(v) + acc);
    } else {
        lemma_digits_rec(v / 10, seq![(0x30 + v % 10) as u8] + acc);
        assert(spec_decimal_digits(v / 10) + (seq![(0x30 + v % 10) as u8] + acc)
            =~= spec_decimal_digits(v) + acc);
    }
}

/// Append `value`'s decimal digits to `out`, left-padded with zeros to at
/// least `width` bytes.
fn push_decimal_padded(out: &mut Vec<u8>, value: u64, width: usize)
    ensures
        final(out)@ == old(out)@ + spec_zero_pad(spec_decimal_digits(value as nat), width as int),
{
    let ghost digits = spec_decimal_digits(value as nat);
    let mut tmp: Vec<u8> = Vec::new();
    let mut v: u64 = value;
    proof {
        lemma_digits_rec(value as nat, Seq::empty());
        assert(digits + Seq::<u8>::empty() =~= digits);
    }
    loop
        invariant_except_break
            digits == spec_digits_rec(v as nat, tmp@.reverse()),
        ensures
            digits == tmp@.reverse(),
        decreases v,
    {
        let d: u8 = 0x30 + (v % 10) as u8;
        let ghost tmp_before = tmp@;
        tmp.push(d);
        proof {
            assert(tmp@.reverse() =~= seq![d] + tmp_before.reverse());
        }
        if v < 10 {
            proof {
                assert(spec_digits_rec(v as nat, tmp_before.reverse()) == seq![d]
                    + tmp_before.reverse());
            }
            break ;
        }
        v = v / 10;
    }
    let n_digits = tmp.len();
    proof {
        assert(digits.len() == n_digits);
    }
    let mut k: usize = 0;
    let pad: usize = if n_digits < width {
        width - n_digits
    } else {
        0
    };
    while k < pad
        invariant
            k <= pad,
            out@ == old(out)@ + Seq::new(k as nat, |i: int| 0x30u8),
        decreases pad - k,
    {
        let ghost out_before = out@;
        out.push(0x30);
        proof {
            assert(out@ =~= old(out)@ + Seq::new((k + 1) as nat, |i: int| 0x30u8));
        }
        k = k + 1;
    }
    let mut i: usize = tmp.len();
    while i > 0
        invariant
            i <= n_digits,
            n_digits == tmp@.len() == digits.len(),
            digits == tmp@.reverse(),
            out@ == old(out)@ + Seq::new(pad as nat, |j: int| 0x30u8) + digits.take(
                n_digits - i,
            ),
        decreases i,
    {
        i = i - 1;
        let ghost out_before = out@;
        out.push(tmp[i]);
        proof {
            assert(digits[n_digits - 1 - i] == tmp@[i as int]);
            assert(out@ =~= old(out)@ + Seq::new(pad as nat, |j: int| 0x30u8) + digits.take(
                n_digits - i,
            ));
        }
    }
    proof {
        assert(digits.take(n_digits as int) =~= digits);
        assert(out@ =~= old(out)@ + spec_zero_pad(digits, width as int));
    }
}

/// The helpers of the surrounding application that are plain computation.
pub struct Global {}

impl Global {
    /// Render a duration given as whole seconds and sub-second milliseconds
    /// as `HH:MM:SS.mmm` (hours grow past two digits when needed).
    pub fn format_duration(total_secs: u64, subsec_millis: u32) -> (r: String)
        requires
            subsec_millis < 1000,
        ensures
            r@ == spec_format_duration(total_secs as nat, subsec_millis as nat),
    {
        let hours = total_secs / 3600;
        let minutes = (total_secs % 3600) / 60;
        let seconds = total_secs % 60;
        let mut bytes: Vec<u8> = Vec::new();
        push_decimal_padded(&mut bytes, hours, 2);
        bytes.push(0x3a);
        push_decimal_padded(&mut bytes, minutes, 2);
        bytes.push(0x3a);
        push_decimal_padded(&mut bytes, seconds, 2);
        bytes.push(0x2e);
        push_decimal_padded(&mut bytes, subsec_millis as u64, 3);
        proof {
            assert(bytes@ =~= spec_duration_bytes(total_secs as nat, subsec_millis as nat));
            lemma_decimal_digits_ascii((total_secs / 3600) as nat);
            lemma_decimal_digits_ascii(((total_secs % 3600) / 60) as nat);
            lemma_decimal_digits_ascii((total_secs % 60) as nat);
            lemma_decimal_digits_ascii(subsec_millis as nat);
            assert forall|i: int| 0 <= i < bytes@.len() implies #[trigger] bytes@[i] < 0x80 by {
                assert(bytes@ == spec_duration_bytes(total_secs as nat, subsec_millis as nat));
            }
            lemma_ascii_bytes_utf8(bytes@);
        }
        match string_from_utf8(bytes) {
            Some(s) => s,
            None => {
                proof {
                    assert(false);
                }
                String::new()
            },
        }
    }

    /// Compare two dotted version strings numerically, component by
    /// component, missing components reading as zero: `Less` means the first
    /// is older than the second.
    pub fn compare_versions(current: &str, latest: &str) -> (r: Ordering)
        ensures
            r == spec_compare_versions(current.spec_bytes(), latest.spec_bytes()),
    {
        let a = split_and_parse(current.as_bytes());
        let b = split_and_parse(latest.as_bytes());
        let ghost pa = a@;
        let ghost pb = b@;
        let max_len: usize = if a.len() > b.len() {
            a.len()
        } else {
            b.len()
        };
        let mut i: usize = 0;
        while i < max_len
            invariant
                pa == a@,
                pb == b@,
                pa == spec_version_parts(current.spec_bytes()),
                pb == spec_version_parts(latest.spec_bytes()),
                i <= max_len,
                max_len == (if pa.len() > pb.len() {
                    pa.len()
                } else {
                    pb.len()
                }),
                spec_compare_from(pa, pb, 0) == spec_compare_from(pa, pb, i as int),
            decreases max_len - i,
        {
            let x: u32 = if i < a.len() {
                a[i]
            } else {
                0
            };
            let y: u32 = if i < b.len() {
                b[i]
            } else {
                0
            };
            if x < y {
                return Ordering::Less;
            }
            if x > y {
                return Ordering::Greater;
            }
            i = i + 1;
        }
        Ordering::Equal
    }
}

/// The `i`th version component, a missing one reading as zero.
pub open spec fn spec_part_at(s: Seq<u32>, i: int) -> u32 {
    if 0 <= i < s.len() {
        s[i]
    } else {
        0
    }
}

/// Numeric comparison of version components from position `i` on, missing
/// components reading as zero.
pub open spec fn spec_compare_from(a: Seq<u32>, b: Seq<u32>, i: int) -> Ordering
    decreases (if a.len() > b.len() {
        a.len() as int
    } else {
        b.len() as int
    }) - i,
{
    if i >= a.len() && i >= b.len() {
        Ordering::Equal
    } else if spec_part_at(a, i) < spec_part_at(b, i) {
        Ordering::Less
    } else if spec_part_at(a, i) > spec_part_at(b, i) {
        Ordering::Greater
    } else {
        spec_compare_from(a, b, i + 1)
    }
}

/// What comparing two dotted version strings yields: their dot-separated
/// components are each parsed as a number (anything unparsable reading as
/// zero) and compared left to right, a missing component reading as zero.
pub open spec fn spec_compare_versions(current: Seq<u8>, latest: Seq<u8>) -> Ordering {
    spec_compare_from(spec_version_parts(current), spec_version_parts(latest), 0)
}

/// The dot-separated pieces of `s`: empty input gives one empty piece, and
/// every dot opens a new piece.
pub open spec fn spec_split_dots(s: Seq<u8>) -> Seq<Seq<u8>>
    decreases s.len(),
{
    let found = s.index_of_first(0x2eu8);
    if found is Some && 0 <= found->Some_0 < s.len() {
        seq![s.subrange(0, found->Some_0)] + spec_split_dots(
            s.subrange(found->Some_0 + 1, s.len() as int),
        )
    } else {
        seq![s]
    }
}

/// The numeric value of a string of ASCII digits, most significant first.
pub open spec fn spec_digits_value(s: Seq<u8>) -> int
    decreases s.len(),
{
    if s.len() == 0 {
        0
    } else {
        spec_digits_value(s.drop_last()) * 10 + (s.last() - 0x30)
    }
}

/// Whether every byte of `s` is an ASCII digit.
pub open spec fn spec_all_digits(s: Seq<u8>) -> bool {
    forall|i: int| 0 <= i < s.len() ==> is_digit(#[trigger] s[i])
}

/// What parsing one version component yields: its numeric value, after an
/// optional leading plus sign — or zero if it is empty, has any non-digit,
/// or overflows the component width.
pub open spec fn spec_parse_component(s: Seq<u8>) -> u32 {
    let t = if s.len() > 0 && s[0] == 0x2bu8 {
        s.drop_first()
    } else {
        s
    };
    if t.len() > 0 && spec_all_digits(t) && spec_digits_value(t) <= u32::MAX {
        spec_digits_value(t) as u32
    } else {
        0u32
    }
}

/// The parsed components of a dotted version string.
pub open spec fn spec_version_parts(s: Seq<u8>) -> Seq<u32> {
    spec_split_dots(s).map_values(|p: Seq<u8>| spec_parse_component(p))
}

/// The value of an all-digit string is never negative.
proof fn lemma_digits_value_nonneg(s: Seq<u8>)
    requires
        spec_all_digits(s),
    ensures
        spec_digits_value(s) >= 0,
    decreases s.len(),
{
    if s.len() > 0 {
        assert(is_digit(s.last()));
        assert(spec_all_digits(s.drop_last()));
        lemma_digits_value_nonneg(s.drop_last());
    }
}

/// Parse one version component: its numeric value after an optional leading
/// plus sign, or zero if it is empty, has any non-digit, or overflows.
fn parse_component(s: &[u8]) -> (r: u32)
    ensures
        r == spec_parse_component(s@),
{
    let body: &[u8] = if s.len() > 0 && s[0] == 0x2bu8 {
        slice_subrange(s, 1, s.len())
    } else {
        slice_subrange(s, 0, s.len())
    };
    proof {
        if s@.len() > 0 && s@[0] == 0x2bu8 {
            assert(body@ =~= s@.drop_first());
        } else {
            assert(body@ =~= s@);
        }
    }
    if body.len() == 0 {
        return 0;
    }
    let mut acc: u64 = 0;
    let mut overflow = false;
    let mut i: usize = 0;
    while i < body.len()
        invariant
            i <= body@.len(),
            body@ == (if s@.len() > 0 && s@[0] == 0x2bu8 {
                s@.drop_first()
            } else {
                s@
            }),
            spec_all_digits(body@.take(i as int)),
            !overflow ==> acc == spec_digits_value(body@.take(i as int)) && acc <= u32::MAX,
            overflow ==> spec_digits_value(body@.take(i as int)) > u32::MAX,
        decreases body@.len() - i,
    {
        let b = body[i];
        if b < 0x30 || b > 0x39 {
            proof {
                let t = if s@.len() > 0 && s@[0] == 0x2bu8 {
                    s@.drop_first()
                } else {
                    s@
                };
                assert(t == body@);
                assert(!is_digit(t[i as int]));
                assert(!spec_all_digits(t));
            }
            return 0;
        }
        proof {
            assert(body@.take(i + 1).drop_last() =~= body@.take(i as int));
            assert(spec_all_digits(body@.take(i + 1)));
        }
        if overflow {
            proof {
                lemma_digits_value_nonneg(body@.take(i + 1));
            }
        } else {
            acc = acc * 10 + (b - 0x30) as u64;
            if acc > 0xFFFF_FFFF {
                overflow = true;
            }
        }
        i = i + 1;
    }
    proof {
        assert(body@.take(body@.len() as int) =~= body@);
    }
    if overflow {
        0
    } else {
        acc as u32
    }
}

/// Split `s` on dots and parse each piece as a version component.
fn split_and_parse(s: &[u8]) -> (r: Vec<u32>)
    ensures
        r@ == spec_version_parts(s@),
    decreases s@.len(),
{
    match find_byte(s, 0x2eu8) {
        None => {
            let first = parse_component(s);
            let mut out: Vec<u32> = Vec::new();
            out.push(first);
            proof {
                assert(out@ =~= spec_version_parts(s@));
            }
            out
        },
        Some(i) => {
            proof {
                s@.index_of_first_ensures(0x2eu8);
                assert(0 <= i < s@.len());
            }
            let n = s.len();
            let first = parse_component(slice_subrange(s, 0, i));
            let mut rest = split_and_parse(slice_subrange(s, i + 1, n));
            let mut out: Vec<u32> = Vec::new();
            out.push(first);
            out.append(&mut rest);
            proof {
                assert(out@ =~= spec_version_parts(s@));
            }
            out
        },
    }
}

} // verus!
