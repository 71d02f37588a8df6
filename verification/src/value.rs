//! Tagged value union and the numeric coercion rules of the scripting
//! language: `to_boolean`, `to_i32`, `to_u32` and friends.
//!
//! Doubles are carried as their IEEE-754 bit patterns (a `u64`), so that the
//! coercion rules can be stated and checked in integer arithmetic.

use vstd::prelude::*;
use vstd::string::StringSliceAdditionalSpecFns;
use crate::number::{spec_double_of_int, double_from_parts, spec_double_to_i32, double_to_i32,
    double_from_i32, double_from_u32};

verus! {

/// Bit pattern of the canonical NaN double.
pub const NAN_BITS: u64 = 0x7FF8_0000_0000_0000;

/// Bit pattern of the double `+Infinity`.
pub const POS_INF_BITS: u64 = 0x7FF0_0000_0000_0000;

/// Bit pattern of the double `-Infinity`.
pub const NEG_INF_BITS: u64 = 0xFFF0_0000_0000_0000;

/// Bit pattern of the double `1.0`.
pub const ONE_BITS: u64 = 0x3FF0_0000_0000_0000;

/// A handle to a heap-allocated object (an index into the managed heap).
pub type ObjId = usize;

/// A handle to an interned string (an index into a string table).
pub type StrId = usize;

/// The tagged union of script values. Strings are interned immutable byte
/// strings held in a `StringTable`; `Number` holds the bit pattern of an
/// IEEE-754 double.
#[derive(Clone, Copy, Debug, PartialEq, Eq, Structural)]
pub enum Value {
    Undefined,
    Null,
    Boolean(bool),
    Integer(i32),
    Unsigned(u32),
    Number(u64),
    Str(StrId),
    Object(ObjId),
}

/// The interner for string values: each distinct byte string is held
/// once, so two string values are equal exactly when their handles are.
pub struct StringTable {
    strings: Vec<Vec<u8>>,
}

impl StringTable {
    pub closed spec fn spec_strings(&self) -> Seq<Vec<u8>> {
        self.strings@
    }

    /// Distinct handles name distinct contents.
    pub closed spec fn wf(&self) -> bool {
        forall|i: int, j: int| 0 <= i < j < self.strings@.len()
            ==> (#[trigger] self.strings@[i])@ != (#[trigger] self.strings@[j])@
    }

    pub fn new() -> (r: Self)
        ensures
            r.wf(),
            r.spec_strings().len() == 0,
    {
        StringTable { strings: Vec::new() }
    }

    pub fn count(&self) -> (r: usize)
        ensures
            r == self.spec_strings().len(),
    {
        self.strings.len()
    }

    /// The bytes behind a handle.
    pub fn lookup(&self, id: StrId) -> (r: Option<&Vec<u8>>)
        ensures
            match r {
                Some(s) => id < self.spec_strings().len()
                    && *s == self.spec_strings()[id as int],
                None => id >= self.spec_strings().len(),
            },
    {
        if id < self.strings.len() {
            Some(&self.strings[id])
        } else {
            None
        }
    }

    /// Interns a byte string: the handle of the string with this content,
    /// appended if it is new.
    pub fn intern(&mut self, s: Vec<u8>) -> (r: StrId)
        requires
            old(self).wf(),
        ensures
            final(self).wf(),
            r < final(self).spec_strings().len(),
            final(self).spec_strings()[r as int]@ == s@,
            forall|i: int| 0 <= i < old(self).spec_strings().len()
                ==> #[trigger] final(self).spec_strings()[i]
                    == old(self).spec_strings()[i],
            old(self).spec_strings().len() <= final(self).spec_strings().len(),
    {
        let n = self.strings.len();
        let mut i: usize = 0;
        while i < n
            invariant
                i <= n,
                n == self.strings@.len(),
                *self == *old(self),
                old(self).wf(),
                forall|k: int| 0 <= k < i ==> (#[trigger] self.strings@[k])@ != s@,
            decreases n - i,
        {
            if crate::property::bytes_eq(self.strings[i].as_slice(), s.as_slice()) {
                return i;
            }
            i = i + 1;
        }
        self.strings.push(s);
        proof {
            assert forall|a: int, b: int| 0 <= a < b < self.strings@.len() implies
                (#[trigger] self.strings@[a])@ != (#[trigger] self.strings@[b])@ by {
                if b < n {
                    assert(old(self).strings@[a]@ != old(self).strings@[b]@);
                }
            }
        }
        n
    }
}

/// Whether a value's handles are valid against a string table.
pub open spec fn value_wf(tbl: Seq<Vec<u8>>, v: Value) -> bool {
    match v {
        Value::Str(i) => i < tbl.len(),
        _ => true,
    }
}

/// Biased exponent field of a double's bit pattern.
pub open spec fn spec_exponent(b: u64) -> u64 {
    (b >> 52) & 0x7FF
}

/// Mantissa field of a double's bit pattern.
pub open spec fn spec_mantissa(b: u64) -> u64 {
    b & 0xF_FFFF_FFFF_FFFF
}

/// Whether the bit pattern encodes a NaN.
pub open spec fn spec_is_nan(b: u64) -> bool {
    spec_exponent(b) == 0x7FF && spec_mantissa(b) != 0
}

/// Whether the bit pattern encodes `+0.0` or `-0.0`.
pub open spec fn spec_is_zero(b: u64) -> bool {
    b & 0x7FFF_FFFF_FFFF_FFFF == 0
}

/// Whether the bit pattern encodes `+Infinity` or `-Infinity`.
pub open spec fn spec_is_infinity(b: u64) -> bool {
    spec_exponent(b) == 0x7FF && spec_mantissa(b) == 0
}

pub fn bits_is_nan(b: u64) -> (r: bool)
    ensures
        r == spec_is_nan(b),
{
    ((b >> 52) & 0x7FF) == 0x7FF && (b & 0xF_FFFF_FFFF_FFFF) != 0
}

pub fn bits_is_zero(b: u64) -> (r: bool)
    ensures
        r == spec_is_zero(b),
{
    b & 0x7FFF_FFFF_FFFF_FFFF == 0
}

pub fn bits_is_infinity(b: u64) -> (r: bool)
    ensures
        r == spec_is_infinity(b),
{
    ((b >> 52) & 0x7FF) == 0x7FF && (b & 0xF_FFFF_FFFF_FFFF) == 0
}

/// The boolean coercion: 0, NaN, the empty string, null and undefined are
/// false; everything else (including every object) is true.
pub open spec fn spec_to_boolean(tbl: Seq<Vec<u8>>, v: Value) -> bool {
    match v {
        Value::Undefined => false,
        Value::Null => false,
        Value::Boolean(b) => b,
        Value::Integer(i) => i != 0,
        Value::Unsigned(u) => u != 0,
        Value::Number(bits) => !spec_is_zero(bits) && !spec_is_nan(bits),
        Value::Str(s) => s < tbl.len() && tbl[s as int]@.len() != 0,
        Value::Object(_) => true,
    }
}

pub fn to_boolean(tbl: &StringTable, v: &Value) -> (r: bool)
    ensures
        r == spec_to_boolean(tbl.spec_strings(), *v),
{
    match v {
        Value::Undefined => false,
        Value::Null => false,
        Value::Boolean(b) => *b,
        Value::Integer(i) => *i != 0,
        Value::Unsigned(u) => *u != 0,
        Value::Number(bits) => !bits_is_zero(*bits) && !bits_is_nan(*bits),
        Value::Str(s) => match tbl.lookup(*s) {
            Some(bytes) => bytes.len() != 0,
            None => false,
        },
        Value::Object(_) => true,
    }
}

/// Reinterpretation of a signed 32-bit integer as unsigned, modulo 2^32.
pub open spec fn spec_u32_of_i32(n: i32) -> u32 {
    if n >= 0 {
        n as u32
    } else {
        (n + 0x1_0000_0000) as u32
    }
}

/// Reinterpretation of an unsigned 32-bit integer as signed, modulo 2^32.
pub open spec fn spec_i32_of_u32(u: u32) -> i32 {
    if u <= 0x7FFF_FFFF {
        u as i32
    } else {
        (u - 0x1_0000_0000) as i32
    }
}

pub fn u32_of_i32(n: i32) -> (r: u32)
    ensures
        r == spec_u32_of_i32(n),
{
    if n >= 0 {
        n as u32
    } else {
        ((n as i64) + 0x1_0000_0000) as u32
    }
}

pub fn i32_of_u32(u: u32) -> (r: i32)
    ensures
        r == spec_i32_of_u32(u),
{
    if u <= 0x7FFF_FFFF {
        u as i32
    } else {
        ((u as i64) - 0x1_0000_0000) as i32
    }
}

/// The two reinterpretations are mutually inverse: coercing a signed 32-bit
/// integer to unsigned and back yields the original value, and conversely.
pub proof fn lemma_i32_u32_roundtrip(n: i32, u: u32)
    ensures
        spec_i32_of_u32(spec_u32_of_i32(n)) == n,
        spec_u32_of_i32(spec_i32_of_u32(u)) == u,
{
}

/// ASCII whitespace recognized when a string is coerced to a number.
pub open spec fn spec_is_ws(b: u8) -> bool {
    b == 32 || b == 9 || b == 10 || b == 11 || b == 12 || b == 13
}

/// An ASCII decimal digit.
pub open spec fn spec_is_digit(b: u8) -> bool {
    48 <= b && b <= 57
}

pub fn is_ws(b: u8) -> (r: bool)
    ensures
        r == spec_is_ws(b),
{
    b == 32 || b == 9 || b == 10 || b == 11 || b == 12 || b == 13
}

pub fn is_digit(b: u8) -> (r: bool)
    ensures
        r == spec_is_digit(b),
{
    48 <= b && b <= 57
}

/// The string with its leading whitespace removed.
pub open spec fn skip_ws_front(s: Seq<u8>) -> Seq<u8>
    decreases s.len(),
{
    if s.len() > 0 && spec_is_ws(s[0]) {
        skip_ws_front(s.drop_first())
    } else {
        s
    }
}

/// The string with its trailing whitespace removed.
pub open spec fn skip_ws_back(s: Seq<u8>) -> Seq<u8>
    decreases s.len(),
{
    if s.len() > 0 && spec_is_ws(s.last()) {
        skip_ws_back(s.drop_last())
    } else {
        s
    }
}

/// Every byte is a decimal digit.
pub open spec fn all_digits(s: Seq<u8>) -> bool {
    forall|i: int| 0 <= i < s.len() ==> spec_is_digit(s[i])
}

/// The value of a string of decimal digits.
pub open spec fn dec_val(s: Seq<u8>) -> int
    decreases s.len(),
{
    if s.len() == 0 {
        0
    } else {
        dec_val(s.drop_last()) * 10 + s.last() - 48
    }
}

/// 10^n.
pub open spec fn pow10(n: nat) -> int
    decreases n,
{
    if n == 0 {
        1
    } else {
        10 * pow10((n - 1) as nat)
    }
}

pub proof fn lemma_pow10_mono(a: nat, b: nat)
    requires
        a <= b,
    ensures
        pow10(a) <= pow10(b),
        pow10(a) >= 1,
    decreases b,
{
    if b > 0 {
        if a == b {
            lemma_pow10_mono((a - 1) as nat, (b - 1) as nat);
        } else {
            lemma_pow10_mono(a, (b - 1) as nat);
        }
    }
}

/// A digit string's value lies below 10 to its length.
pub proof fn lemma_dec_val_bound(s: Seq<u8>)
    requires
        all_digits(s),
    ensures
        0 <= dec_val(s) < pow10(s.len()),
    decreases s.len(),
{
    if s.len() > 0 {
        assert(all_digits(s.drop_last())) by {
            assert(forall|i: int| 0 <= i < s.len() - 1 ==> s.drop_last()[i] == s[i]);
        }
        lemma_dec_val_bound(s.drop_last());
    }
}

/// The double denoted by a digit string with an optional leading sign:
/// `NaN` where the digits are missing, malformed, or too many to be held
/// exactly.
pub open spec fn spec_digits_to_double(neg: bool, d: Seq<u8>) -> u64 {
    if d.len() == 0 || d.len() > 15 || !all_digits(d) {
        NAN_BITS
    } else if neg {
        spec_double_of_int(-dec_val(d))
    } else {
        spec_double_of_int(dec_val(d))
    }
}

/// The string-to-number coercion: surrounding whitespace is ignored, the
/// empty string denotes `+0`, and an optionally signed run of decimal
/// digits (at most 15, so the value is exactly representable) denotes its
/// integer value. Anything else denotes `NaN`.
pub open spec fn spec_str_to_double(s: Seq<u8>) -> u64 {
    let t = skip_ws_back(skip_ws_front(s));
    if t.len() == 0 {
        0
    } else if t[0] == 45 {
        spec_digits_to_double(true, t.drop_first())
    } else if t[0] == 43 {
        spec_digits_to_double(false, t.drop_first())
    } else {
        spec_digits_to_double(false, t)
    }
}

/// Builds the double for a parsed magnitude and sign.
fn double_from_sign_mag(neg: bool, m: u64) -> (r: u64)
    requires
        m < 0x20_0000_0000_0000,
    ensures
        neg ==> r == spec_double_of_int(-(m as int)),
        !neg ==> r == spec_double_of_int(m as int),
{
    if m == 0 {
        0
    } else {
        double_from_parts(neg, m)
    }
}

/// Coerces a byte string to a double bit pattern.
pub fn str_to_double(s: &Vec<u8>) -> (r: u64)
    ensures
        r == spec_str_to_double(s@),
{
    let n = s.len();
    let mut i: usize = 0;
    proof {
        assert(s@.skip(0) =~= s@);
    }
    while i < n && is_ws(s[i])
        invariant
            i <= n,
            n == s@.len(),
            skip_ws_front(s@) == skip_ws_front(s@.skip(i as int)),
        decreases n - i,
    {
        proof {
            assert(s@.skip(i as int).drop_first() =~= s@.skip(i as int + 1));
        }
        i = i + 1;
    }
    proof {
        if i < n {
            assert(skip_ws_front(s@.skip(i as int)) == s@.skip(i as int));
        } else {
            assert(s@.skip(i as int) =~= Seq::<u8>::empty());
        }
        assert(skip_ws_front(s@) == s@.skip(i as int));
    }
    let mut j: usize = n;
    while j > i && is_ws(s[j - 1])
        invariant
            i <= j <= n,
            n == s@.len(),
            skip_ws_front(s@) == s@.skip(i as int),
            skip_ws_back(s@.skip(i as int)) == skip_ws_back(s@.subrange(i as int, j as int)),
        decreases j,
    {
        proof {
            assert(s@.subrange(i as int, j as int).drop_last()
                =~= s@.subrange(i as int, j as int - 1));
        }
        j = j - 1;
    }
    proof {
        if j > i {
            assert(skip_ws_back(s@.subrange(i as int, j as int))
                == s@.subrange(i as int, j as int));
        } else {
            assert(s@.subrange(i as int, j as int) =~= Seq::<u8>::empty());
        }
        assert(skip_ws_back(skip_ws_front(s@)) == s@.subrange(i as int, j as int));
    }
    if j == i {
        return 0;
    }
    let ghost t = s@.subrange(i as int, j as int);
    let first = s[i];
    let mut neg = false;
    if first == 45 {
        neg = true;
        i = i + 1;
    } else if first == 43 {
        i = i + 1;
    }
    let ghost d = s@.subrange(i as int, j as int);
    proof {
        if t[0] == 45 || t[0] == 43 {
            assert(t.drop_first() =~= d);
        } else {
            assert(t =~= d);
        }
    }
    if j - i == 0 || j - i > 15 {
        return NAN_BITS;
    }
    let mut acc: u64 = 0;
    let mut k: usize = i;
    while k < j
        invariant
            i <= k <= j <= n,
            n == s@.len(),
            1 <= j - i <= 15,
            d == s@.subrange(i as int, j as int),
            spec_str_to_double(s@) == spec_digits_to_double(neg, d),
            all_digits(s@.subrange(i as int, k as int)),
            acc as int == dec_val(s@.subrange(i as int, k as int)),
            (acc as int) < pow10((k - i) as nat),
        decreases j - k,
    {
        let b = s[k];
        if !is_digit(b) {
            proof {
                assert(d[k - i] == b);
                assert(!all_digits(d));
            }
            return NAN_BITS;
        }
        proof {
            let p = s@.subrange(i as int, k as int);
            let q = s@.subrange(i as int, k as int + 1);
            assert(q.drop_last() =~= p);
            assert(q.last() == b);
            lemma_dec_val_bound(p);
            lemma_pow10_mono((k - i) as nat, 14);
            assert(pow10(14) == 100_000_000_000_000) by {
                reveal_with_fuel(pow10, 16);
            }
        }
        acc = acc * 10 + ((b - 48) as u64);
        k = k + 1;
    }
    proof {
        assert(s@.subrange(i as int, k as int) =~= d);
        lemma_pow10_mono((j - i) as nat, 15);
        assert(pow10(15) == 1_000_000_000_000_000) by {
            reveal_with_fuel(pow10, 17);
        }
    }
    double_from_sign_mag(neg, acc)
}

/// Whether a value is an object reference (whose numeric coercion must
/// first go through the object's `to_primitive` hook).
pub open spec fn spec_is_object(v: Value) -> bool {
    v is Object
}

/// The number coercion on primitive values, as a double bit pattern.
pub open spec fn spec_to_number(tbl: Seq<Vec<u8>>, v: Value) -> u64 {
    match v {
        Value::Undefined => NAN_BITS,
        Value::Null => 0,
        Value::Boolean(b) => if b { ONE_BITS } else { 0 },
        Value::Integer(i) => spec_double_of_int(i as int),
        Value::Unsigned(u) => spec_double_of_int(u as int),
        Value::Number(b) => b,
        Value::Str(s) => if s < tbl.len() {
            spec_str_to_double(tbl[s as int]@)
        } else {
            NAN_BITS
        },
        Value::Object(_) => NAN_BITS,
    }
}

/// Coerces a primitive value to a number (a double bit pattern).
pub fn to_number(tbl: &StringTable, v: &Value) -> (r: u64)
    requires
        !spec_is_object(*v),
    ensures
        r == spec_to_number(tbl.spec_strings(), *v),
{
    match v {
        Value::Undefined => NAN_BITS,
        Value::Null => 0,
        Value::Boolean(b) => if *b { ONE_BITS } else { 0 },
        Value::Integer(i) => double_from_i32(*i),
        Value::Unsigned(u) => double_from_u32(*u),
        Value::Number(b) => *b,
        Value::Str(s) => match tbl.lookup(*s) {
            Some(bytes) => str_to_double(bytes),
            None => NAN_BITS,
        },
        Value::Object(_) => NAN_BITS,
    }
}

/// The `ToInt32` coercion on primitive values: the value's number is
/// truncated toward zero and reduced modulo 2^32 into the signed range.
pub open spec fn spec_to_i32(tbl: Seq<Vec<u8>>, v: Value) -> i32 {
    match v {
        Value::Undefined => 0,
        Value::Null => 0,
        Value::Boolean(b) => if b { 1 } else { 0 },
        Value::Integer(i) => i,
        Value::Unsigned(u) => spec_i32_of_u32(u),
        Value::Number(b) => spec_double_to_i32(b),
        Value::Str(s) => if s < tbl.len() {
            spec_double_to_i32(spec_str_to_double(tbl[s as int]@))
        } else {
            0
        },
        Value::Object(_) => 0,
    }
}

/// Coerces a primitive value to a signed 32-bit integer.
pub fn to_i32(tbl: &StringTable, v: &Value) -> (r: i32)
    requires
        !spec_is_object(*v),
    ensures
        r == spec_to_i32(tbl.spec_strings(), *v),
{
    match v {
        Value::Undefined => 0,
        Value::Null => 0,
        Value::Boolean(b) => if *b { 1 } else { 0 },
        Value::Integer(i) => *i,
        Value::Unsigned(u) => i32_of_u32(*u),
        Value::Number(b) => double_to_i32(*b),
        Value::Str(s) => match tbl.lookup(*s) {
            Some(bytes) => double_to_i32(str_to_double(bytes)),
            None => 0,
        },
        Value::Object(_) => 0,
    }
}

/// The `ToUint32` coercion: `ToInt32` reinterpreted as unsigned.
pub open spec fn spec_to_u32(tbl: Seq<Vec<u8>>, v: Value) -> u32 {
    spec_u32_of_i32(spec_to_i32(tbl, v))
}

/// Coerces a primitive value to an unsigned 32-bit integer.
pub fn to_u32(tbl: &StringTable, v: &Value) -> (r: u32)
    requires
        !spec_is_object(*v),
    ensures
        r == spec_to_u32(tbl.spec_strings(), *v),
{
    u32_of_i32(to_i32(tbl, v))
}

/// Coercion correctness: coercing any signed 32-bit integer to unsigned
/// and the result back to signed restores it exactly, and conversely; and
/// the boolean coercion sends 0 and NaN to false and every object
/// reference to true, whatever the string table holds.
pub proof fn lemma_coercion_correctness(tbl: Seq<Vec<u8>>, n: i32, u: u32, obj: ObjId)
    ensures
        spec_to_i32(tbl, Value::Unsigned(spec_to_u32(tbl, Value::Integer(n)))) == n,
        spec_to_u32(tbl, Value::Integer(spec_to_i32(tbl, Value::Unsigned(u)))) == u,
        !spec_to_boolean(tbl, Value::Integer(0)),
        !spec_to_boolean(tbl, Value::Number(NAN_BITS)),
        spec_to_boolean(tbl, Value::Object(obj)),
{
    lemma_i32_u32_roundtrip(n, u);
    assert(spec_is_nan(NAN_BITS)) by (bit_vector);
}

/// The decimal digit string of a natural number.
pub open spec fn spec_dec(n: nat) -> Seq<u8>
    decreases n,
{
    if n < 10 {
        seq![(n + 48) as u8]
    } else {
        spec_dec(n / 10).push(((n % 10) + 48) as u8)
    }
}

/// Appends the decimal digits of `n` to `out`.
fn push_dec(n: u64, out: &mut Vec<u8>)
    ensures
        final(out)@ == old(out)@ + spec_dec(n as nat),
    decreases n,
{
    if n < 10 {
        out.push((n as u8) + 48);
        proof {
            assert(out@ =~= old(out)@ + spec_dec(n as nat));
        }
    } else {
        push_dec(n / 10, out);
        out.push(((n % 10) as u8) + 48);
        proof {
            assert(out@ =~= old(out)@ + spec_dec(n as nat));
        }
    }
}

/// The decimal rendering of an unsigned 64-bit integer.
pub fn u64_to_dec(n: u64) -> (r: Vec<u8>)
    ensures
        r@ == spec_dec(n as nat),
{
    let mut out: Vec<u8> = Vec::new();
    push_dec(n, &mut out);
    proof {
        assert(out@ =~= spec_dec(n as nat));
    }
    out
}

/// The decimal rendering of a possibly negative integer.
pub open spec fn spec_dec_signed(n: int) -> Seq<u8> {
    if n < 0 {
        seq![45u8] + spec_dec((-n) as nat)
    } else {
        spec_dec(n as nat)
    }
}

/// The decimal rendering of a signed 32-bit integer.
pub fn i32_to_dec(n: i32) -> (r: Vec<u8>)
    ensures
        r@ == spec_dec_signed(n as int),
{
    if n >= 0 {
        u64_to_dec(n as u64)
    } else {
        let mut out: Vec<u8> = Vec::new();
        out.push(45);
        let m = -(n as i64);
        push_dec(m as u64, &mut out);
        proof {
            assert(out@ =~= spec_dec_signed(n as int));
        }
        out
    }
}

/// The decimal text of a double that denotes an integer: "0" for the two
/// zeros, "NaN" and the infinities by name, the exact decimal for an
/// integral value whose magnitude fits 64 bits, and nothing for any other
/// double — this engine renders no fractional decimal forms.
pub open spec fn spec_number_to_string(b: u64) -> Option<Seq<u8>> {
    if spec_is_zero_arith(b) {
        Some("0".spec_bytes())
    } else if spec_exp_arith(b) == 0x7FF {
        if b % 0x10_0000_0000_0000 != 0 {
            Some("NaN".spec_bytes())
        } else if b >= 0x8000_0000_0000_0000 {
            Some("-Infinity".spec_bytes())
        } else {
            Some("Infinity".spec_bytes())
        }
    } else {
        let e = spec_exp_arith(b) as int;
        if e < 1023 || e > 1086 {
            None
        } else {
            let ee = (e - 1023) as nat;
            let sig = (vstd::arithmetic::power2::pow2(52) + b % 0x10_0000_0000_0000) as nat;
            if ee <= 52 {
                if sig % vstd::arithmetic::power2::pow2((52 - ee) as nat) != 0 {
                    None
                } else {
                    let mag = sig / vstd::arithmetic::power2::pow2((52 - ee) as nat);
                    if b >= 0x8000_0000_0000_0000 {
                        Some(seq![45u8] + spec_dec(mag))
                    } else {
                        Some(spec_dec(mag))
                    }
                }
            } else {
                let mag = sig * vstd::arithmetic::power2::pow2((ee - 52) as nat);
                if b >= 0x8000_0000_0000_0000 {
                    Some(seq![45u8] + spec_dec(mag))
                } else {
                    Some(spec_dec(mag))
                }
            }
        }
    }
}

/// The biased exponent, extracted arithmetically.
pub open spec fn spec_exp_arith(b: u64) -> u64 {
    (b / 0x10_0000_0000_0000) % 0x800
}

/// Whether the pattern is one of the two zeros, arithmetically.
pub open spec fn spec_is_zero_arith(b: u64) -> bool {
    b == 0 || b == 0x8000_0000_0000_0000
}

/// Renders a double as decimal text where it denotes an integer; a
/// fractional or oversized double yields nothing.
pub fn number_to_string(b: u64) -> (r: Option<Vec<u8>>)
    ensures
        match r {
            Some(s) => spec_number_to_string(b) == Some(s@),
            None => spec_number_to_string(b) is None,
        },
{
    if b == 0 || b == 0x8000_0000_0000_0000 {
        return Some(lit_bytes("0"));
    }
    let e = (b / 0x10_0000_0000_0000) % 0x800;
    let man = b % 0x10_0000_0000_0000;
    if e == 0x7FF {
        if man != 0 {
            return Some(lit_bytes("NaN"));
        } else if b >= 0x8000_0000_0000_0000 {
            return Some(lit_bytes("-Infinity"));
        } else {
            return Some(lit_bytes("Infinity"));
        }
    }
    if e < 1023 || e > 1086 {
        return None;
    }
    let ee = e - 1023;
    let sig: u64 = 0x10_0000_0000_0000u64 + man;
    proof {
        vstd::arithmetic::power2::lemma2_to64();
        vstd::arithmetic::power2::lemma2_to64_rest();
        assert(sig as nat == vstd::arithmetic::power2::pow2(52) + man);
    }
    let mag: u64 = if ee <= 52 {
        proof {
            vstd::arithmetic::power2::lemma_pow2_pos((52 - (ee as int)) as nat);
        }
        let d = crate::number::p2(52 - ee);
        if sig % d != 0 {
            return None;
        }
        sig / d
    } else {
        proof {
            let g = ((ee as int) - 52) as nat;
            vstd::arithmetic::power2::lemma_pow2_pos(g);
            if g < 11 {
                vstd::arithmetic::power2::lemma_pow2_strictly_increases(g, 11);
            }
            vstd::arithmetic::mul::lemma_mul_upper_bound(sig as int,
                0x1F_FFFF_FFFF_FFFF, vstd::arithmetic::power2::pow2(g) as int, 0x800);
        }
        sig * crate::number::p2(ee - 52)
    };
    if b >= 0x8000_0000_0000_0000 {
        let mut out: Vec<u8> = Vec::new();
        out.push(45);
        push_dec(mag, &mut out);
        proof {
            assert(out@ =~= seq![45u8] + spec_dec(mag as nat));
        }
        Some(out)
    } else {
        Some(u64_to_dec(mag))
    }
}

/// A literal's bytes as a vector.
fn lit_bytes(s: &str) -> (r: Vec<u8>)
    ensures
        r@ == s.spec_bytes(),
{
    let bytes = s.as_bytes();
    let n = bytes.len();
    let mut out: Vec<u8> = Vec::new();
    let mut i: usize = 0;
    while i < n
        invariant
            i <= n,
            n == bytes@.len(),
            out@ =~= bytes@.take(i as int),
        decreases n - i,
    {
        out.push(bytes[i]);
        i = i + 1;
    }
    proof {
        assert(bytes@.take(n as int) =~= bytes@);
    }
    out
}

/// The string coercion on primitive values: the fixed words for the empty
/// values and booleans, exact decimals for the integer forms, a string's
/// own bytes, and an integral double's decimal; a fractional double has
/// no rendering in this engine and yields an error, explicitly.
pub fn to_string_value(tbl: &StringTable, v: &Value) -> (r: Result<Vec<u8>, ()>)
    requires
        !spec_is_object(*v),
    ensures
        match r {
            Ok(s) => match *v {
                Value::Undefined => s@ == "undefined".spec_bytes(),
                Value::Null => s@ == "null".spec_bytes(),
                Value::Boolean(x) => s@ == (if x {
                    "true".spec_bytes()
                } else {
                    "false".spec_bytes()
                }),
                Value::Integer(n) => s@ == spec_dec_signed(n as int),
                Value::Unsigned(u) => s@ == spec_dec(u as nat),
                Value::Number(b) => spec_number_to_string(b) == Some(s@),
                Value::Str(id) => id < tbl.spec_strings().len()
                    && s@ == tbl.spec_strings()[id as int]@,
                Value::Object(_) => false,
            },
            Err(()) => (*v matches Value::Number(b)
                && spec_number_to_string(b) is None)
                || (*v matches Value::Str(id) && id >= tbl.spec_strings().len()),
        },
{
    match v {
        Value::Undefined => Ok(lit_bytes("undefined")),
        Value::Null => Ok(lit_bytes("null")),
        Value::Boolean(x) => Ok(if *x {
            lit_bytes("true")
        } else {
            lit_bytes("false")
        }),
        Value::Integer(n) => Ok(i32_to_dec(*n)),
        Value::Unsigned(u) => Ok(u64_to_dec(*u as u64)),
        Value::Number(b) => match number_to_string(*b) {
            Some(s) => Ok(s),
            None => Err(()),
        },
        Value::Str(id) => match tbl.lookup(*id) {
            Some(bytes) => Ok(crate::class::copy_vec(bytes)),
            None => Err(()),
        },
        Value::Object(_) => Err(()),
    }
}

} // verus!
