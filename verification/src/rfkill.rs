//! The raw power-control fallback: the fixed-layout control record written
//! to the kernel's radio-control device, and the resolution of an adapter's
//! kernel-visible index from the contents of the radio-control directory.

use vstd::prelude::*;

verus! {

/// Type tag of a bluetooth radio in a control record.
pub const RFKILL_TYPE_BLUETOOTH: u8 = 2;

/// Operation code for changing one radio's block state.
pub const RFKILL_OP_CHANGE: u8 = 2;

/// The eight bytes of a control record: the index as four little-endian
/// bytes, the bluetooth type tag, the change operation code, the soft-block
/// flag (0 to enable the radio, 1 to disable it) and a hard-block flag of 0.
pub open spec fn spec_rfkill_record(idx: u32, enable: bool) -> Seq<u8> {
    seq![
        (idx as int % 256) as u8,
        ((idx as int / 256) % 256) as u8,
        ((idx as int / 65536) % 256) as u8,
        ((idx as int / 16777216) % 256) as u8,
        RFKILL_TYPE_BLUETOOTH,
        RFKILL_OP_CHANGE,
        if enable {
            0u8
        } else {
            1u8
        },
        0u8,
    ]
}

/// The first four record bytes really are the index in base 256, least
/// significant byte first.
pub proof fn lemma_rfkill_index_le(idx: u32)
    ensures
        spec_rfkill_record(idx, true)[0] + 256 * spec_rfkill_record(idx, true)[1] + 65536
            * spec_rfkill_record(idx, true)[2] + 16777216 * spec_rfkill_record(idx, true)[3]
            == idx,
{
    let x = idx as int;
    assert(x == 256 * (x / 256) + x % 256);
    assert(x / 256 == 256 * (x / 256 / 256) + (x / 256) % 256);
    assert(x / 256 / 256 == x / 65536) by (nonlinear_arith);
    assert(x / 65536 == 256 * (x / 65536 / 256) + (x / 65536) % 256);
    assert(x / 65536 / 256 == x / 16777216) by (nonlinear_arith);
    assert(x / 16777216 < 256) by (nonlinear_arith)
        requires
            0 <= x < 0x1_0000_0000,
    ;
}

/// Encodes the control record for setting the radio with kernel index `idx`
/// soft-blocked (`enable == false`) or unblocked (`enable == true`).
pub fn rfkill_event_bytes(idx: u32, enable: bool) -> (r: Vec<u8>)
    ensures
        r@ == spec_rfkill_record(idx, enable),
        r@.len() == 8,
{
    let mut v: Vec<u8> = Vec::new();
    v.push((idx % 256) as u8);
    v.push(((idx / 256) % 256) as u8);
    v.push(((idx / 65536) % 256) as u8);
    v.push(((idx / 16777216) % 256) as u8);
    v.push(RFKILL_TYPE_BLUETOOTH);
    v.push(RFKILL_OP_CHANGE);
    v.push(if enable { 0 } else { 1 });
    v.push(0);
    proof {
        assert(v@ =~= spec_rfkill_record(idx, enable));
    }
    v
}

/// ASCII whitespace, as trimmed from the control directory's small files.
pub open spec fn is_ascii_ws(b: u8) -> bool {
    b == 32 || b == 9 || b == 10 || b == 11 || b == 12 || b == 13
}

/// Length of the whitespace run at the front of `s`.
pub open spec fn ws_prefix_len(s: Seq<u8>) -> int
    decreases s.len(),
{
    if s.len() > 0 && is_ascii_ws(s[0]) {
        1 + ws_prefix_len(s.drop_first())
    } else {
        0
    }
}

/// Length of the whitespace run at the back of `s`.
pub open spec fn ws_suffix_len(s: Seq<u8>) -> int
    decreases s.len(),
{
    if s.len() > 0 && is_ascii_ws(s.last()) {
        1 + ws_suffix_len(s.drop_last())
    } else {
        0
    }
}

/// `s` with leading and trailing ASCII whitespace removed.
pub open spec fn spec_trim(s: Seq<u8>) -> Seq<u8> {
    let rest = s.skip(ws_prefix_len(s));
    rest.take(rest.len() - ws_suffix_len(rest))
}

proof fn lemma_ws_prefix(s: Seq<u8>, a: int)
    requires
        0 <= a <= s.len(),
        forall|k: int| 0 <= k < a ==> is_ascii_ws(s[k]),
        a < s.len() ==> !is_ascii_ws(s[a]),
    ensures
        ws_prefix_len(s) == a,
    decreases a,
{
    if a == 0 {
    } else {
        assert(is_ascii_ws(s[0]));
        assert forall|k: int| 0 <= k < a - 1 implies is_ascii_ws(s.drop_first()[k]) by {
            assert(s.drop_first()[k] == s[k + 1]);
        }
        lemma_ws_prefix(s.drop_first(), a - 1);
    }
}

proof fn lemma_ws_suffix(s: Seq<u8>, b: int)
    requires
        0 <= b <= s.len(),
        forall|k: int| s.len() - b <= k < s.len() ==> is_ascii_ws(s[k]),
        b < s.len() ==> !is_ascii_ws(s[s.len() - b - 1]),
    ensures
        ws_suffix_len(s) == b,
    decreases b,
{
    if b == 0 {
    } else {
        assert(is_ascii_ws(s[s.len() - 1]));
        assert forall|k: int|
            s.drop_last().len() - (b - 1) <= k < s.drop_last().len() implies is_ascii_ws(
            s.drop_last()[k],
        ) by {
            assert(s.drop_last()[k] == s[k]);
        }
        lemma_ws_suffix(s.drop_last(), b - 1);
    }
}

/// Whether `b` is ASCII whitespace.
fn is_ws(b: u8) -> (r: bool)
    ensures
        r == is_ascii_ws(b),
{
    b == 32 || b == 9 || b == 10 || b == 11 || b == 12 || b == 13
}

/// The index range of `s` that survives trimming: `s[lo..hi]` is `s` with
/// leading and trailing ASCII whitespace removed.
pub fn trimmed_range(s: &Vec<u8>) -> (r: (usize, usize))
    ensures
        r.0 <= r.1 <= s@.len(),
        s@.subrange(r.0 as int, r.1 as int) == spec_trim(s@),
{
    let len = s.len();
    let mut lo: usize = 0;
    while lo < len && is_ws(s[lo])
        invariant
            lo <= len == s@.len(),
            forall|k: int| 0 <= k < lo ==> is_ascii_ws(s@[k]),
        decreases len - lo,
    {
        lo = lo + 1;
    }
    let mut hi: usize = len;
    while hi > lo && is_ws(s[hi - 1])
        invariant
            lo <= hi <= len == s@.len(),
            forall|k: int| hi <= k < len ==> is_ascii_ws(s@[k]),
        decreases hi,
    {
        hi = hi - 1;
    }
    proof {
        lemma_ws_prefix(s@, lo as int);
        let rest = s@.skip(lo as int);
        if hi == lo {
            assert(rest.len() == s@.len() - lo);
            assert forall|k: int| rest.len() - rest.len() <= k < rest.len() implies is_ascii_ws(
                rest[k],
            ) by {
                assert(rest[k] == s@[k + lo]);
                if k + lo < hi {
                    assert(lo < s@.len());
                    assert(!is_ascii_ws(s@[lo as int]));
                    assert(is_ascii_ws(s@[k + lo]));
                }
            }
            lemma_ws_suffix(rest, rest.len() as int);
        } else {
            let b = s@.len() - hi;
            assert forall|k: int| rest.len() - b <= k < rest.len() implies is_ascii_ws(
                rest[k],
            ) by {
                assert(rest[k] == s@[k + lo]);
            }
            assert(rest[rest.len() - b - 1] == s@[hi - 1]);
            lemma_ws_suffix(rest, b);
        }
        assert(s@.subrange(lo as int, hi as int) =~= spec_trim(s@));
    }
    (lo, hi)
}

/// Whether `s[lo..hi]` equals `t`.
pub fn bytes_eq_range(s: &Vec<u8>, lo: usize, hi: usize, t: &Vec<u8>) -> (r: bool)
    requires
        lo <= hi <= s@.len(),
    ensures
        r == (s@.subrange(lo as int, hi as int) == t@),
{
    if hi - lo != t.len() {
        return false;
    }
    let mut i: usize = 0;
    while i < t.len()
        invariant
            lo <= hi <= s@.len(),
            hi - lo == t@.len(),
            i <= t@.len(),
            forall|k: int| 0 <= k < i ==> s@[lo + k] == t@[k],
        decreases t@.len() - i,
    {
        if s[lo + i] != t[i] {
            proof {
                assert(s@.subrange(lo as int, hi as int)[i as int] != t@[i as int]);
            }
            return false;
        }
        i = i + 1;
    }
    proof {
        assert(s@.subrange(lo as int, hi as int) =~= t@);
    }
    true
}

/// The ASCII bytes of the type tag that marks a bluetooth radio entry.
pub open spec fn spec_bluetooth_kind() -> Seq<u8> {
    seq![98u8, 108u8, 117u8, 101u8, 116u8, 111u8, 111u8, 116u8, 104u8]
}

/// The type tag that marks a bluetooth radio entry, as bytes.
pub fn bluetooth_kind_bytes() -> (v: Vec<u8>)
    ensures
        v@ == spec_bluetooth_kind(),
{
    let mut v: Vec<u8> = Vec::new();
    v.push(98);
    v.push(108);
    v.push(117);
    v.push(101);
    v.push(116);
    v.push(111);
    v.push(111);
    v.push(116);
    v.push(104);
    proof {
        assert(v@ =~= spec_bluetooth_kind());
    }
    v
}

/// An ASCII decimal digit.
pub open spec fn is_digit(b: u8) -> bool {
    48 <= b <= 57
}

/// Every byte of `s` is an ASCII decimal digit.
pub open spec fn all_digits(s: Seq<u8>) -> bool {
    forall|i: int| 0 <= i < s.len() ==> is_digit(s[i])
}

/// The number the digit string `s` denotes in base 10.
pub open spec fn digits_val(s: Seq<u8>) -> int
    decreases s.len(),
{
    if s.len() == 0 {
        0
    } else {
        10 * digits_val(s.drop_last()) + (s.last() - 48)
    }
}

/// What parsing `s` as an unsigned 32-bit decimal yields: its value if `s`
/// is one or more digits denoting a number in range, nothing otherwise.
pub open spec fn spec_parse_u32(s: Seq<u8>) -> Option<u32> {
    if s.len() > 0 && all_digits(s) && digits_val(s) <= u32::MAX {
        Some(digits_val(s) as u32)
    } else {
        None
    }
}

proof fn lemma_digits_val_nonneg(s: Seq<u8>)
    requires
        all_digits(s),
    ensures
        digits_val(s) >= 0,
    decreases s.len(),
{
    if s.len() > 0 {
        assert(is_digit(s.last()));
        assert forall|i: int| 0 <= i < s.drop_last().len() implies is_digit(
            s.drop_last()[i],
        ) by {
            assert(s.drop_last()[i] == s[i]);
        }
        lemma_digits_val_nonneg(s.drop_last());
    }
}

/// A digit string denotes at least as much as any of its prefixes.
proof fn lemma_digits_val_prefix(s: Seq<u8>, k: int)
    requires
        all_digits(s),
        0 <= k <= s.len(),
    ensures
        digits_val(s) >= digits_val(s.subrange(0, k)),
    decreases s.len() - k,
{
    if k == s.len() {
        assert(s.subrange(0, k) =~= s);
    } else {
        assert forall|i: int| 0 <= i < s.drop_last().len() implies is_digit(
            s.drop_last()[i],
        ) by {
            assert(s.drop_last()[i] == s[i]);
        }
        lemma_digits_val_prefix(s.drop_last(), k);
        assert(s.drop_last().subrange(0, k) =~= s.subrange(0, k));
        lemma_digits_val_nonneg(s.drop_last());
        assert(is_digit(s.last()));
    }
}

/// Parses `s[lo..hi]` as an unsigned 32-bit decimal number.
pub fn parse_u32_range(s: &Vec<u8>, lo: usize, hi: usize) -> (r: Option<u32>)
    requires
        lo <= hi <= s@.len(),
    ensures
        r == spec_parse_u32(s@.subrange(lo as int, hi as int)),
{
    let ghost whole = s@.subrange(lo as int, hi as int);
    if lo == hi {
        return None;
    }
    let mut acc: u64 = 0;
    let mut i: usize = lo;
    while i < hi
        invariant
            lo <= i <= hi <= s@.len(),
            whole == s@.subrange(lo as int, hi as int),
            all_digits(s@.subrange(lo as int, i as int)),
            acc as int == digits_val(s@.subrange(lo as int, i as int)),
            acc <= u32::MAX,
        decreases hi - i,
    {
        let ghost prefix = s@.subrange(lo as int, i as int);
        let b = s[i];
        if b < 48 || b > 57 {
            proof {
                assert(!is_digit(whole[i - lo]));
            }
            return None;
        }
        acc = acc * 10 + (b - 48) as u64;
        proof {
            let longer = s@.subrange(lo as int, i + 1 as int);
            assert(longer.drop_last() =~= prefix);
            assert(longer.last() == b);
            assert forall|k: int| 0 <= k < longer.len() implies is_digit(longer[k]) by {
                if k < longer.len() - 1 {
                    assert(longer[k] == prefix[k]);
                }
            }
            assert(acc as int == digits_val(longer));
        }
        if acc > 0xFFFF_FFFFu64 {
            proof {
                if all_digits(whole) {
                    let longer = s@.subrange(lo as int, i + 1 as int);
                    lemma_digits_val_prefix(whole, i + 1 - lo);
                    assert(whole.subrange(0, i + 1 - lo) =~= longer);
                    assert(digits_val(whole) > u32::MAX);
                }
            }
            return None;
        }
        i = i + 1;
    }
    proof {
        assert(s@.subrange(lo as int, i as int) =~= whole);
    }
    Some(acc as u32)
}

/// One entry of the radio-control directory: the raw contents of its type,
/// name and index files.
pub struct RfkillEntry {
    pub kind: Vec<u8>,
    pub name: Vec<u8>,
    pub index: Vec<u8>,
}

/// Why no adapter index could be resolved.
#[derive(Debug, Clone, Copy, PartialEq, Eq, Structural)]
pub enum RfkillError {
    /// No entry declares the bluetooth type together with the adapter's name.
    NoMatchingAdapter,
    /// The matching entry's index file does not hold an unsigned 32-bit
    /// decimal number.
    BadIndex,
}

/// An entry is the adapter's: its declared type is the bluetooth tag and its
/// declared name is the adapter's own, both after trimming.
pub open spec fn entry_matches(e: RfkillEntry, name: Seq<u8>) -> bool {
    spec_trim(e.kind@) == spec_bluetooth_kind() && spec_trim(e.name@) == name
}

/// What scanning the entries in order yields: the first entry that matches
/// decides, by its parsed index; no match at all is its own error.
pub open spec fn spec_resolve(entries: Seq<RfkillEntry>, name: Seq<u8>) -> Result<
    u32,
    RfkillError,
>
    decreases entries.len(),
{
    if entries.len() == 0 {
        Err(RfkillError::NoMatchingAdapter)
    } else if entry_matches(entries[0], name) {
        match spec_parse_u32(spec_trim(entries[0].index@)) {
            Some(v) => Ok(v),
            None => Err(RfkillError::BadIndex),
        }
    } else {
        spec_resolve(entries.drop_first(), name)
    }
}

/// Resolves the adapter's kernel-visible index: scans the control directory
/// entries in order for the first whose type is bluetooth and whose name is
/// the adapter's, and parses that entry's index file.
pub fn resolve_adapter_index(entries: &Vec<RfkillEntry>, adapter_name: &Vec<u8>) -> (r: Result<
    u32,
    RfkillError,
>)
    ensures
        r == spec_resolve(entries@, adapter_name@),
{
    let bt = bluetooth_kind_bytes();
    let mut i: usize = 0;
    proof {
        assert(entries@.skip(0) =~= entries@);
    }
    while i < entries.len()
        invariant
            i <= entries@.len(),
            bt@ == spec_bluetooth_kind(),
            spec_resolve(entries@, adapter_name@) == spec_resolve(
                entries@.skip(i as int),
                adapter_name@,
            ),
        decreases entries@.len() - i,
    {
        let ghost rest = entries@.skip(i as int);
        proof {
            assert(rest[0] == entries@[i as int]);
        }
        let e = &entries[i];
        let (klo, khi) = trimmed_range(&e.kind);
        let kind_ok = bytes_eq_range(&e.kind, klo, khi, &bt);
        let mut name_ok = false;
        if kind_ok {
            let (nlo, nhi) = trimmed_range(&e.name);
            name_ok = bytes_eq_range(&e.name, nlo, nhi, adapter_name);
        }
        if kind_ok && name_ok {
            let (ilo, ihi) = trimmed_range(&e.index);
            let parsed = parse_u32_range(&e.index, ilo, ihi);
            proof {
                assert(entry_matches(rest[0], adapter_name@));
            }
            return match parsed {
                Some(v) => Ok(v),
                None => Err(RfkillError::BadIndex),
            };
        }
        proof {
            assert(!entry_matches(rest[0], adapter_name@));
            assert(rest.drop_first() =~= entries@.skip(i + 1 as int));
        }
        i = i + 1;
    }
    proof {
        assert(entries@.skip(i as int).len() == 0);
    }
    Err(RfkillError::NoMatchingAdapter)
}

} // verus!
