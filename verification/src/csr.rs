//! Control and status register access to the emulated device.
//!
//! Register reads and writes are forwarded to the simulator as small RPC
//! messages over UDP; the simulator answers a read with the register's value.
//! Device `uverbsN` is served on UDP port `7701 + N`.
use vstd::prelude::*;
use vstd::string::StringSliceAdditionalSpecFns;

verus! {

/// A register access forwarded to the simulator.
#[derive(Clone, Copy, Debug, PartialEq, Eq, Structural)]
pub struct CsrAccessRpcMessage {
    pub is_write: bool,
    pub addr: usize,
    pub value: u32,
}

impl CsrAccessRpcMessage {
    /// The request for reading register `addr`.
    pub fn read_request(addr: usize) -> (r: Self)
        ensures
            r == (CsrAccessRpcMessage { is_write: false, addr, value: 0 }),
    {
        CsrAccessRpcMessage { is_write: false, addr, value: 0 }
    }

    /// The request for writing `value` to register `addr`.
    pub fn write_request(addr: usize, value: u32) -> (r: Self)
        ensures
            r == (CsrAccessRpcMessage { is_write: true, addr, value }),
    {
        CsrAccessRpcMessage { is_write: true, addr, value }
    }

    /// The register value an answer carries.
    pub fn read_value(&self) -> (r: u32)
        ensures
            r == self.value,
    {
        self.value
    }
}

/// UDP port of the simulator serving device 0; device `N` is served `N`
/// ports above.
pub const EMULATOR_BASE_PORT: usize = 7701;

/// The bytes of the device name prefix "uverbs".
pub open spec fn uverbs_prefix() -> Seq<u8> {
    seq![117u8, 118u8, 101u8, 114u8, 98u8, 115u8]
}

/// `s` with every leading repetition of the prefix `p` removed.
pub open spec fn strip_prefixes(s: Seq<u8>, p: Seq<u8>) -> Seq<u8>
    decreases s.len(),
{
    if p.len() > 0 && s.len() >= p.len() && s.subrange(0, p.len() as int) == p {
        strip_prefixes(s.subrange(p.len() as int, s.len() as int), p)
    } else {
        s
    }
}

pub open spec fn is_digit(b: u8) -> bool {
    48 <= b <= 57
}

pub open spec fn all_digits(s: Seq<u8>) -> bool {
    forall|i: int| 0 <= i < s.len() ==> is_digit(#[trigger] s[i])
}

/// The number a string of decimal digits denotes.
pub open spec fn digits_value(s: Seq<u8>) -> nat
    decreases s.len(),
{
    if s.len() == 0 {
        0
    } else {
        digits_value(s.drop_last()) * 10 + (s.last() - 48) as nat
    }
}

/// Parsing an unsigned machine integer: an optional `+` followed by at least
/// one decimal digit, whose value fits in a `usize`.
pub open spec fn parse_usize(s: Seq<u8>) -> Option<nat> {
    let digits = if s.len() > 0 && s[0] == 43u8 {
        s.drop_first()
    } else {
        s
    };
    if digits.len() > 0 && all_digits(digits) && digits_value(digits) <= usize::MAX {
        Some(digits_value(digits))
    } else {
        None
    }
}

/// The device number of a device name: for a name starting with "uverbs",
/// the number after the prefix (0 when it is not a number); 0 otherwise.
pub open spec fn spec_device_index(name: Seq<u8>) -> nat {
    if name.len() >= 6 && name.subrange(0, 6) == uverbs_prefix() {
        match parse_usize(strip_prefixes(name, uverbs_prefix())) {
            Some(n) => n,
            None => 0,
        }
    } else {
        0
    }
}

fn has_uverbs_prefix(s: &[u8], start: usize) -> (r: bool)
    requires
        start <= s@.len(),
    ensures
        r == (s@.len() - start >= 6 && s@.subrange(start as int, start + 6) == uverbs_prefix()),
{
    if s.len() - start < 6 {
        return false;
    }
    let r = s[start] == 117 && s[start + 1] == 118 && s[start + 2] == 101 && s[start + 3] == 114
        && s[start + 4] == 98 && s[start + 5] == 115;
    proof {
        if r {
            assert(s@.subrange(start as int, start + 6) =~= uverbs_prefix());
        } else {
            if s@.subrange(start as int, start + 6) == uverbs_prefix() {
                assert(s@.subrange(start as int, start + 6)[0] == s@[start as int]);
                assert(s@.subrange(start as int, start + 6)[1] == s@[start + 1]);
                assert(s@.subrange(start as int, start + 6)[2] == s@[start + 2]);
                assert(s@.subrange(start as int, start + 6)[3] == s@[start + 3]);
                assert(s@.subrange(start as int, start + 6)[4] == s@[start + 4]);
                assert(s@.subrange(start as int, start + 6)[5] == s@[start + 5]);
            }
        }
    }
    r
}

/// Stripping prefixes from a suffix of `s` that starts at a non-prefix
/// position gives that suffix.
proof fn lemma_strip_from(s: Seq<u8>, start: int)
    requires
        0 <= start <= s.len(),
    ensures
        strip_prefixes(s.subrange(start, s.len() as int), uverbs_prefix()) == (if s.len() - start >= 6
            && s.subrange(start, start + 6) == uverbs_prefix() {
            strip_prefixes(s.subrange(start + 6, s.len() as int), uverbs_prefix())
        } else {
            s.subrange(start, s.len() as int)
        }),
{
    let t = s.subrange(start, s.len() as int);
    if s.len() - start >= 6 {
        assert(t.subrange(0, 6) =~= s.subrange(start, start + 6));
        assert(t.subrange(6, t.len() as int) =~= s.subrange(start + 6, s.len() as int));
    }
}

/// Parses the decimal number `s[start..]` (with an optional leading `+`)
/// as `usize::from_str` does; `None` when it is not one.
fn parse_usize_from(s: &[u8], start: usize) -> (r: Option<usize>)
    requires
        start <= s@.len(),
    ensures
        match parse_usize(s@.subrange(start as int, s@.len() as int)) {
            Some(n) => r == Some(n as usize),
            None => r is None,
        },
{
    let ghost t = s@.subrange(start as int, s@.len() as int);
    let mut i = start;
    if i < s.len() && s[i] == 43 {
        i = i + 1;
    }
    let ghost digits = s@.subrange(i as int, s@.len() as int);
    assert(digits =~= (if t.len() > 0 && t[0] == 43u8 {
        t.drop_first()
    } else {
        t
    }));
    if i == s.len() {
        return None;
    }
    let first = i;
    let mut value: usize = 0;
    while i < s.len()
        invariant
            first <= i <= s@.len(),
            first < s@.len(),
            digits == s@.subrange(first as int, s@.len() as int),
            t == s@.subrange(start as int, s@.len() as int),
            digits == (if t.len() > 0 && t[0] == 43u8 {
                t.drop_first()
            } else {
                t
            }),
            all_digits(s@.subrange(first as int, i as int)),
            value == digits_value(s@.subrange(first as int, i as int)),
        decreases s@.len() - i,
    {
        let b = s[i];
        if b < 48 || b > 57 {
            proof {
                assert(digits[i - first] == b);
                assert(!is_digit(digits[i - first]));
            }
            return None;
        }
        let ghost prefix = s@.subrange(first as int, i + 1);
        assert(prefix.drop_last() =~= s@.subrange(first as int, i as int));
        assert(prefix.last() == b);
        let d = (b - 48) as usize;
        let next = match value.checked_mul(10) {
            Some(v) => v.checked_add(d),
            None => None,
        };
        match next {
            Some(v) => {
                value = v;
            },
            None => {
                proof {
                    if all_digits(digits) {
                        lemma_digits_value_monotone(digits, (i + 1 - first) as nat);
                        assert(digits.subrange(0, (i + 1 - first) as int) =~= prefix);
                    }
                }
                return None;
            },
        }
        i = i + 1;
    }
    assert(s@.subrange(first as int, i as int) =~= digits);
    Some(value)
}

/// Extending a digit string never lowers its value.
proof fn lemma_digits_value_monotone(s: Seq<u8>, k: nat)
    requires
        k <= s.len(),
        all_digits(s),
    ensures
        digits_value(s.subrange(0, k as int)) <= digits_value(s),
    decreases s.len() - k,
{
    if k == s.len() {
        assert(s.subrange(0, k as int) =~= s);
    } else {
        assert(s.drop_last().len() == s.len() - 1);
        if k <= s.len() - 1 {
            assert(all_digits(s.drop_last()));
            lemma_digits_value_monotone(s.drop_last(), k);
            assert(s.drop_last().subrange(0, k as int) =~= s.subrange(0, k as int));
        }
    }
}

/// The device number of a device name; see `spec_device_index`.
pub fn device_index(device_name: &str) -> (r: usize)
    ensures
        r == spec_device_index(device_name.spec_bytes()),
{
    let s = device_name.as_bytes();
    if !has_uverbs_prefix(s, 0) {
        proof {
            assert(s@.subrange(0, s@.len() as int) =~= s@);
        }
        return 0;
    }
    let mut start: usize = 6;
    proof {
        lemma_strip_from(s@, 0);
        assert(s@.subrange(0, s@.len() as int) =~= s@);
    }
    let mut more = has_uverbs_prefix(s, start);
    assert(s@.len() == s.len());
    while more
        invariant
            more == (s@.len() - start >= 6 && s@.subrange(start as int, start + 6) == uverbs_prefix()),
            6 <= start <= s@.len(),
            s@.len() <= usize::MAX,
            strip_prefixes(s@, uverbs_prefix()) == strip_prefixes(
                s@.subrange(start as int, s@.len() as int),
                uverbs_prefix(),
            ),
        decreases s@.len() - start,
    {
        proof {
            lemma_strip_from(s@, start as int);
        }
        start = start + 6;
        more = has_uverbs_prefix(s, start);
    }
    proof {
        lemma_strip_from(s@, start as int);
    }
    match parse_usize_from(s, start) {
        Some(n) => n,
        None => 0,
    }
}

/// The simulator port serving the device named `device_name`.
pub fn emulated_port(device_name: &str) -> (r: usize)
    requires
        EMULATOR_BASE_PORT + spec_device_index(device_name.spec_bytes()) <= usize::MAX,
    ensures
        r == EMULATOR_BASE_PORT + spec_device_index(device_name.spec_bytes()),
{
    EMULATOR_BASE_PORT + device_index(device_name)
}

} // verus!
