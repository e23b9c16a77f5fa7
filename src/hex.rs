//! Hexadecimal text for keys: the fixed 64-digit form of a found key, the
//! unpadded lowercase form of range boundaries, and parsing.
use vstd::prelude::*;
use crate::key::{U256, half_base, key_bound};
use crate::error::SearchError;
use vstd::string::{StrSliceExecFns, StringExecFns};

verus! {

/// 2^124: a key at or above `TOP_NIBBLE * 2^128` has no room for another digit.
const TOP_NIBBLE: u128 = 0x1000_0000_0000_0000_0000_0000_0000_0000;

pub open spec fn is_hex_char(c: char) -> bool {
    ('0' <= c && c <= '9') || ('a' <= c && c <= 'f') || ('A' <= c && c <= 'F')
}

pub open spec fn is_lower_hex_char(c: char) -> bool {
    ('0' <= c && c <= '9') || ('a' <= c && c <= 'f')
}

/// The value of one hexadecimal digit, either case.
pub open spec fn digit_value(c: char) -> nat {
    if '0' <= c && c <= '9' {
        (c as nat - '0' as nat) as nat
    } else if 'a' <= c && c <= 'f' {
        (c as nat - 'a' as nat + 10) as nat
    } else {
        (c as nat - 'A' as nat + 10) as nat
    }
}

pub open spec fn is_lower_hex(s: Seq<char>) -> bool {
    forall|i: int| 0 <= i < s.len() ==> #[trigger] is_lower_hex_char(s[i])
}

pub open spec fn is_hex(s: Seq<char>) -> bool {
    forall|i: int| 0 <= i < s.len() ==> #[trigger] is_hex_char(s[i])
}

/// The number that a string of hexadecimal digits denotes, most significant first.
pub open spec fn hex_value(s: Seq<char>) -> nat
    decreases s.len(),
{
    if s.len() == 0 {
        0
    } else {
        hex_value(s.drop_last()) * 16 + digit_value(s.last())
    }
}

pub open spec fn pow16(n: nat) -> nat
    decreases n,
{
    if n == 0 {
        1
    } else {
        16 * pow16((n - 1) as nat)
    }
}

/// The form of a found key: exactly 64 lowercase digits, zero-padded.
pub open spec fn is_fixed_hex_of(s: Seq<char>, v: nat) -> bool {
    s.len() == 64 && is_lower_hex(s) && hex_value(s) == v
}

/// The form of a range boundary: lowercase, no leading zeros (zero is "0").
pub open spec fn is_plain_hex_of(s: Seq<char>, v: nat) -> bool {
    &&& 1 <= s.len() <= 64
    &&& is_lower_hex(s)
    &&& hex_value(s) == v
    &&& (s.len() == 1 || s[0] != '0')
}

/// What `parse_hex_key` reads: its argument without one leading `0x`.
pub open spec fn hex_body(s: Seq<char>) -> Seq<char> {
    if s.len() >= 2 && s[0] == '0' && s[1] == 'x' {
        s.subrange(2, s.len() as int)
    } else {
        s
    }
}

proof fn lemma_hex_value_concat(a: Seq<char>, b: Seq<char>)
    ensures
        hex_value(a + b) == hex_value(a) * pow16(b.len()) + hex_value(b),
    decreases b.len(),
{
    if b.len() == 0 {
        assert(a + b =~= a);
        assert(pow16(0) == 1);
        assert(hex_value(b) == 0);
    } else {
        let bp = b.drop_last();
        assert((a + b).drop_last() =~= a + bp);
        assert((a + b).last() == b.last());
        lemma_hex_value_concat(a, bp);
        assert(pow16(b.len()) == 16 * pow16(bp.len()));
        assert(hex_value(b) == hex_value(bp) * 16 + digit_value(b.last()));
        assert(hex_value(a + b) == hex_value(a + bp) * 16 + digit_value(b.last()));
        let x = hex_value(a);
        let p = pow16(bp.len());
        let y = hex_value(bp);
        let d = digit_value(b.last());
        assert((x * p + y) * 16 + d == x * (16 * p) + (y * 16 + d)) by (nonlinear_arith);
        assert(hex_value(a + bp) == x * p + y);
        assert(hex_value(a + b) == (x * p + y) * 16 + d);
    }
}

proof fn lemma_zeros_value(s: Seq<char>)
    requires
        forall|i: int| 0 <= i < s.len() ==> s[i] == '0',
    ensures
        hex_value(s) == 0,
    decreases s.len(),
{
    if s.len() > 0 {
        lemma_zeros_value(s.drop_last());
    }
}

proof fn lemma_pow16_pos(n: nat)
    ensures
        pow16(n) >= 1,
    decreases n,
{
    if n > 0 {
        lemma_pow16_pos((n - 1) as nat);
    }
}

proof fn lemma_pow16_32()
    ensures
        pow16(32) == half_base(),
{
    reveal_with_fuel(pow16, 33);
    assert(pow16(32) == half_base());
}

/// Relies on std's `{:032x}` formatting of `u128`: 32 lowercase hex digits,
/// zero-padded, denoting the value.
#[verifier::external_body]
fn hex_u128(x: u128) -> (r: String)
    ensures
        r@.len() == 32,
        is_lower_hex(r@),
        hex_value(r@) == x as nat,
{
    format!("{:032x}", x)
}

impl U256 {
    /// The key as exactly 64 lowercase hex digits.
    pub fn to_fixed_hex(&self) -> (r: String)
        ensures
            is_fixed_hex_of(r@, self@),
    {
        let mut s = hex_u128(self.hi);
        let ghost hi_digits = s@;
        let lo = hex_u128(self.lo);
        s.append(lo.as_str());
        proof {
            lemma_hex_value_concat(hi_digits, lo@);
            lemma_pow16_32();
            assert forall|i: int| 0 <= i < s@.len() implies #[trigger] is_lower_hex_char(s@[i]) by {
                if i < 32 {
                    assert(is_lower_hex_char(hi_digits[i]));
                } else {
                    assert(is_lower_hex_char(lo@[i - 32]));
                }
            }
        }
        s
    }

    /// The key as lowercase hex digits with no leading zeros ("0" for zero).
    pub fn to_hex(&self) -> (r: String)
        ensures
            is_plain_hex_of(r@, self@),
    {
        let full = self.to_fixed_hex();
        let fs = full.as_str();
        let mut i: usize = 0;
        while i < 63 && fs.get_char(i) == '0'
            invariant
                i <= 63,
                fs@ == full@,
                is_fixed_hex_of(full@, self@),
                forall|j: int| 0 <= j < i ==> full@[j] == '0',
            decreases 63 - i,
        {
            i = i + 1;
        }
        let rest = fs.substring_char(i, 64);
        proof {
            let z = full@.subrange(0, i as int);
            let t = full@.subrange(i as int, 64);
            assert(full@ =~= z + t);
            lemma_hex_value_concat(z, t);
            lemma_zeros_value(z);
            assert forall|j: int| 0 <= j < t.len() implies #[trigger] is_lower_hex_char(t[j]) by {
                assert(is_lower_hex_char(full@[j + i]));
            }
            assert(t.len() == 1 || t[0] != '0');
        }
        String::from_str(rest)
    }

    /// `self * 16 + d`, or `None` when that does not fit in 256 bits.
    fn shift_in_digit(&self, d: u8) -> (r: Option<U256>)
        requires
            d < 16,
        ensures
            r is Some <==> self@ * 16 + d < key_bound(),
            r matches Some(s) ==> s@ == self@ * 16 + d,
    {
        let top: u128 = TOP_NIBBLE;
        if self.hi >= top {
            proof {
                assert(self@ * 16 + d >= key_bound()) by (nonlinear_arith)
                    requires
                        self@ == self.hi as nat * half_base() + self.lo as nat,
                        self.hi >= top,
                        top as nat * 16 == half_base(),
                        key_bound() == half_base() * half_base(),
                ;
            }
            None
        } else {
            let q = self.lo / top;
            let m = self.lo % top;
            proof {
                assert(self@ * 16 + d == (self.hi as nat * 16 + q as nat) * half_base() + (m as nat * 16 + d as nat)) by (nonlinear_arith)
                    requires
                        self@ == self.hi as nat * half_base() + self.lo as nat,
                        self.lo == q * top + m,
                        top as nat * 16 == half_base(),
                ;
                assert(self.hi as nat * 16 + q as nat <= u128::MAX) by (nonlinear_arith)
                    requires
                        self.hi < top,
                        q < 16,
                        top as nat * 16 == half_base(),
                ;
            }
            Some(U256 { hi: self.hi * 16 + q, lo: m * 16 + d as u128 })
        }
    }
}

fn digit_of(c: char) -> (r: u8)
    requires
        is_hex_char(c),
    ensures
        r as nat == digit_value(c),
        r < 16,
{
    if '0' <= c && c <= '9' {
        (c as u32 - '0' as u32) as u8
    } else if 'a' <= c && c <= 'f' {
        (c as u32 - 'a' as u32 + 10) as u8
    } else {
        (c as u32 - 'A' as u32 + 10) as u8
    }
}

/// Parses a key written in hexadecimal, with or without a leading `0x`.
/// Fails with `InvalidKey` on an empty body, a character that is not a hex
/// digit (either case), or a value of 2^256 or more.
pub fn parse_hex_key(hex_str: &str) -> (r: Result<U256, SearchError>)
    ensures
        r is Ok <==> (hex_body(hex_str@).len() > 0 && is_hex(hex_body(hex_str@)) && hex_value(
            hex_body(hex_str@),
        ) < key_bound()),
        r matches Ok(k) ==> k@ == hex_value(hex_body(hex_str@)),
        r matches Err(e) ==> e == SearchError::InvalidKey,
{
    let n = hex_str.unicode_len();
    let start: usize = if n >= 2 && hex_str.get_char(0) == '0' && hex_str.get_char(1) == 'x' {
        2
    } else {
        0
    };
    let ghost body = hex_body(hex_str@);
    proof {
        assert(body =~= hex_str@.subrange(start as int, n as int));
    }
    if start == n {
        return Err(SearchError::InvalidKey);
    }
    let mut acc = U256::zero();
    let mut i: usize = start;
    proof {
        assert(body.subrange(0, 0) =~= Seq::<char>::empty());
    }
    while i < n
        invariant
            start <= i <= n,
            n == hex_str@.len(),
            body == hex_body(hex_str@),
            body =~= hex_str@.subrange(start as int, n as int),
            is_hex(body.subrange(0, i - start)),
            acc@ == hex_value(body.subrange(0, i - start)),
        decreases n - i,
    {
        let c = hex_str.get_char(i);
        let ghost pre = body.subrange(0, i - start);
        let ghost next = body.subrange(0, i - start + 1);
        proof {
            assert(body[i - start] == hex_str@[i as int]);
            assert(next.drop_last() =~= pre);
            assert(next.last() == c);
        }
        if !('0' <= c && c <= '9') && !('a' <= c && c <= 'f') && !('A' <= c && c <= 'F') {
            proof {
                assert(!is_hex_char(body[i - start]));
                assert(!is_hex(body));
            }
            return Err(SearchError::InvalidKey);
        }
        let d = digit_of(c);
        match acc.shift_in_digit(d) {
            Some(a) => {
                acc = a;
                proof {
                    assert forall|j: int| 0 <= j < next.len() implies #[trigger] is_hex_char(next[j]) by {
                        if j < pre.len() {
                            assert(is_hex_char(pre[j]));
                        }
                    }
                }
            },
            None => {
                proof {
                    if is_hex(body) {
                        let rest = body.subrange(i - start + 1, body.len() as int);
                        assert(body =~= next + rest);
                        lemma_hex_value_concat(next, rest);
                        lemma_pow16_pos(rest.len());
                        assert(hex_value(next) * pow16(rest.len()) >= hex_value(next)) by (nonlinear_arith)
                            requires
                                pow16(rest.len()) >= 1,
                        ;
                    }
                }
                return Err(SearchError::InvalidKey);
            },
        }
        i = i + 1;
    }
    proof {
        assert(body.subrange(0, n - start) =~= body);
    }
    Ok(acc)
}

} // verus!
