//! Variable-length unsigned integer encoding: seven value bits per byte,
//! least-significant group first, high bit set on every byte but the last.
//! This is the length/tag encoding used throughout the sync wire protocol.

use vstd::prelude::*;

verus! {

/// Longest byte sequence the decoder accepts for a single integer.
/// Ten seven-bit groups cover every value of `u64`.
pub const MAX_VARINT_LEN: usize = 10;

/// The encoding of `n`, as a mathematical byte sequence.
pub open spec fn varint_enc(n: nat) -> Seq<u8>
    decreases n,
{
    if n < 128 {
        seq![n as u8]
    } else {
        seq![(128 + (n % 128)) as u8] + varint_enc(n / 128)
    }
}

/// Parse one integer from the front of `s`, reading at most `fuel` bytes.
/// Returns the value and the number of bytes consumed.
pub open spec fn varint_parse(s: Seq<u8>, fuel: nat) -> Option<(nat, nat)>
    decreases fuel,
{
    if fuel == 0 || s.len() == 0 {
        None
    } else if s[0] < 128 {
        Some((s[0] as nat, 1))
    } else {
        match varint_parse(s.subrange(1, s.len() as int), (fuel - 1) as nat) {
            None => None,
            Some(vk) => Some(((128 * vk.0 + (s[0] - 128)) as nat, vk.1 + 1)),
        }
    }
}

/// 128 raised to `k`; used to bound encoded lengths and parsed values.
pub open spec fn pow128(k: nat) -> nat
    decreases k,
{
    if k == 0 {
        1
    } else {
        128 * pow128((k - 1) as nat)
    }
}

/// A parsed value fits in `fuel` seven-bit groups, and the parser
/// never consumes more than `fuel` bytes nor more than `s` holds.
pub proof fn lemma_varint_parse_bounds(s: Seq<u8>, fuel: nat)
    ensures
        varint_parse(s, fuel) matches Some(vk) ==> vk.0 < pow128(fuel) && 1 <= vk.1 <= fuel
            && vk.1 <= s.len(),
    decreases fuel,
{
    if fuel > 0 && s.len() > 0 {
        assert(pow128(0) == 1);
        lemma_pow128_increases(1, fuel);
        if s[0] >= 128 {
            let tail = s.subrange(1, s.len() as int);
            lemma_varint_parse_bounds(tail, (fuel - 1) as nat);
            match varint_parse(tail, (fuel - 1) as nat) {
                Some(vk) => {
                    assert(128 * vk.0 + (s[0] - 128) < 128 * pow128((fuel - 1) as nat)) by {
                        assert(vk.0 + 1 <= pow128((fuel - 1) as nat));
                        assert(128 * (vk.0 + 1) <= 128 * pow128((fuel - 1) as nat))
                            by (nonlinear_arith)
                            requires
                                vk.0 + 1 <= pow128((fuel - 1) as nat),
                        ;
                    };
                },
                None => {},
            }
        }
    }
}

/// Encodings are never empty, and `n < 128^k` needs at most `k` bytes.
pub proof fn lemma_varint_enc_len(n: nat, k: nat)
    requires
        1 <= k,
        n < pow128(k),
    ensures
        1 <= varint_enc(n).len() <= k,
    decreases k,
{
    if n >= 128 {
        assert(pow128(0) == 1);
        assert(pow128(1) == 128);
        assert(k >= 2);
        assert(n / 128 < pow128((k - 1) as nat)) by {
            assert(pow128(k) == 128 * pow128((k - 1) as nat));
            assert(n < 128 * pow128((k - 1) as nat) ==> n / 128 < pow128((k - 1) as nat))
                by (nonlinear_arith);
        };
        lemma_varint_enc_len(n / 128, (k - 1) as nat);
    }
}

/// Parsing an encoding recovers the value and consumes exactly the
/// encoding, whatever follows it.
pub proof fn lemma_varint_roundtrip(n: nat, rest: Seq<u8>, fuel: nat)
    requires
        varint_enc(n).len() <= fuel,
    ensures
        varint_parse(varint_enc(n) + rest, fuel) == Some((n, varint_enc(n).len())),
    decreases n,
{
    let s = varint_enc(n) + rest;
    if n < 128 {
        assert(s[0] == n as u8);
    } else {
        let tail = varint_enc(n / 128) + rest;
        assert(s.subrange(1, s.len() as int) =~= tail);
        lemma_varint_roundtrip(n / 128, rest, (fuel - 1) as nat);
        assert(128 * (n / 128) + (s[0] - 128) == n) by {
            assert(s[0] == (128 + (n % 128)) as u8);
        };
    }
}

/// Append the encoding of `n` to `out`.
pub fn write_varint(out: &mut Vec<u8>, n: u64)
    ensures
        final(out)@ == old(out)@ + varint_enc(n as nat),
    decreases n,
{
    if n < 128 {
        out.push(n as u8);
        assert(final(out)@ =~= old(out)@ + varint_enc(n as nat));
    } else {
        let b: u8 = 128 + (n % 128) as u8;
        out.push(b);
        write_varint(out, n / 128);
        assert(final(out)@ =~= old(out)@ + varint_enc(n as nat));
    }
}

fn read_varint_rec(data: &Vec<u8>, pos: usize, fuel: usize) -> (r: Option<(u128, usize)>)
    requires
        pos <= data@.len(),
        fuel <= MAX_VARINT_LEN,
    ensures
        ({
            let tail = data@.subrange(pos as int, data@.len() as int);
            match varint_parse(tail, fuel as nat) {
                None => r is None,
                Some(vk) => r == Some((vk.0 as u128, vk.1 as usize)),
            }
        }),
    decreases fuel,
{
    let ghost tail = data@.subrange(pos as int, data@.len() as int);
    if fuel == 0 || pos == data.len() {
        None
    } else {
        let b = data[pos];
        if b < 128 {
            Some((b as u128, 1))
        } else {
            proof {
                assert(tail.subrange(1, tail.len() as int) =~= data@.subrange(
                    pos + 1,
                    data@.len() as int,
                ));
            }
            match read_varint_rec(data, pos + 1, fuel - 1) {
                None => None,
                Some(vk) => {
                    proof {
                        lemma_varint_parse_bounds(
                            tail.subrange(1, tail.len() as int),
                            (fuel - 1) as nat,
                        );
                        lemma_pow128_max_len_fits();
                        lemma_pow128_increases((fuel - 1) as nat, MAX_VARINT_LEN as nat);
                        assert(vk.0 < pow128(MAX_VARINT_LEN as nat));
                        assert(128 * vk.0 <= 128 * (pow128(MAX_VARINT_LEN as nat) - 1))
                            by (nonlinear_arith)
                            requires
                                vk.0 <= pow128(MAX_VARINT_LEN as nat) - 1,
                        ;
                        assert(128 * (pow128(MAX_VARINT_LEN as nat) - 1) + 128 < u128::MAX) by {
                            reveal_with_fuel(pow128, 11);
                        };
                        lemma_varint_parse_bounds(tail, fuel as nat);
                    }
                    Some((128 * vk.0 + (b - 128) as u128, vk.1 + 1))
                },
            }
        }
    }
}

proof fn lemma_pow128_max_len_fits()
    ensures
        pow128(MAX_VARINT_LEN as nat) < u128::MAX,
{
    assert(pow128(MAX_VARINT_LEN as nat) < u128::MAX) by {
        reveal_with_fuel(pow128, 11);
    };
}

proof fn lemma_pow128_increases(a: nat, b: nat)
    requires
        a <= b,
    ensures
        pow128(a) <= pow128(b),
    decreases b,
{
    if a < b {
        lemma_pow128_increases(a, (b - 1) as nat);
    }
}

/// Read one integer starting at `pos`.  Returns the value and the position
/// just past it, or `None` when no well-formed integer that fits in a `u64`
/// starts there.
pub fn read_varint(data: &Vec<u8>, pos: usize) -> (r: Option<(u64, usize)>)
    requires
        pos <= data@.len(),
    ensures
        ({
            let tail = data@.subrange(pos as int, data@.len() as int);
            match varint_parse(tail, MAX_VARINT_LEN as nat) {
                None => r is None,
                Some(vk) => if vk.0 <= u64::MAX {
                    r == Some((vk.0 as u64, (pos + vk.1) as usize))
                } else {
                    r is None
                },
            }
        }),
{
    proof {
        lemma_varint_parse_bounds(
            data@.subrange(pos as int, data@.len() as int),
            MAX_VARINT_LEN as nat,
        );
        lemma_pow128_max_len_fits();
    }
    let dlen = data.len();
    match read_varint_rec(data, pos, MAX_VARINT_LEN) {
        None => None,
        Some(vk) => {
            if vk.0 <= u64::MAX as u128 {
                assert(pos + vk.1 <= dlen);
                Some((vk.0 as u64, pos + vk.1))
            } else {
                None
            }
        },
    }
}

} // verus!
