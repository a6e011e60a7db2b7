use vstd::prelude::*;

verus! {

use vstd::arithmetic::power2::{pow2, lemma_pow2_adds, lemma2_to64};
use vstd::arithmetic::div_mod::{
    lemma_fundamental_div_mod_converse,
    lemma_div_denominator,
    lemma_mod_multiples_vanish,
};
use vstd::string::StringSliceAdditionalSpecFns;

use crate::nbt::{Tag, SpecTag, tag_view, compound_get, tags_view};
use crate::block::{Block, ascii_bytes, spec_block_name, spec_block_property};
use crate::utils::{u64_of_i64, i64_of_u64};

/// The packed bit width for a palette of `n` entries: the base-2 logarithm
/// rounded up, but at least 4. A section palette never exceeds 4096 entries,
/// and the wire format never allows more than 15 bits.
pub open spec fn bits_for(n: int) -> int {
    if n <= 16 {
        4
    } else if n <= 32 {
        5
    } else if n <= 64 {
        6
    } else if n <= 128 {
        7
    } else if n <= 256 {
        8
    } else if n <= 512 {
        9
    } else if n <= 1024 {
        10
    } else if n <= 2048 {
        11
    } else if n <= 4096 {
        12
    } else if n <= 8192 {
        13
    } else if n <= 16384 {
        14
    } else {
        15
    }
}

pub fn bits_for_len(n: usize) -> (r: usize)
    ensures
        r == bits_for(n as int),
{
    if n <= 16 {
        4
    } else if n <= 32 {
        5
    } else if n <= 64 {
        6
    } else if n <= 128 {
        7
    } else if n <= 256 {
        8
    } else if n <= 512 {
        9
    } else if n <= 1024 {
        10
    } else if n <= 2048 {
        11
    } else if n <= 4096 {
        12
    } else if n <= 8192 {
        13
    } else if n <= 16384 {
        14
    } else {
        15
    }
}

/// The value of a run of palette indices packed into one 64-bit word, least
/// significant entry first, `bits` bits each.
pub open spec fn word_val(s: Seq<u16>, bits: int) -> int
    decreases s.len(),
{
    if s.len() == 0 {
        0
    } else {
        s[0] + pow2(bits as nat) * word_val(s.skip(1), bits)
    }
}

/// The index stored at slot `k` of a packed word.
pub open spec fn word_slot(w: u64, bits: int, k: int) -> u16 {
    ((w as int / pow2((bits * k) as nat) as int) % pow2(bits as nat) as int) as u16
}

/// A packed word holds a value below 2 to the number of bits its entries span.
pub proof fn lemma_word_val_bound(s: Seq<u16>, bits: int)
    requires
        1 <= bits,
        forall|k: int| 0 <= k < s.len() ==> (#[trigger] s[k]) < pow2(bits as nat),
    ensures
        0 <= word_val(s, bits) < pow2((bits * s.len()) as nat),
    decreases s.len(),
{
    if s.len() == 0 {
        vstd::arithmetic::power2::lemma_pow2_pos((bits * s.len()) as nat);
    } else {
        lemma_word_val_bound(s.skip(1), bits);
        let b = pow2(bits as nat) as int;
        let rest = word_val(s.skip(1), bits);
        lemma_pow2_adds(bits as nat, (bits * (s.len() - 1)) as nat);
        assert(bits + bits * (s.len() - 1) == bits * s.len()) by (nonlinear_arith);
        assert(s[0] + b * rest < b * (rest + 1)) by (nonlinear_arith)
            requires
                s[0] < b,
                b >= 1,
        ;
        assert(b * (rest + 1) <= b * pow2((bits * (s.len() - 1)) as nat)) by (nonlinear_arith)
            requires
                rest + 1 <= pow2((bits * (s.len() - 1)) as nat),
                b >= 1,
        ;
        assert(b * rest >= 0) by (nonlinear_arith)
            requires
                rest >= 0,
                b >= 1,
        ;
    }
}

/// Law: slot `k` of a packed word gives back the index that was packed
/// there, as long as every index fits in `bits` bits.
pub proof fn lemma_word_round_trip(s: Seq<u16>, bits: int, k: int)
    requires
        1 <= bits,
        bits * s.len() <= 64,
        forall|j: int| 0 <= j < s.len() ==> (#[trigger] s[j]) < pow2(bits as nat),
        0 <= k < s.len(),
    ensures
        word_val(s, bits) < pow2((bits * s.len()) as nat),
        word_slot(word_val(s, bits) as u64, bits, k) == s[k],
    decreases k,
{
    lemma_word_val_bound(s, bits);
    let b = pow2(bits as nat) as int;
    vstd::arithmetic::power2::lemma_pow2_pos(bits as nat);
    let v = word_val(s, bits);
    let rest = word_val(s.skip(1), bits);
    assert(v == s[0] + b * rest);
    assert(v as u64 == v) by {
        lemma2_to64();
        assert(pow2(64) == 0x10000000000000000);
        if bits * s.len() < 64 {
            vstd::arithmetic::power2::lemma_pow2_strictly_increases((bits * s.len()) as nat, 64);
        }
    }
    assert(s[0] < b);
    assert(b > 0);
    if k == 0 {
        assert(pow2(0) == 1) by {
            lemma2_to64();
        }
        assert(bits * 0 == 0);
        assert(v / pow2(0) as int == v);
        lemma_mod_multiples_vanish(rest, s[0] as int, b);
        assert((s[0] + b * rest) % b == (s[0] as int) % b) by {
            assert(b * rest + s[0] == s[0] + b * rest);
        }
        vstd::arithmetic::div_mod::lemma_small_mod(s[0] as nat, b as nat);
        assert((s[0] as int) % b == s[0]);
    } else {
        lemma_word_val_bound(s.skip(1), bits);
        assert(rest >= 0);
        assert(v == rest * b + s[0]) by (nonlinear_arith)
            requires
                v == s[0] + b * rest,
        ;
        lemma_fundamental_div_mod_converse(v, b, rest, s[0] as int);
        assert(v / b == rest);
        assert(bits * s.skip(1).len() <= 64) by (nonlinear_arith)
            requires
                bits * s.len() <= 64,
                s.skip(1).len() == s.len() - 1,
                bits >= 1,
        ;
        lemma_word_round_trip(s.skip(1), bits, k - 1);
        let pk1 = pow2((bits * (k - 1)) as nat) as int;
        let pk = pow2((bits * k) as nat) as int;
        vstd::arithmetic::power2::lemma_pow2_pos((bits * (k - 1)) as nat);
        lemma_pow2_adds(bits as nat, (bits * (k - 1)) as nat);
        assert(bits + bits * (k - 1) == bits * k) by (nonlinear_arith);
        assert(pk == b * pk1);
        lemma_div_denominator(v, b, pk1);
        assert(v / b / pk1 == v / (b * pk1));
        assert(s.skip(1)[k - 1] == s[k]);
        assert(word_slot(rest as u64, bits, k - 1) == s[k]);
        assert(rest as u64 == rest) by {
            assert(rest <= v) by (nonlinear_arith)
                requires
                    v == s[0] + b * rest,
                    s[0] >= 0,
                    b >= 1,
                    rest >= 0,
            ;
        }
    }
}

/// Packs palette indices into 64-bit words, least significant entry first,
/// with no entry straddling a word boundary.
#[verifier::rlimit(100)]
#[verifier::spinoff_prover]
pub fn pack_ids(ids: &Vec<u16>, bits: usize) -> (r: Vec<u64>)
    requires
        4 <= bits <= 15,
        forall|k: int| 0 <= k < ids@.len() ==> (#[trigger] ids@[k]) < pow2(bits as nat),
        ids@.len() <= 4096,
    ensures
        r@.len() == (ids@.len() + (64int / bits as int) - 1) / (64int / bits as int),
        forall|i: int|
            0 <= i < r@.len() ==> (#[trigger] r@[i]) == word_val(
                ids@.subrange(
                    i * (64int / bits as int),
                    if (i + 1) * (64int / bits as int) <= ids@.len() {
                        (i + 1) * (64int / bits as int)
                    } else {
                        ids@.len() as int
                    },
                ),
                bits as int,
            ),
{
    let epl: usize = 64 / bits;
    let m: u64 = 1u64 << (bits as u64);
    proof {
        vstd::bits::lemma_u64_pow2_no_overflow(bits as nat);
        vstd::bits::lemma_u64_shl_is_mul(1u64, bits as u64);
        lemma2_to64();
        assert(m == pow2(bits as nat));
    }
    let n_words: usize = (ids.len() + epl - 1) / epl;
    proof {
        assert(n_words <= 4096) by (nonlinear_arith)
            requires
                n_words == (ids@.len() + epl - 1) / (epl as int),
                ids@.len() <= 4096,
                1 <= epl <= 16,
        ;
    }
    let mut out: Vec<u64> = Vec::new();
    let mut i: usize = 0;
    let ghost n = ids@.len() as int;
    let ghost eplg: int = 64int / bits as int;
    while i < n_words
        invariant
            4 <= bits <= 15,
            epl == eplg,
            eplg == 64int / bits as int,
            1 <= epl <= 16,
            m == pow2(bits as nat),
            n == ids@.len(),
            n <= 4096,
            n_words == (n + eplg - 1) / eplg,
            n_words <= 4096,
            forall|k: int| 0 <= k < n ==> (#[trigger] ids@[k]) < pow2(bits as nat),
            i <= n_words,
            out@.len() == i,
            forall|w: int|
                0 <= w < i ==> (#[trigger] out@[w]) == word_val(
                    ids@.subrange(
                        w * eplg,
                        if (w + 1) * eplg <= n {
                            (w + 1) * eplg
                        } else {
                            n
                        },
                    ),
                    bits as int,
                ),
        decreases n_words - i,
    {
        proof {
            assert(i * epl <= 4096 * 16) by (nonlinear_arith)
                requires
                    i <= 4096,
                    epl <= 16,
            ;
        }
        let base: usize = i * epl;
        proof {
            assert(base < n) by (nonlinear_arith)
                requires
                    base == i * epl,
                    i < n_words,
                    n_words == (n + eplg - 1) / eplg,
                    epl == eplg,
                    1 <= eplg,
                    0 <= n,
            ;
        }
        let hi: usize = if base + epl <= ids.len() {
            base + epl
        } else {
            ids.len()
        };
        let ghost slice = ids@.subrange(base as int, hi as int);
        let mut e: u64 = 0;
        let mut mult: u64 = 1;
        let mut j: usize = 0;
        proof {
            assert(pow2(0) == 1) by {
                lemma2_to64();
            }
            assert(slice.skip(0) =~= slice);
        }
        while j < hi - base
            invariant
                0 <= j <= hi - base,
                base < hi <= ids@.len(),
                hi - base <= epl,
                4 <= bits <= 15,
                1 <= epl <= 16,
                epl == eplg,
                eplg == 64int / bits as int,
                m == pow2(bits as nat),
                slice == ids@.subrange(base as int, hi as int),
                forall|k: int| 0 <= k < ids@.len() ==> (#[trigger] ids@[k]) < pow2(bits as nat),
                j < hi - base ==> mult == pow2((bits * j) as nat),
                e + mult * word_val(slice.skip(j as int), bits as int) == word_val(
                    slice,
                    bits as int,
                ),
                j < hi - base ==> e < mult,
            decreases hi - base - j,
        {
            let ghost tail = slice.skip(j as int);
            proof {
                assert(tail[0] == ids@[base + j]);
                assert(tail.skip(1) =~= slice.skip(j + 1));
                assert(word_val(tail, bits as int) == tail[0] + pow2(bits as nat) * word_val(
                    tail.skip(1),
                    bits as int,
                ));
                assert(e + mult * (tail[0] + pow2(bits as nat) * word_val(
                    tail.skip(1),
                    bits as int,
                )) == (e + mult * tail[0]) + (mult * pow2(bits as nat)) * word_val(
                    tail.skip(1),
                    bits as int,
                )) by (nonlinear_arith);
                lemma_pow2_adds((bits * j) as nat, bits as nat);
                assert(bits * j + bits == bits * (j + 1)) by (nonlinear_arith);
                assert(bits * (j + 1) <= 64) by (nonlinear_arith)
                    requires
                        j + 1 <= epl,
                        epl == 64int / bits as int,
                        4 <= bits <= 15,
                ;
                assert(e + mult * tail[0] < mult * pow2(bits as nat)) by (nonlinear_arith)
                    requires
                        e < mult,
                        tail[0] < pow2(bits as nat),
                        mult >= 1,
                ;
                assert(mult * pow2(bits as nat) == pow2((bits * (j + 1)) as nat));
                assert(pow2((bits * (j + 1)) as nat) <= pow2(64)) by {
                    if bits * (j + 1) < 64 {
                        vstd::arithmetic::power2::lemma_pow2_strictly_increases(
                            (bits * (j + 1)) as nat,
                            64,
                        );
                    }
                }
                lemma2_to64();
                assert(pow2(64) == 0x10000000000000000);
                assert(mult * (ids@[base + j] as u64) <= e + mult * tail[0]) by (nonlinear_arith)
                    requires
                        e >= 0,
                        tail[0] == ids@[base + j],
                ;
            }
            e = e + mult * (ids[base + j] as u64);
            if j + 1 < epl {
                proof {
                    assert(bits * (j + 1) < 64) by (nonlinear_arith)
                        requires
                            j + 1 < epl,
                            epl == 64int / bits as int,
                            4 <= bits <= 15,
                    ;
                    vstd::arithmetic::power2::lemma_pow2_strictly_increases(
                        (bits * (j + 1)) as nat,
                        64,
                    );
                }
                mult = mult * m;
            } else {
                proof {
                    assert(j + 1 >= hi - base);
                }
            }
            j = j + 1;
        }
        proof {
            assert(slice.skip(hi - base) =~= Seq::<u16>::empty());
            assert(word_val(slice.skip(hi - base), bits as int) == 0);
            assert(e == word_val(slice, bits as int)) by (nonlinear_arith)
                requires
                    e + mult * word_val(slice.skip(hi - base), bits as int) == word_val(
                        slice,
                        bits as int,
                    ),
                    word_val(slice.skip(hi - base), bits as int) == 0,
            ;
        }
        out.push(e);
        i = i + 1;
        proof {
            assert((i - 1) * eplg == base);
            assert(i * eplg == base + eplg) by (nonlinear_arith)
                requires
                    (i - 1) * eplg == base,
            ;
            assert forall|w: int| 0 <= w < i implies (#[trigger] out@[w]) == word_val(
                ids@.subrange(
                    w * eplg,
                    if (w + 1) * eplg <= n {
                        (w + 1) * eplg
                    } else {
                        n
                    },
                ),
                bits as int,
            ) by {
                if w == i - 1 {
                    assert(hi as int == if (w + 1) * eplg <= n {
                        (w + 1) * eplg
                    } else {
                        n
                    });
                }
            }
        }
    }
    proof {
        assert(out@.len() == (n + eplg - 1) / eplg);
    }
    out
}

/// Unpacks a packed long array into palette indices, reading each word's
/// slots from the least significant end.
#[verifier::rlimit(100)]
#[verifier::spinoff_prover]
pub fn unpack_ids(words: &Vec<i64>, bits: usize) -> (r: Vec<u16>)
    requires
        4 <= bits <= 15,
        words@.len() <= 0x0fff_ffff,
    ensures
        r@.len() == words@.len() * (64int / bits as int),
        forall|j: int|
            0 <= j < r@.len() ==> (#[trigger] r@[j]) == word_slot(
                u64_of_i64(words@[j / (64int / bits as int)]),
                bits as int,
                j % (64int / bits as int),
            ),
{
    let epl: usize = 64 / bits;
    let m: u64 = 1u64 << (bits as u64);
    proof {
        vstd::bits::lemma_u64_pow2_no_overflow(bits as nat);
        vstd::bits::lemma_u64_shl_is_mul(1u64, bits as u64);
        lemma2_to64();
        assert(m == pow2(bits as nat));
        vstd::arithmetic::power2::lemma_pow2_pos(bits as nat);
    }
    let mut out: Vec<u16> = Vec::new();
    let mut i: usize = 0;
    let ghost eplg: int = 64int / bits as int;
    while i < words.len()
        invariant
            4 <= bits <= 15,
            epl == eplg,
            eplg == 64int / bits as int,
            1 <= epl <= 16,
            m == pow2(bits as nat),
            m >= 16,
            i <= words@.len(),
            words@.len() <= 0x0fff_ffff,
            out@.len() == i * eplg,
            forall|j: int|
                0 <= j < out@.len() ==> (#[trigger] out@[j]) == word_slot(
                    u64_of_i64(words@[j / eplg]),
                    bits as int,
                    j % eplg,
                ),
        decreases words@.len() - i,
    {
        let w: u64 = {
            let x = words[i];
            if x >= 0 {
                x as u64
            } else {
                let low: i64 = x + 0x7fff_ffff_ffff_ffff + 1;
                (low as u64) + 0x8000_0000_0000_0000
            }
        };
        proof {
            assert(w == u64_of_i64(words@[i as int]));
            assert(pow2(0) == 1) by {
                lemma2_to64();
            }
        }
        let mut val: u64 = w;
        let mut k: usize = 0;
        proof {
            assert(pow2((bits * 0) as nat) == 1) by {
                lemma2_to64();
            }
            assert(val == w as int / pow2((bits * 0) as nat) as int);
        }
        while k < epl
            invariant
                k <= epl,
                4 <= bits <= 15,
                epl == eplg,
                eplg == 64int / bits as int,
                1 <= epl <= 16,
                m == pow2(bits as nat),
                m >= 16,
                i < words@.len(),
                words@.len() <= 0x0fff_ffff,
                w == u64_of_i64(words@[i as int]),
                val == w as int / pow2((bits * k) as nat) as int,
                out@.len() == i * eplg + k,
                forall|j: int|
                    0 <= j < i * eplg ==> (#[trigger] out@[j]) == word_slot(
                        u64_of_i64(words@[j / eplg]),
                        bits as int,
                        j % eplg,
                    ),
                forall|j: int|
                    i * eplg <= j < out@.len() ==> (#[trigger] out@[j]) == word_slot(
                        w,
                        bits as int,
                        j - i * eplg,
                    ),
            decreases epl - k,
        {
            let slot: u16 = (val % m) as u16;
            proof {
                assert(val % m < m);
                assert(m <= 0x8000) by {
                    lemma2_to64();
                    if (bits as nat) < 15 {
                        vstd::arithmetic::power2::lemma_pow2_strictly_increases(bits as nat, 15);
                    }
                    assert(pow2(15) == 0x8000);
                }
                assert(slot == word_slot(w, bits as int, k as int));
            }
            out.push(slot);
            proof {
                lemma_pow2_adds((bits * k) as nat, bits as nat);
                assert(bits * k + bits == bits * (k + 1)) by (nonlinear_arith);
                vstd::arithmetic::power2::lemma_pow2_pos((bits * k) as nat);
                lemma_div_denominator(
                    w as int,
                    pow2((bits * k) as nat) as int,
                    m as int,
                );
            }
            val = val / m;
            k = k + 1;
        }
        i = i + 1;
        proof {
            assert(out@.len() == i * eplg) by (nonlinear_arith)
                requires
                    out@.len() == (i - 1) * eplg + eplg,
            ;
            assert forall|j: int| 0 <= j < out@.len() implies (#[trigger] out@[j]) == word_slot(
                u64_of_i64(words@[j / eplg]),
                bits as int,
                j % eplg,
            ) by {
                if j >= (i - 1) * eplg {
                    lemma_fundamental_div_mod_converse(j, eplg, i - 1, j - (i - 1) * eplg);
                }
            }
        }
    }
    proof {
        assert(out@.len() == words@.len() * eplg);
    }
    out
}

/// Law: packing 4096 palette indices and unpacking the stored long array
/// yields the original indices, for any palette of 1 to 2 to the 15 entries.
pub proof fn lemma_packed_round_trip(ids: Seq<u16>, bits: int, j: int)
    requires
        4 <= bits <= 15,
        forall|k: int| 0 <= k < ids.len() ==> (#[trigger] ids[k]) < pow2(bits as nat),
        0 <= j < ids.len(),
        ids.len() <= 4096,
    ensures
        ({
            let epl: int = 64int / bits;
            let hi = if (j / epl + 1) * epl <= ids.len() {
                (j / epl + 1) * epl
            } else {
                ids.len() as int
            };
            let w = word_val(ids.subrange((j / epl) * epl, hi), bits);
            word_slot(u64_of_i64(i64_of_u64(w as u64)), bits, j % epl) == ids[j]
        }),
{
    let epl: int = 64int / bits;
    assert(4 <= epl <= 16) by (nonlinear_arith)
        requires
            epl == 64int / bits,
            4 <= bits <= 15,
    ;
    let i = j / epl;
    let k = j % epl;
    assert(0 <= k < epl);
    vstd::arithmetic::div_mod::lemma_fundamental_div_mod(j, epl);
    let hi = if (i + 1) * epl <= ids.len() {
        (i + 1) * epl
    } else {
        ids.len() as int
    };
    let slice = ids.subrange(i * epl, hi);
    assert(i * epl <= j < hi) by (nonlinear_arith)
        requires
            j == epl * i + k,
            0 <= k < epl,
            hi == if (i + 1) * epl <= ids.len() {
                (i + 1) * epl
            } else {
                ids.len() as int
            },
            j < ids.len(),
            epl >= 1,
    ;
    assert((i + 1) * epl == i * epl + epl) by (nonlinear_arith);
    assert(hi - i * epl <= epl);
    assert(slice.len() == hi - i * epl);
    assert(slice.len() <= epl);
    assert(bits * slice.len() <= 64) by (nonlinear_arith)
        requires
            slice.len() <= epl,
            epl == 64int / bits,
            4 <= bits <= 15,
    ;
    assert(forall|t: int| 0 <= t < slice.len() ==> (#[trigger] slice[t]) < pow2(bits as nat));
    lemma_word_round_trip(slice, bits, k);
    let w = word_val(slice, bits);
    assert(slice[k] == ids[j]);
    assert(w < 0x10000000000000000) by {
        lemma2_to64();
        assert(pow2(64) == 0x10000000000000000);
        if bits * slice.len() < 64 {
            vstd::arithmetic::power2::lemma_pow2_strictly_increases(
                (bits * slice.len()) as nat,
                64,
            );
        }
    }
    // storing the word as a signed 64-bit value and reading it back is exact
    assert(u64_of_i64(i64_of_u64(w as u64)) == w as u64);
}

/// One block state row of the static block-state table: its global id, the
/// property values it requires, and whether it is the type's default.
#[derive(Debug)]
pub struct BlockState {
    pub id: i32,
    pub properties: Vec<(Vec<u8>, Vec<u8>)>,
    pub default: bool,
}

/// All states of one block type.
#[derive(Debug)]
pub struct BlockType {
    pub states: Vec<BlockState>,
}

/// The static table mapping block names to their states, loaded out of band.
#[derive(Debug)]
pub struct BlockTable {
    pub types: Vec<(Vec<u8>, BlockType)>,
}

/// The model of a state row.
pub open spec fn state_view(s: BlockState) -> (i32, Seq<(Seq<u8>, Seq<u8>)>, bool) {
    (
        s.id,
        Seq::new(
            s.properties@.len(),
            |i: int|
                if 0 <= i < s.properties@.len() {
                    (s.properties@[i].0@, s.properties@[i].1@)
                } else {
                    (Seq::empty(), Seq::empty())
                },
        ),
        s.default,
    )
}

/// The stringwise value of a block property: a string tag's bytes, or the
/// coerced form of a byte tag, or the unknown marker.
pub open spec fn spec_prop_string(t: SpecTag) -> Seq<u8> {
    match t {
        SpecTag::String(s) => s,
        SpecTag::Byte(b) => if b == 0 {
            seq![116u8, 114u8, 117u8, 101u8]
        } else if b == 1 {
            seq![102u8, 97u8, 108u8, 115u8, 101u8]
        } else {
            seq![63u8, 63u8, 63u8]
        },
        _ => seq![63u8, 63u8, 63u8],
    }
}

/// Whether a state row matches a block: the row lists at least one property
/// and every one is present on the block with the same stringwise value.
pub open spec fn spec_state_matches(block: SpecTag, props: Seq<(Seq<u8>, Seq<u8>)>) -> bool {
    props.len() > 0 && (forall|j: int|
        0 <= j < props.len() ==> (match crate::block::spec_block_property(
            block,
            (#[trigger] props[j]).0,
        ) {
            Some(p) => spec_prop_string(p) == props[j].1,
            None => false,
        }))
}

/// The scan over a type's states: the first matching row wins; failing
/// that, the last default-marked row seen; failing that, zero. A matching
/// row whose id is zero also falls back to the default.
pub open spec fn spec_scan_states(
    states: Seq<BlockState>,
    i: int,
    block: SpecTag,
    def: Option<i32>,
) -> i32
    decreases states.len() - i,
{
    if i < 0 || i >= states.len() {
        match def {
            Some(d) => d,
            None => 0,
        }
    } else {
        let def2 = if states[i].default {
            Some(states[i].id)
        } else {
            def
        };
        if spec_state_matches(block, state_view(states[i]).1) {
            if states[i].id != 0 {
                states[i].id
            } else {
                match def2 {
                    Some(d) => d,
                    None => 0,
                }
            }
        } else {
            spec_scan_states(states, i + 1, block, def2)
        }
    }
}

/// The first table row of the given name.
pub open spec fn spec_table_find(types: Seq<(Vec<u8>, BlockType)>, name: Seq<u8>) -> Option<int>
    decreases types.len(),
{
    if types.len() == 0 {
        None
    } else if types[0].0@ == name {
        Some(0int)
    } else {
        match spec_table_find(types.skip(1), name) {
            Some(i) => Some(i + 1),
            None => None,
        }
    }
}

/// The ASCII bytes of the air block's name.
pub open spec fn air_name() -> Seq<u8> {
    ascii_bytes("minecraft:air"@)
}

/// The global block-state id a block resolves to: air and unknown names
/// give zero; otherwise the state scan of the name's table row decides.
pub open spec fn spec_resolve_id(table: &BlockTable, block: SpecTag) -> i32 {
    let name = match crate::block::spec_block_name(block) {
        Some(n) => n,
        None => air_name(),
    };
    if name == air_name() {
        0
    } else {
        match spec_table_find(table.types@, name) {
            None => 0,
            Some(ti) => spec_scan_states(table.types@[ti].1.states@, 0, block, None),
        }
    }
}

fn prop_string_of(t: &Tag) -> (r: Vec<u8>)
    ensures
        r@ == spec_prop_string(tag_view(*t)),
{
    match t {
        Tag::String(s) => crate::nbt::copy_bytes(s),
        Tag::Byte(b) => {
            let mut v: Vec<u8> = Vec::new();
            if *b == 0 {
                v.push(116);
                v.push(114);
                v.push(117);
                v.push(101);
                proof {
                    assert(v@ =~= seq![116u8, 114u8, 117u8, 101u8]);
                }
            } else if *b == 1 {
                v.push(102);
                v.push(97);
                v.push(108);
                v.push(115);
                v.push(101);
                proof {
                    assert(v@ =~= seq![102u8, 97u8, 108u8, 115u8, 101u8]);
                }
            } else {
                v.push(63);
                v.push(63);
                v.push(63);
                proof {
                    assert(v@ =~= seq![63u8, 63u8, 63u8]);
                }
            }
            v
        },
        _ => {
            let mut v: Vec<u8> = Vec::new();
            v.push(63);
            v.push(63);
            v.push(63);
            proof {
                assert(v@ =~= seq![63u8, 63u8, 63u8]);
            }
            v
        },
    }
}

/// The air block name as bytes.
pub fn air_name_bytes() -> (r: Vec<u8>)
    ensures
        r@ == air_name(),
{
    proof {
        reveal_strlit("minecraft:air");
        assert(vstd::string::is_ascii("minecraft:air"));
    }
    let v = crate::text::key_bytes("minecraft:air");
    proof {
        assert(v@ =~= air_name());
    }
    v
}

/// Resolves a block to its global state id against the static table.
#[verifier::rlimit(100)]
#[verifier::spinoff_prover]
pub fn resolve_block_id(table: &BlockTable, block: &Tag) -> (r: i32)
    ensures
        r == spec_resolve_id(table, tag_view(*block)),
{
    let b = crate::block::Block::from_nbt(block);
    let name: Vec<u8> = match b.name() {
        Some(n) => crate::nbt::copy_bytes(n),
        None => air_name_bytes(),
    };
    let air = air_name_bytes();
    if crate::nbt::bytes_eq(name.as_slice(), air.as_slice()) {
        return 0;
    }
    // find the name's table row
    let mut ti: usize = 0;
    let ghost types = table.types@;
    proof {
        assert(types.skip(0) =~= types);
    }
    loop
        invariant
            ti <= types.len(),
            types == table.types@,
            name@ != air_name(),
            tag_view(b.data) == tag_view(*block),
            crate::block::spec_block_name(tag_view(*block)) == Some(name@),
            spec_table_find(types, name@) == (match spec_table_find(types.skip(ti as int), name@) {
                Some(k) => Some(k + ti),
                None => None::<int>,
            }),
        ensures
            ti < types.len(),
            types[ti as int].0@ == name@,
            spec_table_find(types, name@) == (match spec_table_find(types.skip(ti as int), name@) {
                Some(k) => Some(k + ti),
                None => None::<int>,
            }),
        decreases types.len() - ti,
    {
        if ti == table.types.len() {
            proof {
                assert(types.skip(ti as int).len() == 0);
                assert(spec_table_find(types, name@) is None);
            }
            return 0;
        }
        proof {
            assert(types.skip(ti as int)[0] == types[ti as int]);
        }
        if crate::nbt::bytes_eq(table.types[ti].0.as_slice(), name.as_slice()) {
            break ;
        }
        proof {
            assert(types.skip(ti as int).skip(1) =~= types.skip(ti + 1));
        }
        ti = ti + 1;
    }
    proof {
        assert(types.skip(ti as int)[0] == types[ti as int]);
        assert(spec_table_find(types, name@) == Some(ti as int));
    }
    // scan the states in order
    let states = &table.types[ti].1.states;
    let mut def: Option<i32> = None;
    let mut si: usize = 0;
    let ghost sv = states@;
    while si < states.len()
        invariant
            si <= sv.len(),
            sv == states@,
            states == &table.types@[ti as int].1.states,
            ti < types.len(),
            types == table.types@,
            tag_view(b.data) == tag_view(*block),
            name@ != air_name(),
            crate::block::spec_block_name(tag_view(*block)) == Some(name@),
            spec_table_find(types, name@) == Some(ti as int),
            spec_scan_states(sv, 0, tag_view(*block), None) == spec_scan_states(
                sv,
                si as int,
                tag_view(*block),
                def,
            ),
        decreases sv.len() - si,
    {
        let ghost def0 = def;
        let st = &states[si];
        if st.default {
            def = Some(st.id);
        }
        let ghost def2 = if sv[si as int].default {
            Some(sv[si as int].id)
        } else {
            def0
        };
        proof {
            assert(def == def2);
        }
        // match every listed property stringwise
        let mut all = st.properties.len() > 0;
        let mut pj: usize = 0;
        while pj < st.properties.len()
            invariant
                pj <= st.properties@.len(),
                sv == states@,
                si < sv.len(),
                st == &sv[si as int],
                tag_view(b.data) == tag_view(*block),
                all == (st.properties@.len() > 0 && (forall|j: int|
                    0 <= j < pj ==> (match crate::block::spec_block_property(
                        tag_view(*block),
                        (#[trigger] state_view(sv[si as int]).1[j]).0,
                    ) {
                        Some(p) => spec_prop_string(p) == state_view(sv[si as int]).1[j].1,
                        None => false,
                    }))),
            decreases st.properties@.len() - pj,
        {
            let want = &st.properties[pj].1;
            let kb = &st.properties[pj].0;
            let got = b.property_by_bytes(kb.as_slice());
            let ok = match got {
                Some(p) => {
                    let ps = prop_string_of(&p);
                    crate::nbt::bytes_eq(ps.as_slice(), want.as_slice())
                },
                None => false,
            };
            proof {
                assert(state_view(sv[si as int]).1[pj as int].0 == kb@);
                assert(state_view(sv[si as int]).1[pj as int].1 == want@);
            }
            all = all && ok;
            pj = pj + 1;
        }
        proof {
            assert(all == spec_state_matches(tag_view(*block), state_view(sv[si as int]).1));
        }
        if all {
            proof {
                assert(spec_scan_states(sv, si as int, tag_view(*block), def0) == (
                if sv[si as int].id != 0 {
                    sv[si as int].id
                } else {
                    match def2 {
                        Some(d) => d,
                        None => 0i32,
                    }
                }));
            }
            if st.id != 0 {
                return st.id;
            }
            match def {
                Some(d) => {
                    return d;
                },
                None => {
                    return 0;
                },
            }
        }
        proof {
            assert(spec_scan_states(sv, si as int, tag_view(*block), def0) == spec_scan_states(
                sv,
                si + 1,
                tag_view(*block),
                def2,
            ));
        }
        si = si + 1;
    }
    match def {
        Some(d) => d,
        None => 0,
    }
}

/// A 16 by 16 by 16 cube of blocks: the palette of block states, 4096
/// palette indices in x-then-z-then-y order, and the optional light arrays.
#[derive(Debug)]
pub struct SubChunk {
    pub palette: Vec<Tag>,
    pub blocks: Vec<u16>,
    pub block_light: Option<Vec<u8>>,
    pub sky_light: Option<Vec<u8>>,
}

/// The serialized-tag list the sub-chunk's palette was read from: the
/// modern `block_states.palette` or the legacy `Palette`.
pub open spec fn sc_palette(t: SpecTag) -> Seq<SpecTag> {
    match compound_get(t->Compound_0, ascii_bytes("block_states"@)) {
        Some(bs) => if bs is Compound {
            match compound_get(bs->Compound_0, ascii_bytes("palette"@)) {
                Some(SpecTag::List(l)) => l,
                _ => Seq::empty(),
            }
        } else {
            Seq::empty()
        },
        None => match compound_get(t->Compound_0, ascii_bytes("Palette"@)) {
            Some(SpecTag::List(l)) => l,
            _ => Seq::empty(),
        },
    }
}

/// The packed index words the block array was read from: the modern
/// `block_states.data` or the legacy `BlockStates`.
pub open spec fn sc_states(t: SpecTag) -> Option<Seq<i64>> {
    match compound_get(t->Compound_0, ascii_bytes("block_states"@)) {
        Some(bs) => if bs is Compound {
            match compound_get(bs->Compound_0, ascii_bytes("data"@)) {
                Some(SpecTag::LongArray(d)) => Some(d),
                _ => None,
            }
        } else {
            None
        },
        None => match compound_get(t->Compound_0, ascii_bytes("BlockStates"@)) {
            Some(SpecTag::LongArray(d)) => Some(d),
            _ => None,
        },
    }
}

/// A light array of the sub-chunk's tag, by key.
pub open spec fn sc_light(t: SpecTag, key: Seq<u8>) -> Option<Seq<u8>> {
    match compound_get(t->Compound_0, key) {
        Some(SpecTag::ByteArray(b)) => Some(b),
        _ => None,
    }
}

/// The unpacked block indices of a sub-chunk's tag.
pub open spec fn sc_blocks(t: SpecTag) -> Seq<u16> {
    match sc_states(t) {
        None => Seq::empty(),
        Some(words) => {
            if words.len() > 0x0fff_ffff {
                Seq::empty()
            } else {
                let bits = bits_for(sc_palette(t).len() as int);
                Seq::new(
                    (words.len() * (64int / bits)) as nat,
                    |j: int| word_slot(
                        u64_of_i64(words[j / (64int / bits)]),
                        bits,
                        j % (64int / bits),
                    ),
                )
            }
        },
    }
}

/// Whether a sub-chunk is the all-air one: a one-entry palette naming air,
/// 4096 zero indices, and both light arrays at full brightness.
pub open spec fn is_air_subchunk(sc: SubChunk) -> bool {
    &&& tags_view(sc.palette@).len() == 1
    &&& crate::block::spec_block_name(tags_view(sc.palette@)[0]) == Some(air_name())
    &&& sc.blocks@ == Seq::new(4096, |i: int| 0u16)
    &&& (sc.block_light matches Some(b) && b@ == Seq::new(2048, |i: int| 255u8))
    &&& (sc.sky_light matches Some(s) && s@ == Seq::new(2048, |i: int| 255u8))
}

/// Whether a sub-chunk is what reading the given serialized section tag
/// yields: its palette, unpacked indices and light arrays.
pub open spec fn subchunk_models(sc: SubChunk, t: SpecTag) -> bool {
    &&& tags_view(sc.palette@) == sc_palette(t)
    &&& sc.blocks@ == sc_blocks(t)
    &&& (match sc_light(t, ascii_bytes("BlockLight"@)) {
        Some(b) => sc.block_light matches Some(v) && v@ == b,
        None => sc.block_light is None,
    })
    &&& (match sc_light(t, ascii_bytes("SkyLight"@)) {
        Some(b) => sc.sky_light matches Some(v) && v@ == b,
        None => sc.sky_light is None,
    })
}

impl SubChunk {
    /// An all-air sub-chunk with full light.
    pub fn empty() -> (r: SubChunk)
        ensures
            is_air_subchunk(r),
            tags_view(r.palette@).len() == 1,
            crate::block::spec_block_name(tags_view(r.palette@)[0]) == Some(air_name()),
            r.blocks@ == Seq::new(4096, |i: int| 0u16),
            r.block_light matches Some(b) && b@ == Seq::new(2048, |i: int| 255u8),
            r.sky_light matches Some(s) && s@ == Seq::new(2048, |i: int| 255u8),
    {
        proof {
            reveal_strlit("minecraft:air");
            assert(vstd::string::is_ascii("minecraft:air"));
            vstd::string::is_ascii_spec_bytes("minecraft:air");
        }
        let air = crate::block::Block::new("minecraft:air", Vec::new());
        let mut palette: Vec<Tag> = Vec::new();
        palette.push(air.data);
        let mut blocks: Vec<u16> = Vec::new();
        let mut i: usize = 0;
        while i < 4096
            invariant
                i <= 4096,
                blocks@ =~= Seq::new(i as nat, |k: int| 0u16),
            decreases 4096 - i,
        {
            blocks.push(0);
            i = i + 1;
            proof {
                assert(blocks@ =~= Seq::new(i as nat, |k: int| 0u16));
            }
        }
        let mut light: Vec<u8> = Vec::new();
        let mut j: usize = 0;
        while j < 2048
            invariant
                j <= 2048,
                light@ =~= Seq::new(j as nat, |k: int| 255u8),
            decreases 2048 - j,
        {
            light.push(255);
            j = j + 1;
            proof {
                assert(light@ =~= Seq::new(j as nat, |k: int| 255u8));
            }
        }
        let mut light2: Vec<u8> = Vec::new();
        let mut j2: usize = 0;
        while j2 < 2048
            invariant
                j2 <= 2048,
                light2@ =~= Seq::new(j2 as nat, |k: int| 255u8),
            decreases 2048 - j2,
        {
            light2.push(255);
            j2 = j2 + 1;
            proof {
                assert(light2@ =~= Seq::new(j2 as nat, |k: int| 255u8));
            }
        }
        let r = SubChunk { palette, blocks, block_light: Some(light), sky_light: Some(light2) };
        proof {
            crate::block::name_key_bytes();
            crate::block::props_key_bytes();
            assert(tags_view(r.palette@).len() == 1);
            assert(r.blocks@ =~= Seq::new(4096, |i: int| 0u16));
            let v = tags_view(r.palette@)[0];
            assert(v == tag_view(air.data));
            let es = v->Compound_0;
            assert(es.len() == 2);
            assert(es.last() == es[1]);
            assert(ascii_bytes("Name"@).len() == 4) by {
                reveal_strlit("Name");
            }
            assert(ascii_bytes("Properties"@).len() == 10) by {
                reveal_strlit("Properties");
            }
            assert(es[1].0 != ascii_bytes("Name"@));
            assert(es.last().0 != ascii_bytes("Name"@));
            assert(es.drop_last().len() == 1 && es.drop_last().last() == es[0]);
            assert(es.drop_last().last().0 == ascii_bytes("Name"@));
            assert(crate::nbt::compound_get(es.drop_last(), ascii_bytes("Name"@)) == Some(
                es.drop_last().last().1,
            ));
            assert(es.drop_last().last().1 == es[0].1);
            assert(crate::nbt::compound_get(es, ascii_bytes("Name"@)) == Some(es[0].1));
            assert(es[0].1 == SpecTag::String("minecraft:air".spec_bytes()));
            assert("minecraft:air".spec_bytes() =~= air_name()) by {
                reveal_strlit("minecraft:air");
                assert(vstd::string::is_ascii("minecraft:air"));
                vstd::string::is_ascii_spec_bytes("minecraft:air");
            }
        }
        r
    }

    /// Reads a sub-chunk from its serialized tag, recognizing both the
    /// modern and the legacy schema.
    #[verifier::rlimit(100)]
    #[verifier::spinoff_prover]
    pub fn new(data: &Tag) -> (r: SubChunk)
        requires
            data is Compound,
        ensures
            subchunk_models(r, tag_view(*data)),
            tags_view(r.palette@) == sc_palette(tag_view(*data)),
            r.blocks@ == sc_blocks(tag_view(*data)),
            (match sc_light(tag_view(*data), ascii_bytes("BlockLight"@)) {
                Some(b) => r.block_light matches Some(v) && v@ == b,
                None => r.block_light is None,
            }),
            (match sc_light(tag_view(*data), ascii_bytes("SkyLight"@)) {
                Some(b) => r.sky_light matches Some(v) && v@ == b,
                None => r.sky_light is None,
            }),
    {
        proof {
            reveal_strlit("block_states");
            reveal_strlit("palette");
            reveal_strlit("data");
            reveal_strlit("Palette");
            reveal_strlit("BlockStates");
            reveal_strlit("BlockLight");
            reveal_strlit("SkyLight");
            assert(vstd::string::is_ascii("block_states"));
            assert(vstd::string::is_ascii("palette"));
            assert(vstd::string::is_ascii("data"));
            assert(vstd::string::is_ascii("Palette"));
            assert(vstd::string::is_ascii("BlockStates"));
            assert(vstd::string::is_ascii("BlockLight"));
            assert(vstd::string::is_ascii("SkyLight"));
            vstd::string::is_ascii_spec_bytes("block_states");
            vstd::string::is_ascii_spec_bytes("palette");
            vstd::string::is_ascii_spec_bytes("data");
            vstd::string::is_ascii_spec_bytes("Palette");
            vstd::string::is_ascii_spec_bytes("BlockStates");
            vstd::string::is_ascii_spec_bytes("BlockLight");
            vstd::string::is_ascii_spec_bytes("SkyLight");
            assert("block_states".spec_bytes() =~= ascii_bytes("block_states"@));
            assert("palette".spec_bytes() =~= ascii_bytes("palette"@));
            assert("data".spec_bytes() =~= ascii_bytes("data"@));
            assert("Palette".spec_bytes() =~= ascii_bytes("Palette"@));
            assert("BlockStates".spec_bytes() =~= ascii_bytes("BlockStates"@));
            assert("BlockLight".spec_bytes() =~= ascii_bytes("BlockLight"@));
            assert("SkyLight".spec_bytes() =~= ascii_bytes("SkyLight"@));
        }
        let mut palette: Vec<Tag> = Vec::new();
        let mut have_palette = false;
        let mut words: Option<Vec<i64>> = None;
        match data.get("block_states") {
            Ok(bs) => {
                if let Tag::Compound(_) = bs {
                    match bs.get("palette") {
                        Ok(p) => {
                            if let Tag::List(items) = p {
                                palette = clone_tags(items);
                                have_palette = true;
                            }
                        },
                        Err(_) => {},
                    }
                    match bs.get("data") {
                        Ok(d) => {
                            if let Tag::LongArray(w) = d {
                                words = Some(copy_words(w));
                            }
                        },
                        Err(_) => {},
                    }
                }
            },
            Err(_) => {
                match data.get("Palette") {
                    Ok(p) => {
                        if let Tag::List(items) = p {
                            palette = clone_tags(items);
                            have_palette = true;
                        }
                    },
                    Err(_) => {},
                }
                match data.get("BlockStates") {
                    Ok(d) => {
                        if let Tag::LongArray(w) = d {
                            words = Some(copy_words(w));
                        }
                    },
                    Err(_) => {},
                }
            },
        }
        proof {
            assert(tags_view(palette@) =~= sc_palette(tag_view(*data)));
            if !have_palette {
                assert(tags_view(palette@) =~= Seq::<SpecTag>::empty());
            }
        }
        let blocks: Vec<u16> = match &words {
            None => Vec::new(),
            Some(w) => {
                if w.len() > 0x0fff_ffff {
                    // a record too large to be a section; treat it as absent
                    Vec::new()
                } else {
                    let bits = bits_for_len(palette.len());
                    unpack_ids(w, bits)
                }
            },
        };
        let block_light: Option<Vec<u8>> = match data.get("BlockLight") {
            Ok(t) => {
                if let Tag::ByteArray(b) = t {
                    Some(crate::nbt::copy_bytes(b))
                } else {
                    None
                }
            },
            Err(_) => None,
        };
        let sky_light: Option<Vec<u8>> = match data.get("SkyLight") {
            Ok(t) => {
                if let Tag::ByteArray(b) = t {
                    Some(crate::nbt::copy_bytes(b))
                } else {
                    None
                }
            },
            Err(_) => None,
        };
        let r = SubChunk { palette, blocks, block_light, sky_light };
        proof {
            if sc_states(tag_view(*data)) is Some {
                assert(r.blocks@ =~= sc_blocks(tag_view(*data)));
            } else {
                assert(r.blocks@ =~= sc_blocks(tag_view(*data)));
            }
        }
        r
    }

    /// The block at local coordinates, as a copy of its palette entry.
    pub fn get_block(&self, x: u8, y: u8, z: u8) -> (r: Option<crate::block::Block>)
        ensures
            ({
                let idx = x + (z as int) * 16 + (y as int) * 256;
                if 0 <= idx < self.blocks@.len() && self.blocks@[idx] < self.palette@.len() {
                    r matches Some(b) && tag_view(b.data) == tags_view(self.palette@)[
                        self.blocks@[idx] as int
                    ]
                } else {
                    r is None
                }
            }),
    {
        let idx: usize = (x as usize) + (z as usize) * 16 + (y as usize) * 256;
        if idx < self.blocks.len() {
            let id = self.blocks[idx];
            if (id as usize) < self.palette.len() {
                return Some(crate::block::Block::from_nbt(&self.palette[id as usize]));
            }
        }
        None
    }
}

fn clone_tags(v: &Vec<Tag>) -> (r: Vec<Tag>)
    ensures
        tags_view(r@) == tags_view(v@),
{
    let mut out: Vec<Tag> = Vec::new();
    let mut i: usize = 0;
    while i < v.len()
        invariant
            i <= v@.len(),
            out@.len() == i,
            forall|k: int| 0 <= k < i ==> tag_view(#[trigger] out@[k]) == tag_view(v@[k]),
        decreases v@.len() - i,
    {
        let c = v[i].deep_clone();
        out.push(c);
        i = i + 1;
    }
    proof {
        assert(tags_view(out@) =~= tags_view(v@));
    }
    out
}

fn copy_words(v: &Vec<i64>) -> (r: Vec<i64>)
    ensures
        r@ == v@,
{
    let mut out: Vec<i64> = Vec::new();
    let mut i: usize = 0;
    while i < v.len()
        invariant
            i <= v@.len(),
            out@ =~= v@.take(i as int),
        decreases v@.len() - i,
    {
        out.push(v[i]);
        i = i + 1;
        proof {
            assert(out@ =~= v@.take(i as int));
        }
    }
    proof {
        assert(out@ =~= v@);
    }
    out
}

/// A chunk column: its sub-chunks keyed by signed section index.
#[derive(Debug)]
pub struct Chunk {
    pub subchunks: Vec<(i8, SubChunk)>,
}

impl Chunk {
    /// An empty chunk: 28 all-air sub-chunks at indices -4 through 23.
    pub fn empty() -> (r: Chunk)
        ensures
            r.subchunks@.len() == 28,
            forall|k: int| 0 <= k < 28 ==> (#[trigger] r.subchunks@[k]).0 == k - 4,
            forall|k: int| 0 <= k < 28 ==> is_air_subchunk((#[trigger] r.subchunks@[k]).1),
    {
        let mut subchunks: Vec<(i8, SubChunk)> = Vec::new();
        let mut i: i32 = -4;
        while i < 24
            invariant
                -4 <= i <= 24,
                subchunks@.len() == i + 4,
                forall|k: int| 0 <= k < i + 4 ==> (#[trigger] subchunks@[k]).0 == k - 4,
                forall|k: int| 0 <= k < i + 4 ==> is_air_subchunk((#[trigger] subchunks@[k]).1),
            decreases 24 - i,
        {
            let sc = SubChunk::empty();
            subchunks.push((i as i8, sc));
            i = i + 1;
        }
        Chunk { subchunks }
    }

    /// The sub-chunk at section index `y`, the last-read one when a corrupt
    /// record repeats an index.
    pub fn get_subchunk(&self, y: i8) -> (r: Option<&SubChunk>)
        ensures
            (exists|k: int|
                0 <= k < self.subchunks@.len() && (#[trigger] self.subchunks@[k]).0 == y) <==> r
                is Some,
    {
        let mut i: usize = self.subchunks.len();
        while i > 0
            invariant
                i <= self.subchunks@.len(),
                forall|k: int|
                    i <= k < self.subchunks@.len() ==> (#[trigger] self.subchunks@[k]).0 != y,
            decreases i,
        {
            i = i - 1;
            if self.subchunks[i].0 == y {
                return Some(&self.subchunks[i].1);
            }
        }
        None
    }

    /// The block at chunk coordinates, looked up through the sub-chunk the
    /// height falls in.
    pub fn get_block(&self, x: u8, y: u16, z: u8) -> (r: Option<crate::block::Block>) {
        let section = self.get_subchunk((y / 16) as i8);
        match section {
            Some(s) => s.get_block(x, (y % 16) as u8, z),
            None => None,
        }
    }
}

/// The section list of a chunk tag: the modern `sections` list, or the
/// legacy one under `Level.Sections`.
pub open spec fn spec_sections(t: SpecTag) -> Seq<SpecTag> {
    if t is Compound {
        match compound_get(t->Compound_0, ascii_bytes("sections"@)) {
            Some(SpecTag::List(l)) => l,
            Some(_) => Seq::empty(),
            None => match compound_get(t->Compound_0, ascii_bytes("Level"@)) {
                Some(lv) => if lv is Compound {
                    match compound_get(lv->Compound_0, ascii_bytes("Sections"@)) {
                        Some(SpecTag::List(l)) => l,
                        _ => Seq::empty(),
                    }
                } else {
                    Seq::empty()
                },
                _ => Seq::empty(),
            },
        }
    } else {
        Seq::empty()
    }
}

/// The section index a section tag carries under `Y`, when it is a byte.
pub open spec fn spec_section_y(sec: SpecTag) -> Option<i8> {
    if sec is Compound {
        match compound_get(sec->Compound_0, ascii_bytes("Y"@)) {
            Some(SpecTag::Byte(b)) => Some(b),
            _ => None,
        }
    } else {
        None
    }
}

/// The readable sections from index `i` on: those carrying a byte `Y`,
/// keyed by it; malformed sections are passed over, as a corrupt chunk is
/// read for what it still holds.
pub open spec fn spec_chunk_entries(sections: Seq<SpecTag>, i: int) -> Seq<(i8, SpecTag)>
    decreases sections.len() - i,
{
    if i < 0 || i >= sections.len() {
        Seq::empty()
    } else {
        (match spec_section_y(sections[i]) {
            Some(y) => seq![(y, sections[i])],
            None => Seq::<(i8, SpecTag)>::empty(),
        }) + spec_chunk_entries(sections, i + 1)
    }
}

impl Chunk {
    /// Reads a chunk from its serialized tag, keeping every section that
    /// carries a byte `Y` index.
    #[verifier::rlimit(100)]
    #[verifier::spinoff_prover]
    pub fn new(data: &Tag) -> (r: Chunk)
        ensures
            ({
                let entries = spec_chunk_entries(spec_sections(tag_view(*data)), 0);
                &&& r.subchunks@.len() == entries.len()
                &&& (forall|k: int|
                    0 <= k < entries.len() ==> (#[trigger] r.subchunks@[k]).0 == entries[k].0
                        && subchunk_models(r.subchunks@[k].1, entries[k].1))
            }),
    {
        proof {
            reveal_strlit("sections");
            reveal_strlit("Level");
            reveal_strlit("Sections");
            reveal_strlit("Y");
            assert(vstd::string::is_ascii("sections"));
            assert(vstd::string::is_ascii("Level"));
            assert(vstd::string::is_ascii("Sections"));
            assert(vstd::string::is_ascii("Y"));
            vstd::string::is_ascii_spec_bytes("sections");
            vstd::string::is_ascii_spec_bytes("Level");
            vstd::string::is_ascii_spec_bytes("Sections");
            vstd::string::is_ascii_spec_bytes("Y");
            assert("sections".spec_bytes() =~= ascii_bytes("sections"@));
            assert("Level".spec_bytes() =~= ascii_bytes("Level"@));
            assert("Sections".spec_bytes() =~= ascii_bytes("Sections"@));
            assert("Y".spec_bytes() =~= ascii_bytes("Y"@));
        }
        let mut subchunks: Vec<(i8, SubChunk)> = Vec::new();
        let sections: &Vec<Tag> = match data {
            Tag::Compound(_) => {
                match data.get("sections") {
                    Ok(st) => {
                        match st {
                            Tag::List(l) => l,
                            _ => {
                                return Chunk { subchunks };
                            },
                        }
                    },
                    Err(_) => {
                        match data.get("Level") {
                            Ok(lv) => {
                                match lv {
                                    Tag::Compound(_) => {
                                        match lv.get("Sections") {
                                            Ok(st) => {
                                                match st {
                                                    Tag::List(l) => l,
                                                    _ => {
                                                        return Chunk { subchunks };
                                                    },
                                                }
                                            },
                                            Err(_) => {
                                                return Chunk { subchunks };
                                            },
                                        }
                                    },
                                    _ => {
                                        return Chunk { subchunks };
                                    },
                                }
                            },
                            Err(_) => {
                                return Chunk { subchunks };
                            },
                        }
                    },
                }
            },
            _ => {
                return Chunk { subchunks };
            },
        };
        let ghost secs = spec_sections(tag_view(*data));
        proof {
            assert(secs =~= tags_view(sections@));
        }
        let ghost mut done: Seq<(i8, SpecTag)> = Seq::empty();
        let mut i: usize = 0;
        while i < sections.len()
            invariant
                i <= sections@.len(),
                secs == tags_view(sections@),
                secs.len() == sections@.len(),
                "Y".spec_bytes() == ascii_bytes("Y"@),
                subchunks@.len() == done.len(),
                forall|k: int|
                    0 <= k < done.len() ==> (#[trigger] subchunks@[k]).0 == done[k].0
                        && subchunk_models(subchunks@[k].1, done[k].1),
                spec_chunk_entries(secs, 0) == done + spec_chunk_entries(secs, i as int),
            decreases sections@.len() - i,
        {
            let sec = &sections[i];
            match sec {
                Tag::Compound(_) => {
                    match sec.get("Y") {
                        Ok(yt) => {
                            match yt {
                                Tag::Byte(y) => {
                                    let sc = SubChunk::new(sec);
                                    subchunks.push((*y, sc));
                                    proof {
                                        assert(spec_section_y(secs[i as int]) == Some(*y));
                                        assert(spec_chunk_entries(secs, i as int) == seq![
                                            (*y, secs[i as int]),
                                        ] + spec_chunk_entries(secs, i + 1));
                                        done = done.push((*y, secs[i as int]));
                                        assert(done.drop_last() + (seq![done.last()]
                                            + spec_chunk_entries(secs, i + 1)) =~= done
                                            + spec_chunk_entries(secs, i + 1));
                                    }
                                },
                                _ => {
                                    proof {
                                        assert(spec_section_y(secs[i as int]) is None);
                                        assert(Seq::<(i8, SpecTag)>::empty() + spec_chunk_entries(
                                            secs,
                                            i + 1,
                                        ) =~= spec_chunk_entries(secs, i + 1));
                                    }
                                },
                            }
                        },
                        Err(_) => {
                            proof {
                                assert(spec_section_y(secs[i as int]) is None);
                                assert(Seq::<(i8, SpecTag)>::empty() + spec_chunk_entries(
                                    secs,
                                    i + 1,
                                ) =~= spec_chunk_entries(secs, i + 1));
                            }
                        },
                    }
                },
                _ => {
                    proof {
                        assert(spec_section_y(secs[i as int]) is None);
                        assert(Seq::<(i8, SpecTag)>::empty() + spec_chunk_entries(secs, i + 1)
                            =~= spec_chunk_entries(secs, i + 1));
                    }
                },
            }
            i = i + 1;
        }
        proof {
            assert(spec_chunk_entries(secs, secs.len() as int) =~= Seq::<(i8, SpecTag)>::empty());
            assert(done + Seq::<(i8, SpecTag)>::empty() =~= done);
        }
        Chunk { subchunks }
    }
}

} // verus!
