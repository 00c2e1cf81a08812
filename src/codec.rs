use vstd::prelude::*;

use crate::layout::BLOCK_SIZE;

verus! {

/// The bytes of `s` before its first zero byte (all of `s` when it holds none).
pub open spec fn text_of(s: Seq<u8>) -> Seq<u8>
    decreases s.len(),
{
    if s.len() == 0 || s[0] == 0 {
        Seq::empty()
    } else {
        seq![s[0]] + text_of(s.drop_first())
    }
}

/// `s` without its trailing zero bytes.
pub open spec fn trim_end_nul(s: Seq<u8>) -> Seq<u8>
    decreases s.len(),
{
    if s.len() > 0 && s.last() == 0 {
        trim_end_nul(s.drop_last())
    } else {
        s
    }
}

/// `s` without its leading zero bytes.
pub open spec fn trim_start_nul(s: Seq<u8>) -> Seq<u8>
    decreases s.len(),
{
    if s.len() > 0 && s[0] == 0 {
        trim_start_nul(s.drop_first())
    } else {
        s
    }
}

/// `s` without its leading and trailing zero bytes.
pub open spec fn trim_nul(s: Seq<u8>) -> Seq<u8> {
    trim_start_nul(trim_end_nul(s))
}

pub open spec fn is_octal_digit(c: u8) -> bool {
    0x30 <= c <= 0x37
}

pub open spec fn all_octal(s: Seq<u8>) -> bool {
    forall|i: int| 0 <= i < s.len() ==> is_octal_digit(#[trigger] s[i])
}

/// The number that the ASCII octal digits `s` denote (most significant first).
pub open spec fn octal_value(s: Seq<u8>) -> nat
    decreases s.len(),
{
    if s.len() == 0 {
        0
    } else {
        octal_value(s.drop_last()) * 8 + (s.last() - 0x30) as nat
    }
}

/// An unsigned octal number: trailing zero bytes are dropped, and what
/// remains must be a non-empty run of octal digits.
pub open spec fn unsigned_octal(s: Seq<u8>) -> Option<nat> {
    let t = trim_end_nul(s);
    if t.len() > 0 && all_octal(t) {
        Some(octal_value(t))
    } else {
        None
    }
}

/// A signed octal number: zero bytes are dropped from both ends, and what
/// remains is an optional `+` or `-` sign followed by a non-empty run of
/// octal digits.
pub open spec fn signed_octal(s: Seq<u8>) -> Option<int> {
    let t = trim_nul(s);
    if t.len() > 0 && (t[0] == 0x2b || t[0] == 0x2d) {
        let d = t.drop_first();
        if d.len() > 0 && all_octal(d) {
            if t[0] == 0x2d {
                Some(-octal_value(d))
            } else {
                Some(octal_value(d) as int)
            }
        } else {
            None
        }
    } else if t.len() > 0 && all_octal(t) {
        Some(octal_value(t) as int)
    } else {
        None
    }
}

/// `n` rounded up to a whole number of blocks.
pub open spec fn blocks_for(n: nat) -> nat {
    if n % 512 == 0 {
        n
    } else {
        (n / 512 + 1) * 512
    }
}

/// `8` to the power `n`: the numbers that `n` octal digits can write are
/// those below it.
pub open spec fn octal_limit(n: nat) -> nat
    decreases n,
{
    if n == 0 {
        1
    } else {
        8 * octal_limit((n - 1) as nat)
    }
}

/// `v` written with `n` ASCII octal digits, zero-padded on the left (only
/// its last `n` digits when it needs more).
pub open spec fn octal_digits_of(v: nat, n: nat) -> Seq<u8>
    decreases n,
{
    if n == 0 {
        Seq::empty()
    } else {
        octal_digits_of(v / 8, (n - 1) as nat).push((0x30 + v % 8) as u8)
    }
}

/// A numeric header field of `width` bytes as tar writes it: `width - 1`
/// octal digits and a zero byte.
pub open spec fn octal_field(v: nat, width: nat) -> Seq<u8> {
    octal_digits_of(v, (width - 1) as nat).push(0)
}

/// The digits of a number below `8^n` read back as that number.
pub proof fn lemma_octal_digits_value(v: nat, n: nat)
    requires
        v < octal_limit(n),
    ensures
        octal_digits_of(v, n).len() == n,
        all_octal(octal_digits_of(v, n)),
        octal_value(octal_digits_of(v, n)) == v,
    decreases n,
{
    if n > 0 {
        lemma_octal_digits_value(v / 8, (n - 1) as nat);
        let s = octal_digits_of(v, n);
        assert(s.drop_last() =~= octal_digits_of(v / 8, (n - 1) as nat));
        assert forall|i: int| 0 <= i < s.len() implies is_octal_digit(#[trigger] s[i]) by {
            if i < n - 1 {
                assert(s[i] == octal_digits_of(v / 8, (n - 1) as nat)[i]);
            }
        }
    }
}

/// A run of octal digits holds no zero byte, so it is its own text and
/// trimming zero bytes leaves it as it is.
proof fn lemma_digits_untrimmed(s: Seq<u8>)
    requires
        s.len() > 0,
        all_octal(s),
    ensures
        trim_end_nul(s) == s,
        trim_start_nul(s) == s,
        trim_nul(s) == s,
        text_of(s.push(0)) == s,
{
    assert(is_octal_digit(s[0]) && is_octal_digit(s[s.len() - 1]));
    lemma_text_of_prefix(s.push(0), s.len() as int);
    assert(s.push(0).take(s.len() as int) =~= s);
}

/// A non-empty run of octal digits reads as the same number when signed.
pub(crate) proof fn lemma_signed_octal_digits(s: Seq<u8>)
    requires
        s.len() > 0,
        all_octal(s),
    ensures
        signed_octal(s) == Some(octal_value(s) as int),
        signed_octal(text_of(s.push(0))) == Some(octal_value(s) as int),
{
    lemma_digits_untrimmed(s);
    assert(is_octal_digit(s[0]));
}

/// Round trip of the codec: a number that fits a field of `width` bytes,
/// written there in octal as tar does, reads back as itself, from the whole
/// field and from its text.
pub proof fn lemma_octal_round_trip(v: nat, width: nat)
    requires
        width >= 2,
        v < octal_limit((width - 1) as nat),
    ensures
        text_of(octal_field(v, width)) == octal_digits_of(v, (width - 1) as nat),
        unsigned_octal(octal_field(v, width)) == Some(v),
        unsigned_octal(text_of(octal_field(v, width))) == Some(v),
{
    let d = octal_digits_of(v, (width - 1) as nat);
    lemma_octal_digits_value(v, (width - 1) as nat);
    lemma_digits_untrimmed(d);
    assert(octal_field(v, width).drop_last() =~= d);
}

/// Rounding up to whole blocks adds less than one block.
pub proof fn lemma_blocks_for_bounds(n: nat)
    ensures
        n <= blocks_for(n) < n + 512,
        blocks_for(n) % 512 == 0,
{
}

/// A prefix of a run of octal digits never denotes more than the whole run.
proof fn lemma_octal_prefix_le(s: Seq<u8>, k: int)
    requires
        0 <= k <= s.len(),
        all_octal(s),
    ensures
        octal_value(s.take(k)) <= octal_value(s),
    decreases s.len(),
{
    if k < s.len() {
        lemma_octal_prefix_le(s.drop_last(), k);
        assert(s.drop_last().take(k) =~= s.take(k));
    } else {
        assert(s.take(k) =~= s);
    }
}

/// The bytes of `s` in `[start, i)`, extended by one digit.
proof fn lemma_octal_step(s: Seq<u8>, start: int, i: int)
    requires
        0 <= start <= i < s.len(),
    ensures
        octal_value(s.subrange(start, i + 1)) == octal_value(s.subrange(start, i)) * 8 + (s[i]
            - 0x30) as nat,
{
    assert(s.subrange(start, i + 1).drop_last() =~= s.subrange(start, i));
}

/// Reads the octal digits of `s[start..end]` into a `u128`; `None` when a
/// byte there is not an octal digit or the number does not fit.
fn octal_digits(s: &[u8], start: usize, end: usize) -> (r: Option<u128>)
    requires
        start <= end <= s@.len(),
    ensures
        r == (if all_octal(s@.subrange(start as int, end as int)) && octal_value(
            s@.subrange(start as int, end as int),
        ) <= u128::MAX {
            Some(octal_value(s@.subrange(start as int, end as int)) as u128)
        } else {
            None
        }),
{
    let ghost whole = s@.subrange(start as int, end as int);
    let mut acc: u128 = 0;
    let mut i: usize = start;
    while i < end
        invariant
            start <= i <= end <= s@.len(),
            whole == s@.subrange(start as int, end as int),
            all_octal(s@.subrange(start as int, i as int)),
            acc as nat == octal_value(s@.subrange(start as int, i as int)),
        decreases end - i,
    {
        let c = s[i];
        proof {
            lemma_octal_step(s@, start as int, i as int);
            assert(whole.take(i - start + 1) =~= s@.subrange(start as int, i + 1));
        }
        if c < 0x30 || c > 0x37 {
            assert(!all_octal(whole)) by {
                assert(whole[i - start] == c);
            }
            return None;
        }
        let next = match acc.checked_mul(8) {
            Some(m) => m.checked_add((c - 0x30) as u128),
            None => None,
        };
        match next {
            Some(v) => {
                acc = v;
            },
            None => {
                proof {
                    if all_octal(whole) {
                        lemma_octal_prefix_le(whole, i - start + 1);
                    }
                }
                return None;
            },
        }
        assert(all_octal(s@.subrange(start as int, i + 1))) by {
            assert forall|j: int| 0 <= j < i + 1 - start implies is_octal_digit(
                #[trigger] s@.subrange(start as int, i + 1)[j],
            ) by {
                if j < i - start {
                    assert(s@.subrange(start as int, i + 1)[j] == s@.subrange(
                        start as int,
                        i as int,
                    )[j]);
                }
            }
        }
        i = i + 1;
    }
    Some(acc)
}

/// Number of bytes of `s` that remain once its trailing zero bytes are cut.
fn end_without_nul(s: &[u8]) -> (e: usize)
    ensures
        e <= s@.len(),
        trim_end_nul(s@) == s@.take(e as int),
{
    let mut e: usize = s.len();
    assert(s@.take(e as int) =~= s@);
    while e > 0 && s[e - 1] == 0
        invariant
            e <= s@.len(),
            trim_end_nul(s@) == trim_end_nul(s@.take(e as int)),
        decreases e,
    {
        assert(s@.take(e as int).drop_last() =~= s@.take(e - 1));
        e = e - 1;
    }
    e
}

/// Position of the first byte of `s[..end]` that is not zero (`end` when
/// there is none).
fn start_without_nul(s: &[u8], end: usize) -> (b: usize)
    requires
        end <= s@.len(),
    ensures
        b <= end,
        trim_start_nul(s@.take(end as int)) == s@.subrange(b as int, end as int),
{
    let mut b: usize = 0;
    assert(s@.take(end as int) =~= s@.subrange(0, end as int));
    while b < end && s[b] == 0
        invariant
            b <= end <= s@.len(),
            trim_start_nul(s@.take(end as int)) == trim_start_nul(
                s@.subrange(b as int, end as int),
            ),
        decreases end - b,
    {
        assert(s@.subrange(b as int, end as int).drop_first() =~= s@.subrange(
            b + 1,
            end as int,
        ));
        b = b + 1;
    }
    b
}

/// `text_of(s)` is the prefix of `s` that ends at index `k`, when `k` is the
/// first zero byte of `s` or its length.
pub(crate) proof fn lemma_text_of_prefix(s: Seq<u8>, k: int)
    requires
        0 <= k <= s.len(),
        forall|i: int| 0 <= i < k ==> s[i] != 0,
        k == s.len() || s[k] == 0,
    ensures
        text_of(s) == s.take(k),
    decreases s.len(),
{
    if s.len() == 0 || s[0] == 0 {
        assert(s.take(k) =~= Seq::<u8>::empty());
    } else {
        lemma_text_of_prefix(s.drop_first(), k - 1);
        assert(seq![s[0]] + s.drop_first().take(k - 1) =~= s.take(k));
    }
}

/// Length of `text_of(s)`: the index of the first zero byte of `s`, or its
/// length when it holds none.
pub(crate) fn text_len(s: &[u8]) -> (k: usize)
    ensures
        k <= s@.len(),
        text_of(s@) == s@.take(k as int),
{
    let mut k: usize = 0;
    while k < s.len() && s[k] != 0
        invariant
            k <= s@.len(),
            forall|i: int| 0 <= i < k ==> s@[i] != 0,
        decreases s@.len() - k,
    {
        k = k + 1;
    }
    proof {
        lemma_text_of_prefix(s@, k as int);
    }
    k
}

/// Parses an unsigned octal number (see [`unsigned_octal`]) that fits in a
/// `u128`.
pub fn parse_octal(s: &[u8]) -> (r: Option<u128>)
    ensures
        r == (match unsigned_octal(s@) {
            Some(v) => if v <= u128::MAX {
                Some(v as u128)
            } else {
                None
            },
            None => None,
        }),
{
    let e = end_without_nul(s);
    assert(s@.subrange(0, e as int) =~= s@.take(e as int));
    if e == 0 {
        return None;
    }
    octal_digits(s, 0, e)
}

/// Parses an unsigned octal number (see [`unsigned_octal`]) that fits in a
/// `usize`: trailing zero bytes are ignored, and an empty field, a byte that
/// is not an octal digit or a number too large give `None`.
pub fn parse_usize(s: &[u8]) -> (r: Option<usize>)
    ensures
        r == (match unsigned_octal(s@) {
            Some(v) => if v <= usize::MAX {
                Some(v as usize)
            } else {
                None
            },
            None => None,
        }),
{
    match parse_octal(s) {
        Some(v) => if v <= usize::MAX as u128 {
            Some(v as usize)
        } else {
            None
        },
        None => None,
    }
}

/// Parses a signed octal number (see [`signed_octal`]) that fits in an
/// `isize`: zero bytes at both ends are ignored, and an optional sign may
/// precede the digits.
pub fn parse_isize(s: &[u8]) -> (r: Option<isize>)
    ensures
        r == (match signed_octal(s@) {
            Some(v) => if isize::MIN <= v <= isize::MAX {
                Some(v as isize)
            } else {
                None
            },
            None => None,
        }),
{
    let e = end_without_nul(s);
    let b = start_without_nul(s, e);
    let ghost t = trim_nul(s@);
    assert(t == s@.subrange(b as int, e as int));
    if b == e {
        return None;
    }
    let c = s[b];
    if c == 0x2b || c == 0x2d {
        assert(t.drop_first() =~= s@.subrange(b + 1, e as int));
        if b + 1 == e {
            return None;
        }
        match octal_digits(s, b + 1, e) {
            Some(v) => {
                if c == 0x2d {
                    if v <= isize::MAX as u128 + 1 {
                        if v == isize::MAX as u128 + 1 {
                            Some(isize::MIN)
                        } else {
                            Some(-(v as isize))
                        }
                    } else {
                        None
                    }
                } else if v <= isize::MAX as u128 {
                    Some(v as isize)
                } else {
                    None
                }
            },
            None => None,
        }
    } else {
        match octal_digits(s, b, e) {
            Some(v) => if v <= isize::MAX as u128 {
                Some(v as isize)
            } else {
                None
            },
            None => None,
        }
    }
}

/// Number of bytes that a payload of `bytes_count` bytes occupies in the
/// archive: `bytes_count` rounded up to a multiple of the block size.
pub fn offset_by_blocks(bytes_count: usize) -> (r: usize)
    requires
        bytes_count <= usize::MAX - (BLOCK_SIZE - 1),
    ensures
        r == blocks_for(bytes_count as nat),
        r % 512 == 0,
        bytes_count <= r < bytes_count + 512,
{
    let offset = bytes_count / BLOCK_SIZE * BLOCK_SIZE;
    if bytes_count % BLOCK_SIZE == 0 {
        offset
    } else {
        offset + BLOCK_SIZE
    }
}

} // verus!
