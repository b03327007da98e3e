use vstd::prelude::*;

use crate::store::{wf_entries, Entry, TrustStore};

verus! {

/// Failure of the trust-anchor store's persistence layer.
#[derive(Clone, Copy, PartialEq, Eq, Structural, Debug)]
pub enum StoreError {
    /// The backing document does not decode to a well-formed store.
    Corrupt,
    /// The backing file could not be read or written; raised by whatever
    /// owns the file, never by the codec itself.
    Io,
}

/// The ASCII lowercase hex digit of a value below 16.
pub open spec fn hex_digit_char(d: nat) -> u8 {
    if d < 10 {
        (48 + d) as u8
    } else {
        (87 + d) as u8
    }
}

/// The value of an ASCII lowercase hex digit.
pub open spec fn hex_digit_val(c: u8) -> nat {
    if 48 <= c <= 57 {
        (c - 48) as nat
    } else {
        (c - 87) as nat
    }
}

pub open spec fn is_hex_digit(c: u8) -> bool {
    (48 <= c <= 57) || (97 <= c <= 102)
}

/// `x` written as exactly `w` lowercase hex digits, most significant first.
pub open spec fn spec_hex(x: nat, w: nat) -> Seq<u8>
    decreases w,
{
    if w == 0 {
        Seq::empty()
    } else {
        spec_hex(x / 16, (w - 1) as nat).push(hex_digit_char(x % 16))
    }
}

/// The value of a string of hex digits.
pub open spec fn spec_hex_value(s: Seq<u8>) -> nat
    decreases s.len(),
{
    if s.len() == 0 {
        0
    } else {
        spec_hex_value(s.drop_last()) * 16 + hex_digit_val(s.last())
    }
}

pub open spec fn pow16(w: nat) -> nat
    decreases w,
{
    if w == 0 {
        1
    } else {
        16 * pow16((w - 1) as nat)
    }
}

/// One line of the store document: the network byte as two hex digits, the
/// height as sixteen, the header hash as sixty-four, space-separated and
/// newline-terminated.
pub open spec fn spec_record(e: Entry) -> Seq<u8> {
    spec_hex(e.net as nat, 2) + seq![32u8] + spec_hex(e.anchor.height as nat, 16) + seq![32u8]
        + spec_hex(e.anchor.hash.w0 as nat, 16) + spec_hex(e.anchor.hash.w1 as nat, 16) + spec_hex(
        e.anchor.hash.w2 as nat,
        16,
    ) + spec_hex(e.anchor.hash.w3 as nat, 16) + seq![10u8]
}

/// The whole document: one line per entry, in storage order.
pub open spec fn spec_encode(s: Seq<Entry>) -> Seq<u8>
    decreases s.len(),
{
    if s.len() == 0 {
        Seq::empty()
    } else {
        spec_encode(s.drop_last()) + spec_record(s.last())
    }
}

pub proof fn lemma_spec_hex_len(x: nat, w: nat)
    ensures
        spec_hex(x, w).len() == w,
    decreases w,
{
    if w > 0 {
        lemma_spec_hex_len(x / 16, (w - 1) as nat);
    }
}

pub proof fn lemma_pow16_positive(w: nat)
    ensures
        pow16(w) >= 1,
    decreases w,
{
    if w > 0 {
        lemma_pow16_positive((w - 1) as nat);
    }
}

/// The two widths the document uses cover every stored value: a network
/// byte fits two digits, a 64-bit word sixteen.
pub proof fn lemma_pow16_widths()
    ensures
        pow16(2) == 256,
        pow16(16) == 0x10000000000000000,
{
    reveal_with_fuel(pow16, 17);
}

pub proof fn lemma_pow16_mono(a: nat, b: nat)
    requires
        a <= b,
    ensures
        pow16(a) <= pow16(b),
    decreases b,
{
    if a < b {
        lemma_pow16_mono(a, (b - 1) as nat);
        lemma_pow16_positive((b - 1) as nat);
    }
}

/// Every character a field is written with is a lowercase hex digit.
pub proof fn lemma_spec_hex_digits(x: nat, w: nat)
    ensures
        forall|p: int| 0 <= p < spec_hex(x, w).len() ==> is_hex_digit(#[trigger] spec_hex(x, w)[p]),
    decreases w,
{
    lemma_spec_hex_len(x, w);
    if w > 0 {
        lemma_spec_hex_digits(x / 16, (w - 1) as nat);
        lemma_spec_hex_len(x / 16, (w - 1) as nat);
        assert forall|p: int| 0 <= p < spec_hex(x, w).len() implies is_hex_digit(
            #[trigger] spec_hex(x, w)[p],
        ) by {
            if p < w - 1 {
                assert(spec_hex(x, w)[p] == spec_hex(x / 16, (w - 1) as nat)[p]);
            } else {
                assert(spec_hex(x, w)[p] == hex_digit_char(x % 16));
            }
        }
    }
}

/// Writing a value below `16^w` as `w` digits and reading it back gives the
/// value itself.
pub proof fn lemma_spec_hex_roundtrip(x: nat, w: nat)
    requires
        x < pow16(w),
    ensures
        spec_hex_value(spec_hex(x, w)) == x,
    decreases w,
{
    if w == 0 {
    } else {
        let s = spec_hex(x, w);
        assert(x / 16 < pow16((w - 1) as nat)) by {
            lemma_pow16_positive((w - 1) as nat);
        }
        lemma_spec_hex_roundtrip(x / 16, (w - 1) as nat);
        assert(s.drop_last() =~= spec_hex(x / 16, (w - 1) as nat));
        assert(hex_digit_val(hex_digit_char(x % 16)) == x % 16);
        assert(spec_hex_value(s) == (x / 16) * 16 + x % 16);
    }
}

pub proof fn lemma_spec_record_len(e: Entry)
    ensures
        spec_record(e).len() == 85,
{
    lemma_spec_hex_len(e.net as nat, 2);
    lemma_spec_hex_len(e.anchor.height as nat, 16);
    lemma_spec_hex_len(e.anchor.hash.w0 as nat, 16);
    lemma_spec_hex_len(e.anchor.hash.w1 as nat, 16);
    lemma_spec_hex_len(e.anchor.hash.w2 as nat, 16);
    lemma_spec_hex_len(e.anchor.hash.w3 as nat, 16);
}

pub proof fn lemma_spec_encode_len(s: Seq<Entry>)
    ensures
        spec_encode(s).len() == 85 * s.len(),
    decreases s.len(),
{
    if s.len() > 0 {
        lemma_spec_encode_len(s.drop_last());
        lemma_spec_record_len(s.last());
    }
}

/// The document is the concatenation of its lines: line `i` stands at
/// offset `85 * i`.
pub proof fn lemma_encode_record_at(es: Seq<Entry>, i: int)
    requires
        0 <= i < es.len(),
    ensures
        spec_encode(es).subrange(85 * i, 85 * i + 85) == spec_record(es[i]),
    decreases es.len(),
{
    lemma_spec_encode_len(es);
    lemma_spec_encode_len(es.drop_last());
    lemma_spec_record_len(es.last());
    if i == es.len() - 1 {
        assert(spec_encode(es).subrange(85 * i, 85 * i + 85) =~= spec_record(es.last()));
    } else {
        lemma_encode_record_at(es.drop_last(), i);
        assert(spec_encode(es).subrange(85 * i, 85 * i + 85) =~= spec_encode(
            es.drop_last(),
        ).subrange(85 * i, 85 * i + 85));
    }
}

/// Appends `x` as exactly `w` lowercase hex digits, most significant first.
fn push_hex(out: &mut Vec<u8>, x: u64, w: usize)
    ensures
        final(out)@ == old(out)@ + spec_hex(x as nat, w as nat),
    decreases w,
{
    if w == 0 {
        proof {
            assert(out@ =~= out@ + spec_hex(x as nat, 0));
        }
    } else {
        push_hex(out, x / 16, w - 1);
        let d: u8 = (x % 16) as u8;
        let c: u8 = if d < 10 {
            48 + d
        } else {
            87 + d
        };
        out.push(c);
        proof {
            assert(c == hex_digit_char((x as nat) % 16));
            assert(out@ =~= old(out)@ + spec_hex(x as nat, w as nat));
        }
    }
}

/// Appends one line of the document.
fn push_record(out: &mut Vec<u8>, e: &Entry)
    ensures
        final(out)@ == old(out)@ + spec_record(*e),
{
    push_hex(out, e.net as u64, 2);
    out.push(32);
    push_hex(out, e.anchor.height, 16);
    out.push(32);
    push_hex(out, e.anchor.hash.w0, 16);
    push_hex(out, e.anchor.hash.w1, 16);
    push_hex(out, e.anchor.hash.w2, 16);
    push_hex(out, e.anchor.hash.w3, 16);
    out.push(10);
    proof {
        assert(out@ =~= old(out)@ + spec_record(*e));
    }
}

fn encode_entries(entries: &Vec<Entry>) -> (r: Vec<u8>)
    ensures
        r@ == spec_encode(entries@),
{
    let mut out: Vec<u8> = Vec::new();
    let mut i: usize = 0;
    while i < entries.len()
        invariant
            i <= entries@.len(),
            out@ == spec_encode(entries@.subrange(0, i as int)),
        decreases entries@.len() - i,
    {
        push_record(&mut out, &entries[i]);
        i += 1;
        proof {
            let sub = entries@.subrange(0, i as int);
            assert(sub.drop_last() =~= entries@.subrange(0, i - 1));
            assert(sub.last() == entries@[i - 1]);
        }
    }
    proof {
        assert(entries@.subrange(0, entries@.len() as int) =~= entries@);
    }
    out
}

/// Serializes the store as its line-based document: per network one line of
/// lowercase fixed-width hex fields, in ascending network order.
pub fn encode_store(s: &TrustStore) -> (r: Vec<u8>)
    ensures
        r@ == spec_encode(s.spec_entries()),
{
    encode_entries(s.entries_ref())
}

/// Reads `w` hex digits at `start`: their value, or `None` if any byte is
/// not a lowercase hex digit.
fn parse_hex(bytes: &Vec<u8>, start: usize, w: usize) -> (r: Option<u64>)
    requires
        start + w <= bytes@.len(),
        w <= 16,
    ensures
        match r {
            Some(v) => (forall|k: int|
                0 <= k < w ==> is_hex_digit(#[trigger] bytes@[start + k])) && v == spec_hex_value(
                bytes@.subrange(start as int, start + w),
            ) && v < pow16(w as nat),
            None => exists|k: int| 0 <= k < w && !is_hex_digit(#[trigger] bytes@[start + k]),
        },
{
    let len = bytes.len();
    let mut acc: u64 = 0;
    let mut j: usize = 0;
    while j < w
        invariant
            j <= w <= 16,
            start + w <= len,
            len == bytes@.len(),
            forall|k: int| 0 <= k < j ==> is_hex_digit(#[trigger] bytes@[start + k]),
            acc == spec_hex_value(bytes@.subrange(start as int, start + j)),
            acc < pow16(j as nat),
        decreases w - j,
    {
        let c = bytes[start + j];
        let d: u8 = if 48 <= c && c <= 57 {
            c - 48
        } else if 97 <= c && c <= 102 {
            c - 87
        } else {
            return None;
        };
        proof {
            lemma_pow16_mono((j + 1) as nat, 16);
            lemma_pow16_widths();
            assert(acc * 16 + d < pow16((j + 1) as nat)) by (nonlinear_arith)
                requires
                    acc < pow16(j as nat),
                    d < 16,
                    pow16((j + 1) as nat) == 16 * pow16(j as nat),
            ;
        }
        let ghost acc0 = acc;
        acc = acc * 16 + (d as u64);
        j += 1;
        proof {
            let sub = bytes@.subrange(start as int, start + j);
            assert(sub.drop_last() =~= bytes@.subrange(start as int, start + j - 1));
            assert(sub.last() == bytes@[start + j - 1]);
            assert(hex_digit_val(sub.last()) == d as nat);
            assert(acc == spec_hex_value(sub.drop_last()) * 16 + hex_digit_val(sub.last()));
        }
    }
    proof {
        assert(bytes@.subrange(start as int, start + j) =~= bytes@.subrange(
            start as int,
            start + w,
        ));
    }
    Some(acc)
}

fn bytes_eq(a: &Vec<u8>, b: &Vec<u8>) -> (r: bool)
    ensures
        r <==> a@ == b@,
{
    if a.len() != b.len() {
        return false;
    }
    let mut i: usize = 0;
    while i < a.len()
        invariant
            i <= a@.len(),
            a@.len() == b@.len(),
            forall|k: int| 0 <= k < i ==> a@[k] == b@[k],
        decreases a@.len() - i,
    {
        if a[i] != b[i] {
            return false;
        }
        i += 1;
    }
    proof {
        assert(a@ =~= b@);
    }
    true
}

/// What a structurally sound line looks like: separators in place and
/// lowercase hex digits everywhere else.
pub open spec fn spec_line_ok(bytes: Seq<u8>, base: int) -> bool {
    &&& bytes[base + 2] == 32
    &&& bytes[base + 19] == 32
    &&& bytes[base + 84] == 10
    &&& forall|k: int|
        base <= k < base + 85 && k != base + 2 && k != base + 19 && k != base + 84
            ==> is_hex_digit(#[trigger] bytes[k])
}

/// If `bytes` is the document of `es`, line `rec` of `bytes` is
/// structurally sound and its field values read back as the fields of
/// `es[rec]`.
proof fn lemma_line_of(bytes: Seq<u8>, es: Seq<Entry>, rec: int)
    requires
        spec_encode(es) == bytes,
        0 <= rec < es.len(),
    ensures
        85 * rec + 85 <= bytes.len(),
        spec_line_ok(bytes, 85 * rec),
        spec_hex_value(bytes.subrange(85 * rec, 85 * rec + 2)) == es[rec].net,
        spec_hex_value(bytes.subrange(85 * rec + 3, 85 * rec + 19)) == es[rec].anchor.height,
        spec_hex_value(bytes.subrange(85 * rec + 20, 85 * rec + 36)) == es[rec].anchor.hash.w0,
        spec_hex_value(bytes.subrange(85 * rec + 36, 85 * rec + 52)) == es[rec].anchor.hash.w1,
        spec_hex_value(bytes.subrange(85 * rec + 52, 85 * rec + 68)) == es[rec].anchor.hash.w2,
        spec_hex_value(bytes.subrange(85 * rec + 68, 85 * rec + 84)) == es[rec].anchor.hash.w3,
{
    let e = es[rec];
    let base = 85 * rec;
    lemma_spec_encode_len(es);
    lemma_encode_record_at(es, rec);
    let r = spec_record(e);
    lemma_record_fields(e);
    assert forall|k: int| 0 <= k < 85 implies bytes[base + k] == r[k] by {
        assert(r == bytes.subrange(base, base + 85));
        assert(r[k] == bytes.subrange(base, base + 85)[k]);
    }
    lemma_pow16_widths();
    lemma_spec_hex_digits(e.net as nat, 2);
    lemma_spec_hex_digits(e.anchor.height as nat, 16);
    lemma_spec_hex_digits(e.anchor.hash.w0 as nat, 16);
    lemma_spec_hex_digits(e.anchor.hash.w1 as nat, 16);
    lemma_spec_hex_digits(e.anchor.hash.w2 as nat, 16);
    lemma_spec_hex_digits(e.anchor.hash.w3 as nat, 16);
    assert forall|k: int|
        base <= k < base + 85 && k != base + 2 && k != base + 19 && k != base + 84 implies
    is_hex_digit(#[trigger] bytes[k]) by {
        let p = k - base;
        assert(bytes[k] == r[p]);
        if p < 2 {
            assert(r[p] == spec_hex(e.net as nat, 2)[p]);
        } else if p < 19 {
            assert(r[p] == spec_hex(e.anchor.height as nat, 16)[p - 3]);
        } else if p < 36 {
            assert(r[p] == spec_hex(e.anchor.hash.w0 as nat, 16)[p - 20]);
        } else if p < 52 {
            assert(r[p] == spec_hex(e.anchor.hash.w1 as nat, 16)[p - 36]);
        } else if p < 68 {
            assert(r[p] == spec_hex(e.anchor.hash.w2 as nat, 16)[p - 52]);
        } else {
            assert(r[p] == spec_hex(e.anchor.hash.w3 as nat, 16)[p - 68]);
        }
    }
    lemma_spec_hex_roundtrip(e.net as nat, 2);
    lemma_spec_hex_roundtrip(e.anchor.height as nat, 16);
    lemma_spec_hex_roundtrip(e.anchor.hash.w0 as nat, 16);
    lemma_spec_hex_roundtrip(e.anchor.hash.w1 as nat, 16);
    lemma_spec_hex_roundtrip(e.anchor.hash.w2 as nat, 16);
    lemma_spec_hex_roundtrip(e.anchor.hash.w3 as nat, 16);
    assert(bytes.subrange(base, base + 2) =~= spec_hex(e.net as nat, 2));
    assert(bytes.subrange(base + 3, base + 19) =~= spec_hex(e.anchor.height as nat, 16));
    assert(bytes.subrange(base + 20, base + 36) =~= spec_hex(e.anchor.hash.w0 as nat, 16));
    assert(bytes.subrange(base + 36, base + 52) =~= spec_hex(e.anchor.hash.w1 as nat, 16));
    assert(bytes.subrange(base + 52, base + 68) =~= spec_hex(e.anchor.hash.w2 as nat, 16));
    assert(bytes.subrange(base + 68, base + 84) =~= spec_hex(e.anchor.hash.w3 as nat, 16));
}

/// Parses one line: `None` exactly when the line is not structurally
/// sound; otherwise the entry whose fields are the values the line's hex
/// fields spell.
fn parse_line(bytes: &Vec<u8>, base: usize) -> (r: Option<Entry>)
    requires
        base + 85 <= bytes@.len(),
    ensures
        match r {
            Some(e) => {
                &&& e.net as nat == spec_hex_value(bytes@.subrange(base as int, base + 2))
                &&& e.anchor.height as nat == spec_hex_value(
                    bytes@.subrange(base + 3, base + 19),
                )
                &&& e.anchor.hash.w0 as nat == spec_hex_value(
                    bytes@.subrange(base + 20, base + 36),
                )
                &&& e.anchor.hash.w1 as nat == spec_hex_value(
                    bytes@.subrange(base + 36, base + 52),
                )
                &&& e.anchor.hash.w2 as nat == spec_hex_value(
                    bytes@.subrange(base + 52, base + 68),
                )
                &&& e.anchor.hash.w3 as nat == spec_hex_value(
                    bytes@.subrange(base + 68, base + 84),
                )
            },
            None => !spec_line_ok(bytes@, base as int),
        },
{
    let len = bytes.len();
    if bytes[base + 2] != 32 || bytes[base + 19] != 32 || bytes[base + 84] != 10 {
        return None;
    }
    let net = match parse_hex(bytes, base, 2) {
        Some(v) => v,
        None => {
            return None;
        },
    };
    let height = match parse_hex(bytes, base + 3, 16) {
        Some(v) => v,
        None => {
            return None;
        },
    };
    let w0 = match parse_hex(bytes, base + 20, 16) {
        Some(v) => v,
        None => {
            return None;
        },
    };
    let w1 = match parse_hex(bytes, base + 36, 16) {
        Some(v) => v,
        None => {
            return None;
        },
    };
    let w2 = match parse_hex(bytes, base + 52, 16) {
        Some(v) => v,
        None => {
            return None;
        },
    };
    let w3 = match parse_hex(bytes, base + 68, 16) {
        Some(v) => v,
        None => {
            return None;
        },
    };
    proof {
        lemma_pow16_widths();
    }
    Some(
        Entry {
            net: net as u8,
            anchor: crate::store::TrustAnchor {
                height,
                hash: crate::hash::Hash256 { w0, w1, w2, w3 },
            },
        },
    )
}

/// Decodes a store document.  A well-formed result is returned exactly for
/// bytes that are the canonical encoding of that result: after a
/// structural parse, the candidate store is re-encoded and compared with
/// the input, so a forged or damaged document is refused as `Corrupt`
/// rather than silently normalized, and bytes that no store encodes to
/// are never accepted.
pub fn decode_store(bytes: &Vec<u8>) -> (r: Result<TrustStore, StoreError>)
    ensures
        match r {
            Ok(s) => s.wf() && spec_encode(s.spec_entries()) == bytes@,
            Err(e) => e == StoreError::Corrupt && (forall|es: Seq<Entry>|
                wf_entries(es) ==> (#[trigger] spec_encode(es)) != bytes@),
        },
{
    let blen = bytes.len();
    if blen % 85 != 0 {
        proof {
            assert forall|es: Seq<Entry>| wf_entries(es) implies (#[trigger] spec_encode(es))
                != bytes@ by {
                if spec_encode(es) == bytes@ {
                    lemma_spec_encode_len(es);
                    assert((85 * es.len()) % 85 == 0) by (nonlinear_arith);
                }
            }
        }
        return Err(StoreError::Corrupt);
    }
    let n = blen / 85;
    let mut entries: Vec<Entry> = Vec::new();
    let mut rec: usize = 0;
    proof {
        assert forall|es: Seq<Entry>|
            wf_entries(es) && (#[trigger] spec_encode(es)) == bytes@ implies es.len() == n
                && entries@ == es.subrange(0, 0) by {
            lemma_spec_encode_len(es);
            assert(es.len() == n) by (nonlinear_arith)
                requires
                    85 * es.len() == n * 85,
            ;
            assert(entries@ =~= es.subrange(0, 0));
        }
    }
    while rec < n
        invariant
            n * 85 == blen,
            blen == bytes@.len(),
            rec <= n,
            wf_entries(entries@),
            entries@.len() == rec,
            forall|es: Seq<Entry>|
                wf_entries(es) && (#[trigger] spec_encode(es)) == bytes@ ==> es.len() == n
                    && entries@ == es.subrange(0, rec as int),
        decreases n - rec,
    {
        proof {
            assert(rec * 85 + 85 <= blen) by (nonlinear_arith)
                requires
                    rec < n,
                    n * 85 == blen,
            ;
        }
        let base = rec * 85;
        let e = match parse_line(bytes, base) {
            Some(e) => e,
            None => {
                proof {
                    assert forall|es: Seq<Entry>| wf_entries(es) implies (
                    #[trigger] spec_encode(es)) != bytes@ by {
                        if spec_encode(es) == bytes@ {
                            lemma_line_of(bytes@, es, rec as int);
                        }
                    }
                }
                return Err(StoreError::Corrupt);
            },
        };
        if entries.len() > 0 {
            let last = entries.len() - 1;
            if entries[last].net >= e.net {
                proof {
                    assert forall|es: Seq<Entry>| wf_entries(es) implies (
                    #[trigger] spec_encode(es)) != bytes@ by {
                        if spec_encode(es) == bytes@ {
                            lemma_line_of(bytes@, es, rec as int);
                            assert(entries@[last as int] == es.subrange(0, rec as int)[
                                last as int]);
                            assert(es[rec - 1].net < es[rec as int].net);
                        }
                    }
                }
                return Err(StoreError::Corrupt);
            }
            proof {
                assert(forall|k: int|
                    0 <= k < entries@.len() - 1 ==> (#[trigger] entries@[k].net)
                        < entries@[entries@.len() - 1].net);
            }
        }
        let ghost pre_entries = entries@;
        entries.push(e);
        rec += 1;
        proof {
            assert forall|es: Seq<Entry>|
                wf_entries(es) && (#[trigger] spec_encode(es)) == bytes@ implies es.len() == n
                    && entries@ == es.subrange(0, rec as int) by {
                lemma_line_of(bytes@, es, rec - 1);
                let x = es[rec - 1];
                assert(e.net == x.net);
                assert(e.anchor.height == x.anchor.height);
                assert(e.anchor.hash.w0 == x.anchor.hash.w0);
                assert(e.anchor.hash.w1 == x.anchor.hash.w1);
                assert(e.anchor.hash.w2 == x.anchor.hash.w2);
                assert(e.anchor.hash.w3 == x.anchor.hash.w3);
                assert(e.anchor.hash == x.anchor.hash);
                assert(e.anchor == x.anchor);
                assert(e == x);
                assert(pre_entries == es.subrange(0, rec - 1));
                assert(entries@ =~= es.subrange(0, rec as int));
            }
        }
    }
    let reenc = encode_entries(&entries);
    if !bytes_eq(bytes, &reenc) {
        proof {
            assert forall|es: Seq<Entry>| wf_entries(es) implies (#[trigger] spec_encode(es))
                != bytes@ by {
                if spec_encode(es) == bytes@ {
                    assert(entries@ =~= es);
                }
            }
        }
        return Err(StoreError::Corrupt);
    }
    Ok(TrustStore::from_entries(entries))
}

/// The document determines the store: two well-formed entry sequences with
/// the same encoding are the same sequence.  With `encode_store`'s and
/// `decode_store`'s contracts this says that whatever decodes from a
/// store's saved bytes holds exactly the anchors that were saved.
pub proof fn lemma_encode_injective(e1: Seq<Entry>, e2: Seq<Entry>)
    requires
        wf_entries(e1),
        wf_entries(e2),
        spec_encode(e1) == spec_encode(e2),
    ensures
        e1 == e2,
    decreases e1.len(),
{
    lemma_spec_encode_len(e1);
    lemma_spec_encode_len(e2);
    assert(e1.len() == e2.len()) by (nonlinear_arith)
        requires
            85 * e1.len() == 85 * e2.len(),
    ;
    if e1.len() == 0 {
        assert(e1 =~= e2);
    } else {
        let a = e1.last();
        let b = e2.last();
        let s = spec_encode(e1);
        lemma_spec_encode_len(e1.drop_last());
        lemma_spec_encode_len(e2.drop_last());
        lemma_spec_record_len(a);
        lemma_spec_record_len(b);
        assert(spec_record(a) =~= s.subrange(s.len() - 85, s.len() as int));
        assert(spec_record(b) =~= s.subrange(s.len() - 85, s.len() as int));
        lemma_record_injective(a, b);
        assert(spec_encode(e1.drop_last()) =~= s.subrange(0, s.len() - 85));
        assert(spec_encode(e2.drop_last()) =~= s.subrange(0, s.len() - 85));
        assert(wf_entries(e1.drop_last()));
        assert(wf_entries(e2.drop_last()));
        lemma_encode_injective(e1.drop_last(), e2.drop_last());
        assert(e1.drop_last() == e2.drop_last());
        assert forall|i: int| 0 <= i < e1.len() implies e1[i] == e2[i] by {
            if i < e1.len() - 1 {
                assert(e1[i] == e1.drop_last()[i]);
                assert(e2[i] == e2.drop_last()[i]);
            }
        }
        assert(e1 =~= e2);
    }
}

/// Durability, over the codec's contracts: the saved document determines
/// the anchors.  Whatever well-formed store decodes from the bytes a store
/// was saved as maps every network to the same anchor the saved store did.
pub proof fn lemma_store_determined(s1: TrustStore, s2: TrustStore)
    requires
        s1.wf(),
        s2.wf(),
        spec_encode(s1.spec_entries()) == spec_encode(s2.spec_entries()),
    ensures
        s1.as_map() == s2.as_map(),
{
    lemma_encode_injective(s1.spec_entries(), s2.spec_entries());
}

/// Two entries with the same line are the same entry.
proof fn lemma_record_injective(a: Entry, b: Entry)
    requires
        spec_record(a) == spec_record(b),
    ensures
        a == b,
{
    let s = spec_record(a);
    lemma_record_fields(a);
    lemma_record_fields(b);
    lemma_pow16_widths();
    lemma_hex_field_eq(a.net as nat, b.net as nat, 2);
    lemma_hex_field_eq(a.anchor.height as nat, b.anchor.height as nat, 16);
    lemma_hex_field_eq(a.anchor.hash.w0 as nat, b.anchor.hash.w0 as nat, 16);
    lemma_hex_field_eq(a.anchor.hash.w1 as nat, b.anchor.hash.w1 as nat, 16);
    lemma_hex_field_eq(a.anchor.hash.w2 as nat, b.anchor.hash.w2 as nat, 16);
    lemma_hex_field_eq(a.anchor.hash.w3 as nat, b.anchor.hash.w3 as nat, 16);
    assert(a.anchor.hash == b.anchor.hash);
    assert(a.anchor == b.anchor);
}

/// Where each field of an entry stands in its line.
proof fn lemma_record_fields(e: Entry)
    ensures
        spec_record(e).len() == 85,
        spec_record(e)[2] == 32,
        spec_record(e)[19] == 32,
        spec_record(e)[84] == 10,
        spec_hex(e.net as nat, 2) == spec_record(e).subrange(0, 2),
        spec_hex(e.anchor.height as nat, 16) == spec_record(e).subrange(3, 19),
        spec_hex(e.anchor.hash.w0 as nat, 16) == spec_record(e).subrange(20, 36),
        spec_hex(e.anchor.hash.w1 as nat, 16) == spec_record(e).subrange(36, 52),
        spec_hex(e.anchor.hash.w2 as nat, 16) == spec_record(e).subrange(52, 68),
        spec_hex(e.anchor.hash.w3 as nat, 16) == spec_record(e).subrange(68, 84),
{
    lemma_spec_hex_len(e.net as nat, 2);
    lemma_spec_hex_len(e.anchor.height as nat, 16);
    lemma_spec_hex_len(e.anchor.hash.w0 as nat, 16);
    lemma_spec_hex_len(e.anchor.hash.w1 as nat, 16);
    lemma_spec_hex_len(e.anchor.hash.w2 as nat, 16);
    lemma_spec_hex_len(e.anchor.hash.w3 as nat, 16);
    assert(spec_hex(e.net as nat, 2) =~= spec_record(e).subrange(0, 2));
    assert(spec_hex(e.anchor.height as nat, 16) =~= spec_record(e).subrange(3, 19));
    assert(spec_hex(e.anchor.hash.w0 as nat, 16) =~= spec_record(e).subrange(20, 36));
    assert(spec_hex(e.anchor.hash.w1 as nat, 16) =~= spec_record(e).subrange(36, 52));
    assert(spec_hex(e.anchor.hash.w2 as nat, 16) =~= spec_record(e).subrange(52, 68));
    assert(spec_hex(e.anchor.hash.w3 as nat, 16) =~= spec_record(e).subrange(68, 84));
}

/// Equal fixed-width digit strings denote equal values, for values that
/// fit the width.
proof fn lemma_hex_field_eq(x: nat, y: nat, w: nat)
    requires
        x < pow16(w),
        y < pow16(w),
        spec_hex(x, w) == spec_hex(y, w),
    ensures
        x == y,
{
    lemma_spec_hex_roundtrip(x, w);
    lemma_spec_hex_roundtrip(y, w);
}

} // verus!
