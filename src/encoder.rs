use vstd::prelude::*;
use vstd::arithmetic::power::pow;

use crate::types::ArtifactFormat;

verus! {

/// Largest raw ECDSA value (`r || s`) whose DER form fits short-form lengths.
pub const MAX_ECDSA_RAW: usize = 120;

#[derive(Clone, Copy, Debug, PartialEq, Eq, Structural)]
pub enum EncodeError {
    UnsupportedActionType,
    MalformedRawSignature,
}

/// `s` without its redundant leading zero bytes (one byte is always kept).
pub open spec fn strip_zeros(s: Seq<u8>) -> Seq<u8>
    decreases s.len(),
{
    if s.len() > 1 && s[0] == 0 {
        strip_zeros(s.drop_first())
    } else {
        s
    }
}

/// Content octets of a DER INTEGER holding the unsigned big-endian value `s`.
pub open spec fn der_int_content(s: Seq<u8>) -> Seq<u8> {
    let t = strip_zeros(s);
    if t.len() > 0 && t[0] >= 0x80 {
        seq![0u8] + t
    } else {
        t
    }
}

/// A complete DER INTEGER (tag, short-form length, content).
pub open spec fn der_integer(s: Seq<u8>) -> Seq<u8> {
    seq![0x02u8, der_int_content(s).len() as u8] + der_int_content(s)
}

/// The DER `ECDSA-Sig-Value` for a raw `r || s` value split in two equal halves.
pub open spec fn ecdsa_der(raw: Seq<u8>) -> Seq<u8> {
    let h = raw.len() / 2;
    let body = der_integer(raw.subrange(0, h as int)) + der_integer(raw.subrange(h as int, raw.len() as int));
    seq![0x30u8, body.len() as u8] + body
}

pub open spec fn ecdsa_raw_ok(raw: Seq<u8>) -> bool {
    0 < raw.len() <= MAX_ECDSA_RAW && raw.len() % 2 == 0
}

/// What encoding `raw` for `format` yields.
pub open spec fn encode_spec(format: ArtifactFormat, raw: Seq<u8>) -> Result<Seq<u8>, EncodeError> {
    match format {
        ArtifactFormat::Undeclared => Err(EncodeError::UnsupportedActionType),
        ArtifactFormat::EcdsaDer => if ecdsa_raw_ok(raw) {
            Ok(ecdsa_der(raw))
        } else {
            Err(EncodeError::MalformedRawSignature)
        },
        ArtifactFormat::RsaPkcs1 | ArtifactFormat::RawKey => if raw.len() > 0 {
            Ok(raw)
        } else {
            Err(EncodeError::MalformedRawSignature)
        },
    }
}

proof fn lemma_strip_len(s: Seq<u8>)
    ensures
        strip_zeros(s).len() <= s.len(),
        s.len() > 0 ==> strip_zeros(s).len() > 0,
    decreases s.len(),
{
    if s.len() > 1 && s[0] == 0 {
        lemma_strip_len(s.drop_first());
    }
}

/// Index of the first byte of `strip_zeros(raw[lo..hi])` within `raw`.
fn strip_start(raw: &Vec<u8>, lo: usize, hi: usize) -> (i: usize)
    requires
        lo < hi <= raw.len(),
    ensures
        lo <= i < hi,
        strip_zeros(raw@.subrange(lo as int, hi as int)) == raw@.subrange(i as int, hi as int),
{
    let mut i = lo;
    while i + 1 < hi && raw[i] == 0
        invariant
            lo <= i < hi <= raw.len(),
            strip_zeros(raw@.subrange(lo as int, hi as int)) == strip_zeros(raw@.subrange(i as int, hi as int)),
        decreases hi - i,
    {
        assert(raw@.subrange(i as int, hi as int).drop_first() =~= raw@.subrange(i + 1, hi as int));
        i += 1;
    }
    i
}

/// Appends the DER INTEGER for the unsigned value `raw[lo..hi]`.
fn push_der_integer(out: &mut Vec<u8>, raw: &Vec<u8>, lo: usize, hi: usize)
    requires
        lo < hi <= raw.len(),
        hi - lo < 127,
    ensures
        final(out)@ == old(out)@ + der_integer(raw@.subrange(lo as int, hi as int)),
{
    let ghost v = raw@.subrange(lo as int, hi as int);
    let i = strip_start(raw, lo, hi);
    let pad = raw[i] >= 0x80;
    let len: usize = if pad { hi - i + 1 } else { hi - i };
    let ghost start = out@;
    let ghost t = raw@.subrange(i as int, hi as int);
    assert(t[0] == raw[i as int]);
    assert(der_int_content(v) == if pad { seq![0u8] + t } else { t });
    out.push(0x02);
    out.push(len as u8);
    if pad {
        out.push(0);
    }
    let ghost head = out@;
    let mut j = i;
    while j < hi
        invariant
            i <= j <= hi <= raw.len(),
            out@ == head + raw@.subrange(i as int, j as int),
        decreases hi - j,
    {
        out.push(raw[j]);
        assert(raw@.subrange(i as int, j + 1) =~= raw@.subrange(i as int, j as int).push(raw@[j as int]));
        j += 1;
    }
    assert(der_int_content(v).len() == len);
    assert(out@ =~= start + der_integer(v));
}

/// Re-encodes a raw ECDSA `r || s` value as a DER `ECDSA-Sig-Value`.
pub fn ecdsa_to_der(raw: &Vec<u8>) -> (r: Vec<u8>)
    requires
        ecdsa_raw_ok(raw@),
    ensures
        r@ == ecdsa_der(raw@),
{
    let h = raw.len() / 2;
    let mut body: Vec<u8> = Vec::new();
    proof {
        lemma_strip_len(raw@.subrange(0, h as int));
        lemma_strip_len(raw@.subrange(h as int, raw.len() as int));
    }
    push_der_integer(&mut body, raw, 0, h);
    push_der_integer(&mut body, raw, h, raw.len());
    assert(body@ =~= der_integer(raw@.subrange(0, h as int)) + der_integer(raw@.subrange(h as int, raw.len() as int)));
    let mut out: Vec<u8> = Vec::new();
    out.push(0x30);
    out.push(body.len() as u8);
    let mut j: usize = 0;
    while j < body.len()
        invariant
            j <= body.len(),
            out@ == seq![0x30u8, body@.len() as u8] + body@.subrange(0, j as int),
        decreases body.len() - j,
    {
        out.push(body[j]);
        assert(body@.subrange(0, j + 1) =~= body@.subrange(0, j as int).push(body@[j as int]));
        j += 1;
    }
    assert(body@.subrange(0, body.len() as int) =~= body@);
    out
}

/// Turns a raw device value into the external artifact `format` declares.
pub fn encode(format: ArtifactFormat, raw: &Vec<u8>) -> (r: Result<Vec<u8>, EncodeError>)
    ensures
        match r {
            Ok(a) => encode_spec(format, raw@) == Ok::<Seq<u8>, EncodeError>(a@),
            Err(e) => encode_spec(format, raw@) == Err::<Seq<u8>, EncodeError>(e),
        },
{
    match format {
        ArtifactFormat::Undeclared => Err(EncodeError::UnsupportedActionType),
        ArtifactFormat::EcdsaDer => {
            if raw.len() == 0 || raw.len() > MAX_ECDSA_RAW || raw.len() % 2 != 0 {
                Err(EncodeError::MalformedRawSignature)
            } else {
                Ok(ecdsa_to_der(raw))
            }
        },
        ArtifactFormat::RsaPkcs1 | ArtifactFormat::RawKey => {
            if raw.len() == 0 {
                Err(EncodeError::MalformedRawSignature)
            } else {
                Ok(raw.clone())
            }
        },
    }
}

/// The unsigned big-endian value of `s`.
pub open spec fn be_value(s: Seq<u8>) -> nat
    decreases s.len(),
{
    if s.len() == 0 {
        0
    } else {
        s[0] as nat * pow(256, (s.len() - 1) as nat) as nat + be_value(s.drop_first())
    }
}

/// Splits a short-form DER element with tag `tag` off the front of `b`, giving its
/// content and the bytes after it.
pub open spec fn der_element(b: Seq<u8>, tag: u8) -> Option<(Seq<u8>, Seq<u8>)> {
    if b.len() >= 2 && b[0] == tag && b[1] < 0x80 && b.len() >= 2 + b[1] {
        Some((b.subrange(2, 2 + b[1]), b.subrange(2 + b[1], b.len() as int)))
    } else {
        None
    }
}

/// The content octets of the two INTEGERs of a DER `ECDSA-Sig-Value`, as a
/// verifier reads them; `None` when `b` is not exactly one such structure.
pub open spec fn read_ecdsa_der(b: Seq<u8>) -> Option<(Seq<u8>, Seq<u8>)> {
    match der_element(b, 0x30) {
        Some((body, rest)) => if rest.len() != 0 {
            None
        } else {
            match der_element(body, 0x02) {
                Some((r, t)) => match der_element(t, 0x02) {
                    Some((s, u)) => if u.len() == 0 {
                        Some((r, s))
                    } else {
                        None
                    },
                    None => None,
                },
                None => None,
            }
        },
        None => None,
    }
}

fn copy_range(b: &Vec<u8>, lo: usize, hi: usize) -> (v: Vec<u8>)
    requires
        lo <= hi <= b.len(),
    ensures
        v@ == b@.subrange(lo as int, hi as int),
{
    let mut v: Vec<u8> = Vec::new();
    let mut j = lo;
    while j < hi
        invariant
            lo <= j <= hi <= b.len(),
            v@ == b@.subrange(lo as int, j as int),
        decreases hi - j,
    {
        v.push(b[j]);
        assert(b@.subrange(lo as int, j + 1) =~= b@.subrange(lo as int, j as int).push(b@[j as int]));
        j += 1;
    }
    v
}

/// Reads the content octets of `r` and `s` out of a DER `ECDSA-Sig-Value`.
pub fn parse_ecdsa_der(b: &Vec<u8>) -> (r: Option<(Vec<u8>, Vec<u8>)>)
    ensures
        match r {
            Some((x, y)) => read_ecdsa_der(b@) == Some((x@, y@)),
            None => read_ecdsa_der(b@) is None,
        },
{
    let n = b.len();
    if n < 2 || b[0] != 0x30 || b[1] >= 0x80 || n != 2 + b[1] as usize {
        proof {
            if n >= 2 && b@[0] == 0x30 && b@[1] < 0x80 && n >= 2 + b@[1] {
                assert(b@.subrange(2 + b@[1], n as int).len() != 0);
            }
        }
        return None;
    }
    let ghost body = b@.subrange(2, n as int);
    assert(b@.subrange(2 + b@[1], n as int).len() == 0);
    assert(der_element(b@, 0x30) == Some((body, b@.subrange(2 + b@[1], n as int))));
    if n < 4 || b[2] != 0x02 || b[3] >= 0x80 || n < 4 + b[3] as usize {
        return None;
    }
    let l1 = b[3] as usize;
    let o = 4 + l1;
    let ghost t = body.subrange(2 + body[1], body.len() as int);
    assert(body.subrange(2, 2 + body[1]) =~= b@.subrange(4, o as int));
    assert(t =~= b@.subrange(o as int, n as int));
    if n < o + 2 || b[o] != 0x02 || b[o + 1] >= 0x80 || n != o + 2 + b[o + 1] as usize {
        proof {
            if t.len() >= 2 && t[0] == 0x02 && t[1] < 0x80 && t.len() >= 2 + t[1] {
                assert(t.subrange(2 + t[1], t.len() as int).len() != 0);
            }
        }
        return None;
    }
    let l2 = b[o + 1] as usize;
    assert(t.subrange(2, 2 + t[1]) =~= b@.subrange(o + 2, n as int));
    assert(t.subrange(2 + t[1], t.len() as int).len() == 0);
    let x = copy_range(b, 4, o);
    let y = copy_range(b, o + 2, n);
    Some((x, y))
}

proof fn lemma_strip_value(s: Seq<u8>)
    ensures
        be_value(strip_zeros(s)) == be_value(s),
    decreases s.len(),
{
    if s.len() > 1 && s[0] == 0 {
        lemma_strip_value(s.drop_first());
    }
}

/// The DER INTEGER content for `s` holds the same value as `s`, and reads as
/// non-negative (its first byte has the sign bit clear).
pub proof fn lemma_der_int_content(s: Seq<u8>)
    requires
        s.len() > 0,
    ensures
        be_value(der_int_content(s)) == be_value(s),
        der_int_content(s).len() > 0,
        der_int_content(s)[0] < 0x80,
{
    lemma_strip_value(s);
    lemma_strip_len(s);
    let t = strip_zeros(s);
    if t[0] >= 0x80 {
        let c = seq![0u8] + t;
        assert(c.drop_first() =~= t);
        assert(c[0] == 0);
        let w = pow(256, (c.len() - 1) as nat);
        assert(0nat * (w as nat) == 0) by (nonlinear_arith);
        assert(be_value(c) == c[0] as nat * w as nat + be_value(c.drop_first()));
    }
}

/// Reading back the DER artifact for a well-formed raw `r || s` value yields the
/// content octets of both halves, in order.
pub proof fn lemma_read_ecdsa_der(raw: Seq<u8>)
    requires
        ecdsa_raw_ok(raw),
    ensures
        read_ecdsa_der(ecdsa_der(raw)) == Some((
            der_int_content(raw.subrange(0, (raw.len() / 2) as int)),
            der_int_content(raw.subrange((raw.len() / 2) as int, raw.len() as int)),
        )),
{
    let h = raw.len() / 2;
    let rs = raw.subrange(0, h as int);
    let ss = raw.subrange(h as int, raw.len() as int);
    lemma_strip_len(rs);
    lemma_strip_len(ss);
    let a = der_integer(rs);
    let b = der_integer(ss);
    let body = a + b;
    let whole = ecdsa_der(raw);
    assert(whole.subrange(2, 2 + whole[1]) =~= body);
    assert(whole.subrange(2 + whole[1], whole.len() as int) =~= Seq::<u8>::empty());
    assert(body.subrange(2, 2 + body[1]) =~= der_int_content(rs));
    assert(body.subrange(2 + body[1], body.len() as int) =~= b);
    assert(b.subrange(2, 2 + b[1]) =~= der_int_content(ss));
    assert(b.subrange(2 + b[1], b.len() as int) =~= Seq::<u8>::empty());
}

} // verus!
