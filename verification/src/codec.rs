//! Length-framed wire encoding of credentials and public identities.
//!
//! A credential travels as framed chunks: subject, issuer, an attribute
//! count, then each attribute's name and value. Every frame is two
//! big-endian length bytes followed by the bytes themselves, and a decoder
//! accepts a buffer only when it is consumed exactly. Encoding and
//! decoding are inverses; `lemma_credential_round_trip` states it.

use vstd::prelude::*;

use crate::credential::{attrs_model, AttrData, Attribute, CredData, Credential, PublicIdentity};

verus! {

/// Upper bound on a framed chunk's length and on the attribute count.
pub const MAX_CHUNK_LEN: usize = 65535;

/// Two big-endian bytes holding `n`.
pub open spec fn enc_len(n: nat) -> Seq<u8> {
    seq![(n / 256) as u8, (n % 256) as u8]
}

/// A framed chunk: two length bytes, then the bytes themselves.
pub open spec fn enc_chunk(s: Seq<u8>) -> Seq<u8> {
    enc_len(s.len()) + s
}

/// The chunk's length fits its two length bytes.
pub open spec fn chunk_ok(s: Seq<u8>) -> bool {
    s.len() <= MAX_CHUNK_LEN
}

/// Both halves of an attribute fit their frames.
pub open spec fn attr_ok(a: AttrData) -> bool {
    chunk_ok(a.0) && chunk_ok(a.1)
}

/// An attribute's encoding: its name chunk, then its value chunk.
pub open spec fn enc_attr(a: AttrData) -> Seq<u8> {
    enc_chunk(a.0) + enc_chunk(a.1)
}

/// The attributes' encodings, in order.
pub open spec fn enc_attrs(attrs: Seq<AttrData>) -> Seq<u8>
    decreases attrs.len(),
{
    if attrs.len() == 0 {
        Seq::empty()
    } else {
        enc_attr(attrs[0]) + enc_attrs(attrs.drop_first())
    }
}

/// Every component of the credential fits its frame.
pub open spec fn cred_encodable(c: CredData) -> bool {
    &&& chunk_ok(c.0)
    &&& chunk_ok(c.2)
    &&& c.1.len() <= MAX_CHUNK_LEN
    &&& forall|i: int| 0 <= i < c.1.len() ==> attr_ok(#[trigger] c.1[i])
}

/// A credential's encoding: subject chunk, issuer chunk, attribute count,
/// attribute chunks.
pub open spec fn spec_encode_credential(c: CredData) -> Seq<u8> {
    enc_chunk(c.0) + enc_chunk(c.2) + enc_len(c.1.len()) + enc_attrs(c.1)
}

/// A public identity's encoding: its identifier as one chunk.
pub open spec fn spec_encode_identity(id: Seq<u8>) -> Seq<u8> {
    enc_chunk(id)
}

// Decoding, ghost level. A buffer is read from the front: `len_*` read the
// two length bytes, `chunk_*` a whole frame.

pub open spec fn len_some(b: Seq<u8>) -> bool {
    b.len() >= 2
}

pub open spec fn len_val(b: Seq<u8>) -> nat {
    (b[0] as nat) * 256 + (b[1] as nat)
}

pub open spec fn len_rest(b: Seq<u8>) -> Seq<u8> {
    b.skip(2)
}

pub open spec fn chunk_some(b: Seq<u8>) -> bool {
    b.len() >= 2 && 2 + len_val(b) <= b.len()
}

pub open spec fn chunk_val(b: Seq<u8>) -> Seq<u8> {
    b.subrange(2, 2 + len_val(b) as int)
}

pub open spec fn chunk_rest(b: Seq<u8>) -> Seq<u8> {
    b.skip(2 + len_val(b) as int)
}

/// Reads `count` attributes from the front of `b`; returns them and the
/// unread tail.
pub open spec fn dec_attrs(b: Seq<u8>, count: nat) -> Option<(Seq<AttrData>, Seq<u8>)>
    decreases count,
{
    if count == 0 {
        Some((Seq::empty(), b))
    } else if !chunk_some(b) {
        None
    } else if !chunk_some(chunk_rest(b)) {
        None
    } else {
        match dec_attrs(chunk_rest(chunk_rest(b)), (count - 1) as nat) {
            None => None,
            Some((rest_attrs, tail)) => Some(
                (seq![(chunk_val(b), chunk_val(chunk_rest(b)))] + rest_attrs, tail),
            ),
        }
    }
}

/// The one credential the byte string encodes, if any; the whole buffer
/// must be consumed.
pub open spec fn spec_decode_credential(b: Seq<u8>) -> Option<CredData> {
    if !chunk_some(b) {
        None
    } else if !chunk_some(chunk_rest(b)) {
        None
    } else if !len_some(chunk_rest(chunk_rest(b))) {
        None
    } else {
        let subject = chunk_val(b);
        let issuer = chunk_val(chunk_rest(b));
        let counted = chunk_rest(chunk_rest(b));
        match dec_attrs(len_rest(counted), len_val(counted)) {
            None => None,
            Some((attrs, tail)) => if tail.len() == 0 {
                Some((subject, attrs, issuer))
            } else {
                None
            },
        }
    }
}

/// The one identifier the byte string encodes, if any.
pub open spec fn spec_decode_identity(b: Seq<u8>) -> Option<Seq<u8>> {
    if chunk_some(b) && chunk_rest(b).len() == 0 {
        Some(chunk_val(b))
    } else {
        None
    }
}

// Round-trip lemmas.

/// Two length bytes written for `n` read back as `n`.
pub proof fn lemma_len_round(n: nat, rest: Seq<u8>)
    requires
        n <= MAX_CHUNK_LEN,
    ensures
        len_some(enc_len(n) + rest),
        len_val(enc_len(n) + rest) == n,
        len_rest(enc_len(n) + rest) == rest,
{
    let b = enc_len(n) + rest;
    assert(n / 256 <= 255 && n % 256 <= 255) by (nonlinear_arith)
        requires n <= 65535;
    assert(b[0] == (n / 256) as u8 && b[1] == (n % 256) as u8);
    assert((n / 256) * 256 + n % 256 == n) by (nonlinear_arith);
    assert(len_rest(b) =~= rest);
}

/// A chunk written for `s` reads back as `s`, leaving `rest`.
pub proof fn lemma_chunk_round(s: Seq<u8>, rest: Seq<u8>)
    requires
        chunk_ok(s),
    ensures
        chunk_some(enc_chunk(s) + rest),
        chunk_val(enc_chunk(s) + rest) == s,
        chunk_rest(enc_chunk(s) + rest) == rest,
{
    let b = enc_chunk(s) + rest;
    assert(b =~= enc_len(s.len()) + (s + rest));
    lemma_len_round(s.len(), s + rest);
    assert(chunk_val(b) =~= s);
    assert(chunk_rest(b) =~= rest);
}

/// Attributes written in order read back in order, leaving `rest`.
pub proof fn lemma_attrs_round(attrs: Seq<AttrData>, rest: Seq<u8>)
    requires
        forall|i: int| 0 <= i < attrs.len() ==> attr_ok(#[trigger] attrs[i]),
    ensures
        dec_attrs(enc_attrs(attrs) + rest, attrs.len()) == Some((attrs, rest)),
    decreases attrs.len(),
{
    if attrs.len() == 0 {
        assert(enc_attrs(attrs) + rest =~= rest);
        assert(attrs =~= Seq::<AttrData>::empty());
    } else {
        let a = attrs[0];
        let later = attrs.drop_first();
        let b = enc_attrs(attrs) + rest;
        assert(b =~= enc_chunk(a.0) + (enc_chunk(a.1) + (enc_attrs(later) + rest)));
        lemma_chunk_round(a.0, enc_chunk(a.1) + (enc_attrs(later) + rest));
        lemma_chunk_round(a.1, enc_attrs(later) + rest);
        assert(forall|i: int| 0 <= i < later.len() ==> attr_ok(#[trigger] later[i]));
        lemma_attrs_round(later, rest);
        assert(chunk_val(b) == a.0 && chunk_val(chunk_rest(b)) == a.1);
        assert(seq![(a.0, a.1)] + later =~= attrs);
    }
}

/// Encoding then decoding an encodable credential gives it back.
pub proof fn lemma_credential_round_trip(c: CredData)
    requires
        cred_encodable(c),
    ensures
        spec_decode_credential(spec_encode_credential(c)) == Some(c),
{
    let b = spec_encode_credential(c);
    let tail2 = enc_len(c.1.len()) + enc_attrs(c.1);
    let tail1 = enc_chunk(c.2) + tail2;
    assert(b =~= enc_chunk(c.0) + tail1);
    lemma_chunk_round(c.0, tail1);
    lemma_chunk_round(c.2, tail2);
    lemma_len_round(c.1.len(), enc_attrs(c.1));
    assert(enc_attrs(c.1) + Seq::<u8>::empty() =~= enc_attrs(c.1));
    lemma_attrs_round(c.1, Seq::empty());
}

/// Encoding then decoding an identity's identifier gives it back.
pub proof fn lemma_identity_round_trip(id: Seq<u8>)
    requires
        id.len() <= MAX_CHUNK_LEN,
    ensures
        spec_decode_identity(spec_encode_identity(id)) == Some(id),
{
    assert(enc_chunk(id) + Seq::<u8>::empty() =~= enc_chunk(id));
    lemma_chunk_round(id, Seq::empty());
}

// Encoding, executable level.

/// Appends the two length bytes for `n`.
fn push_len(out: &mut Vec<u8>, n: usize)
    requires
        n <= MAX_CHUNK_LEN,
    ensures
        final(out)@ == old(out)@ + enc_len(n as nat),
{
    proof {
        assert(n / 256 <= 255 && n % 256 <= 255) by (nonlinear_arith)
            requires n <= 65535;
    }
    out.push((n / 256) as u8);
    out.push((n % 256) as u8);
    assert(out@ =~= old(out)@ + enc_len(n as nat));
}

/// Appends one framed chunk.
fn push_chunk(out: &mut Vec<u8>, s: &[u8])
    requires
        s@.len() <= MAX_CHUNK_LEN,
    ensures
        final(out)@ == old(out)@ + enc_chunk(s@),
{
    push_len(out, s.len());
    out.extend_from_slice(s);
    assert(out@ =~= old(out)@ + enc_chunk(s@));
}

/// Appending one attribute extends the attribute-list encoding.
proof fn lemma_enc_attrs_push(attrs: Seq<AttrData>, a: AttrData)
    ensures
        enc_attrs(attrs.push(a)) == enc_attrs(attrs) + enc_attr(a),
    decreases attrs.len(),
{
    let snoc = attrs.push(a);
    assert(snoc.len() == attrs.len() + 1);
    if attrs.len() == 0 {
        assert(snoc[0] == a);
        assert(snoc.drop_first() =~= Seq::<AttrData>::empty());
        assert(enc_attrs(snoc) == enc_attr(a) + enc_attrs(snoc.drop_first()));
        assert(enc_attrs(snoc.drop_first()) == Seq::<u8>::empty());
        assert(enc_attrs(attrs) == Seq::<u8>::empty());
        assert(enc_attrs(snoc) =~= enc_attrs(attrs) + enc_attr(a));
    } else {
        assert(snoc.drop_first() =~= attrs.drop_first().push(a));
        assert(snoc[0] == attrs[0]);
        lemma_enc_attrs_push(attrs.drop_first(), a);
        assert(enc_attrs(snoc) == enc_attr(attrs[0]) + enc_attrs(snoc.drop_first()));
        assert(enc_attrs(attrs) == enc_attr(attrs[0]) + enc_attrs(attrs.drop_first()));
        assert(enc_attrs(snoc) =~= enc_attrs(attrs) + enc_attr(a));
    }
}

/// Encodes a credential; `None` exactly when some component is too long
/// for its frame.
pub fn encode_credential(c: &Credential) -> (r: Option<Vec<u8>>)
    ensures
        r is Some <==> cred_encodable(c.model()),
        r matches Some(v) ==> v@ == spec_encode_credential(c.model()),
{
    let ghost m = c.model();
    if c.subject.len() > MAX_CHUNK_LEN || c.issuer.len() > MAX_CHUNK_LEN
        || c.attributes.len() > MAX_CHUNK_LEN {
        return None;
    }
    let n = c.attributes.len();
    let mut i: usize = 0;
    while i < n
        invariant
            0 <= i <= n,
            n == c.attributes@.len(),
            m == c.model(),
            forall|j: int| 0 <= j < i ==> attr_ok(#[trigger] m.1[j]),
        decreases n - i,
    {
        let a = &c.attributes[i];
        if a.name.len() > MAX_CHUNK_LEN || a.value.len() > MAX_CHUNK_LEN {
            assert(!attr_ok(m.1[i as int]));
            return None;
        }
        assert(attr_ok(m.1[i as int]));
        i = i + 1;
    }
    let mut out: Vec<u8> = Vec::new();
    push_chunk(&mut out, c.subject.as_slice());
    push_chunk(&mut out, c.issuer.as_slice());
    push_len(&mut out, n);
    let ghost head = out@;
    assert(head =~= enc_chunk(m.0) + enc_chunk(m.2) + enc_len(m.1.len()));
    let mut i: usize = 0;
    while i < n
        invariant
            0 <= i <= n,
            n == c.attributes@.len(),
            m == c.model(),
            forall|j: int| 0 <= j < n ==> attr_ok(#[trigger] m.1[j]),
            out@ == head + enc_attrs(m.1.take(i as int)),
            head == enc_chunk(m.0) + enc_chunk(m.2) + enc_len(m.1.len()),
        decreases n - i,
    {
        let a = &c.attributes[i];
        assert(a.model() == m.1[i as int]);
        push_chunk(&mut out, a.name.as_slice());
        push_chunk(&mut out, a.value.as_slice());
        proof {
            lemma_enc_attrs_push(m.1.take(i as int), m.1[i as int]);
            assert(m.1.take(i as int).push(m.1[i as int]) =~= m.1.take(i + 1));
            assert(out@ =~= head + enc_attrs(m.1.take(i + 1)));
        }
        i = i + 1;
    }
    proof {
        assert(m.1.take(n as int) =~= m.1);
        assert(out@ =~= spec_encode_credential(m));
    }
    Some(out)
}

/// Encodes a public identity; `None` exactly when the identifier is too
/// long for its frame.
pub fn export_identity(p: &PublicIdentity) -> (r: Option<Vec<u8>>)
    ensures
        r is Some <==> p.id@.len() <= MAX_CHUNK_LEN,
        r matches Some(v) ==> v@ == spec_encode_identity(p.id@),
{
    if p.id.len() > MAX_CHUNK_LEN {
        return None;
    }
    let mut out: Vec<u8> = Vec::new();
    push_chunk(&mut out, p.id.as_slice());
    assert(out@ =~= spec_encode_identity(p.id@));
    Some(out)
}

// Decoding, executable level.

/// Reads two length bytes at `pos`.
fn read_len(b: &[u8], pos: usize) -> (r: Option<(usize, usize)>)
    requires
        pos <= b@.len(),
    ensures
        r is Some <==> len_some(b@.skip(pos as int)),
        r matches Some((n, p)) ==> {
            &&& n as nat == len_val(b@.skip(pos as int))
            &&& n <= MAX_CHUNK_LEN
            &&& p == pos + 2
            &&& p <= b@.len()
            &&& b@.skip(p as int) == len_rest(b@.skip(pos as int))
        },
{
    if b.len() - pos < 2 {
        return None;
    }
    let n = (b[pos] as usize) * 256 + (b[pos + 1] as usize);
    proof {
        let t = b@.skip(pos as int);
        assert(t[0] == b@[pos as int] && t[1] == b@[pos as int + 1]);
        assert(b@.skip(pos as int + 2) =~= len_rest(t));
    }
    Some((n, pos + 2))
}

/// Reads one framed chunk at `pos`, copying its bytes out.
fn read_chunk(b: &[u8], pos: usize) -> (r: Option<(Vec<u8>, usize)>)
    requires
        pos <= b@.len(),
    ensures
        r is Some <==> chunk_some(b@.skip(pos as int)),
        r matches Some((v, p)) ==> {
            &&& v@ == chunk_val(b@.skip(pos as int))
            &&& p <= b@.len()
            &&& b@.skip(p as int) == chunk_rest(b@.skip(pos as int))
        },
{
    let ghost t = b@.skip(pos as int);
    match read_len(b, pos) {
        None => None,
        Some((n, p2)) => {
            if b.len() - p2 < n {
                assert(!chunk_some(t));
                None
            } else {
                let s = vstd::slice::slice_subrange(b, p2, p2 + n);
                let v = vstd::slice::slice_to_vec(s);
                proof {
                    assert(v@ =~= chunk_val(t));
                    assert(b@.skip(p2 + n as int) =~= chunk_rest(t));
                }
                Some((v, p2 + n))
            }
        },
    }
}

/// What reading the remaining attributes, after `done` ones already read,
/// says about the whole attribute list.
spec fn attrs_then(done: Seq<AttrData>, b: Seq<u8>, count: nat) -> Option<
    (Seq<AttrData>, Seq<u8>),
> {
    match dec_attrs(b, count) {
        None => None,
        Some((attrs, tail)) => Some((done + attrs, tail)),
    }
}

/// Decodes a credential; `None` exactly when the buffer is not the
/// encoding of one.
pub fn decode_credential(b: &[u8]) -> (r: Option<Credential>)
    ensures
        r is Some <==> spec_decode_credential(b@) is Some,
        r matches Some(c) ==> spec_decode_credential(b@) == Some(c.model()),
{
    proof {
        assert(b@.skip(0) =~= b@);
    }
    let (subject, p1) = match read_chunk(b, 0) {
        None => { return None; },
        Some(x) => x,
    };
    let (issuer, p2) = match read_chunk(b, p1) {
        None => { return None; },
        Some(x) => x,
    };
    let (count, p3) = match read_len(b, p2) {
        None => { return None; },
        Some(x) => x,
    };
    let ghost r3 = b@.skip(p3 as int);
    proof {
        assert(chunk_some(b@));
        assert(b@.skip(p1 as int) == chunk_rest(b@));
        assert(chunk_some(chunk_rest(b@)));
        assert(b@.skip(p2 as int) == chunk_rest(chunk_rest(b@)));
        assert(len_some(chunk_rest(chunk_rest(b@))));
        assert(count as nat == len_val(chunk_rest(chunk_rest(b@))));
        assert(r3 == len_rest(chunk_rest(chunk_rest(b@))));
    }
    let mut attrs: Vec<Attribute> = Vec::new();
    let mut pos: usize = p3;
    let mut i: usize = 0;
    while i < count
        invariant
            0 <= i <= count,
            pos <= b@.len(),
            attrs@.len() == i,
            attrs_then(attrs_model(attrs@), b@.skip(pos as int), (count - i) as nat)
                == dec_attrs(r3, count as nat),
            chunk_some(b@) && chunk_some(chunk_rest(b@)),
            len_some(chunk_rest(chunk_rest(b@))),
            count as nat == len_val(chunk_rest(chunk_rest(b@))),
            r3 == len_rest(chunk_rest(chunk_rest(b@))),
        decreases count - i,
    {
        let ghost cur = b@.skip(pos as int);
        let ghost done = attrs_model(attrs@);
        let (name, q1) = match read_chunk(b, pos) {
            None => {
                assert(dec_attrs(cur, (count - i) as nat) is None);
                return None;
            },
            Some(x) => x,
        };
        let (value, q2) = match read_chunk(b, q1) {
            None => {
                assert(dec_attrs(cur, (count - i) as nat) is None);
                return None;
            },
            Some(x) => x,
        };
        let attr = Attribute { name, value };
        proof {
            let a = (chunk_val(cur), chunk_val(chunk_rest(cur)));
            assert(attr.model() == a);
            assert(attrs_model(attrs@.push(attr)) =~= done.push(a));
            let next = dec_attrs(b@.skip(q2 as int), (count - i - 1) as nat);
            match next {
                None => {
                    assert(dec_attrs(cur, (count - i) as nat) is None);
                },
                Some((rest_attrs, tail)) => {
                    assert(dec_attrs(cur, (count - i) as nat)
                        == Some((seq![a] + rest_attrs, tail)));
                    assert(done + (seq![a] + rest_attrs) =~= done.push(a) + rest_attrs);
                },
            }
        }
        attrs.push(attr);
        pos = q2;
        i = i + 1;
    }
    proof {
        assert(dec_attrs(b@.skip(pos as int), 0) == Some(
            (Seq::<AttrData>::empty(), b@.skip(pos as int)),
        ));
        assert(attrs_model(attrs@) + Seq::<AttrData>::empty() =~= attrs_model(attrs@));
    }
    if pos != b.len() {
        assert(b@.skip(pos as int).len() > 0);
        return None;
    }
    assert(b@.skip(pos as int).len() == 0);
    let cred = Credential { subject, attributes: attrs, issuer };
    assert(spec_decode_credential(b@) == Some(cred.model()));
    Some(cred)
}

/// Decodes a public identity; `None` exactly when the buffer is not the
/// encoding of one.
pub fn import_identity(b: &[u8]) -> (r: Option<PublicIdentity>)
    ensures
        r is Some <==> spec_decode_identity(b@) is Some,
        r matches Some(p) ==> spec_decode_identity(b@) == Some(p.id@),
{
    proof {
        assert(b@.skip(0) =~= b@);
    }
    match read_chunk(b, 0) {
        None => None,
        Some((id, p)) => {
            if p != b.len() {
                assert(chunk_rest(b@).len() > 0);
                None
            } else {
                assert(chunk_rest(b@).len() == 0);
                Some(PublicIdentity { id })
            }
        },
    }
}

} // verus!
