//! Persisted representation of the project store: a little-endian,
//! length-prefixed byte format whose decoder provably inverts the
//! encoder on every valid store, and rejects everything it cannot
//! account for.

use vstd::prelude::*;
use vstd::utf8::decode_utf8;
use vstd::utf8::encode_utf8;
use vstd::utf8::encode_utf8_decode_utf8;
use vstd::utf8::encode_utf8_valid_utf8;
use vstd::utf8::valid_utf8;
use vstd::seq_lib::lemma_concat_associative;
use crate::project::ids_unique;
use crate::project::Project;
use crate::project::ProjectStore;
use crate::project::ProjectView;

verus! {

/// The eight bytes of a `u64`, least significant first.
pub open spec fn u64_le(v: u64) -> Seq<u8> {
    seq![
        (v & 0xff) as u8,
        ((v >> 8) & 0xff) as u8,
        ((v >> 16) & 0xff) as u8,
        ((v >> 24) & 0xff) as u8,
        ((v >> 32) & 0xff) as u8,
        ((v >> 40) & 0xff) as u8,
        ((v >> 48) & 0xff) as u8,
        ((v >> 56) & 0xff) as u8,
    ]
}

/// The sixteen bytes of a `u128`, least significant first.
pub open spec fn u128_le(v: u128) -> Seq<u8> {
    seq![
        (v & 0xff) as u8,
        ((v >> 8) & 0xff) as u8,
        ((v >> 16) & 0xff) as u8,
        ((v >> 24) & 0xff) as u8,
        ((v >> 32) & 0xff) as u8,
        ((v >> 40) & 0xff) as u8,
        ((v >> 48) & 0xff) as u8,
        ((v >> 56) & 0xff) as u8,
        ((v >> 64) & 0xff) as u8,
        ((v >> 72) & 0xff) as u8,
        ((v >> 80) & 0xff) as u8,
        ((v >> 88) & 0xff) as u8,
        ((v >> 96) & 0xff) as u8,
        ((v >> 104) & 0xff) as u8,
        ((v >> 112) & 0xff) as u8,
        ((v >> 120) & 0xff) as u8,
    ]
}

/// The `u64` whose little-endian bytes open a byte sequence.
pub open spec fn comb_u64(b: Seq<u8>) -> u64 {
    (b[0] as u64) | ((b[1] as u64) << 8) | ((b[2] as u64) << 16) | ((b[3] as u64) << 24) | ((
    b[4] as u64) << 32) | ((b[5] as u64) << 40) | ((b[6] as u64) << 48) | ((b[7] as u64) << 56)
}

/// The `u128` whose little-endian bytes open a byte sequence.
pub open spec fn comb_u128(b: Seq<u8>) -> u128 {
    (b[0] as u128) | ((b[1] as u128) << 8) | ((b[2] as u128) << 16) | ((b[3] as u128) << 24) | ((
    b[4] as u128) << 32) | ((b[5] as u128) << 40) | ((b[6] as u128) << 48) | ((b[7] as u128) << 56)
        | ((b[8] as u128) << 64) | ((b[9] as u128) << 72) | ((b[10] as u128) << 80) | ((
    b[11] as u128) << 88) | ((b[12] as u128) << 96) | ((b[13] as u128) << 104) | ((b[14] as u128)
        << 112) | ((b[15] as u128) << 120)
}

/// A text field whose UTF-8 form the length prefix can carry.
pub open spec fn str_fits(s: Seq<char>) -> bool {
    encode_utf8(s).len() <= u64::MAX
}

/// A store the format can carry faithfully: unique identifiers, and
/// every length within the prefixes' range.
pub open spec fn store_encodable(ps: Seq<ProjectView>) -> bool {
    &&& ids_unique(ps)
    &&& ps.len() <= u64::MAX
    &&& forall|i: int|
        0 <= i < ps.len() ==> str_fits(#[trigger] ps[i].name) && str_fits(ps[i].description)
}

/// A text field: its UTF-8 byte length, then its UTF-8 bytes.
pub open spec fn enc_str(s: Seq<char>) -> Seq<u8> {
    u64_le(encode_utf8(s).len() as u64) + encode_utf8(s)
}

/// One project: identifier, then name, then description.
pub open spec fn enc_project(p: ProjectView) -> Seq<u8> {
    u128_le(p.id) + enc_str(p.name) + enc_str(p.description)
}

/// All projects, in store order.
pub open spec fn enc_projects(ps: Seq<ProjectView>) -> Seq<u8>
    decreases ps.len(),
{
    if ps.len() == 0 {
        Seq::empty()
    } else {
        enc_project(ps[0]) + enc_projects(ps.drop_first())
    }
}

/// The whole store: its entry count, then its entries.
pub open spec fn enc_store(ps: Seq<ProjectView>) -> Seq<u8> {
    u64_le(ps.len() as u64) + enc_projects(ps)
}

/// Reads a `u64` prefix; fails on fewer than eight bytes.
pub open spec fn dec_u64(b: Seq<u8>) -> Option<(u64, Seq<u8>)> {
    if b.len() < 8 {
        None
    } else {
        Some((comb_u64(b), b.skip(8)))
    }
}

/// Reads a `u128` prefix; fails on fewer than sixteen bytes.
pub open spec fn dec_u128(b: Seq<u8>) -> Option<(u128, Seq<u8>)> {
    if b.len() < 16 {
        None
    } else {
        Some((comb_u128(b), b.skip(16)))
    }
}

/// Reads a length-prefixed text field; fails on a short payload or on
/// bytes that are not UTF-8.
pub open spec fn dec_str(b: Seq<u8>) -> Option<(Seq<char>, Seq<u8>)> {
    match dec_u64(b) {
        None => None,
        Some((n, rest)) => if rest.len() < n {
            None
        } else {
            let sb = rest.take(n as int);
            if valid_utf8(sb) {
                Some((decode_utf8(sb), rest.skip(n as int)))
            } else {
                None
            }
        },
    }
}

/// Reads one project.
pub open spec fn dec_project(b: Seq<u8>) -> Option<(ProjectView, Seq<u8>)> {
    match dec_u128(b) {
        None => None,
        Some((id, r1)) => match dec_str(r1) {
            None => None,
            Some((name, r2)) => match dec_str(r2) {
                None => None,
                Some((description, r3)) => Some(
                    (ProjectView { id, name, description }, r3),
                ),
            },
        },
    }
}

/// Reads exactly `n` projects.
pub open spec fn dec_projects(b: Seq<u8>, n: nat) -> Option<(Seq<ProjectView>, Seq<u8>)>
    decreases n,
{
    if n == 0 {
        Some((Seq::empty(), b))
    } else {
        match dec_project(b) {
            None => None,
            Some((p, r)) => match dec_projects(r, (n - 1) as nat) {
                None => None,
                Some((ps, r2)) => Some((seq![p] + ps, r2)),
            },
        }
    }
}

/// Reads a whole store; fails on trailing bytes or repeated
/// identifiers, so that every successful decoding is a valid store.
pub open spec fn dec_store(b: Seq<u8>) -> Option<Seq<ProjectView>> {
    match dec_u64(b) {
        None => None,
        Some((n, rest)) => match dec_projects(rest, n as nat) {
            None => None,
            Some((ps, r)) => if r.len() == 0 && ids_unique(ps) {
                Some(ps)
            } else {
                None
            },
        },
    }
}

/// Reading a `u64` back from its own bytes, before any suffix, yields
/// the value and the suffix.
proof fn lemma_u64_roundtrip(v: u64, rest: Seq<u8>)
    ensures
        dec_u64(u64_le(v) + rest) == Some((v, rest)),
{
    let b = u64_le(v) + rest;
    let b0 = b[0];
    let b1 = b[1];
    let b2 = b[2];
    let b3 = b[3];
    let b4 = b[4];
    let b5 = b[5];
    let b6 = b[6];
    let b7 = b[7];
    assert((b0 as u64) | ((b1 as u64) << 8) | ((b2 as u64) << 16) | ((b3 as u64) << 24) | ((
    b4 as u64) << 32) | ((b5 as u64) << 40) | ((b6 as u64) << 48) | ((b7 as u64) << 56) == v)
        by (bit_vector)
        requires
            b0 == (v & 0xff) as u8,
            b1 == ((v >> 8) & 0xff) as u8,
            b2 == ((v >> 16) & 0xff) as u8,
            b3 == ((v >> 24) & 0xff) as u8,
            b4 == ((v >> 32) & 0xff) as u8,
            b5 == ((v >> 40) & 0xff) as u8,
            b6 == ((v >> 48) & 0xff) as u8,
            b7 == ((v >> 56) & 0xff) as u8,
    ;
    assert(comb_u64(b) == v);
    assert(b.skip(8) =~= rest);
}

/// Reading a `u128` back from its own bytes, before any suffix, yields
/// the value and the suffix.
proof fn lemma_u128_roundtrip(v: u128, rest: Seq<u8>)
    ensures
        dec_u128(u128_le(v) + rest) == Some((v, rest)),
{
    let b = u128_le(v) + rest;
    let b0 = b[0];
    let b1 = b[1];
    let b2 = b[2];
    let b3 = b[3];
    let b4 = b[4];
    let b5 = b[5];
    let b6 = b[6];
    let b7 = b[7];
    let b8 = b[8];
    let b9 = b[9];
    let b10 = b[10];
    let b11 = b[11];
    let b12 = b[12];
    let b13 = b[13];
    let b14 = b[14];
    let b15 = b[15];
    assert((b0 as u128) | ((b1 as u128) << 8) | ((b2 as u128) << 16) | ((b3 as u128) << 24) | ((
    b4 as u128) << 32) | ((b5 as u128) << 40) | ((b6 as u128) << 48) | ((b7 as u128) << 56) | ((
    b8 as u128) << 64) | ((b9 as u128) << 72) | ((b10 as u128) << 80) | ((b11 as u128) << 88) | ((
    b12 as u128) << 96) | ((b13 as u128) << 104) | ((b14 as u128) << 112) | ((b15 as u128) << 120)
        == v)
        by (bit_vector)
        requires
            b0 == (v & 0xff) as u8,
            b1 == ((v >> 8) & 0xff) as u8,
            b2 == ((v >> 16) & 0xff) as u8,
            b3 == ((v >> 24) & 0xff) as u8,
            b4 == ((v >> 32) & 0xff) as u8,
            b5 == ((v >> 40) & 0xff) as u8,
            b6 == ((v >> 48) & 0xff) as u8,
            b7 == ((v >> 56) & 0xff) as u8,
            b8 == ((v >> 64) & 0xff) as u8,
            b9 == ((v >> 72) & 0xff) as u8,
            b10 == ((v >> 80) & 0xff) as u8,
            b11 == ((v >> 88) & 0xff) as u8,
            b12 == ((v >> 96) & 0xff) as u8,
            b13 == ((v >> 104) & 0xff) as u8,
            b14 == ((v >> 112) & 0xff) as u8,
            b15 == ((v >> 120) & 0xff) as u8,
    ;
    assert(comb_u128(b) == v);
    assert(b.skip(16) =~= rest);
}

/// Reading a text field back from its own encoding, before any
/// suffix, yields the text and the suffix.
proof fn lemma_str_roundtrip(s: Seq<char>, rest: Seq<u8>)
    requires
        str_fits(s),
    ensures
        dec_str(enc_str(s) + rest) == Some((s, rest)),
{
    let sb = encode_utf8(s);
    let n = sb.len() as u64;
    lemma_concat_associative(u64_le(n), sb, rest);
    lemma_u64_roundtrip(n, sb + rest);
    assert((sb + rest).take(n as int) =~= sb);
    assert((sb + rest).skip(n as int) =~= rest);
    encode_utf8_valid_utf8(s);
    encode_utf8_decode_utf8(s);
}

/// Reading a project back from its own encoding, before any suffix,
/// yields the project and the suffix.
proof fn lemma_project_roundtrip(p: ProjectView, rest: Seq<u8>)
    requires
        str_fits(p.name),
        str_fits(p.description),
    ensures
        dec_project(enc_project(p) + rest) == Some((p, rest)),
{
    let tail = enc_str(p.name) + (enc_str(p.description) + rest);
    lemma_concat_associative(u128_le(p.id) + enc_str(p.name), enc_str(p.description), rest);
    lemma_concat_associative(u128_le(p.id), enc_str(p.name), enc_str(p.description) + rest);
    assert(enc_project(p) + rest == u128_le(p.id) + tail);
    lemma_u128_roundtrip(p.id, tail);
    lemma_str_roundtrip(p.name, enc_str(p.description) + rest);
    lemma_str_roundtrip(p.description, rest);
}

/// Reading a project sequence back from its own encoding, before any
/// suffix, yields the sequence and the suffix.
#[verifier::rlimit(100)]
proof fn lemma_projects_roundtrip(ps: Seq<ProjectView>, rest: Seq<u8>)
    requires
        forall|i: int|
            0 <= i < ps.len() ==> str_fits(#[trigger] ps[i].name) && str_fits(ps[i].description),
    ensures
        dec_projects(enc_projects(ps) + rest, ps.len()) == Some((ps, rest)),
    decreases ps.len(),
{
    if ps.len() == 0 {
        assert(enc_projects(ps) + rest =~= rest);
        assert(Seq::<ProjectView>::empty() =~= ps);
    } else {
        let tail = ps.drop_first();
        lemma_concat_associative(enc_project(ps[0]), enc_projects(tail), rest);
        assert(enc_projects(ps) + rest == enc_project(ps[0]) + (enc_projects(tail) + rest));
        lemma_project_roundtrip(ps[0], enc_projects(tail) + rest);
        lemma_projects_roundtrip(tail, rest);
        assert(seq![ps[0]] + tail =~= ps);
    }
}

/// Appending one project to a sequence appends its encoding.
proof fn lemma_enc_projects_snoc(ps: Seq<ProjectView>, p: ProjectView)
    ensures
        enc_projects(ps.push(p)) == enc_projects(ps) + enc_project(p),
    decreases ps.len(),
{
    let q = ps.push(p);
    if ps.len() == 0 {
        assert(q[0] == p);
        assert(q.drop_first() =~= Seq::<ProjectView>::empty());
        assert(enc_projects(q) == enc_project(p) + enc_projects(Seq::<ProjectView>::empty()));
        assert(enc_project(p) + Seq::<u8>::empty() =~= enc_project(p));
        assert(Seq::<u8>::empty() + enc_project(p) =~= enc_project(p));
    } else {
        assert(q[0] == ps[0]);
        assert(q.drop_first() =~= ps.drop_first().push(p));
        assert(enc_projects(q) == enc_project(ps[0]) + enc_projects(ps.drop_first().push(p)));
        lemma_enc_projects_snoc(ps.drop_first(), p);
        lemma_concat_associative(enc_project(ps[0]), enc_projects(ps.drop_first()), enc_project(p));
        assert(enc_projects(ps) == enc_project(ps[0]) + enc_projects(ps.drop_first()));
    }
}

/// Round trip: decoding the encoding of any encodable store yields
/// that store back — same projects, same order, same field values.
pub proof fn lemma_store_roundtrip(ps: Seq<ProjectView>)
    requires
        store_encodable(ps),
    ensures
        dec_store(enc_store(ps)) == Some(ps),
{
    let n = ps.len() as u64;
    lemma_u64_roundtrip(n, enc_projects(ps));
    assert(enc_store(ps) =~= u64_le(n) + enc_projects(ps));
    lemma_projects_roundtrip(ps, Seq::empty());
    assert(enc_projects(ps) + Seq::<u8>::empty() =~= enc_projects(ps));
}

fn push_u64(out: &mut Vec<u8>, v: u64)
    ensures
        final(out)@ == old(out)@ + u64_le(v),
{
    proof {
        assert(v & 0xff < 256 && (v >> 8) & 0xff < 256 && (v >> 16) & 0xff < 256 && (v >> 24)
            & 0xff < 256 && (v >> 32) & 0xff < 256 && (v >> 40) & 0xff < 256 && (v >> 48) & 0xff
            < 256 && (v >> 56) & 0xff < 256) by (bit_vector);
    }
    out.push((v & 0xff) as u8);
    out.push(((v >> 8) & 0xff) as u8);
    out.push(((v >> 16) & 0xff) as u8);
    out.push(((v >> 24) & 0xff) as u8);
    out.push(((v >> 32) & 0xff) as u8);
    out.push(((v >> 40) & 0xff) as u8);
    out.push(((v >> 48) & 0xff) as u8);
    out.push(((v >> 56) & 0xff) as u8);
    proof {
        assert(out@ =~= old(out)@ + u64_le(v));
    }
}

fn push_u128(out: &mut Vec<u8>, v: u128)
    ensures
        final(out)@ == old(out)@ + u128_le(v),
{
    proof {
        assert(v & 0xff < 256 && (v >> 8) & 0xff < 256 && (v >> 16) & 0xff < 256 && (v >> 24)
            & 0xff < 256 && (v >> 32) & 0xff < 256 && (v >> 40) & 0xff < 256 && (v >> 48) & 0xff
            < 256 && (v >> 56) & 0xff < 256 && (v >> 64) & 0xff < 256 && (v >> 72) & 0xff < 256
            && (v >> 80) & 0xff < 256 && (v >> 88) & 0xff < 256 && (v >> 96) & 0xff < 256 && (v
            >> 104) & 0xff < 256 && (v >> 112) & 0xff < 256 && (v >> 120) & 0xff < 256)
            by (bit_vector);
    }
    out.push((v & 0xff) as u8);
    out.push(((v >> 8) & 0xff) as u8);
    out.push(((v >> 16) & 0xff) as u8);
    out.push(((v >> 24) & 0xff) as u8);
    out.push(((v >> 32) & 0xff) as u8);
    out.push(((v >> 40) & 0xff) as u8);
    out.push(((v >> 48) & 0xff) as u8);
    out.push(((v >> 56) & 0xff) as u8);
    out.push(((v >> 64) & 0xff) as u8);
    out.push(((v >> 72) & 0xff) as u8);
    out.push(((v >> 80) & 0xff) as u8);
    out.push(((v >> 88) & 0xff) as u8);
    out.push(((v >> 96) & 0xff) as u8);
    out.push(((v >> 104) & 0xff) as u8);
    out.push(((v >> 112) & 0xff) as u8);
    out.push(((v >> 120) & 0xff) as u8);
    proof {
        assert(out@ =~= old(out)@ + u128_le(v));
    }
}

fn push_str(out: &mut Vec<u8>, s: &String)
    ensures
        final(out)@ == old(out)@ + enc_str(s@),
        str_fits(s@),
{
    let bytes: &[u8] = s.as_str().as_bytes();
    let n = bytes.len();
    proof {
        assert(bytes@ == encode_utf8(s@));
    }
    push_u64(out, n as u64);
    let ghost mid = out@;
    out.extend_from_slice(bytes);
    proof {
        assert(out@ =~= mid + bytes@);
        lemma_concat_associative(old(out)@, u64_le(n as u64), bytes@);
    }
}

/// Serializes the whole store for persistence.
pub fn encode(store: &ProjectStore) -> (r: Vec<u8>)
    requires
        store.wf(),
    ensures
        r@ == enc_store(store@),
        store_encodable(store@),
{
    let n = store.len();
    let mut out: Vec<u8> = Vec::new();
    push_u64(&mut out, n as u64);
    proof {
        assert(Seq::<u8>::empty() + u64_le(n as u64) =~= u64_le(n as u64));
        assert(store@.take(0) =~= Seq::<ProjectView>::empty());
    }
    let mut i: usize = 0;
    while i < n
        invariant
            store.wf(),
            n == store@.len(),
            n <= u64::MAX,
            0 <= i <= n,
            out@ == u64_le(n as u64) + enc_projects(store@.take(i as int)),
            forall|k: int|
                0 <= k < i ==> str_fits(#[trigger] store@[k].name) && str_fits(
                    store@[k].description,
                ),
        decreases n - i,
    {
        let p = store.nth(i);
        let ghost pre = out@;
        push_u128(&mut out, p.id);
        push_str(&mut out, &p.name);
        push_str(&mut out, &p.description);
        proof {
            let pv = store@[i as int];
            lemma_concat_associative(pre, u128_le(pv.id), enc_str(pv.name));
            lemma_concat_associative(pre, u128_le(pv.id) + enc_str(pv.name), enc_str(pv.description));
            assert(out@ == pre + enc_project(pv));
            assert(store@.take(i + 1) =~= store@.take(i as int).push(pv));
            lemma_enc_projects_snoc(store@.take(i as int), pv);
            lemma_concat_associative(
                u64_le(n as u64),
                enc_projects(store@.take(i as int)),
                enc_project(pv),
            );
        }
        i += 1;
    }
    proof {
        assert(store@.take(n as int) =~= store@);
    }
    out
}

/// Relies on str::from_utf8: it succeeds exactly on valid UTF-8, and
/// yields the character sequence those bytes encode.
#[verifier::external_body]
fn bytes_to_string(v: &[u8]) -> (r: Option<String>)
    ensures
        match r {
            Some(s) => valid_utf8(v@) && s@ == decode_utf8(v@),
            None => !valid_utf8(v@),
        },
{
    match std::str::from_utf8(v) {
        Ok(s) => Some(s.to_owned()),
        Err(_) => None,
    }
}

fn read_u64(b: &Vec<u8>, pos: usize) -> (r: Option<(u64, usize)>)
    requires
        pos <= b@.len(),
    ensures
        match r {
            Some(t) => t.1 <= b@.len() && dec_u64(b@.skip(pos as int)) == Some(
                (t.0, b@.skip(t.1 as int)),
            ),
            None => dec_u64(b@.skip(pos as int)) == None::<(u64, Seq<u8>)>,
        },
{
    if b.len() - pos < 8 {
        return None;
    }
    let v = (b[pos] as u64) | ((b[pos + 1] as u64) << 8) | ((b[pos + 2] as u64) << 16) | ((b[pos
        + 3] as u64) << 24) | ((b[pos + 4] as u64) << 32) | ((b[pos + 5] as u64) << 40) | ((b[pos
        + 6] as u64) << 48) | ((b[pos + 7] as u64) << 56);
    proof {
        let s = b@.skip(pos as int);
        assert(forall|k: int| 0 <= k < s.len() ==> s[k] == b@[pos + k]);
        assert(comb_u64(s) == v);
        assert(s.skip(8) =~= b@.skip(pos + 8));
    }
    Some((v, pos + 8))
}

fn read_u128(b: &Vec<u8>, pos: usize) -> (r: Option<(u128, usize)>)
    requires
        pos <= b@.len(),
    ensures
        match r {
            Some(t) => t.1 <= b@.len() && dec_u128(b@.skip(pos as int)) == Some(
                (t.0, b@.skip(t.1 as int)),
            ),
            None => dec_u128(b@.skip(pos as int)) == None::<(u128, Seq<u8>)>,
        },
{
    if b.len() - pos < 16 {
        return None;
    }
    let v = (b[pos] as u128) | ((b[pos + 1] as u128) << 8) | ((b[pos + 2] as u128) << 16) | ((
    b[pos + 3] as u128) << 24) | ((b[pos + 4] as u128) << 32) | ((b[pos + 5] as u128) << 40) | ((
    b[pos + 6] as u128) << 48) | ((b[pos + 7] as u128) << 56) | ((b[pos + 8] as u128) << 64) | ((
    b[pos + 9] as u128) << 72) | ((b[pos + 10] as u128) << 80) | ((b[pos + 11] as u128) << 88) | ((
    b[pos + 12] as u128) << 96) | ((b[pos + 13] as u128) << 104) | ((b[pos + 14] as u128) << 112)
        | ((b[pos + 15] as u128) << 120);
    proof {
        let s = b@.skip(pos as int);
        assert(forall|k: int| 0 <= k < s.len() ==> s[k] == b@[pos + k]);
        assert(comb_u128(s) == v);
        assert(s.skip(16) =~= b@.skip(pos + 16));
    }
    Some((v, pos + 16))
}

fn read_str(b: &Vec<u8>, pos: usize) -> (r: Option<(String, usize)>)
    requires
        pos <= b@.len(),
    ensures
        match r {
            Some(t) => t.1 <= b@.len() && dec_str(b@.skip(pos as int)) == Some(
                (t.0@, b@.skip(t.1 as int)),
            ),
            None => dec_str(b@.skip(pos as int)) == None::<(Seq<char>, Seq<u8>)>,
        },
{
    match read_u64(b, pos) {
        None => None,
        Some((n, p1)) => {
            let rem = b.len() - p1;
            if n > rem as u64 {
                proof {
                    assert(b@.skip(p1 as int).len() < n);
                }
                None
            } else {
                let nn = n as usize;
                let end = p1 + nn;
                let sl = vstd::slice::slice_subrange(b.as_slice(), p1, end);
                proof {
                    assert(sl@ =~= b@.skip(p1 as int).take(n as int));
                }
                match bytes_to_string(sl) {
                    None => None,
                    Some(s) => {
                        proof {
                            assert(b@.skip(p1 as int).skip(n as int) =~= b@.skip(end as int));
                        }
                        Some((s, end))
                    },
                }
            }
        },
    }
}

fn read_project(b: &Vec<u8>, pos: usize) -> (r: Option<(Project, usize)>)
    requires
        pos <= b@.len(),
    ensures
        match r {
            Some(t) => t.1 <= b@.len() && dec_project(b@.skip(pos as int)) == Some(
                (t.0@, b@.skip(t.1 as int)),
            ),
            None => dec_project(b@.skip(pos as int)) == None::<(ProjectView, Seq<u8>)>,
        },
{
    match read_u128(b, pos) {
        None => None,
        Some((id, p1)) => match read_str(b, p1) {
            None => None,
            Some((name, p2)) => match read_str(b, p2) {
                None => None,
                Some((description, p3)) => Some((Project { id, name, description }, p3)),
            },
        },
    }
}

fn read_projects(b: &Vec<u8>, pos: usize, n: u64) -> (r: Option<(Vec<Project>, usize)>)
    requires
        pos <= b@.len(),
    ensures
        match r {
            Some(t) => t.1 <= b@.len() && dec_projects(b@.skip(pos as int), n as nat) == Some(
                (t.0@.map_values(|p: Project| p@), b@.skip(t.1 as int)),
            ),
            None => dec_projects(b@.skip(pos as int), n as nat) == None::<(Seq<ProjectView>, Seq<u8>)>,
        },
    decreases n,
{
    if n == 0 {
        let empty: Vec<Project> = Vec::new();
        proof {
            assert(empty@.map_values(|p: Project| p@) =~= Seq::<ProjectView>::empty());
        }
        Some((empty, pos))
    } else {
        match read_project(b, pos) {
            None => None,
            Some((p, p1)) => match read_projects(b, p1, n - 1) {
                None => None,
                Some((mut ps, p2)) => {
                    let ghost tailv = ps@.map_values(|q: Project| q@);
                    ps.insert(0, p);
                    proof {
                        assert(ps@.map_values(|q: Project| q@) =~= seq![p@] + tailv);
                    }
                    Some((ps, p2))
                },
            },
        }
    }
}

fn ids_unique_check(ps: &Vec<Project>) -> (r: bool)
    ensures
        r == ids_unique(ps@.map_values(|p: Project| p@)),
{
    let ghost pv = ps@.map_values(|p: Project| p@);
    let n = ps.len();
    let mut i: usize = 0;
    while i < n
        invariant
            pv == ps@.map_values(|p: Project| p@),
            n == pv.len(),
            0 <= i <= n,
            forall|a: int, c: int| 0 <= a < c < i ==> pv[a].id != pv[c].id,
        decreases n - i,
    {
        let mut j: usize = 0;
        while j < i
            invariant
                pv == ps@.map_values(|p: Project| p@),
                n == pv.len(),
                0 <= j <= i < n,
                forall|a: int, c: int| 0 <= a < c < i ==> pv[a].id != pv[c].id,
                forall|a: int| 0 <= a < j ==> pv[a].id != pv[i as int].id,
            decreases i - j,
        {
            if ps[j].id == ps[i].id {
                proof {
                    assert(pv[j as int].id == pv[i as int].id);
                }
                return false;
            }
            j += 1;
        }
        i += 1;
    }
    proof {
        assert(ids_unique(pv)) by {
            assert(forall|a: int, c: int|
                0 <= a < pv.len() && 0 <= c < pv.len() && a != c ==> pv[a].id != pv[c].id);
        }
    }
    true
}

/// Deserializes a persisted payload; yields `None` on anything the
/// format cannot account for, including repeated identifiers.
pub fn decode(b: &Vec<u8>) -> (r: Option<ProjectStore>)
    ensures
        match r {
            Some(s) => s.wf() && dec_store(b@) == Some(s@),
            None => dec_store(b@) == None::<Seq<ProjectView>>,
        },
{
    proof {
        assert(b@.skip(0) =~= b@);
    }
    match read_u64(b, 0) {
        None => None,
        Some((n, p1)) => match read_projects(b, p1, n) {
            None => None,
            Some((ps, p2)) => {
                if p2 != b.len() {
                    proof {
                        assert(b@.skip(p2 as int).len() > 0);
                    }
                    None
                } else if !ids_unique_check(&ps) {
                    None
                } else {
                    proof {
                        assert(b@.skip(p2 as int).len() == 0);
                    }
                    Some(ProjectStore::from_projects(ps))
                }
            },
        },
    }
}

/// Builds the starting store from what persistence handed back: a
/// missing or undecodable payload yields an empty store rather than a
/// failure.
pub fn load(bytes: Option<Vec<u8>>) -> (r: ProjectStore)
    ensures
        r.wf(),
        match bytes {
            Some(b) => match dec_store(b@) {
                Some(ps) => r@ == ps,
                None => r@ == Seq::<ProjectView>::empty(),
            },
            None => r@ == Seq::<ProjectView>::empty(),
        },
{
    match bytes {
        None => ProjectStore::new(),
        Some(b) => match decode(&b) {
            Some(s) => s,
            None => ProjectStore::new(),
        },
    }
}

} // verus!
