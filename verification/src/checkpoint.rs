//! The transparency log's signed tree head as a C2SP signed-note checkpoint,
//! with witness cosigning and an N-of-M quorum check.
//!
//! A checkpoint body is three newline-terminated lines: the **origin** (the
//! log's identity, e.g. `indexone.dev/witness`), the decimal **tree size**,
//! and the standard base64 **root hash**. A signed note is the body followed
//! by one or more signature lines `— <name> base64(keyhash ‖ sig)`, where
//! `keyhash = SHA-256(name ‖ 0x0A ‖ 0x01 ‖ pubkey)[..4]` and `0x01` is the
//! Ed25519 note-algorithm byte. Unknown signatures are ignored, which is what
//! lets witnesses cosign the same body.
//!
//! All text is handled as its UTF-8 bytes: every delimiter is ASCII.
use vstd::prelude::*;
use vstd::string::StringSliceAdditionalSpecFns;
use vstd::utf8::{encode_utf8, valid_utf8};

use crate::crypto::{spec_verify_signature, verify_signature, Algorithm, CryptoError, PublicKey, Signature, Signer};
use crate::ed25519::{spec_sign_with_seed, Ed25519Signer};
use crate::hashing::{append_bytes, sha256, spec_sha256};
use crate::json::{push_decimal, spec_decimal};
use crate::text::{
    is_ascii_bytes, lemma_lines_concat, lemma_single_line, no_newline, lemma_ascii_valid_utf8, lemma_utf8_prefix_through_ascii, lemma_utf8_split_at_ascii,
    line_ranges, line_ranges_of, lemma_terminated_prefix, parse_usize, ranges_view, spec_lines, spec_parse_usize,
    string_from_utf8, strip_cr, terminated,
};
use crate::witness::{
    digests_view, lemma_consistency_proof_verifies, spec_consistency_proof, spec_root, spec_verify_consistency,
    verify_consistency, ConsistencyProof, Digest,
};

verus! {

broadcast use vstd::utf8::encode_utf8_valid_utf8, vstd::utf8::valid_utf8_concat;

// ---------------------------------------------------------------------------
// Standard base64
// ---------------------------------------------------------------------------

/// The standard-alphabet, padded base64 encoding (RFC 4648 §4) of `input`, as
/// `base64::engine::general_purpose::STANDARD` produces it.
pub uninterp spec fn spec_base64_encode(input: Seq<u8>) -> Seq<u8>;

/// What `STANDARD.decode` returns for `input`: the decoded bytes, or `None`
/// where it reports an error (a byte outside the alphabet, bad padding,
/// non-zero trailing bits, an impossible length).
pub uninterp spec fn spec_base64_decode(input: Seq<u8>) -> Option<Seq<u8>>;

/// `input` encodes to alphabet and padding symbols that decode back to it.
pub open spec fn base64_round_trips(input: Seq<u8>) -> bool {
    &&& forall|i: int|
        0 <= i < spec_base64_encode(input).len() ==> is_base64_symbol(#[trigger] spec_base64_encode(input)[i])
    &&& spec_base64_decode(spec_base64_encode(input)) == Some(input)
}

/// A byte of the standard base64 alphabet, or the padding `=`.
pub open spec fn is_base64_symbol(b: u8) -> bool {
    ||| 65 <= b <= 90
    ||| 97 <= b <= 122
    ||| 48 <= b <= 57
    ||| b == 43
    ||| b == 47
    ||| b == 61
}

/// Calls `STANDARD.encode(input)` and takes the string's bytes. Claims that
/// the encoding is a function of the input, that it is made of alphabet and
/// padding symbols only, and that `STANDARD.decode` gives the input back
/// (RFC 4648 round trip). `requires` keeps out the inputs whose encoded length
/// overflows `usize`, on which `encode` panics.
#[verifier::external_body]
fn base64_encode(input: &[u8]) -> (r: Vec<u8>)
    requires
        (input@.len() + 2) / 3 * 4 <= usize::MAX,
    ensures
        r@ == spec_base64_encode(input@),
        forall|i: int| 0 <= i < r@.len() ==> is_base64_symbol(#[trigger] r@[i]),
        spec_base64_decode(r@) == Some(input@),
{
    base64::Engine::encode(&base64::engine::general_purpose::STANDARD, input).into_bytes()
}

/// Calls `STANDARD.decode(input)`; an error becomes `None`. Claims that the
/// result is a function of the input.
#[verifier::external_body]
fn base64_decode(input: &[u8]) -> (r: Option<Vec<u8>>)
    ensures
        match spec_base64_decode(input@) {
            Some(v) => r matches Some(w) && w@ == v,
            None => r is None,
        },
{
    base64::Engine::decode(&base64::engine::general_purpose::STANDARD, input).ok()
}

// ---------------------------------------------------------------------------
// The note text
// ---------------------------------------------------------------------------

/// The note signature-algorithm byte for Ed25519.
const ED25519_NOTE_ALG: u8 = 0x01;

/// `— `: the em dash (U+2014) and a space, which open every signature line.
pub open spec fn spec_sig_marker() -> Seq<u8> {
    seq![0xe2u8, 0x80u8, 0x94u8, 0x20u8]
}

/// A line that opens with the signature marker.
pub open spec fn is_sig_line(l: Seq<u8>) -> bool {
    l.len() >= 4 && l.subrange(0, 4) == spec_sig_marker()
}

/// The index of the first signature line at or after `i`.
pub open spec fn first_sig_line_from(lines: Seq<Seq<u8>>, i: int) -> Option<int>
    decreases lines.len() - i,
{
    if i >= lines.len() || i < 0 {
        None
    } else if is_sig_line(lines[i]) {
        Some(i)
    } else {
        first_sig_line_from(lines, i + 1)
    }
}

/// The body of a signed note: its lines before the first signature line, each
/// newline-terminated — provided at least the three checkpoint lines precede
/// it.
pub open spec fn spec_note_body(note: Seq<u8>) -> Option<Seq<u8>> {
    let lines = spec_lines(note);
    match first_sig_line_from(lines, 0) {
        Some(k) => if k >= 3 {
            Some(terminated(lines.subrange(0, k)))
        } else {
            None
        },
        None => None,
    }
}

/// `SHA-256(name ‖ 0x0A ‖ 0x01 ‖ pubkey)[..4]`.
pub open spec fn spec_key_hash(name: Seq<u8>, pubkey: Seq<u8>) -> Seq<u8> {
    spec_sha256(name + seq![10u8, 1u8] + pubkey).subrange(0, 4)
}

/// The signature line `— <name> base64(blob)\n`.
pub open spec fn spec_signature_line(name: Seq<u8>, blob: Seq<u8>) -> Seq<u8> {
    spec_sig_marker() + name + seq![32u8] + spec_base64_encode(blob) + seq![10u8]
}

/// The checkpoint body: origin, decimal size, base64 root, each
/// newline-terminated.
pub open spec fn spec_checkpoint_body(origin: Seq<u8>, size: nat, root: Seq<u8>) -> Seq<u8> {
    origin + seq![10u8] + spec_decimal(size) + seq![10u8] + spec_base64_encode(root) + seq![10u8]
}

/// The signature line that `signer` writes under `name` over `body`: the key
/// hash of its public key, then its Ed25519 signature of the body.
pub open spec fn spec_signer_line(signer: Ed25519Signer, name: Seq<u8>, body: Seq<u8>) -> Seq<u8> {
    spec_signature_line(
        name,
        spec_key_hash(name, signer.spec_public_key_bytes()) + spec_sign_with_seed(signer.spec_seed(), body),
    )
}

proof fn lemma_marker_valid_utf8()
    ensures
        valid_utf8(spec_sig_marker()),
{
    let m = spec_sig_marker();
    assert(vstd::utf8::codepoint_width_3(0xe2u8, 0x80u8, 0x94u8) == 0x2014u32) by (bit_vector);
    assert(vstd::utf8::pop_first_scalar(m) =~= seq![0x20u8]);
    lemma_ascii_valid_utf8(seq![0x20u8]);
}

/// Bytes of the base64 alphabet are ASCII.
proof fn lemma_base64_ascii(s: Seq<u8>)
    requires
        forall|i: int| 0 <= i < s.len() ==> is_base64_symbol(#[trigger] s[i]),
    ensures
        is_ascii_bytes(s),
{
}

fn push_marker(out: &mut Vec<u8>)
    ensures
        final(out)@ == old(out)@ + spec_sig_marker(),
{
    out.push(0xe2);
    out.push(0x80);
    out.push(0x94);
    out.push(0x20);
}

/// A checkpoint: the committed (origin, size, root) triple that a note is
/// signed over.
#[derive(Debug, Clone, PartialEq, Eq)]
pub struct Checkpoint {
    /// Schema-less log identity, e.g. `indexone.dev/witness`.
    pub origin: String,
    /// Tree size (number of leaves).
    pub size: usize,
    /// RFC 6962 root hash.
    pub root: Digest,
}

impl Checkpoint {
    /// The exact signed text: origin, decimal size, base64 root, each
    /// newline-terminated.
    fn body(&self) -> (r: Vec<u8>)
        ensures
            r@ == spec_checkpoint_body(encode_utf8(self.origin@), self.size as nat, self.root@),
            valid_utf8(r@),
            base64_round_trips(self.root@),
    {
        let mut out: Vec<u8> = Vec::new();
        append_bytes(&mut out, self.origin.as_str().as_bytes());
        out.push(10);
        push_decimal(&mut out, self.size as u64);
        out.push(10);
        let root = base64_encode(self.root.as_slice());
        append_bytes(&mut out, root.as_slice());
        out.push(10);
        proof {
            let origin = encode_utf8(self.origin@);
            let digits = spec_decimal(self.size as nat);
            crate::text::lemma_decimal_digits(self.size as nat);
            lemma_base64_ascii(root@);
            let tail = seq![10u8] + digits + seq![10u8] + root@ + seq![10u8];
            lemma_ascii_valid_utf8(tail);
            assert(out@ =~= origin + tail);
        }
        out
    }
}

/// `SHA-256(name ‖ 0x0A ‖ 0x01 ‖ pubkey)[..4]`.
fn key_hash(name: &str, pubkey: &[u8]) -> (r: [u8; 4])
    ensures
        r@ == spec_key_hash(encode_utf8(name@), pubkey@),
{
    let mut buf: Vec<u8> = Vec::new();
    append_bytes(&mut buf, name.as_bytes());
    buf.push(10);
    buf.push(ED25519_NOTE_ALG);
    append_bytes(&mut buf, pubkey);
    assert(buf@ =~= encode_utf8(name@) + seq![10u8, 1u8] + pubkey@);
    let d = sha256(buf.as_slice());
    let r = [d[0], d[1], d[2], d[3]];
    r
}

/// One signature line `— <name> base64(keyhash ‖ sig)\n` over `body`; the
/// signature verifies over the body under the signer's key.
fn signature_line(body: &[u8], signer: &Ed25519Signer, key_name: &str) -> (r: Vec<u8>)
    ensures
        r@ == spec_signer_line(*signer, encode_utf8(key_name@), body@),
        crate::ed25519::spec_verify(
            body@,
            spec_sign_with_seed(signer.spec_seed(), body@),
            signer.spec_public_key_bytes(),
        ) == Ok::<bool, CryptoError>(true),
        valid_utf8(r@),
        base64_round_trips(
            spec_key_hash(encode_utf8(key_name@), signer.spec_public_key_bytes()) + spec_sign_with_seed(
                signer.spec_seed(),
                body@,
            ),
        ),
        spec_key_hash(encode_utf8(key_name@), signer.spec_public_key_bytes()).len() == 4,
        spec_sign_with_seed(signer.spec_seed(), body@).len() == 64,
{
    let pubkey = signer.public_key();
    let sig = match signer.sign(body) {
        Ok(s) => s,
        Err(_) => return Vec::new(),
    };
    let kh = key_hash(key_name, pubkey.bytes.as_slice());
    let mut blob: Vec<u8> = Vec::new();
    append_bytes(&mut blob, kh.as_slice());
    append_bytes(&mut blob, sig.bytes.as_slice());
    let encoded = base64_encode(blob.as_slice());
    let mut out: Vec<u8> = Vec::new();
    push_marker(&mut out);
    append_bytes(&mut out, key_name.as_bytes());
    out.push(32);
    append_bytes(&mut out, encoded.as_slice());
    out.push(10);
    proof {
        let name = encode_utf8(key_name@);
        lemma_marker_valid_utf8();
        lemma_base64_ascii(encoded@);
        let tail = seq![32u8] + encoded@ + seq![10u8];
        lemma_ascii_valid_utf8(tail);
        assert(out@ =~= spec_sig_marker() + name + tail);
        vstd::utf8::valid_utf8_concat(spec_sig_marker(), name);
        vstd::utf8::valid_utf8_concat(spec_sig_marker() + name, tail);
    }
    out
}

/// An origin that a checkpoint line carries back unchanged: no newline, no
/// final carriage return, and not opening like a signature line.
pub open spec fn origin_fits_note(origin: Seq<u8>) -> bool {
    &&& no_newline(origin)
    &&& !(origin.len() > 0 && origin.last() == 13)
    &&& !is_sig_line(origin)
}

/// A key name that a signature line carries back unchanged: no newline and no
/// space.
pub open spec fn name_fits_note(name: Seq<u8>) -> bool {
    forall|i: int| 0 <= i < name.len() ==> #[trigger] name[i] != 10 && name[i] != 32
}

proof fn lemma_first_space(s: Seq<u8>, i: int, j: int)
    requires
        0 <= i <= j < s.len(),
        s[j] == 32,
        forall|p: int| i <= p < j ==> #[trigger] s[p] != 32,
    ensures
        first_space_from(s, i) == Some(j),
    decreases j - i,
{
    if i < j {
        lemma_first_space(s, i + 1, j);
    }
}

/// A note made of a checkpoint body and a signature line whose Ed25519
/// signature verifies over that body verifies, under the signing key, to the
/// checkpoint it was made from.
#[verifier::spinoff_prover]
proof fn lemma_signed_note_verifies(
    origin: Seq<u8>,
    size: usize,
    root: Seq<u8>,
    name: Seq<u8>,
    key: Seq<u8>,
    sig: Seq<u8>,
)
    requires
        origin_fits_note(origin),
        name_fits_note(name),
        root.len() == 32,
        sig.len() == 64,
        spec_key_hash(name, key).len() == 4,
        base64_round_trips(root),
        base64_round_trips(spec_key_hash(name, key) + sig),
        crate::ed25519::spec_verify(spec_checkpoint_body(origin, size as nat, root), sig, key) == Ok::<bool, CryptoError>(true),
    ensures
        spec_verify_checkpoint(
            spec_checkpoint_body(origin, size as nat, root) + spec_signature_line(name, spec_key_hash(name, key) + sig),
            name,
            Algorithm::Ed25519,
            key,
        ) == Some((origin, size, root)),
{
    let digits = spec_decimal(size as nat);
    let b64 = spec_base64_encode(root);
    let kh = spec_key_hash(name, key);
    let blob = kh + sig;
    let eb = spec_base64_encode(blob);
    let line = spec_sig_marker() + name + seq![32u8] + eb;
    let nl = seq![10u8];
    let a = origin + nl;
    let b = digits + nl;
    let c = b64 + nl;
    let d = line + nl;
    let body = spec_checkpoint_body(origin, size as nat, root);
    let note = body + spec_signature_line(name, blob);
    assert(note =~= a + (b + (c + d)));
    crate::text::lemma_decimal_digits(size as nat);
    crate::text::lemma_parse_decimal(size);
    assert(no_newline(line)) by {
        assert forall|i: int| 0 <= i < line.len() implies #[trigger] line[i] != 10 by {}
    }
    lemma_single_line(origin);
    lemma_single_line(digits);
    lemma_single_line(b64);
    lemma_single_line(line);
    lemma_lines_concat(c, d);
    lemma_lines_concat(b, c + d);
    lemma_lines_concat(a, b + (c + d));
    let lines = spec_lines(note);
    // the first signature line is the fourth
    assert(!is_sig_line(digits)) by {}
    assert(!is_sig_line(b64)) by {}
    assert(line.subrange(0, 4) =~= spec_sig_marker());
    assert(first_sig_line_from(lines, 3) == Some(3int));
    assert(first_sig_line_from(lines, 2) == Some(3int));
    assert(first_sig_line_from(lines, 1) == Some(3int));
    assert(terminated(lines.subrange(0, 3)) =~= body) by {
        let l3 = lines.subrange(0, 3);
        let l2 = seq![origin, digits];
        let l1 = seq![origin];
        assert(l3.drop_last() =~= l2);
        assert(l2.drop_last() =~= l1);
        assert(terminated(l1.drop_last()) =~= Seq::<u8>::empty());
        assert(terminated(l1) =~= a);
        assert(terminated(l2) =~= a + b);
    }
    // the signature line matches
    let j: int = 4 + name.len() as int;
    assert forall|p: int| 4 <= p < j implies #[trigger] line[p] != 32 by {}
    lemma_first_space(line, 4, j);
    assert(line.subrange(4, j) =~= name);
    assert(line.subrange(j + 1, line.len() as int) =~= eb);
    assert(blob.subrange(0, 4) =~= kh);
    assert(blob.subrange(4, 68) =~= sig);
    // the body parses back
    lemma_verify_from_parts(note, name, Algorithm::Ed25519, key, 3, 3);
}

/// A note verifies to its parsed body as soon as one signature line after the
/// body matches the key.
proof fn lemma_verify_from_parts(note: Seq<u8>, name: Seq<u8>, key_alg: Algorithm, key: Seq<u8>, k: int, m: int)
    requires
        first_sig_line_from(spec_lines(note), 0) == Some(k),
        k >= 3,
        k <= m < spec_lines(note).len(),
        spec_sig_line_matches(
            spec_lines(note)[m],
            name,
            spec_key_hash(name, key),
            terminated(spec_lines(note).subrange(0, k)),
            key_alg,
            key,
        ),
    ensures
        spec_verify_checkpoint(note, name, key_alg, key) == spec_parse_checkpoint(spec_lines(note)),
{
}

proof fn lemma_first_sig_line_bounds(lines: Seq<Seq<u8>>, i: int)
    requires
        0 <= i,
    ensures
        first_sig_line_from(lines, i) matches Some(k) ==> i <= k < lines.len() && is_sig_line(lines[k]),
    decreases lines.len() - i,
{
    if i < lines.len() && !is_sig_line(lines[i]) {
        lemma_first_sig_line_bounds(lines, i + 1);
    }
}

proof fn lemma_first_sig_line_extend(lines: Seq<Seq<u8>>, extra: Seq<u8>, i: int)
    requires
        0 <= i,
        first_sig_line_from(lines, i) is Some,
    ensures
        first_sig_line_from(lines.push(extra), i) == first_sig_line_from(lines, i),
    decreases lines.len() - i,
{
    if i < lines.len() {
        if !is_sig_line(lines[i]) {
            lemma_first_sig_line_extend(lines, extra, i + 1);
        }
    }
}

proof fn lemma_lines_after_append(note: Seq<u8>, line: Seq<u8>)
    requires
        note.len() > 0 && note.last() == 10,
        no_newline(line),
    ensures
        spec_lines(note + (line + seq![10u8])) == spec_lines(note).push(line),
{
    lemma_lines_concat(note, line + seq![10u8]);
    lemma_single_line(line);
}

/// Unknown signatures are ignored: appending a signature line to a
/// newline-terminated note leaves every verification the note already had
/// unchanged — which is what lets witnesses cosign the same body.
pub proof fn lemma_appended_signature_keeps_verification(
    note: Seq<u8>,
    line: Seq<u8>,
    name: Seq<u8>,
    key_alg: Algorithm,
    key: Seq<u8>,
)
    requires
        note.len() > 0 && note.last() == 10,
        no_newline(line),
        spec_verify_checkpoint(note, name, key_alg, key) is Some,
    ensures
        spec_verify_checkpoint(note + (line + seq![10u8]), name, key_alg, key) == spec_verify_checkpoint(
            note,
            name,
            key_alg,
            key,
        ),
{
    let lines = spec_lines(note);
    let more = spec_lines(note + (line + seq![10u8]));
    lemma_lines_after_append(note, line);
    lemma_first_sig_line_extend(lines, line, 0);
    let k = first_sig_line_from(lines, 0)->0;
    assert(more.subrange(0, k) =~= lines.subrange(0, k));
    let body = terminated(lines.subrange(0, k));
    let kh = spec_key_hash(name, key);
    let m = choose|m: int| k <= m < lines.len() && #[trigger] spec_sig_line_matches(lines[m], name, kh, body, key_alg, key);
    assert(more[m] == lines[m]);
}

/// A cosigner's signature line, appended to a newline-terminated note whose
/// body holds a checkpoint, makes the note verify to that checkpoint under the
/// cosigner's key.
proof fn lemma_cosigned_note_verifies(note: Seq<u8>, name: Seq<u8>, key: Seq<u8>, sig: Seq<u8>)
    requires
        note.len() > 0 && note.last() == 10,
        name_fits_note(name),
        spec_note_body(note) is Some,
        spec_parse_checkpoint(spec_lines(note)) is Some,
        sig.len() == 64,
        spec_key_hash(name, key).len() == 4,
        base64_round_trips(spec_key_hash(name, key) + sig),
        crate::ed25519::spec_verify(spec_note_body(note)->0, sig, key) == Ok::<bool, CryptoError>(true),
    ensures
        spec_verify_checkpoint(note + spec_signature_line(name, spec_key_hash(name, key) + sig), name, Algorithm::Ed25519, key)
            == spec_parse_checkpoint(spec_lines(note)),
{
    let kh = spec_key_hash(name, key);
    let blob = kh + sig;
    let eb = spec_base64_encode(blob);
    let line = spec_sig_marker() + name + seq![32u8] + eb;
    let full = note + spec_signature_line(name, blob);
    assert(no_newline(line)) by {
        assert forall|i: int| 0 <= i < line.len() implies #[trigger] line[i] != 10 by {}
    }
    let lines = spec_lines(note);
    let more = spec_lines(full);
    lemma_lines_after_append(note, line);
    lemma_first_sig_line_extend(lines, line, 0);
    lemma_first_sig_line_bounds(lines, 0);
    let k = first_sig_line_from(lines, 0)->0;
    assert(more.subrange(0, k) =~= lines.subrange(0, k));
    let body = terminated(lines.subrange(0, k));
    let j: int = 4 + name.len() as int;
    assert forall|p: int| 4 <= p < j implies #[trigger] line[p] != 32 by {}
    lemma_first_space(line, 4, j);
    assert(line.subrange(0, 4) =~= spec_sig_marker());
    assert(line.subrange(4, j) =~= name);
    assert(line.subrange(j + 1, line.len() as int) =~= eb);
    assert(blob.subrange(0, 4) =~= kh);
    assert(blob.subrange(4, 68) =~= sig);
    assert(spec_sig_line_matches(line, name, kh, body, Algorithm::Ed25519, key));
    assert(more[lines.len() as int] == line);
}

/// Sign a checkpoint as a signed note with one signature: the body followed by
/// the signer's signature line. The note verifies back to the checkpoint under
/// the signer's key and name, whenever the origin and the name survive being
/// written as note lines.
pub fn sign_checkpoint(signer: &Ed25519Signer, key_name: &str, checkpoint: &Checkpoint) -> (r: String)
    ensures
        encode_utf8(r@) == spec_checkpoint_body(encode_utf8(checkpoint.origin@), checkpoint.size as nat, checkpoint.root@)
            + spec_signer_line(
            *signer,
            encode_utf8(key_name@),
            spec_checkpoint_body(encode_utf8(checkpoint.origin@), checkpoint.size as nat, checkpoint.root@),
        ),
        origin_fits_note(encode_utf8(checkpoint.origin@)) && name_fits_note(encode_utf8(key_name@))
            ==> spec_verify_checkpoint(
            encode_utf8(r@),
            encode_utf8(key_name@),
            Algorithm::Ed25519,
            signer.spec_public_key_bytes(),
        ) == Some(checkpoint_view(*checkpoint)),
{
    let body = checkpoint.body();
    let line = signature_line(body.as_slice(), signer, key_name);
    let mut note = body;
    append_bytes(&mut note, line.as_slice());
    proof {
        let origin = encode_utf8(checkpoint.origin@);
        let name = encode_utf8(key_name@);
        if origin_fits_note(origin) && name_fits_note(name) {
            lemma_signed_note_verifies(
                origin,
                checkpoint.size,
                checkpoint.root@,
                name,
                signer.spec_public_key_bytes(),
                spec_sign_with_seed(signer.spec_seed(), body@),
            );
        }
    }
    match string_from_utf8(note) {
        Some(s) => s,
        None => String::new(),
    }
}

// ---------------------------------------------------------------------------
// Reading notes
// ---------------------------------------------------------------------------

/// Whether `line` opens with the signature marker.
fn line_is_sig(line: &[u8]) -> (r: bool)
    ensures
        r == is_sig_line(line@),
{
    if line.len() < 4 {
        return false;
    }
    let r = line[0] == 0xe2 && line[1] == 0x80 && line[2] == 0x94 && line[3] == 0x20;
    proof {
        if r {
            assert(line@.subrange(0, 4) =~= spec_sig_marker());
        } else {
        }
    }
    r
}

/// The index of the first signature line.
fn first_sig_line(text: &[u8], ranges: &Vec<(usize, usize)>) -> (r: Option<usize>)
    requires
        line_ranges_of(text@, ranges@),
    ensures
        match first_sig_line_from(spec_lines(text@), 0) {
            Some(k) => 0 <= k < ranges@.len() && (r matches Some(i) && i == k),
            None => r is None,
        },
{
    let ghost lines = spec_lines(text@);
    let mut i: usize = 0;
    while i < ranges.len()
        invariant
            line_ranges_of(text@, ranges@),
            lines == spec_lines(text@),
            lines.len() == ranges@.len(),
            i <= ranges@.len(),
            first_sig_line_from(lines, 0) == first_sig_line_from(lines, i as int),
        decreases ranges@.len() - i,
    {
        let (start, end) = ranges[i];
        let line = vstd::slice::slice_subrange(text, start, end);
        assert(line@ == lines[i as int]);
        if line_is_sig(line) {
            return Some(i);
        }
        i = i + 1;
    }
    None
}

/// Where the body of a note ends: the index `k` of its first signature line
/// and that line's offset, when at least three lines precede it.
fn body_end(text: &[u8], ranges: &Vec<(usize, usize)>) -> (r: Option<(usize, usize)>)
    requires
        line_ranges_of(text@, ranges@),
    ensures
        match spec_note_body(text@) {
            Some(b) => r matches Some(p) && 0 < p.1 <= text@.len() && b == text@.subrange(0, p.1 as int)
                && text@[p.1 - 1] == 10,
            None => r is None,
        },
        r matches Some(p) ==> first_sig_line_from(spec_lines(text@), 0) == Some(p.0 as int) && 3 <= p.0
            < ranges@.len() && p.1 == ranges@[p.0 as int].0,
{
    let k = match first_sig_line(text, ranges) {
        Some(k) => k,
        None => return None,
    };
    if k < 3 {
        return None;
    }
    proof {
        lemma_terminated_prefix(text@, ranges@, k as int);
    }
    Some((k, ranges[k].0))
}

/// The body of a signed note: everything up to the first signature line,
/// newline-terminated. `None` if the note has no signature line, or fewer
/// than three lines before it.
pub fn note_body(note: &str) -> (r: Option<String>)
    ensures
        match spec_note_body(encode_utf8(note@)) {
            Some(b) => r matches Some(s) && encode_utf8(s@) == b,
            None => r is None,
        },
{
    let text = note.as_bytes();
    let ranges = line_ranges(text);
    let e = match body_end(text, &ranges) {
        Some((_, e)) => e,
        None => return None,
    };
    let body = vstd::slice::slice_to_vec(vstd::slice::slice_subrange(text, 0, e));
    proof {
        lemma_utf8_prefix_through_ascii(text@, e - 1);
    }
    string_from_utf8(body)
}

/// Append a cosignature over the same body — the witness-cosigning
/// operation. Returns the extended note, or `None` if `note` has no body.
pub fn cosign(note: &str, signer: &Ed25519Signer, key_name: &str) -> (r: Option<String>)
    ensures
        match spec_note_body(encode_utf8(note@)) {
            Some(b) => r matches Some(s) && encode_utf8(s@) == encode_utf8(note@) + spec_signer_line(
                *signer,
                encode_utf8(key_name@),
                b,
            ),
            None => r is None,
        },
        r matches Some(s) ==> (encode_utf8(note@).len() > 0 && encode_utf8(note@).last() == 10 && name_fits_note(
            encode_utf8(key_name@),
        ) && spec_parse_checkpoint(spec_lines(encode_utf8(note@))) is Some ==> spec_verify_checkpoint(
            encode_utf8(s@),
            encode_utf8(key_name@),
            Algorithm::Ed25519,
            signer.spec_public_key_bytes(),
        ) == spec_parse_checkpoint(spec_lines(encode_utf8(note@)))),
{
    let text = note.as_bytes();
    let ranges = line_ranges(text);
    let e = match body_end(text, &ranges) {
        Some((_, e)) => e,
        None => return None,
    };
    let body = vstd::slice::slice_subrange(text, 0, e);
    let line = signature_line(body, signer, key_name);
    proof {
        let n = text@;
        let name = encode_utf8(key_name@);
        if n.len() > 0 && n.last() == 10 && name_fits_note(name) && spec_parse_checkpoint(spec_lines(n)) is Some {
            lemma_cosigned_note_verifies(
                n,
                name,
                signer.spec_public_key_bytes(),
                spec_sign_with_seed(signer.spec_seed(), body@),
            );
        }
    }
    let mut out = vstd::slice::slice_to_vec(text);
    append_bytes(&mut out, line.as_slice());
    string_from_utf8(out)
}

/// The index of the first space at or after `i`.
pub open spec fn first_space_from(s: Seq<u8>, i: int) -> Option<int>
    decreases s.len() - i,
{
    if i >= s.len() || i < 0 {
        None
    } else if s[i] == 32 {
        Some(i)
    } else {
        first_space_from(s, i + 1)
    }
}

/// Whether `line` is a signature line for key `name` with key hash
/// `expected`, whose Ed25519 signature verifies over `body` under `key`.
pub open spec fn spec_sig_line_matches(
    line: Seq<u8>,
    name: Seq<u8>,
    expected: Seq<u8>,
    body: Seq<u8>,
    key_alg: Algorithm,
    key: Seq<u8>,
) -> bool {
    &&& is_sig_line(line)
    &&& match first_space_from(line, 4) {
        None => false,
        Some(j) => line.subrange(4, j) == name && match spec_base64_decode(line.subrange(j + 1, line.len() as int)) {
            None => false,
            Some(blob) => blob.len() == 68 && blob.subrange(0, 4) == expected && spec_verify_signature(
                body,
                Algorithm::Ed25519,
                blob.subrange(4, 68),
                key_alg,
                key,
            ) == Ok::<bool, CryptoError>(true),
        },
    }
}

/// The checkpoint that the first three lines of a body hold: the origin line,
/// the size line parsed as `usize::from_str` does, and the root line decoded
/// from base64 into 32 bytes — each line without a final `\r`.
pub open spec fn spec_parse_checkpoint(lines: Seq<Seq<u8>>) -> Option<(Seq<u8>, usize, Seq<u8>)> {
    match spec_parse_usize(strip_cr(lines[1])) {
        None => None,
        Some(size) => match spec_base64_decode(strip_cr(lines[2])) {
            Some(root) => if root.len() == 32 {
                Some((strip_cr(lines[0]), size, root))
            } else {
                None
            },
            None => None,
        },
    }
}

/// What a note verifies to under the key named `name` (algorithm `key_alg`,
/// bytes `key`): the checkpoint its body holds, if it has a body and some
/// signature line after it is a valid signature for that key; otherwise
/// nothing.
pub open spec fn spec_verify_checkpoint(note: Seq<u8>, name: Seq<u8>, key_alg: Algorithm, key: Seq<u8>) -> Option<
    (Seq<u8>, usize, Seq<u8>),
> {
    let lines = spec_lines(note);
    match first_sig_line_from(lines, 0) {
        None => None,
        Some(k) => if k < 3 {
            None
        } else if exists|m: int|
            k <= m < lines.len() && #[trigger] spec_sig_line_matches(
                lines[m],
                name,
                spec_key_hash(name, key),
                terminated(lines.subrange(0, k)),
                key_alg,
                key,
            ) {
            spec_parse_checkpoint(lines)
        } else {
            None
        },
    }
}

proof fn lemma_first_space_found(s: Seq<u8>, i: int)
    requires
        first_space_from(s, i) is Some,
    ensures
        i <= first_space_from(s, i)->0 < s.len(),
        s[first_space_from(s, i)->0] == 32,
        forall|p: int| i <= p < first_space_from(s, i)->0 ==> s[p] != 32,
    decreases s.len() - i,
{
    if i < s.len() && i >= 0 && s[i] != 32 {
        lemma_first_space_found(s, i + 1);
    }
}

/// A note verifies under a key only through a signature by that key under that
/// exact name: some line after the body (and after the three checkpoint lines)
/// is `— `, then `name`, then a space, then base64 of a 68-byte blob whose
/// first four bytes are `SHA-256(name ‖ 0x0A ‖ 0x01 ‖ key)[..4]` and whose
/// remaining 64 bytes are a signature over the note's body that verifies under
/// the key.
pub proof fn lemma_verified_note_is_signed_by_the_named_key(note: Seq<u8>, name: Seq<u8>, key_alg: Algorithm, key: Seq<u8>)
    requires
        spec_verify_checkpoint(note, name, key_alg, key) is Some,
    ensures
        spec_note_body(note) is Some,
        exists|m: int|
            3 <= m < spec_lines(note).len() && {
                let line = #[trigger] spec_lines(note)[m];
                &&& line.len() > 4 + name.len()
                &&& line.subrange(0, 4) == seq![0xe2u8, 0x80u8, 0x94u8, 0x20u8]
                &&& line.subrange(4, 4 + name.len() as int) == name
                &&& line[4 + name.len() as int] == 32u8
                &&& (spec_base64_decode(line.subrange(5 + name.len() as int, line.len() as int)) matches Some(blob)
                    && blob.len() == 68 && blob.subrange(0, 4) == spec_sha256(name + seq![10u8, 1u8] + key).subrange(
                    0,
                    4,
                ) && spec_verify_signature(
                    spec_note_body(note)->0,
                    Algorithm::Ed25519,
                    blob.subrange(4, 68),
                    key_alg,
                    key,
                ) == Ok::<bool, CryptoError>(true))
            },
{
    let lines = spec_lines(note);
    let k = first_sig_line_from(lines, 0)->0;
    let body = terminated(lines.subrange(0, k));
    let m = choose|m: int|
        k <= m < lines.len() && #[trigger] spec_sig_line_matches(
            lines[m],
            name,
            spec_key_hash(name, key),
            body,
            key_alg,
            key,
        );
    let line = lines[m];
    lemma_first_space_found(line, 4);
    let j = first_space_from(line, 4)->0;
    assert(line.subrange(4, j).len() == name.len());
    assert(j == 4 + name.len());
    assert(spec_note_body(note) == Some(body));
    assert(line.subrange(0, 4) == seq![0xe2u8, 0x80u8, 0x94u8, 0x20u8]);
}

fn sig_line_matches(line: &[u8], name: &[u8], expected: &[u8; 4], body: &[u8], pubkey: &PublicKey) -> (r: bool)
    ensures
        r == spec_sig_line_matches(line@, name@, expected@, body@, pubkey.algorithm, pubkey.bytes@),
{
    if !line_is_sig(line) {
        return false;
    }
    let mut j: usize = 4;
    while j < line.len() && line[j] != 32
        invariant
            4 <= j <= line@.len(),
            first_space_from(line@, 4) == first_space_from(line@, j as int),
        decreases line@.len() - j,
    {
        j = j + 1;
    }
    if j == line.len() {
        return false;
    }
    if !crate::hashing::bytes_eq(vstd::slice::slice_subrange(line, 4, j), name) {
        return false;
    }
    let blob = match base64_decode(vstd::slice::slice_subrange(line, j + 1, line.len())) {
        Some(b) => b,
        None => return false,
    };
    if blob.len() != 68 {
        return false;
    }
    if !crate::hashing::bytes_eq(vstd::slice::slice_subrange(blob.as_slice(), 0, 4), expected.as_slice()) {
        return false;
    }
    let sig = Signature {
        algorithm: Algorithm::Ed25519,
        bytes: vstd::slice::slice_to_vec(vstd::slice::slice_subrange(blob.as_slice(), 4, 68)),
    };
    match verify_signature(body, &sig, pubkey) {
        Ok(b) => b,
        Err(_) => false,
    }
}

/// The end of a line without its final `\r`.
fn end_without_cr(text: &[u8], start: usize, end: usize) -> (r: usize)
    requires
        start <= end <= text@.len(),
    ensures
        start <= r <= end,
        text@.subrange(start as int, r as int) == strip_cr(text@.subrange(start as int, end as int)),
        r == end || (r == end - 1 && text@[r as int] == 13),
{
    if end > start && text[end - 1] == 13 {
        end - 1
    } else {
        end
    }
}

pub(crate) fn to_digest(v: &[u8]) -> (r: Digest)
    requires
        v@.len() == 32,
    ensures
        r@ == v@,
{
    let mut r: Digest = [0u8; 32];
    let mut i: usize = 0;
    while i < 32
        invariant
            v@.len() == 32,
            i <= 32,
            forall|j: int| 0 <= j < i ==> r@[j] == v@[j],
        decreases 32 - i,
    {
        r[i] = v[i];
        i = i + 1;
    }
    r
}

/// Whether some line from index `k` on is a valid signature line for the key.
fn any_sig_line_matches(
    text: &[u8],
    ranges: &Vec<(usize, usize)>,
    k: usize,
    name: &[u8],
    expected: &[u8; 4],
    body: &[u8],
    pubkey: &PublicKey,
) -> (r: bool)
    requires
        line_ranges_of(text@, ranges@),
        k <= ranges@.len(),
    ensures
        r == exists|m: int|
            k <= m < spec_lines(text@).len() && #[trigger] spec_sig_line_matches(
                spec_lines(text@)[m],
                name@,
                expected@,
                body@,
                pubkey.algorithm,
                pubkey.bytes@,
            ),
{
    let ghost lines = spec_lines(text@);
    let mut q: usize = k;
    while q < ranges.len()
        invariant
            line_ranges_of(text@, ranges@),
            lines == spec_lines(text@),
            lines.len() == ranges@.len(),
            k <= q <= ranges@.len(),
            forall|p: int|
                k <= p < q ==> !#[trigger] spec_sig_line_matches(
                    lines[p],
                    name@,
                    expected@,
                    body@,
                    pubkey.algorithm,
                    pubkey.bytes@,
                ),
        decreases ranges@.len() - q,
    {
        let (start, end) = ranges[q];
        let line = vstd::slice::slice_subrange(text, start, end);
        assert(line@ == lines[q as int]);
        if sig_line_matches(line, name, expected, body, pubkey) {
            return true;
        }
        q = q + 1;
    }
    false
}

/// The bytes of line `m` without a final `\r`, as an offset range.
fn line_without_cr(text: &[u8], ranges: &Vec<(usize, usize)>, m: usize) -> (r: (usize, usize))
    requires
        line_ranges_of(text@, ranges@),
        m < ranges@.len(),
    ensures
        r.0 <= r.1 <= text@.len(),
        text@.subrange(r.0 as int, r.1 as int) == strip_cr(spec_lines(text@)[m as int]),
        r.0 == ranges@[m as int].0,
        r.1 == ranges@[m as int].1 || (r.1 == ranges@[m as int].1 - 1 && text@[r.1 as int] == 13),
{
    let (start, end) = ranges[m];
    (start, end_without_cr(text, start, end))
}

/// Verify a checkpoint note against `pubkey` under `key_name`, returning the
/// parsed [`Checkpoint`] iff a valid signature line for that key is present.
/// Unknown and extra signatures are ignored, which is what makes cosigning
/// and key rotation work.
pub fn verify_checkpoint(note: &str, key_name: &str, pubkey: &PublicKey) -> (r: Option<Checkpoint>)
    ensures
        match spec_verify_checkpoint(encode_utf8(note@), encode_utf8(key_name@), pubkey.algorithm, pubkey.bytes@) {
            Some((origin, size, root)) => r matches Some(cp) && encode_utf8(cp.origin@) == origin && cp.size == size
                && cp.root@ == root,
            None => r is None,
        },
{
    let expected = key_hash(key_name, pubkey.bytes.as_slice());
    let text = note.as_bytes();
    let ghost lines = spec_lines(text@);
    let ranges = line_ranges(text);
    let (k, e) = match body_end(text, &ranges) {
        Some(p) => p,
        None => return None,
    };
    let body = vstd::slice::slice_subrange(text, 0, e);
    let name = key_name.as_bytes();
    proof {
        lemma_terminated_prefix(text@, ranges@, k as int);
    }
    if !any_sig_line_matches(text, &ranges, k, name, &expected, body, pubkey) {
        return None;
    }
    // Parse the committed fields from the (now signature-verified) body.
    let (o0, o1) = line_without_cr(text, &ranges, 0);
    let (s0, s1) = line_without_cr(text, &ranges, 1);
    let (t0, t1) = line_without_cr(text, &ranges, 2);
    let size = match parse_usize(vstd::slice::slice_subrange(text, s0, s1)) {
        Some(n) => n,
        None => return None,
    };
    let root_bytes = match base64_decode(vstd::slice::slice_subrange(text, t0, t1)) {
        Some(v) => v,
        None => return None,
    };
    if root_bytes.len() != 32 {
        return None;
    }
    let root = to_digest(root_bytes.as_slice());
    proof {
        lemma_utf8_split_at_ascii(text@, o1 as int);
    }
    let origin = match string_from_utf8(vstd::slice::slice_to_vec(vstd::slice::slice_subrange(text, o0, o1))) {
        Some(s) => s,
        None => return None,
    };
    Some(Checkpoint { origin, size, root })
}

// ---------------------------------------------------------------------------
// Witness cosigning and the N-of-M quorum
// ---------------------------------------------------------------------------

/// Why a witness refuses to cosign a checkpoint.
#[derive(Debug, Clone, Copy, PartialEq, Eq)]
pub enum CosignError {
    /// The checkpoint is not validly signed by the log key the witness watches.
    BadLogSignature,
    /// The presented old size is not the size the witness last cosigned; the
    /// client must re-fetch and retry.
    SizeMismatch { our_size: usize },
    /// The new checkpoint is smaller than one the witness already cosigned.
    Rollback { our_size: usize, new_size: usize },
    /// The consistency proof does not show the new tree extends the last one
    /// the witness cosigned.
    InconsistentProof,
}

/// A checkpoint as the values a note commits: origin bytes, size, root bytes.
pub open spec fn checkpoint_view(cp: Checkpoint) -> (Seq<u8>, usize, Seq<u8>) {
    (encode_utf8(cp.origin@), cp.size, cp.root@)
}

/// What a note verifies to under each named witness key, in order.
pub open spec fn spec_witness_results(note: Seq<u8>, witnesses: Seq<(Seq<u8>, Algorithm, Seq<u8>)>) -> Seq<
    Option<(Seq<u8>, usize, Seq<u8>)>,
> {
    Seq::new(
        witnesses.len(),
        |i: int| spec_verify_checkpoint(note, witnesses[i].0, witnesses[i].1, witnesses[i].2),
    )
}

/// How many of the results are checkpoints.
pub open spec fn count_verified(rs: Seq<Option<(Seq<u8>, usize, Seq<u8>)>>) -> nat
    decreases rs.len(),
{
    if rs.len() == 0 {
        0
    } else {
        count_verified(rs.drop_last()) + if rs.last() is Some {
            1nat
        } else {
            0nat
        }
    }
}

/// The first result that is a checkpoint.
pub open spec fn first_verified(rs: Seq<Option<(Seq<u8>, usize, Seq<u8>)>>) -> Option<(Seq<u8>, usize, Seq<u8>)>
    decreases rs.len(),
{
    if rs.len() == 0 {
        None
    } else if first_verified(rs.drop_last()) is Some {
        first_verified(rs.drop_last())
    } else {
        rs.last()
    }
}

/// All results that are checkpoints are the same checkpoint.
pub open spec fn all_agree(rs: Seq<Option<(Seq<u8>, usize, Seq<u8>)>>) -> bool {
    forall|i: int, j: int|
        0 <= i < rs.len() && 0 <= j < rs.len() && #[trigger] rs[i] is Some && #[trigger] rs[j] is Some ==> rs[i]
            == rs[j]
}

/// The quorum result: the agreed checkpoint if at least `threshold` of the
/// witness keys verify the note and no two of them disagree on the
/// checkpoint; otherwise nothing.
pub open spec fn spec_verify_quorum(
    note: Seq<u8>,
    witnesses: Seq<(Seq<u8>, Algorithm, Seq<u8>)>,
    threshold: usize,
) -> Option<
    (Seq<u8>, usize, Seq<u8>),
> {
    let rs = spec_witness_results(note, witnesses);
    if !all_agree(rs) {
        None
    } else if count_verified(rs) >= threshold {
        first_verified(rs)
    } else {
        None
    }
}

/// A witness that cosigns one log's checkpoints (the C2SP tlog-witness
/// `add-checkpoint` role). It remembers the last (size, root) it cosigned so it
/// can enforce append-only extension and refuse rollbacks — the property that,
/// across an N-of-M quorum, makes a forked log detectable.
pub struct CosigningWitness {
    signer: Ed25519Signer,
    key_name: String,
    log_origin: String,
    log_key: PublicKey,
    /// The last checkpoint this witness cosigned for the watched log.
    seen: Option<(usize, Digest)>,
}

/// What a witness that last cosigned `seen` has cosigned: its size and root,
/// or size 0 and the all-zero root before the first.
pub open spec fn spec_last_seen(seen: Option<(usize, Digest)>) -> (usize, Seq<u8>) {
    match seen {
        Some((s, r)) => (s, r@),
        None => (0, Seq::new(32, |i: int| 0u8)),
    }
}

/// Whether `proof` shows a checkpoint of `new_size` leaves with root `new_root`
/// extends the last one cosigned, `(our_size, our_root)`: from size 0 any tree
/// extends with an empty proof, otherwise the consistency proof must verify.
pub open spec fn spec_extends(our_size: usize, our_root: Seq<u8>, new_size: usize, new_root: Seq<u8>, proof: Seq<Seq<u8>>) -> bool {
    if our_size == 0 {
        proof.len() == 0
    } else {
        spec_verify_consistency(our_root, new_root, proof, our_size as nat, new_size as nat)
    }
}

/// The extension check never lets a witness accept a different tree of a size
/// it has already cosigned: from a non-empty last-cosigned tree, a tree of the
/// same size passes only with the same root (and an empty proof), and any
/// passing tree is at least as large and comes with a consistency proof that
/// verifies between the two roots.
pub proof fn lemma_extension_is_consistent(
    our_size: usize,
    our_root: Seq<u8>,
    new_size: usize,
    new_root: Seq<u8>,
    proof: Seq<Seq<u8>>,
)
    requires
        our_size > 0,
        spec_extends(our_size, our_root, new_size, new_root, proof),
    ensures
        our_size <= new_size,
        new_size == our_size ==> new_root == our_root && proof.len() == 0,
        spec_verify_consistency(our_root, new_root, proof, our_size as nat, new_size as nat),
{
}

/// An honest log always passes a witness's extension check: if the witness
/// last cosigned the log's first `m` leaves (with their root, or nothing when
/// `m` is 0) and the log has since grown to `leaves`, the log's own consistency
/// proof from `m` — what [`crate::witness::Witness::consistency_proof`] returns —
/// shows the extension [`CosigningWitness::add_checkpoint`] asks for.
pub proof fn lemma_honest_growth_extends(leaves: Seq<Seq<u8>>, m: nat, our_root: Seq<u8>)
    requires
        m <= leaves.len() <= usize::MAX,
        m == 0 || our_root == spec_root(leaves.take(m as int)),
    ensures
        spec_extends(m as usize, our_root, leaves.len() as usize, spec_root(leaves), spec_consistency_proof(leaves, m)),
{
    lemma_consistency_proof_verifies(leaves, m);
}

impl CosigningWitness {
    /// The key this witness cosigns with.
    pub closed spec fn spec_signer(&self) -> Ed25519Signer {
        self.signer
    }

    /// The name this witness cosigns under.
    pub closed spec fn spec_key_name(&self) -> Seq<char> {
        self.key_name@
    }

    /// The origin (and signing-key name) of the watched log.
    pub closed spec fn spec_log_origin(&self) -> Seq<char> {
        self.log_origin@
    }

    /// The watched log's key.
    pub closed spec fn spec_log_key(&self) -> (Algorithm, Seq<u8>) {
        (self.log_key.algorithm, self.log_key.bytes@)
    }

    /// The last checkpoint this witness cosigned, if any.
    pub closed spec fn spec_seen(&self) -> Option<(usize, Digest)> {
        self.seen
    }

    /// A fresh witness watching the log identified by `log_origin` and
    /// `log_key`, cosigning under its own `key_name`.
    pub fn new(signer: Ed25519Signer, key_name: &str, log_origin: &str, log_key: PublicKey) -> (w: CosigningWitness)
        ensures
            w.spec_signer() == signer,
            w.spec_key_name() == key_name@,
            w.spec_log_origin() == log_origin@,
            w.spec_log_key() == (log_key.algorithm, log_key.bytes@),
            w.spec_seen() is None,
    {
        CosigningWitness { signer, key_name: key_name.to_owned(), log_origin: log_origin.to_owned(), log_key, seen: None }
    }

    /// The size this witness last cosigned (0 if none yet).
    pub fn last_size(&self) -> (r: usize)
        ensures
            r == spec_last_seen(self.spec_seen()).0,
    {
        match self.seen {
            Some((s, _)) => s,
            None => 0,
        }
    }

    /// `add-checkpoint`: verify the log-signed `note` is a consistent
    /// append-only extension of what this witness last cosigned (`old_size`
    /// must be that size), then return this witness's cosignature line over the
    /// same body and remember the new checkpoint. Every refusal leaves the
    /// witness unchanged.
    pub fn add_checkpoint(&mut self, note: &str, old_size: usize, consistency: &ConsistencyProof) -> (r: Result<
        String,
        CosignError,
    >)
        ensures
            final(self).spec_signer() == old(self).spec_signer(),
            final(self).spec_key_name() == old(self).spec_key_name(),
            final(self).spec_log_origin() == old(self).spec_log_origin(),
            final(self).spec_log_key() == old(self).spec_log_key(),
            r is Err ==> final(self).spec_seen() == old(self).spec_seen(),
            spec_last_seen(old(self).spec_seen()).0 <= spec_last_seen(final(self).spec_seen()).0,
            r is Ok ==> spec_extends(
                spec_last_seen(old(self).spec_seen()).0,
                spec_last_seen(old(self).spec_seen()).1,
                spec_last_seen(final(self).spec_seen()).0,
                spec_last_seen(final(self).spec_seen()).1,
                digests_view(consistency.nodes@),
            ),
            r is Ok && spec_last_seen(old(self).spec_seen()).0 > 0 ==> spec_verify_consistency(
                spec_last_seen(old(self).spec_seen()).1,
                spec_last_seen(final(self).spec_seen()).1,
                digests_view(consistency.nodes@),
                spec_last_seen(old(self).spec_seen()).0 as nat,
                spec_last_seen(final(self).spec_seen()).0 as nat,
            ),
            r is Ok && old(self).spec_seen() is Some && old(self).spec_seen()->Some_0.0 > 0
                && final(self).spec_seen()->Some_0.0 == old(self).spec_seen()->Some_0.0
                ==> final(self).spec_seen()->Some_0.1@ == old(self).spec_seen()->Some_0.1@,
            r is Ok ==> final(self).spec_seen() is Some,
            ({
                let our = spec_last_seen(old(self).spec_seen());
                match spec_verify_checkpoint(
                    encode_utf8(note@),
                    encode_utf8(old(self).spec_log_origin()),
                    old(self).spec_log_key().0,
                    old(self).spec_log_key().1,
                ) {
                    None => r == Err::<String, CosignError>(CosignError::BadLogSignature),
                    Some((_, size, root)) => if old_size != our.0 {
                        r == Err::<String, CosignError>(CosignError::SizeMismatch { our_size: our.0 })
                    } else if size < our.0 {
                        r == Err::<String, CosignError>(CosignError::Rollback { our_size: our.0, new_size: size })
                    } else if !spec_extends(our.0, our.1, size, root, digests_view(consistency.nodes@)) {
                        r == Err::<String, CosignError>(CosignError::InconsistentProof)
                    } else {
                        (r matches Ok(line) && encode_utf8(line@) == spec_signer_line(
                            old(self).spec_signer(),
                            encode_utf8(old(self).spec_key_name()),
                            spec_note_body(encode_utf8(note@))->0,
                        )) && (final(self).spec_seen() matches Some(p) && p.0 == size && p.1@ == root)
                    },
                }
            }),
    {
        let cp = match verify_checkpoint(note, self.log_origin.as_str(), &self.log_key) {
            Some(cp) => cp,
            None => return Err(CosignError::BadLogSignature),
        };
        let (our_size, our_root) = match self.seen {
            Some(p) => p,
            None => (0, [0u8; 32]),
        };
        if old_size != our_size {
            return Err(CosignError::SizeMismatch { our_size });
        }
        if cp.size < our_size {
            return Err(CosignError::Rollback { our_size, new_size: cp.size });
        }
        let consistent = if our_size == 0 {
            consistency.nodes.len() == 0
        } else {
            verify_consistency(&our_root, &cp.root, consistency, our_size, cp.size)
        };
        if !consistent {
            return Err(CosignError::InconsistentProof);
        }
        proof {
            if our_size > 0 {
                lemma_extension_is_consistent(our_size, our_root@, cp.size, cp.root@, digests_view(consistency.nodes@));
            }
        }
        self.seen = Some((cp.size, cp.root));
        // Cosign the exact body the log signed.
        let text = note.as_bytes();
        let ranges = line_ranges(text);
        let e = match body_end(text, &ranges) {
            Some((_, e)) => e,
            None => return Err(CosignError::BadLogSignature),
        };
        let body = vstd::slice::slice_subrange(text, 0, e);
        let line = signature_line(body, &self.signer, self.key_name.as_str());
        match string_from_utf8(line) {
            Some(s) => Ok(s),
            None => Err(CosignError::BadLogSignature),
        }
    }
}

/// Every key that verifies a note verifies it to the same checkpoint: the one
/// its body holds. So the witnesses of one note never disagree, and a forked
/// view needs a second, different note.
pub proof fn lemma_verifying_keys_agree(
    note: Seq<u8>,
    name1: Seq<u8>,
    alg1: Algorithm,
    key1: Seq<u8>,
    name2: Seq<u8>,
    alg2: Algorithm,
    key2: Seq<u8>,
)
    requires
        spec_verify_checkpoint(note, name1, alg1, key1) is Some,
        spec_verify_checkpoint(note, name2, alg2, key2) is Some,
    ensures
        spec_verify_checkpoint(note, name1, alg1, key1) == spec_verify_checkpoint(note, name2, alg2, key2),
{
}

proof fn lemma_first_verified(rs: Seq<Option<(Seq<u8>, usize, Seq<u8>)>>)
    ensures
        first_verified(rs) is None ==> forall|j: int| 0 <= j < rs.len() ==> #[trigger] rs[j] is None,
        first_verified(rs) is Some ==> exists|j: int| 0 <= j < rs.len() && #[trigger] rs[j] == first_verified(rs),
        count_verified(rs) <= rs.len(),
    decreases rs.len(),
{
    if rs.len() > 0 {
        let pre = rs.drop_last();
        lemma_first_verified(pre);
        if first_verified(pre) is Some {
            let j = choose|j: int| 0 <= j < pre.len() && #[trigger] pre[j] == first_verified(pre);
        } else {
            assert forall|j: int| 0 <= j < rs.len() - 1 implies #[trigger] rs[j] is None by {
                assert(rs[j] == pre[j]);
            }
        }
    }
}

/// Whether two checkpoints commit the same values.
fn same_checkpoint(a: &Checkpoint, b: &Checkpoint) -> (r: bool)
    ensures
        r == (checkpoint_view(*a) == checkpoint_view(*b)),
{
    proof {
        vstd::utf8::encode_utf8_decode_utf8(a.origin@);
        vstd::utf8::encode_utf8_decode_utf8(b.origin@);
    }
    let same_origin = a.origin == b.origin;
    let r = same_origin && a.size == b.size && crate::hashing::hash_eq(&a.root, &b.root);
    proof {
        if a.root@ == b.root@ {
            crate::hashing::lemma_hash_view_eq(a.root, b.root);
        }
    }
    r
}

/// Verify that a checkpoint note carries at least `threshold` valid
/// signatures from the named `witnesses`, all committing the same checkpoint:
/// the N-of-M non-equivocation check. Returns the agreed checkpoint, or `None`
/// if the quorum is not met or two witnesses disagree on it.
pub fn verify_quorum(note: &str, witnesses: &[(&str, &PublicKey)], threshold: usize) -> (r: Option<Checkpoint>)
    ensures
        match spec_verify_quorum(
            encode_utf8(note@),
            Seq::new(witnesses@.len(), |i: int| (encode_utf8(witnesses@[i].0@), witnesses@[i].1.algorithm, witnesses@[i].1.bytes@)),
            threshold,
        ) {
            Some(v) => r matches Some(cp) && checkpoint_view(cp) == v,
            None => r is None,
        },
{
    let ghost ws = Seq::new(witnesses@.len(), |i: int| (encode_utf8(witnesses@[i].0@), witnesses@[i].1.algorithm, witnesses@[i].1.bytes@));
    let ghost rs = spec_witness_results(encode_utf8(note@), ws);
    let mut agreed: Option<Checkpoint> = None;
    let mut count: usize = 0;
    let mut i: usize = 0;
    while i < witnesses.len()
        invariant
            i <= witnesses@.len(),
            ws == Seq::new(witnesses@.len(), |i: int| (encode_utf8(witnesses@[i].0@), witnesses@[i].1.algorithm, witnesses@[i].1.bytes@)),
            rs == spec_witness_results(encode_utf8(note@), ws),
            rs.len() == witnesses@.len(),
            count == count_verified(rs.subrange(0, i as int)),
            all_agree(rs.subrange(0, i as int)),
            match first_verified(rs.subrange(0, i as int)) {
                Some(v) => agreed matches Some(cp) && checkpoint_view(cp) == v,
                None => agreed is None,
            },
        decreases witnesses@.len() - i,
    {
        let (name, key) = witnesses[i];
        let result = verify_checkpoint(note, name, key);
        let ghost pre = rs.subrange(0, i as int);
        let ghost next = rs.subrange(0, i + 1);
        proof {
            assert(next.drop_last() =~= pre);
            lemma_first_verified(pre);
            lemma_first_verified(rs.subrange(0, i as int));
            assert forall|j: int| 0 <= j < pre.len() implies #[trigger] next[j] == pre[j] by {}
        }
        match result {
            Some(cp) => {
                match &agreed {
                    None => {
                        proof {
                            assert forall|p: int, q: int|
                                0 <= p < next.len() && 0 <= q < next.len() && #[trigger] next[p] is Some
                                    && #[trigger] next[q] is Some implies next[p] == next[q] by {}
                        }
                        agreed = Some(cp);
                    },
                    Some(existing) => {
                        if !same_checkpoint(existing, &cp) {
                            proof {
                                let v = first_verified(pre)->0;
                                let j = choose|j: int| 0 <= j < pre.len() && #[trigger] pre[j] == first_verified(pre);
                            }
                            return None;
                        }
                        proof {
                            let v = first_verified(pre)->0;
                            let j = choose|j: int| 0 <= j < pre.len() && #[trigger] pre[j] == first_verified(pre);
                            assert forall|p: int, q: int|
                                0 <= p < next.len() && 0 <= q < next.len() && #[trigger] next[p] is Some
                                    && #[trigger] next[q] is Some implies next[p] == next[q] by {}
                        }
                    },
                }
                count = count + 1;
            },
            None => {
                proof {
                    assert forall|p: int, q: int|
                        0 <= p < next.len() && 0 <= q < next.len() && #[trigger] next[p] is Some
                            && #[trigger] next[q] is Some implies next[p] == next[q] by {}
                }
            },
        }
        i = i + 1;
    }
    proof {
        assert(rs.subrange(0, i as int) =~= rs);
    }
    if count >= threshold {
        agreed
    } else {
        None
    }
}

} // verus!
