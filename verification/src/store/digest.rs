//! Fingerprints of texts and images.

use crate::text;
use vstd::prelude::*;

verus! {

/// The hexadecimal BLAKE3 digest of some bytes.
pub uninterp spec fn blake3_hex(bytes: Seq<u8>) -> Seq<char>;

/// Whether a character is a lower-case hexadecimal digit.
pub open spec fn is_hex(c: char) -> bool {
    '0' <= c <= '9' || 'a' <= c <= 'f'
}

/// `blake3::hash` and `Hash::to_hex`: the digest is a function of the bytes,
/// named `blake3_hex`, and is written as 64 lower-case hexadecimal digits.
#[verifier::external_body]
fn blake3_of(bytes: &[u8]) -> (r: String)
    ensures
        r@ == blake3_hex(bytes@),
        r@.len() == 64,
        forall|i: int| 0 <= i < 64 ==> is_hex(#[trigger] r@[i]),
{
    blake3::hash(bytes).to_hex().to_string()
}

/// The fingerprint of a text.
pub open spec fn text_hash(t: Seq<char>) -> Seq<char> {
    blake3_hex(text::utf8(t))
}

/// The fingerprint of a text: stable across processes, machines and versions.
pub fn hash_text(s: &str) -> (r: String)
    ensures
        r@ == text_hash(s@),
        r@.len() == 64,
        forall|i: int| 0 <= i < 64 ==> is_hex(#[trigger] r@[i]),
{
    blake3_of(s.as_bytes())
}

/// One step of the 64-bit FNV-1a hash.
pub open spec fn fnv_step(h: u64, b: u8) -> u64 {
    (h ^ (b as u64)).wrapping_mul(0x100000001b3)
}

/// The 64-bit FNV-1a hash of some bytes.
pub open spec fn fnv(bytes: Seq<u8>) -> u64
    decreases bytes.len(),
{
    if bytes.len() == 0 {
        0xcbf29ce484222325
    } else {
        fnv_step(fnv(bytes.drop_last()), bytes.last())
    }
}

/// The 64-bit FNV-1a hash of some bytes.
pub fn fnv64(bytes: &[u8]) -> (h: u64)
    ensures
        h == fnv(bytes@),
{
    let mut h: u64 = 0xcbf29ce484222325;
    let mut i: usize = 0;
    while i < bytes.len()
        invariant
            i <= bytes.len(),
            h == fnv(bytes@.take(i as int)),
        decreases bytes.len() - i,
    {
        assert(bytes@.take(i + 1).drop_last() == bytes@.take(i as int));
        h = (h ^ (bytes[i] as u64)).wrapping_mul(0x100000001b3);
        i += 1;
    }
    assert(bytes@.take(bytes.len() as int) == bytes@);
    h
}

/// The fingerprint of an image: its type, the hash of its bytes and their
/// number. The same bytes under another type are another image.
pub open spec fn image_key(mime: Seq<char>, bytes: Seq<u8>) -> Seq<char> {
    "img:"@ + mime + ":"@ + text::hex_nat(fnv(bytes) as nat) + "-"@ + text::dec_nat(bytes.len())
}

/// The fingerprint of an image.
pub fn image_content_key(mime: &str, bytes: &[u8]) -> (r: String)
    ensures
        r@ == image_key(mime@, bytes@),
{
    let mut r = "img:".to_owned();
    r.append(mime);
    r.append(":");
    text::push_hex(&mut r, fnv64(bytes));
    r.append("-");
    text::push_u64(&mut r, bytes.len() as u64);
    r
}

/// The fingerprint of a text is the digest of all its bytes in UTF-8.
pub proof fn law_text_fingerprint_is_of_the_whole_text(t: Seq<char>)
    ensures
        text_hash(t) == blake3_hex(vstd::utf8::encode_utf8(t)),
{
}

/// Each byte goes into the hash of some bytes, the last one as the first: it is put
/// into the state by an exclusive or, and the state is multiplied by the FNV prime.
pub proof fn law_hash_takes_in_byte_by_byte(bytes: Seq<u8>, b: u8)
    ensures
        fnv(Seq::empty()) == 0xcbf29ce484222325,
        fnv(bytes.push(b)) as int == ((fnv(bytes) ^ (b as u64)) as int * 0x100000001b3int)
            % 0x1_0000_0000_0000_0000int,
{
    assert(bytes.push(b).drop_last() == bytes);
}

proof fn lemma_product_tells_apart(x: u64, y: u64)
    requires
        x != y,
    ensures
        x.wrapping_mul(0x100000001b3) != y.wrapping_mul(0x100000001b3),
{
    let m = 0x1_0000_0000_0000_0000int;
    let p = 0x100000001b3int;
    let q = 0xce965057aff6957bint;
    if x.wrapping_mul(0x100000001b3) == y.wrapping_mul(0x100000001b3) {
        lemma_inverse(x);
        lemma_inverse(y);
        assert((x as int * p) % m == (y as int * p) % m);
    }
}

proof fn lemma_inverse(x: u64)
    ensures
        (((x as int * 0x100000001b3int) % 0x1_0000_0000_0000_0000int) * 0xce965057aff6957bint)
            % 0x1_0000_0000_0000_0000int == x,
{
    let m = 0x1_0000_0000_0000_0000int;
    let p = 0x100000001b3int;
    let q = 0xce965057aff6957bint;
    let k = 887285111055int;
    assert(p * q == m * k + 1);
    vstd::arithmetic::div_mod::lemma_mul_mod_noop_left(x as int * p, q, m);
    assert(x as int * p * q == m * (k * x) + x) by (nonlinear_arith)
        requires
            p * q == m * k + 1,
    ;
    vstd::arithmetic::div_mod::lemma_mod_multiples_vanish(k * x, x as int, m);
    vstd::arithmetic::div_mod::lemma_small_mod(x as nat, m as nat);
}

proof fn lemma_step_tells_apart(h: u64, g: u64, a: u8, b: u8)
    ensures
        a != b ==> fnv_step(h, a) != fnv_step(h, b),
        h != g ==> fnv_step(h, a) != fnv_step(g, a),
{
    let x = a as u64;
    let y = b as u64;
    assert(x != y ==> (h ^ x) != (h ^ y)) by (bit_vector);
    assert(h != g ==> (h ^ x) != (g ^ x)) by (bit_vector);
    if a != b {
        lemma_product_tells_apart(h ^ x, h ^ y);
    }
    if h != g {
        lemma_product_tells_apart(h ^ x, g ^ x);
    }
}

/// Every byte counts: contents that differ in one byte have different hashes,
/// wherever it stands.
pub proof fn law_every_byte_counts(front: Seq<u8>, x: u8, y: u8, back: Seq<u8>)
    requires
        x != y,
    ensures
        fnv(front.push(x) + back) != fnv(front.push(y) + back),
    decreases back.len(),
{
    let a = front.push(x) + back;
    let b = front.push(y) + back;
    if back.len() == 0 {
        assert(a.drop_last() == front && b.drop_last() == front);
        lemma_step_tells_apart(fnv(front), fnv(front), x, y);
    } else {
        law_every_byte_counts(front, x, y, back.drop_last());
        assert(a.drop_last() == front.push(x) + back.drop_last());
        assert(b.drop_last() == front.push(y) + back.drop_last());
        lemma_step_tells_apart(fnv(a.drop_last()), fnv(b.drop_last()), back.last(), back.last());
    }
}

proof fn lemma_same_tail(p: Seq<char>, q: Seq<char>, c: char, t: Seq<char>, u: Seq<char>)
    requires
        p + seq![c] + t == q + seq![c] + u,
        !t.contains(c),
        !u.contains(c),
    ensures
        p == q,
        t == u,
{
    let s = p + seq![c] + t;
    assert(s == q + seq![c] + u);
    if p.len() < q.len() {
        assert(s[q.len() as int] == c);
        assert(s[q.len() as int] == t[q.len() - p.len() - 1]);
        assert(t.contains(c));
    } else if q.len() < p.len() {
        assert(s[p.len() as int] == c);
        assert(s[p.len() as int] == u[p.len() - q.len() - 1]);
        assert(u.contains(c));
    }
    assert(s.take(p.len() as int) == p && s.take(q.len() as int) == q);
    assert(s.skip(p.len() as int + 1) == t && s.skip(q.len() as int + 1) == u);
}

/// Images with one fingerprint have the same type, the same number of bytes and the
/// same hash.
pub proof fn law_fingerprint_tells_images_apart(
    mime: Seq<char>,
    a: Seq<u8>,
    other: Seq<char>,
    b: Seq<u8>,
)
    requires
        image_key(mime, a) == image_key(other, b),
    ensures
        mime == other,
        a.len() == b.len(),
        fnv(a) == fnv(b),
{
    let h = text::hex_nat(fnv(a) as nat);
    let g = text::hex_nat(fnv(b) as nat);
    let m = text::dec_nat(a.len());
    let n = text::dec_nat(b.len());
    text::law_hexadecimal_notation(fnv(a) as nat, fnv(b) as nat);
    text::law_hexadecimal_notation(fnv(b) as nat, fnv(a) as nat);
    text::lemma_dec_nat(a.len());
    text::lemma_dec_nat(b.len());
    text::law_decimal_notation(a.len() as int, b.len() as int, 0);
    reveal_strlit(":");
    reveal_strlit("-");
    assert(":"@ == seq![':'] && "-"@ == seq!['-']);
    assert(!m.contains('-') && !n.contains('-'));
    assert(!h.contains(':') && !g.contains(':'));
    lemma_same_tail("img:"@ + mime + ":"@ + h, "img:"@ + other + ":"@ + g, '-', m, n);
    lemma_same_tail("img:"@ + mime, "img:"@ + other, ':', h, g);
    assert(("img:"@ + mime).skip("img:"@.len() as int) == mime);
    assert(("img:"@ + other).skip("img:"@.len() as int) == other);
}

/// Two images that differ in one byte are two images.
pub proof fn law_one_byte_makes_another_image(
    mime: Seq<char>,
    front: Seq<u8>,
    x: u8,
    y: u8,
    back: Seq<u8>,
)
    requires
        x != y,
    ensures
        image_key(mime, front.push(x) + back) != image_key(mime, front.push(y) + back),
{
    law_every_byte_counts(front, x, y, back);
    if image_key(mime, front.push(x) + back) == image_key(mime, front.push(y) + back) {
        law_fingerprint_tells_images_apart(mime, front.push(x) + back, mime, front.push(y) + back);
    }
}

} // verus!
