//! Digests and their text forms: BLAKE3 hashing, lowercase hex, and UUID-shaped text.
use vstd::prelude::*;
use vstd::string::*;

verus! {

/// The BLAKE3 digest of `data`, as computed by `blake3::hash`.
pub uninterp spec fn blake3_hash(data: Seq<u8>) -> Seq<u8>;

/// `blake3::hash` of `data`: the 32 bytes of its BLAKE3 digest.
#[verifier::external_body]
pub(crate) fn blake3_digest(data: &[u8]) -> (r: Vec<u8>)
    ensures
        r@ == blake3_hash(data@),
        r@.len() == 32,
{
    blake3::hash(data).as_bytes().to_vec()
}

/// The lowercase hexadecimal digit for `n < 16`.
pub open spec fn hex_char(n: u8) -> char {
    match n {
        0 => '0',
        1 => '1',
        2 => '2',
        3 => '3',
        4 => '4',
        5 => '5',
        6 => '6',
        7 => '7',
        8 => '8',
        9 => '9',
        10 => 'a',
        11 => 'b',
        12 => 'c',
        13 => 'd',
        14 => 'e',
        15 => 'f',
        _ => 'f',
    }
}

pub(crate) fn hex_digit_str(n: u8) -> (r: &'static str)
    requires
        n < 16,
    ensures
        r@ == seq![hex_char(n)],
{
    match n {
        0 => { proof { reveal_strlit("0"); } "0" }
        1 => { proof { reveal_strlit("1"); } "1" }
        2 => { proof { reveal_strlit("2"); } "2" }
        3 => { proof { reveal_strlit("3"); } "3" }
        4 => { proof { reveal_strlit("4"); } "4" }
        5 => { proof { reveal_strlit("5"); } "5" }
        6 => { proof { reveal_strlit("6"); } "6" }
        7 => { proof { reveal_strlit("7"); } "7" }
        8 => { proof { reveal_strlit("8"); } "8" }
        9 => { proof { reveal_strlit("9"); } "9" }
        10 => { proof { reveal_strlit("a"); } "a" }
        11 => { proof { reveal_strlit("b"); } "b" }
        12 => { proof { reveal_strlit("c"); } "c" }
        13 => { proof { reveal_strlit("d"); } "d" }
        14 => { proof { reveal_strlit("e"); } "e" }
        15 => { proof { reveal_strlit("f"); } "f" }
        _ => { proof { reveal_strlit("f"); } "f" }
    }
}

/// Two lowercase hex digits per byte, high nibble first.
pub open spec fn hex_text(bytes: Seq<u8>) -> Seq<char>
    decreases bytes.len(),
{
    if bytes.len() == 0 {
        Seq::empty()
    } else {
        seq![hex_char(bytes[0] / 16), hex_char(bytes[0] % 16)] + hex_text(bytes.drop_first())
    }
}

proof fn lemma_hex_text_push(bytes: Seq<u8>, b: u8)
    ensures
        hex_text(bytes.push(b)) =~= hex_text(bytes) + seq![hex_char(b / 16), hex_char(b % 16)],
    decreases bytes.len(),
{
    if bytes.len() == 0 {
        assert(bytes.push(b).drop_first() =~= Seq::<u8>::empty());
        assert(bytes.push(b)[0] == b);
        assert(hex_text(Seq::<u8>::empty()) == Seq::<char>::empty());
    } else {
        assert(bytes.push(b).drop_first() =~= bytes.drop_first().push(b));
        assert(bytes.push(b)[0] == bytes[0]);
        lemma_hex_text_push(bytes.drop_first(), b);
        let h = seq![hex_char(bytes[0] / 16), hex_char(bytes[0] % 16)];
        let t = seq![hex_char(b / 16), hex_char(b % 16)];
        assert(hex_text(bytes.push(b)) == h + hex_text(bytes.drop_first().push(b)));
        assert(hex_text(bytes) == h + hex_text(bytes.drop_first()));
        assert(h + (hex_text(bytes.drop_first()) + t) =~= (h + hex_text(bytes.drop_first())) + t);
    }
}

/// Appends the lowercase hex text of `bytes[from..to]` to `out`.
pub fn push_hex(out: &mut String, bytes: &[u8], from: usize, to: usize)
    requires
        from <= to <= bytes@.len(),
    ensures
        final(out)@ == old(out)@ + hex_text(bytes@.subrange(from as int, to as int)),
{
    let mut i = from;
    assert(bytes@.subrange(from as int, from as int) =~= Seq::<u8>::empty());
    while i < to
        invariant
            from <= i <= to <= bytes@.len(),
            out@ == old(out)@ + hex_text(bytes@.subrange(from as int, i as int)),
        decreases to - i,
    {
        let b = bytes[i];
        out.append(hex_digit_str(b / 16));
        out.append(hex_digit_str(b % 16));
        proof {
            assert(bytes@.subrange(from as int, i + 1) =~= bytes@.subrange(from as int, i as int).push(b));
            lemma_hex_text_push(bytes@.subrange(from as int, i as int), b);
        }
        i = i + 1;
    }
}

/// The first 16 bytes of a digest with the version-4 and RFC 4122 variant bits set.
pub open spec fn uuid_bytes(d: Seq<u8>) -> Seq<u8> {
    d.subrange(0, 16).update(6, (d[6] & 0x0fu8) | 0x40u8).update(8, (d[8] & 0x3fu8) | 0x80u8)
}

/// The hyphenated 8-4-4-4-12 text of `uuid_bytes(d)`.
pub open spec fn uuid_text(d: Seq<u8>) -> Seq<char> {
    let u = uuid_bytes(d);
    hex_text(u.subrange(0, 4)) + seq!['-'] + hex_text(u.subrange(4, 6)) + seq!['-']
        + hex_text(u.subrange(6, 8)) + seq!['-'] + hex_text(u.subrange(8, 10)) + seq!['-']
        + hex_text(u.subrange(10, 16))
}

/// Appends the UUID-shaped text of the first 16 bytes of `d` to `out`.
pub fn push_uuid_text(out: &mut String, d: &Vec<u8>)
    requires
        d@.len() >= 16,
    ensures
        final(out)@ == old(out)@ + uuid_text(d@),
{
    let mut u: Vec<u8> = Vec::new();
    let mut i: usize = 0;
    while i < 16
        invariant
            i <= 16,
            d@.len() >= 16,
            u@ =~= d@.subrange(0, i as int),
        decreases 16 - i,
    {
        u.push(d[i]);
        i = i + 1;
    }
    let b6 = (u[6] & 0x0f) | 0x40;
    let b8 = (u[8] & 0x3f) | 0x80;
    u.set(6, b6);
    u.set(8, b8);
    assert(u@ =~= uuid_bytes(d@));
    let dash = "-";
    proof { reveal_strlit("-"); }
    push_hex(out, u.as_slice(), 0, 4);
    out.append(dash);
    push_hex(out, u.as_slice(), 4, 6);
    out.append(dash);
    push_hex(out, u.as_slice(), 6, 8);
    out.append(dash);
    push_hex(out, u.as_slice(), 8, 10);
    out.append(dash);
    push_hex(out, u.as_slice(), 10, 16);
    assert(out@ =~= old(out)@ + uuid_text(d@));
}

} // verus!
