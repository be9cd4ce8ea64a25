use vstd::prelude::*;

verus! {

/// The uppercase hexadecimal digit (as an ASCII byte) for a value below 16.
pub open spec fn hex_digit(v: u8) -> u8
    recommends
        v < 16,
{
    if v < 10 {
        (0x30 + v) as u8
    } else {
        (0x37 + v) as u8
    }
}

/// Whether a byte is an uppercase hexadecimal ASCII character (`0-9`, `A-F`).
pub open spec fn is_upper_hex(b: u8) -> bool {
    (0x30 <= b <= 0x39) || (0x41 <= b <= 0x46)
}

/// The uppercase hexadecimal rendering of a byte string: two digits per byte,
/// high nibble first.
pub open spec fn hex_of_bytes(s: Seq<u8>) -> Seq<u8>
    decreases s.len(),
{
    if s.len() == 0 {
        Seq::empty()
    } else {
        hex_of_bytes(s.drop_last()) + seq![
            hex_digit((s.last() / 16) as u8),
            hex_digit((s.last() % 16) as u8),
        ]
    }
}

/// A hexadecimal rendering is twice as long as its input and holds only
/// uppercase hexadecimal characters.
pub proof fn lemma_hex_of_bytes_shape(s: Seq<u8>)
    ensures
        hex_of_bytes(s).len() == 2 * s.len(),
        forall|i: int| 0 <= i < hex_of_bytes(s).len() ==> is_upper_hex(#[trigger] hex_of_bytes(s)[i]),
    decreases s.len(),
{
    if s.len() > 0 {
        lemma_hex_of_bytes_shape(s.drop_last());
    }
}

/// Renders a nibble as its uppercase hexadecimal ASCII byte.
pub fn hex_digit_of(v: u8) -> (r: u8)
    requires
        v < 16,
    ensures
        r == hex_digit(v),
{
    if v < 10 {
        0x30 + v
    } else {
        0x37 + v
    }
}

/// Renders a byte string as uppercase hexadecimal, two digits per byte.
pub fn to_upper_hex(bytes: &[u8]) -> (r: Vec<u8>)
    ensures
        r@ == hex_of_bytes(bytes@),
{
    let n = bytes.len();
    let mut r: Vec<u8> = Vec::new();
    let mut i: usize = 0;
    while i < n
        invariant
            n == bytes@.len(),
            0 <= i <= n,
            r@ == hex_of_bytes(bytes@.subrange(0, i as int)),
        decreases n - i,
    {
        let b = bytes[i];
        let hi = hex_digit_of(b / 16);
        let lo = hex_digit_of(b % 16);
        r.push(hi);
        r.push(lo);
        i = i + 1;
        proof {
            let pre = bytes@.subrange(0, i as int);
            assert(pre.drop_last() =~= bytes@.subrange(0, i - 1));
            assert(r@ =~= hex_of_bytes(pre));
        }
    }
    proof {
        assert(bytes@.subrange(0, n as int) =~= bytes@);
    }
    r
}

} // verus!
