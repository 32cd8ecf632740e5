//! The bytes in which a list of pixels is stored.
//!
//! A list is written as the number of its pixels in eight bytes, and then
//! pixel after pixel in 100 bytes each: the latitude and longitude of the
//! upper left, lower left, lower right and upper right corners, the power,
//! the area, the temperature and the scan angle in eight bytes each, and the
//! mask code and the quality code in two bytes each. Every number stands with
//! its least significant byte first.

use crate::geo::Coord;
use crate::pixel::{Pixel, PixelList};
use crate::satellite::{DataQualityFlagCode, MaskCode};
use vstd::prelude::*;

verus! {

/// The number of bytes in front of the pixels.
pub const COUNT_BYTES: usize = 8;

/// The number of bytes of one pixel.
pub const PIXEL_BYTES: usize = 100;

/// The byte of `v` that is `k` bytes above the lowest.
pub open spec fn byte_of(v: u64, k: u64) -> u8 {
    ((v >> (8 * k)) & 0xff) as u8
}

/// The eight bytes of `v`, lowest first.
pub open spec fn u64_bytes(v: u64) -> Seq<u8> {
    seq![
        byte_of(v, 0),
        byte_of(v, 1),
        byte_of(v, 2),
        byte_of(v, 3),
        byte_of(v, 4),
        byte_of(v, 5),
        byte_of(v, 6),
        byte_of(v, 7),
    ]
}

/// The number whose bytes, lowest first, are `b0` to `b7`.
pub open spec fn u64_of(b0: u8, b1: u8, b2: u8, b3: u8, b4: u8, b5: u8, b6: u8, b7: u8) -> u64 {
    (b0 as u64) | (b1 as u64) << 8 | (b2 as u64) << 16 | (b3 as u64) << 24 | (b4 as u64) << 32 | (
    b5 as u64) << 40 | (b6 as u64) << 48 | (b7 as u64) << 56
}

/// The number that the eight bytes from `at` on write, lowest first.
pub open spec fn u64_at(bytes: Seq<u8>, at: int) -> u64 {
    u64_of(
        bytes[at],
        bytes[at + 1],
        bytes[at + 2],
        bytes[at + 3],
        bytes[at + 4],
        bytes[at + 5],
        bytes[at + 6],
        bytes[at + 7],
    )
}

/// The two bytes of a code, lowest first, in two's complement.
pub open spec fn i16_bytes(v: i16) -> Seq<u8> {
    let u: int = if v < 0 {
        v + 65536
    } else {
        v as int
    };
    seq![(u % 256) as u8, (u / 256) as u8]
}

/// The code that the two bytes from `at` on write.
pub open spec fn i16_at(bytes: Seq<u8>, at: int) -> i16 {
    let u: int = bytes[at] + 256 * bytes[at + 1];
    if u >= 32768 {
        (u - 65536) as i16
    } else {
        u as i16
    }
}

/// The twelve numbers of a pixel, in the order in which they are written.
pub open spec fn words(p: Pixel) -> Seq<u64> {
    seq![
        p.ul.lat,
        p.ul.lon,
        p.ll.lat,
        p.ll.lon,
        p.lr.lat,
        p.lr.lon,
        p.ur.lat,
        p.ur.lon,
        p.power,
        p.area,
        p.temperature,
        p.scan_angle,
    ]
}

/// The bytes of some numbers, one number after the other.
pub open spec fn words_bytes(ws: Seq<u64>) -> Seq<u8>
    decreases ws.len(),
{
    if ws.len() == 0 {
        Seq::empty()
    } else {
        words_bytes(ws.drop_last()) + u64_bytes(ws.last())
    }
}

/// The 100 bytes of a pixel: its twelve numbers, and its two codes.
pub open spec fn pixel_bytes(p: Pixel) -> Seq<u8> {
    words_bytes(words(p)) + i16_bytes(p.mask_flag.0) + i16_bytes(p.data_quality_flag.0)
}

/// The bytes of the pixels of a list, one pixel after the other.
pub open spec fn pixels_bytes(list: Seq<Pixel>) -> Seq<u8>
    decreases list.len(),
{
    if list.len() == 0 {
        Seq::empty()
    } else {
        pixels_bytes(list.drop_last()) + pixel_bytes(list.last())
    }
}

/// The bytes of a list: the number of pixels, and the pixels.
pub open spec fn encoded(list: Seq<Pixel>) -> Seq<u8> {
    u64_bytes(list.len() as u64) + pixels_bytes(list)
}

/// The pixel that the 100 bytes from `at` on write.
pub open spec fn pixel_at(bytes: Seq<u8>, at: int) -> Pixel {
    Pixel {
        ul: Coord { lat: u64_at(bytes, at), lon: u64_at(bytes, at + 8) },
        ll: Coord { lat: u64_at(bytes, at + 16), lon: u64_at(bytes, at + 24) },
        lr: Coord { lat: u64_at(bytes, at + 32), lon: u64_at(bytes, at + 40) },
        ur: Coord { lat: u64_at(bytes, at + 48), lon: u64_at(bytes, at + 56) },
        power: u64_at(bytes, at + 64),
        area: u64_at(bytes, at + 72),
        temperature: u64_at(bytes, at + 80),
        scan_angle: u64_at(bytes, at + 88),
        mask_flag: MaskCode(i16_at(bytes, at + 96)),
        data_quality_flag: DataQualityFlagCode(i16_at(bytes, at + 98)),
    }
}

/// The pixel that stands at place `k` among the pixels in the bytes of a
/// list.
pub open spec fn pixel_number(bytes: Seq<u8>, k: int) -> Pixel {
    pixel_at(bytes, COUNT_BYTES + PIXEL_BYTES * k)
}

/// What the bytes of a list say: the pixels, or `None` where there are fewer
/// than eight bytes or fewer bytes behind them than the pixels need. Bytes
/// behind the last pixel are not looked at.
pub open spec fn decoded(bytes: Seq<u8>) -> Option<Seq<Pixel>> {
    if bytes.len() < COUNT_BYTES {
        None
    } else {
        let count = u64_at(bytes, 0);
        if COUNT_BYTES + PIXEL_BYTES * count > bytes.len() {
            None
        } else {
            Some(Seq::new(count as nat, |k: int| pixel_number(bytes, k)))
        }
    }
}

/// Why bytes are not a list of pixels.
#[derive(Clone, Copy, Debug, PartialEq, Eq, Structural)]
pub enum DecodeError {
    /// There are fewer than eight bytes, so the number of pixels is missing.
    MissingCount,
    /// There are fewer bytes than the number of pixels asks for.
    Truncated,
}

/// The error that bytes which are no list give.
pub open spec fn decode_error(bytes: Seq<u8>) -> DecodeError {
    if bytes.len() < COUNT_BYTES {
        DecodeError::MissingCount
    } else {
        DecodeError::Truncated
    }
}

proof fn lemma_u64_round_trip(v: u64)
    ensures
        u64_at(u64_bytes(v), 0) == v,
{
    assert(u64_of(
        byte_of(v, 0),
        byte_of(v, 1),
        byte_of(v, 2),
        byte_of(v, 3),
        byte_of(v, 4),
        byte_of(v, 5),
        byte_of(v, 6),
        byte_of(v, 7),
    ) == v) by (bit_vector);
}

proof fn lemma_i16_round_trip(v: i16)
    ensures
        i16_at(i16_bytes(v), 0) == v,
{
}

/// Reading at `at` sees only the eight bytes that stand there.
proof fn lemma_u64_at_part(bytes: Seq<u8>, at: int, part: Seq<u8>)
    requires
        0 <= at,
        at + 8 <= bytes.len(),
        bytes.subrange(at, at + 8) == part,
    ensures
        u64_at(bytes, at) == u64_at(part, 0),
{
    assert forall|k: int| 0 <= k < 8 implies bytes[at + k] == part[k] by {
        assert(bytes.subrange(at, at + 8)[k] == bytes[at + k]);
    }
}

proof fn lemma_i16_at_part(bytes: Seq<u8>, at: int, part: Seq<u8>)
    requires
        0 <= at,
        at + 2 <= bytes.len(),
        bytes.subrange(at, at + 2) == part,
    ensures
        i16_at(bytes, at) == i16_at(part, 0),
{
    assert forall|k: int| 0 <= k < 2 implies bytes[at + k] == part[k] by {
        assert(bytes.subrange(at, at + 2)[k] == bytes[at + k]);
    }
}

proof fn lemma_words_len(ws: Seq<u64>)
    ensures
        words_bytes(ws).len() == 8 * ws.len(),
    decreases ws.len(),
{
    if ws.len() > 0 {
        lemma_words_len(ws.drop_last());
    }
}

/// Numbers take eight bytes each, and the bytes of each stand at its place.
proof fn lemma_words_bytes(ws: Seq<u64>, k: int)
    requires
        0 <= k < ws.len(),
    ensures
        words_bytes(ws).len() == 8 * ws.len(),
        words_bytes(ws).subrange(8 * k, 8 * k + 8) == u64_bytes(ws[k]),
    decreases ws.len(),
{
    let front = ws.drop_last();
    lemma_words_len(front);
    if k < ws.len() - 1 {
        lemma_words_bytes(front, k);
        assert(words_bytes(ws).subrange(8 * k, 8 * k + 8) =~= words_bytes(front).subrange(
            8 * k,
            8 * k + 8,
        ));
    } else {
        assert(words_bytes(ws).subrange(8 * k, 8 * k + 8) =~= u64_bytes(ws.last()));
    }
}

proof fn lemma_word_round_trip(bytes: Seq<u8>, at: int, p: Pixel, k: int)
    requires
        0 <= at,
        at + PIXEL_BYTES <= bytes.len(),
        bytes.subrange(at, at + PIXEL_BYTES) == pixel_bytes(p),
        0 <= k < 12,
    ensures
        u64_at(bytes, at + 8 * k) == words(p)[k],
{
    let image = pixel_bytes(p);
    let front = words_bytes(words(p));
    lemma_words_bytes(words(p), k);
    assert forall|i: int| 0 <= i < 8 implies bytes[at + 8 * k + i] == u64_bytes(words(p)[k])[i] by {
        assert(bytes.subrange(at, at + PIXEL_BYTES)[8 * k + i] == bytes[at + 8 * k + i]);
        assert(image[8 * k + i] == front[8 * k + i]);
        assert(front.subrange(8 * k, 8 * k + 8)[i] == front[8 * k + i]);
    }
    assert(bytes.subrange(at + 8 * k, at + 8 * k + 8) =~= u64_bytes(words(p)[k]));
    lemma_u64_at_part(bytes, at + 8 * k, u64_bytes(words(p)[k]));
    lemma_u64_round_trip(words(p)[k]);
}

proof fn lemma_pixel_round_trip(bytes: Seq<u8>, at: int, p: Pixel)
    requires
        0 <= at,
        at + PIXEL_BYTES <= bytes.len(),
        bytes.subrange(at, at + PIXEL_BYTES) == pixel_bytes(p),
    ensures
        pixel_at(bytes, at) == p,
{
    lemma_word_round_trip(bytes, at, p, 0);
    lemma_word_round_trip(bytes, at, p, 1);
    lemma_word_round_trip(bytes, at, p, 2);
    lemma_word_round_trip(bytes, at, p, 3);
    lemma_word_round_trip(bytes, at, p, 4);
    lemma_word_round_trip(bytes, at, p, 5);
    lemma_word_round_trip(bytes, at, p, 6);
    lemma_word_round_trip(bytes, at, p, 7);
    lemma_word_round_trip(bytes, at, p, 8);
    lemma_word_round_trip(bytes, at, p, 9);
    lemma_word_round_trip(bytes, at, p, 10);
    lemma_word_round_trip(bytes, at, p, 11);
    let image = pixel_bytes(p);
    lemma_words_len(words(p));
    assert forall|i: int| 0 <= i < 2 implies bytes[at + 96 + i] == i16_bytes(p.mask_flag.0)[i] by {
        assert(bytes.subrange(at, at + PIXEL_BYTES)[96 + i] == bytes[at + 96 + i]);
    }
    assert forall|i: int| 0 <= i < 2 implies bytes[at + 98 + i] == i16_bytes(
        p.data_quality_flag.0,
    )[i] by {
        assert(bytes.subrange(at, at + PIXEL_BYTES)[98 + i] == bytes[at + 98 + i]);
    }
    assert(bytes.subrange(at + 96, at + 98) =~= i16_bytes(p.mask_flag.0));
    assert(bytes.subrange(at + 98, at + 100) =~= i16_bytes(p.data_quality_flag.0));
    lemma_i16_at_part(bytes, at + 96, i16_bytes(p.mask_flag.0));
    lemma_i16_at_part(bytes, at + 98, i16_bytes(p.data_quality_flag.0));
    lemma_i16_round_trip(p.mask_flag.0);
    lemma_i16_round_trip(p.data_quality_flag.0);
}

proof fn lemma_pixel_len(p: Pixel)
    ensures
        pixel_bytes(p).len() == PIXEL_BYTES,
{
    lemma_words_len(words(p));
}

/// The pixels of a list take 100 bytes each, and the bytes of each stand at
/// its place.
proof fn lemma_pixels_bytes(list: Seq<Pixel>, k: int)
    requires
        0 <= k < list.len(),
    ensures
        pixels_bytes(list).len() == PIXEL_BYTES * list.len(),
        pixels_bytes(list).subrange(PIXEL_BYTES * k, PIXEL_BYTES * k + PIXEL_BYTES) == pixel_bytes(
            list[k],
        ),
    decreases list.len(),
{
    let front = list.drop_last();
    lemma_pixels_len(front);
    lemma_pixel_len(list.last());
    if k < list.len() - 1 {
        lemma_pixels_bytes(front, k);
        assert(pixels_bytes(list).subrange(PIXEL_BYTES * k, PIXEL_BYTES * k + PIXEL_BYTES)
            =~= pixels_bytes(front).subrange(PIXEL_BYTES * k, PIXEL_BYTES * k + PIXEL_BYTES));
    } else {
        assert(pixels_bytes(list).subrange(PIXEL_BYTES * k, PIXEL_BYTES * k + PIXEL_BYTES)
            =~= pixel_bytes(list.last()));
    }
}

proof fn lemma_pixels_len(list: Seq<Pixel>)
    ensures
        pixels_bytes(list).len() == PIXEL_BYTES * list.len(),
    decreases list.len(),
{
    if list.len() > 0 {
        lemma_pixels_len(list.drop_last());
        lemma_pixel_len(list.last());
    }
}

/// Reading the bytes of a list gives the list back, pixel for pixel and bit
/// for bit.
pub proof fn lemma_round_trip(list: Seq<Pixel>)
    requires
        list.len() <= u64::MAX,
    ensures
        decoded(encoded(list)) == Some(list),
{
    let bytes = encoded(list);
    let count = list.len() as u64;
    lemma_pixels_len(list);
    assert(bytes.subrange(0, 8) =~= u64_bytes(count));
    lemma_u64_at_part(bytes, 0, u64_bytes(count));
    lemma_u64_round_trip(count);
    let read = Seq::new(count as nat, |k: int| pixel_number(bytes, k));
    assert forall|k: int| 0 <= k < list.len() implies read[k] == list[k] by {
        lemma_pixels_bytes(list, k);
        let at = COUNT_BYTES + PIXEL_BYTES * k;
        assert(bytes.subrange(at, at + PIXEL_BYTES) =~= pixels_bytes(list).subrange(
            PIXEL_BYTES * k,
            PIXEL_BYTES * k + PIXEL_BYTES,
        ));
        lemma_pixel_round_trip(bytes, at, list[k]);
    }
    assert(read =~= list);
}

fn put_u64(out: &mut Vec<u8>, v: u64)
    ensures
        final(out)@ == old(out)@ + u64_bytes(v),
{
    out.push((v & 0xff) as u8);
    out.push(((v >> 8) & 0xff) as u8);
    out.push(((v >> 16) & 0xff) as u8);
    out.push(((v >> 24) & 0xff) as u8);
    out.push(((v >> 32) & 0xff) as u8);
    out.push(((v >> 40) & 0xff) as u8);
    out.push(((v >> 48) & 0xff) as u8);
    out.push(((v >> 56) & 0xff) as u8);
    assert(v & 0xff == (v >> 0) & 0xff) by (bit_vector);
    assert(out@ =~= old(out)@ + u64_bytes(v));
}

fn put_i16(out: &mut Vec<u8>, v: i16)
    ensures
        final(out)@ == old(out)@ + i16_bytes(v),
{
    let wide: i32 = v as i32;
    let u: i32 = if wide < 0 {
        wide + 65536
    } else {
        wide
    };
    out.push((u % 256) as u8);
    out.push((u / 256) as u8);
    assert(out@ =~= old(out)@ + i16_bytes(v));
}

fn get_u64(bytes: &[u8], at: usize) -> (r: u64)
    requires
        at + 8 <= bytes.len(),
    ensures
        r == u64_at(bytes@, at as int),
{
    (bytes[at] as u64) | (bytes[at + 1] as u64) << 8 | (bytes[at + 2] as u64) << 16 | (bytes[at
        + 3] as u64) << 24 | (bytes[at + 4] as u64) << 32 | (bytes[at + 5] as u64) << 40 | (bytes[at
        + 6] as u64) << 48 | (bytes[at + 7] as u64) << 56
}

fn get_i16(bytes: &[u8], at: usize) -> (r: i16)
    requires
        at + 2 <= bytes.len(),
    ensures
        r == i16_at(bytes@, at as int),
{
    let u: i32 = bytes[at] as i32 + 256 * (bytes[at + 1] as i32);
    if u >= 32768 {
        (u - 65536) as i16
    } else {
        u as i16
    }
}

impl Pixel {
    /// Appends the 100 bytes of the pixel to `out`.
    pub fn write_bytes(&self, out: &mut Vec<u8>)
        ensures
            final(out)@ == old(out)@ + pixel_bytes(*self),
    {
        let numbers: [u64; 12] = [
            self.ul.lat,
            self.ul.lon,
            self.ll.lat,
            self.ll.lon,
            self.lr.lat,
            self.lr.lon,
            self.ur.lat,
            self.ur.lon,
            self.power,
            self.area,
            self.temperature,
            self.scan_angle,
        ];
        assert(numbers@ =~= words(*self));
        let mut k: usize = 0;
        assert(words_bytes(numbers@.take(0)) =~= Seq::<u8>::empty());
        assert(out@ =~= old(out)@ + words_bytes(numbers@.take(0)));
        while k < 12
            invariant
                k <= 12,
                out@ == old(out)@ + words_bytes(numbers@.take(k as int)),
            decreases 12 - k,
        {
            let ghost before = out@;
            put_u64(out, numbers[k]);
            proof {
                let seen = numbers@.take(k + 1);
                assert(seen.drop_last() =~= numbers@.take(k as int));
                assert(seen.last() == numbers[k as int]);
                assert(out@ =~= old(out)@ + words_bytes(seen));
            }
            k += 1;
        }
        assert(numbers@.take(12) =~= numbers@);
        put_i16(out, self.mask_flag.0);
        put_i16(out, self.data_quality_flag.0);
        assert(out@ =~= old(out)@ + pixel_bytes(*self));
    }

    /// Reads a pixel from the 100 bytes that start at `at`.
    pub fn read_bytes(bytes: &[u8], at: usize) -> (r: Pixel)
        requires
            at + PIXEL_BYTES <= bytes.len(),
        ensures
            r == pixel_at(bytes@, at as int),
    {
        Pixel {
            ul: Coord { lat: get_u64(bytes, at), lon: get_u64(bytes, at + 8) },
            ll: Coord { lat: get_u64(bytes, at + 16), lon: get_u64(bytes, at + 24) },
            lr: Coord { lat: get_u64(bytes, at + 32), lon: get_u64(bytes, at + 40) },
            ur: Coord { lat: get_u64(bytes, at + 48), lon: get_u64(bytes, at + 56) },
            power: get_u64(bytes, at + 64),
            area: get_u64(bytes, at + 72),
            temperature: get_u64(bytes, at + 80),
            scan_angle: get_u64(bytes, at + 88),
            mask_flag: MaskCode(get_i16(bytes, at + 96)),
            data_quality_flag: DataQualityFlagCode(get_i16(bytes, at + 98)),
        }
    }
}

impl PixelList {
    /// Writes the list as bytes, from which the list can be read again.
    pub fn binary_serialize(&self) -> (r: Vec<u8>)
        ensures
            r@ == encoded(self@),
            decoded(r@) == Some(self@),
    {
        let pixels = self.pixels();
        let count = pixels.len();
        proof {
            lemma_round_trip(self@);
        }
        let mut out: Vec<u8> = Vec::new();
        put_u64(&mut out, count as u64);
        let mut k: usize = 0;
        assert(pixels_bytes(pixels@.take(0)) =~= Seq::<u8>::empty());
        assert(out@ =~= u64_bytes(pixels.len() as u64) + pixels_bytes(pixels@.take(0)));
        while k < pixels.len()
            invariant
                k <= pixels.len(),
                out@ == u64_bytes(pixels.len() as u64) + pixels_bytes(pixels@.take(k as int)),
            decreases pixels.len() - k,
        {
            pixels[k].write_bytes(&mut out);
            proof {
                let seen = pixels@.take(k + 1);
                assert(seen.drop_last() =~= pixels@.take(k as int));
                assert(seen.last() == pixels[k as int]);
                assert(out@ =~= u64_bytes(pixels.len() as u64) + pixels_bytes(seen));
            }
            k += 1;
        }
        assert(pixels@.take(k as int) =~= pixels@);
        out
    }

    /// Reads a list from bytes.
    pub fn binary_deserialize(bytes: &[u8]) -> (r: Result<PixelList, DecodeError>)
        ensures
            match decoded(bytes@) {
                Some(pixels) => r is Ok && r->Ok_0@ == pixels,
                None => r == Err::<PixelList, DecodeError>(decode_error(bytes@)),
            },
    {
        if bytes.len() < COUNT_BYTES {
            return Err(DecodeError::MissingCount);
        }
        let count = get_u64(bytes, 0);
        if count > ((bytes.len() - COUNT_BYTES) / PIXEL_BYTES) as u64 {
            return Err(DecodeError::Truncated);
        }
        let n = count as usize;
        let mut list = PixelList::with_capacity(n);
        let mut k: usize = 0;
        while k < n
            invariant
                k <= n,
                n == count,
                COUNT_BYTES + PIXEL_BYTES * n <= bytes.len(),
                list@ == Seq::new(k as nat, |i: int| pixel_number(bytes@, i)),
            decreases n - k,
        {
            let pixel = Pixel::read_bytes(bytes, COUNT_BYTES + PIXEL_BYTES * k);
            assert(pixel == pixel_number(bytes@, k as int));
            list.push(pixel);
            assert(list@ =~= Seq::new((k + 1) as nat, |i: int| pixel_number(bytes@, i)));
            k += 1;
        }
        Ok(list)
    }
}

} // verus!
