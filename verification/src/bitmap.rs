//! Byte-level transformations of raw bitmaps: reversing the order of rows,
//! swapping the red and blue channel of every pixel, and filling in an alpha
//! channel that the capture left empty.

use vstd::prelude::*;

verus! {

use vstd::arithmetic::div_mod::lemma_fundamental_div_mod;
use vstd::arithmetic::div_mod::lemma_fundamental_div_mod_converse;

// ---------------------------------------------------------------------------
// Row order
// ---------------------------------------------------------------------------

/// `data` read as `height` rows of `row_len` bytes each, with the rows in
/// reverse order: byte `b` of row `r` of the result is byte `b` of row
/// `height - 1 - r` of `data`.
pub open spec fn rows_reversed(data: Seq<u8>, height: int, row_len: int) -> Seq<u8> {
    Seq::new(data.len(), |i: int| data[(height - 1 - i / row_len) * row_len + i % row_len])
}

/// Splitting an index `r * row_len + b` of a bitmap into its row and the byte in that row.
proof fn lemma_row_and_byte(r: int, b: int, height: int, row_len: int)
    requires
        0 <= r < height,
        0 <= b < row_len,
    ensures
        (r * row_len + b) / row_len == r,
        (r * row_len + b) % row_len == b,
        0 <= r * row_len + b < height * row_len,
        0 <= (height - 1 - r) * row_len + b < height * row_len,
{
    lemma_fundamental_div_mod_converse(r * row_len + b, row_len, r, b);
    assert(0 <= r * row_len + b < height * row_len) by (nonlinear_arith)
        requires
            0 <= r < height,
            0 <= b < row_len,
    ;
    assert(0 <= (height - 1 - r) * row_len + b < height * row_len) by (nonlinear_arith)
        requires
            0 <= r < height,
            0 <= b < row_len,
    ;
}

/// Every index below `height * row_len` lies in some row below `height`.
proof fn lemma_index_in_row(i: int, height: int, row_len: int)
    requires
        0 <= i < height * row_len,
        0 <= height,
        0 <= row_len,
    ensures
        row_len > 0,
        0 <= i / row_len < height,
        0 <= i % row_len < row_len,
        i == (i / row_len) * row_len + i % row_len,
{
    if row_len <= 0 {
        assert(height * row_len <= 0) by (nonlinear_arith)
            requires
                0 <= height,
                row_len <= 0,
        ;
    }
    lemma_fundamental_div_mod(i, row_len);
    let q = i / row_len;
    let b = i % row_len;
    assert(0 <= q < height) by (nonlinear_arith)
        requires
            i == row_len * q + b,
            0 <= b < row_len,
            0 <= i < height * row_len,
    ;
    assert(row_len * q == q * row_len) by (nonlinear_arith);
}

/// The row-reversed bitmap holds in row `r` what `data` holds in row `height - 1 - r`.
pub proof fn lemma_rows_reversed_at(data: Seq<u8>, height: int, row_len: int, r: int, b: int)
    requires
        data.len() == height * row_len,
        0 <= r < height,
        0 <= b < row_len,
    ensures
        rows_reversed(data, height, row_len).len() == data.len(),
        rows_reversed(data, height, row_len)[r * row_len + b] == data[(height - 1 - r) * row_len + b],
{
    lemma_row_and_byte(r, b, height, row_len);
}

/// Reversing the order of the rows twice gives back the bitmap it started from.
pub proof fn lemma_rows_reversed_involutive(data: Seq<u8>, height: nat, row_len: nat)
    requires
        data.len() == height * row_len,
    ensures
        rows_reversed(rows_reversed(data, height as int, row_len as int), height as int, row_len as int)
            == data,
{
    let h = height as int;
    let w = row_len as int;
    let once = rows_reversed(data, h, w);
    let twice = rows_reversed(once, h, w);
    assert forall|i: int| 0 <= i < data.len() implies twice[i] == data[i] by {
        lemma_index_in_row(i, h, w);
        let r = i / w;
        let b = i % w;
        lemma_row_and_byte(r, b, h, w);
        lemma_row_and_byte(h - 1 - r, b, h, w);
        assert(twice[i] == once[(h - 1 - r) * w + b]);
        assert(once[(h - 1 - r) * w + b] == data[(h - 1 - (h - 1 - r)) * w + b]);
    }
    assert(twice =~= data);
}

/// Reorders the rows of a bitmap of `height` rows of `row_len` bytes, last to first.
pub fn flip_rows(data: Vec<u8>, height: usize, row_len: usize) -> (flipped: Vec<u8>)
    requires
        data.len() == height * row_len,
    ensures
        flipped@ == rows_reversed(data@, height as int, row_len as int),
        flipped@.len() == data@.len(),
{
    let ghost target = rows_reversed(data@, height as int, row_len as int);
    let mut new_data: Vec<u8> = Vec::with_capacity(data.len());
    let mut row_i: usize = 0;
    while row_i < height
        invariant
            data.len() == height * row_len,
            target == rows_reversed(data@, height as int, row_len as int),
            row_i <= height,
            new_data.len() == row_i * row_len,
            forall|k: int| 0 <= k < new_data.len() ==> new_data@[k] == target[k],
        decreases height - row_i,
    {
        let mut byte_i: usize = 0;
        while byte_i < row_len
            invariant
                data.len() == height * row_len,
                target == rows_reversed(data@, height as int, row_len as int),
                row_i < height,
                byte_i <= row_len,
                new_data.len() == row_i * row_len + byte_i,
                forall|k: int| 0 <= k < new_data.len() ==> new_data@[k] == target[k],
            decreases row_len - byte_i,
        {
            proof {
                lemma_row_and_byte(row_i as int, byte_i as int, height as int, row_len as int);
                lemma_rows_reversed_at(data@, height as int, row_len as int, row_i as int, byte_i as int);
            }
            let old_idx = (height - row_i - 1) * row_len + byte_i;
            new_data.push(data[old_idx]);
            byte_i += 1;
        }
        assert(row_i * row_len + row_len == (row_i + 1) * row_len) by (nonlinear_arith);
        row_i += 1;
    }
    assert(new_data@ =~= target);
    new_data
}

// ---------------------------------------------------------------------------
// Channel order
// ---------------------------------------------------------------------------

/// `data` with the bytes at offsets 0 and 2 of each of its first `pixels`
/// four-byte pixels exchanged (BGR to RGB and back); every other byte is kept.
pub open spec fn red_blue_swapped(data: Seq<u8>, pixels: int) -> Seq<u8> {
    Seq::new(
        data.len(),
        |i: int|
            if i < 4 * pixels && i % 4 == 0 {
                data[i + 2]
            } else if i < 4 * pixels && i % 4 == 2 {
                data[i - 2]
            } else {
                data[i]
            },
    )
}

/// Within each of the first `pixels` four-byte pixels, bytes 0 and 2 change
/// places and bytes 1 and 3 stay; every byte after those pixels stays.
pub proof fn lemma_red_blue_swapped_bytes(data: Seq<u8>, pixels: int)
    requires
        0 <= pixels,
        pixels == 0 || 4 * pixels - 1 <= data.len(),
    ensures
        red_blue_swapped(data, pixels).len() == data.len(),
        forall|i: int|
            0 <= i < data.len() && i < 4 * pixels && i % 4 == 0 ==> #[trigger] red_blue_swapped(
                data,
                pixels,
            )[i] == data[i + 2],
        forall|i: int|
            0 <= i < data.len() && i < 4 * pixels && i % 4 == 2 ==> #[trigger] red_blue_swapped(
                data,
                pixels,
            )[i] == data[i - 2],
        forall|i: int|
            0 <= i < data.len() && !(i < 4 * pixels && (i % 4 == 0 || i % 4 == 2))
                ==> #[trigger] red_blue_swapped(data, pixels)[i] == data[i],
{
}

/// Pixel `k` (below `pixels`) after the exchange: its bytes 0 and 2 are the
/// original bytes 2 and 0, its bytes 1 and 3 are the original ones.
pub proof fn lemma_red_blue_swapped_pixel(data: Seq<u8>, pixels: int, k: int)
    requires
        0 <= k < pixels,
        4 * pixels <= data.len(),
    ensures
        red_blue_swapped(data, pixels)[4 * k] == data[4 * k + 2],
        red_blue_swapped(data, pixels)[4 * k + 1] == data[4 * k + 1],
        red_blue_swapped(data, pixels)[4 * k + 2] == data[4 * k],
        red_blue_swapped(data, pixels)[4 * k + 3] == data[4 * k + 3],
{
    assert((4 * k) % 4 == 0);
    assert((4 * k + 1) % 4 == 1);
    assert((4 * k + 2) % 4 == 2);
    assert((4 * k + 3) % 4 == 3);
}

/// Exchanging nothing changes nothing.
pub proof fn lemma_red_blue_swapped_none(data: Seq<u8>)
    ensures
        red_blue_swapped(data, 0) == data,
{
    assert(red_blue_swapped(data, 0) =~= data);
}

/// Exchanging the red and blue bytes twice gives back the bitmap it started from.
pub proof fn lemma_red_blue_swapped_involutive(data: Seq<u8>, pixels: nat)
    requires
        4 * pixels <= data.len() + 1,
    ensures
        red_blue_swapped(red_blue_swapped(data, pixels as int), pixels as int) == data,
{
    let once = red_blue_swapped(data, pixels as int);
    let twice = red_blue_swapped(once, pixels as int);
    assert forall|i: int| 0 <= i < data.len() implies twice[i] == data[i] by {
        if i < 4 * pixels && i % 4 == 0 {
            assert((i + 2) % 4 == 2);
        } else if i < 4 * pixels && i % 4 == 2 {
            assert((i - 2) % 4 == 0);
        }
    }
    assert(twice =~= data);
}

/// Swapping pixel `k` on top of the first `k` swapped pixels gives the first `k + 1` swapped.
proof fn lemma_swap_next_pixel(data: Seq<u8>, current: Seq<u8>, k: int)
    requires
        0 <= k,
        4 * k + 2 < data.len(),
        current == red_blue_swapped(data, k),
    ensures
        current.update(4 * k, current[4 * k + 2]).update(4 * k + 2, current[4 * k])
            == red_blue_swapped(data, k + 1),
{
    let next = current.update(4 * k, current[4 * k + 2]).update(4 * k + 2, current[4 * k]);
    let goal = red_blue_swapped(data, k + 1);
    assert((4 * k) % 4 == 0);
    assert((4 * k + 2) % 4 == 2);
    assert(current[4 * k] == data[4 * k]);
    assert(current[4 * k + 2] == data[4 * k + 2]);
    assert forall|i: int| 0 <= i < data.len() implies next[i] == goal[i] by {
        if i != 4 * k && i != 4 * k + 2 {
            if 4 * k <= i < 4 * k + 4 {
                assert(i % 4 == 1 || i % 4 == 3);
            }
        }
    }
    assert(next =~= goal);
}

/// Reorders the bytes of each pixel from BGR to RGB: in each of the
/// `height * width` pixels of `pixel_width == 4` bytes, bytes 0 and 2 change places.
pub fn flip_rgb(data: Vec<u8>, height: usize, width: usize, pixel_width: usize) -> (flipped: Vec<u8>)
    requires
        pixel_width == 4,
        width * pixel_width <= usize::MAX,
        height * width == 0 || height * width * 4 - 1 <= data.len(),
    ensures
        flipped@ == red_blue_swapped(data@, height * width),
        flipped@.len() == data@.len(),
        forall|i: int|
            0 <= i < data@.len() && i < 4 * (height * width) && i % 4 == 0 ==> flipped@[i]
                == data@[i + 2],
        forall|i: int|
            0 <= i < data@.len() && i < 4 * (height * width) && i % 4 == 2 ==> flipped@[i]
                == data@[i - 2],
        forall|i: int|
            0 <= i < data@.len() && !(i < 4 * (height * width) && (i % 4 == 0 || i % 4 == 2))
                ==> flipped@[i] == data@[i],
{
    proof {
        lemma_red_blue_swapped_bytes(data@, height * width);
    }
    let mut data = data;
    let ghost original = data@;
    let row_len = width * pixel_width;
    assert(red_blue_swapped(original, 0) =~= original);
    let mut y: usize = 0;
    while y < height
        invariant
            pixel_width == 4,
            row_len == width * 4,
            height * width == 0 || height * width * 4 - 1 <= original.len(),
            y <= height,
            data@ == red_blue_swapped(original, y * width),
        decreases height - y,
    {
        let mut x: usize = 0;
        while x < width
            invariant
                pixel_width == 4,
                row_len == width * 4,
                height * width == 0 || height * width * 4 - 1 <= original.len(),
                y < height,
                x <= width,
                data@ == red_blue_swapped(original, y * width + x),
            decreases width - x,
        {
            let ghost k = y * width + x;
            assert(k + 1 <= height * width && 0 <= k) by (nonlinear_arith)
                requires
                    k == y * width + x,
                    y < height,
                    x < width,
            ;
            assert(y * row_len + x * pixel_width == 4 * k && y * row_len <= 4 * k) by (nonlinear_arith)
                requires
                    k == y * width + x,
                    row_len == width * 4,
                    pixel_width == 4,
                    0 <= x,
            ;
            assert(4 * k + 2 < data.len());
            let first = y * row_len + x * pixel_width;
            let third = first + 2;
            proof {
                lemma_swap_next_pixel(original, data@, k);
            }
            let blue = data[first];
            let red = data[third];
            data.set(first, red);
            data.set(third, blue);
            x += 1;
        }
        assert(y * width + width == (y + 1) * width) by (nonlinear_arith);
        y += 1;
    }
    data
}

// ---------------------------------------------------------------------------
// Alpha channel
// ---------------------------------------------------------------------------

/// Some alpha byte (offset 3 of a four-byte pixel) of `data` is not zero.
pub open spec fn has_alpha(data: Seq<u8>) -> bool {
    exists|i: int| 0 <= i < data.len() && i % 4 == 3 && data[i] != 0
}

/// `data` with every alpha byte (offset 3 of a four-byte pixel) set to 255.
pub open spec fn alpha_filled(data: Seq<u8>) -> Seq<u8> {
    Seq::new(data.len(), |i: int| if i % 4 == 3 { 255u8 } else { data[i] })
}

/// `data` unchanged when it carries alpha information, else made fully opaque.
pub open spec fn alpha_fixed(data: Seq<u8>) -> Seq<u8> {
    if has_alpha(data) {
        data
    } else {
        alpha_filled(data)
    }
}

/// What fixing the alpha channel does, byte by byte: with some alpha byte
/// (offset 3 of a pixel) set anywhere in `data`, nothing changes; with none
/// set, every alpha byte of the whole buffer becomes 255 and every other byte
/// stays.
pub proof fn lemma_alpha_fixed_bytes(data: Seq<u8>)
    ensures
        alpha_fixed(data).len() == data.len(),
        (exists|i: int| 0 <= i < data.len() && i % 4 == 3 && data[i] != 0) ==> alpha_fixed(data)
            == data,
        (forall|i: int| 0 <= i < data.len() && i % 4 == 3 ==> data[i] == 0) ==> forall|i: int|
            0 <= i < data.len() ==> #[trigger] alpha_fixed(data)[i] == (if i % 4 == 3 {
                255u8
            } else {
                data[i]
            }),
{
}

/// A single set alpha byte, wherever it stands, keeps the whole buffer as it is.
pub proof fn lemma_alpha_kept(data: Seq<u8>, i: int)
    requires
        0 <= i < data.len(),
        i % 4 == 3,
        data[i] != 0,
    ensures
        alpha_fixed(data) == data,
{
}

/// With no alpha byte set, pixel `k` of the fixed buffer keeps its colour
/// bytes and is opaque.
pub proof fn lemma_alpha_filled_pixel(data: Seq<u8>, k: int)
    requires
        0 <= k,
        4 * k + 3 < data.len(),
        forall|i: int| 0 <= i < data.len() && i % 4 == 3 ==> data[i] == 0,
    ensures
        alpha_fixed(data)[4 * k] == data[4 * k],
        alpha_fixed(data)[4 * k + 1] == data[4 * k + 1],
        alpha_fixed(data)[4 * k + 2] == data[4 * k + 2],
        alpha_fixed(data)[4 * k + 3] == 255u8,
{
    assert((4 * k) % 4 == 0);
    assert((4 * k + 1) % 4 == 1);
    assert((4 * k + 2) % 4 == 2);
    assert((4 * k + 3) % 4 == 3);
    assert(!has_alpha(data));
}

/// Fixing the alpha channel a second time changes nothing.
pub proof fn lemma_alpha_fixed_idempotent(data: Seq<u8>)
    ensures
        alpha_fixed(alpha_fixed(data)) == alpha_fixed(data),
        has_alpha(alpha_fixed(data)) || data.len() <= 3,
{
    if !has_alpha(data) {
        let filled = alpha_filled(data);
        if data.len() > 3 {
            assert(3int % 4 == 3);
            assert(filled[3] == 255u8);
            assert(has_alpha(filled));
        } else {
            assert(alpha_filled(filled) =~= filled);
        }
    }
}

/// When no alpha byte of `data` is set (the capture could not tell the
/// transparency), sets every alpha byte to 255, making the image opaque.
pub fn fix_alpha(data: &mut Vec<u8>)
    ensures
        final(data)@ == alpha_fixed(old(data)@),
        final(data)@.len() == old(data)@.len(),
        (exists|i: int| 0 <= i < old(data)@.len() && i % 4 == 3 && old(data)@[i] != 0)
            ==> final(data)@ == old(data)@,
        (forall|i: int| 0 <= i < old(data)@.len() && i % 4 == 3 ==> old(data)@[i] == 0)
            ==> forall|i: int|
            0 <= i < old(data)@.len() ==> final(data)@[i] == (if i % 4 == 3 {
                255u8
            } else {
                old(data)@[i]
            }),
{
    proof {
        lemma_alpha_fixed_bytes(old(data)@);
    }
    let mut found = false;
    let mut n: usize = 0;
    while n < data.len()
        invariant
            n <= data.len(),
            found ==> has_alpha(data@),
            !found ==> forall|i: int| 0 <= i < n && i % 4 == 3 ==> data@[i] == 0,
        decreases data.len() - n,
    {
        if n % 4 == 3 && data[n] != 0 {
            found = true;
        }
        n += 1;
    }
    if !found {
        let ghost original = data@;
        let mut n: usize = 0;
        while n < data.len()
            invariant
                n <= data.len(),
                data.len() == original.len(),
                forall|i: int|
                    0 <= i < data.len() ==> data@[i] == (if i < n && i % 4 == 3 {
                        255u8
                    } else {
                        original[i]
                    }),
            decreases data.len() - n,
        {
            if n % 4 == 3 {
                data.set(n, 255);
            }
            n += 1;
        }
        assert(data@ =~= alpha_filled(original));
    }
}

} // verus!
