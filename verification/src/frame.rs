//! Frames of pixels: their brightness, and the forms in which they are handed on.

use vstd::prelude::*;

verus! {

/// Rows of pixels from the top, each pixel with one byte per channel. Colour frames hold blue, green
/// and red, in that order.
pub struct Frame {
    pub width: u32,
    pub height: u32,
    pub channels: usize,
    pub data: Vec<u8>,
}

impl Frame {
    /// There is a byte for every channel of every pixel.
    pub open spec fn wf(&self) -> bool {
        self.data@.len() == self.width * self.height * self.channels
    }
}

/// The brightness of a pixel: for colours the weights of BT.601 in 256ths, otherwise the mean of the
/// channels.
pub open spec fn pixel_luma(pixel: Seq<u8>) -> int {
    if pixel.len() >= 3 {
        (77 * pixel[2] + 150 * pixel[1] + 29 * pixel[0]) / 256
    } else if pixel.len() == 2 {
        (pixel[0] + pixel[1]) / 2
    } else {
        pixel[0] as int
    }
}

/// The brightness of the first pixels taken together.
pub open spec fn luma_sum(data: Seq<u8>, channels: int, count: int) -> int
    decreases count,
{
    if count <= 0 || channels <= 0 || data.len() < channels {
        0
    } else {
        pixel_luma(data.take(channels)) + luma_sum(data.skip(channels), channels, count - 1)
    }
}

/// The mean brightness of a frame. An empty frame is dark.
pub open spec fn mean_luma(frame: Frame) -> int {
    let pixels = frame.width * frame.height;
    if pixels == 0 || frame.channels == 0 {
        0
    } else {
        luma_sum(frame.data@, frame.channels as int, pixels) / pixels
    }
}

proof fn lemma_luma_bound(data: Seq<u8>, channels: int, count: int)
    requires
        count >= 0,
    ensures
        0 <= luma_sum(data, channels, count) <= 255 * count,
    decreases count,
{
    if !(count <= 0 || channels <= 0 || data.len() < channels) {
        lemma_luma_bound(data.skip(channels), channels, count - 1);
        let pixel = data.take(channels);
        assert(0 <= pixel_luma(pixel) <= 255);
    }
}

fn luma_at(data: &[u8], at: usize, channels: usize) -> (r: u64)
    requires
        channels > 0,
        at + channels <= data@.len(),
    ensures
        r == pixel_luma(data@.subrange(at as int, at + channels)),
        r <= 255,
{
    if channels >= 3 {
        let b = data[at] as u64;
        let g = data[at + 1] as u64;
        let r = data[at + 2] as u64;
        (77 * r + 150 * g + 29 * b) / 256
    } else if channels == 2 {
        (data[at] as u64 + data[at + 1] as u64) / 2
    } else {
        data[at] as u64
    }
}

pub fn frame_mean_luma(frame: &Frame) -> (r: u8)
    ensures
        r == mean_luma(*frame),
{
    proof {
        assert(frame.width * frame.height <= 0xffff_fffe_0000_0001) by (nonlinear_arith)
            requires
                frame.width <= 0xffff_ffff,
                frame.height <= 0xffff_ffff,
        ;
    }
    let pixels: u64 = frame.width as u64 * frame.height as u64;
    let channels = frame.channels;
    if pixels == 0 || channels == 0 {
        return 0;
    }
    let data = frame.data.as_slice();
    let mut total: u128 = 0;
    let mut at: usize = 0;
    let mut done: u64 = 0;
    let ghost all = luma_sum(data@, channels as int, pixels as int);
    proof {
        assert(data@.skip(0) =~= data@);
    }
    while done < pixels && data.len() - at >= channels
        invariant
            channels > 0,
            at <= data@.len(),
            done <= pixels,
            total <= 255 * done,
            all == total + luma_sum(data@.skip(at as int), channels as int, pixels - done),
        decreases pixels - done,
    {
        let luma: u64 = luma_at(data, at, channels);
        proof {
            let rest = data@.skip(at as int);
            assert(rest.take(channels as int) =~= data@.subrange(at as int, at + channels));
            assert(rest.skip(channels as int) =~= data@.skip(at + channels));
        }
        total = total + luma as u128;
        at = at + channels;
        done = done + 1;
    }
    proof {
        assert(total == all);
        lemma_luma_bound(data@, channels as int, pixels as int);
        assert(all / (pixels as int) <= 255) by (nonlinear_arith)
            requires
                pixels > 0,
                0 <= all <= 255 * pixels,
        ;
        assert(0 <= all / (pixels as int)) by (nonlinear_arith)
            requires
                pixels > 0,
                0 <= all,
        ;
    }
    (total / pixels as u128) as u8
}

/// A row of pixels from right to left.
pub open spec fn mirrored_row(row: Seq<u8>) -> Seq<u8>
    decreases row.len(),
{
    if row.len() < 3 {
        seq![]
    } else {
        mirrored_row(row.skip(3)) + row.take(3)
    }
}

/// The first rows of a buffer in which each row takes `stride` bytes, each mirrored.
pub open spec fn mirrored_rows(data: Seq<u8>, width: int, stride: int, rows: int) -> Seq<u8>
    decreases rows,
{
    if rows <= 0 {
        seq![]
    } else {
        mirrored_rows(data, width, stride, rows - 1) + mirrored_row(
            data.subrange((rows - 1) * stride, (rows - 1) * stride + 3 * width),
        )
    }
}

proof fn lemma_mirrored_row_push(row: Seq<u8>, pixel: Seq<u8>)
    requires
        pixel.len() == 3,
        row.len() % 3 == 0,
    ensures
        mirrored_row(row + pixel) == pixel + mirrored_row(row),
    decreases row.len(),
{
    if row.len() < 3 {
        assert(row.len() == 0);
        assert((row + pixel).skip(3) =~= seq![]);
        assert((row + pixel).take(3) =~= pixel);
        assert(mirrored_row((row + pixel).skip(3)) =~= seq![]);
        assert(mirrored_row(row) =~= seq![]);
        assert(mirrored_row(row + pixel) =~= pixel + mirrored_row(row));
    } else {
        lemma_mirrored_row_push(row.skip(3), pixel);
        assert((row + pixel).skip(3) =~= row.skip(3) + pixel);
        assert((row + pixel).take(3) =~= row.take(3));
        assert(mirrored_row(row + pixel) =~= pixel + mirrored_row(row));
    }
}

/// Mirroring a row twice gives it back.
pub proof fn mirroring_undoes_itself(row: Seq<u8>)
    requires
        row.len() % 3 == 0,
    ensures
        mirrored_row(mirrored_row(row)) == row,
        mirrored_row(row).len() == row.len(),
    decreases row.len(),
{
    if row.len() < 3 {
        assert(row =~= seq![]);
    } else {
        mirroring_undoes_itself(row.skip(3));
        lemma_mirrored_row_push(mirrored_row(row.skip(3)), row.take(3));
        assert(mirrored_row(row) == mirrored_row(row.skip(3)) + row.take(3));
        assert(row =~= row.take(3) + row.skip(3));
    }
}

fn push_mirrored_row(out: &mut Vec<u8>, data: &[u8], from: usize, width: usize)
    requires
        from + 3 * width <= data@.len(),
    ensures
        final(out)@ == old(out)@ + mirrored_row(data@.subrange(from as int, from + 3 * width)),
{
    let mut left: usize = width;
    let size: usize = data.len();
    let ghost start = out@;
    let ghost row = data@.subrange(from as int, from + 3 * width);
    proof {
        assert(row.skip(3 * width) =~= seq![]);
        assert(out@ =~= start + mirrored_row(row.skip(3 * width)));
    }
    while left > 0
        invariant
            left <= width,
            size == data@.len(),
            from + 3 * width <= size,
            row == data@.subrange(from as int, from + 3 * width),
            out@ == start + mirrored_row(row.skip(3 * left)),
        decreases left,
    {
        left = left - 1;
        let at: usize = from + 3 * left;
        let ghost before = out@;
        out.push(data[at]);
        out.push(data[at + 1]);
        out.push(data[at + 2]);
        proof {
            let rest = row.skip(3 * left);
            assert(rest.skip(3) =~= row.skip(3 * (left + 1)));
            assert(rest.take(3) =~= seq![data@[at as int], data@[at + 1], data@[at + 2]]);
            assert(out@ =~= before + rest.take(3));
            assert(out@ =~= start + mirrored_row(rest));
        }
    }
    proof {
        assert(row.skip(0) =~= row);
    }
}

proof fn lemma_mirrored_rows_len(data: Seq<u8>, width: int, stride: int, rows: int)
    requires
        rows >= 0,
        width >= 0,
        stride >= 0,
        rows > 0 ==> (rows - 1) * stride + 3 * width <= data.len(),
    ensures
        mirrored_rows(data, width, stride, rows).len() == width * rows * 3,
    decreases rows,
{
    if rows > 0 {
        assert((rows - 1) * stride == (rows - 2) * stride + stride) by (nonlinear_arith);
        assert(rows >= 2 ==> 0 <= (rows - 2) * stride) by (nonlinear_arith)
            requires
                stride >= 0,
        ;
        lemma_mirrored_rows_len(data, width, stride, rows - 1);
        assert(0 <= (rows - 1) * stride) by (nonlinear_arith)
            requires
                stride >= 0,
                rows > 0,
        ;
        let row = data.subrange((rows - 1) * stride, (rows - 1) * stride + 3 * width);
        assert(row.len() % 3 == 0);
        mirroring_undoes_itself(row);
        assert(width * rows * 3 == width * (rows - 1) * 3 + 3 * width) by (nonlinear_arith);
    } else {
        assert(width * rows * 3 == 0) by (nonlinear_arith)
            requires
                rows == 0,
        ;
    }
}

/// The frame of a sample of blue, green and red pixels, mirrored left to right. A row of the sample
/// takes `stride` bytes.
pub fn mirrored_frame(data: &[u8], width: u32, height: u32, stride: usize) -> (r: Frame)
    requires
        3 * width <= stride,
        height > 0 ==> (height - 1) * stride + 3 * width <= data@.len(),
        3 * width <= usize::MAX,
    ensures
        r.width == width,
        r.height == height,
        r.channels == 3,
        r.wf(),
        r.data@ == mirrored_rows(data@, width as int, stride as int, height as int),
{
    let mut out: Vec<u8> = Vec::new();
    let mut from: usize = 0;
    let mut done: u32 = 0;
    let columns: usize = width as usize;
    let size: usize = data.len();
    while done < height
        invariant
            columns == width,
            size == data@.len(),
            done <= height,
            3 * width <= stride,
            3 * width <= usize::MAX,
            height > 0 ==> (height - 1) * stride + 3 * width <= size,
            done < height ==> from == done * stride,
            out@ == mirrored_rows(data@, width as int, stride as int, done as int),
        decreases height - done,
    {
        proof {
            assert(done * stride <= (height - 1) * stride) by (nonlinear_arith)
                requires
                    done <= height - 1,
                    stride >= 0,
            ;
        }
        push_mirrored_row(&mut out, data, from, columns);
        done = done + 1;
        if done < height {
            proof {
                assert(done * stride <= (height - 1) * stride) by (nonlinear_arith)
                    requires
                        done <= height - 1,
                        stride >= 0,
                ;
                assert(done * stride == (done - 1) * stride + stride) by (nonlinear_arith);
            }
            from = from + stride;
        }
    }
    proof {
        lemma_mirrored_rows_len(data@, width as int, stride as int, height as int);
    }
    Frame { width, height, channels: 3, data: out }
}

/// Pixels of three bytes with the first and the last exchanged.
pub open spec fn swapped(data: Seq<u8>) -> Seq<u8> {
    Seq::new(
        data.len(),
        |k: int|
            if k % 3 == 0 {
                data[k + 2]
            } else if k % 3 == 2 {
                data[k - 2]
            } else {
                data[k]
            },
    )
}

/// Exchanging red and blue twice gives the pixels back.
pub proof fn swapping_undoes_itself(data: Seq<u8>)
    requires
        data.len() % 3 == 0,
    ensures
        swapped(swapped(data)) == data,
{
    assert(swapped(swapped(data)) =~= data);
}

/// Exchanges red and blue in every pixel.
pub fn swap_red_blue(data: &[u8]) -> (r: Vec<u8>)
    requires
        data@.len() % 3 == 0,
    ensures
        r@ == swapped(data@),
{
    let mut r: Vec<u8> = Vec::new();
    let mut at: usize = 0;
    while at < data.len()
        invariant
            data@.len() % 3 == 0,
            at % 3 == 0,
            at <= data@.len(),
            r@ == swapped(data@).take(at as int),
        decreases data@.len() - at,
    {
        let ghost before = r@;
        r.push(data[at + 2]);
        r.push(data[at + 1]);
        r.push(data[at]);
        proof {
            assert(r@ =~= swapped(data@).take(at + 3));
        }
        at = at + 3;
    }
    proof {
        assert(swapped(data@).take(data@.len() as int) =~= swapped(data@));
    }
    r
}

/// One channel of pixels of three bytes.
pub open spec fn channel(data: Seq<u8>, c: int) -> Seq<u8> {
    Seq::new(data.len() / 3, |i: int| data[3 * i + c])
}

/// The three channels of interleaved pixels, one after the other.
pub open spec fn planes_of(data: Seq<u8>) -> Seq<u8> {
    channel(data, 0) + channel(data, 1) + channel(data, 2)
}

fn push_channel(out: &mut Vec<u8>, data: &[u8], c: usize)
    requires
        c < 3,
        data@.len() % 3 == 0,
    ensures
        final(out)@ == old(out)@ + channel(data@, c as int),
{
    let ghost start = out@;
    let mut at: usize = 0;
    let ghost mut done: int = 0;
    while at < data.len()
        invariant
            c < 3,
            data@.len() % 3 == 0,
            at == 3 * done,
            at <= data@.len(),
            out@ == start + channel(data@, c as int).take(done),
        decreases data@.len() - at,
    {
        out.push(data[at + c]);
        proof {
            let all = channel(data@, c as int);
            assert(all.take(done + 1) =~= all.take(done).push(all[done]));
            assert(out@ =~= start + all.take(done + 1));
            done = done + 1;
        }
        at = at + 3;
    }
    proof {
        let all = channel(data@, c as int);
        assert(all.take(done) =~= all);
    }
}

/// Interleaved pixels as one plane per channel.
pub fn planes(data: &[u8]) -> (r: Vec<u8>)
    requires
        data@.len() % 3 == 0,
    ensures
        r@ == planes_of(data@),
{
    let mut r: Vec<u8> = Vec::new();
    push_channel(&mut r, data, 0);
    push_channel(&mut r, data, 1);
    push_channel(&mut r, data, 2);
    proof {
        assert(r@ =~= planes_of(data@));
    }
    r
}

/// A pixel's brightness lies between its darkest and its brightest channel. Of a colour, green counts
/// for 150, red for 77 and blue for 29 parts of 256, rounded down; the mean of two channels is rounded
/// down too, and one channel is the brightness itself.
pub proof fn brightness_weighs_the_channels(pixel: Seq<u8>, low: u8, high: u8)
    requires
        pixel.len() > 0,
    ensures
        pixel.len() >= 3 ==> 256 * pixel_luma(pixel) <= 29 * pixel[0] + 150 * pixel[1] + 77
            * pixel[2] < 256 * (pixel_luma(pixel) + 1),
        pixel.len() == 2 ==> 2 * pixel_luma(pixel) <= pixel[0] + pixel[1] <= 2 * pixel_luma(pixel)
            + 1,
        pixel.len() == 1 ==> pixel_luma(pixel) == pixel[0],
        (forall|c: int| 0 <= c < pixel.len() ==> low <= #[trigger] pixel[c] <= high) ==> low
            <= pixel_luma(pixel) <= high,
{
    assert(pixel[0] == pixel[0]);
    if pixel.len() >= 2 {
        assert(pixel[1] == pixel[1]);
    }
    if pixel.len() >= 3 {
        assert(pixel[2] == pixel[2]);
    }
}

/// The brightness of pixels taken together goes by parts, and that of one pixel is its own.
pub proof fn brightness_adds_up(first: Seq<u8>, second: Seq<u8>, channels: int, n: int, m: int)
    requires
        channels > 0,
        n >= 0,
        m >= 0,
        first.len() == n * channels,
        second.len() == m * channels,
    ensures
        luma_sum(first + second, channels, n + m) == luma_sum(first, channels, n) + luma_sum(
            second,
            channels,
            m,
        ),
        n == 1 ==> luma_sum(first, channels, 1) == pixel_luma(first),
    decreases n,
{
    let all = first + second;
    if n == 0 {
        assert(first.len() == 0) by (nonlinear_arith)
            requires
                n == 0,
                first.len() == n * channels,
        ;
        assert(all =~= second);
    } else {
        assert(n * channels == (n - 1) * channels + channels) by (nonlinear_arith);
        assert((n - 1) * channels >= 0) by (nonlinear_arith)
            requires
                n >= 1,
                channels > 0,
        ;
        let rest = first.skip(channels);
        brightness_adds_up(rest, second, channels, n - 1, m);
        assert(all.take(channels) =~= first.take(channels));
        assert(all.skip(channels) =~= rest + second);
        assert(m * channels >= 0) by (nonlinear_arith)
            requires
                m >= 0,
                channels > 0,
        ;
        if n == 1 {
            assert(1 * channels == channels);
            assert(first.take(channels) =~= first);
            assert(luma_sum(rest, channels, 0) == 0);
        }
    }
}

/// The bytes of one pixel of a frame.
pub open spec fn pixel_at(frame: Frame, i: int) -> Seq<u8> {
    frame.data@.subrange(i * frame.channels, i * frame.channels + frame.channels)
}

proof fn lemma_sum_between(data: Seq<u8>, channels: int, count: int, low: int, high: int)
    requires
        channels > 0,
        count >= 0,
        data.len() >= count * channels,
        forall|i: int|
            0 <= i < count ==> low <= #[trigger] pixel_luma(
                data.subrange(i * channels, i * channels + channels),
            ) <= high,
    ensures
        low * count <= luma_sum(data, channels, count) <= high * count,
    decreases count,
{
    if count > 0 {
        assert(count * channels == (count - 1) * channels + channels) by (nonlinear_arith);
        assert((count - 1) * channels >= 0) by (nonlinear_arith)
            requires
                count >= 1,
                channels > 0,
        ;
        let rest = data.skip(channels);
        assert(0 * channels == 0) by (nonlinear_arith);
        assert(data.subrange(0 * channels, 0 * channels + channels) =~= data.take(channels));
        assert(low <= pixel_luma(data.subrange(0 * channels, 0 * channels + channels)) <= high);
        assert forall|i: int| 0 <= i < count - 1 implies low <= #[trigger] pixel_luma(
            rest.subrange(i * channels, i * channels + channels),
        ) <= high by {
            let j = i + 1;
            assert(j * channels == i * channels + channels) by (nonlinear_arith)
                requires
                    j == i + 1,
            ;
            assert(0 <= i * channels && i * channels + channels <= (count - 1) * channels)
                by (nonlinear_arith)
                requires
                    0 <= i < count - 1,
                    channels > 0,
            ;
            assert(rest.subrange(i * channels, i * channels + channels) =~= data.subrange(
                j * channels,
                j * channels + channels,
            ));
            assert(low <= pixel_luma(data.subrange(j * channels, j * channels + channels)) <= high);
        }
        lemma_sum_between(rest, channels, count - 1, low, high);
        assert(low * count == low * (count - 1) + low) by (nonlinear_arith);
        assert(high * count == high * (count - 1) + high) by (nonlinear_arith);
    } else {
        assert(low * count == 0 && high * count == 0) by (nonlinear_arith)
            requires
                count == 0,
        ;
    }
}

/// The mean brightness of a frame lies between its darkest and its brightest pixel, whatever its size.
/// A frame whose pixels are all as bright has that brightness.
pub proof fn the_mean_lies_between_the_extremes(frame: Frame, low: int, high: int)
    requires
        frame.wf(),
        frame.width > 0,
        frame.height > 0,
        frame.channels > 0,
        forall|i: int|
            0 <= i < frame.width * frame.height ==> low <= pixel_luma(#[trigger] pixel_at(frame, i))
                <= high,
    ensures
        low <= mean_luma(frame) <= high,
        low == high ==> mean_luma(frame) == low,
{
    let pixels = frame.width * frame.height;
    let channels = frame.channels as int;
    assert(pixels > 0) by (nonlinear_arith)
        requires
            pixels == frame.width * frame.height,
            frame.width > 0,
            frame.height > 0,
    ;
    assert forall|i: int| 0 <= i < pixels implies low <= #[trigger] pixel_luma(
        frame.data@.subrange(i * channels, i * channels + channels),
    ) <= high by {
        assert(pixel_at(frame, i) == frame.data@.subrange(i * channels, i * channels + channels));
    }
    lemma_sum_between(frame.data@, channels, pixels, low, high);
    let all = luma_sum(frame.data@, channels, pixels);
    assert(low <= all / pixels <= high) by (nonlinear_arith)
        requires
            pixels > 0,
            low * pixels <= all <= high * pixels,
    ;
}

/// The mean is the brightness of all pixels taken together, shared out evenly and rounded down.
pub proof fn the_mean_shares_the_brightness_out(frame: Frame)
    requires
        frame.wf(),
        frame.width > 0,
        frame.height > 0,
        frame.channels > 0,
    ensures
        mean_luma(frame) * (frame.width * frame.height) <= luma_sum(
            frame.data@,
            frame.channels as int,
            frame.width * frame.height,
        ) < (mean_luma(frame) + 1) * (frame.width * frame.height),
{
    let pixels = frame.width * frame.height;
    assert(pixels > 0) by (nonlinear_arith)
        requires
            pixels == frame.width * frame.height,
            frame.width > 0,
            frame.height > 0,
    ;
    let all = luma_sum(frame.data@, frame.channels as int, pixels);
    let mean = all / pixels;
    assert(mean * pixels <= all < (mean + 1) * pixels) by (nonlinear_arith)
        requires
            pixels > 0,
            mean == all / pixels,
    ;
}

/// A frame without pixels or channels is dark.
pub proof fn an_empty_frame_is_dark(frame: Frame)
    requires
        frame.width == 0 || frame.height == 0 || frame.channels == 0,
    ensures
        mean_luma(frame) == 0,
{
    assert(frame.width * frame.height == 0 || frame.channels == 0) by (nonlinear_arith)
        requires
            frame.width == 0 || frame.height == 0 || frame.channels == 0,
    ;
}

proof fn lemma_mirrored_byte(row: Seq<u8>, n: int, x: int, c: int)
    requires
        row.len() == 3 * n,
        0 <= x < n,
        0 <= c < 3,
    ensures
        mirrored_row(row).len() == row.len(),
        mirrored_row(row)[3 * x + c] == row[3 * (n - 1 - x) + c],
    decreases n,
{
    mirroring_undoes_itself(row);
    let rest = row.skip(3);
    mirroring_undoes_itself(rest);
    if x < n - 1 {
        lemma_mirrored_byte(rest, n - 1, x, c);
        assert(rest[3 * (n - 2 - x) + c] == row[3 * (n - 1 - x) + c]);
    } else {
        assert(row.take(3)[c] == row[c]);
    }
}

/// Mirroring puts the pixel of every column at the same distance from the other side of its row.
pub proof fn mirroring_exchanges_left_and_right(
    data: Seq<u8>,
    width: int,
    stride: int,
    rows: int,
    x: int,
    y: int,
    c: int,
)
    requires
        0 <= x < width,
        0 <= y < rows,
        0 <= c < 3,
        3 * width <= stride,
        (rows - 1) * stride + 3 * width <= data.len(),
    ensures
        mirrored_rows(data, width, stride, rows).len() == width * rows * 3,
        mirrored_rows(data, width, stride, rows)[(y * width + x) * 3 + c] == data[y * stride + 3 * (
        width - 1 - x) + c],
    decreases rows,
{
    lemma_mirrored_rows_len(data, width, stride, rows);
    assert((rows - 1) * stride == (rows - 2) * stride + stride) by (nonlinear_arith);
    assert(rows >= 2 ==> 0 <= (rows - 2) * stride) by (nonlinear_arith)
        requires
            stride >= 0,
    ;
    lemma_mirrored_rows_len(data, width, stride, rows - 1);
    assert(0 <= (rows - 1) * stride) by (nonlinear_arith)
        requires
            stride >= 0,
            rows > 0,
    ;
    let row = data.subrange((rows - 1) * stride, (rows - 1) * stride + 3 * width);
    mirroring_undoes_itself(row);
    let at = (y * width + x) * 3 + c;
    let done = width * (rows - 1) * 3;
    if y < rows - 1 {
        mirroring_exchanges_left_and_right(data, width, stride, rows - 1, x, y, c);
        assert(0 <= at < done) by (nonlinear_arith)
            requires
                at == (y * width + x) * 3 + c,
                done == width * (rows - 1) * 3,
                0 <= x < width,
                0 <= y < rows - 1,
                0 <= c < 3,
        ;
    } else {
        assert(at == done + 3 * x + c) by (nonlinear_arith)
            requires
                at == (y * width + x) * 3 + c,
                done == width * (rows - 1) * 3,
                y == rows - 1,
        ;
        lemma_mirrored_byte(row, width, x, c);
        assert(row[3 * (width - 1 - x) + c] == data[(rows - 1) * stride + 3 * (width - 1 - x) + c]);
    }
}

/// Every pixel keeps its place and its middle channel, and exchanges the other two.
pub proof fn exchanging_red_and_blue_keeps_the_rest(data: Seq<u8>, i: int)
    requires
        data.len() % 3 == 0,
        0 <= 3 * i < data.len(),
    ensures
        swapped(data).len() == data.len(),
        swapped(data)[3 * i] == data[3 * i + 2],
        swapped(data)[3 * i + 1] == data[3 * i + 1],
        swapped(data)[3 * i + 2] == data[3 * i],
{
}

/// A plane holds one channel of every pixel, in the order of the pixels.
pub proof fn planes_hold_one_channel_each(data: Seq<u8>, i: int, c: int)
    requires
        data.len() % 3 == 0,
        0 <= 3 * i < data.len(),
        0 <= c < 3,
    ensures
        planes_of(data).len() == data.len(),
        planes_of(data)[c * (data.len() as int / 3) + i] == data[3 * i + c],
{
    let n = data.len() as int / 3;
    assert(c == 0 || c == 1 || c == 2);
    assert(0 * n == 0 && 1 * n == n && 2 * n == n + n) by (nonlinear_arith);
    assert(channel(data, 0)[i] == data[3 * i]);
    assert(channel(data, 1)[i] == data[3 * i + 1]);
    assert(channel(data, 2)[i] == data[3 * i + 2]);
}

} // verus!
